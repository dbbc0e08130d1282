//! Consuming operations on vectors.
use vstd::prelude::*;
use vstd::std_specs::cmp::PartialEqSpec;

verus! {

/// Whether `f` can succeed on `x`: some success is among its outcomes.
pub open spec fn call_succeeds<F: Fn(T) -> Result<R, E>, T, R, E>(f: F, x: T) -> bool {
    exists|u: R| #[trigger] call_ensures(f, (x,), Ok::<R, E>(u))
}

/// Whole-vector operations that consume the vector.
pub trait VecExt<T>: Sized {
    /// The vector of `f` applied to each element, in order.
    fn map<F, R>(self, f: F) -> (r: Vec<R>) where F: Fn(T) -> R
        requires
            forall|i: int| 0 <= i < self.vec_view().len() ==> call_requires(f, (self.vec_view()[i],)),
        ensures
            r@.len() == self.vec_view().len(),
            forall|i: int|
                0 <= i < r@.len() ==> call_ensures(f, (self.vec_view()[i],), #[trigger] r@[i]),
    ;

    /// The vector with `t` added at the end.
    fn add_one(self, t: T) -> (r: Vec<T>)
        ensures
            r@ == self.vec_view().push(t),
    ;

    /// The vector without the elements equal to `t`, in order.
    fn without(self, t: &T) -> (r: Vec<T>) where T: PartialEq
        ensures
            T::obeys_eq_spec() ==> r@ == self.vec_view().filter(|x: T| !x.eq_spec(t)),
    ;

    /// The vector of `f` applied to each element, or the first error `f` gives.
    fn try_map<F, R, E>(self, f: F) -> (r: Result<Vec<R>, E>) where F: Fn(T) -> Result<R, E>
        requires
            forall|i: int| 0 <= i < self.vec_view().len() ==> call_requires(f, (self.vec_view()[i],)),
        ensures
            r matches Ok(v) ==> v@.len() == self.vec_view().len() && forall|i: int|
                0 <= i < v@.len() ==> call_ensures(
                    f,
                    (self.vec_view()[i],),
                    Ok::<R, E>(#[trigger] v@[i]),
                ),
            r matches Err(e) ==> exists|i: int|
                0 <= i < self.vec_view().len() && call_ensures(
                    f,
                    (#[trigger] self.vec_view()[i],),
                    Err::<R, E>(e),
                ) && forall|j: int| 0 <= j < i ==> call_succeeds(f, #[trigger] self.vec_view()[j]),
    ;

    /// The elements, as a sequence.
    spec fn vec_view(&self) -> Seq<T>;
}

impl<T> VecExt<T> for Vec<T> {
    open spec fn vec_view(&self) -> Seq<T> {
        self@
    }

    fn map<F, R>(self, f: F) -> (r: Vec<R>) where F: Fn(T) -> R {
        let ghost s = self@;
        let mut r: Vec<R> = Vec::new();
        proof {
            assert forall|i: int| 0 <= i < s.len() implies call_requires(f, (s[i],)) by {
                assert(s[i] == self.vec_view()[i]);
            }
        }
        for x in it: self
            invariant
                s == it.seq(),
                forall|i: int| 0 <= i < s.len() ==> call_requires(f, (s[i],)),
                r@.len() == it.index(),
                forall|i: int| 0 <= i < r@.len() ==> call_ensures(f, (s[i],), #[trigger] r@[i]),
        {
            r.push(f(x));
        }
        r
    }

    fn add_one(self, t: T) -> (r: Vec<T>) {
        let mut v = self;
        v.push(t);
        v
    }

    fn without(self, t: &T) -> (r: Vec<T>) where T: PartialEq {
        let ghost s = self@;
        let mut r: Vec<T> = Vec::new();
        for x in it: self
            invariant
                s == it.seq(),
                T::obeys_eq_spec() ==> r@ == s.take(it.index() as int).filter(
                    |y: T| !y.eq_spec(t),
                ),
        {
            let ghost k = it.index();
            proof {
                assert(s.take(k + 1).drop_last() =~= s.take(k as int));
                reveal_with_fuel(Seq::filter, 1);
            }
            if !(x == *t) {
                r.push(x);
            }
        }
        proof {
            assert(s.take(s.len() as int) =~= s);
        }
        r
    }

    fn try_map<F, R, E>(self, f: F) -> (r: Result<Vec<R>, E>) where F: Fn(T) -> Result<R, E> {
        let ghost s = self@;
        let mut r: Vec<R> = Vec::new();
        proof {
            assert forall|i: int| 0 <= i < s.len() implies call_requires(f, (s[i],)) by {
                assert(s[i] == self.vec_view()[i]);
            }
        }
        for x in it: self
            invariant
                s == it.seq(),
                s == self.vec_view(),
                forall|i: int| 0 <= i < s.len() ==> call_requires(f, (s[i],)),
                r@.len() == it.index(),
                forall|i: int|
                    0 <= i < r@.len() ==> call_ensures(f, (s[i],), Ok::<R, E>(#[trigger] r@[i])),
        {
            let ghost k = it.index();
            match f(x) {
                Ok(y) => r.push(y),
                Err(e) => {
                    proof {
                        assert(call_ensures(f, (s[k as int],), Err::<R, E>(e)));
                        assert(s[k as int] == self.vec_view()[k as int]);
                        assert forall|j: int| 0 <= j < k implies call_succeeds(f, #[trigger] self.vec_view()[j]) by {
                            assert(call_ensures(f, (s[j],), Ok::<R, E>(r@[j])));
                            assert(s[j] == self.vec_view()[j]);
                        }
                        assert(k < s.len());
                        assert(0 <= k < self.vec_view().len() && call_ensures(
                            f,
                            (self.vec_view()[k as int],),
                            Err::<R, E>(e),
                        ) && forall|j: int| 0 <= j < k ==> call_succeeds(f, #[trigger] self.vec_view()[j]));
                    }
                    return Err(e);
                },
            }
        }
        Ok(r)
    }
}

} // verus!
