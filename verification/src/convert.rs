//! Conversions of whole vectors, item by item.
use vstd::prelude::*;

use crate::error::ModelError;
use crate::ext::{call_succeeds, VecExt};

verus! {

/// `f` applied to each item of `v`, in order.
pub fn convert_vec<F, T, U>(f: F, v: Vec<T>) -> (r: Vec<U>) where F: Fn(T) -> U
    requires
        forall|i: int| 0 <= i < v@.len() ==> call_requires(f, (v@[i],)),
    ensures
        r@.len() == v@.len(),
        forall|i: int| 0 <= i < r@.len() ==> call_ensures(f, (v@[i],), #[trigger] r@[i]),
{
    v.map(f)
}

/// `f` applied to each item of `v`, in order, or the error of the first
/// item on which `f` fails, every earlier item having succeeded.
pub fn try_convert_vec<F, T, U, E>(f: F, v: Vec<T>) -> (r: Result<Vec<U>, E>) where
    F: Fn(T) -> Result<U, E>,
    requires
        forall|i: int| 0 <= i < v@.len() ==> call_requires(f, (v@[i],)),
    ensures
        r matches Ok(w) ==> w@.len() == v@.len() && forall|i: int|
            0 <= i < w@.len() ==> call_ensures(f, (v@[i],), Ok::<U, E>(#[trigger] w@[i])),
        r matches Err(e) ==> exists|i: int|
            0 <= i < v@.len() && call_ensures(f, (#[trigger] v@[i],), Err::<U, E>(e)) && forall|j: int|
                0 <= j < i ==> call_succeeds(f, #[trigger] v@[j]),
{
    let ghost s = v@;
    let r = v.try_map(f);
    proof {
        if r is Err {
            let e = r->Err_0;
            let i = choose|i: int|
                0 <= i < s.len() && call_ensures(f, (#[trigger] s[i],), Err::<U, E>(e)) && forall|j: int|
                    0 <= j < i ==> call_succeeds(f, #[trigger] s[j]);
            assert(0 <= i < s.len() && call_ensures(f, (s[i],), Err::<U, E>(e)));
        }
    }
    r
}

/// `t` as a success.
pub fn to_ok<T>(t: T) -> (r: Result<T, ModelError>)
    ensures
        r == Ok::<T, ModelError>(t),
{
    Ok(t)
}

/// Forgets `t`.
pub fn to_unit<T>(_t: T) {
}

} // verus!
