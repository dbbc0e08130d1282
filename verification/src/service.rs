//! The decisions of the web service: which item a request path names, whether
//! a list is asked for in full, and which status an error answers with.
use vstd::prelude::*;

use crate::error::ModelError;
use crate::uuid::{uuid_of_text, Uuid};

verus! {

/// The identifier that a request names.
#[derive(Debug)]
pub struct Key {
    pub id: Uuid,
}

impl Key {
    /// The key of `id`.
    pub fn new(id: Uuid) -> (k: Key)
        ensures
            k.id == id,
    {
        Key { id }
    }
}

/// The text after the last `'/'` of `s`, or all of `s` where it has none.
pub open spec fn last_segment(s: Seq<char>) -> Seq<char>
    decreases s.len(),
{
    if s.len() == 0 || s.last() == '/' {
        Seq::<char>::empty()
    } else {
        last_segment(s.drop_last()).push(s.last())
    }
}

/// The key that a request path names: its last segment, read as an
/// identifier; `None` where it is no identifier.
pub fn key_from_path(path: &str) -> (r: Option<Key>)
    ensures
        match uuid_of_text(last_segment(path@)) {
            Some(u) => r matches Some(k) && k.id == u,
            None => r is None,
        },
{
    let v = crate::text::chars_of(path);
    let mut start: usize = v.len();
    proof {
        assert(v@.subrange(start as int, v@.len() as int) =~= Seq::<char>::empty());
        assert(v@.take(start as int) =~= v@);
    }
    while start > 0 && v[start - 1] != '/'
        invariant
            start <= v@.len(),
            v@ == path@,
            last_segment(v@) == last_segment(v@.take(start as int)) + v@.subrange(
                start as int,
                v@.len() as int,
            ),
        decreases start,
    {
        proof {
            let t = v@.take(start as int);
            assert(t.drop_last() =~= v@.take(start - 1));
            assert(last_segment(t) == last_segment(v@.take(start - 1)).push(v@[start - 1]));
            assert(last_segment(v@.take(start - 1)).push(v@[start - 1]) + v@.subrange(
                start as int,
                v@.len() as int,
            ) =~= last_segment(v@.take(start - 1)) + v@.subrange(start - 1, v@.len() as int));
        }
        start = start - 1;
    }
    proof {
        assert(last_segment(v@.take(start as int)) =~= Seq::<char>::empty());
        assert(Seq::<char>::empty() + v@.subrange(start as int, v@.len() as int) =~= v@.subrange(
            start as int,
            v@.len() as int,
        ));
    }
    let seg = crate::text::string_from_chars(&v, start, v.len());
    match Uuid::from_str(seg.as_str()) {
        Ok(u) => Some(Key::new(u)),
        Err(_) => None,
    }
}

/// The query of a list request: whether the items are asked for in full.
#[derive(Debug)]
pub struct ListQuery {
    pub full: Option<bool>,
}

impl ListQuery {
    /// Whether whole items are asked for, not only summaries: only where
    /// `full` is given as true.
    pub fn wants_full(&self) -> (b: bool)
        ensures
            b == (self.full == Some(true)),
    {
        match self.full {
            Some(true) => true,
            _ => false,
        }
    }
}

/// The body of an error answer: the error as text.
#[derive(Debug)]
pub struct ErrorReport {
    pub error: String,
}

/// The HTTP status that an error answers with: 404 where no item has the
/// asked key, 500 otherwise.
pub fn error_status(e: &ModelError) -> (s: u16)
    ensures
        s == if e is NoKey {
            404u16
        } else {
            500u16
        },
{
    match e {
        ModelError::NoKey(_) => 404,
        _ => 500,
    }
}

} // verus!
