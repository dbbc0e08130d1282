//! Parts read from raw bytes, line by line, as a buffered reader gives them.
use vstd::prelude::*;
use vstd::utf8::{decode_utf8, valid_utf8};

use crate::parts::clone_parts;
use crate::text::{trim, trim_spec};


verus! {

/// The pieces of `b` between the newline bytes.
pub open spec fn split_nl_bytes(b: Seq<u8>) -> Seq<Seq<u8>>
    decreases b.len(),
{
    if b.len() == 0 {
        seq![Seq::<u8>::empty()]
    } else {
        let prev = split_nl_bytes(b.drop_last());
        if b.last() == 10u8 {
            prev.push(Seq::<u8>::empty())
        } else {
            prev.update(prev.len() - 1, prev.last().push(b.last()))
        }
    }
}

/// `split_nl_bytes` always gives at least one piece.
pub proof fn lemma_split_nl_bytes_len(b: Seq<u8>)
    ensures
        split_nl_bytes(b).len() >= 1,
    decreases b.len(),
{
    if b.len() > 0 {
        lemma_split_nl_bytes_len(b.drop_last());
    }
}

/// `b` without one trailing carriage return byte.
pub open spec fn strip_cr_bytes(b: Seq<u8>) -> Seq<u8> {
    if b.len() > 0 && b.last() == 13u8 {
        b.drop_last()
    } else {
        b
    }
}

/// The lines of `b`: split at newline bytes, a carriage return before a newline
/// dropped, no final empty line after a final newline.
pub open spec fn byte_lines_spec(b: Seq<u8>) -> Seq<Seq<u8>> {
    let p = split_nl_bytes(b);
    let body = if p.last().len() == 0 { p.drop_last() } else { p };
    Seq::new(
        body.len(),
        |i: int|
            if i < p.len() - 1 {
                strip_cr_bytes(body[i])
            } else {
                body[i]
            },
    )
}

/// The bytes `v[from..to]` as a new vector.
pub fn bytes_between(v: &[u8], from: usize, to: usize) -> (r: Vec<u8>)
    requires
        from <= to <= v@.len(),
    ensures
        r@ == v@.subrange(from as int, to as int),
{
    let mut r: Vec<u8> = Vec::new();
    let mut i = from;
    while i < to
        invariant
            from <= i <= to <= v@.len(),
            r@ == v@.subrange(from as int, i as int),
        decreases to - i,
    {
        r.push(v[i]);
        proof {
            assert(v@.subrange(from as int, i + 1) =~= v@.subrange(from as int, i as int).push(
                v@[i as int],
            ));
        }
        i = i + 1;
    }
    r
}

/// The lines of the bytes `b`, as `BufRead::lines` cuts them.
pub fn byte_lines(input: &[u8]) -> (r: Vec<Vec<u8>>)
    ensures
        r@.map_values(|l: Vec<u8>| l@) == byte_lines_spec(input@),
{
    let v = input;
    // pieces between newlines, as (start, end) index pairs
    let mut starts: Vec<usize> = Vec::new();
    let mut ends: Vec<usize> = Vec::new();
    let mut start: usize = 0;
    let mut i: usize = 0;
    proof {
        assert(v@.take(0) =~= Seq::<u8>::empty());
        assert(v@.subrange(0, 0) =~= Seq::<u8>::empty());
    }
    while i < v.len()
        invariant
            0 <= start <= i <= v@.len(),
            v@ == input@,
            starts@.len() == ends@.len(),
            split_nl_bytes(v@.take(i as int)) =~= Seq::new(
                starts@.len(),
                |k: int| v@.subrange(starts@[k] as int, ends@[k] as int),
            ).push(v@.subrange(start as int, i as int)),
            forall|k: int|
                0 <= k < starts@.len() ==> #[trigger] starts@[k] <= ends@[k] && ends@[k] < start
                    && v@[ends@[k] as int] == 10u8,
        decreases v.len() - i,
    {
        let ghost old_pieces = Seq::new(
            starts@.len(),
            |k: int| v@.subrange(starts@[k] as int, ends@[k] as int),
        );
        proof {
            assert(v@.take(i + 1).drop_last() =~= v@.take(i as int));
        }
        let ghost prev_starts = starts@;
        let ghost prev_ends = ends@;
        let ghost prev_start = start;
        if v[i] == 10u8 {
            starts.push(start);
            ends.push(i);
            start = i + 1;
            proof {
                let new_pieces = Seq::new(
                    starts@.len(),
                    |k: int| v@.subrange(starts@[k] as int, ends@[k] as int),
                );
                assert(new_pieces =~= old_pieces.push(v@.subrange(starts@.last() as int, i as int)));
                assert(v@.subrange(start as int, i + 1) =~= Seq::<u8>::empty());
                assert forall|k: int| 0 <= k < starts@.len() implies #[trigger] starts@[k] <= ends@[k]
                    && ends@[k] < start && v@[ends@[k] as int] == 10u8 by {
                    if k < starts@.len() - 1 {
                        assert(starts@[k] == prev_starts[k] && ends@[k] == prev_ends[k]);
                        assert(prev_ends[k] < prev_start);
                    }
                }
            }
        } else {
            proof {
                assert(v@.subrange(start as int, i + 1) =~= v@.subrange(start as int, i as int).push(
                    v@[i as int],
                ));
            }
        }
        i = i + 1;
    }
    proof {
        assert(v@.take(v@.len() as int) =~= v@);
        assert(v@ == input@);
    }
    let ghost old_len = starts@.len();
    let ghost old_starts = starts@;
    let ghost old_ends = ends@;
    // the last piece counts as a line only if it is not empty
    if start < v.len() {
        starts.push(start);
        ends.push(v.len());
    }
    let ghost p = split_nl_bytes(input@);
    proof {
        lemma_split_nl_bytes_len(input@);
        assert(p.len() == old_len + 1);
        assert(p.last() == v@.subrange(start as int, v@.len() as int));
        assert forall|m: int|
            #![trigger starts@[m]]
            #![trigger ends@[m]]
            0 <= m < starts@.len() implies starts@[m] <= ends@[m]
            <= v@.len() && (ends@[m] < v@.len() <==> m < p.len() - 1) && v@.subrange(
            starts@[m] as int,
            ends@[m] as int,
        ) == p[m] by {
            if m < old_len {
                assert(starts@[m] == old_starts[m] && ends@[m] == old_ends[m]);
            }
        }
    }
    let mut r: Vec<Vec<u8>> = Vec::new();
    let mut k: usize = 0;
    while k < starts.len()
        invariant
            v@ == input@,
            p == split_nl_bytes(input@),
            p.len() >= 1,
            starts@.len() == ends@.len(),
            k <= starts@.len(),
            starts@.len() == byte_lines_spec(input@).len(),
            forall|m: int|
                0 <= m < starts@.len() ==> #[trigger] starts@[m] <= ends@[m] <= v@.len(),
            forall|m: int|
                0 <= m < starts@.len() ==> (#[trigger] ends@[m] < v@.len() <==> m < p.len() - 1),
            forall|m: int|
                0 <= m < starts@.len() ==> v@.subrange(#[trigger] starts@[m] as int, ends@[m] as int)
                    == p[m],
            r@.len() == k,
            forall|m: int| 0 <= m < k ==> (#[trigger] r@[m])@ == byte_lines_spec(input@)[m],
        decreases starts.len() - k,
    {
        let a = starts[k];
        let mut b = ends[k];
        if b < v.len() && b > a && v[b - 1] == 13u8 {
            b = b - 1;
        }
        proof {
            assert(v@.subrange(a as int, b as int) == byte_lines_spec(input@)[k as int]) by {
                let body = if p.last().len() == 0 { p.drop_last() } else { p };
                assert(byte_lines_spec(input@)[k as int] == (if k < p.len() - 1 { strip_cr_bytes(body[k as int]) } else { body[k as int] }));
                assert(body[k as int] == p[k as int]);
                let piece = v@.subrange(a as int, ends@[k as int] as int);
                if ends@[k as int] < v@.len() && ends@[k as int] > a && v@[ends@[k as int] - 1]
                    == 13u8 {
                    assert(piece.drop_last() =~= v@.subrange(a as int, b as int));
                }
            }
        }
        let line = bytes_between(&v, a, b);
        let ghost old_r = r@.map_values(|l: Vec<u8>| l@);
        r.push(line);
        proof {
            assert(r@.map_values(|l: Vec<u8>| l@) =~= old_r.push(line@));
        }
        k = k + 1;
    }
    proof {
        assert(r@.map_values(|l: Vec<u8>| l@) =~= byte_lines_spec(input@));
    }
    r
}

/// The error type of `std::io`, carried opaquely.
#[verifier::external_type_specification]
#[verifier::external_body]
pub struct ExIoError(std::io::Error);

/// Decodes `bytes` as UTF-8 (`std::str::from_utf8`): `Some` exactly when the
/// bytes are valid UTF-8, and then their decoding.
#[verifier::external_body]
fn utf8_decode(bytes: &[u8]) -> (r: Option<String>)
    ensures
        r is Some <==> valid_utf8(bytes@),
        r matches Some(s) ==> s@ == decode_utf8(bytes@),
{
    std::str::from_utf8(bytes).ok().map(String::from)
}

/// A line as the reader hands it on: `None` when its bytes are not UTF-8,
/// else its text without leading and trailing white space.
pub open spec fn reader_line(b: Seq<u8>) -> Option<Seq<char>> {
    if valid_utf8(b) {
        Some(trim_spec(decode_utf8(b)))
    } else {
        None
    }
}

/// The state of reading parts line by line: the parts read, the part being
/// read, whether a part is being read, and whether reading has stopped.
pub struct ReadState {
    pub done: Seq<Seq<Seq<char>>>,
    pub cur: Seq<Seq<char>>,
    pub in_part: bool,
    pub stopped: bool,
}

/// One line read: blank lines before a part are skipped, a part runs to the
/// first blank or undecodable line (which is consumed), and an undecodable
/// line where a part should start ends the reading.
pub open spec fn read_step(st: ReadState, line: Option<Seq<char>>) -> ReadState {
    if st.stopped {
        st
    } else if !st.in_part {
        match line {
            None => ReadState { stopped: true, ..st },
            Some(l) => if l.len() == 0 {
                st
            } else {
                ReadState { cur: seq![l], in_part: true, ..st }
            },
        }
    } else {
        match line {
            Some(l) => if l.len() > 0 {
                ReadState { cur: st.cur.push(l), ..st }
            } else {
                ReadState { done: st.done.push(st.cur), cur: Seq::empty(), in_part: false, ..st }
            },
            None => ReadState {
                done: st.done.push(st.cur),
                cur: Seq::empty(),
                in_part: false,
                ..st
            },
        }
    }
}

/// The reading state after the lines `ls`.
pub open spec fn read_lines(ls: Seq<Option<Seq<char>>>) -> ReadState
    decreases ls.len(),
{
    if ls.len() == 0 {
        ReadState { done: Seq::empty(), cur: Seq::empty(), in_part: false, stopped: false }
    } else {
        read_step(read_lines(ls.drop_last()), ls.last())
    }
}

/// The parts read from the bytes `b`.
pub open spec fn parts_from_bytes_spec(b: Seq<u8>) -> Seq<Seq<Seq<char>>> {
    let st = read_lines(byte_lines_spec(b).map_values(|l: Seq<u8>| reader_line(l)));
    if st.in_part && !st.stopped {
        st.done.push(st.cur)
    } else {
        st.done
    }
}

/// The parts of a lyric, as read from a reader.
pub struct Parts(pub Vec<Vec<String>>);

impl Parts {
    /// The parts, as lines of text.
    pub fn parts(&self) -> (r: Vec<Vec<String>>)
        ensures
            r.deep_view() == self.0.deep_view(),
    {
        clone_parts(&self.0)
    }
}

/// Reads the parts of a lyric from bytes: each line trimmed, parts separated
/// by blank lines.  A line that is not UTF-8 ends the part it is in, or ends
/// the reading where a part would start.  Reading from memory does not fail.
pub fn parts_from_reader(r: &[u8]) -> (res: Result<Parts, std::io::Error>)
    ensures
        res matches Ok(p) && p.0.deep_view() == parts_from_bytes_spec(r@),
{
    let ls = byte_lines(r);
    let ghost rl = byte_lines_spec(r@).map_values(|l: Seq<u8>| reader_line(l));
    let mut done: Vec<Vec<String>> = Vec::new();
    let mut cur: Vec<String> = Vec::new();
    let mut in_part = false;
    let mut i: usize = 0;
    proof {
        assert(rl.take(0) =~= Seq::<Option<Seq<char>>>::empty());
        assert(done.deep_view() =~= Seq::<Seq<Seq<char>>>::empty());
        assert(cur.deep_view() =~= Seq::<Seq<char>>::empty());
    }
    while i < ls.len()
        invariant
            i <= ls@.len(),
            ls@.map_values(|l: Vec<u8>| l@) == byte_lines_spec(r@),
            rl == byte_lines_spec(r@).map_values(|l: Seq<u8>| reader_line(l)),
            rl.len() == ls@.len(),
            read_lines(rl.take(i as int)) == (ReadState {
                done: done.deep_view(),
                cur: cur.deep_view(),
                in_part: in_part,
                stopped: false,
            }),
        decreases ls.len() - i,
    {
        proof {
            assert(rl.take(i + 1).drop_last() =~= rl.take(i as int));
            assert(ls@.map_values(|l: Vec<u8>| l@)[i as int] == ls@[i as int]@);
        }
        let decoded = utf8_decode(ls[i].as_slice());
        let ghost old_done = done.deep_view();
        let ghost old_cur = cur.deep_view();
        match decoded {
            None => {
                if !in_part {
                    // the reading stops here
                    proof {
                        assert forall|k: int| i < k <= rl.len() implies read_lines(#[trigger] rl.take(k)).stopped
                            && read_lines(rl.take(k)).done == done.deep_view() && !read_lines(rl.take(k)).in_part by {
                            lemma_read_stopped(rl, i as int + 1, k);
                        }
                        assert(rl.take(rl.len() as int) =~= rl);
                    }
                    return Ok(Parts(done));
                }
                let mut next: Vec<String> = Vec::new();
                std::mem::swap(&mut next, &mut cur);
                done.push(next);
                in_part = false;
                proof {
                    assert(done.deep_view() =~= old_done.push(old_cur));
                    assert(cur.deep_view() =~= Seq::<Seq<char>>::empty());
                }
            },
            Some(text) => {
                let line = trim(text.as_str());
                if line.as_str().is_empty() {
                    if in_part {
                        let mut next: Vec<String> = Vec::new();
                        std::mem::swap(&mut next, &mut cur);
                        done.push(next);
                        in_part = false;
                        proof {
                            assert(done.deep_view() =~= old_done.push(old_cur));
                            assert(cur.deep_view() =~= Seq::<Seq<char>>::empty());
                        }
                    }
                } else {
                    if !in_part {
                        proof {
                            assert(old_cur =~= Seq::<Seq<char>>::empty()) by {
                                lemma_read_not_in_part(rl.take(i as int));
                            }
                        }
                    }
                    cur.push(line);
                    in_part = true;
                    proof {
                        assert(cur.deep_view() =~= old_cur.push(line@));
                    }
                }
            },
        }
        i = i + 1;
    }
    proof {
        assert(rl.take(ls@.len() as int) =~= rl);
    }
    if in_part {
        let ghost old_done = done.deep_view();
        let ghost old_cur = cur.deep_view();
        done.push(cur);
        proof {
            assert(done.deep_view() =~= old_done.push(old_cur));
        }
    }
    Ok(Parts(done))
}

proof fn lemma_read_not_in_part(ls: Seq<Option<Seq<char>>>)
    ensures
        !read_lines(ls).in_part ==> read_lines(ls).cur.len() == 0,
    decreases ls.len(),
{
    if ls.len() > 0 {
        lemma_read_not_in_part(ls.drop_last());
    }
}

proof fn lemma_read_stopped(ls: Seq<Option<Seq<char>>>, j: int, k: int)
    requires
        0 < j <= k <= ls.len(),
        read_lines(ls.take(j)).stopped,
    ensures
        read_lines(ls.take(k)) == read_lines(ls.take(j)),
    decreases k - j,
{
    if k > j {
        lemma_read_stopped(ls, j, k - 1);
        assert(ls.take(k).drop_last() =~= ls.take(k - 1));
    }
}

} // verus!
