//! Character-level helpers: white space, trimming, line splitting and
//! joining, on the `Seq<char>` view of strings.
use vstd::prelude::*;

verus! {

/// A char with the Unicode `White_Space` property (what `char::is_whitespace` answers).
pub open spec fn is_ws(c: char) -> bool {
    let u = c as u32;
    ||| 0x9 <= u <= 0xd
    ||| u == 0x20
    ||| u == 0x85
    ||| u == 0xa0
    ||| u == 0x1680
    ||| 0x2000 <= u <= 0x200a
    ||| u == 0x2028
    ||| u == 0x2029
    ||| u == 0x202f
    ||| u == 0x205f
    ||| u == 0x3000
}

/// `s` without its trailing white space.
pub open spec fn trim_end_spec(s: Seq<char>) -> Seq<char>
    decreases s.len(),
{
    if s.len() > 0 && is_ws(s.last()) {
        trim_end_spec(s.drop_last())
    } else {
        s
    }
}

/// `s` without its leading white space.
pub open spec fn trim_start_spec(s: Seq<char>) -> Seq<char>
    decreases s.len(),
{
    if s.len() > 0 && is_ws(s[0]) {
        trim_start_spec(s.drop_first())
    } else {
        s
    }
}

/// `s` without leading and trailing white space.
pub open spec fn trim_spec(s: Seq<char>) -> Seq<char> {
    trim_end_spec(trim_start_spec(s))
}

/// The pieces of `s` between the `'\n'` characters: one more piece than newlines.
pub open spec fn split_nl(s: Seq<char>) -> Seq<Seq<char>>
    decreases s.len(),
{
    if s.len() == 0 {
        seq![Seq::<char>::empty()]
    } else {
        let prev = split_nl(s.drop_last());
        if s.last() == '\n' {
            prev.push(Seq::<char>::empty())
        } else {
            prev.update(prev.len() - 1, prev.last().push(s.last()))
        }
    }
}

/// `split_nl` always gives at least one piece.
pub proof fn lemma_split_nl_len(s: Seq<char>)
    ensures
        split_nl(s).len() >= 1,
    decreases s.len(),
{
    if s.len() > 0 {
        lemma_split_nl_len(s.drop_last());
    }
}

/// `s` without one trailing carriage return.
pub open spec fn strip_cr(s: Seq<char>) -> Seq<char> {
    if s.len() > 0 && s.last() == '\r' {
        s.drop_last()
    } else {
        s
    }
}

/// The lines of `s` as `str::lines` gives them: split at `'\n'`, a `'\r'`
/// before a `'\n'` dropped, and no final empty line after a final newline.
pub open spec fn lines_spec(s: Seq<char>) -> Seq<Seq<char>> {
    let p = split_nl(s);
    let body = if p.last().len() == 0 { p.drop_last() } else { p };
    Seq::new(
        body.len(),
        |i: int|
            if i < p.len() - 1 {
                strip_cr(body[i])
            } else {
                body[i]
            },
    )
}

/// The lines of `lines` joined with `sep` between them.
pub open spec fn join_spec(lines: Seq<Seq<char>>, sep: Seq<char>) -> Seq<char>
    decreases lines.len(),
{
    if lines.len() == 0 {
        Seq::<char>::empty()
    } else if lines.len() == 1 {
        lines[0]
    } else {
        join_spec(lines.drop_last(), sep) + sep + lines.last()
    }
}

/// Exec test for white space, the same set as `char::is_whitespace`.
pub fn is_whitespace(c: char) -> (b: bool)
    ensures
        b == is_ws(c),
{
    let u = c as u32;
    (0x9 <= u && u <= 0xd) || u == 0x20 || u == 0x85 || u == 0xa0 || u == 0x1680 || (0x2000 <= u
        && u <= 0x200a) || u == 0x2028 || u == 0x2029 || u == 0x202f || u == 0x205f || u == 0x3000
}

/// Appends `c` to `s`.
#[verifier::external_body]
pub(crate) fn push_char(s: &mut String, c: char)
    ensures
        final(s)@ == old(s)@.push(c),
{
    s.push(c);
}

/// The characters of `s`, in order.
pub fn chars_of(s: &str) -> (v: Vec<char>)
    ensures
        v@ == s@,
{
    let mut v: Vec<char> = Vec::new();
    for c in it: s.chars()
        invariant
            v@ == it.seq().take(it.index() as int),
            it.seq() == s@,
    {
        v.push(c);
    }
    v
}

/// A string made of the chars `v[from..to]`.
pub fn string_from_chars(v: &Vec<char>, from: usize, to: usize) -> (s: String)
    requires
        from <= to <= v@.len(),
    ensures
        s@ == v@.subrange(from as int, to as int),
{
    let mut s = String::new();
    let mut i = from;
    while i < to
        invariant
            from <= i <= to <= v@.len(),
            s@ == v@.subrange(from as int, i as int),
        decreases to - i,
    {
        push_char(&mut s, v[i]);
        proof {
            assert(v@.subrange(from as int, i + 1) =~= v@.subrange(from as int, i as int).push(
                v@[i as int],
            ));
        }
        i = i + 1;
    }
    s
}

/// Appends the chars of `t` to `s`.
pub fn push_str(s: &mut String, t: &str)
    ensures
        final(s)@ == old(s)@ + t@,
{
    let v = chars_of(t);
    let mut i: usize = 0;
    while i < v.len()
        invariant
            i <= v@.len(),
            v@ == t@,
            s@ == old(s)@ + v@.take(i as int),
        decreases v.len() - i,
    {
        push_char(s, v[i]);
        proof {
            assert(v@.take(i + 1) =~= v@.take(i as int).push(v@[i as int]));
        }
        i = i + 1;
    }
    proof {
        assert(v@.take(v@.len() as int) =~= v@);
    }
}

proof fn lemma_trim_end_subrange(s: Seq<char>, j: int)
    requires
        0 <= j <= s.len(),
        forall|k: int| j <= k < s.len() ==> is_ws(#[trigger] s[k]),
    ensures
        trim_end_spec(s) == trim_end_spec(s.subrange(0, j)),
    decreases s.len() - j,
{
    if j < s.len() {
        assert(s.drop_last() =~= s.subrange(0, s.len() - 1));
        lemma_trim_end_subrange(s.drop_last(), j);
        assert(s.drop_last().subrange(0, j) =~= s.subrange(0, j));
    } else {
        assert(s.subrange(0, j) =~= s);
    }
}

proof fn lemma_trim_start_subrange(s: Seq<char>, i: int)
    requires
        0 <= i <= s.len(),
        forall|k: int| 0 <= k < i ==> is_ws(#[trigger] s[k]),
    ensures
        trim_start_spec(s) == trim_start_spec(s.subrange(i, s.len() as int)),
    decreases i,
{
    if i > 0 {
        lemma_trim_start_subrange(s.drop_first(), i - 1);
        assert(s.drop_first().subrange(i - 1, s.drop_first().len() as int) =~= s.subrange(
            i,
            s.len() as int,
        ));
    } else {
        assert(s.subrange(0, s.len() as int) =~= s);
    }
}

/// The end index of `v[from..to]` without its trailing white space.
pub fn trim_end_index(v: &Vec<char>, from: usize, to: usize) -> (j: usize)
    requires
        from <= to <= v@.len(),
    ensures
        from <= j <= to,
        v@.subrange(from as int, j as int) == trim_end_spec(v@.subrange(from as int, to as int)),
{
    let mut j = to;
    while j > from && is_whitespace(v[j - 1])
        invariant
            from <= j <= to <= v@.len(),
            trim_end_spec(v@.subrange(from as int, j as int)) == trim_end_spec(
                v@.subrange(from as int, to as int),
            ),
        decreases j,
    {
        proof {
            let s = v@.subrange(from as int, j as int);
            assert(s.drop_last() =~= v@.subrange(from as int, j - 1));
        }
        j = j - 1;
    }
    j
}

/// The start index of `v[from..to]` without its leading white space.
pub fn trim_start_index(v: &Vec<char>, from: usize, to: usize) -> (i: usize)
    requires
        from <= to <= v@.len(),
    ensures
        from <= i <= to,
        v@.subrange(i as int, to as int) == trim_start_spec(v@.subrange(from as int, to as int)),
{
    let mut i = from;
    while i < to && is_whitespace(v[i])
        invariant
            from <= i <= to <= v@.len(),
            trim_start_spec(v@.subrange(i as int, to as int)) == trim_start_spec(
                v@.subrange(from as int, to as int),
            ),
        decreases to - i,
    {
        proof {
            let s = v@.subrange(i as int, to as int);
            assert(s.drop_first() =~= v@.subrange(i + 1, to as int));
        }
        i = i + 1;
    }
    i
}

/// `s.trim_end()` as a new string.
pub fn trim_end(s: &str) -> (r: String)
    ensures
        r@ == trim_end_spec(s@),
{
    let v = chars_of(s);
    let j = trim_end_index(&v, 0, v.len());
    proof {
        assert(v@.subrange(0, v@.len() as int) =~= v@);
    }
    string_from_chars(&v, 0, j)
}

/// `s.trim()` as a new string.
pub fn trim(s: &str) -> (r: String)
    ensures
        r@ == trim_spec(s@),
{
    let v = chars_of(s);
    let i = trim_start_index(&v, 0, v.len());
    let j = trim_end_index(&v, i, v.len());
    proof {
        assert(v@.subrange(0, v@.len() as int) =~= v@);
    }
    string_from_chars(&v, i, j)
}

/// The lines of `s`, as `str::lines` gives them.
pub fn lines(s: &str) -> (r: Vec<String>)
    ensures
        r.deep_view() == lines_spec(s@),
{
    let v = chars_of(s);
    // pieces between newlines, as (start, end) index pairs
    let mut starts: Vec<usize> = Vec::new();
    let mut ends: Vec<usize> = Vec::new();
    let mut start: usize = 0;
    let mut i: usize = 0;
    proof {
        assert(v@.take(0) =~= Seq::<char>::empty());
        assert(v@.subrange(0, 0) =~= Seq::<char>::empty());
    }
    while i < v.len()
        invariant
            0 <= start <= i <= v@.len(),
            v@ == s@,
            starts@.len() == ends@.len(),
            split_nl(v@.take(i as int)) =~= Seq::new(
                starts@.len(),
                |k: int| v@.subrange(starts@[k] as int, ends@[k] as int),
            ).push(v@.subrange(start as int, i as int)),
            forall|k: int|
                0 <= k < starts@.len() ==> #[trigger] starts@[k] <= ends@[k] && ends@[k] < start
                    && v@[ends@[k] as int] == '\n',
        decreases v.len() - i,
    {
        let ghost old_pieces = Seq::new(
            starts@.len(),
            |k: int| v@.subrange(starts@[k] as int, ends@[k] as int),
        );
        proof {
            assert(v@.take(i + 1).drop_last() =~= v@.take(i as int));
        }
        let ghost prev_starts = starts@;
        let ghost prev_ends = ends@;
        let ghost prev_start = start;
        if v[i] == '\n' {
            starts.push(start);
            ends.push(i);
            start = i + 1;
            proof {
                let new_pieces = Seq::new(
                    starts@.len(),
                    |k: int| v@.subrange(starts@[k] as int, ends@[k] as int),
                );
                assert(new_pieces =~= old_pieces.push(v@.subrange(starts@.last() as int, i as int)));
                assert(v@.subrange(start as int, i + 1) =~= Seq::<char>::empty());
                assert forall|k: int| 0 <= k < starts@.len() implies #[trigger] starts@[k] <= ends@[k]
                    && ends@[k] < start && v@[ends@[k] as int] == '\n' by {
                    if k < starts@.len() - 1 {
                        assert(starts@[k] == prev_starts[k] && ends@[k] == prev_ends[k]);
                        assert(prev_ends[k] < prev_start);
                    }
                }
            }
        } else {
            proof {
                assert(v@.subrange(start as int, i + 1) =~= v@.subrange(start as int, i as int).push(
                    v@[i as int],
                ));
            }
        }
        i = i + 1;
    }
    proof {
        assert(v@.take(v@.len() as int) =~= v@);
    }
    let ghost old_len = starts@.len();
    let ghost old_starts = starts@;
    let ghost old_ends = ends@;
    // the last piece counts as a line only if it is not empty
    if start < v.len() {
        starts.push(start);
        ends.push(v.len());
    }
    let ghost p = split_nl(s@);
    proof {
        lemma_split_nl_len(s@);
        assert(p.len() == old_len + 1);
        assert(p.last() == v@.subrange(start as int, v@.len() as int));
        assert forall|m: int|
            #![trigger starts@[m]]
            #![trigger ends@[m]]
            0 <= m < starts@.len() implies starts@[m] <= ends@[m]
            <= v@.len() && (ends@[m] < v@.len() <==> m < p.len() - 1) && v@.subrange(
            starts@[m] as int,
            ends@[m] as int,
        ) == p[m] by {
            if m < old_len {
                assert(starts@[m] == old_starts[m] && ends@[m] == old_ends[m]);
            }
        }
    }
    let mut r: Vec<String> = Vec::new();
    let mut k: usize = 0;
    while k < starts.len()
        invariant
            v@ == s@,
            p == split_nl(s@),
            p.len() >= 1,
            starts@.len() == ends@.len(),
            k <= starts@.len(),
            starts@.len() == lines_spec(s@).len(),
            forall|m: int|
                0 <= m < starts@.len() ==> #[trigger] starts@[m] <= ends@[m] <= v@.len(),
            forall|m: int|
                0 <= m < starts@.len() ==> (#[trigger] ends@[m] < v@.len() <==> m < p.len() - 1),
            forall|m: int|
                0 <= m < starts@.len() ==> v@.subrange(#[trigger] starts@[m] as int, ends@[m] as int)
                    == p[m],
            r.deep_view().len() == k,
            forall|m: int| 0 <= m < k ==> #[trigger] r.deep_view()[m] == lines_spec(s@)[m],
        decreases starts.len() - k,
    {
        let a = starts[k];
        let mut b = ends[k];
        if b < v.len() && b > a && v[b - 1] == '\r' {
            b = b - 1;
        }
        proof {
            assert(v@.subrange(a as int, b as int) == lines_spec(s@)[k as int]) by {
                let body = if p.last().len() == 0 { p.drop_last() } else { p };
                assert(lines_spec(s@)[k as int] == (if k < p.len() - 1 { strip_cr(body[k as int]) } else { body[k as int] }));
                assert(body[k as int] == p[k as int]);
                let piece = v@.subrange(a as int, ends@[k as int] as int);
                if ends@[k as int] < v@.len() && ends@[k as int] > a && v@[ends@[k as int] - 1]
                    == '\r' {
                    assert(piece.drop_last() =~= v@.subrange(a as int, b as int));
                }
            }
        }
        let line = string_from_chars(&v, a, b);
        let ghost old_r = r.deep_view();
        r.push(line);
        proof {
            assert(r.deep_view() =~= old_r.push(line@));
        }
        k = k + 1;
    }
    proof {
        assert(r.deep_view() =~= lines_spec(s@));
    }
    r
}

/// Three-way comparison of texts, char by char (the order of `str`):
/// negative, zero or positive as `a` sorts before, with, or after `b`.
pub open spec fn text_order(a: Seq<char>, b: Seq<char>) -> int
    decreases a.len(),
{
    if a.len() == 0 {
        if b.len() == 0 {
            0
        } else {
            -1
        }
    } else if b.len() == 0 {
        1
    } else if (a[0] as u32) < (b[0] as u32) {
        -1
    } else if (a[0] as u32) > (b[0] as u32) {
        1
    } else {
        text_order(a.drop_first(), b.drop_first())
    }
}

proof fn lemma_text_order_skip(a: Seq<char>, b: Seq<char>, i: int)
    requires
        0 <= i < a.len(),
        i < b.len(),
        a[i] == b[i],
    ensures
        text_order(a.skip(i), b.skip(i)) == text_order(a.skip(i + 1), b.skip(i + 1)),
{
    assert(a.skip(i).drop_first() =~= a.skip(i + 1));
    assert(b.skip(i).drop_first() =~= b.skip(i + 1));
}

/// Compares two texts char by char: -1, 0 or 1 as `a` sorts before, with,
/// or after `b`.
pub fn compare_text(a: &str, b: &str) -> (r: i8)
    ensures
        r as int == text_order(a@, b@),
        -1 <= r <= 1,
{
    let va = chars_of(a);
    let vb = chars_of(b);
    let mut i: usize = 0;
    proof {
        assert(va@.skip(0) =~= va@);
        assert(vb@.skip(0) =~= vb@);
    }
    while i < va.len() && i < vb.len() && va[i] == vb[i]
        invariant
            i <= va@.len(),
            i <= vb@.len(),
            text_order(va@, vb@) == text_order(va@.skip(i as int), vb@.skip(i as int)),
        decreases va.len() - i,
    {
        proof {
            lemma_text_order_skip(va@, vb@, i as int);
        }
        i = i + 1;
    }
    let ghost x = va@.skip(i as int);
    let ghost y = vb@.skip(i as int);
    if i == va.len() {
        proof {
            assert(x.len() == 0);
        }
        if i == vb.len() {
            0
        } else {
            -1
        }
    } else if i == vb.len() {
        1
    } else {
        proof {
            assert(x[0] == va@[i as int]);
            assert(y[0] == vb@[i as int]);
            assert((va@[i as int] as u32) != (vb@[i as int] as u32)) by {
                vstd::utf8::char_u32_cast(va@[i as int], va@[i as int] as u32);
                vstd::utf8::char_u32_cast(vb@[i as int], vb@[i as int] as u32);
            }
        }
        if (va[i] as u32) < (vb[i] as u32) {
            -1
        } else {
            1
        }
    }
}

/// The decimal digit for `d`.
pub open spec fn digit_char(d: nat) -> char {
    if d == 0 { '0' } else if d == 1 { '1' } else if d == 2 { '2' } else if d == 3 { '3' }
    else if d == 4 { '4' } else if d == 5 { '5' } else if d == 6 { '6' } else if d == 7 { '7' }
    else if d == 8 { '8' } else { '9' }
}

/// The decimal numeral of `n`, without leading zeros.
pub open spec fn decimal(n: nat) -> Seq<char>
    decreases n,
{
    if n < 10 {
        seq![digit_char(n)]
    } else {
        decimal(n / 10).push(digit_char(n % 10))
    }
}

fn digit(d: u128) -> (c: char)
    requires
        d < 10,
    ensures
        c == digit_char(d as nat),
{
    if d == 0 { '0' } else if d == 1 { '1' } else if d == 2 { '2' } else if d == 3 { '3' }
    else if d == 4 { '4' } else if d == 5 { '5' } else if d == 6 { '6' } else if d == 7 { '7' }
    else if d == 8 { '8' } else { '9' }
}

/// The decimal numeral of `n`.
pub fn decimal_text(n: u128) -> (s: String)
    ensures
        s@ == decimal(n as nat),
    decreases n,
{
    if n < 10 {
        let mut s = String::new();
        push_char(&mut s, digit(n));
        proof {
            assert(s@ =~= seq![digit_char(n as nat)]);
        }
        s
    } else {
        let mut s = decimal_text(n / 10);
        push_char(&mut s, digit(n % 10));
        s
    }
}

/// Swapping the texts negates their comparison.
pub proof fn lemma_text_order_antisym(a: Seq<char>, b: Seq<char>)
    ensures
        text_order(a, b) == -text_order(b, a),
    decreases a.len(),
{
    if a.len() > 0 && b.len() > 0 && (a[0] as u32) == (b[0] as u32) {
        lemma_text_order_antisym(a.drop_first(), b.drop_first());
    }
}

/// Every text compares equal to itself.
pub proof fn lemma_text_order_refl(a: Seq<char>)
    ensures
        text_order(a, a) == 0,
    decreases a.len(),
{
    if a.len() > 0 {
        lemma_text_order_refl(a.drop_first());
    }
}

/// Texts that compare equal are equal.
pub proof fn lemma_text_order_eq(a: Seq<char>, b: Seq<char>)
    requires
        text_order(a, b) == 0,
    ensures
        a == b,
    decreases a.len(),
{
    if a.len() > 0 {
        lemma_text_order_eq(a.drop_first(), b.drop_first());
        vstd::utf8::char_u32_cast(a[0], a[0] as u32);
        vstd::utf8::char_u32_cast(b[0], b[0] as u32);
        assert(a =~= seq![a[0]] + a.drop_first());
        assert(b =~= seq![b[0]] + b.drop_first());
    } else {
        assert(a =~= b);
    }
}

/// The order of texts is transitive.
pub proof fn lemma_text_order_trans(a: Seq<char>, b: Seq<char>, c: Seq<char>)
    requires
        text_order(a, b) <= 0,
        text_order(b, c) <= 0,
    ensures
        text_order(a, c) <= 0,
    decreases a.len(),
{
    if a.len() > 0 && b.len() > 0 && c.len() > 0 && (a[0] as u32) == (b[0] as u32) && (b[0] as u32)
        == (c[0] as u32) {
        lemma_text_order_trans(a.drop_first(), b.drop_first(), c.drop_first());
    }
}

} // verus!
