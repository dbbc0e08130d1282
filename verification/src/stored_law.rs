//! Why the stored text of a lyric reads back as the lyric: the lines of the
//! text, their blocks, and how the blocks are read.
use vstd::prelude::*;

use crate::disk_format::{
    fold_blocks, fully_trimmed_lines, meta_block_text, meta_from_toml, skip_blank,
    stored_parts_text, take_filled, text_blocks, toml_prefix, LyricMetaView,
};
use crate::model::LyricPostView;
use crate::parts::{
    flat_parts, lemma_scan_push, lemma_scan_run, lemma_split_nl_concat,
    lemma_split_nl_no_newline, scan_parts, without_line,
};
use crate::text::{
    decimal, digit_char, is_ws, join_spec, lemma_split_nl_len, lines_spec, split_nl, strip_cr,
    trim_end_spec, trim_spec, trim_start_spec,
};

verus! {

/// A string without a line break.
pub open spec fn one_line(s: Seq<char>) -> bool {
    forall|i: int| 0 <= i < s.len() ==> #[trigger] s[i] != '\n'
}

/// A line as a stored text holds it: not empty, no white space at either
/// end, no line break.
pub open spec fn is_stored_line(l: Seq<char>) -> bool {
    &&& l.len() > 0
    &&& !is_ws(l[0])
    &&& !is_ws(l.last())
    &&& one_line(l)
}

/// A line of a metadata block other than its `+++` lines.
pub open spec fn is_meta_line(l: Seq<char>) -> bool {
    is_stored_line(l) && l != toml_prefix()
}

/// `t` is the three lines `a`, `b`, `c`, each ended by a newline.
pub open spec fn meta_lines(t: Seq<char>, a: Seq<char>, b: Seq<char>, c: Seq<char>) -> bool {
    &&& t == a + seq!['\n'] + b + seq!['\n'] + c + seq!['\n']
    &&& is_meta_line(a)
    &&& is_meta_line(b)
    &&& is_meta_line(c)
}

/// Parts that a stored text gives back: no empty part, no part that starts
/// with `+++`, every line a stored line.
pub open spec fn is_stored_parts(ps: Seq<Seq<Seq<char>>>) -> bool {
    forall|i: int|
        0 <= i < ps.len() ==> (#[trigger] ps[i]).len() > 0 && ps[i][0] != toml_prefix() && forall|
            j: int,
        |
            0 <= j < ps[i].len() ==> is_stored_line(#[trigger] ps[i][j])
}

/// The lines of a part as the stored text writes them: all but the last
/// followed by two spaces.
pub open spec fn padded(p: Seq<Seq<char>>) -> Seq<Seq<char>> {
    Seq::new(
        p.len(),
        |j: int|
            if j < p.len() - 1 {
                p[j] + seq![' ', ' ']
            } else {
                p[j]
            },
    )
}

/// The pieces between newlines of each of `qs`.
pub open spec fn split_each(qs: Seq<Seq<char>>) -> Seq<Seq<Seq<char>>> {
    qs.map_values(|q: Seq<char>| split_nl(q))
}

proof fn lemma_decimal_one_line(n: nat)
    ensures
        one_line(decimal(n)),
        forall|i: int| 0 <= i < decimal(n).len() ==> !is_ws(#[trigger] decimal(n)[i]),
    decreases n,
{
    if n >= 10 {
        lemma_decimal_one_line(n / 10);
        let d = decimal(n / 10);
        let s = decimal(n);
        assert(s == d.push(digit_char(n % 10)));
        assert forall|i: int| 0 <= i < s.len() implies #[trigger] s[i] != '\n' && !is_ws(s[i]) by {
            if i < d.len() {
                assert(s[i] == d[i]);
            }
        }
    }
}

/// An entity tag text is one line: quotes, digits and a dash.
pub proof fn lemma_tag_one_line(len: nat, hash: nat)
    ensures
        one_line(seq!['"'] + decimal(len) + seq!['-'] + decimal(hash) + seq!['"']),
{
    lemma_decimal_one_line(len);
    lemma_decimal_one_line(hash);
    let a = decimal(len);
    let b = decimal(hash);
    let s = seq!['"'] + a + seq!['-'] + b + seq!['"'];
    assert forall|i: int| 0 <= i < s.len() implies #[trigger] s[i] != '\n' by {
        if 1 <= i < 1 + a.len() {
            assert(s[i] == a[i - 1]);
        } else if 2 + a.len() <= i < 2 + a.len() + b.len() {
            assert(s[i] == b[i - 2 - a.len()]);
        }
    }
}

proof fn lemma_trim_stored(l: Seq<char>)
    requires
        is_stored_line(l),
    ensures
        trim_spec(l) == l,
        trim_spec(l + seq![' ', ' ']) == l,
{
    assert(trim_start_spec(l) == l);
    assert(trim_end_spec(l) == l);
    let p = l + seq![' ', ' '];
    assert(p[0] == l[0]);
    assert(trim_start_spec(p) == p);
    assert(p.drop_last() =~= l + seq![' ']);
    assert((l + seq![' ']).drop_last() =~= l);
    assert(trim_end_spec(l + seq![' ']) == trim_end_spec(l));
    assert(trim_end_spec(p) == trim_end_spec(l + seq![' ']));
}

proof fn lemma_split_nl_append_line(x: Seq<char>, y: Seq<char>)
    requires
        one_line(y),
    ensures
        split_nl(x + y) == split_nl(x).update(split_nl(x).len() - 1, split_nl(x).last() + y),
    decreases y.len(),
{
    lemma_split_nl_len(x);
    if y.len() == 0 {
        assert(x + y =~= x);
        assert(split_nl(x).last() + y =~= split_nl(x).last());
        assert(split_nl(x).update(split_nl(x).len() - 1, split_nl(x).last()) =~= split_nl(x));
    } else {
        let yd = y.drop_last();
        assert(one_line(yd)) by {
            assert forall|i: int| 0 <= i < yd.len() implies #[trigger] yd[i] != '\n' by {
                assert(yd[i] == y[i]);
            }
        }
        lemma_split_nl_append_line(x, yd);
        let s = x + y;
        assert(s.drop_last() =~= x + yd);
        assert(s.last() == y[y.len() - 1]);
        assert(y[y.len() - 1] != '\n');
        let prev = split_nl(x + yd);
        assert(prev.len() == split_nl(x).len());
        assert(prev.last() == split_nl(x).last() + yd);
        assert(s.len() > 0 && s.last() != '\n');
        assert(prev.last().push(s.last()) =~= split_nl(x).last() + y);
        assert(split_nl(s) == prev.update(prev.len() - 1, prev.last().push(s.last())));
        assert(split_nl(x).last() + yd + seq![s.last()] =~= split_nl(x).last() + y);
        assert(split_nl(s) =~= split_nl(x).update(split_nl(x).len() - 1, split_nl(x).last() + y));
    }
}

proof fn lemma_split_part(p: Seq<Seq<char>>)
    requires
        p.len() > 0,
        forall|j: int| 0 <= j < p.len() ==> is_stored_line(#[trigger] p[j]),
    ensures
        split_nl(join_spec(p, seq![' ', ' ', '\n'])) == padded(p),
    decreases p.len(),
{
    let last = p.last();
    assert(is_stored_line(p[p.len() - 1]));
    lemma_split_nl_no_newline(last);
    if p.len() == 1 {
        assert(padded(p) =~= seq![p[0]]);
    } else {
        let d = p.drop_last();
        assert forall|j: int| 0 <= j < d.len() implies is_stored_line(#[trigger] d[j]) by {
            assert(d[j] == p[j]);
        }
        lemma_split_part(d);
        let x = join_spec(d, seq![' ', ' ', '\n']);
        assert(join_spec(p, seq![' ', ' ', '\n']) == x + seq![' ', ' ', '\n'] + last);
        assert(x + seq![' ', ' ', '\n'] + last =~= (x + seq![' ', ' ']) + seq!['\n'] + last);
        lemma_split_nl_concat(x + seq![' ', ' '], last);
        assert(one_line(seq![' ', ' ']));
        lemma_split_nl_append_line(x, seq![' ', ' ']);
        let pd = padded(d);
        assert(is_stored_line(p[d.len() - 1]));
        assert(pd.update(pd.len() - 1, pd.last() + seq![' ', ' ']) + seq![last] =~= padded(p));
    }
}

proof fn lemma_split_blocks(qs: Seq<Seq<char>>, sq: Seq<Seq<Seq<char>>>)
    requires
        qs.len() > 0,
        sq.len() == qs.len(),
        forall|i: int| 0 <= i < qs.len() ==> #[trigger] sq[i] == split_nl(qs[i]),
    ensures
        split_nl(join_spec(qs, seq!['\n', '\n'])) == flat_parts(sq),
    decreases qs.len(),
{
    if qs.len() == 1 {
        assert(sq[0] == split_nl(qs[0]));
        assert(flat_parts(sq) == sq[0]);
        assert(join_spec(qs, seq!['\n', '\n']) == qs[0]);
    } else {
        let d = qs.drop_last();
        let sd = sq.drop_last();
        assert forall|i: int| 0 <= i < d.len() implies #[trigger] sd[i] == split_nl(d[i]) by {
            assert(sd[i] == sq[i]);
            assert(d[i] == qs[i]);
        }
        lemma_split_blocks(d, sd);
        let x = join_spec(d, seq!['\n', '\n']);
        let y = qs.last();
        assert(sq.last() == split_nl(y)) by {
            assert(sq[sq.len() - 1] == split_nl(qs[qs.len() - 1]));
        }
        let e = Seq::<char>::empty();
        assert(join_spec(qs, seq!['\n', '\n']) == x + seq!['\n', '\n'] + y);
        assert(x + seq!['\n', '\n'] + y =~= x + seq!['\n'] + (e + seq!['\n'] + y));
        lemma_split_nl_concat(x, e + seq!['\n'] + y);
        lemma_split_nl_concat(e, y);
        assert(split_nl(e) =~= seq![e]);
        assert(flat_parts(sq) == flat_parts(sd) + seq![e] + sq.last());
        assert(split_nl(e + seq!['\n'] + y) == seq![e] + split_nl(y));
        assert(flat_parts(sd) + (seq![e] + split_nl(y)) =~= flat_parts(sd) + seq![e] + split_nl(y));
    }
}

/// The pieces of the text of stored parts.
proof fn lemma_split_stored_parts(ps: Seq<Seq<Seq<char>>>)
    requires
        ps.len() > 0,
        is_stored_parts(ps),
    ensures
        split_nl(stored_parts_text(ps)) == flat_parts(ps.map_values(|p: Seq<Seq<char>>| padded(p))),
{
    let qs = ps.map_values(|p: Seq<Seq<char>>| join_spec(p, seq![' ', ' ', '\n']));
    assert forall|i: int| 0 <= i < qs.len() implies #[trigger] split_each(qs)[i] == split_nl(qs[i]) by {}
    lemma_split_blocks(qs, split_each(qs));
    assert forall|i: int| 0 <= i < ps.len() implies split_each(qs)[i] == padded(ps[i]) by {
        assert(ps[i].len() > 0);
        assert forall|j: int| 0 <= j < ps[i].len() implies is_stored_line(#[trigger] ps[i][j]) by {}
        lemma_split_part(ps[i]);
    }
    assert(split_each(qs) =~= ps.map_values(|p: Seq<Seq<char>>| padded(p)));
}

/// The padded lines of stored parts, trimmed, are the parts' lines; none
/// ends in a carriage return; the last is the last line of the last part.
proof fn lemma_flat_padded(ps: Seq<Seq<Seq<char>>>)
    requires
        ps.len() > 0,
        is_stored_parts(ps),
    ensures
        ({
            let f = flat_parts(ps.map_values(|p: Seq<Seq<char>>| padded(p)));
            &&& f.map_values(|l: Seq<char>| trim_spec(l)) == flat_parts(ps)
            &&& forall|k: int| 0 <= k < f.len() ==> strip_cr(#[trigger] f[k]) == f[k]
            &&& f.len() > 0
            &&& f.last() == ps.last().last()
        }),
    decreases ps.len(),
{
    let pp = ps.map_values(|p: Seq<Seq<char>>| padded(p));
    let f = flat_parts(pp);
    let last = ps.last();
    assert(ps[ps.len() - 1] == last);
    assert(last.len() > 0);
    let pl = padded(last);
    assert(pp.last() == pl);
    assert forall|j: int| 0 <= j < pl.len() implies trim_spec(#[trigger] pl[j]) == last[j] && strip_cr(
        pl[j],
    ) == pl[j] by {
        assert(is_stored_line(ps[ps.len() - 1][j]));
        lemma_trim_stored(last[j]);
        if j < pl.len() - 1 {
            assert(pl[j] == last[j] + seq![' ', ' ']);
            assert(pl[j].last() == ' ');
        } else {
            assert(pl[j] == last[j]);
        }
    }
    assert(pl.map_values(|l: Seq<char>| trim_spec(l)) =~= last);
    if ps.len() == 1 {
        assert(f == pl);
        assert(flat_parts(ps) == last);
    } else {
        let d = ps.drop_last();
        assert(is_stored_parts(d)) by {
            assert forall|i: int| 0 <= i < d.len() implies (#[trigger] d[i]).len() > 0 && d[i][0]
                != toml_prefix() && forall|j: int|
                0 <= j < d[i].len() ==> is_stored_line(#[trigger] d[i][j]) by {
                assert(d[i] == ps[i]);
            }
        }
        lemma_flat_padded(d);
        assert(pp.drop_last() =~= d.map_values(|p: Seq<Seq<char>>| padded(p)));
        let fd = flat_parts(d.map_values(|p: Seq<Seq<char>>| padded(p)));
        assert(f == fd + seq![Seq::<char>::empty()] + pl);
        assert(f.map_values(|l: Seq<char>| trim_spec(l)) =~= fd.map_values(
            |l: Seq<char>| trim_spec(l),
        ) + seq![Seq::<char>::empty()] + pl.map_values(|l: Seq<char>| trim_spec(l))) by {
            assert(trim_spec(Seq::<char>::empty()) =~= Seq::<char>::empty());
        }
        assert forall|k: int| 0 <= k < f.len() implies strip_cr(#[trigger] f[k]) == f[k] by {
            if k < fd.len() {
                assert(f[k] == fd[k]);
            } else if k == fd.len() {
                assert(f[k] == Seq::<char>::empty());
            } else {
                assert(f[k] == pl[k - fd.len() - 1]);
            }
        }
        assert(pl.last() == last.last());
    }
}

proof fn lemma_scan_flat_from(y: Seq<Seq<char>>, d: Seq<Seq<Seq<char>>>, ps: Seq<Seq<Seq<char>>>)
    requires
        scan_parts(y) == (d, Seq::<Seq<char>>::empty()),
        ps.len() > 0,
        forall|i: int|
            0 <= i < ps.len() ==> (#[trigger] ps[i]).len() > 0 && forall|j: int|
                0 <= j < ps[i].len() ==> (#[trigger] ps[i][j]).len() > 0,
    ensures
        scan_parts(y + flat_parts(ps)) == (d + ps.drop_last(), ps.last()),
    decreases ps.len(),
{
    let last = ps.last();
    assert(ps[ps.len() - 1] == last);
    assert forall|j: int| 0 <= j < last.len() implies (#[trigger] last[j]).len() > 0 by {
        assert(ps[ps.len() - 1][j].len() > 0);
    }
    if ps.len() == 1 {
        lemma_scan_run(y, last, d);
        assert(ps.drop_last() =~= Seq::<Seq<Seq<char>>>::empty());
        assert(d + ps.drop_last() =~= d);
    } else {
        let dd = ps.drop_last();
        assert forall|i: int|
            0 <= i < dd.len() implies (#[trigger] dd[i]).len() > 0 && forall|j: int|
                0 <= j < dd[i].len() ==> (#[trigger] dd[i][j]).len() > 0 by {
            assert(dd[i] == ps[i]);
        }
        lemma_scan_flat_from(y, d, dd);
        let fd = flat_parts(dd);
        assert(dd[dd.len() - 1].len() > 0);
        lemma_scan_push(y + fd, Seq::<char>::empty());
        assert((d + dd.drop_last()).push(dd.last()) =~= d + dd);
        assert(y + fd + seq![Seq::<char>::empty()] =~= (y + fd).push(Seq::<char>::empty()));
        lemma_scan_run(y + fd + seq![Seq::<char>::empty()], last, d + dd);
        assert(y + flat_parts(ps) =~= y + fd + seq![Seq::<char>::empty()] + last);
    }
}

proof fn lemma_fold_parts(t: Seq<char>, acc: Seq<Seq<Seq<char>>>, ps: Seq<Seq<Seq<char>>>)
    requires
        forall|i: int| 0 <= i < ps.len() ==> (#[trigger] ps[i]).len() > 0 && ps[i][0] != toml_prefix(),
    ensures
        fold_blocks(t, acc, ps) == Some(LyricPostView { title: t, parts: acc + ps }),
    decreases ps.len(),
{
    if ps.len() == 0 {
        assert(acc + ps =~= acc);
    } else {
        let rest = ps.drop_first();
        assert forall|i: int| 0 <= i < rest.len() implies (#[trigger] rest[i]).len() > 0 && rest[i][0]
            != toml_prefix() by {
            assert(rest[i] == ps[i + 1]);
        }
        assert(ps[0].len() > 0 && ps[0][0] != toml_prefix());
        lemma_fold_parts(t, acc.push(ps[0]), rest);
        assert(acc.push(ps[0]) + rest =~= acc + ps);
    }
}

/// The lines of a stored lyric text, before its parts.
proof fn lemma_stored_split(
    a: Seq<char>,
    b: Seq<char>,
    c: Seq<char>,
    s: Seq<char>,
)
    requires
        is_meta_line(a),
        is_meta_line(b),
        is_meta_line(c),
    ensures
        split_nl(
            toml_prefix() + seq!['\n'] + (a + seq!['\n'] + b + seq!['\n'] + c + seq!['\n']) + toml_prefix()
                + seq!['\n', '\n'] + s,
        ) == seq![toml_prefix(), a, b, c, toml_prefix(), Seq::<char>::empty()] + split_nl(s),
{
    let p = toml_prefix();
    let e = Seq::<char>::empty();
    let t = p + seq!['\n'] + (a + seq!['\n'] + b + seq!['\n'] + c + seq!['\n']) + p + seq!['\n', '\n']
        + s;
    let t5 = e + seq!['\n'] + s;
    let t4 = p + seq!['\n'] + t5;
    let t3 = c + seq!['\n'] + t4;
    let t2 = b + seq!['\n'] + t3;
    let t1 = a + seq!['\n'] + t2;
    assert(t =~= p + seq!['\n'] + t1);
    lemma_split_nl_concat(p, t1);
    lemma_split_nl_concat(a, t2);
    lemma_split_nl_concat(b, t3);
    lemma_split_nl_concat(c, t4);
    lemma_split_nl_concat(p, t5);
    lemma_split_nl_concat(e, s);
    lemma_split_nl_no_newline(p);
    lemma_split_nl_no_newline(a);
    lemma_split_nl_no_newline(b);
    lemma_split_nl_no_newline(c);
    lemma_split_nl_no_newline(e);
    assert(split_nl(t) =~= seq![p, a, b, c, p, e] + split_nl(s));
}

/// Law: the metadata block of a lyric's stored text reads back as the
/// title and tags written there, given the facts on the metadata lines.
pub proof fn law_stored_meta_reads_back(
    meta: Seq<char>,
    a: Seq<char>,
    b: Seq<char>,
    c: Seq<char>,
    s: Seq<char>,
    m: LyricMetaView,
)
    requires
        meta_lines(meta, a, b, c),
        meta_from_toml(a + seq!['\n'] + b + seq!['\n'] + c) == Some(m),
    ensures
        meta_from_toml(
            meta_block_text(toml_prefix() + seq!['\n'] + meta + toml_prefix() + seq!['\n', '\n'] + s),
        ) == Some(m),
{
    let p = toml_prefix();
    let e = Seq::<char>::empty();
    let t = p + seq!['\n'] + meta + p + seq!['\n', '\n'] + s;
    lemma_stored_split(a, b, c, s);
    lemma_split_nl_len(s);
    let sp = split_nl(t);
    let ls = lines_spec(t);
    assert(sp.len() >= 7);
    assert(sp[6] == split_nl(s)[0]);
    assert(ls.len() >= 6);
    assert(p.last() == '+');
    lemma_trim_stored(a);
    lemma_trim_stored(b);
    lemma_trim_stored(c);
    assert(is_stored_line(p)) by {
        assert(!is_ws(p[0]));
        assert(one_line(p));
    }
    lemma_trim_stored(p);
    assert(ls[0] == p);
    assert(ls[1] == a);
    assert(ls[2] == b);
    assert(ls[3] == c);
    assert(ls[4] == p);
    assert(ls[5] == e);
    assert(trim_spec(e) =~= e);
    assert(skip_blank(ls) == ls);
    let r1 = ls.drop_first();
    let r2 = r1.drop_first();
    let r3 = r2.drop_first();
    let r4 = r3.drop_first();
    let r5 = r4.drop_first();
    assert(r5[0] == e);
    assert(take_filled(r5) == Seq::<Seq<char>>::empty());
    assert(r4[0] == p);
    assert(take_filled(r4) == seq![p] + take_filled(r5));
    assert(take_filled(r3) == seq![c] + take_filled(r4));
    assert(take_filled(r2) == seq![b] + take_filled(r3));
    assert(take_filled(r1) == seq![a] + take_filled(r2));
    assert(take_filled(ls) == seq![p] + take_filled(r1));
    let block = seq![p, a, b, c, p];
    assert(take_filled(ls) =~= block);
    assert(without_line(block, p) =~= seq![a, b, c]) by {
        assert(block.drop_last() =~= seq![p, a, b, c]);
        assert(seq![p, a, b, c].drop_last() =~= seq![p, a, b]);
        assert(seq![p, a, b].drop_last() =~= seq![p, a]);
        assert(seq![p, a].drop_last() =~= seq![p]);
        assert(seq![p].drop_last() =~= Seq::<Seq<char>>::empty());
        assert(without_line(Seq::<Seq<char>>::empty(), p) =~= Seq::<Seq<char>>::empty());
        assert(seq![p].last() == p);
        assert(without_line(seq![p], p) =~= Seq::<Seq<char>>::empty());
        assert(without_line(seq![p, a], p) =~= seq![a]);
        assert(without_line(seq![p, a, b], p) =~= seq![a, b]);
        assert(without_line(seq![p, a, b, c], p) =~= seq![a, b, c]);
    }
    let abc = seq![a, b, c];
    assert(join_spec(abc, seq!['\n']) == a + seq!['\n'] + b + seq!['\n'] + c) by {
        assert(abc.drop_last() =~= seq![a, b]);
        assert(seq![a, b].drop_last() =~= seq![a]);
        assert(join_spec(seq![a], seq!['\n']) == a);
        assert(join_spec(seq![a, b], seq!['\n']) == a + seq!['\n'] + b);
    }
}

/// Law: a lyric's stored text reads back as the lyric's title and parts,
/// for parts that a stored text can hold, given the facts on the metadata
/// lines.
pub proof fn law_stored_lyric_reads_back(
    meta: Seq<char>,
    a: Seq<char>,
    b: Seq<char>,
    c: Seq<char>,
    ps: Seq<Seq<Seq<char>>>,
    m: LyricMetaView,
)
    requires
        meta_lines(meta, a, b, c),
        meta_from_toml(a + seq!['\n'] + b + seq!['\n'] + c) == Some(m),
        is_stored_parts(ps),
    ensures
        fold_blocks(
            Seq::<char>::empty(),
            Seq::<Seq<Seq<char>>>::empty(),
            text_blocks(
                toml_prefix() + seq!['\n'] + meta + toml_prefix() + seq!['\n', '\n'] + stored_parts_text(
                    ps,
                ),
            ),
        ) == Some(LyricPostView { title: m.title, parts: ps }),
{
    let p = toml_prefix();
    let e = Seq::<char>::empty();
    let s = stored_parts_text(ps);
    let t = p + seq!['\n'] + meta + p + seq!['\n', '\n'] + s;
    lemma_stored_split(a, b, c, s);
    lemma_trim_stored(a);
    lemma_trim_stored(b);
    lemma_trim_stored(c);
    assert(is_stored_line(p)) by {
        assert(!is_ws(p[0]));
        assert(one_line(p));
    }
    lemma_trim_stored(p);
    assert(trim_spec(e) =~= e);
    let head = seq![p, a, b, c, p, e];
    let block = seq![p, a, b, c, p];
    // the trimmed lines: the metadata block, a blank line, then the parts
    let body = if ps.len() == 0 {
        Seq::<Seq<char>>::empty()
    } else {
        flat_parts(ps)
    };
    assert(fully_trimmed_lines(t) == head + body) by {
        if ps.len() == 0 {
            assert(s =~= e);
            assert(split_nl(e) =~= seq![e]);
            assert(split_nl(t) =~= head + seq![e]);
            assert(lines_spec(t) =~= head);
            assert(fully_trimmed_lines(t) =~= head);
        } else {
            lemma_split_stored_parts(ps);
            lemma_flat_padded(ps);
            let f = flat_parts(ps.map_values(|q: Seq<Seq<char>>| padded(q)));
            assert(split_nl(t) == head + f);
            assert(lines_spec(t) =~= head + f);
            assert(fully_trimmed_lines(t) =~= head + f.map_values(|l: Seq<char>| trim_spec(l)));
        }
    }
    // the blocks: the metadata block, then the parts
    assert forall|j: int| 0 <= j < block.len() implies (#[trigger] block[j]).len() > 0 by {}
    lemma_scan_run(Seq::<Seq<char>>::empty(), block, Seq::<Seq<Seq<char>>>::empty());
    assert(Seq::<Seq<char>>::empty() + block =~= block);
    lemma_scan_push(block, e);
    assert(block.push(e) =~= head);
    assert(scan_parts(head) == (seq![block], Seq::<Seq<char>>::empty()));
    assert(text_blocks(t) == seq![block] + ps) by {
        if ps.len() == 0 {
            assert(head + body =~= head);
            assert(seq![block] + ps =~= seq![block]);
        } else {
            assert forall|i: int|
                0 <= i < ps.len() implies (#[trigger] ps[i]).len() > 0 && forall|j: int|
                    0 <= j < ps[i].len() ==> (#[trigger] ps[i][j]).len() > 0 by {
                assert forall|j: int| 0 <= j < ps[i].len() implies (#[trigger] ps[i][j]).len() > 0 by {
                    assert(is_stored_line(ps[i][j]));
                }
            }
            lemma_scan_flat_from(head, seq![block], ps);
            assert(ps[ps.len() - 1].len() > 0);
            assert((seq![block] + ps.drop_last()).push(ps.last()) =~= seq![block] + ps);
        }
    }
    // reading the blocks
    let bs = seq![block] + ps;
    assert(bs[0] == block);
    assert(bs.drop_first() =~= ps);
    assert(without_line(block, p) =~= seq![a, b, c]) by {
        assert(block.drop_last() =~= seq![p, a, b, c]);
        assert(seq![p, a, b, c].drop_last() =~= seq![p, a, b]);
        assert(seq![p, a, b].drop_last() =~= seq![p, a]);
        assert(seq![p, a].drop_last() =~= seq![p]);
        assert(seq![p].drop_last() =~= Seq::<Seq<char>>::empty());
        assert(without_line(Seq::<Seq<char>>::empty(), p) =~= Seq::<Seq<char>>::empty());
        assert(seq![p].last() == p);
        assert(without_line(seq![p], p) =~= Seq::<Seq<char>>::empty());
        assert(without_line(seq![p, a], p) =~= seq![a]);
        assert(without_line(seq![p, a, b], p) =~= seq![a, b]);
        assert(without_line(seq![p, a, b, c], p) =~= seq![a, b, c]);
    }
    let abc = seq![a, b, c];
    assert(join_spec(abc, seq!['\n']) == a + seq!['\n'] + b + seq!['\n'] + c) by {
        assert(abc.drop_last() =~= seq![a, b]);
        assert(seq![a, b].drop_last() =~= seq![a]);
        assert(join_spec(seq![a], seq!['\n']) == a);
        assert(join_spec(seq![a, b], seq!['\n']) == a + seq!['\n'] + b);
    }
    assert forall|i: int| 0 <= i < ps.len() implies (#[trigger] ps[i]).len() > 0 && ps[i][0]
        != toml_prefix() by {}
    lemma_fold_parts(m.title, Seq::<Seq<Seq<char>>>::empty(), ps);
    assert(Seq::<Seq<Seq<char>>>::empty() + ps =~= ps);
}

} // verus!
