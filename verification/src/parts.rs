//! Lyric text split into parts (verses): groups of lines separated by blank lines.
use vstd::prelude::*;

use crate::text::{
    is_ws, join_spec, lemma_split_nl_len, lines, lines_spec, push_char, push_str, split_nl, strip_cr,
    trim_end, trim_end_spec,
};

verus! {

/// One step of grouping lines into parts: `done` holds the closed parts,
/// `cur` the part being read.
pub open spec fn scan_step(
    state: (Seq<Seq<Seq<char>>>, Seq<Seq<char>>),
    line: Seq<char>,
) -> (Seq<Seq<Seq<char>>>, Seq<Seq<char>>) {
    let (done, cur) = state;
    if line.len() == 0 {
        if cur.len() == 0 {
            (done, cur)
        } else {
            (done.push(cur), Seq::<Seq<char>>::empty())
        }
    } else {
        (done, cur.push(line))
    }
}

/// The grouping state after reading `ls`.
pub open spec fn scan_parts(ls: Seq<Seq<char>>) -> (Seq<Seq<Seq<char>>>, Seq<Seq<char>>)
    decreases ls.len(),
{
    if ls.len() == 0 {
        (Seq::<Seq<Seq<char>>>::empty(), Seq::<Seq<char>>::empty())
    } else {
        scan_step(scan_parts(ls.drop_last()), ls.last())
    }
}

/// The maximal runs of non-empty lines of `ls`, in order.
pub open spec fn group_parts(ls: Seq<Seq<char>>) -> Seq<Seq<Seq<char>>> {
    let (done, cur) = scan_parts(ls);
    if cur.len() == 0 {
        done
    } else {
        done.push(cur)
    }
}

/// The lines of `s`, each without trailing white space.
pub open spec fn trimmed_lines(s: Seq<char>) -> Seq<Seq<char>> {
    lines_spec(s).map_values(|l: Seq<char>| trim_end_spec(l))
}

/// The parts of a text: its lines without trailing white space, grouped into
/// maximal runs of non-empty lines.
pub open spec fn to_parts_spec(s: Seq<char>) -> Seq<Seq<Seq<char>>> {
    group_parts(trimmed_lines(s))
}

/// The text of `parts`: the lines of a part joined by a newline, the parts
/// joined by a blank line.
pub open spec fn to_text_spec(parts: Seq<Seq<Seq<char>>>) -> Seq<char> {
    join_spec(
        parts.map_values(|p: Seq<Seq<char>>| join_spec(p, seq!['\n'])),
        seq!['\n', '\n'],
    )
}

/// A line as `to_parts` gives it: not empty, no newline, no trailing white space.
pub open spec fn is_normal_line(l: Seq<char>) -> bool {
    &&& l.len() > 0
    &&& !is_ws(l.last())
    &&& forall|i: int| 0 <= i < l.len() ==> #[trigger] l[i] != '\n'
}

/// Parts as `to_parts` gives them: no empty part, every line normal.
pub open spec fn is_normal_parts(parts: Seq<Seq<Seq<char>>>) -> bool {
    forall|i: int|
        0 <= i < parts.len() ==> (#[trigger] parts[i]).len() > 0 && forall|j: int|
            0 <= j < parts[i].len() ==> is_normal_line(#[trigger] parts[i][j])
}

/// Splits a text into parts: the lines of the text without trailing white
/// space, grouped into maximal runs of non-empty lines.
pub fn to_parts(input: &str) -> (parts: Vec<Vec<String>>)
    ensures
        parts.deep_view() == to_parts_spec(input@),
{
    let ls = lines(input);
    let ghost tl = trimmed_lines(input@);
    let mut done: Vec<Vec<String>> = Vec::new();
    let mut cur: Vec<String> = Vec::new();
    let mut i: usize = 0;
    while i < ls.len()
        invariant
            i <= ls@.len(),
            ls.deep_view() == lines_spec(input@),
            tl == trimmed_lines(input@),
            tl.len() == ls@.len(),
            (done.deep_view(), cur.deep_view()) == scan_parts(tl.take(i as int)),
        decreases ls.len() - i,
    {
        proof {
            assert(tl.take(i + 1).drop_last() =~= tl.take(i as int));
            assert(ls.deep_view()[i as int] == ls@[i as int]@);
        }
        let line = trim_end(ls[i].as_str());
        let ghost old_done = done.deep_view();
        let ghost old_cur = cur.deep_view();
        if line.as_str().is_empty() {
            if cur.len() > 0 {
                let mut next: Vec<String> = Vec::new();
                std::mem::swap(&mut next, &mut cur);
                done.push(next);
                proof {
                    assert(done.deep_view() =~= old_done.push(old_cur));
                    assert(cur.deep_view() =~= Seq::<Seq<char>>::empty());
                }
            }
        } else {
            cur.push(line);
            proof {
                assert(cur.deep_view() =~= old_cur.push(line@));
            }
        }
        i = i + 1;
    }
    proof {
        assert(tl.take(ls@.len() as int) =~= tl);
    }
    if cur.len() > 0 {
        let ghost old_done = done.deep_view();
        let ghost old_cur = cur.deep_view();
        done.push(cur);
        proof {
            assert(done.deep_view() =~= old_done.push(old_cur));
        }
    }
    done
}

proof fn lemma_join_take(ls: Seq<Seq<char>>, sep: Seq<char>, i: int)
    requires
        0 <= i < ls.len(),
    ensures
        join_spec(ls.take(i + 1), sep) == if i == 0 {
            ls[0]
        } else {
            join_spec(ls.take(i), sep) + sep + ls[i]
        },
{
    assert(ls.take(i + 1).drop_last() =~= ls.take(i));
    if i == 0 {
        assert(ls.take(1)[0] == ls[0]);
    }
}

/// Joins lines with newlines.
pub fn join_with_newlines(lines: &Vec<String>) -> (s: String)
    ensures
        s@ == join_spec(lines.deep_view(), seq!['\n']),
{
    let mut s = String::new();
    let mut j: usize = 0;
    while j < lines.len()
        invariant
            j <= lines@.len(),
            s@ == join_spec(lines.deep_view().take(j as int), seq!['\n']),
        decreases lines.len() - j,
    {
        proof {
            lemma_join_take(lines.deep_view(), seq!['\n'], j as int);
            assert(lines.deep_view()[j as int] == lines@[j as int]@);
        }
        if j > 0 {
            push_char(&mut s, '\n');
        }
        push_str(&mut s, lines[j].as_str());
        proof {
            if j == 0 {
                assert(s@ =~= lines@[0]@);
            } else {
                assert(s@ =~= join_spec(lines.deep_view().take(j as int), seq!['\n']) + seq!['\n']
                    + lines@[j as int]@);
            }
        }
        j = j + 1;
    }
    proof {
        assert(lines.deep_view().take(lines@.len() as int) =~= lines.deep_view());
    }
    s
}

/// The text of `parts`: lines joined by a newline, parts by a blank line.
pub fn to_text(parts: &[Vec<String>]) -> (text: String)
    ensures
        text@ == to_text_spec(parts.deep_view()),
{
    let ghost pieces = parts.deep_view().map_values(
        |p: Seq<Seq<char>>| join_spec(p, seq!['\n']),
    );
    let mut s = String::new();
    let mut i: usize = 0;
    while i < parts.len()
        invariant
            i <= parts@.len(),
            pieces == parts.deep_view().map_values(
                |p: Seq<Seq<char>>| join_spec(p, seq!['\n']),
            ),
            s@ == join_spec(pieces.take(i as int), seq!['\n', '\n']),
        decreases parts.len() - i,
    {
        proof {
            lemma_join_take(pieces, seq!['\n', '\n'], i as int);
            assert(parts.deep_view()[i as int] == parts@[i as int].deep_view());
        }
        let piece = join_with_newlines(&parts[i]);
        if i > 0 {
            push_char(&mut s, '\n');
            push_char(&mut s, '\n');
        }
        let ghost before = s@;
        push_str(&mut s, piece.as_str());
        proof {
            if i == 0 {
                assert(s@ =~= pieces[0]);
            } else {
                assert(s@ =~= join_spec(pieces.take(i as int), seq!['\n', '\n']) + seq!['\n', '\n']
                    + pieces[i as int]);
            }
        }
        i = i + 1;
    }
    proof {
        assert(pieces.take(parts@.len() as int) =~= pieces);
    }
    s
}

/// A copy of `p`, line by line.
pub fn clone_parts(p: &Vec<Vec<String>>) -> (r: Vec<Vec<String>>)
    ensures
        r.deep_view() == p.deep_view(),
{
    let mut r: Vec<Vec<String>> = Vec::new();
    let mut i: usize = 0;
    while i < p.len()
        invariant
            i <= p@.len(),
            r.deep_view() == p.deep_view().take(i as int),
        decreases p.len() - i,
    {
        let mut part: Vec<String> = Vec::new();
        let mut j: usize = 0;
        while j < p[i].len()
            invariant
                i < p@.len(),
                j <= p@[i as int]@.len(),
                part.deep_view() == p@[i as int].deep_view().take(j as int),
            decreases p[i as int]@.len() - j,
        {
            let ghost old_part = part.deep_view();
            part.push(p[i][j].clone());
            proof {
                assert(part.deep_view() =~= old_part.push(p@[i as int]@[j as int]@));
                assert(p@[i as int].deep_view()[j as int] == p@[i as int]@[j as int]@);
                assert(part.deep_view() =~= p@[i as int].deep_view().take(j + 1));
            }
            j = j + 1;
        }
        let ghost old_r = r.deep_view();
        proof {
            assert(part.deep_view() =~= p@[i as int].deep_view());
        }
        let ghost pv = part.deep_view();
        r.push(part);
        proof {
            assert(r.deep_view() =~= old_r.push(pv));
            assert(p.deep_view()[i as int] == p@[i as int].deep_view());
            assert(r.deep_view() =~= p.deep_view().take(i + 1));
        }
        i = i + 1;
    }
    proof {
        assert(p.deep_view().take(p@.len() as int) =~= p.deep_view());
    }
    r
}

/// A text split into an optional front matter and parts.
pub struct Markdown {
    pub frontmatter: Option<String>,
    pub parts: Vec<Vec<String>>,
}

/// The front matter and parts of `text`: when the first line of the first
/// part is `sep`, that part, without its `sep` lines, is the front matter.
pub open spec fn markdown_spec(text: Seq<char>, sep: Seq<char>) -> (
    Option<Seq<char>>,
    Seq<Seq<Seq<char>>>,
) {
    let parts = to_parts_spec(text);
    if parts.len() > 0 && parts[0].len() > 0 && parts[0][0] == sep {
        (Some(join_spec(without_line(parts[0], sep), seq!['\n'])), parts.skip(1))
    } else {
        (None, parts)
    }
}

/// `ls` without the lines equal to `sep`.
pub open spec fn without_line(ls: Seq<Seq<char>>, sep: Seq<char>) -> Seq<Seq<char>>
    decreases ls.len(),
{
    if ls.len() == 0 {
        ls
    } else if ls.last() == sep {
        without_line(ls.drop_last(), sep)
    } else {
        without_line(ls.drop_last(), sep).push(ls.last())
    }
}

impl Markdown {
    /// Splits a text into front matter and parts, with `---` as the
    /// separator line of the front matter.
    pub fn from_text(text: String) -> (m: Markdown)
        ensures
            m.frontmatter.is_some() == markdown_spec(text@, seq!['-', '-', '-']).0.is_some(),
            m.frontmatter matches Some(f) ==> Some(f@) == markdown_spec(text@, seq!['-', '-', '-']).0,
            m.parts.deep_view() == markdown_spec(text@, seq!['-', '-', '-']).1,
    {
        proof {
            reveal_strlit("---");
            assert("---"@ =~= seq!['-', '-', '-']);
        }
        parse_markdown(text, "---")
    }
}

/// Splits a text into front matter and parts: the first part is front matter
/// when its first line is `yaml_separator`; its lines other than the separator,
/// joined by newlines, are the front matter.
pub fn parse_markdown(text: String, yaml_separator: &str) -> (m: Markdown)
    ensures
        m.frontmatter.is_some() == markdown_spec(text@, yaml_separator@).0.is_some(),
        m.frontmatter matches Some(f) ==> Some(f@) == markdown_spec(text@, yaml_separator@).0,
        m.parts.deep_view() == markdown_spec(text@, yaml_separator@).1,
{
    let mut parts = to_parts(text.as_str());
    let sep = yaml_separator.to_owned();
    if parts.len() > 0 && parts[0].len() > 0 && parts[0][0] == sep {
        let ghost pv = parts.deep_view();
        proof {
            assert(pv[0] == parts@[0].deep_view());
            assert(parts@[0].deep_view()[0] == parts@[0]@[0]@);
        }
        let mut kept: Vec<String> = Vec::new();
        let mut j: usize = 0;
        proof {
            assert(pv[0].take(0) =~= Seq::<Seq<char>>::empty());
            assert(kept.deep_view() =~= Seq::<Seq<char>>::empty());
        }
        while j < parts[0].len()
            invariant
                parts@.len() > 0,
                parts.deep_view() == pv,
                j <= pv[0].len(),
                sep@ == yaml_separator@,
                kept.deep_view() == without_line(pv[0].take(j as int), yaml_separator@),
            decreases parts[0]@.len() - j,
        {
            proof {
                assert(pv[0].take(j + 1).drop_last() =~= pv[0].take(j as int));
                assert(pv[0] == parts@[0].deep_view());
                assert(parts@[0].deep_view()[j as int] == parts@[0]@[j as int]@);
            }
            if !(parts[0][j] == sep) {
                let ghost old_kept = kept.deep_view();
                kept.push(parts[0][j].clone());
                proof {
                    assert(kept.deep_view() =~= old_kept.push(pv[0][j as int]));
                }
            }
            j = j + 1;
        }
        proof {
            assert(pv[0].take(pv[0].len() as int) =~= pv[0]);
        }
        let frontmatter = join_with_newlines(&kept);
        let rest = parts.split_off(1);
        proof {
            assert(rest.deep_view() =~= pv.skip(1));
        }
        Markdown { frontmatter: Some(frontmatter), parts: rest }
    } else {
        Markdown { frontmatter: None, parts }
    }
}

/// The lines of `parts` with one empty line between consecutive parts.
pub open spec fn flat_parts(ps: Seq<Seq<Seq<char>>>) -> Seq<Seq<char>>
    decreases ps.len(),
{
    if ps.len() == 0 {
        Seq::<Seq<char>>::empty()
    } else if ps.len() == 1 {
        ps[0]
    } else {
        flat_parts(ps.drop_last()) + seq![Seq::<char>::empty()] + ps.last()
    }
}

pub proof fn lemma_split_nl_concat(a: Seq<char>, b: Seq<char>)
    ensures
        split_nl(a + seq!['\n'] + b) == split_nl(a) + split_nl(b),
    decreases b.len(),
{
    let s = a + seq!['\n'] + b;
    if b.len() == 0 {
        assert(s.drop_last() =~= a);
        assert(split_nl(b) =~= seq![Seq::<char>::empty()]);
        assert(split_nl(s) =~= split_nl(a) + split_nl(b));
    } else {
        assert(s.drop_last() =~= a + seq!['\n'] + b.drop_last());
        lemma_split_nl_concat(a, b.drop_last());
        lemma_split_nl_len(b.drop_last());
        lemma_split_nl_len(a);
        let x = split_nl(a);
        let y = split_nl(b.drop_last());
        if b.last() == '\n' {
            assert(split_nl(s) =~= (x + y).push(Seq::<char>::empty()));
            assert(split_nl(b) =~= y.push(Seq::<char>::empty()));
            assert(split_nl(s) =~= x + split_nl(b));
        } else {
            let c = b.last();
            assert(split_nl(s) == (x + y).update((x + y).len() - 1, (x + y).last().push(c)));
            assert(split_nl(b) == y.update(y.len() - 1, y.last().push(c)));
            assert(split_nl(s) =~= x + split_nl(b));
        }
    }
}

pub proof fn lemma_split_nl_no_newline(l: Seq<char>)
    requires
        forall|i: int| 0 <= i < l.len() ==> #[trigger] l[i] != '\n',
    ensures
        split_nl(l) == seq![l],
    decreases l.len(),
{
    if l.len() == 0 {
        assert(l =~= Seq::<char>::empty());
        assert(split_nl(l) =~= seq![l]);
    } else {
        let d = l.drop_last();
        assert forall|i: int| 0 <= i < d.len() implies #[trigger] d[i] != '\n' by {
            assert(d[i] == l[i]);
        }
        lemma_split_nl_no_newline(d);
        assert(l[l.len() - 1] != '\n');
        assert(d.push(l.last()) =~= l);
        assert(l.drop_last() == d);
        assert(split_nl(l) == split_nl(d).update(0, split_nl(d).last().push(l.last())));
        assert(split_nl(l) =~= seq![l]);
    }
}

proof fn lemma_split_nl_join(ls: Seq<Seq<char>>)
    requires
        ls.len() > 0,
        forall|j: int| 0 <= j < ls.len() ==> is_normal_line(#[trigger] ls[j]),
    ensures
        split_nl(join_spec(ls, seq!['\n'])) == ls,
    decreases ls.len(),
{
    lemma_split_nl_no_newline(ls.last());
    if ls.len() == 1 {
        assert(seq![ls[0]] =~= ls);
    } else {
        let d = ls.drop_last();
        assert forall|j: int| 0 <= j < d.len() implies is_normal_line(#[trigger] d[j]) by {
            assert(d[j] == ls[j]);
        }
        lemma_split_nl_join(d);
        lemma_split_nl_concat(join_spec(d, seq!['\n']), ls.last());
        assert(d + seq![ls.last()] =~= ls);
    }
}

/// Every line of `flat_parts(ps)` is empty or normal, and the last one is
/// the last line of the last part.
proof fn lemma_flat_lines(ps: Seq<Seq<Seq<char>>>)
    requires
        ps.len() > 0,
        is_normal_parts(ps),
    ensures
        flat_parts(ps).len() > 0,
        flat_parts(ps).last() == ps.last().last(),
        forall|k: int|
            0 <= k < flat_parts(ps).len() ==> (#[trigger] flat_parts(ps)[k]).len() == 0
                || is_normal_line(flat_parts(ps)[k]),
    decreases ps.len(),
{
    let f = flat_parts(ps);
    let last = ps.last();
    assert(ps[ps.len() - 1] == last);
    assert(last.len() > 0);
    if ps.len() == 1 {
        assert forall|k: int| 0 <= k < f.len() implies (#[trigger] f[k]).len() == 0
            || is_normal_line(f[k]) by {
            assert(is_normal_line(ps[0][k]));
        }
    } else {
        let d = ps.drop_last();
        assert(is_normal_parts(d)) by {
            assert forall|i: int| 0 <= i < d.len() implies (#[trigger] d[i]).len() > 0
                && forall|j: int| 0 <= j < d[i].len() ==> is_normal_line(#[trigger] d[i][j]) by {
                assert(d[i] == ps[i]);
            }
        }
        lemma_flat_lines(d);
        let fd = flat_parts(d);
        assert(f == fd + seq![Seq::<char>::empty()] + last);
        assert forall|k: int| 0 <= k < f.len() implies (#[trigger] f[k]).len() == 0
            || is_normal_line(f[k]) by {
            if k < fd.len() {
                assert(f[k] == fd[k]);
            } else if k == fd.len() {
                assert(f[k] == Seq::<char>::empty());
            } else {
                assert(f[k] == last[k - fd.len() - 1]);
                assert(is_normal_line(ps[ps.len() - 1][k - fd.len() - 1]));
            }
        }
    }
}

proof fn lemma_split_nl_text(ps: Seq<Seq<Seq<char>>>)
    requires
        ps.len() > 0,
        is_normal_parts(ps),
    ensures
        split_nl(to_text_spec(ps)) == flat_parts(ps),
    decreases ps.len(),
{
    let pieces = ps.map_values(|p: Seq<Seq<char>>| join_spec(p, seq!['\n']));
    let last = ps.last();
    assert(ps[ps.len() - 1] == last);
    assert(forall|j: int| 0 <= j < last.len() ==> is_normal_line(#[trigger] last[j]));
    lemma_split_nl_join(last);
    if ps.len() == 1 {
        assert(to_text_spec(ps) == pieces[0]);
    } else {
        let d = ps.drop_last();
        assert(is_normal_parts(d)) by {
            assert forall|i: int| 0 <= i < d.len() implies (#[trigger] d[i]).len() > 0
                && forall|j: int| 0 <= j < d[i].len() ==> is_normal_line(#[trigger] d[i][j]) by {
                assert(d[i] == ps[i]);
            }
        }
        lemma_split_nl_text(d);
        assert(pieces.drop_last() =~= d.map_values(
            |p: Seq<Seq<char>>| join_spec(p, seq!['\n']),
        ));
        let x = to_text_spec(d);
        let y = join_spec(last, seq!['\n']);
        assert(to_text_spec(ps) == x + seq!['\n', '\n'] + y);
        assert(x + seq!['\n', '\n'] + y =~= x + seq!['\n'] + (seq!['\n'] + y));
        assert(seq!['\n'] + y =~= Seq::<char>::empty() + seq!['\n'] + y);
        lemma_split_nl_concat(x, seq!['\n'] + y);
        lemma_split_nl_concat(Seq::<char>::empty(), y);
        assert(split_nl(Seq::<char>::empty()) =~= seq![Seq::<char>::empty()]);
    }
}

pub proof fn lemma_scan_push(ls: Seq<Seq<char>>, l: Seq<char>)
    ensures
        scan_parts(ls.push(l)) == scan_step(scan_parts(ls), l),
{
    assert(ls.push(l).drop_last() =~= ls);
}

pub proof fn lemma_scan_run(y: Seq<Seq<char>>, l: Seq<Seq<char>>, d: Seq<Seq<Seq<char>>>)
    requires
        scan_parts(y) == (d, Seq::<Seq<char>>::empty()),
        forall|j: int| 0 <= j < l.len() ==> (#[trigger] l[j]).len() > 0,
    ensures
        scan_parts(y + l) == (d, l),
    decreases l.len(),
{
    if l.len() == 0 {
        assert(y + l =~= y);
        assert(l =~= Seq::<Seq<char>>::empty());
    } else {
        let ld = l.drop_last();
        assert forall|j: int| 0 <= j < ld.len() implies (#[trigger] ld[j]).len() > 0 by {
            assert(ld[j] == l[j]);
        }
        lemma_scan_run(y, ld, d);
        assert(y + l =~= (y + ld).push(l.last()));
        lemma_scan_push(y + ld, l.last());
        assert(l[l.len() - 1].len() > 0);
        assert(ld.push(l.last()) =~= l);
    }
}

proof fn lemma_scan_flat(ps: Seq<Seq<Seq<char>>>)
    requires
        ps.len() > 0,
        is_normal_parts(ps),
    ensures
        scan_parts(flat_parts(ps)) == (ps.drop_last(), ps.last()),
    decreases ps.len(),
{
    let last = ps.last();
    assert(ps[ps.len() - 1] == last);
    assert forall|j: int| 0 <= j < last.len() implies (#[trigger] last[j]).len() > 0 by {
        assert(is_normal_line(ps[ps.len() - 1][j]));
    }
    if ps.len() == 1 {
        assert(scan_parts(Seq::<Seq<char>>::empty()) == (
            Seq::<Seq<Seq<char>>>::empty(),
            Seq::<Seq<char>>::empty(),
        ));
        lemma_scan_run(Seq::<Seq<char>>::empty(), last, Seq::<Seq<Seq<char>>>::empty());
        assert(Seq::<Seq<char>>::empty() + last =~= last);
        assert(ps.drop_last() =~= Seq::<Seq<Seq<char>>>::empty());
    } else {
        let d = ps.drop_last();
        assert(is_normal_parts(d)) by {
            assert forall|i: int| 0 <= i < d.len() implies (#[trigger] d[i]).len() > 0
                && forall|j: int| 0 <= j < d[i].len() ==> is_normal_line(#[trigger] d[i][j]) by {
                assert(d[i] == ps[i]);
            }
        }
        lemma_scan_flat(d);
        let fd = flat_parts(d);
        assert(d[d.len() - 1].len() > 0);
        lemma_scan_push(fd, Seq::<char>::empty());
        assert(d.drop_last().push(d.last()) =~= d);
        assert(fd + seq![Seq::<char>::empty()] =~= fd.push(Seq::<char>::empty()));
        lemma_scan_run(fd + seq![Seq::<char>::empty()], last, d);
    }
}

/// Law: `to_parts` undoes `to_text` on parts that `to_parts` could have
/// produced (no empty part, no empty line, no newline in a line, no trailing
/// white space).
pub proof fn law_to_parts_of_to_text(ps: Seq<Seq<Seq<char>>>)
    requires
        is_normal_parts(ps),
    ensures
        to_parts_spec(to_text_spec(ps)) == ps,
{
    if ps.len() == 0 {
        assert(to_text_spec(ps) == Seq::<char>::empty());
        assert(split_nl(Seq::<char>::empty()) =~= seq![Seq::<char>::empty()]);
        assert(lines_spec(Seq::<char>::empty()) =~= Seq::<Seq<char>>::empty());
        assert(trimmed_lines(Seq::<char>::empty()) =~= Seq::<Seq<char>>::empty());
    } else {
        let t = to_text_spec(ps);
        let f = flat_parts(ps);
        lemma_split_nl_text(ps);
        lemma_flat_lines(ps);
        assert(ps.last().last() == ps[ps.len() - 1][ps[ps.len() - 1].len() - 1]);
        assert(is_normal_line(f.last()));
        assert(lines_spec(t) =~= f) by {
            assert forall|k: int| 0 <= k < f.len() implies strip_cr(#[trigger] f[k]) == f[k] by {
                if f[k].len() > 0 {
                    assert(is_normal_line(f[k]));
                }
            }
        }
        assert(trimmed_lines(t) =~= f) by {
            assert forall|k: int| 0 <= k < f.len() implies trim_end_spec(#[trigger] f[k]) == f[k] by {
                if f[k].len() > 0 {
                    assert(is_normal_line(f[k]));
                }
            }
        }
        lemma_scan_flat(ps);
        assert(ps.drop_last().push(ps.last()) =~= ps);
        assert(ps.last().len() > 0);
    }
}

proof fn lemma_split_nl_pieces(s: Seq<char>)
    ensures
        forall|k: int, i: int|
            0 <= k < split_nl(s).len() && 0 <= i < split_nl(s)[k].len() ==> #[trigger] split_nl(
                s,
            )[k][i] != '\n',
    decreases s.len(),
{
    lemma_split_nl_len(s);
    if s.len() > 0 {
        lemma_split_nl_pieces(s.drop_last());
        lemma_split_nl_len(s.drop_last());
        let prev = split_nl(s.drop_last());
        if s.last() != '\n' {
            assert forall|k: int, i: int|
                0 <= k < split_nl(s).len() && 0 <= i < split_nl(s)[k].len() implies #[trigger] split_nl(
                s,
            )[k][i] != '\n' by {
                if k == prev.len() - 1 {
                    assert(split_nl(s)[k] == prev.last().push(s.last()));
                    if i < prev.last().len() {
                        assert(prev[k][i] != '\n');
                    }
                } else {
                    assert(split_nl(s)[k] == prev[k]);
                    assert(prev[k][i] != '\n');
                }
            }
        } else {
            assert forall|k: int, i: int|
                0 <= k < split_nl(s).len() && 0 <= i < split_nl(s)[k].len() implies #[trigger] split_nl(
                s,
            )[k][i] != '\n' by {
                assert(split_nl(s)[k] == prev.push(Seq::<char>::empty())[k]);
                if k < prev.len() {
                    assert(prev[k][i] != '\n');
                }
            }
        }
    }
}

pub proof fn lemma_trim_end_shape(l: Seq<char>)
    ensures
        trim_end_spec(l).len() <= l.len(),
        trim_end_spec(l) == l.subrange(0, trim_end_spec(l).len() as int),
        trim_end_spec(l).len() > 0 ==> !is_ws(trim_end_spec(l).last()),
    decreases l.len(),
{
    if l.len() > 0 && is_ws(l.last()) {
        lemma_trim_end_shape(l.drop_last());
        assert(l.drop_last().subrange(0, trim_end_spec(l).len() as int) =~= l.subrange(
            0,
            trim_end_spec(l).len() as int,
        ));
    } else {
        assert(l.subrange(0, l.len() as int) =~= l);
    }
}

/// A line that is empty or normal.
pub open spec fn empty_or_normal(l: Seq<char>) -> bool {
    l.len() == 0 || is_normal_line(l)
}

proof fn lemma_scan_normal(ls: Seq<Seq<char>>)
    requires
        forall|k: int| 0 <= k < ls.len() ==> empty_or_normal(#[trigger] ls[k]),
    ensures
        is_normal_parts(scan_parts(ls).0),
        forall|j: int|
            0 <= j < scan_parts(ls).1.len() ==> is_normal_line(#[trigger] scan_parts(ls).1[j]),
    decreases ls.len(),
{
    if ls.len() > 0 {
        let d = ls.drop_last();
        assert forall|k: int| 0 <= k < d.len() implies empty_or_normal(#[trigger] d[k]) by {
            assert(d[k] == ls[k]);
        }
        lemma_scan_normal(d);
        let (done, cur) = scan_parts(d);
        let l = ls.last();
        assert(empty_or_normal(ls[ls.len() - 1]));
        if l.len() == 0 {
            if cur.len() > 0 {
                let nd = done.push(cur);
                assert forall|i: int| 0 <= i < nd.len() implies (#[trigger] nd[i]).len() > 0
                    && forall|j: int| 0 <= j < nd[i].len() ==> is_normal_line(#[trigger] nd[i][j]) by {
                    if i < done.len() {
                        assert(nd[i] == done[i]);
                    }
                }
            }
        } else {
            let nc = cur.push(l);
            assert forall|j: int| 0 <= j < nc.len() implies is_normal_line(#[trigger] nc[j]) by {
                if j < cur.len() {
                    assert(nc[j] == cur[j]);
                }
            }
        }
    }
}

/// Law: the parts of any text are normal: no empty part, and every line is
/// non-empty, holds no newline and ends in no white space.
pub proof fn law_to_parts_normal(s: Seq<char>)
    ensures
        is_normal_parts(to_parts_spec(s)),
{
    let tl = trimmed_lines(s);
    let p = split_nl(s);
    lemma_split_nl_pieces(s);
    lemma_split_nl_len(s);
    assert forall|k: int| 0 <= k < tl.len() implies empty_or_normal(#[trigger] tl[k]) by {
        let body = if p.last().len() == 0 { p.drop_last() } else { p };
        let l = lines_spec(s)[k];
        assert(body[k] == p[k]);
        assert(l == strip_cr(p[k]) || l == p[k]);
        assert(l == p[k].subrange(0, l.len() as int)) by {
            if l != p[k] {
                assert(p[k].drop_last() =~= p[k].subrange(0, l.len() as int));
            } else {
                assert(p[k].subrange(0, p[k].len() as int) =~= p[k]);
            }
        }
        lemma_trim_end_shape(l);
        let t = trim_end_spec(l);
        assert(tl[k] == t);
        assert forall|i: int| 0 <= i < t.len() implies #[trigger] t[i] != '\n' by {
            assert(t[i] == l[i]);
            assert(l[i] == p[k][i]);
        }
    }
    lemma_scan_normal(tl);
    let (done, cur) = scan_parts(tl);
    if cur.len() > 0 {
        let nd = done.push(cur);
        assert forall|i: int| 0 <= i < nd.len() implies (#[trigger] nd[i]).len() > 0 && forall|
            j: int,
        | 0 <= j < nd[i].len() ==> is_normal_line(#[trigger] nd[i][j]) by {
            if i < done.len() {
                assert(nd[i] == done[i]);
            }
        }
    }
}

} // verus!
