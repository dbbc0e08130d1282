//! Lyric files with YAML front matter: a first line `---` opens the front
//! matter, the next `---` line closes it; the other lines, trimmed, make
//! parts separated by blank lines.
use vstd::prelude::*;

use crate::model::LyricPost;
use crate::parts::lemma_trim_end_shape;
use crate::text::{chars_of, is_ws, join_spec, lines, lines_spec, trim, trim_spec, trim_start_spec};

verus! {

/// The line that opens and closes front matter: `---`.
pub open spec fn yaml_separator() -> Seq<char> {
    seq!['-', '-', '-']
}

/// What is known after reading some lines of a lyric file.
pub struct LyricScan {
    /// The front matter read so far, each line followed by a newline.
    pub yaml: Option<Seq<char>>,
    /// Whether the front matter is still open.
    pub in_yaml: bool,
    /// Whether the next non-blank line starts a new part.
    pub new_part: bool,
    /// The parts read so far.
    pub parts: Seq<Seq<Seq<char>>>,
}

/// The state before any line.
pub open spec fn scan_start() -> LyricScan {
    LyricScan { yaml: None, in_yaml: false, new_part: true, parts: Seq::<Seq<Seq<char>>>::empty() }
}

/// Reads one line; `first` tells whether it is the first line of the file.
pub open spec fn scan_line(st: LyricScan, line: Seq<char>, first: bool) -> LyricScan {
    if line == yaml_separator() && first {
        LyricScan { yaml: Some(Seq::<char>::empty()), in_yaml: true, ..st }
    } else if line == yaml_separator() && st.in_yaml {
        LyricScan { in_yaml: false, ..st }
    } else if st.in_yaml {
        LyricScan {
            yaml: match st.yaml {
                Some(y) => Some(y + line + seq!['\n']),
                None => None,
            },
            ..st
        }
    } else if trim_spec(line).len() == 0 {
        LyricScan { new_part: true, ..st }
    } else if st.new_part {
        LyricScan { new_part: false, parts: st.parts.push(seq![trim_spec(line)]), ..st }
    } else {
        LyricScan {
            parts: st.parts.update(st.parts.len() - 1, st.parts.last().push(trim_spec(line))),
            ..st
        }
    }
}

/// The state after reading `ls`.
pub open spec fn scan_lines(ls: Seq<Seq<char>>) -> LyricScan
    decreases ls.len(),
{
    if ls.len() == 0 {
        scan_start()
    } else {
        scan_line(scan_lines(ls.drop_last()), ls.last(), ls.len() == 1)
    }
}

/// While no part is open for more lines, the next non-blank line starts one.
pub open spec fn scan_inv(st: LyricScan) -> bool {
    &&& !st.new_part ==> st.parts.len() > 0
    &&& st.in_yaml ==> st.yaml is Some
}

proof fn lemma_scan_inv(ls: Seq<Seq<char>>)
    ensures
        scan_inv(scan_lines(ls)),
    decreases ls.len(),
{
    if ls.len() > 0 {
        lemma_scan_inv(ls.drop_last());
    }
}

/// A lyric file read into its front matter, if any, and its parts.
pub struct LyricText {
    pub frontmatter: Option<String>,
    pub parts: Vec<Vec<String>>,
}

/// Whether a line is exactly `---`.
fn is_yaml_separator(l: &str) -> (b: bool)
    ensures
        b == (l@ == yaml_separator()),
{
    let v = chars_of(l);
    let b = v.len() == 3 && v[0] == '-' && v[1] == '-' && v[2] == '-';
    proof {
        if b {
            assert(v@ =~= yaml_separator());
        }
    }
    b
}

/// Reads the lines of a lyric file: the front matter, where the first line
/// is `---` (up to the next `---` line, or to the end), and the parts.
pub fn lyricpost_from_lines(lines: &Vec<String>) -> (r: LyricText)
    ensures
        r.frontmatter.is_some() == scan_lines(lines.deep_view()).yaml.is_some(),
        r.frontmatter matches Some(y) ==> scan_lines(lines.deep_view()).yaml == Some(y@),
        r.parts.deep_view() == scan_lines(lines.deep_view()).parts,
{
    let ghost lv = lines.deep_view();
    let mut yaml: Option<String> = None;
    let mut in_yaml = false;
    let mut new_part = true;
    let mut parts: Vec<Vec<String>> = Vec::new();
    let mut i: usize = 0;
    proof {
        assert(lv.take(0) =~= Seq::<Seq<char>>::empty());
        assert(parts.deep_view() =~= Seq::<Seq<Seq<char>>>::empty());
    }
    while i < lines.len()
        invariant
            i <= lines@.len(),
            lv == lines.deep_view(),
            lv.len() == lines@.len(),
            ({
                let st = scan_lines(lv.take(i as int));
                &&& st.yaml == match yaml {
                    Some(y) => Some(y@),
                    None => None::<Seq<char>>,
                }
                &&& st.in_yaml == in_yaml
                &&& st.new_part == new_part
                &&& st.parts == parts.deep_view()
            }),
        decreases lines.len() - i,
    {
        let ghost before = scan_lines(lv.take(i as int));
        proof {
            assert(lv.take(i + 1).drop_last() =~= lv.take(i as int));
            assert(lv[i as int] == lines@[i as int]@);
            lemma_scan_inv(lv.take(i as int));
        }
        let line = &lines[i];
        let sep = is_yaml_separator(line.as_str());
        if sep && i == 0 {
            yaml = Some(String::new());
            in_yaml = true;
            proof {
                assert(yaml.unwrap()@ =~= Seq::<char>::empty());
            }
        } else if sep && in_yaml {
            in_yaml = false;
        } else if in_yaml {
            let mut y = match yaml {
                Some(y) => y,
                None => String::new(),
            };
            let ghost y0 = y@;
            crate::text::push_str(&mut y, line.as_str());
            crate::text::push_char(&mut y, '\n');
            proof {
                assert(y@ =~= y0 + line@ + seq!['\n']);
            }
            yaml = Some(y);
        } else {
            let t = trim(line.as_str());
            if t.as_str().is_empty() {
                new_part = true;
            } else if new_part {
                let ghost pd = parts.deep_view();
                let mut part: Vec<String> = Vec::new();
                let ghost tv = t@;
                part.push(t);
                proof {
                    assert(part.deep_view() =~= seq![tv]);
                }
                parts.push(part);
                new_part = false;
                proof {
                    assert(parts.deep_view() =~= pd.push(seq![tv]));
                }
            } else {
                let ghost pd = parts.deep_view();
                let last = parts.len() - 1;
                let mut part = parts.remove(last);
                let ghost old_part = part.deep_view();
                let ghost tv = t@;
                part.push(t);
                proof {
                    assert(part.deep_view() =~= old_part.push(tv));
                    assert(old_part == pd[last as int]);
                }
                let ghost rest = parts.deep_view();
                parts.push(part);
                proof {
                    assert(rest =~= pd.drop_last());
                    assert(parts.deep_view() =~= pd.update(last as int, pd.last().push(tv)));
                }
            }
        }
        i = i + 1;
    }
    proof {
        assert(lv.take(lines@.len() as int) =~= lv);
    }
    LyricText { frontmatter: yaml, parts }
}

impl LyricText {
    /// The posted lyric: the title read from the front matter, or an empty
    /// title where there is none or it could not be read, and the parts.
    pub fn into_lyric_post(self, meta_title: Option<String>) -> (p: LyricPost)
        ensures
            p.title@ == match meta_title {
                Some(t) => t@,
                None => Seq::<char>::empty(),
            },
            p.parts.deep_view() == self.parts.deep_view(),
    {
        let title = match meta_title {
            Some(t) => t,
            None => String::new(),
        };
        LyricPost { title, parts: self.parts }
    }
}

/// Whether a line, trimmed, is `---`.
pub open spec fn is_separator_line(l: Seq<char>) -> bool {
    trim_spec(l) == yaml_separator()
}

/// `ls` from its first separator line on.
pub open spec fn skip_to_separator(ls: Seq<Seq<char>>) -> Seq<Seq<char>>
    decreases ls.len(),
{
    if ls.len() > 0 && !is_separator_line(ls[0]) {
        skip_to_separator(ls.drop_first())
    } else {
        ls
    }
}

/// `ls` without its leading separator lines.
pub open spec fn skip_separators(ls: Seq<Seq<char>>) -> Seq<Seq<char>>
    decreases ls.len(),
{
    if ls.len() > 0 && is_separator_line(ls[0]) {
        skip_separators(ls.drop_first())
    } else {
        ls
    }
}

/// The leading lines of `ls` before its first separator line.
pub open spec fn take_to_separator(ls: Seq<Seq<char>>) -> Seq<Seq<char>>
    decreases ls.len(),
{
    if ls.len() > 0 && !is_separator_line(ls[0]) {
        seq![ls[0]] + take_to_separator(ls.drop_first())
    } else {
        Seq::<Seq<char>>::empty()
    }
}

/// The front matter of a text: the lines after the first run of separator
/// lines and before the next separator line, joined by newlines.
pub open spec fn frontmatter_spec(s: Seq<char>) -> Seq<char> {
    join_spec(take_to_separator(skip_separators(skip_to_separator(lines_spec(s)))), seq!['\n'])
}

/// Whether a line, trimmed, is `---`.
fn line_is_separator(l: &str) -> (b: bool)
    ensures
        b == is_separator_line(l@),
{
    let t = trim(l);
    is_yaml_separator(t.as_str())
}

proof fn lemma_sub_first(ls: Seq<Seq<char>>, i: int)
    requires
        0 <= i < ls.len(),
    ensures
        ls.subrange(i, ls.len() as int).drop_first() == ls.subrange(i + 1, ls.len() as int),
        ls.subrange(i, ls.len() as int)[0] == ls[i],
{
    assert(ls.subrange(i, ls.len() as int).drop_first() =~= ls.subrange(i + 1, ls.len() as int));
}

/// The front matter of a text: after the first line that is `---` once
/// trimmed, and any such lines right after it, the lines up to the next
/// such line, joined by newlines.
pub fn read_frontmatter(s: &str) -> (r: String)
    ensures
        r@ == frontmatter_spec(s@),
{
    let ls = lines(s);
    let ghost lv = ls.deep_view();
    let n = ls.len();
    let mut i: usize = 0;
    proof {
        assert(lv.subrange(0, n as int) =~= lv);
    }
    while i < n && !line_is_separator(ls[i].as_str())
        invariant
            i <= n,
            n == ls@.len(),
            lv == ls.deep_view(),
            lv == lines_spec(s@),
            skip_to_separator(lv) == skip_to_separator(lv.subrange(i as int, n as int)),
        decreases n - i,
    {
        proof {
            assert(lv[i as int] == ls@[i as int]@);
            lemma_sub_first(lv, i as int);
        }
        i = i + 1;
    }
    proof {
        if i < n {
            assert(lv[i as int] == ls@[i as int]@);
            lemma_sub_first(lv, i as int);
        }
        assert(skip_to_separator(lv.subrange(i as int, n as int)) == lv.subrange(i as int, n as int));
    }
    while i < n && line_is_separator(ls[i].as_str())
        invariant
            i <= n,
            n == ls@.len(),
            lv == ls.deep_view(),
            skip_separators(skip_to_separator(lv)) == skip_separators(lv.subrange(i as int, n as int)),
        decreases n - i,
    {
        proof {
            assert(lv[i as int] == ls@[i as int]@);
            lemma_sub_first(lv, i as int);
        }
        i = i + 1;
    }
    proof {
        if i < n {
            assert(lv[i as int] == ls@[i as int]@);
            lemma_sub_first(lv, i as int);
        }
        assert(skip_separators(lv.subrange(i as int, n as int)) == lv.subrange(i as int, n as int));
    }
    let start = i;
    let mut kept: Vec<String> = Vec::new();
    proof {
        assert(lv.subrange(start as int, start as int) =~= Seq::<Seq<char>>::empty());
        assert(take_to_separator(lv.subrange(start as int, n as int)) =~= lv.subrange(
            start as int,
            start as int,
        ) + take_to_separator(lv.subrange(start as int, n as int)));
    }
    while i < n && !line_is_separator(ls[i].as_str())
        invariant
            start <= i <= n,
            n == ls@.len(),
            lv == ls.deep_view(),
            take_to_separator(lv.subrange(start as int, n as int)) == lv.subrange(start as int, i as int)
                + take_to_separator(lv.subrange(i as int, n as int)),
            kept.deep_view() == lv.subrange(start as int, i as int),
        decreases n - i,
    {
        proof {
            assert(lv[i as int] == ls@[i as int]@);
            lemma_sub_first(lv, i as int);
            assert(lv.subrange(start as int, i as int) + (seq![lv[i as int]] + take_to_separator(
                lv.subrange(i + 1, n as int),
            )) =~= lv.subrange(start as int, i + 1) + take_to_separator(lv.subrange(i + 1, n as int)));
        }
        let ghost before = kept.deep_view();
        let line = ls[i].clone();
        kept.push(line);
        proof {
            assert(kept.deep_view() =~= before.push(lv[i as int]));
            assert(lv.subrange(start as int, i + 1) =~= lv.subrange(start as int, i as int).push(
                lv[i as int],
            ));
        }
        i = i + 1;
    }
    proof {
        if i < n {
            assert(lv[i as int] == ls@[i as int]@);
            lemma_sub_first(lv, i as int);
        }
        assert(take_to_separator(lv.subrange(i as int, n as int)) =~= Seq::<Seq<char>>::empty());
        assert(lv.subrange(start as int, i as int) + Seq::<Seq<char>>::empty() =~= lv.subrange(
            start as int,
            i as int,
        ));
    }
    let r = crate::disk_format::join_with(&kept, "\n");
    proof {
        reveal_strlit("\n");
        assert("\n"@ =~= seq!['\n']);
    }
    r
}

proof fn lemma_trim_start_first(s: Seq<char>)
    ensures
        trim_start_spec(s).len() > 0 ==> !is_ws(trim_start_spec(s)[0]),
    decreases s.len(),
{
    if s.len() > 0 && is_ws(s[0]) {
        lemma_trim_start_first(s.drop_first());
    }
}

/// A trimmed line, where not empty, has no white space at either end.
pub proof fn lemma_trim_ends(l: Seq<char>)
    ensures
        trim_spec(l).len() > 0 ==> !is_ws(trim_spec(l)[0]) && !is_ws(trim_spec(l).last()),
{
    let t = trim_start_spec(l);
    lemma_trim_start_first(l);
    lemma_trim_end_shape(t);
    if trim_spec(l).len() > 0 {
        assert(trim_spec(l)[0] == t[0]);
    }
}

/// A line of a part: not empty, no white space at either end.
pub open spec fn is_part_line(l: Seq<char>) -> bool {
    &&& l.len() > 0
    &&& !is_ws(l[0])
    &&& !is_ws(l.last())
}

/// Every part is not empty, and every line of it is a part line that is
/// the trim of one of the lines `ls`.
pub open spec fn parts_from(parts: Seq<Seq<Seq<char>>>, ls: Seq<Seq<char>>) -> bool {
    forall|i: int|
        0 <= i < parts.len() ==> (#[trigger] parts[i]).len() > 0 && forall|j: int|
            0 <= j < parts[i].len() ==> is_part_line(#[trigger] parts[i][j]) && exists|k: int|
                0 <= k < ls.len() && parts[i][j] == trim_spec(#[trigger] ls[k])
}

/// Law: reading a lyric file trims every line of every part: each is the
/// trim of a line of the file, not empty, with no white space at either
/// end, and no part is empty.
pub proof fn law_lyric_file_lines_trimmed(ls: Seq<Seq<char>>)
    ensures
        parts_from(scan_lines(ls).parts, ls),
    decreases ls.len(),
{
    if ls.len() > 0 {
        let d = ls.drop_last();
        law_lyric_file_lines_trimmed(d);
        lemma_scan_inv(d);
        let st = scan_lines(d);
        let line = ls.last();
        let k = ls.len() - 1;
        assert(ls[k] == line);
        lemma_trim_ends(line);
        let np = scan_lines(ls).parts;
        assert forall|i: int|
            0 <= i < np.len() implies (#[trigger] np[i]).len() > 0 && forall|j: int|
                0 <= j < np[i].len() ==> is_part_line(#[trigger] np[i][j]) && exists|k2: int|
                    0 <= k2 < ls.len() && np[i][j] == trim_spec(#[trigger] ls[k2]) by {
            assert forall|j: int| 0 <= j < np[i].len() implies is_part_line(#[trigger] np[i][j])
                && exists|k2: int| 0 <= k2 < ls.len() && np[i][j] == trim_spec(#[trigger] ls[k2]) by {
                if i < st.parts.len() && (np[i] == st.parts[i] || j < st.parts[i].len()) {
                    if j < st.parts[i].len() {
                        assert(np[i][j] == st.parts[i][j]) by {
                            if np[i] != st.parts[i] {
                                assert(np[i] == st.parts[i].push(trim_spec(line)));
                            }
                        }
                        let k2 = choose|k2: int|
                            0 <= k2 < d.len() && st.parts[i][j] == trim_spec(#[trigger] d[k2]);
                        assert(ls[k2] == d[k2]);
                    } else {
                        assert(np[i] == st.parts[i]);
                    }
                } else {
                    assert(np[i][j] == trim_spec(line));
                }
            }
            if i < st.parts.len() {
                assert(np[i].len() >= st.parts[i].len());
            }
        }
    }
}

} // verus!
