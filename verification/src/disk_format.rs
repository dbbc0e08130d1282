//! The stored text of lyrics and playlists.  A lyric is a TOML metadata
//! block between `+++` lines, then its parts; a playlist is a TOML table
//! with a title and the identifiers of its members.
use vstd::prelude::*;

use crate::error::ModelError;
use crate::model::{Lyric, LyricPost, LyricPostView, LyricView, PlaylistPost, PlaylistPostView, Summary};
use crate::parts::{group_parts, scan_parts, without_line};
use crate::stored_law::{
    is_stored_parts, law_stored_lyric_reads_back, law_stored_meta_reads_back, lemma_tag_one_line,
    meta_lines, one_line,
};
use crate::tags::{entity_tag_hash, entity_tag_text, lyric_bytes, lyric_meta_tag};
use crate::text::{chars_of, join_spec, lines, lines_spec, push_str, trim, trim_spec};
use crate::uuid::{is_v4, uuid_of_text, Uuid};

verus! {

/// The line that opens and closes the metadata block of a lyric: `+++`.
pub open spec fn toml_prefix() -> Seq<char> {
    seq!['+', '+', '+']
}

/// The key of the title.
pub open spec fn key_title() -> Seq<char> {
    seq!['t', 'i', 't', 'l', 'e']
}

/// The key of the first hash.
pub open spec fn key_hash1() -> Seq<char> {
    seq!['h', 'a', 's', 'h', '1']
}

/// The key of the second hash.
pub open spec fn key_hash2() -> Seq<char> {
    seq!['h', 'a', 's', 'h', '2']
}

/// The key of the members of a playlist.
pub open spec fn key_members() -> Seq<char> {
    seq!['m', 'e', 'm', 'b', 'e', 'r', 's']
}

/// What `text`, read as a TOML document by `toml_edit`, holds under the
/// top-level `key`: `None` where `text` is no TOML document or the value is
/// not a string, `Some(None)` where the key is absent, else the string.
pub uninterp spec fn toml_str_lookup(text: Seq<char>, key: Seq<char>) -> Option<Option<Seq<char>>>;

/// What `text`, read as a TOML document by `toml_edit`, holds under the
/// top-level `key`: `None` where `text` is no TOML document or the value is
/// not an array of strings, `Some(None)` where the key is absent, else the strings.
pub uninterp spec fn toml_str_array_lookup(text: Seq<char>, key: Seq<char>) -> Option<
    Option<Seq<Seq<char>>>,
>;

/// The text that `toml_edit` writes for a document of the three string
/// entries `k1 = v1`, `k2 = v2`, `k3 = v3`, in that order.
pub uninterp spec fn toml_table_of(
    k1: Seq<char>,
    v1: Seq<char>,
    k2: Seq<char>,
    v2: Seq<char>,
    k3: Seq<char>,
    v3: Seq<char>,
) -> Seq<char>;

/// The value of an optional optional string.
pub open spec fn opt_str_view(o: Option<Option<String>>) -> Option<Option<Seq<char>>> {
    match o {
        None => None,
        Some(None) => Some(None),
        Some(Some(s)) => Some(Some(s@)),
    }
}

/// The value of an optional optional list of strings.
pub open spec fn opt_strs_view(o: Option<Option<Vec<String>>>) -> Option<Option<Seq<Seq<char>>>> {
    match o {
        None => None,
        Some(None) => Some(None),
        Some(Some(v)) => Some(Some(v.deep_view())),
    }
}

/// Reads `text` as a `toml_edit::DocumentMut` and looks up the top-level
/// string under `key` (`Item::as_str`).  Nothing about TOML's grammar is
/// stated: the result is named.
#[verifier::external_body]
fn toml_get_str(text: &str, key: &str) -> (r: Option<Option<String>>)
    ensures
        opt_str_view(r) == toml_str_lookup(text@, key@),
{
    match text.parse::<toml_edit::DocumentMut>() {
        Err(_) => None,
        Ok(doc) => match doc.get(key) {
            None => Some(None),
            Some(item) => match item.as_str() {
                None => None,
                Some(s) => Some(Some(s.to_string())),
            },
        },
    }
}

/// Reads `text` as a `toml_edit::DocumentMut` and looks up the top-level
/// array under `key` (`Item::as_array`), each of whose values must be a
/// string (`Value::as_str`).  Nothing about TOML's grammar is stated: the
/// result is named.
#[verifier::external_body]
fn toml_get_str_array(text: &str, key: &str) -> (r: Option<Option<Vec<String>>>)
    ensures
        opt_strs_view(r) == toml_str_array_lookup(text@, key@),
{
    match text.parse::<toml_edit::DocumentMut>() {
        Err(_) => None,
        Ok(doc) => match doc.get(key) {
            None => Some(None),
            Some(item) => match item.as_array() {
                None => None,
                Some(a) => a.iter().map(|v| v.as_str().map(String::from)).collect::<Option<Vec<String>>>().map(Some),
            },
        },
    }
}

/// Reading the lines `a`, `b`, `c` as TOML gives `v1`, `v2`, `v3` under
/// the keys `k1`, `k2`, `k3`.
pub open spec fn table_lookups(
    a: Seq<char>,
    b: Seq<char>,
    c: Seq<char>,
    k1: Seq<char>,
    v1: Seq<char>,
    k2: Seq<char>,
    v2: Seq<char>,
    k3: Seq<char>,
    v3: Seq<char>,
) -> bool {
    let text = a + seq!['\n'] + b + seq!['\n'] + c;
    &&& toml_str_lookup(text, k1) == Some(Some(v1))
    &&& toml_str_lookup(text, k2) == Some(Some(v2))
    &&& toml_str_lookup(text, k3) == Some(Some(v3))
}

/// `t` is three lines, none empty, with no white space at either end and
/// none `+++`, from which TOML reads back the three entries.
pub open spec fn table_text_facts(
    t: Seq<char>,
    k1: Seq<char>,
    v1: Seq<char>,
    k2: Seq<char>,
    v2: Seq<char>,
    k3: Seq<char>,
    v3: Seq<char>,
) -> bool {
    exists|a: Seq<char>, b: Seq<char>, c: Seq<char>|
        #[trigger] meta_lines(t, a, b, c) && table_lookups(a, b, c, k1, v1, k2, v2, k3, v3)
}

/// Writes a `toml_edit::DocumentMut` that holds the strings `v1`, `v2`,
/// `v3` under the keys `k1`, `k2`, `k3`, in that order.  How `toml_edit`
/// quotes keys and strings is not stated: the result is named.  Where the
/// keys differ and no value holds a line break, the text is three lines
/// `key = value`, each ended by a newline (the key first, bare or quoted, a
/// quote last, so no white space at either end; no line break inside, since
/// `toml_edit` writes such keys and values on one line; and an `=` in each,
/// so none is `+++`), and reading those lines as TOML gives back the three
/// strings under their keys.
#[verifier::external_body]
fn toml_table_text(k1: &str, v1: &str, k2: &str, v2: &str, k3: &str, v3: &str) -> (r: String)
    ensures
        r@ == toml_table_of(k1@, v1@, k2@, v2@, k3@, v3@),
        k1@ != k2@ && k1@ != k3@ && k2@ != k3@ && one_line(v1@) && one_line(v2@) && one_line(v3@)
            ==> table_text_facts(r@, k1@, v1@, k2@, v2@, k3@, v3@),
{
    let mut doc = toml_edit::DocumentMut::new();
    doc.insert(k1, toml_edit::value(v1));
    doc.insert(k2, toml_edit::value(v2));
    doc.insert(k3, toml_edit::value(v3));
    doc.to_string()
}

/// The metadata of a stored lyric: its title and two entity tags.
#[derive(Debug)]
pub struct LyricMeta {
    pub title: String,
    pub hash1: Option<String>,
    pub hash2: Option<String>,
}

/// Metadata as a value.
pub struct LyricMetaView {
    pub title: Seq<char>,
    pub hash1: Option<Seq<char>>,
    pub hash2: Option<Seq<char>>,
}

/// The value of an optional string.
pub open spec fn opt_view(o: Option<String>) -> Option<Seq<char>> {
    match o {
        None => None,
        Some(s) => Some(s@),
    }
}

impl View for LyricMeta {
    type V = LyricMetaView;

    open spec fn view(&self) -> LyricMetaView {
        LyricMetaView { title: self.title@, hash1: opt_view(self.hash1), hash2: opt_view(self.hash2) }
    }
}

/// The metadata that a TOML text holds: a string `title`, and `hash1` and
/// `hash2`, each a string where present.
pub open spec fn meta_from_toml(text: Seq<char>) -> Option<LyricMetaView> {
    match (
        toml_str_lookup(text, key_title()),
        toml_str_lookup(text, key_hash1()),
        toml_str_lookup(text, key_hash2()),
    ) {
        (Some(Some(t)), Some(h1), Some(h2)) => Some(LyricMetaView { title: t, hash1: h1, hash2: h2 }),
        _ => None,
    }
}

/// Reads lyric metadata from a TOML text.
pub fn lyric_meta_from_toml(text: &str) -> (r: Result<LyricMeta, ModelError>)
    ensures
        match meta_from_toml(text@) {
            Some(m) => r matches Ok(x) && x@ == m,
            None => r matches Err(ModelError::TomlDeError),
        },
{
    let title = toml_get_str(text, "title");
    let hash1 = toml_get_str(text, "hash1");
    let hash2 = toml_get_str(text, "hash2");
    proof {
        reveal_strlit("title");
        reveal_strlit("hash1");
        reveal_strlit("hash2");
        assert("title"@ =~= key_title());
        assert("hash1"@ =~= key_hash1());
        assert("hash2"@ =~= key_hash2());
    }
    match (title, hash1, hash2) {
        (Some(Some(t)), Some(h1), Some(h2)) => Ok(LyricMeta { title: t, hash1: h1, hash2: h2 }),
        _ => Err(ModelError::TomlDeError),
    }
}

/// Whether a line is empty but for white space.
pub open spec fn is_blank(l: Seq<char>) -> bool {
    trim_spec(l).len() == 0
}

/// `ls` without its leading blank lines.
pub open spec fn skip_blank(ls: Seq<Seq<char>>) -> Seq<Seq<char>>
    decreases ls.len(),
{
    if ls.len() > 0 && is_blank(ls[0]) {
        skip_blank(ls.drop_first())
    } else {
        ls
    }
}

/// The leading lines of `ls` that are not blank.
pub open spec fn take_filled(ls: Seq<Seq<char>>) -> Seq<Seq<char>>
    decreases ls.len(),
{
    if ls.len() > 0 && !is_blank(ls[0]) {
        seq![ls[0]] + take_filled(ls.drop_first())
    } else {
        Seq::<Seq<char>>::empty()
    }
}

/// The TOML text of the metadata block of a stored lyric: the first run of
/// non-blank lines, without the `+++` lines, joined by newlines.
pub open spec fn meta_block_text(s: Seq<char>) -> Seq<char> {
    join_spec(without_line(take_filled(skip_blank(lines_spec(s))), toml_prefix()), seq!['\n'])
}

/// Whether a line is exactly `+++`.
fn is_toml_prefix(l: &str) -> (b: bool)
    ensures
        b == (l@ == toml_prefix()),
{
    let v = chars_of(l);
    let b = v.len() == 3 && v[0] == '+' && v[1] == '+' && v[2] == '+';
    proof {
        if b {
            assert(v@ =~= toml_prefix());
        }
    }
    b
}

/// Whether a line is empty but for white space.
fn line_is_blank(l: &str) -> (b: bool)
    ensures
        b == is_blank(l@),
{
    let t = trim(l);
    t.as_str().is_empty()
}

/// Joins lines with `sep` between them.
pub fn join_with(lines: &Vec<String>, sep: &str) -> (s: String)
    ensures
        s@ == join_spec(lines.deep_view(), sep@),
{
    let mut s = String::new();
    let mut j: usize = 0;
    while j < lines.len()
        invariant
            j <= lines@.len(),
            s@ == join_spec(lines.deep_view().take(j as int), sep@),
        decreases lines.len() - j,
    {
        let ghost dv = lines.deep_view();
        proof {
            let t = dv.take(j + 1);
            assert(t.drop_last() =~= dv.take(j as int));
            assert(dv[j as int] == lines@[j as int]@);
            if j == 0 {
                assert(t.len() == 1);
            }
        }
        if j > 0 {
            push_str(&mut s, sep);
        }
        push_str(&mut s, lines[j].as_str());
        proof {
            if j == 0 {
                assert(s@ =~= dv.take(1)[0]);
            } else {
                assert(s@ =~= join_spec(dv.take(j as int), sep@) + sep@ + dv[j as int]);
            }
        }
        j = j + 1;
    }
    proof {
        assert(lines.deep_view().take(lines@.len() as int) =~= lines.deep_view());
    }
    s
}

proof fn lemma_skip_blank_step(ls: Seq<Seq<char>>, i: int)
    requires
        0 <= i < ls.len(),
        is_blank(ls[i]),
    ensures
        skip_blank(ls.subrange(i, ls.len() as int)) == skip_blank(ls.subrange(i + 1, ls.len() as int)),
{
    let a = ls.subrange(i, ls.len() as int);
    assert(a.drop_first() =~= ls.subrange(i + 1, ls.len() as int));
}

proof fn lemma_take_filled_step(ls: Seq<Seq<char>>, j: int)
    requires
        0 <= j < ls.len(),
        !is_blank(ls[j]),
    ensures
        take_filled(ls.subrange(j, ls.len() as int)) == seq![ls[j]] + take_filled(
            ls.subrange(j + 1, ls.len() as int),
        ),
{
    let a = ls.subrange(j, ls.len() as int);
    assert(a.drop_first() =~= ls.subrange(j + 1, ls.len() as int));
}

impl LyricMeta {
    /// Reads the metadata of a stored lyric: the first run of non-blank
    /// lines, without its `+++` lines, read as TOML.
    pub fn from_str(s: &str) -> (r: Result<LyricMeta, ModelError>)
        ensures
            match meta_from_toml(meta_block_text(s@)) {
                Some(m) => r matches Ok(x) && x@ == m,
                None => r matches Err(ModelError::TomlDeError),
            },
    {
        let ls = lines(s);
        let ghost lv = ls.deep_view();
        let n = ls.len();
        let mut i: usize = 0;
        proof {
            assert(lv.subrange(0, n as int) =~= lv);
        }
        while i < n && line_is_blank(ls[i].as_str())
            invariant
                i <= n,
                n == ls@.len(),
                lv == ls.deep_view(),
                lv == lines_spec(s@),
                skip_blank(lv) == skip_blank(lv.subrange(i as int, n as int)),
            decreases n - i,
        {
            proof {
                assert(lv[i as int] == ls@[i as int]@);
                lemma_skip_blank_step(lv, i as int);
            }
            i = i + 1;
        }
        proof {
            let rest = lv.subrange(i as int, n as int);
            if i < n {
                assert(lv[i as int] == ls@[i as int]@);
                assert(rest[0] == lv[i as int]);
            }
            assert(skip_blank(rest) == rest);
        }
        let start = i;
        let mut kept: Vec<String> = Vec::new();
        let mut j: usize = i;
        proof {
            assert(lv.subrange(start as int, start as int) =~= Seq::<Seq<char>>::empty());
            assert(lv.subrange(start as int, n as int) =~= lv.subrange(start as int, start as int)
                + lv.subrange(start as int, n as int));
        }
        while j < n && !line_is_blank(ls[j].as_str())
            invariant
                start <= j <= n,
                n == ls@.len(),
                lv == ls.deep_view(),
                take_filled(lv.subrange(start as int, n as int)) == lv.subrange(start as int, j as int)
                    + take_filled(lv.subrange(j as int, n as int)),
                kept.deep_view() == without_line(lv.subrange(start as int, j as int), toml_prefix()),
            decreases n - j,
        {
            proof {
                assert(lv[j as int] == ls@[j as int]@);
                lemma_take_filled_step(lv, j as int);
                assert(lv.subrange(start as int, j + 1) =~= lv.subrange(start as int, j as int).push(
                    lv[j as int],
                ));
                assert(lv.subrange(start as int, j as int) + (seq![lv[j as int]] + take_filled(
                    lv.subrange(j + 1, n as int),
                )) =~= lv.subrange(start as int, j + 1) + take_filled(lv.subrange(j + 1, n as int)));
            }
            let ghost before = kept.deep_view();
            if !is_toml_prefix(ls[j].as_str()) {
                kept.push(ls[j].clone());
                proof {
                    assert(kept.deep_view() =~= before.push(lv[j as int]));
                }
            }
            proof {
                let sub = lv.subrange(start as int, j + 1);
                assert(sub.drop_last() =~= lv.subrange(start as int, j as int));
            }
            j = j + 1;
        }
        proof {
            let rest = lv.subrange(j as int, n as int);
            if j < n {
                assert(lv[j as int] == ls@[j as int]@);
                assert(rest[0] == lv[j as int]);
            }
            assert(take_filled(rest) =~= Seq::<Seq<char>>::empty());
            assert(lv.subrange(start as int, j as int) + Seq::<Seq<char>>::empty() =~= lv.subrange(
                start as int,
                j as int,
            ));
        }
        let text = join_with(&kept, "\n");
        proof {
            reveal_strlit("\n");
            assert("\n"@ =~= seq!['\n']);
        }
        lyric_meta_from_toml(text.as_str())
    }
}

/// The lines of `s`, each trimmed of white space at both ends.
pub open spec fn fully_trimmed_lines(s: Seq<char>) -> Seq<Seq<char>> {
    lines_spec(s).map_values(|l: Seq<char>| trim_spec(l))
}

/// The blocks of a stored lyric: maximal runs of non-blank lines, trimmed.
pub open spec fn text_blocks(s: Seq<char>) -> Seq<Seq<Seq<char>>> {
    group_parts(fully_trimmed_lines(s))
}

/// Reads blocks into a posted lyric, from `title` and `parts` on: a block
/// whose first line is `+++` is metadata and sets the title, any other is
/// a part.  `None` where some metadata block is not readable.
pub open spec fn fold_blocks(
    title: Seq<char>,
    parts: Seq<Seq<Seq<char>>>,
    bs: Seq<Seq<Seq<char>>>,
) -> Option<LyricPostView>
    decreases bs.len(),
{
    if bs.len() == 0 {
        Some(LyricPostView { title, parts })
    } else if bs[0].len() > 0 && bs[0][0] == toml_prefix() {
        match meta_from_toml(join_spec(without_line(bs[0], toml_prefix()), seq!['\n'])) {
            Some(m) => fold_blocks(m.title, parts, bs.drop_first()),
            None => None,
        }
    } else {
        fold_blocks(title, parts.push(bs[0]), bs.drop_first())
    }
}

/// The posted lyric that a stored text holds, where its metadata is readable.
pub open spec fn lyric_post_of_text(s: Seq<char>) -> Option<LyricPostView> {
    fold_blocks(Seq::<char>::empty(), Seq::<Seq<Seq<char>>>::empty(), text_blocks(s))
}

/// The blocks of a stored lyric text.
fn trimmed_blocks(input: &str) -> (parts: Vec<Vec<String>>)
    ensures
        parts.deep_view() == text_blocks(input@),
{
    let ls = lines(input);
    let ghost tl = fully_trimmed_lines(input@);
    let mut done: Vec<Vec<String>> = Vec::new();
    let mut cur: Vec<String> = Vec::new();
    let mut i: usize = 0;
    while i < ls.len()
        invariant
            i <= ls@.len(),
            ls.deep_view() == lines_spec(input@),
            tl == fully_trimmed_lines(input@),
            tl.len() == ls@.len(),
            (done.deep_view(), cur.deep_view()) == scan_parts(tl.take(i as int)),
        decreases ls.len() - i,
    {
        proof {
            assert(tl.take(i + 1).drop_last() =~= tl.take(i as int));
            assert(ls.deep_view()[i as int] == ls@[i as int]@);
        }
        let line = trim(ls[i].as_str());
        let ghost old_done = done.deep_view();
        let ghost old_cur = cur.deep_view();
        if line.as_str().is_empty() {
            if cur.len() > 0 {
                let mut next: Vec<String> = Vec::new();
                std::mem::swap(&mut next, &mut cur);
                done.push(next);
                proof {
                    assert(done.deep_view() =~= old_done.push(old_cur));
                    assert(cur.deep_view() =~= Seq::<Seq<char>>::empty());
                }
            }
        } else {
            cur.push(line);
            proof {
                assert(cur.deep_view() =~= old_cur.push(line@));
            }
        }
        i = i + 1;
    }
    proof {
        assert(tl.take(ls@.len() as int) =~= tl);
    }
    if cur.len() > 0 {
        let ghost old_done = done.deep_view();
        let ghost old_cur = cur.deep_view();
        done.push(cur);
        proof {
            assert(done.deep_view() =~= old_done.push(old_cur));
        }
    }
    done
}

/// A copy of a list of lines.
fn clone_lines(ls: &Vec<String>) -> (r: Vec<String>)
    ensures
        r.deep_view() == ls.deep_view(),
{
    let mut r: Vec<String> = Vec::new();
    let mut i: usize = 0;
    while i < ls.len()
        invariant
            i <= ls@.len(),
            r.deep_view() == ls.deep_view().take(i as int),
        decreases ls.len() - i,
    {
        let ghost before = r.deep_view();
        let line = ls[i].clone();
        r.push(line);
        proof {
            assert(r.deep_view() =~= before.push(ls@[i as int]@));
            assert(ls.deep_view()[i as int] == ls@[i as int]@);
            assert(r.deep_view() =~= ls.deep_view().take(i + 1));
        }
        i = i + 1;
    }
    proof {
        assert(ls.deep_view().take(ls@.len() as int) =~= ls.deep_view());
    }
    r
}

/// `ls` without its lines equal to `+++`.
fn without_prefix_lines(ls: &Vec<String>) -> (r: Vec<String>)
    ensures
        r.deep_view() == without_line(ls.deep_view(), toml_prefix()),
{
    let mut r: Vec<String> = Vec::new();
    let mut i: usize = 0;
    while i < ls.len()
        invariant
            i <= ls@.len(),
            r.deep_view() == without_line(ls.deep_view().take(i as int), toml_prefix()),
        decreases ls.len() - i,
    {
        let ghost before = r.deep_view();
        proof {
            assert(ls.deep_view().take(i + 1).drop_last() =~= ls.deep_view().take(i as int));
            assert(ls.deep_view()[i as int] == ls@[i as int]@);
        }
        if !is_toml_prefix(ls[i].as_str()) {
            r.push(ls[i].clone());
            proof {
                assert(r.deep_view() =~= before.push(ls@[i as int]@));
            }
        }
        i = i + 1;
    }
    proof {
        assert(ls.deep_view().take(ls@.len() as int) =~= ls.deep_view());
    }
    r
}

impl LyricPost {
    /// Reads a stored lyric text: its blocks of non-blank lines, trimmed;
    /// a block that starts with `+++` is metadata, whose title the lyric
    /// takes (the last such block wins), every other block is a part.
    /// Fails where a metadata block is not readable.
    pub fn from_str(s: &str) -> (r: Result<LyricPost, ModelError>)
        ensures
            match lyric_post_of_text(s@) {
                Some(v) => r matches Ok(p) && p@ == v,
                None => r matches Err(ModelError::TomlDeError),
            },
    {
        let bs = trimmed_blocks(s);
        let ghost bv = bs.deep_view();
        let mut title = String::new();
        let mut parts: Vec<Vec<String>> = Vec::new();
        let mut i: usize = 0;
        proof {
            assert(bv.subrange(0, bv.len() as int) =~= bv);
            assert(title@ =~= Seq::<char>::empty());
            assert(parts.deep_view() =~= Seq::<Seq<Seq<char>>>::empty());
        }
        while i < bs.len()
            invariant
                i <= bs@.len(),
                bv == bs.deep_view(),
                bv.len() == bs@.len(),
                lyric_post_of_text(s@) == fold_blocks(
                    title@,
                    parts.deep_view(),
                    bv.subrange(i as int, bv.len() as int),
                ),
            decreases bs.len() - i,
        {
            let ghost rest = bv.subrange(i as int, bv.len() as int);
            proof {
                assert(rest.drop_first() =~= bv.subrange(i + 1, bv.len() as int));
                assert(rest[0] == bv[i as int]);
                assert(bv[i as int] == bs@[i as int].deep_view());
                if bs@[i as int]@.len() > 0 {
                    assert(bv[i as int][0] == bs@[i as int]@[0]@);
                }
            }
            if bs[i].len() > 0 && is_toml_prefix(bs[i][0].as_str()) {
                let body = without_prefix_lines(&bs[i]);
                let text = join_with(&body, "\n");
                proof {
                    reveal_strlit("\n");
                    assert("\n"@ =~= seq!['\n']);
                }
                match lyric_meta_from_toml(text.as_str()) {
                    Ok(m) => {
                        title = m.title;
                    },
                    Err(e) => {
                        return Err(e);
                    },
                }
            } else {
                let ghost before = parts.deep_view();
                let part = clone_lines(&bs[i]);
                parts.push(part);
                proof {
                    assert(parts.deep_view() =~= before.push(bv[i as int]));
                }
            }
            i = i + 1;
        }
        Ok(LyricPost { title, parts })
    }
}

/// The text of the parts of a stored lyric: the lines of a part joined by
/// two spaces and a newline, the parts joined by a blank line.
pub open spec fn stored_parts_text(parts: Seq<Seq<Seq<char>>>) -> Seq<char> {
    join_spec(
        parts.map_values(|p: Seq<Seq<char>>| join_spec(p, seq![' ', ' ', '\n'])),
        seq!['\n', '\n'],
    )
}

/// The stored text of a lyric: `+++`, its metadata (title and, twice, its
/// tag) as TOML, `+++`, a blank line, then its parts.
pub open spec fn stored_lyric_text(l: LyricView) -> Seq<char> {
    let tag = entity_tag_text(lyric_bytes(l.id, l.title, l.parts, true));
    toml_prefix() + seq!['\n'] + toml_table_of(key_title(), l.title, key_hash1(), tag, key_hash2(), tag) + toml_prefix() + seq!['\n', '\n']
        + stored_parts_text(l.parts)
}

impl Lyric {
    /// The stored text of the lyric.  Where the title is one line, its
    /// metadata block reads back as the title and tag written there; where
    /// also the parts are such as a stored text gives back, the text reads
    /// back as the lyric's title and parts.
    pub fn to_string(&self) -> (s: String)
        ensures
            s@ == stored_lyric_text(self@),
            ({
                let tag = entity_tag_text(lyric_bytes(self.id, self.title@, self.parts.deep_view(), true));
                one_line(self.title@) ==> meta_from_toml(meta_block_text(s@)) == Some(
                    LyricMetaView { title: self.title@, hash1: Some(tag), hash2: Some(tag) },
                )
            }),
            one_line(self.title@) && is_stored_parts(self.parts.deep_view()) ==> lyric_post_of_text(s@)
                == Some(LyricPostView { title: self.title@, parts: self.parts.deep_view() }),
    {
        let tag = lyric_meta_tag(self);
        let meta = toml_table_text("title", self.title.as_str(), "hash1", tag.as_str(), "hash2", tag.as_str());
        proof {
            reveal_strlit("title");
            reveal_strlit("hash1");
            reveal_strlit("hash2");
            assert("title"@ =~= key_title());
            assert("hash1"@ =~= key_hash1());
            assert("hash2"@ =~= key_hash2());
            assert(key_title()[0] != key_hash1()[0]);
            assert(key_hash1()[4] != key_hash2()[4]);
        }
        let ghost pieces = self.parts.deep_view().map_values(
            |p: Seq<Seq<char>>| join_spec(p, seq![' ', ' ', '\n']),
        );
        let mut joined: Vec<String> = Vec::new();
        let mut i: usize = 0;
        proof {
            reveal_strlit("  \n");
            assert("  \n"@ =~= seq![' ', ' ', '\n']);
        }
        while i < self.parts.len()
            invariant
                i <= self.parts@.len(),
                pieces == self.parts.deep_view().map_values(
                    |p: Seq<Seq<char>>| join_spec(p, seq![' ', ' ', '\n']),
                ),
                "  \n"@ == seq![' ', ' ', '\n'],
                joined.deep_view() == pieces.take(i as int),
            decreases self.parts.len() - i,
        {
            let piece = join_with(&self.parts[i], "  \n");
            let ghost before = joined.deep_view();
            let ghost pv = piece@;
            joined.push(piece);
            proof {
                assert(joined.deep_view() =~= before.push(pv));
                assert(self.parts.deep_view()[i as int] == self.parts@[i as int].deep_view());
                assert(pv == pieces[i as int]);
                assert(joined.deep_view() =~= pieces.take(i + 1));
            }
            i = i + 1;
        }
        proof {
            assert(pieces.take(self.parts@.len() as int) =~= pieces);
        }
        let body = join_with(&joined, "\n\n");
        let mut s = String::new();
        push_str(&mut s, "+++\n");
        push_str(&mut s, meta.as_str());
        push_str(&mut s, "+++\n\n");
        push_str(&mut s, body.as_str());
        proof {
            reveal_strlit("\n\n");
            reveal_strlit("+++\n");
            reveal_strlit("+++\n\n");
            assert("\n\n"@ =~= seq!['\n', '\n']);
            assert(s@ =~= stored_lyric_text(self@));
            let bytes = lyric_bytes(self.id, self.title@, self.parts.deep_view(), true);
            lemma_tag_one_line(bytes.len(), entity_tag_hash(bytes) as nat);
            if one_line(self.title@) {
                let (a, b, c) = choose|a: Seq<char>, b: Seq<char>, c: Seq<char>|
                    #[trigger] meta_lines(meta@, a, b, c) && table_lookups(
                        a,
                        b,
                        c,
                        key_title(),
                        self.title@,
                        key_hash1(),
                        tag@,
                        key_hash2(),
                        tag@,
                    );
                let m = LyricMetaView { title: self.title@, hash1: Some(tag@), hash2: Some(tag@) };
                assert(meta_from_toml(a + seq!['\n'] + b + seq!['\n'] + c) == Some(m));
                assert(body@ == stored_parts_text(self.parts.deep_view()));
                law_stored_meta_reads_back(meta@, a, b, c, body@, m);
                if is_stored_parts(self.parts.deep_view()) {
                    law_stored_lyric_reads_back(meta@, a, b, c, self.parts.deep_view(), m);
                }
            }
        }
        s
    }
}

/// The identifiers that texts stand for, where each stands for one.
pub open spec fn uuids_of_texts(ts: Seq<Seq<char>>) -> Option<Seq<Uuid>>
    decreases ts.len(),
{
    if ts.len() == 0 {
        Some(Seq::<Uuid>::empty())
    } else {
        match (uuids_of_texts(ts.drop_last()), uuid_of_text(ts.last())) {
            (Some(us), Some(u)) => Some(us.push(u)),
            _ => None,
        }
    }
}

/// The posted playlist that a TOML text holds: a string `title` and an array
/// `members` of identifier texts.
pub open spec fn playlist_post_of_text(s: Seq<char>) -> Option<PlaylistPostView> {
    match (toml_str_lookup(s, key_title()), toml_str_array_lookup(s, key_members())) {
        (Some(Some(t)), Some(Some(ms))) => match uuids_of_texts(ms) {
            Some(us) => Some(PlaylistPostView { title: t, members: us }),
            None => None,
        },
        _ => None,
    }
}

impl PlaylistPost {
    /// Reads a stored playlist: a TOML table with a string `title` and an
    /// array `members` of identifier texts.
    pub fn from_str(s: &str) -> (r: Result<PlaylistPost, ModelError>)
        ensures
            match playlist_post_of_text(s@) {
                Some(v) => r matches Ok(p) && p@ == v,
                None => r matches Err(ModelError::TomlDeError),
            },
    {
        let title = toml_get_str(s, "title");
        let members = toml_get_str_array(s, "members");
        proof {
            reveal_strlit("title");
            reveal_strlit("members");
            assert("title"@ =~= key_title());
            assert("members"@ =~= key_members());
        }
        let ghost tv = opt_str_view(title);
        let ghost msv = opt_strs_view(members);
        match (title, members) {
            (Some(Some(t)), Some(Some(ms))) => {
                let ghost mv = ms.deep_view();
                let mut ids: Vec<Uuid> = Vec::new();
                let mut i: usize = 0;
                proof {
                    assert(mv.take(0) =~= Seq::<Seq<char>>::empty());
                }
                while i < ms.len()
                    invariant
                        i <= ms@.len(),
                        mv == ms.deep_view(),
                        uuids_of_texts(mv.take(i as int)) == Some(ids@),
                        msv == Some(Some(mv)),
                        tv == Some(Some(t@)),
                        tv == toml_str_lookup(s@, key_title()),
                        msv == toml_str_array_lookup(s@, key_members()),
                    decreases ms.len() - i,
                {
                    proof {
                        assert(mv.take(i + 1).drop_last() =~= mv.take(i as int));
                        assert(mv[i as int] == ms@[i as int]@);
                    }
                    match Uuid::from_str(ms[i].as_str()) {
                        Ok(u) => {
                            ids.push(u);
                        },
                        Err(_) => {
                            proof {
                                assert(uuids_of_texts(mv.take(i + 1)) is None);
                                lemma_uuids_of_texts_prefix(mv, i + 1);
                                assert(mv.take(mv.len() as int) =~= mv);
                                assert(uuids_of_texts(mv) is None);
                                assert(msv == Some(Some(mv)));
                                assert(tv == Some(Some(t@)));
                            }
                            return Err(ModelError::TomlDeError);
                        },
                    }
                    i = i + 1;
                }
                proof {
                    assert(mv.take(ms@.len() as int) =~= mv);
                }
                Ok(PlaylistPost { title: t, members: ids })
            },
            _ => Err(ModelError::TomlDeError),
        }
    }
}

proof fn lemma_uuids_of_texts_prefix(ts: Seq<Seq<char>>, k: int)
    requires
        0 <= k <= ts.len(),
        uuids_of_texts(ts.take(k)) is None,
    ensures
        uuids_of_texts(ts.take(ts.len() as int)) is None,
    decreases ts.len() - k,
{
    if k < ts.len() {
        assert(ts.take(k + 1).drop_last() =~= ts.take(k));
        lemma_uuids_of_texts_prefix(ts, k + 1);
    }
}

impl std::str::FromStr for LyricMeta {
    type Err = ModelError;

    fn from_str(s: &str) -> (r: Result<LyricMeta, ModelError>)
        ensures
            match meta_from_toml(meta_block_text(s@)) {
                Some(m) => r matches Ok(x) && x@ == m,
                None => r matches Err(ModelError::TomlDeError),
            },
    {
        LyricMeta::from_str(s)
    }
}

impl std::str::FromStr for LyricPost {
    type Err = ModelError;

    fn from_str(s: &str) -> (r: Result<LyricPost, ModelError>)
        ensures
            match lyric_post_of_text(s@) {
                Some(v) => r matches Ok(p) && p@ == v,
                None => r matches Err(ModelError::TomlDeError),
            },
    {
        LyricPost::from_str(s)
    }
}

impl std::str::FromStr for PlaylistPost {
    type Err = ModelError;

    fn from_str(s: &str) -> (r: Result<PlaylistPost, ModelError>)
        ensures
            match playlist_post_of_text(s@) {
                Some(v) => r matches Ok(p) && p@ == v,
                None => r matches Err(ModelError::TomlDeError),
            },
    {
        PlaylistPost::from_str(s)
    }
}

impl LyricMeta {
    /// The metadata of a lyric: its title and, as both hashes, its tag.
    pub fn from_lyric(l: &Lyric) -> (m: LyricMeta)
        ensures
            ({
                let tag = entity_tag_text(lyric_bytes(l.id, l.title@, l.parts.deep_view(), true));
                m@ == LyricMetaView { title: l.title@, hash1: Some(tag), hash2: Some(tag) }
            }),
    {
        let tag = lyric_meta_tag(l);
        LyricMeta { title: l.title.clone(), hash1: Some(tag.clone()), hash2: Some(tag) }
    }
}

impl Summary {
    /// The summary of a lyric from its metadata, under the given identifier
    /// or a new random one.
    pub fn from_meta(id: Option<Uuid>, meta: LyricMeta) -> (s: Summary)
        ensures
            id matches Some(u) ==> s.id == u,
            id is None ==> is_v4(s.id.0),
            s.title@ == meta.title@,
    {
        let id = match id {
            Some(u) => u,
            None => Uuid::new_v4(),
        };
        Summary { id, title: meta.title }
    }
}

} // verus!
