//! Entity tags.  A lyric, playlist, summary or identifier is encoded to
//! bytes (strings as their UTF-8 bytes behind a length, sequences as their
//! items behind a count, identifiers as their base-58 text); its tag is the
//! byte count and a 128-bit hash of those bytes, in quotes.
use vstd::prelude::*;
use vstd::string::{StrSliceExecFns, StringSliceAdditionalSpecFns};
use vstd::utf8::{encode_utf8, encode_utf8_decode_utf8};

use crate::model::{Lyric, LyricPost, Playlist, PlaylistPost, Summary};
use crate::text::decimal;
use crate::uuid::{lemma_uuid_text_injective, uuid_text, Uuid};

verus! {

/// The 128-bit hash that `etag::EntityTag::const_from_data` takes of `bytes`
/// (XXH3, 128 bits).
pub uninterp spec fn entity_tag_hash(bytes: Seq<u8>) -> u128;

/// The text of the strong entity tag of `bytes`: `"<count>-<hash>"`, quotes included.
pub open spec fn entity_tag_text(bytes: Seq<u8>) -> Seq<char> {
    seq!['"'] + decimal(bytes.len()) + seq!['-'] + decimal(entity_tag_hash(bytes) as nat) + seq!['"']
}

/// `etag::EntityTag::const_from_data(bytes).to_string()`: the byte count and
/// the hash of `bytes`, both in decimal, joined by `-` and put in quotes.
#[verifier::external_body]
fn entity_tag(bytes: &[u8]) -> (s: String)
    ensures
        s@ == seq!['"'] + decimal(bytes@.len()) + seq!['-'] + decimal(entity_tag_hash(bytes@) as nat)
            + seq!['"'],
{
    etag::EntityTag::const_from_data(bytes).to_string()
}

/// The variable-length encoding of `n`: seven bits a byte, least significant
/// first, the high bit set on every byte but the last.
pub open spec fn varint(n: nat) -> Seq<u8>
    decreases n,
{
    if n < 128 {
        seq![n as u8]
    } else {
        seq![(n % 128 + 128) as u8] + varint(n / 128)
    }
}

/// The `k` low bytes of `n`, least significant first.
pub open spec fn le_bytes(n: nat, k: nat) -> Seq<u8>
    decreases k,
{
    if k == 0 {
        Seq::<u8>::empty()
    } else {
        seq![(n % 256) as u8] + le_bytes(n / 256, (k - 1) as nat)
    }
}

/// A length or count: variable-length, or eight bytes little-endian where `fixed`.
pub open spec fn len_prefix(n: nat, fixed: bool) -> Seq<u8> {
    if fixed {
        le_bytes(n, 8)
    } else {
        varint(n)
    }
}

/// A string: the count of its UTF-8 bytes, then the bytes.
pub open spec fn enc_str(s: Seq<char>, fixed: bool) -> Seq<u8> {
    len_prefix(encode_utf8(s).len(), fixed) + encode_utf8(s)
}

/// The strings of `lines` encoded one after the other.
pub open spec fn enc_strs_body(lines: Seq<Seq<char>>, fixed: bool) -> Seq<u8>
    decreases lines.len(),
{
    if lines.len() == 0 {
        Seq::<u8>::empty()
    } else {
        enc_strs_body(lines.drop_last(), fixed) + enc_str(lines.last(), fixed)
    }
}

/// A sequence of strings: its count, then its strings.
pub open spec fn enc_strs(lines: Seq<Seq<char>>, fixed: bool) -> Seq<u8> {
    len_prefix(lines.len(), fixed) + enc_strs_body(lines, fixed)
}

/// The parts of `parts` encoded one after the other.
pub open spec fn enc_parts_body(parts: Seq<Seq<Seq<char>>>, fixed: bool) -> Seq<u8>
    decreases parts.len(),
{
    if parts.len() == 0 {
        Seq::<u8>::empty()
    } else {
        enc_parts_body(parts.drop_last(), fixed) + enc_strs(parts.last(), fixed)
    }
}

/// A sequence of parts: its count, then its parts.
pub open spec fn enc_parts(parts: Seq<Seq<Seq<char>>>, fixed: bool) -> Seq<u8> {
    len_prefix(parts.len(), fixed) + enc_parts_body(parts, fixed)
}

/// An identifier: its base-58 text as a string.
pub open spec fn enc_uuid(u: Uuid, fixed: bool) -> Seq<u8> {
    enc_str(uuid_text(u.0), fixed)
}

/// The identifiers of `ids` encoded one after the other.
pub open spec fn enc_uuids_body(ids: Seq<Uuid>, fixed: bool) -> Seq<u8>
    decreases ids.len(),
{
    if ids.len() == 0 {
        Seq::<u8>::empty()
    } else {
        enc_uuids_body(ids.drop_last(), fixed) + enc_uuid(ids.last(), fixed)
    }
}

/// A sequence of identifiers: its count, then its identifiers.
pub open spec fn enc_uuids(ids: Seq<Uuid>, fixed: bool) -> Seq<u8> {
    len_prefix(ids.len(), fixed) + enc_uuids_body(ids, fixed)
}

proof fn lemma_append_assoc(a: Seq<u8>, b: Seq<u8>, c: Seq<u8>)
    ensures
        (a + b) + c == a + (b + c),
{
    assert((a + b) + c =~= a + (b + c));
}

/// Appends the encoding of a length or count.
fn push_len(out: &mut Vec<u8>, n: usize, fixed: bool)
    ensures
        final(out)@ == old(out)@ + len_prefix(n as nat, fixed),
{
    if fixed {
        let mut x: usize = n;
        let mut k: usize = 0;
        while k < 8
            invariant
                k <= 8,
                out@ + le_bytes(x as nat, (8 - k) as nat) == old(out)@ + le_bytes(n as nat, 8),
            decreases 8 - k,
        {
            let b: u8 = (x % 256) as u8;
            proof {
                let rest = le_bytes((x / 256) as nat, (8 - k - 1) as nat);
                assert(le_bytes(x as nat, (8 - k) as nat) == seq![b] + rest);
                assert(out@.push(b) + rest =~= out@ + (seq![b] + rest));
            }
            out.push(b);
            x = x / 256;
            k = k + 1;
        }
        proof {
            assert(out@ + le_bytes(x as nat, 0) =~= out@);
        }
    } else {
        let mut x: usize = n;
        while x >= 128
            invariant
                out@ + varint(x as nat) == old(out)@ + varint(n as nat),
            decreases x,
        {
            let b: u8 = (x % 128 + 128) as u8;
            proof {
                let rest = varint((x / 128) as nat);
                assert(varint(x as nat) == seq![b] + rest);
                assert(out@.push(b) + rest =~= out@ + (seq![b] + rest));
            }
            out.push(b);
            x = x / 128;
        }
        proof {
            assert(varint(x as nat) == seq![x as u8]);
            assert(out@.push(x as u8) =~= out@ + varint(x as nat));
        }
        out.push(x as u8);
    }
}

/// Appends the encoding of a string.
fn push_enc_str(out: &mut Vec<u8>, s: &str, fixed: bool)
    ensures
        final(out)@ == old(out)@ + enc_str(s@, fixed),
{
    let mut v: Vec<u8> = s.as_bytes_vec();
    push_len(out, v.len(), fixed);
    out.append(&mut v);
    proof {
        lemma_append_assoc(old(out)@, len_prefix(s.spec_bytes().len(), fixed), s.spec_bytes());
    }
}

/// Appends the encoding of a sequence of strings.
fn push_enc_strs(out: &mut Vec<u8>, lines: &Vec<String>, fixed: bool)
    ensures
        final(out)@ == old(out)@ + enc_strs(lines.deep_view(), fixed),
{
    push_len(out, lines.len(), fixed);
    let ghost start = out@;
    let ghost dv = lines.deep_view();
    let mut i: usize = 0;
    proof {
        assert(dv.take(0) =~= Seq::<Seq<char>>::empty());
        assert(start + enc_strs_body(dv.take(0), fixed) =~= start);
    }
    while i < lines.len()
        invariant
            i <= lines@.len(),
            dv == lines.deep_view(),
            dv.len() == lines@.len(),
            out@ == start + enc_strs_body(dv.take(i as int), fixed),
        decreases lines.len() - i,
    {
        push_enc_str(out, lines[i].as_str(), fixed);
        proof {
            let t = dv.take(i + 1);
            assert(t.drop_last() =~= dv.take(i as int));
            assert(t.last() == lines@[i as int]@);
            lemma_append_assoc(start, enc_strs_body(dv.take(i as int), fixed), enc_str(t.last(), fixed));
        }
        i = i + 1;
    }
    proof {
        assert(dv.take(lines@.len() as int) =~= dv);
        lemma_append_assoc(old(out)@, len_prefix(dv.len(), fixed), enc_strs_body(dv, fixed));
    }
}

/// Appends the encoding of a sequence of parts.
fn push_enc_parts(out: &mut Vec<u8>, parts: &Vec<Vec<String>>, fixed: bool)
    ensures
        final(out)@ == old(out)@ + enc_parts(parts.deep_view(), fixed),
{
    push_len(out, parts.len(), fixed);
    let ghost start = out@;
    let ghost dv = parts.deep_view();
    let mut i: usize = 0;
    proof {
        assert(dv.take(0) =~= Seq::<Seq<Seq<char>>>::empty());
        assert(start + enc_parts_body(dv.take(0), fixed) =~= start);
    }
    while i < parts.len()
        invariant
            i <= parts@.len(),
            dv == parts.deep_view(),
            dv.len() == parts@.len(),
            out@ == start + enc_parts_body(dv.take(i as int), fixed),
        decreases parts.len() - i,
    {
        push_enc_strs(out, &parts[i], fixed);
        proof {
            let t = dv.take(i + 1);
            assert(t.drop_last() =~= dv.take(i as int));
            assert(t.last() == parts@[i as int].deep_view());
            lemma_append_assoc(start, enc_parts_body(dv.take(i as int), fixed), enc_strs(t.last(), fixed));
        }
        i = i + 1;
    }
    proof {
        assert(dv.take(parts@.len() as int) =~= dv);
        lemma_append_assoc(old(out)@, len_prefix(dv.len(), fixed), enc_parts_body(dv, fixed));
    }
}

/// Appends the encoding of an identifier.
fn push_enc_uuid(out: &mut Vec<u8>, u: &Uuid, fixed: bool)
    ensures
        final(out)@ == old(out)@ + enc_uuid(*u, fixed),
{
    let text = u.to_string();
    push_enc_str(out, text.as_str(), fixed);
}

/// Appends the encoding of a sequence of identifiers.
fn push_enc_uuids(out: &mut Vec<u8>, ids: &Vec<Uuid>, fixed: bool)
    ensures
        final(out)@ == old(out)@ + enc_uuids(ids@, fixed),
{
    push_len(out, ids.len(), fixed);
    let ghost start = out@;
    let mut i: usize = 0;
    proof {
        assert(ids@.take(0) =~= Seq::<Uuid>::empty());
        assert(start + enc_uuids_body(ids@.take(0), fixed) =~= start);
    }
    while i < ids.len()
        invariant
            i <= ids@.len(),
            out@ == start + enc_uuids_body(ids@.take(i as int), fixed),
        decreases ids.len() - i,
    {
        push_enc_uuid(out, &ids[i], fixed);
        proof {
            let t = ids@.take(i + 1);
            assert(t.drop_last() =~= ids@.take(i as int));
            lemma_append_assoc(start, enc_uuids_body(ids@.take(i as int), fixed), enc_uuid(t.last(), fixed));
        }
        i = i + 1;
    }
    proof {
        assert(ids@.take(ids@.len() as int) =~= ids@);
        lemma_append_assoc(old(out)@, len_prefix(ids@.len(), fixed), enc_uuids_body(ids@, fixed));
    }
}

/// The bytes of a lyric: identifier, title, parts.
pub open spec fn lyric_bytes(id: Uuid, title: Seq<char>, parts: Seq<Seq<Seq<char>>>, fixed: bool) -> Seq<u8> {
    enc_uuid(id, fixed) + enc_str(title, fixed) + enc_parts(parts, fixed)
}

/// The bytes of a posted lyric: title, parts.
pub open spec fn lyric_post_bytes(title: Seq<char>, parts: Seq<Seq<Seq<char>>>) -> Seq<u8> {
    enc_str(title, false) + enc_parts(parts, false)
}

/// The bytes of a playlist: identifier, title, members.
pub open spec fn playlist_bytes(id: Uuid, title: Seq<char>, members: Seq<Uuid>) -> Seq<u8> {
    enc_uuid(id, false) + enc_str(title, false) + enc_uuids(members, false)
}

/// The bytes of a posted playlist: title, members.
pub open spec fn playlist_post_bytes(title: Seq<char>, members: Seq<Uuid>) -> Seq<u8> {
    enc_str(title, false) + enc_uuids(members, false)
}

/// The bytes of a summary: identifier, title.
pub open spec fn summary_bytes(id: Uuid, title: Seq<char>) -> Seq<u8> {
    enc_uuid(id, false) + enc_str(title, false)
}

/// Values with an entity tag.
pub trait Etag {
    /// The bytes that the tag is taken of.
    spec fn tag_bytes(&self) -> Seq<u8>;

    /// The entity tag of the value; there always is one.
    fn etag(&self) -> (r: Option<String>)
        ensures
            r matches Some(s) && s@ == entity_tag_text(self.tag_bytes()),
    ;
}

impl Etag for Lyric {
    open spec fn tag_bytes(&self) -> Seq<u8> {
        lyric_bytes(self.id, self.title@, self.parts.deep_view(), false)
    }

    fn etag(&self) -> (r: Option<String>) {
        let mut out: Vec<u8> = Vec::new();
        push_enc_uuid(&mut out, &self.id, false);
        push_enc_str(&mut out, self.title.as_str(), false);
        push_enc_parts(&mut out, &self.parts, false);
        proof {
            assert(out@ =~= self.tag_bytes());
        }
        Some(entity_tag(out.as_slice()))
    }
}

impl Etag for LyricPost {
    open spec fn tag_bytes(&self) -> Seq<u8> {
        lyric_post_bytes(self.title@, self.parts.deep_view())
    }

    fn etag(&self) -> (r: Option<String>) {
        let mut out: Vec<u8> = Vec::new();
        push_enc_str(&mut out, self.title.as_str(), false);
        push_enc_parts(&mut out, &self.parts, false);
        proof {
            assert(out@ =~= self.tag_bytes());
        }
        Some(entity_tag(out.as_slice()))
    }
}

impl Etag for Playlist {
    open spec fn tag_bytes(&self) -> Seq<u8> {
        playlist_bytes(self.id, self.title@, self.members@)
    }

    fn etag(&self) -> (r: Option<String>) {
        let mut out: Vec<u8> = Vec::new();
        push_enc_uuid(&mut out, &self.id, false);
        push_enc_str(&mut out, self.title.as_str(), false);
        push_enc_uuids(&mut out, &self.members, false);
        proof {
            assert(out@ =~= self.tag_bytes());
        }
        Some(entity_tag(out.as_slice()))
    }
}

impl Etag for PlaylistPost {
    open spec fn tag_bytes(&self) -> Seq<u8> {
        playlist_post_bytes(self.title@, self.members@)
    }

    fn etag(&self) -> (r: Option<String>) {
        let mut out: Vec<u8> = Vec::new();
        push_enc_str(&mut out, self.title.as_str(), false);
        push_enc_uuids(&mut out, &self.members, false);
        proof {
            assert(out@ =~= self.tag_bytes());
        }
        Some(entity_tag(out.as_slice()))
    }
}

impl Etag for Summary {
    open spec fn tag_bytes(&self) -> Seq<u8> {
        summary_bytes(self.id, self.title@)
    }

    fn etag(&self) -> (r: Option<String>) {
        let mut out: Vec<u8> = Vec::new();
        push_enc_uuid(&mut out, &self.id, false);
        push_enc_str(&mut out, self.title.as_str(), false);
        proof {
            assert(out@ =~= self.tag_bytes());
        }
        Some(entity_tag(out.as_slice()))
    }
}

impl Etag for Uuid {
    open spec fn tag_bytes(&self) -> Seq<u8> {
        enc_uuid(*self, false)
    }

    fn etag(&self) -> (r: Option<String>) {
        let mut out: Vec<u8> = Vec::new();
        push_enc_uuid(&mut out, self, false);
        proof {
            assert(out@ =~= self.tag_bytes());
        }
        Some(entity_tag(out.as_slice()))
    }
}

/// The tag that a lyric's stored text carries in its metadata: taken of the
/// lyric's bytes with every length and count as eight bytes.
pub fn lyric_meta_tag(lyric: &Lyric) -> (s: String)
    ensures
        s@ == entity_tag_text(lyric_bytes(lyric.id, lyric.title@, lyric.parts.deep_view(), true)),
{
    let mut out: Vec<u8> = Vec::new();
    push_enc_uuid(&mut out, &lyric.id, true);
    push_enc_str(&mut out, lyric.title.as_str(), true);
    push_enc_parts(&mut out, &lyric.parts, true);
    proof {
        assert(out@ =~= lyric_bytes(lyric.id, lyric.title@, lyric.parts.deep_view(), true));
    }
    entity_tag(out.as_slice())
}

proof fn lemma_varint_parse(n: nat, m: nat, x: Seq<u8>, y: Seq<u8>)
    requires
        varint(n) + x == varint(m) + y,
    ensures
        n == m,
        x == y,
    decreases n,
{
    let a = varint(n);
    let b = varint(m);
    assert((a + x)[0] == a[0]);
    assert((b + y)[0] == b[0]);
    if n < 128 && m < 128 {
        assert(a[0] == n as u8);
        assert(b[0] == m as u8);
        assert((a + x).drop_first() =~= x);
        assert((b + y).drop_first() =~= y);
    } else if n < 128 {
        assert(a[0] == n as u8);
        assert(b[0] == (m % 128 + 128) as u8);
    } else if m < 128 {
        assert(a[0] == (n % 128 + 128) as u8);
        assert(b[0] == m as u8);
    } else {
        assert(a[0] == (n % 128 + 128) as u8);
        assert(b[0] == (m % 128 + 128) as u8);
        assert((a + x).drop_first() =~= varint(n / 128) + x);
        assert((b + y).drop_first() =~= varint(m / 128) + y);
        lemma_varint_parse(n / 128, m / 128, x, y);
    }
}

proof fn lemma_enc_str_parse(a: Seq<char>, b: Seq<char>, x: Seq<u8>, y: Seq<u8>)
    requires
        enc_str(a, false) + x == enc_str(b, false) + y,
    ensures
        a == b,
        x == y,
{
    let ea = encode_utf8(a);
    let eb = encode_utf8(b);
    assert(enc_str(a, false) + x =~= varint(ea.len()) + (ea + x));
    assert(enc_str(b, false) + y =~= varint(eb.len()) + (eb + y));
    lemma_varint_parse(ea.len(), eb.len(), ea + x, eb + y);
    assert((ea + x).take(ea.len() as int) =~= ea);
    assert((eb + y).take(eb.len() as int) =~= eb);
    assert((ea + x).skip(ea.len() as int) =~= x);
    assert((eb + y).skip(eb.len() as int) =~= y);
    encode_utf8_decode_utf8(a);
    encode_utf8_decode_utf8(b);
}

proof fn lemma_enc_uuid_parse(a: Uuid, b: Uuid, x: Seq<u8>, y: Seq<u8>)
    requires
        enc_uuid(a, false) + x == enc_uuid(b, false) + y,
    ensures
        a == b,
        x == y,
{
    lemma_enc_str_parse(uuid_text(a.0), uuid_text(b.0), x, y);
    lemma_uuid_text_injective(a.0, b.0);
}

proof fn lemma_strs_body_front(ls: Seq<Seq<char>>)
    requires
        ls.len() > 0,
    ensures
        enc_strs_body(ls, false) == enc_str(ls[0], false) + enc_strs_body(ls.drop_first(), false),
    decreases ls.len(),
{
    if ls.len() == 1 {
        assert(ls.drop_last() =~= Seq::<Seq<char>>::empty());
        assert(ls.drop_first() =~= Seq::<Seq<char>>::empty());
        assert(enc_strs_body(Seq::<Seq<char>>::empty(), false) =~= Seq::<u8>::empty());
        assert(ls.last() == ls[0]);
        assert(enc_strs_body(ls, false) =~= enc_str(ls[0], false));
        assert(enc_str(ls[0], false) + enc_strs_body(ls.drop_first(), false) =~= enc_str(ls[0], false));
    } else {
        let d = ls.drop_last();
        lemma_strs_body_front(d);
        assert(d[0] == ls[0]);
        assert(d.drop_first() =~= ls.drop_first().drop_last());
        assert(ls.drop_first().last() == ls.last());
        assert(enc_strs_body(ls, false) =~= enc_str(ls[0], false) + enc_strs_body(ls.drop_first(), false));
    }
}

proof fn lemma_strs_body_parse(a: Seq<Seq<char>>, b: Seq<Seq<char>>, x: Seq<u8>, y: Seq<u8>)
    requires
        a.len() == b.len(),
        enc_strs_body(a, false) + x == enc_strs_body(b, false) + y,
    ensures
        a == b,
        x == y,
    decreases a.len(),
{
    if a.len() == 0 {
        assert(enc_strs_body(a, false) + x =~= x);
        assert(enc_strs_body(b, false) + y =~= y);
        assert(a =~= b);
    } else {
        lemma_strs_body_front(a);
        lemma_strs_body_front(b);
        let ra = enc_strs_body(a.drop_first(), false) + x;
        let rb = enc_strs_body(b.drop_first(), false) + y;
        assert(enc_strs_body(a, false) + x =~= enc_str(a[0], false) + ra);
        assert(enc_strs_body(b, false) + y =~= enc_str(b[0], false) + rb);
        lemma_enc_str_parse(a[0], b[0], ra, rb);
        lemma_strs_body_parse(a.drop_first(), b.drop_first(), x, y);
        assert(a =~= seq![a[0]] + a.drop_first());
        assert(b =~= seq![b[0]] + b.drop_first());
    }
}

proof fn lemma_strs_parse(a: Seq<Seq<char>>, b: Seq<Seq<char>>, x: Seq<u8>, y: Seq<u8>)
    requires
        enc_strs(a, false) + x == enc_strs(b, false) + y,
    ensures
        a == b,
        x == y,
{
    assert(enc_strs(a, false) + x =~= varint(a.len()) + (enc_strs_body(a, false) + x));
    assert(enc_strs(b, false) + y =~= varint(b.len()) + (enc_strs_body(b, false) + y));
    lemma_varint_parse(a.len(), b.len(), enc_strs_body(a, false) + x, enc_strs_body(b, false) + y);
    lemma_strs_body_parse(a, b, x, y);
}

proof fn lemma_parts_body_front(ps: Seq<Seq<Seq<char>>>)
    requires
        ps.len() > 0,
    ensures
        enc_parts_body(ps, false) == enc_strs(ps[0], false) + enc_parts_body(ps.drop_first(), false),
    decreases ps.len(),
{
    if ps.len() == 1 {
        assert(ps.drop_last() =~= Seq::<Seq<Seq<char>>>::empty());
        assert(ps.drop_first() =~= Seq::<Seq<Seq<char>>>::empty());
        assert(enc_parts_body(Seq::<Seq<Seq<char>>>::empty(), false) =~= Seq::<u8>::empty());
        assert(ps.last() == ps[0]);
        assert(enc_parts_body(ps, false) =~= enc_strs(ps[0], false));
        assert(enc_strs(ps[0], false) + enc_parts_body(ps.drop_first(), false) =~= enc_strs(ps[0], false));
    } else {
        let d = ps.drop_last();
        lemma_parts_body_front(d);
        assert(d[0] == ps[0]);
        assert(d.drop_first() =~= ps.drop_first().drop_last());
        assert(ps.drop_first().last() == ps.last());
        assert(enc_parts_body(ps, false) =~= enc_strs(ps[0], false) + enc_parts_body(ps.drop_first(), false));
    }
}

proof fn lemma_parts_body_parse(a: Seq<Seq<Seq<char>>>, b: Seq<Seq<Seq<char>>>, x: Seq<u8>, y: Seq<u8>)
    requires
        a.len() == b.len(),
        enc_parts_body(a, false) + x == enc_parts_body(b, false) + y,
    ensures
        a == b,
        x == y,
    decreases a.len(),
{
    if a.len() == 0 {
        assert(enc_parts_body(a, false) + x =~= x);
        assert(enc_parts_body(b, false) + y =~= y);
        assert(a =~= b);
    } else {
        lemma_parts_body_front(a);
        lemma_parts_body_front(b);
        let ra = enc_parts_body(a.drop_first(), false) + x;
        let rb = enc_parts_body(b.drop_first(), false) + y;
        assert(enc_parts_body(a, false) + x =~= enc_strs(a[0], false) + ra);
        assert(enc_parts_body(b, false) + y =~= enc_strs(b[0], false) + rb);
        lemma_strs_parse(a[0], b[0], ra, rb);
        lemma_parts_body_parse(a.drop_first(), b.drop_first(), x, y);
        assert(a =~= seq![a[0]] + a.drop_first());
        assert(b =~= seq![b[0]] + b.drop_first());
    }
}

proof fn lemma_parts_parse(a: Seq<Seq<Seq<char>>>, b: Seq<Seq<Seq<char>>>, x: Seq<u8>, y: Seq<u8>)
    requires
        enc_parts(a, false) + x == enc_parts(b, false) + y,
    ensures
        a == b,
        x == y,
{
    assert(enc_parts(a, false) + x =~= varint(a.len()) + (enc_parts_body(a, false) + x));
    assert(enc_parts(b, false) + y =~= varint(b.len()) + (enc_parts_body(b, false) + y));
    lemma_varint_parse(a.len(), b.len(), enc_parts_body(a, false) + x, enc_parts_body(b, false) + y);
    lemma_parts_body_parse(a, b, x, y);
}

proof fn lemma_uuids_body_front(ids: Seq<Uuid>)
    requires
        ids.len() > 0,
    ensures
        enc_uuids_body(ids, false) == enc_uuid(ids[0], false) + enc_uuids_body(ids.drop_first(), false),
    decreases ids.len(),
{
    if ids.len() == 1 {
        assert(ids.drop_last() =~= Seq::<Uuid>::empty());
        assert(ids.drop_first() =~= Seq::<Uuid>::empty());
        assert(enc_uuids_body(Seq::<Uuid>::empty(), false) =~= Seq::<u8>::empty());
        assert(ids.last() == ids[0]);
        assert(enc_uuids_body(ids, false) =~= enc_uuid(ids[0], false));
        assert(enc_uuid(ids[0], false) + enc_uuids_body(ids.drop_first(), false) =~= enc_uuid(ids[0], false));
    } else {
        let d = ids.drop_last();
        lemma_uuids_body_front(d);
        assert(d[0] == ids[0]);
        assert(d.drop_first() =~= ids.drop_first().drop_last());
        assert(ids.drop_first().last() == ids.last());
        assert(enc_uuids_body(ids, false) =~= enc_uuid(ids[0], false) + enc_uuids_body(ids.drop_first(), false));
    }
}

proof fn lemma_uuids_body_parse(a: Seq<Uuid>, b: Seq<Uuid>, x: Seq<u8>, y: Seq<u8>)
    requires
        a.len() == b.len(),
        enc_uuids_body(a, false) + x == enc_uuids_body(b, false) + y,
    ensures
        a == b,
        x == y,
    decreases a.len(),
{
    if a.len() == 0 {
        assert(enc_uuids_body(a, false) + x =~= x);
        assert(enc_uuids_body(b, false) + y =~= y);
        assert(a =~= b);
    } else {
        lemma_uuids_body_front(a);
        lemma_uuids_body_front(b);
        let ra = enc_uuids_body(a.drop_first(), false) + x;
        let rb = enc_uuids_body(b.drop_first(), false) + y;
        assert(enc_uuids_body(a, false) + x =~= enc_uuid(a[0], false) + ra);
        assert(enc_uuids_body(b, false) + y =~= enc_uuid(b[0], false) + rb);
        lemma_enc_uuid_parse(a[0], b[0], ra, rb);
        lemma_uuids_body_parse(a.drop_first(), b.drop_first(), x, y);
        assert(a =~= seq![a[0]] + a.drop_first());
        assert(b =~= seq![b[0]] + b.drop_first());
    }
}

proof fn lemma_uuids_parse(a: Seq<Uuid>, b: Seq<Uuid>, x: Seq<u8>, y: Seq<u8>)
    requires
        enc_uuids(a, false) + x == enc_uuids(b, false) + y,
    ensures
        a == b,
        x == y,
{
    assert(enc_uuids(a, false) + x =~= varint(a.len()) + (enc_uuids_body(a, false) + x));
    assert(enc_uuids(b, false) + y =~= varint(b.len()) + (enc_uuids_body(b, false) + y));
    lemma_varint_parse(a.len(), b.len(), enc_uuids_body(a, false) + x, enc_uuids_body(b, false) + y);
    lemma_uuids_body_parse(a, b, x, y);
}

/// Law: a lyric's tag is taken of bytes that hold all of it: two lyrics
/// whose tag bytes agree have the same identifier, title and lines, so any
/// change of a line changes the bytes.
pub proof fn law_lyric_tag_bytes_determine_lyric(a: Lyric, b: Lyric)
    requires
        a.tag_bytes() == b.tag_bytes(),
    ensures
        a@ == b@,
{
    let e = Seq::<u8>::empty();
    let ra = enc_str(a.title@, false) + enc_parts(a.parts.deep_view(), false);
    let rb = enc_str(b.title@, false) + enc_parts(b.parts.deep_view(), false);
    assert(a.tag_bytes() =~= enc_uuid(a.id, false) + ra);
    assert(b.tag_bytes() =~= enc_uuid(b.id, false) + rb);
    lemma_enc_uuid_parse(a.id, b.id, ra, rb);
    assert(ra =~= enc_str(a.title@, false) + (enc_parts(a.parts.deep_view(), false) + e));
    assert(rb =~= enc_str(b.title@, false) + (enc_parts(b.parts.deep_view(), false) + e));
    lemma_enc_str_parse(a.title@, b.title@, enc_parts(a.parts.deep_view(), false) + e, enc_parts(b.parts.deep_view(), false) + e);
    lemma_parts_parse(a.parts.deep_view(), b.parts.deep_view(), e, e);
}

/// Law: a posted lyric's tag bytes hold its title and all its lines.
pub proof fn law_lyric_post_tag_bytes_determine_post(a: LyricPost, b: LyricPost)
    requires
        a.tag_bytes() == b.tag_bytes(),
    ensures
        a@ == b@,
{
    let e = Seq::<u8>::empty();
    assert(a.tag_bytes() =~= enc_str(a.title@, false) + (enc_parts(a.parts.deep_view(), false) + e));
    assert(b.tag_bytes() =~= enc_str(b.title@, false) + (enc_parts(b.parts.deep_view(), false) + e));
    lemma_enc_str_parse(a.title@, b.title@, enc_parts(a.parts.deep_view(), false) + e, enc_parts(b.parts.deep_view(), false) + e);
    lemma_parts_parse(a.parts.deep_view(), b.parts.deep_view(), e, e);
}

/// Law: a playlist's tag bytes hold its identifier, title and members.
pub proof fn law_playlist_tag_bytes_determine_playlist(a: Playlist, b: Playlist)
    requires
        a.tag_bytes() == b.tag_bytes(),
    ensures
        a@ == b@,
{
    let e = Seq::<u8>::empty();
    let ra = enc_str(a.title@, false) + enc_uuids(a.members@, false);
    let rb = enc_str(b.title@, false) + enc_uuids(b.members@, false);
    assert(a.tag_bytes() =~= enc_uuid(a.id, false) + ra);
    assert(b.tag_bytes() =~= enc_uuid(b.id, false) + rb);
    lemma_enc_uuid_parse(a.id, b.id, ra, rb);
    assert(ra =~= enc_str(a.title@, false) + (enc_uuids(a.members@, false) + e));
    assert(rb =~= enc_str(b.title@, false) + (enc_uuids(b.members@, false) + e));
    lemma_enc_str_parse(a.title@, b.title@, enc_uuids(a.members@, false) + e, enc_uuids(b.members@, false) + e);
    lemma_uuids_parse(a.members@, b.members@, e, e);
}

/// Law: a posted playlist's tag bytes hold its title and members.
pub proof fn law_playlist_post_tag_bytes_determine_post(a: PlaylistPost, b: PlaylistPost)
    requires
        a.tag_bytes() == b.tag_bytes(),
    ensures
        a@ == b@,
{
    let e = Seq::<u8>::empty();
    assert(a.tag_bytes() =~= enc_str(a.title@, false) + (enc_uuids(a.members@, false) + e));
    assert(b.tag_bytes() =~= enc_str(b.title@, false) + (enc_uuids(b.members@, false) + e));
    lemma_enc_str_parse(a.title@, b.title@, enc_uuids(a.members@, false) + e, enc_uuids(b.members@, false) + e);
    lemma_uuids_parse(a.members@, b.members@, e, e);
}

/// Law: a summary's tag bytes hold its identifier and title, and an
/// identifier's tag bytes hold it.
pub proof fn law_summary_and_uuid_tag_bytes(a: Summary, b: Summary, u: Uuid, w: Uuid)
    ensures
        a.tag_bytes() == b.tag_bytes() ==> a@ == b@,
        u.tag_bytes() == w.tag_bytes() ==> u == w,
{
    let e = Seq::<u8>::empty();
    if a.tag_bytes() == b.tag_bytes() {
        let ra = enc_str(a.title@, false) + e;
        let rb = enc_str(b.title@, false) + e;
        assert(a.tag_bytes() =~= enc_uuid(a.id, false) + ra);
        assert(b.tag_bytes() =~= enc_uuid(b.id, false) + rb);
        lemma_enc_uuid_parse(a.id, b.id, ra, rb);
        lemma_enc_str_parse(a.title@, b.title@, e, e);
    }
    if u.tag_bytes() == w.tag_bytes() {
        assert(u.tag_bytes() =~= enc_uuid(u, false) + e);
        assert(w.tag_bytes() =~= enc_uuid(w, false) + e);
        lemma_enc_uuid_parse(u, w, e, e);
    }
}

} // verus!
