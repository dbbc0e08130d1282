//! Identifiers: 128-bit values, written as the base-58 text of their 16
//! big-endian bytes.
use vstd::prelude::*;

use crate::error::ModelError;

verus! {

/// The base-58 digit `d` (Bitcoin alphabet), for `d` below 58.
pub open spec fn b58_digit(d: int) -> char {
    if d == 0 {
        '1'
    } else
    if d == 1 {
        '2'
    } else
    if d == 2 {
        '3'
    } else
    if d == 3 {
        '4'
    } else
    if d == 4 {
        '5'
    } else
    if d == 5 {
        '6'
    } else
    if d == 6 {
        '7'
    } else
    if d == 7 {
        '8'
    } else
    if d == 8 {
        '9'
    } else
    if d == 9 {
        'A'
    } else
    if d == 10 {
        'B'
    } else
    if d == 11 {
        'C'
    } else
    if d == 12 {
        'D'
    } else
    if d == 13 {
        'E'
    } else
    if d == 14 {
        'F'
    } else
    if d == 15 {
        'G'
    } else
    if d == 16 {
        'H'
    } else
    if d == 17 {
        'J'
    } else
    if d == 18 {
        'K'
    } else
    if d == 19 {
        'L'
    } else
    if d == 20 {
        'M'
    } else
    if d == 21 {
        'N'
    } else
    if d == 22 {
        'P'
    } else
    if d == 23 {
        'Q'
    } else
    if d == 24 {
        'R'
    } else
    if d == 25 {
        'S'
    } else
    if d == 26 {
        'T'
    } else
    if d == 27 {
        'U'
    } else
    if d == 28 {
        'V'
    } else
    if d == 29 {
        'W'
    } else
    if d == 30 {
        'X'
    } else
    if d == 31 {
        'Y'
    } else
    if d == 32 {
        'Z'
    } else
    if d == 33 {
        'a'
    } else
    if d == 34 {
        'b'
    } else
    if d == 35 {
        'c'
    } else
    if d == 36 {
        'd'
    } else
    if d == 37 {
        'e'
    } else
    if d == 38 {
        'f'
    } else
    if d == 39 {
        'g'
    } else
    if d == 40 {
        'h'
    } else
    if d == 41 {
        'i'
    } else
    if d == 42 {
        'j'
    } else
    if d == 43 {
        'k'
    } else
    if d == 44 {
        'm'
    } else
    if d == 45 {
        'n'
    } else
    if d == 46 {
        'o'
    } else
    if d == 47 {
        'p'
    } else
    if d == 48 {
        'q'
    } else
    if d == 49 {
        'r'
    } else
    if d == 50 {
        's'
    } else
    if d == 51 {
        't'
    } else
    if d == 52 {
        'u'
    } else
    if d == 53 {
        'v'
    } else
    if d == 54 {
        'w'
    } else
    if d == 55 {
        'x'
    } else
    if d == 56 {
        'y'
    } else {
        'z'
    }
}

/// The value of a base-58 digit; 58 for a char that is none.
pub open spec fn b58_value(c: char) -> int {
    if c == '1' {
        0
    } else
    if c == '2' {
        1
    } else
    if c == '3' {
        2
    } else
    if c == '4' {
        3
    } else
    if c == '5' {
        4
    } else
    if c == '6' {
        5
    } else
    if c == '7' {
        6
    } else
    if c == '8' {
        7
    } else
    if c == '9' {
        8
    } else
    if c == 'A' {
        9
    } else
    if c == 'B' {
        10
    } else
    if c == 'C' {
        11
    } else
    if c == 'D' {
        12
    } else
    if c == 'E' {
        13
    } else
    if c == 'F' {
        14
    } else
    if c == 'G' {
        15
    } else
    if c == 'H' {
        16
    } else
    if c == 'J' {
        17
    } else
    if c == 'K' {
        18
    } else
    if c == 'L' {
        19
    } else
    if c == 'M' {
        20
    } else
    if c == 'N' {
        21
    } else
    if c == 'P' {
        22
    } else
    if c == 'Q' {
        23
    } else
    if c == 'R' {
        24
    } else
    if c == 'S' {
        25
    } else
    if c == 'T' {
        26
    } else
    if c == 'U' {
        27
    } else
    if c == 'V' {
        28
    } else
    if c == 'W' {
        29
    } else
    if c == 'X' {
        30
    } else
    if c == 'Y' {
        31
    } else
    if c == 'Z' {
        32
    } else
    if c == 'a' {
        33
    } else
    if c == 'b' {
        34
    } else
    if c == 'c' {
        35
    } else
    if c == 'd' {
        36
    } else
    if c == 'e' {
        37
    } else
    if c == 'f' {
        38
    } else
    if c == 'g' {
        39
    } else
    if c == 'h' {
        40
    } else
    if c == 'i' {
        41
    } else
    if c == 'j' {
        42
    } else
    if c == 'k' {
        43
    } else
    if c == 'm' {
        44
    } else
    if c == 'n' {
        45
    } else
    if c == 'o' {
        46
    } else
    if c == 'p' {
        47
    } else
    if c == 'q' {
        48
    } else
    if c == 'r' {
        49
    } else
    if c == 's' {
        50
    } else
    if c == 't' {
        51
    } else
    if c == 'u' {
        52
    } else
    if c == 'v' {
        53
    } else
    if c == 'w' {
        54
    } else
    if c == 'x' {
        55
    } else
    if c == 'y' {
        56
    } else
    if c == 'z' {
        57
    } else {
        58
    }
}

/// The base-58 numeral of `n`, most significant digit first, without
/// leading zero digits (empty for zero).
pub open spec fn b58_numeral(n: nat) -> Seq<char>
    decreases n,
{
    if n == 0 {
        Seq::<char>::empty()
    } else {
        b58_numeral(n / 58).push(b58_digit((n % 58) as int))
    }
}

/// The number of zero bytes that `b` starts with.
pub open spec fn zero_prefix(b: Seq<u8>) -> nat
    decreases b.len(),
{
    if b.len() > 0 && b[0] == 0 {
        1 + zero_prefix(b.drop_first())
    } else {
        0
    }
}

/// The base-58 text of `bytes`, as `bs58::encode(bytes).into_string()`
/// gives it: a `'1'` for each leading zero byte, then the numeral of the
/// value of the rest.
pub open spec fn bs58_encoding(bytes: Seq<u8>) -> Seq<char> {
    Seq::new(zero_prefix(bytes), |i: int| '1') + b58_numeral(
        be_value(bytes.skip(zero_prefix(bytes) as int)),
    )
}

/// The error of `bs58::decode`, carried opaquely.
#[verifier::external_type_specification]
#[verifier::external_body]
pub struct ExBs58DecodeError(bs58::decode::Error);

/// `bs58::encode(bytes).into_string()`: the base-58 text of `bytes`
/// (Bitcoin alphabet): a `'1'` for each leading zero byte, then the
/// base-58 numeral of the value of the bytes.
#[verifier::external_body]
fn bs58_encode(bytes: &[u8]) -> (s: String)
    ensures
        s@ == bs58_encoding(bytes@),
{
    bs58::encode(bytes).into_string()
}

/// `bs58::decode(s).into_vec()`: succeeds exactly on the texts over the
/// base-58 alphabet, which are the texts that are the base-58 encoding of
/// some bytes, and then gives bytes whose encoding the text is.
#[verifier::external_body]
fn bs58_decode(s: &str) -> (r: Result<Vec<u8>, bs58::decode::Error>)
    ensures
        r is Ok <==> exists|b: Seq<u8>| #[trigger] bs58_encoding(b) == s@,
        r matches Ok(v) ==> bs58_encoding(v@) == s@,
{
    bs58::decode(s).into_vec()
}

/// `uuid::Uuid::new_v4().as_u128()`: a random version-4 identifier; only its
/// version and variant bits are fixed.
#[verifier::external_body]
fn random_v4() -> (v: u128)
    ensures
        (v >> 76u128) & 0xfu128 == 4,
        (v >> 62u128) & 0x3u128 == 2,
{
    uuid::Uuid::new_v4().as_u128()
}

/// `256` to the power `n`.
pub open spec fn pow256(n: nat) -> nat
    decreases n,
{
    if n == 0 {
        1
    } else {
        256 * pow256((n - 1) as nat)
    }
}

/// The last `n` bytes of `v`, most significant first.
pub open spec fn be_bytes(v: nat, n: nat) -> Seq<u8>
    decreases n,
{
    if n == 0 {
        Seq::<u8>::empty()
    } else {
        be_bytes(v / 256, (n - 1) as nat).push((v % 256) as u8)
    }
}

/// The number whose bytes, most significant first, are `b`.
pub open spec fn be_value(b: Seq<u8>) -> nat
    decreases b.len(),
{
    if b.len() == 0 {
        0
    } else {
        be_value(b.drop_last()) * 256 + b.last() as nat
    }
}

proof fn lemma_be_roundtrip(v: nat, n: nat)
    requires
        v < pow256(n),
    ensures
        be_bytes(v, n).len() == n,
        be_value(be_bytes(v, n)) == v,
    decreases n,
{
    if n > 0 {
        assert(v / 256 < pow256((n - 1) as nat)) by (nonlinear_arith)
            requires
                v < pow256(n),
                pow256(n) == 256 * pow256((n - 1) as nat),
        ;
        lemma_be_roundtrip(v / 256, (n - 1) as nat);
        let b = be_bytes(v, n);
        assert(b.drop_last() == be_bytes(v / 256, (n - 1) as nat));
    }
}

proof fn lemma_be_bytes_len(v: nat, n: nat)
    ensures
        be_bytes(v, n).len() == n,
    decreases n,
{
    if n > 0 {
        lemma_be_bytes_len(v / 256, (n - 1) as nat);
    }
}

proof fn lemma_pow256_16()
    ensures
        pow256(16) == 0x1_0000_0000_0000_0000_0000_0000_0000_0000,
{
    reveal_with_fuel(pow256, 17);
}

proof fn lemma_be_value_bound(b: Seq<u8>)
    ensures
        be_value(b) < pow256(b.len()),
    decreases b.len(),
{
    if b.len() > 0 {
        lemma_be_value_bound(b.drop_last());
        let x = be_value(b.drop_last());
        let p = pow256((b.len() - 1) as nat);
        assert(x * 256 + b.last() < 256 * p) by (nonlinear_arith)
            requires
                x < p,
                b.last() < 256,
        ;
    }
}

/// The identifier that a text stands for: the value of the 16 bytes whose
/// base-58 encoding it is, where there are such bytes.
pub open spec fn uuid_of_text(s: Seq<char>) -> Option<Uuid> {
    if exists|b: Seq<u8>| #[trigger] bs58_encoding(b) == s && b.len() == 16 {
        Some(Uuid(be_value(choose|b: Seq<u8>| #[trigger] bs58_encoding(b) == s && b.len() == 16) as u128))
    } else {
        None
    }
}

proof fn lemma_digit_value(d: int)
    requires
        0 <= d < 58,
    ensures
        b58_value(b58_digit(d)) == d,
{
}

proof fn lemma_alphabet_distinct(i: int, j: int)
    requires
        0 <= i < 58,
        0 <= j < 58,
        i != j,
    ensures
        b58_digit(i) != b58_digit(j),
{
    lemma_digit_value(i);
    lemma_digit_value(j);
}

proof fn lemma_numeral_len(n: nat)
    ensures
        (n == 0) == (b58_numeral(n).len() == 0),
    decreases n,
{
    if n > 0 {
        lemma_numeral_len(n / 58);
    }
}

proof fn lemma_numeral_first(n: nat)
    requires
        n > 0,
    ensures
        b58_numeral(n).len() > 0,
        b58_numeral(n)[0] != '1',
    decreases n,
{
    lemma_numeral_len(n);
    if n / 58 == 0 {
        assert(b58_numeral(n / 58) =~= Seq::<char>::empty());
        assert(b58_numeral(n)[0] == b58_digit((n % 58) as int));
        assert(b58_digit(0) == '1');
        lemma_alphabet_distinct((n % 58) as int, 0);
    } else {
        lemma_numeral_first(n / 58);
        assert(b58_numeral(n)[0] == b58_numeral(n / 58)[0]);
    }
}

proof fn lemma_numeral_injective(m: nat, n: nat)
    requires
        b58_numeral(m) == b58_numeral(n),
    ensures
        m == n,
    decreases m,
{
    lemma_numeral_len(m);
    lemma_numeral_len(n);
    if m > 0 && n > 0 {
        let a = b58_numeral(m);
        assert(a.last() == b58_digit((m % 58) as int));
        assert(b58_numeral(n).last() == b58_digit((n % 58) as int));
        if m % 58 != n % 58 {
            lemma_alphabet_distinct((m % 58) as int, (n % 58) as int);
        }
        assert(a.drop_last() == b58_numeral(m / 58));
        assert(b58_numeral(n).drop_last() == b58_numeral(n / 58));
        lemma_numeral_injective(m / 58, n / 58);
    }
}

proof fn lemma_zero_prefix(b: Seq<u8>)
    ensures
        zero_prefix(b) <= b.len(),
        forall|i: int| 0 <= i < zero_prefix(b) ==> b[i] == 0,
        zero_prefix(b) < b.len() ==> b[zero_prefix(b) as int] != 0,
    decreases b.len(),
{
    if b.len() > 0 && b[0] == 0 {
        let d = b.drop_first();
        lemma_zero_prefix(d);
        assert forall|i: int| 0 <= i < zero_prefix(b) implies b[i] == 0 by {
            if i > 0 {
                assert(b[i] == d[i - 1]);
            }
        }
        if zero_prefix(b) < b.len() {
            assert(b[zero_prefix(b) as int] == d[zero_prefix(d) as int]);
        }
    }
}

proof fn lemma_be_value_positive(c: Seq<u8>)
    requires
        c.len() > 0,
        c[0] != 0,
    ensures
        be_value(c) > 0,
    decreases c.len(),
{
    if c.len() > 1 {
        let d = c.drop_last();
        assert(d[0] == c[0]);
        lemma_be_value_positive(d);
    }
}

proof fn lemma_be_value_injective(c: Seq<u8>, e: Seq<u8>)
    requires
        c.len() > 0 ==> c[0] != 0,
        e.len() > 0 ==> e[0] != 0,
        be_value(c) == be_value(e),
    ensures
        c == e,
    decreases c.len(),
{
    if c.len() == 0 || e.len() == 0 {
        if c.len() > 0 {
            lemma_be_value_positive(c);
        }
        if e.len() > 0 {
            lemma_be_value_positive(e);
        }
        assert(c =~= e);
    } else {
        let dc = c.drop_last();
        let de = e.drop_last();
        assert(be_value(dc) * 256 + c.last() == be_value(de) * 256 + e.last());
        assert(c.last() == e.last() && be_value(dc) == be_value(de)) by (nonlinear_arith)
            requires
                be_value(dc) * 256 + c.last() == be_value(de) * 256 + e.last(),
                c.last() < 256,
                e.last() < 256,
        ;
        if dc.len() > 0 {
            assert(dc[0] == c[0]);
        }
        if de.len() > 0 {
            assert(de[0] == e[0]);
        }
        lemma_be_value_injective(dc, de);
        assert(c =~= dc.push(c.last()));
        assert(e =~= de.push(e.last()));
    }
}

/// Distinct byte strings have distinct base-58 texts.
pub proof fn lemma_bs58_injective(a: Seq<u8>, b: Seq<u8>)
    requires
        bs58_encoding(a) == bs58_encoding(b),
    ensures
        a == b,
{
    let za = zero_prefix(a);
    let zb = zero_prefix(b);
    lemma_zero_prefix(a);
    lemma_zero_prefix(b);
    let ra = a.skip(za as int);
    let rb = b.skip(zb as int);
    let va = be_value(ra);
    let vb = be_value(rb);
    let s = bs58_encoding(a);
    lemma_numeral_len(va);
    lemma_numeral_len(vb);
    if za < zb {
        assert(bs58_encoding(b)[za as int] == '1');
        if va > 0 {
            lemma_numeral_first(va);
            assert(s[za as int] == b58_numeral(va)[0]);
        } else {
            assert(s.len() == za);
        }
    }
    if zb < za {
        assert(s[zb as int] == '1');
        if vb > 0 {
            lemma_numeral_first(vb);
            assert(bs58_encoding(b)[zb as int] == b58_numeral(vb)[0]);
        } else {
            assert(bs58_encoding(b).len() == zb);
        }
    }
    assert(za == zb);
    assert(b58_numeral(va) =~= s.skip(za as int));
    assert(b58_numeral(vb) =~= bs58_encoding(b).skip(zb as int));
    lemma_numeral_injective(va, vb);
    if ra.len() > 0 {
        assert(ra[0] == a[za as int]);
    }
    if rb.len() > 0 {
        assert(rb[0] == b[zb as int]);
    }
    lemma_be_value_injective(ra, rb);
    assert(a.len() == b.len());
    assert forall|i: int| 0 <= i < a.len() implies a[i] == b[i] by {
        if i >= za {
            assert(a[i] == ra[i - za] && b[i] == rb[i - za]);
        }
    }
    assert(a =~= b);
}

/// Whether `v` has the version bits of a random (version 4) identifier:
/// version 4 and the RFC 4122 variant.
pub open spec fn is_v4(v: u128) -> bool {
    &&& (v >> 76u128) & 0xfu128 == 4
    &&& (v >> 62u128) & 0x3u128 == 2
}

/// A 128-bit identifier.
#[derive(Clone, Copy, Debug, PartialEq, Eq, Hash, PartialOrd, Ord)]
pub struct Uuid(pub u128);

/// The text of an identifier: the base-58 encoding of its 16 bytes.
pub open spec fn uuid_text(v: u128) -> Seq<char> {
    bs58_encoding(be_bytes(v as nat, 16))
}

impl Uuid {
    /// The 128-bit value.
    pub fn inner(&self) -> (v: u128)
        ensures
            v == self.0,
    {
        self.0
    }

    /// A new random (version 4) identifier.
    pub fn new_v4() -> (u: Uuid)
        ensures
            (u.0 >> 76u128) & 0xfu128 == 4,
            (u.0 >> 62u128) & 0x3u128 == 2,
    {
        Uuid(random_v4())
    }

    /// The 16 bytes of the identifier, most significant first.
    pub fn as_bytes(&self) -> (b: Vec<u8>)
        ensures
            b@ == be_bytes(self.0 as nat, 16),
    {
        let mut bytes: Vec<u8> = Vec::new();
        let mut k: usize = 0;
        while k < 16
            invariant
                k <= 16,
                bytes@.len() == k,
            decreases 16 - k,
        {
            bytes.push(0u8);
            k = k + 1;
        }
        let ghost full = be_bytes(self.0 as nat, 16);
        let mut x: u128 = self.0;
        let mut k: usize = 0;
        proof {
            lemma_be_bytes_len(self.0 as nat, 16);
            assert(full.subrange(0, 16) =~= full);
        }
        while k < 16
            invariant
                k <= 16,
                bytes@.len() == 16,
                full == be_bytes(self.0 as nat, 16),
                full.len() == 16,
                full.subrange(0, 16 - k) == be_bytes(x as nat, (16 - k) as nat),
                forall|i: int| 16 - k <= i < 16 ==> bytes@[i] == full[i],
            decreases 16 - k,
        {
            let m: usize = 16 - k;
            proof {
                let pre = full.subrange(0, m as int);
                assert(pre == be_bytes((x / 256) as nat, (m - 1) as nat).push((x % 256) as u8));
                assert(full.subrange(0, m - 1) =~= pre.drop_last());
                assert(full[m - 1] == pre[m - 1]);
            }
            bytes.set(m - 1, (x % 256) as u8);
            x = x / 256;
            k = k + 1;
        }
        proof {
            assert(bytes@ =~= full);
        }
        bytes
    }

    /// The base-58 text of the identifier.
    pub fn to_string(&self) -> (s: String)
        ensures
            s@ == uuid_text(self.0),
    {
        let bytes = self.as_bytes();
        bs58_encode(bytes.as_slice())
    }

    /// Parses the base-58 text of an identifier: the text must decode to
    /// exactly 16 bytes.  The text of an identifier parses back to it.
    pub fn from_str(s: &str) -> (r: Result<Uuid, ModelError>)
        ensures
            (r is Err && r->Err_0 is Bs58DecodeError) <==> !(exists|b: Seq<u8>|
                #[trigger] bs58_encoding(b) == s@),
            r matches Err(ModelError::UuidError(n)) ==> exists|b: Seq<u8>|
                #[trigger] bs58_encoding(b) == s@ && b.len() == n && n != 16,
            r matches Ok(u) ==> exists|b: Seq<u8>|
                #[trigger] bs58_encoding(b) == s@ && b.len() == 16 && u.0 == be_value(b),
            r is Err ==> r->Err_0 is Bs58DecodeError || r->Err_0 is UuidError,
            forall|v: u128| s@ == #[trigger] uuid_text(v) ==> r == Ok::<Uuid, ModelError>(Uuid(v)),
            uuid_of_text(s@) matches Some(u) ==> r == Ok::<Uuid, ModelError>(u),
            uuid_of_text(s@) is None ==> r is Err,
    {
        match bs58_decode(s) {
            Err(_) => Err(ModelError::Bs58DecodeError),
            Ok(bytes) => {
                if bytes.len() != 16 {
                    proof {
                        assert forall|v: u128| s@ != #[trigger] uuid_text(v) by {
                            if s@ == uuid_text(v) {
                                lemma_pow256_16();
                                lemma_be_roundtrip(v as nat, 16);
                                lemma_bs58_injective(bytes@, be_bytes(v as nat, 16));
                            }
                        }
                    }
                    proof {
                        assert forall|b: Seq<u8>| #[trigger] bs58_encoding(b) == s@ implies b.len() != 16 by {
                            lemma_bs58_injective(b, bytes@);
                        }
                    }
                    Err(ModelError::UuidError(bytes.len()))
                } else {
                    let mut acc: u128 = 0;
                    let mut i: usize = 0;
                    proof {
                        lemma_pow256_16();
                        assert(bytes@.take(0) =~= Seq::<u8>::empty());
                    }
                    while i < 16
                        invariant
                            i <= 16,
                            bytes@.len() == 16,
                            acc as nat == be_value(bytes@.take(i as int)),
                            pow256(16) == 0x1_0000_0000_0000_0000_0000_0000_0000_0000,
                        decreases 16 - i,
                    {
                        proof {
                            let t = bytes@.take(i + 1);
                            assert(t.drop_last() =~= bytes@.take(i as int));
                            lemma_be_value_bound(t);
                            assert(pow256(t.len()) <= pow256(16)) by {
                                lemma_pow256_mono(t.len(), 16);
                            }
                        }
                        acc = acc * 256 + bytes[i] as u128;
                        i = i + 1;
                    }
                    proof {
                        assert(bytes@.take(16) =~= bytes@);
                        assert forall|v: u128| s@ == #[trigger] uuid_text(v) implies acc == v by {
                            lemma_be_roundtrip(v as nat, 16);
                            lemma_bs58_injective(bytes@, be_bytes(v as nat, 16));
                        }
                        assert(bs58_encoding(bytes@) == s@ && bytes@.len() == 16);
                        let c = choose|b: Seq<u8>| #[trigger] bs58_encoding(b) == s@ && b.len() == 16;
                        lemma_bs58_injective(c, bytes@);
                        assert(c == bytes@);
                    }
                    Ok(Uuid(acc))
                }
            },
        }
    }
}

proof fn lemma_pow256_mono(a: nat, b: nat)
    requires
        a <= b,
    ensures
        pow256(a) <= pow256(b),
    decreases b,
{
    if a < b {
        lemma_pow256_mono(a, (b - 1) as nat);
    }
}

impl Default for Uuid {
    /// A new random identifier.
    fn default() -> (u: Uuid)
        ensures
            (u.0 >> 76u128) & 0xfu128 == 4,
            (u.0 >> 62u128) & 0x3u128 == 2,
    {
        Uuid::new_v4()
    }
}

impl std::str::FromStr for Uuid {
    type Err = ModelError;

    fn from_str(s: &str) -> (r: Result<Uuid, ModelError>)
        ensures
            (r is Err && r->Err_0 is Bs58DecodeError) <==> !(exists|b: Seq<u8>|
                #[trigger] bs58_encoding(b) == s@),
            r matches Err(ModelError::UuidError(n)) ==> exists|b: Seq<u8>|
                #[trigger] bs58_encoding(b) == s@ && b.len() == n && n != 16,
            r matches Ok(u) ==> exists|b: Seq<u8>|
                #[trigger] bs58_encoding(b) == s@ && b.len() == 16 && u.0 == be_value(b),
            r is Err ==> r->Err_0 is Bs58DecodeError || r->Err_0 is UuidError,
            forall|v: u128| s@ == #[trigger] uuid_text(v) ==> r == Ok::<Uuid, ModelError>(Uuid(v)),
            uuid_of_text(s@) matches Some(u) ==> r == Ok::<Uuid, ModelError>(u),
            uuid_of_text(s@) is None ==> r is Err,
    {
        Uuid::from_str(s)
    }
}

/// Law: two identifiers are the same exactly when their values are, and
/// an identifier's text parses back to it.
pub proof fn law_uuid_value(a: Uuid, b: Uuid)
    ensures
        (a == b) <==> (a.0 == b.0),
        uuid_of_text(uuid_text(a.0)) == Some(a),
{
    lemma_pow256_16();
    lemma_be_roundtrip(a.0 as nat, 16);
    let t = uuid_text(a.0);
    assert(bs58_encoding(be_bytes(a.0 as nat, 16)) == t && be_bytes(a.0 as nat, 16).len() == 16);
    let c = choose|c: Seq<u8>| #[trigger] bs58_encoding(c) == t && c.len() == 16;
    lemma_bs58_injective(c, be_bytes(a.0 as nat, 16));
}

/// Distinct identifiers have distinct texts.
pub proof fn lemma_uuid_text_injective(a: u128, b: u128)
    requires
        uuid_text(a) == uuid_text(b),
    ensures
        a == b,
{
    lemma_pow256_16();
    lemma_bs58_injective(be_bytes(a as nat, 16), be_bytes(b as nat, 16));
    lemma_be_roundtrip(a as nat, 16);
    lemma_be_roundtrip(b as nat, 16);
}

} // verus!
