//! Byte encodings: UTF-8 validation and the standard Base64 alphabet.
use vstd::prelude::*;
use vstd::utf8::*;
use base64::Engine;

verus! {

/// The Base64 symbol of the 6-bit value `v` in the standard alphabet.
pub open spec fn base64_symbol(v: int) -> char {
    if v < 26 {
        (('A' as int) + v) as char
    } else if v < 52 {
        (('a' as int) + v - 26) as char
    } else if v < 62 {
        (('0' as int) + v - 52) as char
    } else if v == 62 {
        '+'
    } else {
        '/'
    }
}

/// The standard Base64 text of `b`, padded with `=` to a multiple of four.
pub open spec fn base64_standard(b: Seq<u8>) -> Seq<char>
    decreases b.len(),
{
    if b.len() == 0 {
        Seq::empty()
    } else if b.len() == 1 {
        let x = b[0] as int;
        seq![base64_symbol(x / 4), base64_symbol((x % 4) * 16), '=', '=']
    } else if b.len() == 2 {
        let x = b[0] as int;
        let y = b[1] as int;
        seq![
            base64_symbol(x / 4),
            base64_symbol((x % 4) * 16 + y / 16),
            base64_symbol((y % 16) * 4),
            '=',
        ]
    } else {
        let x = b[0] as int;
        let y = b[1] as int;
        let z = b[2] as int;
        seq![
            base64_symbol(x / 4),
            base64_symbol((x % 4) * 16 + y / 16),
            base64_symbol((y % 16) * 4 + z / 64),
            base64_symbol(z % 64),
        ] + base64_standard(b.skip(3))
    }
}

/// What the base64 crate's `STANDARD` engine decodes `s` to: the bytes
/// whose standard text `s` is, `None` where `s` is the text of no bytes (the
/// engine requires canonical padding and no trailing bits).
pub open spec fn base64_standard_decoding(s: Seq<char>) -> Option<Seq<u8>> {
    if exists|v: Seq<u8>| base64_standard(v) == s {
        Some(choose|v: Seq<u8>| base64_standard(v) == s)
    } else {
        None
    }
}

/// Symbols of different 6-bit values differ, and none is `=`.
proof fn lemma_symbol(a: int, b: int)
    requires
        0 <= a < 64,
        0 <= b < 64,
    ensures
        base64_symbol(a) != '=',
        base64_symbol(a) == base64_symbol(b) ==> a == b,
{
    assert(('A' as int) == 65);
    assert(('a' as int) == 97);
    assert(('0' as int) == 48);
    assert(('=' as int) == 61);
    assert(('+' as int) == 43);
    assert(('/' as int) == 47);
    let sa = base64_symbol(a);
    let sb = base64_symbol(b);
    assert(a < 26 ==> sa as int == 65 + a);
    assert(26 <= a < 52 ==> sa as int == 97 + a - 26);
    assert(52 <= a < 62 ==> sa as int == 48 + a - 52);
    assert(b < 26 ==> sb as int == 65 + b);
    assert(26 <= b < 52 ==> sb as int == 97 + b - 26);
    assert(52 <= b < 62 ==> sb as int == 48 + b - 52);
}

/// The standard text of `b` has four characters per started group of
/// three bytes.
proof fn lemma_base64_len(b: Seq<u8>)
    ensures
        base64_standard(b).len() == 4 * ((b.len() + 2) / 3),
    decreases b.len(),
{
    if b.len() >= 3 {
        lemma_base64_len(b.skip(3));
    }
}

/// Different bytes have different standard texts.
pub proof fn lemma_base64_injective(a: Seq<u8>, b: Seq<u8>)
    requires
        base64_standard(a) == base64_standard(b),
    ensures
        a == b,
    decreases a.len(),
{
    let ea = base64_standard(a);
    lemma_base64_len(a);
    lemma_base64_len(b);
    if a.len() == 0 || b.len() == 0 {
        assert(a.len() == 0 && b.len() == 0);
        assert(a =~= b);
        return;
    }
    let x = a[0] as int;
    let x2 = b[0] as int;
    lemma_symbol(x / 4, x2 / 4);
    if a.len() == 1 {
        assert(ea[2] == '=');
        if b.len() >= 2 {
            let y2 = b[1] as int;
            lemma_symbol((x2 % 4) * 16 + y2 / 16, 0);
            if b.len() == 2 {
                lemma_symbol((y2 % 16) * 4, 0);
            } else {
                lemma_symbol((y2 % 16) * 4 + (b[2] as int) / 64, 0);
            }
        }
        lemma_symbol((x % 4) * 16, (x2 % 4) * 16);
        assert(a =~= b);
    } else if a.len() == 2 {
        let y = a[1] as int;
        assert(ea[3] == '=');
        lemma_symbol((y % 16) * 4, 0);
        if b.len() == 1 {
            assert(base64_standard(b)[2] == '=');
        } else if b.len() >= 3 {
            lemma_symbol((b[2] as int) % 64, 0);
        } else {
            let y2 = b[1] as int;
            lemma_symbol((x % 4) * 16 + y / 16, (x2 % 4) * 16 + y2 / 16);
            lemma_symbol((y % 16) * 4, (y2 % 16) * 4);
            assert(a =~= b);
        }
    } else {
        let y = a[1] as int;
        let z = a[2] as int;
        lemma_symbol((y % 16) * 4 + z / 64, 0);
        lemma_symbol(z % 64, 0);
        if b.len() == 1 {
            assert(base64_standard(b)[2] == '=');
        } else if b.len() == 2 {
            assert(base64_standard(b)[3] == '=');
        } else {
            let y2 = b[1] as int;
            let z2 = b[2] as int;
            lemma_symbol((x % 4) * 16 + y / 16, (x2 % 4) * 16 + y2 / 16);
            lemma_symbol((y % 16) * 4 + z / 64, (y2 % 16) * 4 + z2 / 64);
            lemma_symbol(z % 64, z2 % 64);
            let eb = base64_standard(b);
            assert(ea[0] == eb[0] && ea[1] == eb[1] && ea[2] == eb[2] && ea[3] == eb[3]);
            lemma_group_bytes(x, y, z, x2, y2, z2);
            assert(ea.skip(4) =~= base64_standard(a.skip(3)));
            assert(base64_standard(b).skip(4) =~= base64_standard(b.skip(3)));
            lemma_base64_injective(a.skip(3), b.skip(3));
            assert(a =~= b) by {
                assert forall|i: int| 0 <= i < a.len() implies a[i] == b[i] by {
                    if i >= 3 {
                        assert(a[i] == a.skip(3)[i - 3]);
                        assert(b[i] == b.skip(3)[i - 3]);
                    }
                }
            }
        }
    }
}

/// A group of three bytes is given back by its four symbol values.
proof fn lemma_group_bytes(x: int, y: int, z: int, x2: int, y2: int, z2: int)
    requires
        0 <= x < 256,
        0 <= y < 256,
        0 <= z < 256,
        0 <= x2 < 256,
        0 <= y2 < 256,
        0 <= z2 < 256,
        x / 4 == x2 / 4,
        (x % 4) * 16 + y / 16 == (x2 % 4) * 16 + y2 / 16,
        (y % 16) * 4 + z / 64 == (y2 % 16) * 4 + z2 / 64,
        z % 64 == z2 % 64,
    ensures
        x == x2,
        y == y2,
        z == z2,
{
    assert(x % 4 == x2 % 4 && y / 16 == y2 / 16) by (nonlinear_arith)
        requires
            0 <= y < 256,
            0 <= y2 < 256,
            0 <= x % 4 < 4,
            0 <= x2 % 4 < 4,
            (x % 4) * 16 + y / 16 == (x2 % 4) * 16 + y2 / 16,
    ;
    assert(y % 16 == y2 % 16 && z / 64 == z2 / 64) by (nonlinear_arith)
        requires
            0 <= z < 256,
            0 <= z2 < 256,
            0 <= y % 16 < 16,
            0 <= y2 % 16 < 16,
            (y % 16) * 4 + z / 64 == (y2 % 16) * 4 + z2 / 64,
    ;
}

/// Decoding the standard text of bytes gives them back.
pub proof fn lemma_base64_round_trip(b: Seq<u8>)
    ensures
        base64_standard_decoding(base64_standard(b)) == Some(b),
{
    let s = base64_standard(b);
    assert(exists|v: Seq<u8>| base64_standard(v) == s);
    let v = choose|v: Seq<u8>| base64_standard(v) == s;
    lemma_base64_injective(v, b);
}

/// `base64::engine::general_purpose::STANDARD.encode`: the standard alphabet
/// with `=` padding.
#[verifier::external_body]
pub fn base64_encode(bytes: &[u8]) -> (r: String)
    ensures
        r@ == base64_standard(bytes@),
{
    base64::engine::general_purpose::STANDARD.encode(bytes)
}

/// `base64::engine::general_purpose::STANDARD.decode`: the bytes whose
/// standard text `s` is (the engine requires canonical padding and no
/// trailing bits), or, for any other text, the crate's error text. What the
/// error says is not stated.
#[verifier::external_body]
pub(crate) fn base64_standard_decode(s: &str) -> (r: Result<Vec<u8>, String>)
    ensures
        match r {
            Ok(v) => base64_standard_decoding(s@) == Some(v@),
            Err(_) => base64_standard_decoding(s@) is None,
        },
{
    match base64::engine::general_purpose::STANDARD.decode(s) {
        Ok(v) => Ok(v),
        Err(e) => Err(e.to_string()),
    }
}

/// `std::str::from_utf8`: the text that `bytes` encode when they are valid
/// UTF-8.
#[verifier::external_body]
pub(crate) fn utf8_to_string(bytes: &[u8]) -> (r: Option<String>)
    ensures
        r is Some <==> valid_utf8(bytes@),
        r matches Some(s) ==> s@ == decode_utf8(bytes@),
{
    match std::str::from_utf8(bytes) {
        Ok(s) => Some(s.to_string()),
        Err(_) => None,
    }
}

/// What `String::from_utf8_lossy` makes of `bytes`: their text, with each
/// invalid sequence replaced by U+FFFD.
pub uninterp spec fn utf8_lossy_decoding(bytes: Seq<u8>) -> Seq<char>;

/// `String::from_utf8_lossy`: valid UTF-8 decodes as it is.
#[verifier::external_body]
pub(crate) fn utf8_lossy(bytes: &[u8]) -> (r: String)
    ensures
        r@ == utf8_lossy_decoding(bytes@),
        valid_utf8(bytes@) ==> r@ == decode_utf8(bytes@),
{
    String::from_utf8_lossy(bytes).into_owned()
}

/// `str::as_bytes`, copied: the UTF-8 encoding of `s`.
pub fn utf8_bytes(s: &str) -> (r: Vec<u8>)
    ensures
        r@ == encode_utf8(s@),
{
    let b = s.as_bytes();
    let mut r: Vec<u8> = Vec::new();
    let mut i: usize = 0;
    while i < b.len()
        invariant
            i <= b.len(),
            b@ == encode_utf8(s@),
            r@ == b@.take(i as int),
        decreases b.len() - i,
    {
        r.push(b[i]);
        i = i + 1;
        assert(b@.take(i as int) =~= b@.take(i - 1).push(b@[i - 1]));
    }
    assert(b@.take(b@.len() as int) =~= b@);
    r
}

/// Appends the bytes `b` to `v`.
pub fn append_bytes(v: &mut Vec<u8>, b: &[u8])
    ensures
        final(v)@ == old(v)@ + b@,
{
    let ghost v0 = v@;
    let mut i: usize = 0;
    while i < b.len()
        invariant
            i <= b.len(),
            v@ == v0 + b@.take(i as int),
        decreases b.len() - i,
    {
        v.push(b[i]);
        i = i + 1;
        assert(b@.take(i as int) =~= b@.take(i - 1).push(b@[i - 1]));
    }
    assert(b@.take(b@.len() as int) =~= b@);
}

} // verus!
