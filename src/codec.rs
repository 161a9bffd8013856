//! Byte-wise base64 (one byte per character) and percent-encoding.
use vstd::prelude::*;
use base64::engine::general_purpose::{STANDARD, URL_SAFE_NO_PAD};
use base64::Engine;
use crate::ciphers::TransformError;
use crate::text::{chars_of, string_from_chars};
use vstd::utf8::{decode_utf8, encode_utf8, valid_utf8};

verus! {

/// The base64 digit of a 6-bit value, in the URL-safe or the standard alphabet.
pub open spec fn b64_digit(v: int, url_safe: bool) -> char {
    if v < 26 {
        (65 + v) as u8 as char
    } else if v < 52 {
        (71 + v) as u8 as char
    } else if v < 62 {
        (v - 4) as u8 as char
    } else if v == 62 {
        if url_safe { '-' } else { '+' }
    } else {
        if url_safe { '_' } else { '/' }
    }
}

/// The four digits of the 24 bits `b0 b1 b2`.
pub open spec fn b64_quad(b0: int, b1: int, b2: int, url_safe: bool) -> Seq<char> {
    seq![
        b64_digit(b0 / 4, url_safe),
        b64_digit((b0 % 4) * 16 + b1 / 16, url_safe),
        b64_digit((b1 % 16) * 4 + b2 / 64, url_safe),
        b64_digit(b2 % 64, url_safe),
    ]
}

/// The digits of one group of one to three bytes, with `=` filling a short
/// group to four characters where padding is on.
pub open spec fn b64_group(b: Seq<u8>, url_safe: bool, pad: bool) -> Seq<char> {
    let b1 = if b.len() > 1 { b[1] as int } else { 0 };
    let b2 = if b.len() > 2 { b[2] as int } else { 0 };
    let d = b64_quad(b[0] as int, b1, b2, url_safe);
    if b.len() >= 3 {
        d
    } else if b.len() == 2 {
        d.take(3) + if pad { seq!['='] } else { seq![] }
    } else {
        d.take(2) + if pad { seq!['=', '='] } else { seq![] }
    }
}

proof fn lemma_b64_group_at(b: Seq<u8>, url_safe: bool, pad: bool)
    requires
        1 <= b.len() <= 3,
    ensures
        ({
            let b1 = if b.len() > 1 { b[1] as int } else { 0 };
            let b2 = if b.len() > 2 { b[2] as int } else { 0 };
            let d = b64_quad(b[0] as int, b1, b2, url_safe);
            let g = b64_group(b, url_safe, pad);
            &&& g.len() == if pad { 4 } else { b.len() + 1 }
            &&& g[0] == d[0]
            &&& g[1] == d[1]
            &&& b.len() >= 2 ==> g[2] == d[2]
            &&& b.len() == 3 ==> g[3] == d[3]
            &&& pad && b.len() == 1 ==> g[2] == '='
            &&& pad && b.len() < 3 ==> g[3] == '='
        }),
{
}

/// The base64 text of `b` (RFC 4648), in groups of three bytes.
pub open spec fn b64_encoded(b: Seq<u8>, url_safe: bool, pad: bool) -> Seq<char>
    decreases b.len(),
{
    if b.len() == 0 {
        seq![]
    } else if b.len() <= 3 {
        b64_group(b, url_safe, pad)
    } else {
        b64_group(b.take(3), url_safe, pad) + b64_encoded(b.skip(3), url_safe, pad)
    }
}

/// The bytes whose base64 text is `s`, if there are any.
pub open spec fn b64_decoded(s: Seq<char>, url_safe: bool, pad: bool) -> Option<Seq<u8>> {
    if exists|b: Seq<u8>| b64_encoded(b, url_safe, pad) == s {
        Some(choose|b: Seq<u8>| b64_encoded(b, url_safe, pad) == s)
    } else {
        None
    }
}

proof fn lemma_b64_digit_injective(v: int, w: int, url_safe: bool)
    requires
        0 <= v < 64,
        0 <= w < 64,
        b64_digit(v, url_safe) == b64_digit(w, url_safe),
    ensures
        v == w,
{
    let cv = b64_digit(v, url_safe);
    let cw = b64_digit(w, url_safe);
    assert(cv as u32 == cw as u32);
}

proof fn lemma_b64_digit_not_pad(v: int, url_safe: bool)
    requires
        0 <= v < 64,
    ensures
        b64_digit(v, url_safe) != '=',
{
    let c = b64_digit(v, url_safe);
    assert(c as u32 != '=' as u32);
}

proof fn lemma_b64_group_len(b: Seq<u8>, url_safe: bool, pad: bool)
    requires
        1 <= b.len() <= 3,
    ensures
        b64_group(b, url_safe, pad).len() == if pad { 4 } else { b.len() + 1 },
{
    lemma_b64_group_at(b, url_safe, pad);
}

proof fn lemma_b64_group_injective(a: Seq<u8>, b: Seq<u8>, url_safe: bool, pad: bool)
    requires
        1 <= a.len() <= 3,
        1 <= b.len() <= 3,
        b64_group(a, url_safe, pad) == b64_group(b, url_safe, pad),
    ensures
        a == b,
{
    let g = b64_group(a, url_safe, pad);
    lemma_b64_group_at(a, url_safe, pad);
    lemma_b64_group_at(b, url_safe, pad);
    let a0 = a[0] as int;
    let a1 = if a.len() > 1 { a[1] as int } else { 0 };
    let a2 = if a.len() > 2 { a[2] as int } else { 0 };
    let b0 = b[0] as int;
    let b1 = if b.len() > 1 { b[1] as int } else { 0 };
    let b2 = if b.len() > 2 { b[2] as int } else { 0 };
    let da = b64_quad(a0, a1, a2, url_safe);
    let db = b64_quad(b0, b1, b2, url_safe);
    if pad && a.len() != b.len() {
        lemma_b64_digit_not_pad((b1 % 16) * 4 + b2 / 64, url_safe);
        lemma_b64_digit_not_pad(b2 % 64, url_safe);
        lemma_b64_digit_not_pad((a1 % 16) * 4 + a2 / 64, url_safe);
        lemma_b64_digit_not_pad(a2 % 64, url_safe);
        assert(false);
    }
    assert(a.len() == b.len());
    lemma_b64_digit_injective(a0 / 4, b0 / 4, url_safe);
    lemma_b64_digit_injective((a0 % 4) * 16 + a1 / 16, (b0 % 4) * 16 + b1 / 16, url_safe);
    assert(a0 == b0);
    if a.len() >= 2 {
        lemma_b64_digit_injective((a1 % 16) * 4 + a2 / 64, (b1 % 16) * 4 + b2 / 64, url_safe);
        assert(a1 == b1);
    }
    if a.len() == 3 {
        lemma_b64_digit_injective(a2 % 64, b2 % 64, url_safe);
        assert(a2 == b2);
    }
    assert(a =~= b);
}

proof fn lemma_b64_encoded_len(b: Seq<u8>, url_safe: bool, pad: bool)
    ensures
        b.len() == 0 <==> b64_encoded(b, url_safe, pad).len() == 0,
        b.len() > 3 ==> b64_encoded(b, url_safe, pad).len() > 4,
        1 <= b.len() <= 3 ==> b64_encoded(b, url_safe, pad).len() <= 4,
    decreases b.len(),
{
    if b.len() > 3 {
        lemma_b64_encoded_len(b.skip(3), url_safe, pad);
        lemma_b64_group_len(b.take(3), url_safe, pad);
    } else if b.len() > 0 {
        lemma_b64_group_len(b, url_safe, pad);
    }
}

/// Base64 text determines its bytes: no two byte strings encode alike.
pub proof fn lemma_b64_injective(a: Seq<u8>, b: Seq<u8>, url_safe: bool, pad: bool)
    requires
        b64_encoded(a, url_safe, pad) == b64_encoded(b, url_safe, pad),
    ensures
        a == b,
    decreases a.len(),
{
    lemma_b64_encoded_len(a, url_safe, pad);
    lemma_b64_encoded_len(b, url_safe, pad);
    if a.len() > 3 && b.len() > 3 {
        let ea = b64_encoded(a, url_safe, pad);
        let ga = b64_group(a.take(3), url_safe, pad);
        let gb = b64_group(b.take(3), url_safe, pad);
        lemma_b64_group_len(a.take(3), url_safe, pad);
        lemma_b64_group_len(b.take(3), url_safe, pad);
        assert(ga == ea.take(4));
        assert(gb == ea.take(4));
        lemma_b64_group_injective(a.take(3), b.take(3), url_safe, pad);
        assert(b64_encoded(a.skip(3), url_safe, pad) == ea.skip(4));
        assert(b64_encoded(b.skip(3), url_safe, pad) == ea.skip(4));
        lemma_b64_injective(a.skip(3), b.skip(3), url_safe, pad);
        assert(a =~= a.take(3) + a.skip(3));
        assert(b =~= b.take(3) + b.skip(3));
    } else if a.len() > 0 && b.len() > 0 {
        lemma_b64_group_injective(a, b, url_safe, pad);
    } else {
        assert(a =~= b);
    }
}

/// Decoding the base64 text of `b` gives `b`.
pub proof fn lemma_b64_decode_encoded(b: Seq<u8>, url_safe: bool, pad: bool)
    ensures
        b64_decoded(b64_encoded(b, url_safe, pad), url_safe, pad) == Some(b),
{
    let s = b64_encoded(b, url_safe, pad);
    assert(exists|c: Seq<u8>| b64_encoded(c, url_safe, pad) == s);
    let c = choose|c: Seq<u8>| b64_encoded(c, url_safe, pad) == s;
    lemma_b64_injective(c, b, url_safe, pad);
}

/// Relies on base64's `URL_SAFE_NO_PAD.encode`: RFC 4648 base64 in the
/// URL-safe alphabet, without padding.
#[verifier::external_body]
fn encode_url_safe_no_pad(b: &Vec<u8>) -> (r: String)
    ensures
        r@ == b64_encoded(b@, true, false),
{
    URL_SAFE_NO_PAD.encode(b)
}

/// Relies on base64's `URL_SAFE_NO_PAD.decode`: it rejects padding and
/// non-zero trailing bits, so it accepts exactly the texts that its encoder
/// writes, and gives back the bytes they encode.
#[verifier::external_body]
fn decode_url_safe_no_pad(s: &str) -> (r: Option<Vec<u8>>)
    ensures
        r is Some <==> exists|b: Seq<u8>| b64_encoded(b, true, false) == s@,
        r is Some ==> b64_encoded(r->Some_0@, true, false) == s@,
{
    URL_SAFE_NO_PAD.decode(s).ok()
}

/// Relies on base64's `STANDARD.decode`: it requires canonical padding and
/// zero trailing bits, so it accepts exactly the texts that its encoder
/// writes, and gives back the bytes they encode.
#[verifier::external_body]
fn decode_standard(s: &str) -> (r: Option<Vec<u8>>)
    ensures
        r is Some <==> exists|b: Seq<u8>| b64_encoded(b, false, true) == s@,
        r is Some ==> b64_encoded(r->Some_0@, false, true) == s@,
{
    STANDARD.decode(s).ok()
}

/// Standard base64 (with padding) decoded to bytes; `None` on text that is
/// not the encoding of any bytes.
pub fn decode_standard_base64(input: &str) -> (r: Option<Vec<u8>>)
    ensures
        match b64_decoded(input@, false, true) {
            Some(b) => r is Some && r->Some_0@ == b,
            None => r is None,
        },
{
    let r = decode_standard(input);
    if let Some(v) = &r {
        proof { lemma_b64_decode_encoded(v@, false, true); }
    }
    r
}

/// Each character cut to its low byte.
pub open spec fn latin1_bytes(s: Seq<char>) -> Seq<u8> {
    Seq::new(s.len(), |i: int| (s[i] as u32 % 256) as u8)
}

/// Each byte read as the character of the same value.
pub open spec fn latin1_text(b: Seq<u8>) -> Seq<char> {
    Seq::new(b.len(), |i: int| b[i] as char)
}

/// Every character is at most U+00FF.
pub open spec fn is_latin1(s: Seq<char>) -> bool {
    forall|i: int| 0 <= i < s.len() ==> (s[i] as u32) < 256
}

/// The URL-safe unpadded base64 of the low bytes of `s`.
pub open spec fn url_safe_encoded_text(s: Seq<char>) -> Seq<char> {
    b64_encoded(latin1_bytes(s), true, false)
}

/// The characters of the bytes that the URL-safe text `s` encodes, if any.
pub open spec fn url_safe_decoded_text(s: Seq<char>) -> Option<Seq<char>> {
    match b64_decoded(s, true, false) {
        Some(b) => Some(latin1_text(b)),
        None => None,
    }
}

/// URL-safe base64 without padding of `input`, one byte per character (the
/// character's low eight bits).
pub fn url_safe_base64(input: &str) -> (r: String)
    ensures
        r@ == url_safe_encoded_text(input@),
{
    let cs = chars_of(input);
    let mut bytes: Vec<u8> = Vec::new();
    let mut k: usize = 0;
    while k < cs.len()
        invariant
            cs@ == input@,
            k <= cs@.len(),
            bytes@ == latin1_bytes(input@).take(k as int),
        decreases cs@.len() - k,
    {
        bytes.push((cs[k] as u32 % 256) as u8);
        k += 1;
        assert(bytes@ =~= latin1_bytes(input@).take(k as int));
    }
    assert(bytes@ =~= latin1_bytes(input@));
    encode_url_safe_no_pad(&bytes)
}

/// Decodes URL-safe unpadded base64, each byte becoming the character of the
/// same value. Text that is not such an encoding fails with `CodecError`.
pub fn decode_url_safe_base64(input: &str) -> (r: Result<String, TransformError>)
    ensures
        match url_safe_decoded_text(input@) {
            Some(t) => r is Ok && r->Ok_0@ == t,
            None => r == Err::<String, TransformError>(TransformError::CodecError),
        },
{
    match decode_url_safe_no_pad(input) {
        None => Err(TransformError::CodecError),
        Some(bytes) => {
            proof { lemma_b64_decode_encoded(bytes@, true, false); }
            let mut out: Vec<char> = Vec::new();
            let mut k: usize = 0;
            while k < bytes.len()
                invariant
                    k <= bytes@.len(),
                    out@ == latin1_text(bytes@).take(k as int),
                decreases bytes@.len() - k,
            {
                out.push(bytes[k] as char);
                k += 1;
                assert(out@ =~= latin1_text(bytes@).take(k as int));
            }
            assert(out@ =~= latin1_text(bytes@));
            Ok(string_from_chars(&out))
        },
    }
}

/// Text of characters up to U+00FF survives the byte-wise base64 round trip.
pub proof fn lemma_base64_round_trip(s: Seq<char>)
    requires
        is_latin1(s),
    ensures
        url_safe_decoded_text(url_safe_encoded_text(s)) == Some(s),
{
    lemma_b64_decode_encoded(latin1_bytes(s), true, false);
    assert forall|i: int| 0 <= i < s.len() implies #[trigger] latin1_text(latin1_bytes(s))[i]
        == s[i] by {
        let c = s[i];
        let u = c as u32;
        assert(u % 256 == u);
        assert((u % 256) as u8 as char as u32 == u);
        assert((u % 256) as u8 as char == (u as char));
        vstd::utf8::char_u32_cast(c, u);
    }
    assert(latin1_text(latin1_bytes(s)) =~= s);
}

/// Bytes that percent-encoding keeps as they are: ASCII letters and digits,
/// `-`, `.`, `_` and `~`.
pub open spec fn is_unreserved(b: u8) -> bool {
    (48 <= b <= 57) || (65 <= b <= 90) || (97 <= b <= 122) || b == 45 || b == 46 || b == 95
        || b == 126
}

/// The upper-case hexadecimal digit of a value below 16, as a byte.
pub open spec fn hex_upper(d: int) -> u8 {
    if d < 10 { (48 + d) as u8 } else { (55 + d) as u8 }
}

/// The value of a hexadecimal digit of either case.
pub open spec fn hex_value(c: u8) -> Option<int> {
    if 48 <= c <= 57 {
        Some(c - 48)
    } else if 65 <= c <= 70 {
        Some(c - 55)
    } else if 97 <= c <= 102 {
        Some(c - 87)
    } else {
        None
    }
}

/// The percent-encoding of `b`, as ASCII bytes: unreserved bytes stay, every
/// other byte becomes `%` and two upper-case hexadecimal digits.
pub open spec fn percent_encoded_bytes(b: Seq<u8>) -> Seq<u8>
    decreases b.len(),
{
    if b.len() == 0 {
        seq![]
    } else {
        let u = if is_unreserved(b[0]) {
            seq![b[0]]
        } else {
            seq![37u8, hex_upper(b[0] as int / 16), hex_upper(b[0] as int % 16)]
        };
        u + percent_encoded_bytes(b.drop_first())
    }
}

/// The percent-encoding of the UTF-8 bytes of `s`.
pub open spec fn percent_encoded_text(s: Seq<char>) -> Seq<char> {
    latin1_text(percent_encoded_bytes(encode_utf8(s)))
}

/// Percent-decoding of bytes: `%` and two hexadecimal digits become that
/// byte; anything else, a stray `%` included, stays as it is.
pub open spec fn percent_decoded_bytes(b: Seq<u8>) -> Seq<u8>
    decreases b.len(),
{
    if b.len() == 0 {
        seq![]
    } else if b[0] == 37 && b.len() >= 3 && hex_value(b[1]) is Some && hex_value(b[2]) is Some {
        seq![(hex_value(b[1])->Some_0 * 16 + hex_value(b[2])->Some_0) as u8]
            + percent_decoded_bytes(b.skip(3))
    } else {
        seq![b[0]] + percent_decoded_bytes(b.drop_first())
    }
}

/// The text that percent-decoding `s` gives, if its bytes are UTF-8.
pub open spec fn percent_decoded_text(s: Seq<char>) -> Option<Seq<char>> {
    let d = percent_decoded_bytes(encode_utf8(s));
    if valid_utf8(d) {
        Some(decode_utf8(d))
    } else {
        None
    }
}

/// Relies on `urlencoding::encode`: every UTF-8 byte but the unreserved ones
/// becomes `%XX` with upper-case digits.
#[verifier::external_body]
fn url_encode(s: &str) -> (r: String)
    ensures
        r@ == percent_encoded_text(s@),
{
    urlencoding::encode(s).into_owned()
}

/// Relies on `urlencoding::decode`: `%XX` sequences become bytes, a `%` not
/// followed by two hexadecimal digits stays, and the bytes must be UTF-8.
#[verifier::external_body]
fn url_decode(s: &str) -> (r: Option<String>)
    ensures
        match percent_decoded_text(s@) {
            Some(t) => r is Some && r->Some_0@ == t,
            None => r is None,
        },
{
    urlencoding::decode(s).ok().map(|c| c.into_owned())
}

/// Percent-encodes the UTF-8 bytes of `input`.
pub fn percent_encode(input: &str) -> (r: String)
    ensures
        r@ == percent_encoded_text(input@),
{
    url_encode(input)
}

/// Percent-decodes `input`; fails with `CodecError` where the decoded bytes
/// are not UTF-8.
pub fn percent_decode(input: &str) -> (r: Result<String, TransformError>)
    ensures
        match percent_decoded_text(input@) {
            Some(t) => r is Ok && r->Ok_0@ == t,
            None => r == Err::<String, TransformError>(TransformError::CodecError),
        },
{
    match url_decode(input) {
        Some(t) => Ok(t),
        None => Err(TransformError::CodecError),
    }
}

proof fn lemma_hex_upper(d: int)
    requires
        0 <= d < 16,
    ensures
        hex_value(hex_upper(d)) == Some(d),
        hex_upper(d) < 128,
{
}

proof fn lemma_percent_decode_encoded_bytes(b: Seq<u8>)
    ensures
        percent_decoded_bytes(percent_encoded_bytes(b)) == b,
        forall|i: int| 0 <= i < percent_encoded_bytes(b).len() ==> #[trigger] percent_encoded_bytes(b)[i] < 128,
    decreases b.len(),
{
    if b.len() > 0 {
        let rest = percent_encoded_bytes(b.drop_first());
        lemma_percent_decode_encoded_bytes(b.drop_first());
        let e = percent_encoded_bytes(b);
        if is_unreserved(b[0]) {
            assert(e == seq![b[0]] + rest);
            assert(e.drop_first() =~= rest);
        } else {
            lemma_hex_upper(b[0] as int / 16);
            lemma_hex_upper(b[0] as int % 16);
            assert(e.skip(3) =~= rest);
        }
        assert(percent_decoded_bytes(e) =~= b);
    }
}

/// Percent-decoding what percent-encoding wrote gives the text back.
pub proof fn lemma_percent_round_trip(s: Seq<char>)
    ensures
        percent_decoded_text(percent_encoded_text(s)) == Some(s),
{
    let b = encode_utf8(s);
    let e = percent_encoded_bytes(b);
    lemma_percent_decode_encoded_bytes(b);
    let t = percent_encoded_text(s);
    assert(vstd::utf8::is_ascii_chars(t)) by {
        assert forall|i: int| 0 <= i < t.len() implies #[trigger] (t[i] as u32) < 128 by {
            assert(e[i] < 128);
        }
    }
    vstd::utf8::is_ascii_chars_encode_utf8(t);
    assert(encode_utf8(t) =~= e);
    vstd::utf8::encode_utf8_valid_utf8(s);
    vstd::utf8::encode_utf8_decode_utf8(s);
}

proof fn lemma_b64_encoded_ascii(b: Seq<u8>, url_safe: bool, pad: bool)
    ensures
        forall|i: int| 0 <= i < b64_encoded(b, url_safe, pad).len()
            ==> (#[trigger] b64_encoded(b, url_safe, pad)[i] as u32) < 128,
    decreases b.len(),
{
    if b.len() > 0 {
        let g = if b.len() <= 3 { b } else { b.take(3) };
        let b1 = if g.len() > 1 { g[1] as int } else { 0 };
        let b2 = if g.len() > 2 { g[2] as int } else { 0 };
        let d = b64_quad(g[0] as int, b1, b2, url_safe);
        assert forall|k: int| 0 <= k < 4 implies (#[trigger] d[k] as u32) < 128 by {
            let c = d[k];
            assert((c as u32) < 128);
        }
        lemma_b64_group_at(g, url_safe, pad);
        let gg = b64_group(g, url_safe, pad);
        assert forall|k: int| 0 <= k < gg.len() implies (#[trigger] gg[k] as u32) < 128 by {
            if k >= g.len() + 1 {
                assert(gg[k] == '=');
            }
        }
        if b.len() > 3 {
            lemma_b64_encoded_ascii(b.skip(3), url_safe, pad);
            let e = b64_encoded(b, url_safe, pad);
            let rest = b64_encoded(b.skip(3), url_safe, pad);
            assert(e == gg + rest);
            assert forall|i: int| 0 <= i < e.len() implies (#[trigger] e[i] as u32) < 128 by {
                if i < gg.len() {
                    assert(e[i] == gg[i]);
                } else {
                    assert(e[i] == rest[i - gg.len()]);
                }
            }
        }
    }
}

/// Base64 text holds only ASCII characters.
pub proof fn lemma_url_safe_encoded_latin1(s: Seq<char>)
    ensures
        is_latin1(url_safe_encoded_text(s)),
{
    lemma_b64_encoded_ascii(latin1_bytes(s), true, false);
}

/// Percent-encoded text holds only ASCII characters.
pub proof fn lemma_percent_encoded_latin1(s: Seq<char>)
    ensures
        is_latin1(percent_encoded_text(s)),
{
    lemma_percent_decode_encoded_bytes(encode_utf8(s));
}

} // verus!
