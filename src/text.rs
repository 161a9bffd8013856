//! Conversions between strings and sequences of characters or code units.
use vstd::prelude::*;

verus! {

/// Relies on `str::chars`: the characters of `s`, in order.
#[verifier::external_body]
pub(crate) fn chars_of(s: &str) -> (r: Vec<char>)
    ensures
        r@ == s@,
{
    s.chars().collect()
}

/// Relies on `FromIterator<char> for String`: the string holding exactly `v`.
#[verifier::external_body]
pub(crate) fn string_from_chars(v: &Vec<char>) -> (r: String)
    ensures
        r@ == v@,
{
    v.iter().collect()
}

/// The UTF-16 code units of one character: one unit below U+10000, else a
/// surrogate pair.
pub open spec fn utf16_units(c: char) -> Seq<u16> {
    let v = c as u32;
    if v < 0x10000 {
        seq![v as u16]
    } else {
        let w = (v - 0x10000) as u32;
        seq![(0xD800 + w / 0x400) as u16, (0xDC00 + w % 0x400) as u16]
    }
}

/// The UTF-16 encoding of a character sequence.
pub open spec fn utf16_of(s: Seq<char>) -> Seq<u16>
    decreases s.len(),
{
    if s.len() == 0 {
        seq![]
    } else {
        utf16_of(s.drop_last()) + utf16_units(s.last())
    }
}

/// The UTF-16 code units of `s`, in order.
pub fn encode_utf16(s: &str) -> (r: Vec<u16>)
    ensures
        r@ == utf16_of(s@),
{
    let cs = chars_of(s);
    let mut out: Vec<u16> = Vec::new();
    let mut k: usize = 0;
    while k < cs.len()
        invariant
            cs@ == s@,
            k <= cs@.len(),
            out@ == utf16_of(s@.take(k as int)),
        decreases cs@.len() - k,
    {
        let c = cs[k];
        let v = c as u32;
        proof { vstd::utf8::char_is_scalar(c); }
        if v < 0x10000 {
            out.push(v as u16);
        } else {
            let w = v - 0x10000;
            out.push((0xD800 + w / 0x400) as u16);
            out.push((0xDC00 + w % 0x400) as u16);
        }
        assert(s@.take(k + 1).drop_last() =~= s@.take(k as int));
        k += 1;
        assert(out@ =~= utf16_of(s@.take(k as int)));
    }
    assert(s@.take(cs@.len() as int) =~= s@);
    out
}

/// Every character of `s` encodes to at least one code unit.
pub proof fn lemma_utf16_nonempty(s: Seq<char>)
    requires
        s.len() > 0,
    ensures
        utf16_of(s).len() > 0,
    decreases s.len(),
{
    if s.len() > 1 {
        lemma_utf16_nonempty(s.drop_last());
    }
}

/// A character below U+0100 is one code unit of the same value.
pub proof fn lemma_utf16_latin1(s: Seq<char>)
    requires
        forall|i: int| 0 <= i < s.len() ==> (s[i] as u32) < 256,
    ensures
        utf16_of(s) == Seq::new(s.len(), |i: int| s[i] as u32 as u16),
    decreases s.len(),
{
    if s.len() > 0 {
        lemma_utf16_latin1(s.drop_last());
        assert(utf16_of(s) =~= Seq::new(s.len(), |i: int| s[i] as u32 as u16));
    } else {
        assert(utf16_of(s) =~= Seq::new(s.len(), |i: int| s[i] as u32 as u16));
    }
}

/// Whether two strings hold the same characters.
pub(crate) fn same_text(a: &str, b: &str) -> (r: bool)
    ensures
        r == (a@ == b@),
{
    a.to_owned() == b.to_owned()
}

/// Builds the string `a` followed by `b`.
pub(crate) fn concat(a: &str, b: &str) -> (r: String)
    ensures
        r@ == a@ + b@,
{
    let mut s = a.to_owned();
    s.append(b);
    s
}

} // verus!
