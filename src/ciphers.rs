//! Primitive transforms: the UTF-16 stream cipher, reversal and positional
//! substitution.
use vstd::prelude::*;
use crate::codec::is_latin1;
use crate::text::{chars_of, encode_utf16, lemma_utf16_latin1, lemma_utf16_nonempty, string_from_chars, utf16_of};

verus! {

/// The characters of `s` in the opposite order.
pub open spec fn reversed(s: Seq<char>) -> Seq<char> {
    Seq::new(s.len(), |i: int| s[s.len() - 1 - i])
}

/// The characters of `input` in reverse order.
pub fn reverse(input: &str) -> (r: String)
    ensures
        r@ == reversed(input@),
{
    let cs = chars_of(input);
    let n = cs.len();
    let mut out: Vec<char> = Vec::new();
    let mut k: usize = 0;
    while k < n
        invariant
            n == cs@.len(),
            cs@ == input@,
            k <= n,
            out@ == reversed(input@).take(k as int),
        decreases n - k,
    {
        out.push(cs[n - 1 - k]);
        k += 1;
        assert(out@ =~= reversed(input@).take(k as int));
    }
    assert(out@ =~= reversed(input@));
    string_from_chars(&out)
}

/// Reversing twice gives back the same text.
pub proof fn lemma_reverse_involutive(s: Seq<char>)
    ensures
        reversed(reversed(s)) == s,
{
    assert(reversed(reversed(s)) =~= s);
}

/// Why a primitive transform refused its input.
#[derive(Debug, PartialEq, Eq, Structural, Clone, Copy)]
pub enum TransformError {
    /// The stream cipher was given an empty key.
    InvalidKey,
    /// The input is not valid base64 or percent-encoding.
    CodecError,
}

/// The permutation table with entries `i` and `j` exchanged.
pub open spec fn swapped(s: Seq<u8>, i: int, j: int) -> Seq<u8> {
    s.update(i, s[j]).update(j, s[i])
}

/// The table and the index `j` after the first `n` rounds of key scheduling.
pub open spec fn key_schedule(key: Seq<u16>, n: nat) -> (Seq<u8>, int)
    decreases n,
{
    if n == 0 {
        (Seq::new(256, |i: int| i as u8), 0)
    } else {
        let (s, j) = key_schedule(key, (n - 1) as nat);
        let i = n - 1;
        let j2 = (j + s[i] as int + key[i % key.len() as int] as int) % 256;
        (swapped(s, i, j2), j2)
    }
}

/// The table and the indices `i`, `j` after `n` units of keystream.
pub open spec fn keystream_state(key: Seq<u16>, n: nat) -> (Seq<u8>, int, int)
    decreases n,
{
    if n == 0 {
        (key_schedule(key, 256).0, 0, 0)
    } else {
        let (s, i, j) = keystream_state(key, (n - 1) as nat);
        let i2 = (i + 1) % 256;
        let j2 = (j + s[i2] as int) % 256;
        (swapped(s, i2, j2), i2, j2)
    }
}

/// The keystream byte that masks unit `n` (counting from 0).
pub open spec fn keystream_byte(key: Seq<u16>, n: nat) -> u8 {
    let (s, i, j) = keystream_state(key, n + 1);
    s[(s[i] as int + s[j] as int) % 256]
}

/// The low byte of a unit XORed with the keystream byte at its position.
pub open spec fn masked_unit(key: Seq<u16>, data: Seq<u16>, n: int) -> u8 {
    ((data[n] ^ (keystream_byte(key, n as nat) as u16)) % 256) as u8
}

/// The text the stream cipher makes of `data` under `key`: one character per
/// UTF-16 unit of `data`, each the masked low byte read as a code point.
pub open spec fn rc4_text(key: Seq<char>, data: Seq<char>) -> Seq<char> {
    let k = utf16_of(key);
    let d = utf16_of(data);
    Seq::new(d.len(), |n: int| masked_unit(k, d, n) as char)
}

proof fn lemma_key_schedule_bounds(key: Seq<u16>, n: nat)
    requires
        key.len() > 0,
        n <= 256,
    ensures
        key_schedule(key, n).0.len() == 256,
        0 <= key_schedule(key, n).1 < 256,
    decreases n,
{
    if n > 0 {
        lemma_key_schedule_bounds(key, (n - 1) as nat);
    }
}

proof fn lemma_keystream_bounds(key: Seq<u16>, n: nat)
    requires
        key.len() > 0,
    ensures
        keystream_state(key, n).0.len() == 256,
        0 <= keystream_state(key, n).1 < 256,
        0 <= keystream_state(key, n).2 < 256,
    decreases n,
{
    if n == 0 {
        lemma_key_schedule_bounds(key, 256);
    } else {
        lemma_keystream_bounds(key, (n - 1) as nat);
    }
}

/// The UTF-16 stream cipher: each unit of `data` is XORed with the keystream
/// of `key`, cut to its low byte, and read back as a character. Fails only on
/// an empty key.
pub fn rc4(key: &str, data: &str) -> (r: Result<String, TransformError>)
    ensures
        key@.len() == 0 ==> r == Err::<String, TransformError>(TransformError::InvalidKey),
        key@.len() > 0 ==> r is Ok && r->Ok_0@ == rc4_text(key@, data@),
{
    let key16 = encode_utf16(key);
    proof {
        if key@.len() > 0 {
            lemma_utf16_nonempty(key@);
        }
    }
    if key16.len() == 0 {
        return Err(TransformError::InvalidKey);
    }
    let ghost k = key16@;
    let mut s: Vec<u8> = Vec::new();
    let mut x: usize = 0;
    while x < 256
        invariant
            x <= 256,
            s@ == Seq::new(x as nat, |i: int| i as u8),
        decreases 256 - x,
    {
        s.push(x as u8);
        x += 1;
        assert(s@ =~= Seq::new(x as nat, |i: int| i as u8));
    }
    let mut j: usize = 0;
    let mut i: usize = 0;
    while i < 256
        invariant
            i <= 256,
            k == key16@,
            k.len() > 0,
            (s@, j as int) == key_schedule(k, i as nat),
        decreases 256 - i,
    {
        proof { lemma_key_schedule_bounds(k, i as nat); }
        j = (j + s[i] as usize + key16[i % key16.len()] as usize) % 256;
        let si = s[i];
        let sj = s[j];
        s.set(i, sj);
        s.set(j, si);
        i += 1;
        assert(s@ =~= key_schedule(k, i as nat).0);
    }
    let data16 = encode_utf16(data);
    let ghost d = data16@;
    let mut out: Vec<char> = Vec::new();
    i = 0;
    j = 0;
    let mut n: usize = 0;
    while n < data16.len()
        invariant
            k.len() > 0,
            d == data16@,
            n <= d.len(),
            (s@, i as int, j as int) == keystream_state(k, n as nat),
            out@ == Seq::new(n as nat, |m: int| masked_unit(k, d, m) as char),
        decreases d.len() - n,
    {
        proof { lemma_keystream_bounds(k, n as nat); }
        i = (i + 1) % 256;
        j = (j + s[i] as usize) % 256;
        let si = s[i];
        let sj = s[j];
        s.set(i, sj);
        s.set(j, si);
        assert(s@ =~= keystream_state(k, (n + 1) as nat).0);
        proof { lemma_keystream_bounds(k, (n + 1) as nat); }
        let ks = s[(s[i] as usize + s[j] as usize) % 256];
        let b = ((data16[n] ^ (ks as u16)) % 256) as u8;
        out.push(b as char);
        n += 1;
        assert(out@ =~= Seq::new(n as nat, |m: int| masked_unit(k, d, m) as char));
    }
    assert(out@ =~= rc4_text(key@, data@));
    Ok(string_from_chars(&out))
}

/// The cipher is a function of its key and its text alone: two runs on the
/// same key and text give the same output, since each run schedules the key
/// afresh and no state carries over.
pub proof fn lemma_rc4_repeatable(k1: Seq<char>, d1: Seq<char>, k2: Seq<char>, d2: Seq<char>)
    requires
        k1 == k2,
        d1 == d2,
    ensures
        rc4_text(k1, d1) == rc4_text(k2, d2),
        forall|n: nat| keystream_byte(utf16_of(k1), n) == keystream_byte(utf16_of(k2), n),
{
}

proof fn lemma_xor_low_byte_twice(a: u16, k: u16)
    requires
        a < 256,
        k < 256,
    ensures
        (((a ^ k) % 256) ^ k) % 256 == a,
        (a ^ k) % 256 < 256,
{
    assert((((a ^ k) % 256) ^ k) % 256 == a) by (bit_vector)
        requires
            a < 256,
            k < 256,
    ;
}

/// The output of the cipher holds only characters up to U+00FF.
pub proof fn lemma_rc4_latin1(key: Seq<char>, data: Seq<char>)
    ensures
        is_latin1(rc4_text(key, data)),
{
}

/// On text of characters up to U+00FF, applying the cipher twice with one key
/// gives the text back.
pub proof fn lemma_rc4_involutive(key: Seq<char>, t: Seq<char>)
    requires
        is_latin1(t),
    ensures
        rc4_text(key, rc4_text(key, t)) == t,
{
    let k = utf16_of(key);
    let x = rc4_text(key, t);
    lemma_utf16_latin1(t);
    lemma_rc4_latin1(key, t);
    lemma_utf16_latin1(x);
    let y = rc4_text(key, x);
    assert forall|n: int| 0 <= n < t.len() implies #[trigger] y[n] == t[n] by {
        let a = t[n] as u32 as u16;
        let ks = keystream_byte(k, n as nat) as u16;
        lemma_xor_low_byte_twice(a, ks);
        let b = ((a ^ ks) % 256) as u8;
        assert(x[n] == b as char);
        assert(x[n] as u32 as u16 == b as u16);
        assert(masked_unit(k, utf16_of(x), n) == a as u8);
        let u = t[n] as u32;
        assert((a as u8) as char as u32 == u);
        vstd::utf8::char_u32_cast(t[n], u);
    }
    assert(y =~= t);
}

/// What the substitution with `search` and `repl` makes of `c`, looking at the
/// first `n` pairs: the partner of the last pair whose search character is `c`,
/// or `c` itself where no pair has it.
pub open spec fn substituted_char(c: char, search: Seq<char>, repl: Seq<char>, n: int) -> char
    decreases n,
{
    if n <= 0 {
        c
    } else if search[n - 1] == c {
        repl[n - 1]
    } else {
        substituted_char(c, search, repl, n - 1)
    }
}

/// The number of pairs that `search` and `repl` form.
pub open spec fn pair_count(search: Seq<char>, repl: Seq<char>) -> int {
    if search.len() <= repl.len() { search.len() as int } else { repl.len() as int }
}

/// Each character of `s` put through the substitution.
pub open spec fn substituted(s: Seq<char>, search: Seq<char>, repl: Seq<char>) -> Seq<char> {
    Seq::new(s.len(), |i: int| substituted_char(s[i], search, repl, pair_count(search, repl)))
}

/// Positional substitution: each character of `input` that occurs in
/// `search_chars` becomes the character at the same position of
/// `replace_chars` (the last such position where it occurs more than once);
/// the other characters pass unchanged.
pub fn replace(input: &str, search_chars: &str, replace_chars: &str) -> (r: String)
    ensures
        r@ == substituted(input@, search_chars@, replace_chars@),
{
    let cs = chars_of(input);
    let search = chars_of(search_chars);
    let repl = chars_of(replace_chars);
    let pairs: usize = if search.len() <= repl.len() { search.len() } else { repl.len() };
    let mut out: Vec<char> = Vec::new();
    let mut k: usize = 0;
    while k < cs.len()
        invariant
            cs@ == input@,
            search@ == search_chars@,
            repl@ == replace_chars@,
            pairs == pair_count(search@, repl@),
            k <= cs@.len(),
            out@ == substituted(input@, search@, repl@).take(k as int),
        decreases cs@.len() - k,
    {
        let c = cs[k];
        let mut m: usize = pairs;
        let mut found: Option<char> = None;
        while m > 0 && found.is_none()
            invariant
                m <= pairs,
                pairs <= search@.len(),
                pairs <= repl@.len(),
                found is None ==> substituted_char(c, search@, repl@, pairs as int)
                    == substituted_char(c, search@, repl@, m as int),
                found is Some ==> substituted_char(c, search@, repl@, pairs as int)
                    == found->Some_0,
            decreases m,
        {
            if search[m - 1] == c {
                found = Some(repl[m - 1]);
            }
            m -= 1;
        }
        let d = match found {
            Some(d) => d,
            None => c,
        };
        out.push(d);
        k += 1;
        assert(out@ =~= substituted(input@, search@, repl@).take(k as int));
    }
    assert(out@ =~= substituted(input@, search@, repl@));
    string_from_chars(&out)
}

/// No character occurs twice in `s`.
pub open spec fn all_distinct(s: Seq<char>) -> bool {
    forall|i: int, j: int| 0 <= i < j < s.len() ==> s[i] != s[j]
}

/// A substitution table as the transforms expect it: two strings of equal
/// length, each without repeated characters.
pub open spec fn valid_substitution(search: Seq<char>, repl: Seq<char>) -> bool {
    &&& search.len() == repl.len()
    &&& all_distinct(search)
    &&& all_distinct(repl)
}

proof fn lemma_substituted_char_at(c: char, search: Seq<char>, repl: Seq<char>, n: int, j: int)
    requires
        all_distinct(search),
        0 <= j < n <= search.len(),
        n <= repl.len(),
        search[j] == c,
    ensures
        substituted_char(c, search, repl, n) == repl[j],
    decreases n,
{
    if n - 1 != j {
        lemma_substituted_char_at(c, search, repl, n - 1, j);
    }
}

proof fn lemma_substituted_char_absent(c: char, search: Seq<char>, repl: Seq<char>, n: int)
    requires
        n <= search.len(),
        forall|j: int| 0 <= j < n ==> search[j] != c,
    ensures
        substituted_char(c, search, repl, n) == c,
    decreases n,
{
    if n > 0 {
        lemma_substituted_char_absent(c, search, repl, n - 1);
    }
}

/// Substituting with `a` for `b` and then with `b` for `a` gives back every
/// text that holds no character of `b` missing from `a`.
pub proof fn lemma_substitute_round_trip(s: Seq<char>, a: Seq<char>, b: Seq<char>)
    requires
        valid_substitution(a, b),
        forall|i: int, j: int| 0 <= i < s.len() && 0 <= j < b.len() && s[i] == b[j]
            ==> a.contains(s[i]),
    ensures
        substituted(substituted(s, a, b), b, a) == s,
{
    let n = a.len() as int;
    assert forall|i: int| 0 <= i < s.len() implies
        #[trigger] substituted_char(substituted_char(s[i], a, b, n), b, a, n) == s[i] by {
        let c = s[i];
        if a.contains(c) {
            let j = choose|j: int| 0 <= j < a.len() && a[j] == c;
            lemma_substituted_char_at(c, a, b, n, j);
            lemma_substituted_char_at(b[j], b, a, n, j);
        } else {
            lemma_substituted_char_absent(c, a, b, n);
            if b.contains(c) {
                let j = choose|j: int| 0 <= j < b.len() && b[j] == c;
                assert(a.contains(s[i]));
            }
            lemma_substituted_char_absent(c, b, a, n);
        }
    }
    assert(substituted(substituted(s, a, b), b, a) =~= s);
}

/// With disjoint character sets, substituting forth and back gives back every
/// text that holds no character of `b`.
pub proof fn lemma_substitute_disjoint_round_trip(s: Seq<char>, a: Seq<char>, b: Seq<char>)
    requires
        valid_substitution(a, b),
        forall|i: int, j: int| 0 <= i < a.len() && 0 <= j < b.len() ==> a[i] != b[j],
        forall|i: int, j: int| 0 <= i < s.len() && 0 <= j < b.len() ==> s[i] != b[j],
    ensures
        substituted(substituted(s, a, b), b, a) == s,
{
    lemma_substitute_round_trip(s, a, b);
}

/// A permutation table: each character of `b` stands in `a`, at the index
/// that `at` gives for it.
pub open spec fn permutes(a: Seq<char>, b: Seq<char>, at: Seq<int>) -> bool {
    &&& valid_substitution(a, b)
    &&& at.len() == b.len()
    &&& forall|j: int| 0 <= j < b.len() ==> 0 <= #[trigger] at[j] < a.len() && a[at[j]] == b[j]
}

/// Where `b` is a rearrangement of `a`, substituting forth and back gives back
/// every text.
pub proof fn lemma_substitute_permutation_round_trip(s: Seq<char>, a: Seq<char>, b: Seq<char>, at: Seq<int>)
    requires
        permutes(a, b, at),
    ensures
        substituted(substituted(s, a, b), b, a) == s,
{
    assert forall|i: int, j: int| 0 <= i < s.len() && 0 <= j < b.len() && s[i] == b[j]
        implies a.contains(s[i]) by {
        assert(a[at[j]] == b[j]);
    }
    lemma_substitute_round_trip(s, a, b);
}

proof fn lemma_substituted_char_in(c: char, search: Seq<char>, repl: Seq<char>, n: int)
    requires
        n <= repl.len(),
    ensures
        substituted_char(c, search, repl, n) == c
            || exists|j: int| 0 <= j < n && repl[j] == substituted_char(c, search, repl, n),
    decreases n,
{
    if n > 0 && search[n - 1] != c {
        lemma_substituted_char_in(c, search, repl, n - 1);
    }
}

/// Substitution with a replacement string of characters up to U+00FF keeps
/// text within U+00FF.
pub proof fn lemma_substituted_latin1(s: Seq<char>, a: Seq<char>, b: Seq<char>)
    requires
        is_latin1(s),
        is_latin1(b),
    ensures
        is_latin1(substituted(s, a, b)),
{
    assert forall|i: int| 0 <= i < s.len() implies
        (#[trigger] substituted(s, a, b)[i] as u32) < 256 by {
        lemma_substituted_char_in(s[i], a, b, pair_count(a, b));
    }
}

/// Reversal keeps text within U+00FF.
pub proof fn lemma_reversed_latin1(s: Seq<char>)
    requires
        is_latin1(s),
    ensures
        is_latin1(reversed(s)),
{
    assert forall|i: int| 0 <= i < s.len() implies (#[trigger] reversed(s)[i] as u32) < 256 by {
        assert(reversed(s)[i] == s[s.len() - 1 - i]);
    }
}

} // verus!
