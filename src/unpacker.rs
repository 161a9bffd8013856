//! De-packing of `eval(function(p,a,c,k,e,d){...}(...))` scripts: the packed
//! payload's radix tokens are replaced by the words of its symbol table.
use vstd::prelude::*;
use regex::Regex;
use crate::text::{chars_of, string_from_chars};

verus! {

/// The digit of value `d` in the packer's 64-character alphabet: digits,
/// lower-case letters, upper-case letters, `+` and `/`.
pub open spec fn radix_digit(d: int) -> char {
    if d < 10 {
        (48 + d) as u8 as char
    } else if d < 36 {
        (87 + d) as u8 as char
    } else if d < 62 {
        (29 + d) as u8 as char
    } else if d == 62 {
        '+'
    } else {
        '/'
    }
}

/// The digits of a positive `n` in base `base`, most significant first.
pub open spec fn radix_digits(n: nat, base: nat) -> Seq<char>
    decreases n,
{
    if base < 2 || n == 0 {
        seq![]
    } else {
        proof { vstd::arithmetic::div_mod::lemma_div_decreases(n as int, base as int); }
        radix_digits(n / base, base).push(radix_digit((n % base) as int))
    }
}

/// `x` written in base `base`: `0` for zero, a leading `-` for negatives.
pub open spec fn radix_text(x: int, base: nat) -> Seq<char> {
    if x == 0 {
        seq!['0']
    } else if x < 0 {
        seq!['-'] + radix_digits((-x) as nat, base)
    } else {
        radix_digits(x as nat, base)
    }
}

fn digit_char(d: i32) -> (c: char)
    requires
        0 <= d < 64,
    ensures
        c == radix_digit(d as int),
{
    if d < 10 {
        ((48 + d) as u8) as char
    } else if d < 36 {
        ((87 + d) as u8) as char
    } else if d < 62 {
        ((29 + d) as u8) as char
    } else if d == 62 {
        '+'
    } else {
        '/'
    }
}

/// Writes `x` in base `base` with the packer's alphabet.
pub fn int_2_base(x: i32, base: i32) -> (r: String)
    requires
        x == 0 || (2 <= base <= 64 && x > i32::MIN),
    ensures
        r@ == radix_text(x as int, base as nat),
{
    if x == 0 {
        let v: Vec<char> = vec!['0'];
        assert(v@ =~= seq!['0']);
        return string_from_chars(&v);
    }
    let negative = x < 0;
    let mut n: i32 = if negative { -x } else { x };
    let ghost total: nat = n as nat;
    let mut digits: Vec<char> = Vec::new();
    while n != 0
        invariant
            2 <= base <= 64,
            n >= 0,
            radix_digits(total, base as nat) == radix_digits(n as nat, base as nat)
                + digits@.reverse(),
        decreases n,
    {
        let d = n % base;
        let ghost before = digits@;
        digits.push(digit_char(d));
        assert(radix_digits(n as nat, base as nat) == radix_digits((n / base) as nat, base as nat).push(
            radix_digit(d as int),
        ));
        assert(digits@.reverse() =~= seq![radix_digit(d as int)] + before.reverse());
        n = n / base;
    }
    assert(radix_digits(0, base as nat) == Seq::<char>::empty());
    let mut out: Vec<char> = Vec::new();
    if negative {
        out.push('-');
    }
    let mut k: usize = digits.len();
    let ghost start = out@;
    while k > 0
        invariant
            k <= digits@.len(),
            out@ == start + digits@.reverse().take(digits@.len() - k),
        decreases k,
    {
        k -= 1;
        out.push(digits[k]);
        assert(out@ =~= start + digits@.reverse().take(digits@.len() - k));
    }
    assert(digits@.reverse().take(digits@.len() as int) =~= digits@.reverse());
    assert(out@ =~= radix_text(x as int, base as nat));
    string_from_chars(&out)
}

/// The pieces of `s` between occurrences of `sep`, in order; one empty piece
/// for empty text.
pub open spec fn split_on(s: Seq<char>, sep: char) -> Seq<Seq<char>>
    decreases s.len(),
{
    if s.len() == 0 {
        seq![seq![]]
    } else {
        let rest = split_on(s.drop_last(), sep);
        if s.last() == sep {
            rest.push(seq![])
        } else {
            rest.update(rest.len() - 1, rest.last().push(s.last()))
        }
    }
}

/// Splits `s` at every `sep`.
pub fn split_at_char(s: &str, sep: char) -> (r: Vec<String>)
    ensures
        r.deep_view() == split_on(s@, sep),
{
    let cs = chars_of(s);
    let mut done: Vec<String> = Vec::new();
    let mut cur: Vec<char> = Vec::new();
    let mut k: usize = 0;
    while k < cs.len()
        invariant
            cs@ == s@,
            k <= cs@.len(),
            split_on(s@.take(k as int), sep) == done.deep_view().push(cur@),
        decreases cs@.len() - k,
    {
        let c = cs[k];
        assert(s@.take(k + 1).drop_last() =~= s@.take(k as int));
        if c == sep {
            let piece = string_from_chars(&cur);
            done.push(piece);
            cur = Vec::new();
            assert(done.deep_view().push(cur@) =~= split_on(s@.take(k + 1), sep));
        } else {
            cur.push(c);
            assert(done.deep_view().push(cur@) =~= split_on(s@.take(k + 1), sep));
        }
        k += 1;
    }
    let piece = string_from_chars(&cur);
    done.push(piece);
    assert(s@.take(cs@.len() as int) =~= s@);
    assert(done.deep_view() =~= split_on(s@, sep));
    done
}

/// The value of a string of ASCII decimal digits.
pub open spec fn decimal_value(s: Seq<char>) -> int
    decreases s.len(),
{
    if s.len() == 0 {
        0
    } else {
        decimal_value(s.drop_last()) * 10 + (s.last() as u32 - 48)
    }
}

/// Every character is an ASCII decimal digit.
pub open spec fn is_decimal(s: Seq<char>) -> bool {
    forall|i: int| 0 <= i < s.len() ==> 48 <= (#[trigger] s[i] as u32) <= 57
}

/// The number that the digits `s` write, where there is at least one digit,
/// nothing else, and the value fits in an `i32`.
pub open spec fn parsed_count(s: Seq<char>) -> Option<i32> {
    if s.len() > 0 && is_decimal(s) && decimal_value(s) <= i32::MAX {
        Some(decimal_value(s) as i32)
    } else {
        None
    }
}

proof fn lemma_decimal_value_monotone(s: Seq<char>, k: int)
    requires
        is_decimal(s),
        0 <= k <= s.len(),
    ensures
        0 <= decimal_value(s.take(k)) <= decimal_value(s),
    decreases s.len() - k,
{
    if k < s.len() {
        lemma_decimal_value_monotone(s, k + 1);
        assert(s.take(k + 1).drop_last() =~= s.take(k));
    } else {
        assert(s.take(k) =~= s);
    }
    if k > 0 {
        lemma_decimal_value_nonneg(s.take(k));
    }
}

proof fn lemma_decimal_value_nonneg(s: Seq<char>)
    requires
        is_decimal(s),
    ensures
        decimal_value(s) >= 0,
    decreases s.len(),
{
    if s.len() > 0 {
        lemma_decimal_value_nonneg(s.drop_last());
    }
}

/// Reads an unsigned decimal number that fits in an `i32`.
pub fn parse_digits(s: &str) -> (r: Option<i32>)
    ensures
        r == parsed_count(s@),
{
    let cs = chars_of(s);
    if cs.len() == 0 {
        return None;
    }
    let mut value: i64 = 0;
    let mut k: usize = 0;
    while k < cs.len()
        invariant
            cs@ == s@,
            k <= cs@.len(),
            is_decimal(s@.take(k as int)),
            value == decimal_value(s@.take(k as int)),
            0 <= value <= i32::MAX,
        decreases cs@.len() - k,
    {
        let c = cs[k];
        assert(s@.take(k + 1).drop_last() =~= s@.take(k as int));
        if (c as u32) < 48 || (c as u32) > 57 {
            assert(!is_decimal(s@)) by {
                assert(s@[k as int] == c);
            }
            return None;
        }
        value = value * 10 + (c as u32 - 48) as i64;
        k += 1;
        assert(is_decimal(s@.take(k as int)));
        if value > i32::MAX as i64 {
            proof {
                assert(s@.take(cs@.len() as int) =~= s@);
                if is_decimal(s@) {
                    lemma_decimal_value_monotone(s@, k as int);
                }
            }
            return None;
        }
    }
    assert(s@.take(cs@.len() as int) =~= s@);
    Some(value as i32)
}

/// The packer call with its trailing evaluator arguments.
pub const FULL_CALL: &'static str = r"(?s)}\('(.*)', *(\d+), *(\d+), *'(.*)'\.split\('\|'\), *(\d+), *(.*)\)\)";

/// The packer call up to its symbol table.
pub const SHORT_CALL: &'static str = r"(?s)}\('(.*)', *(\d+), *(\d+), *'(.*)'\.split\('\|'\)";

/// The capture groups of the first match of `pattern` in `text`.
pub uninterp spec fn regex_captures_of(pattern: Seq<char>, text: Seq<char>) -> Option<Seq<Option<Seq<char>>>>;

/// The text with every match of `pattern` replaced by `replacement`.
pub uninterp spec fn regex_replace_all_of(pattern: Seq<char>, text: Seq<char>, replacement: Seq<char>) -> Option<Seq<char>>;

/// Relies on `regex::Regex::new` and `Regex::captures`: the groups of the
/// leftmost-first match, group 0 first, `None` for a group that took no part;
/// `None` where the pattern does not compile or nothing matches.
#[verifier::external_body]
pub(crate) fn regex_captures(pattern: &str, text: &str) -> (r: Option<Vec<Option<String>>>)
    ensures
        r.deep_view() == regex_captures_of(pattern@, text@),
{
    let caps = Regex::new(pattern).ok()?.captures(text)?;
    Some(caps.iter().map(|m| m.map(|m| m.as_str().to_string())).collect())
}

/// Relies on `regex::Regex::new` and `Regex::replace_all`: every
/// non-overlapping match replaced; `None` where the pattern does not compile.
#[verifier::external_body]
fn regex_replace_all(pattern: &str, text: &str, replacement: &str) -> (r: Option<String>)
    ensures
        r.deep_view() == regex_replace_all_of(pattern@, text@, replacement@),
{
    Regex::new(pattern).ok().map(|re| re.replace_all(text, replacement).into_owned())
}

/// The arguments of a packer call.
#[derive(Debug)]
pub struct PackedArgs {
    /// The packed payload.
    pub payload: String,
    /// The base that the tokens are written in.
    pub radix: i32,
    /// The number of tokens.
    pub count: i32,
    /// The words that the tokens stand for, by index.
    pub symtab: Vec<String>,
}

impl PackedArgs {
    /// Payload, radix, count and symbol table as plain values.
    pub open spec fn view_tuple(&self) -> (Seq<char>, i32, i32, Seq<Seq<char>>) {
        (self.payload@, self.radix, self.count, self.symtab.deep_view())
    }
}

/// The arguments that the capture groups of a packer call give: payload,
/// radix, count and `|`-separated symbol table, from groups one to four.
pub open spec fn args_of_groups(g: Seq<Option<Seq<char>>>) -> Option<(Seq<char>, i32, i32, Seq<Seq<char>>)> {
    if g.len() < 5 || g[1] is None || g[2] is None || g[3] is None || g[4] is None {
        None
    } else {
        match (parsed_count(g[2]->Some_0), parsed_count(g[3]->Some_0)) {
            (Some(radix), Some(count)) => Some(
                (g[1]->Some_0, radix, count, split_on(g[4]->Some_0, '|')),
            ),
            _ => None,
        }
    }
}

/// Reads the packer arguments out of the capture groups of a packer call.
pub fn args_from_captures(groups: &Vec<Option<String>>) -> (r: Option<PackedArgs>)
    ensures
        match args_of_groups(groups.deep_view()) {
            Some(t) => r is Some && r->Some_0.view_tuple() == t,
            None => r is None,
        },
{
    if groups.len() < 5 {
        return None;
    }
    let payload = match &groups[1] {
        Some(p) => p,
        None => return None,
    };
    let radix_text = match &groups[2] {
        Some(p) => p,
        None => return None,
    };
    let count_text = match &groups[3] {
        Some(p) => p,
        None => return None,
    };
    let symbols = match &groups[4] {
        Some(p) => p,
        None => return None,
    };
    assert(groups.deep_view()[1] == Some(payload@));
    assert(groups.deep_view()[2] == Some(radix_text@));
    assert(groups.deep_view()[3] == Some(count_text@));
    assert(groups.deep_view()[4] == Some(symbols@));
    let radix = match parse_digits(radix_text.as_str()) {
        Some(v) => v,
        None => return None,
    };
    let count = match parse_digits(count_text.as_str()) {
        Some(v) => v,
        None => return None,
    };
    let symtab = split_at_char(symbols.as_str(), '|');
    Some(PackedArgs { payload: payload.as_str().to_owned(), radix, count, symtab })
}

/// The packer arguments of a script: the first of the two call shapes that
/// matches decides.
pub open spec fn filter_args_spec(source: Seq<char>) -> Option<(Seq<char>, i32, i32, Seq<Seq<char>>)> {
    match regex_captures_of(FULL_CALL@, source) {
        Some(g) => args_of_groups(g),
        None => match regex_captures_of(SHORT_CALL@, source) {
            Some(g) => args_of_groups(g),
            None => None,
        },
    }
}

/// Finds the packer call in a script and reads its arguments.
pub fn filter_args(source: &str) -> (r: Option<PackedArgs>)
    ensures
        match filter_args_spec(source@) {
            Some(t) => r is Some && r->Some_0.view_tuple() == t,
            None => r is None,
        },
{
    match regex_captures(FULL_CALL, source) {
        Some(g) => args_from_captures(&g),
        None => match regex_captures(SHORT_CALL, source) {
            Some(g) => args_from_captures(&g),
            None => None,
        },
    }
}

/// Characters that the regex syntax gives a meaning of their own.
pub open spec fn is_regex_meta(c: char) -> bool {
    c == '\\' || c == '.' || c == '+' || c == '*' || c == '?' || c == '(' || c == ')' || c == '|'
        || c == '[' || c == ']' || c == '{' || c == '}' || c == '^' || c == '$' || c == '#'
        || c == '&' || c == '-' || c == '~'
}

/// `s` with a backslash before every regex meta character, so that it
/// matches itself literally.
pub open spec fn regex_escaped(s: Seq<char>) -> Seq<char>
    decreases s.len(),
{
    if s.len() == 0 {
        seq![]
    } else {
        let c = s.last();
        regex_escaped(s.drop_last()) + if is_regex_meta(c) { seq!['\\', c] } else { seq![c] }
    }
}

/// Relies on `regex::escape`: a backslash goes before each meta character
/// (`regex_syntax::is_meta_character`), every other character stays.
#[verifier::external_body]
fn escape(s: &str) -> (r: String)
    ensures
        r@ == regex_escaped(s@),
{
    regex::escape(s)
}

/// The pattern that matches `token` literally as a whole word.
pub open spec fn word_pattern(token: Seq<char>) -> Seq<char> {
    seq!['\\', 'b'] + regex_escaped(token) + seq!['\\', 'b']
}

/// The payload after the tokens of indices `i - 1` down to `0` have been
/// replaced, highest first; a token whose word is empty stays.
pub open spec fn replace_tokens(p: Seq<char>, radix: int, symtab: Seq<Seq<char>>, i: int) -> Option<Seq<char>>
    decreases i,
{
    if i <= 0 {
        Some(p)
    } else if symtab[i - 1].len() == 0 {
        replace_tokens(p, radix, symtab, i - 1)
    } else {
        match regex_replace_all_of(word_pattern(radix_text(i - 1, radix as nat)), p, symtab[i - 1]) {
            Some(q) => replace_tokens(q, radix, symtab, i - 1),
            None => None,
        }
    }
}

/// What unpacking gives: the payload itself without tokens; `None` where
/// the symbol table is shorter than the token count, or where tokens past
/// index 0 exist (index 0 is `0` in any base) and the radix is outside
/// 2..=64.
pub open spec fn unpacked(p: Seq<char>, radix: int, count: int, symtab: Seq<Seq<char>>) -> Option<Seq<char>> {
    if count <= 0 {
        Some(p)
    } else if count > symtab.len() || (count > 1 && (radix < 2 || radix > 64)) {
        None
    } else {
        replace_tokens(p, radix, symtab, count)
    }
}

fn word_pattern_of(token: &str) -> (r: String)
    ensures
        r@ == word_pattern(token@),
{
    let escaped = escape(token);
    let t = chars_of(escaped.as_str());
    let mut v: Vec<char> = vec!['\\', 'b'];
    let mut k: usize = 0;
    while k < t.len()
        invariant
            t@ == regex_escaped(token@),
            k <= t@.len(),
            v@ == seq!['\\', 'b'] + t@.take(k as int),
        decreases t@.len() - k,
    {
        v.push(t[k]);
        k += 1;
        assert(v@ =~= seq!['\\', 'b'] + t@.take(k as int));
    }
    v.push('\\');
    v.push('b');
    assert(t@.take(t@.len() as int) =~= t@);
    assert(v@ =~= word_pattern(token@));
    string_from_chars(&v)
}

/// Replaces every whole-word token of `p`, from index `c - 1` down to `0`,
/// by its word in `k`.
pub fn unpack(p: &str, a: i32, c: i32, k: &Vec<String>) -> (r: Option<String>)
    ensures
        r.deep_view() == unpacked(p@, a as int, c as int, k.deep_view()),
{
    if c <= 0 {
        return Some(p.to_owned());
    }
    if c as usize > k.len() || (c > 1 && (a < 2 || a > 64)) {
        return None;
    }
    let mut cur = p.to_owned();
    let mut i: i32 = c;
    while i > 0
        invariant
            0 <= i <= c,
            c > 1 ==> 2 <= a <= 64,
            c <= k@.len(),
            unpacked(p@, a as int, c as int, k.deep_view())
                == replace_tokens(cur@, a as int, k.deep_view(), i as int),
        decreases i,
    {
        let idx = (i - 1) as usize;
        assert(k.deep_view()[idx as int] == k@[idx as int]@);
        if k[idx].as_str().unicode_len() > 0 {
            let token = int_2_base(i - 1, a);
            let pattern = word_pattern_of(token.as_str());
            match regex_replace_all(pattern.as_str(), cur.as_str(), k[idx].as_str()) {
                Some(q) => {
                    cur = q;
                },
                None => {
                    return None;
                },
            }
        }
        i -= 1;
    }
    Some(cur)
}

/// Unpacks a packed script: `None` where it holds no packer call or its
/// arguments cannot be unpacked.
pub open spec fn unpack_source_spec(source: Seq<char>) -> Option<Seq<char>> {
    match filter_args_spec(source) {
        Some((p, radix, count, symtab)) => unpacked(p, radix as int, count as int, symtab),
        None => None,
    }
}

/// Finds the packer call in `source` and expands its payload.
pub fn unpack_source(source: &str) -> (r: Option<String>)
    ensures
        r.deep_view() == unpack_source_spec(source@),
{
    let args = match filter_args(source) {
        Some(a) => a,
        None => return None,
    };
    unpack(args.payload.as_str(), args.radix, args.count, &args.symtab)
}

} // verus!
