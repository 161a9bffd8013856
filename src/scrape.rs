//! The rules that turn scraped page values into the library's types.
use vstd::prelude::*;
use crate::text::{chars_of, concat, same_text, string_from_chars};
use crate::unpacker::{radix_digits, regex_captures, regex_captures_of};
use crate::Episode;
use crate::{Caption, Locale, SkipType};

verus! {

/// The captions in order, without the thumbnail tracks.
pub open spec fn kept_captions(s: Seq<Caption>) -> Seq<Caption>
    decreases s.len(),
{
    if s.len() == 0 {
        seq![]
    } else {
        let rest = kept_captions(s.drop_first());
        if s[0].kind@ == "thumbnails"@ {
            rest
        } else {
            seq![s[0]] + rest
        }
    }
}

/// Drops the tracks of kind `thumbnails`, keeping the others in order.
pub fn drop_thumbnails(captions: Vec<Caption>) -> (r: Vec<Caption>)
    ensures
        r@ == kept_captions(captions@),
{
    let mut rest = captions;
    let mut out: Vec<Caption> = Vec::new();
    while rest.len() > 0
        invariant
            kept_captions(captions@) == out@ + kept_captions(rest@),
        decreases rest@.len(),
    {
        let ghost before = rest@;
        let c = rest.remove(0);
        assert(rest@ == before.drop_first());
        if !same_text(c.kind.as_str(), "thumbnails") {
            out.push(c);
        }
    }
    assert(out@ + kept_captions(rest@) =~= out@);
    out
}

/// The locale that an AnimeKai server's type suffix names.
pub open spec fn animekai_locale_spec(kind: Seq<char>) -> Option<Locale> {
    if kind == "sub"@ {
        Some(Locale::HardSub)
    } else if kind == "dub"@ {
        Some(Locale::Dub)
    } else if kind == "softsub"@ {
        Some(Locale::SoftSub)
    } else {
        None
    }
}

/// AnimeKai: `sub` is hard-subbed, `softsub` soft-subbed, `dub` dubbed.
pub fn animekai_locale(kind: &str) -> (r: Option<Locale>)
    ensures
        r == animekai_locale_spec(kind@),
{
    if same_text(kind, "sub") {
        Some(Locale::HardSub)
    } else if same_text(kind, "dub") {
        Some(Locale::Dub)
    } else if same_text(kind, "softsub") {
        Some(Locale::SoftSub)
    } else {
        None
    }
}

/// The locale that a HiAnime server's type names.
pub open spec fn hianime_locale_spec(kind: Seq<char>) -> Option<Locale> {
    if kind == "sub"@ {
        Some(Locale::SoftSub)
    } else if kind == "dub"@ {
        Some(Locale::Dub)
    } else if kind == "raw"@ {
        Some(Locale::Raw)
    } else {
        None
    }
}

/// HiAnime: `sub` is soft-subbed, `dub` dubbed, `raw` without subtitles.
pub fn hianime_locale(kind: &str) -> (r: Option<Locale>)
    ensures
        r == hianime_locale_spec(kind@),
{
    if same_text(kind, "sub") {
        Some(Locale::SoftSub)
    } else if same_text(kind, "dub") {
        Some(Locale::Dub)
    } else if same_text(kind, "raw") {
        Some(Locale::Raw)
    } else {
        None
    }
}

/// The locale that an AnimePahe stream's audio language names.
pub open spec fn animepahe_locale_spec(audio: Seq<char>) -> Option<Locale> {
    if audio == "eng"@ {
        Some(Locale::Dub)
    } else if audio == "jpn"@ {
        Some(Locale::HardSub)
    } else {
        None
    }
}

/// AnimePahe: English audio is dubbed, Japanese audio carries burnt-in subtitles.
pub fn animepahe_locale(audio: &str) -> (r: Option<Locale>)
    ensures
        r == animepahe_locale_spec(audio@),
{
    if same_text(audio, "eng") {
        Some(Locale::Dub)
    } else if same_text(audio, "jpn") {
        Some(Locale::HardSub)
    } else {
        None
    }
}

/// The kind of segment that an AniSkip skip type names.
pub open spec fn skip_type_spec(s: Seq<char>) -> Option<SkipType> {
    if s == "ed"@ || s == "mixed-ed"@ {
        Some(SkipType::Ed)
    } else if s == "op"@ || s == "mixed-op"@ {
        Some(SkipType::Op)
    } else if s == "recap"@ {
        Some(SkipType::Recap)
    } else {
        None
    }
}

/// Endings (also mixed), openings (also mixed) and recaps.
pub fn skip_type_of(s: &str) -> (r: Option<SkipType>)
    ensures
        r == skip_type_spec(s@),
{
    if same_text(s, "ed") || same_text(s, "mixed-ed") {
        Some(SkipType::Ed)
    } else if same_text(s, "op") || same_text(s, "mixed-op") {
        Some(SkipType::Op)
    } else if same_text(s, "recap") {
        Some(SkipType::Recap)
    } else {
        None
    }
}

/// A server's display name: its name, a middle dot and its locale.
pub fn server_name(name: &str, locale: Locale) -> (r: String)
    ensures
        r@ == name@ + " · "@ + locale.label_spec(),
{
    let head = concat(name, " · ");
    concat(head.as_str(), locale.label())
}

/// The index of the last `sep` in `s`, or -1.
pub open spec fn last_index_of(s: Seq<char>, sep: char) -> int
    decreases s.len(),
{
    if s.len() == 0 {
        -1
    } else if s.last() == sep {
        s.len() - 1
    } else {
        last_index_of(s.drop_last(), sep)
    }
}

proof fn lemma_last_index_of(s: Seq<char>, sep: char)
    ensures
        -1 <= last_index_of(s, sep) < s.len(),
        last_index_of(s, sep) >= 0 ==> s[last_index_of(s, sep)] == sep,
        forall|i: int| last_index_of(s, sep) < i < s.len() ==> s[i] != sep,
    decreases s.len(),
{
    if s.len() > 0 && s.last() != sep {
        lemma_last_index_of(s.drop_last(), sep);
        assert forall|i: int| last_index_of(s, sep) < i < s.len() implies s[i] != sep by {
            if i < s.len() - 1 {
                assert(s.drop_last()[i] == s[i]);
            }
        }
    }
}

/// The text after the last `sep`, where `s` holds one.
pub open spec fn after_last_spec(s: Seq<char>, sep: char) -> Option<Seq<char>> {
    if last_index_of(s, sep) < 0 {
        None
    } else {
        Some(s.skip(last_index_of(s, sep) + 1))
    }
}

/// The text after the last `sep`; `None` where there is none.
pub fn after_last(s: &str, sep: char) -> (r: Option<String>)
    ensures
        r.deep_view() == after_last_spec(s@, sep),
{
    let cs = chars_of(s);
    let mut k: usize = cs.len();
    while k > 0 && cs[k - 1] != sep
        invariant
            cs@ == s@,
            k <= cs@.len(),
            forall|i: int| k <= i < cs@.len() ==> cs@[i] != sep,
        decreases k,
    {
        k -= 1;
    }
    proof { lemma_last_index_of(s@, sep); }
    if k == 0 {
        return None;
    }
    let mut out: Vec<char> = Vec::new();
    let mut m: usize = k;
    while m < cs.len()
        invariant
            cs@ == s@,
            k <= m <= cs@.len(),
            out@ == s@.subrange(k as int, m as int),
        decreases cs@.len() - m,
    {
        out.push(cs[m]);
        m += 1;
        assert(out@ =~= s@.subrange(k as int, m as int));
    }
    assert(last_index_of(s@, sep) == k - 1);
    assert(out@ =~= s@.skip(k as int));
    Some(string_from_chars(&out))
}

/// The text before the first `sep`, or all of `s`.
pub open spec fn before_first_spec(s: Seq<char>, sep: char) -> Seq<char>
    decreases s.len(),
{
    if s.len() == 0 {
        s
    } else if s[0] == sep {
        seq![]
    } else {
        seq![s[0]] + before_first_spec(s.drop_first(), sep)
    }
}

/// The text before the first `sep`, or all of `s` where there is none.
pub fn before_first(s: &str, sep: char) -> (r: String)
    ensures
        r@ == before_first_spec(s@, sep),
{
    let cs = chars_of(s);
    let mut out: Vec<char> = Vec::new();
    let mut k: usize = 0;
    assert(s@.skip(0) =~= s@);
    assert(out@ + before_first_spec(s@, sep) =~= before_first_spec(s@, sep));
    while k < cs.len() && cs[k] != sep
        invariant
            cs@ == s@,
            k <= cs@.len(),
            before_first_spec(s@, sep) == out@ + before_first_spec(s@.skip(k as int), sep),
        decreases cs@.len() - k,
    {
        let ghost old_out = out@;
        assert(s@.skip(k as int).drop_first() =~= s@.skip(k + 1));
        assert(s@.skip(k as int)[0] == cs@[k as int]);
        out.push(cs[k]);
        k += 1;
        assert(out@ + before_first_spec(s@.skip(k as int), sep) =~= old_out + (seq![cs@[k - 1]]
            + before_first_spec(s@.skip(k as int), sep)));
    }
    if k < cs.len() {
        assert(s@.skip(k as int)[0] == cs@[k as int]);
    }
    assert(before_first_spec(s@.skip(k as int), sep) =~= seq![]);
    assert(out@ + seq![] =~= out@);
    string_from_chars(&out)
}

/// The MegaCloud embed id of a server link: after the last `/`, before any `?`.
pub open spec fn xrax_spec(url: Seq<char>) -> Option<Seq<char>> {
    match after_last_spec(url, '/') {
        Some(tail) => Some(before_first_spec(tail, '?')),
        None => None,
    }
}

/// Reads the embed id out of a server link.
pub fn xrax_from_url(url: &str) -> (r: Option<String>)
    ensures
        r.deep_view() == xrax_spec(url@),
{
    match after_last(url, '/') {
        Some(tail) => Some(before_first(tail.as_str(), '?')),
        None => None,
    }
}

/// The meta tag that carries the embed's token.
pub const META_TOKEN: &'static str = r#"<meta name="j_crt" content="(.+?)">"#;

/// The session id assignment in an AnimePahe page script.
pub const SESSION_ID: &'static str = r#"let id = "(.*)";"#;

/// A stream playlist address.
pub const PLAYLIST_URL: &'static str = r"https://.*\.m3u8";

/// Capture group `n` of the first match of `pattern` in `text`.
pub open spec fn group_spec(pattern: Seq<char>, text: Seq<char>, n: int) -> Option<Seq<char>> {
    match regex_captures_of(pattern, text) {
        Some(g) => if 0 <= n < g.len() { g[n] } else { None },
        None => None,
    }
}

fn first_group(pattern: &str, text: &str, n: usize) -> (r: Option<String>)
    ensures
        r.deep_view() == group_spec(pattern@, text@, n as int),
{
    match regex_captures(pattern, text) {
        Some(g) => {
            if n < g.len() {
                assert(g.deep_view()[n as int] == g@[n as int].deep_view());
                match &g[n] {
                    Some(t) => Some(t.as_str().to_owned()),
                    None => None,
                }
            } else {
                None
            }
        },
        None => None,
    }
}

/// The token in a MegaCloud embed page's `j_crt` meta tag.
pub fn meta_content(html: &str) -> (r: Option<String>)
    ensures
        r.deep_view() == group_spec(META_TOKEN@, html@, 1),
{
    first_group(META_TOKEN, html, 1)
}

/// The session id that an AnimePahe page script assigns.
pub fn session_of(script: &str) -> (r: Option<String>)
    ensures
        r.deep_view() == group_spec(SESSION_ID@, script@, 1),
{
    first_group(SESSION_ID, script, 1)
}

/// The first playlist address in an unpacked player script.
pub fn playlist_url(unpacked: &str) -> (r: Option<String>)
    ensures
        r.deep_view() == group_spec(PLAYLIST_URL@, unpacked@, 0),
{
    first_group(PLAYLIST_URL, unpacked, 0)
}

/// The decimal digits of `n`, with `0` for zero.
pub open spec fn decimal_text(n: nat) -> Seq<char> {
    if n == 0 { seq!['0'] } else { radix_digits(n, 10) }
}

/// Writes `n` in decimal.
pub fn decimal_u32(n: u32) -> (r: String)
    ensures
        r@ == decimal_text(n as nat),
{
    let mut digits: Vec<char> = Vec::new();
    let mut m: u32 = n;
    if m == 0 {
        digits.push('0');
        assert(digits@ =~= decimal_text(0));
        return string_from_chars(&digits);
    }
    while m != 0
        invariant
            radix_digits(n as nat, 10) == radix_digits(m as nat, 10) + digits@.reverse(),
        decreases m,
    {
        let ghost before = digits@;
        let d = m % 10;
        digits.push(((48 + d) as u8) as char);
        assert(radix_digits(m as nat, 10) == radix_digits((m / 10) as nat, 10).push(
            ((48 + d) as u8) as char,
        ));
        assert(digits@.reverse() =~= seq![((48 + d) as u8) as char] + before.reverse());
        m = m / 10;
    }
    assert(radix_digits(0, 10) == Seq::<char>::empty());
    let mut out: Vec<char> = Vec::new();
    let mut k: usize = digits.len();
    while k > 0
        invariant
            k <= digits@.len(),
            out@ == digits@.reverse().take(digits@.len() - k),
        decreases k,
    {
        k -= 1;
        out.push(digits[k]);
        assert(out@ =~= digits@.reverse().take(digits@.len() - k));
    }
    assert(out@ =~= decimal_text(n as nat));
    string_from_chars(&out)
}

/// An AnimePahe release renamed for listing: titled by its number, its id
/// prefixed with the anime's session.
pub fn pahe_episode(e: Episode, session: &str) -> (r: Episode)
    ensures
        r.number == e.number,
        r.title@ == "Episode "@ + decimal_text(e.number as nat),
        r.id@ == session@ + "/"@ + e.id@,
{
    let digits = decimal_u32(e.number);
    let title = concat("Episode ", digits.as_str());
    let head = concat(session, "/");
    let id = concat(head.as_str(), e.id.as_str());
    Episode { title, number: e.number, id }
}

} // verus!
