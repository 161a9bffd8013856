use protozoa::ciphers::{rc4, replace, reverse, TransformError};
use protozoa::codec::{
    decode_standard_base64, decode_url_safe_base64, percent_decode, percent_encode,
    url_safe_base64,
};

#[test]
fn test_rc4() {
    let test = rc4("key", "Plaintext").unwrap();
    println!("{}", test);
    assert_eq!(test, "[\0U\u{84}J\u{fb}\u{1e}2<");
}

#[test]
fn test_reverse() {
    let test = reverse("Hello, World!");
    assert_eq!(test, "!dlroW ,olleH");
}

#[test]
fn test_url_safe_base64() {
    let test = url_safe_base64("Hello, World!");
    assert_eq!(test, "SGVsbG8sIFdvcmxkIQ");
}

#[test]
fn test_decode_url_safe_base64() {
    let test = decode_url_safe_base64("SGVsbG8sIFdvcmxkIQ").unwrap();
    assert_eq!(test, "Hello, World!");
}

#[test]
fn test_replace() {
    let test = replace("Hello, World!", "HW", "hw");
    assert_eq!(test, "hello, world!");
}

#[test]
fn rc4_rejects_empty_key() {
    assert_eq!(rc4("", "data"), Err(TransformError::InvalidKey));
}

#[test]
fn rc4_is_repeatable() {
    let a = rc4("NZcfoMD7JpIrgQE", "{\"url\":\"https://x\"}").unwrap();
    let b = rc4("NZcfoMD7JpIrgQE", "{\"url\":\"https://x\"}").unwrap();
    assert_eq!(a, b);
}

#[test]
fn rc4_twice_gives_back_latin1_text() {
    let text = "caf\u{e9} \u{ff}\u{0}plain";
    let once = rc4("kOCJnByYmfI", text).unwrap();
    assert_ne!(once, text);
    assert_eq!(rc4("kOCJnByYmfI", &once).unwrap(), text);
}

#[test]
fn rc4_works_on_utf16_units() {
    // A character outside the basic plane is two UTF-16 units, so two output characters.
    let out = rc4("key", "\u{1F600}").unwrap();
    assert_eq!(out.chars().count(), 2);
    assert!(out.chars().all(|c| (c as u32) < 256));
}

#[test]
fn rc4_empty_data() {
    assert_eq!(rc4("key", "").unwrap(), "");
}

#[test]
fn reverse_twice_is_identity() {
    for s in ["", "a", "ab\u{e9}c", "Hello, World!"] {
        assert_eq!(reverse(&reverse(s)), s);
    }
}

#[test]
fn replace_later_pair_wins_on_repeated_search_char() {
    assert_eq!(replace("aab", "aa", "xy"), "yyb");
}

#[test]
fn replace_ignores_unpaired_tail() {
    assert_eq!(replace("abc", "abc", "X"), "Xbc");
}

#[test]
fn replace_round_trip_with_disjoint_sets() {
    let s = "hello world";
    let forth = replace(s, "hel", "XYZ");
    assert_eq!(forth, "XYZZo worZd");
    assert_eq!(replace(&forth, "XYZ", "hel"), s);
}

#[test]
fn replace_round_trip_with_permutation() {
    let s = "1wctXeHqb2 and more";
    let forth = replace(s, "1wctXeHqb2", "1tecHq2Xbw");
    assert_eq!(replace(&forth, "1tecHq2Xbw", "1wctXeHqb2"), s);
}

#[test]
fn base64_truncates_to_low_byte() {
    // U+0141 has low byte 0x41 ('A').
    assert_eq!(url_safe_base64("\u{141}"), url_safe_base64("A"));
    assert_eq!(url_safe_base64("A"), "QQ");
}

#[test]
fn base64_uses_url_safe_alphabet() {
    assert_eq!(url_safe_base64("\u{fb}\u{ff}"), "-_8");
    assert_eq!(decode_url_safe_base64("-_8").unwrap(), "\u{fb}\u{ff}");
}

#[test]
fn base64_round_trip_latin1() {
    let s = "\u{0}\u{7f}\u{80}\u{e9}\u{ff}{\"a\":[1,2]}";
    assert_eq!(decode_url_safe_base64(&url_safe_base64(s)).unwrap(), s);
    assert_eq!(decode_url_safe_base64(&url_safe_base64("")).unwrap(), "");
}

#[test]
fn base64_rejects_malformed_input() {
    assert_eq!(decode_url_safe_base64("A"), Err(TransformError::CodecError));
    assert_eq!(decode_url_safe_base64("SGVsbG8="), Err(TransformError::CodecError));
    assert_eq!(decode_url_safe_base64("SGV*bG8"), Err(TransformError::CodecError));
    assert_eq!(decode_url_safe_base64("QR"), Err(TransformError::CodecError));
    assert_eq!(decode_url_safe_base64("SGVs+G8"), Err(TransformError::CodecError));
}

#[test]
fn standard_base64_decodes_padded_text() {
    assert_eq!(decode_standard_base64("SGk="), Some(b"Hi".to_vec()));
    assert_eq!(decode_standard_base64("SGk"), None);
    assert_eq!(decode_standard_base64("S-k="), None);
}

#[test]
fn percent_codec_values() {
    assert_eq!(percent_encode("a b/\u{e9}~"), "a%20b%2F%C3%A9~");
    assert_eq!(percent_decode("a%20b%2f%C3%A9~").unwrap(), "a b/\u{e9}~");
    assert_eq!(percent_decode("100%").unwrap(), "100%");
    assert_eq!(percent_decode("%zz%4").unwrap(), "%zz%4");
    assert_eq!(percent_decode("%FF"), Err(TransformError::CodecError));
}

#[test]
fn percent_round_trip() {
    let s = "{\"url\":\"https://megaup.cc/e/x?y=1&z=\u{4e2d}\"}";
    assert_eq!(percent_decode(&percent_encode(s)).unwrap(), s);
}
