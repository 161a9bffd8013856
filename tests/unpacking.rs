use protozoa::mal::{generic_levenshtein, levenshtein};
use protozoa::unpacker::{args_from_captures, filter_args, int_2_base, parse_digits, split_at_char, unpack, unpack_source};
use protozoa::{Locale, Provider};

#[test]
fn unpacks_known_fixture() {
    let script = "eval(function(p,a,c,k,e,d){...}('0.1.2',3,3,'a|b|c'.split('|'),0,0))";
    assert_eq!(unpack_source(script), Some("a.b.c".to_string()));
}

#[test]
fn unpacks_short_call_shape() {
    let script = "}('0 1 10',2,3,'x|y|z'.split('|')";
    assert_eq!(unpack_source(script), Some("x y z".to_string()));
}

#[test]
fn unpack_keeps_tokens_with_empty_words_and_whole_words_only() {
    assert_eq!(unpack("0 1 10 a0", 10, 2, &vec!["".to_string(), "one".to_string()]), Some("0 one 10 a0".to_string()));
}

#[test]
fn unpack_rejects_bad_arguments() {
    assert_eq!(unpack("0", 1, 1, &vec!["a".to_string()]), Some("a".to_string()));
    assert_eq!(unpack("0 1", 1, 2, &vec!["a".to_string(), "b".to_string()]), None);
    assert_eq!(unpack("0", 10, 2, &vec!["a".to_string()]), None);
    assert_eq!(unpack("keep", 0, 0, &Vec::new()), Some("keep".to_string()));
}

#[test]
fn no_packer_call_is_not_found() {
    assert_eq!(unpack_source("var x = 1;"), None);
    assert!(filter_args("function(p,a,c,k,e,d){}").is_none());
}

#[test]
fn filter_args_reads_fields() {
    let a = filter_args("x}('p q',62,2,'|w'.split('|'),0,{}))").unwrap();
    assert_eq!(a.payload, "p q");
    assert_eq!(a.radix, 62);
    assert_eq!(a.count, 2);
    assert_eq!(a.symtab, vec!["".to_string(), "w".to_string()]);
}

#[test]
fn args_from_groups() {
    let g = vec![
        Some("all".to_string()),
        Some("pay".to_string()),
        Some("36".to_string()),
        Some("99999999999".to_string()),
        Some("a|b".to_string()),
    ];
    assert!(args_from_captures(&g).is_none());
    let mut g2 = g.clone();
    g2[3] = Some("2".to_string());
    let a = args_from_captures(&g2).unwrap();
    assert_eq!((a.radix, a.count), (36, 2));
    assert!(args_from_captures(&g2[..4].to_vec()).is_none());
}

#[test]
fn radix_tokens() {
    assert_eq!(int_2_base(0, 36), "0");
    assert_eq!(int_2_base(0, 0), "0");
    assert_eq!(int_2_base(35, 36), "z");
    assert_eq!(int_2_base(36, 36), "10");
    assert_eq!(int_2_base(61, 62), "Z");
    assert_eq!(int_2_base(62, 62), "10");
    assert_eq!(int_2_base(63, 64), "/");
    assert_eq!(int_2_base(5, 2), "101");
    assert_eq!(int_2_base(-5, 2), "-101");
    assert_eq!(int_2_base(i32::MAX, 16), "7fffffff");
}

#[test]
fn splitting_and_digits() {
    assert_eq!(split_at_char("a||b|", '|'), vec!["a", "", "b", ""]);
    assert_eq!(split_at_char("", '|'), vec![""]);
    assert_eq!(parse_digits("0042"), Some(42));
    assert_eq!(parse_digits("2147483647"), Some(i32::MAX));
    assert_eq!(parse_digits("2147483648"), None);
    assert_eq!(parse_digits(""), None);
    assert_eq!(parse_digits("4a"), None);
}

#[test]
fn levenshtein_values() {
    assert_eq!(levenshtein("kitten", "sitting"), 3);
    assert_eq!(levenshtein("", "abc"), 3);
    assert_eq!(levenshtein("abc", ""), 3);
    assert_eq!(levenshtein("One Piece", "One Piece"), 0);
    assert_eq!(levenshtein("\u{e9}t\u{e9}", "ete"), 2);
    assert_eq!(generic_levenshtein(&['a', 'b'], &['b', 'a']), 2);
}

#[test]
fn provider_names() {
    assert_eq!(Provider::from("HiAnime"), Some(Provider::HiAnime));
    assert_eq!(Provider::from("ANIMEKAI"), Some(Provider::AnimeKai));
    assert_eq!(Provider::from("animepahe"), Some(Provider::AnimePahe));
    assert_eq!(Provider::from("crunchy"), None);
    assert_eq!(Provider::from_lowercase("HiAnime"), None);
    assert_eq!(Provider::AnimeKai.label(), "AnimeKai");
    assert_eq!(Locale::default(), Locale::HardSub);
    assert_eq!(Locale::SoftSub.label(), "SoftSub");
}

#[test]
fn unpack_index_zero_in_any_radix() {
    let script = "}('0.0',0,1,'w'.split('|'),0,{}))";
    assert_eq!(unpack_source(script), Some("w.w".to_string()));
}

#[test]
fn unpack_escapes_tokens_with_meta_characters() {
    let mut symtab = vec![String::new(); 63];
    symtab[62] = "P".to_string();
    assert_eq!(unpack("a+b", 64, 63, &symtab), Some("aPb".to_string()));
    assert_eq!(unpack("a++b", 64, 63, &symtab), Some("a++b".to_string()));
}
