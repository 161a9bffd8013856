use protozoa::scrape::{
    after_last, animekai_locale, animepahe_locale, before_first, decimal_u32, drop_thumbnails,
    hianime_locale, meta_content, pahe_episode, playlist_url, server_name, session_of,
    skip_type_of, xrax_from_url,
};
use protozoa::{Caption, Episode, Locale, SkipType};

fn caption(kind: &str, label: &str) -> Caption {
    Caption { url: format!("https://x/{label}.vtt"), label: Some(label.to_string()), kind: kind.to_string() }
}

#[test]
fn thumbnails_are_dropped_in_order() {
    let kept = drop_thumbnails(vec![
        caption("captions", "English"),
        caption("thumbnails", "thumbs"),
        caption("captions", "Spanish"),
    ]);
    let labels: Vec<String> = kept.into_iter().map(|c| c.label.unwrap()).collect();
    assert_eq!(labels, vec!["English", "Spanish"]);
    assert!(drop_thumbnails(Vec::new()).is_empty());
}

#[test]
fn locales_by_site() {
    assert_eq!(animekai_locale("sub"), Some(Locale::HardSub));
    assert_eq!(animekai_locale("softsub"), Some(Locale::SoftSub));
    assert_eq!(animekai_locale("dub"), Some(Locale::Dub));
    assert_eq!(animekai_locale("raw"), None);
    assert_eq!(hianime_locale("sub"), Some(Locale::SoftSub));
    assert_eq!(hianime_locale("raw"), Some(Locale::Raw));
    assert_eq!(hianime_locale(""), None);
    assert_eq!(animepahe_locale("eng"), Some(Locale::Dub));
    assert_eq!(animepahe_locale("jpn"), Some(Locale::HardSub));
    assert_eq!(animepahe_locale("fra"), None);
}

#[test]
fn skip_types() {
    assert_eq!(skip_type_of("ed"), Some(SkipType::Ed));
    assert_eq!(skip_type_of("mixed-ed"), Some(SkipType::Ed));
    assert_eq!(skip_type_of("mixed-op"), Some(SkipType::Op));
    assert_eq!(skip_type_of("recap"), Some(SkipType::Recap));
    assert_eq!(skip_type_of("preview"), None);
}

#[test]
fn server_names() {
    assert_eq!(server_name("HorribleSubs · 1080p", Locale::HardSub), "HorribleSubs · 1080p · HardSub");
    assert_eq!(server_name("", Locale::Dub), " · Dub");
}

#[test]
fn url_pieces() {
    assert_eq!(after_last("/watch/one-piece-dk6r", '-'), Some("dk6r".to_string()));
    assert_eq!(after_last("nodash", '-'), None);
    assert_eq!(after_last("ends-", '-'), Some(String::new()));
    assert_eq!(before_first("a?b?c", '?'), "a");
    assert_eq!(before_first("abc", '?'), "abc");
    assert_eq!(xrax_from_url("https://megacloud.tv/embed-2/e-1/AbC123?k=1"), Some("AbC123".to_string()));
    assert_eq!(xrax_from_url("no-slash"), None);
}

#[test]
fn regex_extractions() {
    let html = r#"<head><meta name="j_crt" content="tok3n=="></head>"#;
    assert_eq!(meta_content(html), Some("tok3n==".to_string()));
    assert_eq!(meta_content("<head></head>"), None);
    assert_eq!(session_of(r#"let id = "abc-123";"#), Some("abc-123".to_string()));
    assert_eq!(playlist_url("src='https://vault/x/uwu.m3u8'"), Some("https://vault/x/uwu.m3u8".to_string()));
    assert_eq!(playlist_url("http://plain/x.mp4"), None);
}

#[test]
fn pahe_episodes_are_renamed() {
    let e = pahe_episode(Episode { title: "t".to_string(), number: 1071, id: "s1".to_string() }, "sess");
    assert_eq!(e.title, "Episode 1071");
    assert_eq!(e.id, "sess/s1");
    assert_eq!(e.number, 1071);
    assert_eq!(decimal_u32(0), "0");
    assert_eq!(decimal_u32(u32::MAX), "4294967295");
}
