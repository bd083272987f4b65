use kanae::lrclib::{levenshtein, url_encode};
use kanae::lrclib::{fallback_search_url, get_url, search_url};
use kanae::lrclib::{has_synced_lyrics, lrc_line_tags};

#[test]
fn edit_distances() {
    assert_eq!(levenshtein("kitten", "sitting"), 3);
    assert_eq!(levenshtein("", "abc"), 3);
    assert_eq!(levenshtein("abc", "abc"), 0);
    assert_eq!(levenshtein("naïve", "naive"), 1);
}

#[test]
fn query_encoding() {
    assert_eq!(url_encode("Hello World"), "Hello+World");
    assert_eq!(url_encode("a&b=c"), "a%26b%3Dc");
    assert_eq!(url_encode("A-Z_a.z~0"), "A-Z_a.z~0");
    assert_eq!(url_encode("é"), "%C3%A9");
}

#[test]
fn request_urls() {
    assert_eq!(search_url("Song A", "B&C"), "https://lrclib.net/api/search?track_name=Song+A&artist_name=B%26C");
    assert_eq!(
        fallback_search_url("S", "A", "The LP").as_deref(),
        Some("https://lrclib.net/api/search?track_name=S&album_name=The+LP")
    );
    assert_eq!(fallback_search_url("S", "A", "").as_deref(), Some("https://lrclib.net/api/search?q=S+A"));
    assert_eq!(fallback_search_url("S", "", ""), None);
    assert_eq!(get_url(12345), "https://lrclib.net/api/get/12345");
}

#[test]
fn usable_results() {
    assert!(has_synced_lyrics(None, &Some("[00:01.00] x".to_string())));
    assert!(has_synced_lyrics(Some(false), &Some("x".to_string())));
    assert!(!has_synced_lyrics(Some(true), &Some("x".to_string())));
    assert!(!has_synced_lyrics(None, &Some("  \n ".to_string())));
    assert!(!has_synced_lyrics(None, &None));
}

fn tags(v: &[(&str, &str)]) -> Vec<(String, String)> {
    v.iter().map(|(a, b)| (a.to_string(), b.to_string())).collect()
}

#[test]
fn lrc_lines_and_tags() {
    let lrc = "[00:01.00]Hello\n\n[00:02.50][00:03.00] Two \r\n[ar:Me]\nplain\n";
    let parts = lrc_line_tags(lrc);
    assert_eq!(
        parts,
        vec![
            tags(&[("00:01.00", "Hello")]),
            tags(&[("00:02.50", "[00:03.00] Two"), ("00:03.00", "Two")]),
            tags(&[("ar:Me", "")]),
            tags(&[]),
        ]
    );
    assert_eq!(lrc_line_tags("[unclosed"), vec![tags(&[])]);
    assert_eq!(lrc_line_tags("  [x] a [y] b"), vec![tags(&[("x", "a [y] b")])]);
    assert!(lrc_line_tags("").is_empty());
    assert!(lrc_line_tags("\n \n").is_empty());
}
