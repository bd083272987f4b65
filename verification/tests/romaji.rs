use kanae::romaji::{is_japanese, romanize_line, romanize_lines};

#[test]
fn detects_japanese() {
    assert!(is_japanese("こんにちは"));        // hiragana
    assert!(is_japanese("カタカナ"));          // katakana
    assert!(is_japanese("日本語"));            // kanji
    assert!(!is_japanese("hello world"));      // latin
    assert!(!is_japanese(""));
}

#[test]
fn romanizes_japanese_only() {
    // Kana/kanji become romaji…
    let r = romanize_line("こんにちは世界");
    assert!(r.to_lowercase().contains("konnichiha"));
    assert!(!r.contains('こ'));
    // …while non-Japanese lines pass through untouched.
    assert_eq!(romanize_line("Hello, world"), "Hello, world");
}

#[test]
fn romanize_lines_only_when_enabled() {
    let mut lines = vec!["さくら".to_string(), "Sakura".to_string()];
    romanize_lines(&mut lines, false);
    assert_eq!(lines, vec!["さくら".to_string(), "Sakura".to_string()]);
    romanize_lines(&mut lines, true);
    assert_eq!(lines[1], "Sakura");
    assert!(!lines[0].contains('さ'));
    assert!(lines[0].to_lowercase().contains("sakura"));
}
