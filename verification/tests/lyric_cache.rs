use kanae::lyric_cache::{cd_key, file_key, LrcEntry, LyricContentCache, NoLyricsEntry, MAX_ENTRIES};

fn empty_cache() -> LyricContentCache {
    LyricContentCache::from_parts("/tmp/lyrics.json".to_string(), Vec::new(), Vec::new())
}

#[test]
fn keys() {
    assert_eq!(cd_key("abc", 3), "cd:abc:3");
    assert_eq!(cd_key("abc", -1), "cd:abc:-1");
    assert_eq!(file_key("/m/a.flac", "T", "A"), "file:/m/a.flac");
    assert_eq!(file_key("", "  Song ", " Band  "), "track:song:band");
}

#[test]
fn read_gives_back_what_was_stored() {
    let mut c = empty_cache();
    assert!(c.get_lrc_at("k", 1).is_none());
    c.insert_lrc_at("k", "[00:01.00] hi", false, 10);
    assert_eq!(c.get_lrc_at("k", 11).as_deref(), Some("[00:01.00] hi"));
    c.insert_lrc_at("k", "[00:02.00] again", false, 12);
    assert_eq!(c.lrc_count(), 1);
    assert_eq!(c.get_lrc_at("k", 13).as_deref(), Some("[00:02.00] again"));
}

#[test]
fn no_lyrics_marks() {
    let mut c = empty_cache();
    assert!(!c.has_no_lyrics_at("x", 1));
    c.insert_no_lyrics_at("x", false, 2);
    assert!(c.has_no_lyrics_at("x", 3));
    assert_eq!(c.no_lyrics_count(), 1);
    c.purge_no_lyrics();
    assert!(!c.has_no_lyrics_at("x", 4));
}

#[test]
fn cache_stays_within_limit_and_evicts_oldest() {
    let mut c = empty_cache();
    for i in 0..(MAX_ENTRIES as u64 + 5) {
        c.insert_lrc_at(&format!("k{}", i), "x", false, 100 + i);
    }
    assert_eq!(c.lrc_count() + c.no_lyrics_count(), MAX_ENTRIES);
    assert!(c.get_lrc_at("k0", 1000).is_none());
    assert!(c.get_lrc_at("k4", 1000).is_none());
    assert!(c.get_lrc_at("k5", 1000).is_some());
    assert!(c.get_lrc_at(&format!("k{}", MAX_ENTRIES + 4), 1000).is_some());
}

#[test]
fn limit_can_be_disabled() {
    let mut c = empty_cache();
    for i in 0..(MAX_ENTRIES as u64 + 5) {
        c.insert_no_lyrics_at(&format!("n{}", i), true, i);
    }
    assert_eq!(c.no_lyrics_count(), MAX_ENTRIES + 5);
}

#[test]
fn recently_read_entry_survives_eviction() {
    let mut c = empty_cache();
    for i in 0..(MAX_ENTRIES as u64) {
        c.insert_lrc_at(&format!("k{}", i), "x", false, 100 + i);
    }
    // Reading k0 makes it the most recently used.
    assert!(c.get_lrc_at("k0", 10_000).is_some());
    c.insert_lrc_at("new", "y", false, 10_001);
    assert!(c.get_lrc_at("k0", 10_002).is_some());
    assert!(c.get_lrc_at("k1", 10_003).is_none());
}

#[test]
fn purge_lrc_keeps_no_lyrics_marks() {
    let mut c = LyricContentCache::from_parts(
        "/tmp/x.json".to_string(),
        vec![LrcEntry { key: "a".to_string(), lrc_text: "t".to_string(), accessed_ms: 1 }],
        vec![NoLyricsEntry { key: "b".to_string(), accessed_ms: 1 }],
    );
    c.purge_lrc();
    assert_eq!(c.lrc_count(), 0);
    assert_eq!(c.no_lyrics_count(), 1);
    assert_eq!(c.path(), "/tmp/x.json");
}

#[test]
fn clock_inserts_store_and_keep_keys_once() {
    let mut c = empty_cache();
    c.insert_lrc("k", "[00:01.00] a", false);
    c.insert_lrc("k", "[00:01.00] b", false);
    assert_eq!(c.lrc_count(), 1);
    assert_eq!(c.get_lrc("k").as_deref(), Some("[00:01.00] b"));
    c.insert_no_lyrics("n", true);
    c.insert_no_lyrics("n", true);
    assert_eq!(c.no_lyrics_count(), 1);
    assert!(c.has_no_lyrics("n"));
}

#[test]
fn full_cache_keeps_the_newest_insert() {
    let mut c = empty_cache();
    for i in 0..MAX_ENTRIES as u64 {
        c.insert_lrc_at(&format!("k{}", i), "x", false, i);
    }
    c.insert_lrc_at("new", "fresh", false, 1000);
    assert_eq!(c.lrc_count() + c.no_lyrics_count(), MAX_ENTRIES);
    assert_eq!(c.get_lrc_at("new", 1001).as_deref(), Some("fresh"));
    assert!(c.get_lrc_at("k0", 1002).is_none());
    c.insert_no_lyrics_at("none", false, 2000);
    assert_eq!(c.lrc_count() + c.no_lyrics_count(), MAX_ENTRIES);
    assert!(c.has_no_lyrics_at("none", 2001));
}

#[test]
fn no_lyrics_mark_survives_at_an_unchanged_clock() {
    let mut c = empty_cache();
    for i in 0..MAX_ENTRIES as u64 {
        c.insert_no_lyrics_at(&format!("n{}", i), false, 7);
    }
    c.insert_no_lyrics_at("last", false, 7);
    assert_eq!(c.no_lyrics_count(), MAX_ENTRIES);
    assert!(c.has_no_lyrics_at("last", 7));
    assert!(!c.has_no_lyrics_at("n0", 7));
    // Recording it again changes nothing.
    let before: Vec<String> = c.no_lyrics_entries().iter().map(|e| e.key.clone()).collect();
    c.insert_no_lyrics_at("last", false, 9);
    let after: Vec<String> = c.no_lyrics_entries().iter().map(|e| e.key.clone()).collect();
    assert_eq!(before, after);
}
