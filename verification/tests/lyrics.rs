use kanae::file_player::LocalTrack;
use kanae::lyric_cache::LyricContentCache;
use kanae::lyrics::{consult_cache, lyrics_cache_key, record_fetch, CachedLyrics, LyricText, LyricsDelivery};
use kanae::player::PlayerController;

fn empty_cache() -> LyricContentCache {
    LyricContentCache::from_parts("/tmp/lyrics-test.json".to_string(), Vec::new(), Vec::new())
}

fn line(time: &str, text: &str) -> LyricText {
    LyricText { time: time.to_string(), text: text.to_string() }
}

fn local(path: &str) -> LocalTrack {
    LocalTrack {
        path: path.to_string(),
        title: "Song".to_string(),
        artist: "Band".to_string(),
        album: "Album".to_string(),
        album_artist: "Band".to_string(),
        year: "2001".to_string(),
        duration_secs: 200,
        cover_art_path: None,
    }
}

#[test]
fn cache_key_prefers_the_disc() {
    assert_eq!(lyrics_cache_key("DISC", 2, "/m/a.flac", "T", "A"), "cd:DISC:2");
    assert_eq!(lyrics_cache_key("DISC", -1, "/m/a.flac", "T", "A"), "file:/m/a.flac");
    assert_eq!(lyrics_cache_key("", 2, "", " T ", "A"), "track:t:a");
}

#[test]
fn cache_answers_before_a_fetch() {
    let mut c = empty_cache();
    assert!(matches!(consult_cache(&mut c, "k"), CachedLyrics::Miss));
    record_fetch(&mut c, "k", &Some("[00:01.00] hi".to_string()), false);
    match consult_cache(&mut c, "k") {
        CachedLyrics::Lrc(t) => assert_eq!(t, "[00:01.00] hi"),
        other => panic!("unexpected {:?}", other),
    }
    record_fetch(&mut c, "none", &None, false);
    assert!(matches!(consult_cache(&mut c, "none"), CachedLyrics::NoLyrics));
    record_fetch(&mut c, "k", &None, false);
    assert!(matches!(consult_cache(&mut c, "k"), CachedLyrics::NoLyrics));
}

#[test]
fn fetch_uses_the_current_file() {
    let mut p = PlayerController::new(false);
    p.load_local_tracks(vec![local("/m/a.flac"), local("/m/b.flac")], &vec!["/m".to_string()], false);
    p.load_track(1);
    let req = p.fetch_lyrics("Song", "Band").expect("a fetch");
    assert_eq!(req.cache_key, "file:/m/b.flac");
    assert_eq!(req.generation, 1);
    assert!(p.lyrics.loading);
    assert!(p.fetch_lyrics("", "Band").is_none());
    assert!(!p.lyrics.loading);
    assert_eq!(p.lyrics.generation, 1);
}

#[test]
fn stale_results_are_dropped() {
    let mut p = PlayerController::new(false);
    let first = p.fetch_lyrics("One", "A").unwrap();
    let second = p.fetch_lyrics("Two", "A").unwrap();
    assert_eq!(second.generation, first.generation + 1);
    p.poll_lyrics(Some(LyricsDelivery { generation: first.generation, lines: Some(vec![line("1", "old")]) }), false);
    assert!(p.lyrics.loading);
    assert!(p.lyrics.lines.is_empty());
    p.poll_lyrics(
        Some(LyricsDelivery { generation: second.generation, lines: Some(vec![line("1.5", "new"), line("3", "more")]) }),
        false,
    );
    assert!(!p.lyrics.loading);
    assert_eq!(p.lyrics.lines, vec!["new", "more"]);
    assert_eq!(p.lyrics.times, vec!["1.5", "3"]);
}

#[test]
fn no_lyrics_clears_the_fetched_lines() {
    let mut p = PlayerController::new(false);
    let g = p.fetch_lyrics("One", "A").unwrap().generation;
    p.poll_lyrics(Some(LyricsDelivery { generation: g, lines: Some(vec![line("1", "la")]) }), false);
    let g = p.fetch_lyrics("Two", "A").unwrap().generation;
    p.poll_lyrics(Some(LyricsDelivery { generation: g, lines: None }), false);
    assert!(!p.lyrics.loading);
    assert!(p.lyrics.source.is_empty());
    assert!(p.lyrics.lines.is_empty());
    p.poll_lyrics(None, false);
    assert!(!p.lyrics.loading);
}

#[test]
fn romanizing_keeps_the_times() {
    let mut p = PlayerController::new(false);
    let g = p.fetch_lyrics("One", "A").unwrap().generation;
    p.poll_lyrics(Some(LyricsDelivery { generation: g, lines: Some(vec![line("2", "こんにちは"), line("4", "hello")]) }), true);
    assert_eq!(p.lyrics.lines.len(), 2);
    assert_ne!(p.lyrics.lines[0], "こんにちは");
    assert_eq!(p.lyrics.lines[1], "hello");
    assert_eq!(p.lyrics.times, vec!["2", "4"]);
    p.reapply_lyrics(false);
    assert_eq!(p.lyrics.lines, vec!["こんにちは", "hello"]);
}
