use kanae::smtc::{
    cover_source, encode_uri_path, file_uri, playback_update, session_cover, status_update, CoverSource, SmtcUpdate,
};

#[test]
fn uri_paths_keep_separators() {
    assert_eq!(encode_uri_path("/home/me/Cover Art.jpg"), "/home/me/Cover%20Art.jpg");
    assert_eq!(encode_uri_path("C:/x_y-z~.png"), "C:/x_y-z~.png");
    assert_eq!(encode_uri_path("100%"), "100%25");
    assert_eq!(encode_uri_path("é"), "%C3%A9");
    assert_eq!(file_uri("/a b"), "file:///a%20b");
}

#[test]
fn status_lines_replace_the_track() {
    match status_update("Loading disc...") {
        SmtcUpdate::Metadata { title, artist, album, cover_url, duration_ms } => {
            assert_eq!(title, "Loading disc...");
            assert_eq!(artist, "Kanae");
            assert_eq!(album, "");
            assert!(cover_url.is_none());
            assert!(duration_ms.is_none());
        }
        other => panic!("unexpected {:?}", other),
    }
}

#[test]
fn play_state_updates() {
    assert!(matches!(playback_update(true, -1, 5), SmtcUpdate::Playing { progress_ms: 5 }));
    assert!(matches!(playback_update(false, 0, 7), SmtcUpdate::Paused { progress_ms: 7 }));
    assert!(matches!(playback_update(false, -1, 7), SmtcUpdate::Stopped));
}

#[test]
fn session_cover_paths() {
    assert_eq!(session_cover(""), None);
    assert_eq!(session_cover("file:///tmp/c.jpg").as_deref(), Some("/tmp/c.jpg"));
    assert_eq!(session_cover("file://C:/c.jpg").as_deref(), Some("/C:/c.jpg"));
    assert_eq!(session_cover("file:////x").as_deref(), Some("/x"));
    assert_eq!(session_cover("https://e.org/c.jpg").as_deref(), Some("https://e.org/c.jpg"));
    assert_eq!(session_cover("/home/a.png").as_deref(), Some("/home/a.png"));
}

#[test]
fn cover_sources() {
    assert!(matches!(cover_source("https://e.org/c.jpg"), CoverSource::Remote(u) if u == "https://e.org/c.jpg"));
    assert!(matches!(cover_source("file:///tmp/c.jpg"), CoverSource::Local(p) if p == "/tmp/c.jpg"));
    assert!(matches!(cover_source("/home/a.png"), CoverSource::Local(p) if p == "/home/a.png"));
    assert!(matches!(cover_source("file://x"), CoverSource::Unusable));
    assert!(matches!(cover_source("C:/x.png"), CoverSource::Unusable));
    assert!(matches!(cover_source(""), CoverSource::Unusable));
}
