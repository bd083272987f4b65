use kanae::discord::{
    cover_upload_body, cover_upload_content_type, details_line, multipart_field, multipart_file, normalize_cover_path,
    presence_changed, presence_timestamps, state_line, CoverCache, CoverPlan, PresenceShown, COVER_CACHE_TTL_MS,
};

#[test]
fn cover_paths() {
    assert_eq!(normalize_cover_path(""), "");
    assert_eq!(normalize_cover_path("https://x/y.jpg"), "https://x/y.jpg");
    assert_eq!(normalize_cover_path("file:///tmp/c.png"), "/tmp/c.png");
    assert_eq!(normalize_cover_path("file://c.png"), "c.png");
    assert_eq!(normalize_cover_path("/tmp/c.png"), "/tmp/c.png");
}

#[test]
fn presence_lines() {
    assert_eq!(details_line(""), "Unknown Track");
    assert_eq!(details_line("Song"), "Song");
    assert_eq!(state_line("Band", "Album", true), "Band");
    assert_eq!(state_line("", "Album", true), "Album");
    assert_eq!(state_line("", "", true), "Kanae");
    assert_eq!(state_line("Band", "", false), "Band \u{2022} Paused");
}

#[test]
fn presence_push_only_on_change() {
    let last = PresenceShown {
        title: "T".to_string(),
        artist: "A".to_string(),
        album: "L".to_string(),
        is_playing: true,
        cover: String::new(),
    };
    let (t, a, l, c) = ("T".to_string(), "A".to_string(), "L".to_string(), String::new());
    assert!(!presence_changed(&last, &t, &a, &l, true, &c, false, false));
    assert!(presence_changed(&last, &t, &a, &l, false, &c, false, false));
    assert!(presence_changed(&last, &t, &a, &l, true, &c, true, false));
    assert!(presence_changed(&last, &"U".to_string(), &a, &l, true, &c, false, false));
}

#[test]
fn multipart_pieces() {
    let mut body = Vec::new();
    multipart_field(&mut body, "B", "time", b"1h");
    assert_eq!(body, b"--B\r\nContent-Disposition: form-data; name=\"time\"\r\n\r\n1h\r\n".to_vec());
    let mut body = Vec::new();
    multipart_file(&mut body, "B", "f", "c.png", "image/png", &[1, 2]);
    let mut want = b"--B\r\nContent-Disposition: form-data; name=\"f\"; filename=\"c.png\"\r\nContent-Type: image/png\r\n\r\n".to_vec();
    want.extend_from_slice(&[1, 2]);
    want.extend_from_slice(b"\r\n");
    assert_eq!(body, want);
}

#[test]
fn upload_body() {
    let body = cover_upload_body(&[0x89, b'P']);
    let text = String::from_utf8_lossy(&body).to_string();
    assert!(text.starts_with("--KanaeDiscordBoundary42xYz\r\nContent-Disposition: form-data; name=\"reqtype\"\r\n\r\nfileupload\r\n"));
    assert!(text.ends_with("\r\n--KanaeDiscordBoundary42xYz--\r\n"));
    assert!(text.contains("name=\"time\"\r\n\r\n1h\r\n"));
    assert_eq!(cover_upload_content_type(), "multipart/form-data; boundary=KanaeDiscordBoundary42xYz");
}

#[test]
fn cover_cache_reuses_recent_uploads() {
    let mut c = CoverCache::new();
    assert!(matches!(c.select("", 0), CoverPlan::Unchanged));
    match c.select("/a.png", 1000) {
        CoverPlan::Upload(src) => assert_eq!(src, "/a.png"),
        _ => panic!("expected an upload"),
    }
    assert_eq!(c.current_url, "");
    c.uploaded("https://l/a".to_string(), 2000);
    assert_eq!(c.current_url, "https://l/a");
    assert_eq!(c.entries.len(), 1);
    assert!(matches!(c.select("/a.png", 3000), CoverPlan::Unchanged));
    assert!(matches!(c.select("/b.png", 4000), CoverPlan::Upload(_)));
    c.uploaded(String::new(), 5000);
    assert_eq!(c.current_url, "");
    assert_eq!(c.entries.len(), 1);
    assert!(matches!(c.select("/a.png", 6000), CoverPlan::FromCache));
    assert_eq!(c.current_url, "https://l/a");
    assert!(matches!(c.select("", 7000), CoverPlan::Cleared));
    assert_eq!(c.current_src, "");
    // Once the upload is older than the lifetime, it is uploaded again.
    let late = 2000 + COVER_CACHE_TTL_MS;
    assert!(matches!(c.select("/a.png", late), CoverPlan::Upload(_)));
    c.uploaded("https://l/a2".to_string(), late);
    assert_eq!(c.entries.len(), 1);
    assert_eq!(c.entries[0].url, "https://l/a2");
    assert_eq!(c.entries[0].uploaded_ms, late);
    assert_eq!(COVER_CACHE_TTL_MS, 58 * 60 * 1000);
}

#[test]
fn presence_clear_and_record() {
    let mut shown = PresenceShown::new();
    assert!(!shown.clear());
    shown.record(&"T".to_string(), &"A".to_string(), &"B".to_string(), false, &"u".to_string());
    assert_eq!(shown.title, "T");
    assert_eq!(shown.cover, "u");
    assert!(shown.clear());
    assert_eq!(shown.title, "");
    assert_eq!(shown.artist, "");
    assert_eq!(shown.cover, "");
    shown.is_playing = true;
    assert!(shown.clear());
    assert!(!shown.is_playing);
}

#[test]
fn presence_progress_timestamps() {
    assert_eq!(presence_timestamps(1000, 30_500, 200_900, true), Some((970, 1170)));
    assert_eq!(presence_timestamps(1000, 30_500, 200_900, false), None);
    assert_eq!(presence_timestamps(1000, 30_500, 0, true), None);
    assert_eq!(presence_timestamps(1000, 0, 999, true), Some((1000, 1000)));
}
