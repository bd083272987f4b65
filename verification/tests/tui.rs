use kanae::file_player::LocalTrack;
use kanae::tui::{
    breadcrumbs, browse_tracks, center_text, controls_layout, display_width, effective_tracklist, follow_selection,
    library_columns, lyric_rows, lyric_scroll, marquee, now_playing_label, seek_bar_rect, settings_rows,
    shimmer_distance, sidebar_width, tick_plan, title_bar_text, track_columns, truncate_to_cols, wrap_to_width,
};
use kanae::tui::{play_browsed, BrowsedPlay, TickFacts};
use kanae::tui_input::Rect;

#[test]
fn widths_count_wide_characters_twice() {
    assert_eq!(display_width("abc"), 3);
    assert_eq!(display_width("日本"), 4);
    assert_eq!(display_width(""), 0);
    assert_eq!(display_width("a\u{7}b"), 2);
}

#[test]
fn truncation_stops_before_overflow() {
    assert_eq!(truncate_to_cols("hello", 3), "hel");
    assert_eq!(truncate_to_cols("日本語", 5), "日本");
    assert_eq!(truncate_to_cols("日本語", 1), "");
    assert_eq!(truncate_to_cols("abc", 10), "abc");
}

#[test]
fn centring() {
    assert_eq!(center_text("ab", 6), "  ab");
    assert_eq!(center_text("ab", 5), " ab");
    assert_eq!(center_text("abcdef", 4), "abcd");
    assert_eq!(center_text("日本", 7), " 日本");
}

#[test]
fn wrapping_on_spaces() {
    assert_eq!(wrap_to_width("hello world", 20), vec!["hello world"]);
    assert_eq!(wrap_to_width("hello world", 7), vec!["hello", "world"]);
    assert_eq!(wrap_to_width("a bb ccc dddd", 6), vec!["a bb", "ccc", "dddd"]);
    assert_eq!(wrap_to_width("anything", 0), vec![""]);
}

#[test]
fn wrapping_long_words_hard() {
    assert_eq!(wrap_to_width("abcdefgh", 3), vec!["abc", "def", "gh"]);
    assert_eq!(wrap_to_width("xy abcdefg", 4), vec!["xy", "abcd", "efg"]);
    assert_eq!(wrap_to_width("日本語です", 4), vec!["日本", "語で", "す"]);
}

#[test]
fn wrapped_rows_fit() {
    let text = "the quick brown fox jumps over the lazy dog again and again";
    for w in 1..20 {
        for row in wrap_to_width(text, w) {
            assert!(display_width(&row) <= w || row.chars().count() <= 1, "row {:?} too wide for {}", row, w);
        }
    }
}

fn local(path: &str, title: &str, secs: u64) -> LocalTrack {
    LocalTrack {
        path: path.to_string(),
        title: title.to_string(),
        artist: "Band".to_string(),
        album: "Album".to_string(),
        album_artist: "Band".to_string(),
        year: String::new(),
        duration_secs: secs,
        cover_art_path: None,
    }
}

#[test]
fn browse_list_shows_durations() {
    let b = browse_tracks(&vec![local("/a/1.flac", "One", 65), local("/a/2.flac", "Two", 3601)]);
    assert_eq!(b.len(), 2);
    assert_eq!(b[0].title, "One");
    assert_eq!(b[0].duration, "01:05");
    assert_eq!(b[1].duration, "60:01");
    assert_eq!(b[1].path, "/a/2.flac");
}

#[test]
fn tracklist_prefers_the_browsed_album() {
    let b = browse_tracks(&vec![local("/a/1.flac", "One", 5)]);
    let titles = vec!["T1".to_string(), "T2".to_string()];
    let artists = vec!["A1".to_string()];
    let durs = vec!["00:01".to_string(), "00:02".to_string()];
    let rows = effective_tracklist(true, &b, 2, &titles, &artists, &durs);
    assert_eq!(rows, vec![("One".to_string(), "Band".to_string(), "00:05".to_string())]);
    let rows = effective_tracklist(false, &b, 2, &titles, &artists, &durs);
    assert_eq!(
        rows,
        vec![
            ("T1".to_string(), "A1".to_string(), "00:01".to_string()),
            ("T2".to_string(), String::new(), "00:02".to_string()),
        ]
    );
    assert!(effective_tracklist(false, &b, 0, &titles, &artists, &durs).is_empty());
}

#[test]
fn marquee_pads_short_text() {
    assert_eq!(marquee("abc", 5, 0), "abc  ");
    assert_eq!(marquee("abc", 3, 7), "abc");
    assert_eq!(marquee("abc", 0, 3), "");
}

#[test]
fn marquee_scrolls_long_text() {
    assert_eq!(marquee("abcdef", 4, 0), "abcd");
    assert_eq!(marquee("abcdef", 4, 2), "cdef");
    assert_eq!(marquee("abcdef", 4, 7), "  ab");
    assert_eq!(marquee("abcdef", 4, 16), "  ab");
}

#[test]
fn marquee_counts_wide_characters() {
    assert_eq!(marquee("日本語x", 4, 0), "日本");
    assert_eq!(marquee("日本語x", 5, 1), "本語x");
    assert_eq!(marquee("日本語", 5, 0), "日本 ");
}

#[test]
fn selection_stays_on_screen() {
    assert_eq!(follow_selection(10, 5, 0, 3), (4, 2));
    assert_eq!(follow_selection(1, 5, 3, 3), (1, 1));
    assert_eq!(follow_selection(0, 0, 5, 3), (0, 0));
    assert_eq!(follow_selection(2, 5, 0, 3), (2, 0));
}

#[test]
fn row_columns() {
    assert_eq!(track_columns(40, false, 5), (15, 11));
    assert_eq!(track_columns(40, true, 5), (28, 0));
    assert_eq!(track_columns(10, false, 5), (0, 0));
    assert_eq!(library_columns(30, false), (10, 10));
    assert_eq!(library_columns(31, false), (10, 11));
    assert_eq!(library_columns(30, true), (22, 0));
    assert_eq!(library_columns(5, true), (0, 0));
}

#[test]
fn lyric_rows_follow_the_active_line() {
    let rows = lyric_rows(&vec!["hello world".to_string(), "ab".to_string()], 7);
    assert_eq!(rows, vec![(0, "hello".to_string()), (0, "world".to_string()), (1, "ab".to_string())]);
    let li = vec![0, 0, 1, 1, 2];
    assert_eq!(lyric_scroll(&li, 2, 4, 9), 2);
    assert_eq!(lyric_scroll(&li, 1, 4, 9), 0);
    assert_eq!(lyric_scroll(&li, -1, 4, 9), 9);
    assert_eq!(lyric_scroll(&li, 7, 4, 9), 9);
}

#[test]
fn shimmer_wraps_round() {
    assert_eq!(shimmer_distance(0, 5, 16), 5);
    assert_eq!(shimmer_distance(1, 15, 16), 2);
    assert_eq!(shimmer_distance(3, 3, 16), 0);
}

#[test]
fn seek_bar_and_controls_geometry() {
    let r = seek_bar_rect(Rect { x: 0, y: 5, width: 40, height: 1 });
    assert_eq!(r, Rect { x: 7, y: 5, width: 26, height: 1 });
    assert_eq!(seek_bar_rect(Rect { x: 0, y: 5, width: 10, height: 1 }).width, 0);
    let c = controls_layout(Rect { x: 2, y: 9, width: 60, height: 2 });
    assert_eq!(c.btn_prev, Rect { x: 2, y: 9, width: 2, height: 1 });
    assert_eq!(c.btn_play, Rect { x: 5, y: 9, width: 1, height: 1 });
    assert_eq!(c.btn_next, Rect { x: 7, y: 9, width: 2, height: 1 });
    assert_eq!(c.vol_bar, Rect { x: 48, y: 9, width: 10, height: 1 });
    assert_eq!(c.label_width, 38);
    assert_eq!(controls_layout(Rect { x: 0, y: 0, width: 10, height: 1 }).label_width, 0);
}

#[test]
fn now_playing_label_falls_back_to_the_album_artist() {
    let titles = vec!["A".to_string(), "B".to_string()];
    let artists = vec![String::new(), "X".to_string()];
    assert_eq!(now_playing_label(2, 0, &titles, &artists, "Band"), "A \u{2014} Band");
    assert_eq!(now_playing_label(2, 1, &titles, &artists, "Band"), "B \u{2014} X");
    assert_eq!(now_playing_label(2, 0, &titles, &artists, ""), "A");
    assert_eq!(now_playing_label(0, 0, &titles, &artists, "Band"), "");
    assert_eq!(now_playing_label(2, -1, &titles, &artists, "Band"), "");
}

#[test]
fn settings_list_rows() {
    let paths = vec!["/m".to_string(), "/n".to_string()];
    let (rows, sel) = settings_rows(&paths, true, false, "", 9);
    assert_eq!(sel, 4);
    assert_eq!(
        rows,
        vec![
            "  /m",
            "  /n",
            "  [+] Add folder...",
            "  \u{25a0} Merge all folders",
            "\u{25b8} [\u{21ba}] Rescan library",
        ]
    );
    let (rows, sel) = settings_rows(&paths, false, true, "ab", 2);
    assert_eq!(sel, 2);
    assert_eq!(rows[2], "\u{25b8} Path: ab_");
    assert_eq!(rows[3], "  \u{25a1} Merge all folders");
    let (rows, _) = settings_rows(&paths, false, false, "", 0);
    assert_eq!(rows[0], "\u{25b8} /m");
}

#[test]
fn title_bar_while_playing() {
    let titles = vec!["One".to_string(), "Two".to_string()];
    let artists = vec![String::new(), "Guest".to_string()];
    assert_eq!(title_bar_text(true, 0, &titles, &artists, "Band"), "\u{25b6}  01  \u{b7}  Band  \u{2014}  One");
    assert_eq!(title_bar_text(true, 1, &titles, &artists, "Band"), "\u{25b6}  02  \u{b7}  Guest  \u{2014}  Two");
    assert_eq!(title_bar_text(true, 0, &titles, &artists, ""), "\u{25b6}  01  \u{b7}  One");
    assert_eq!(title_bar_text(false, 0, &titles, &artists, "Band"), "");
}

#[test]
fn sidebar_width_bounds() {
    assert_eq!(sidebar_width(30, 100), 30);
    assert_eq!(sidebar_width(5, 100), 12);
    assert_eq!(sidebar_width(90, 100), 80);
    assert_eq!(sidebar_width(30, 25), 5);
    assert_eq!(sidebar_width(30, 10), 0);
}

#[test]
fn path_bar_breadcrumbs() {
    let h = vec!["/m/a".to_string(), "/m/a/bb".to_string()];
    let (rects, targets) = breadcrumbs(0, 0, &h, 1, true);
    assert_eq!(
        rects,
        vec![
            Rect { x: 5, y: 0, width: 7, height: 1 },
            Rect { x: 15, y: 0, width: 1, height: 1 },
            Rect { x: 19, y: 0, width: 2, height: 1 },
        ]
    );
    assert_eq!(targets, vec![None, Some(0), Some(1)]);
    let (rects, targets) = breadcrumbs(2, 3, &h, 0, true);
    assert_eq!(rects.len(), 2);
    assert_eq!(rects[1], Rect { x: 17, y: 3, width: 1, height: 1 });
    assert_eq!(targets, vec![None, Some(0)]);
    let (rects, targets) = breadcrumbs(0, 0, &h, 1, false);
    assert_eq!(rects, vec![Rect { x: 5, y: 0, width: 7, height: 1 }]);
    assert_eq!(targets, vec![None]);
    let (rects, _) = breadcrumbs(0, 0, &vec!["/".to_string()], 0, true);
    assert_eq!(rects[1].width, 1);
}

fn facts() -> TickFacts {
    TickFacts {
        since_position_ms: 0,
        since_lyrics_poll_ms: 0,
        since_drive_scan_ms: 0,
        since_disc_check_ms: 0,
        since_marquee_ms: 0,
        since_shimmer_ms: 0,
        since_session_ms: 0,
        is_file_mode: false,
        is_playing: false,
        is_loading: false,
        total_tracks: 0,
        has_drive: true,
        lyrics_idle: false,
        track_or_cover_changed: false,
        play_state_changed: false,
    }
}

#[test]
fn tick_jobs() {
    let p = tick_plan(facts());
    assert!(!p.update_position && !p.scan_drives && !p.check_disc && !p.session_position);
    let p = tick_plan(TickFacts { since_position_ms: 101, since_drive_scan_ms: 2000, ..facts() });
    assert!(p.update_position);
    assert!(!p.scan_drives);
    let p = tick_plan(TickFacts { since_drive_scan_ms: 2000, total_tracks: 5, ..facts() });
    assert!(p.scan_drives);
    let p = tick_plan(TickFacts { since_disc_check_ms: 2001, ..facts() });
    assert!(p.check_disc && p.reset_disc_timer);
    let p = tick_plan(TickFacts { since_disc_check_ms: 2001, has_drive: false, ..facts() });
    assert!(!p.check_disc && p.reset_disc_timer);
    let p = tick_plan(TickFacts { since_disc_check_ms: 2001, is_playing: true, lyrics_idle: true, ..facts() });
    assert!(!p.reset_disc_timer && p.fetch_lyrics);
    let p = tick_plan(TickFacts { track_or_cover_changed: true, ..facts() });
    assert!(p.session_metadata && p.session_position);
    let p = tick_plan(TickFacts { is_playing: true, since_session_ms: 3001, ..facts() });
    assert!(!p.session_metadata && p.session_position);
}

#[test]
fn playing_a_browsed_row() {
    let b = browse_tracks(&vec![local("/a/1.flac", "One", 5), local("/a/2.flac", "Two", 5)]);
    match play_browsed(true, &b, 1) {
        BrowsedPlay::LoadAlbum { paths, index } => {
            assert_eq!(paths, vec!["/a/1.flac", "/a/2.flac"]);
            assert_eq!(index, 1);
        }
        other => panic!("unexpected {:?}", other),
    }
    assert!(matches!(play_browsed(false, &b, 3), BrowsedPlay::PlayLoaded { index: 3 }));
}
