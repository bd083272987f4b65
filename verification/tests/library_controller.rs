use kanae::library::{LibraryAlbum, LibraryScanResult, LibrarySettings};
use kanae::library_controller::{progress_message, InitStep, LibraryController};
use kanae::lyric_cache::{LrcEntry, LyricContentCache, NoLyricsEntry};

fn settings() -> LibrarySettings {
    LibrarySettings {
        search_paths: vec!["/music".to_string()],
        merged_folders: Vec::new(),
        ignored_folders: Vec::new(),
        pinned_paths: Vec::new(),
        merge_all_folders: false,
        lrc_limit_disabled: false,
        romanize_lyrics: false,
        discord_rpc: true,
    }
}

fn album(id: &str, dir: &str) -> LibraryAlbum {
    LibraryAlbum {
        id: id.to_string(),
        dir: dir.to_string(),
        album: id.to_string(),
        album_artist: String::new(),
        year: String::new(),
        cover_url: None,
        track_paths: vec![format!("{}/{}.mp3", dir, id)],
        is_single: false,
    }
}

#[test]
fn history_back_and_forward() {
    let mut c = LibraryController::new(settings());
    assert_eq!(c.current_path(), "Library");
    assert!(!c.can_go_back());
    c.navigate_to("/music/a".to_string());
    c.navigate_to("/music/a/b".to_string());
    assert_eq!(c.current_path(), "/music/a/b");
    assert!(c.can_go_back());
    c.navigate_back();
    assert_eq!(c.current_path(), "/music/a");
    assert!(c.can_go_forward());
    c.navigate_forward();
    assert_eq!(c.current_path(), "/music/a/b");
    c.navigate_back();
    // Opening another folder drops the forward history.
    c.navigate_to("/music/c".to_string());
    assert!(!c.can_go_forward());
    assert_eq!(c.nav_stack, vec!["/music/a".to_string(), "/music/c".to_string()]);
    c.navigate_to_root();
    assert_eq!(c.current_dir(), None);
    assert_eq!(c.current_path(), "Library");
}

#[test]
fn search_paths_are_kept_unique() {
    let mut c = LibraryController::new(settings());
    assert!(!c.add_search_path("/music/".to_string(), true));
    assert!(!c.add_search_path("/films".to_string(), false));
    assert!(c.add_search_path("/films".to_string(), true));
    assert_eq!(c.settings.search_paths.len(), 2);
    assert!(c.music_dir_set());
    assert!(c.remove_search_path("/music"));
    assert!(!c.remove_search_path("/films"));
    assert!(!c.music_dir_set());
    assert!(c.set_music_dir("/m".to_string()));
    assert!(!c.set_music_dir("/m".to_string()));
}

#[test]
fn folder_options() {
    let mut c = LibraryController::new(settings());
    c.set_folder_option("/music/x".to_string(), "pin");
    c.set_folder_option("/music/x".to_string(), "pin");
    assert_eq!(c.settings.pinned_paths, vec!["/music/x".to_string()]);
    c.set_folder_option("/music/x".to_string(), "merge");
    c.set_folder_option("/music/y".to_string(), "ignore");
    assert_eq!(c.settings.merged_folders.len(), 1);
    assert_eq!(c.settings.ignored_folders.len(), 1);
    c.set_folder_option("/music/x/".to_string(), "unpin");
    assert!(c.settings.pinned_paths.is_empty());
    c.set_folder_option("/music/x".to_string(), "bogus");
    assert_eq!(c.settings.merged_folders.len(), 1);
    c.set_folder_option("/music/x".to_string(), "merge_remove");
    c.set_folder_option("/music/y".to_string(), "ignore_remove");
    assert!(c.settings.merged_folders.is_empty());
    assert!(c.settings.ignored_folders.is_empty());
}

#[test]
fn toggles() {
    let mut c = LibraryController::new(settings());
    c.set_merge_all(true);
    c.set_lrc_limit_disabled(true);
    c.set_romanize_lyrics(true);
    c.set_discord_rpc(false);
    assert!(c.settings.merge_all_folders);
    assert!(c.settings.lrc_limit_disabled);
    assert!(c.settings.romanize_lyrics);
    assert!(!c.settings.discord_rpc);
}

#[test]
fn rescan_upserts_by_id() {
    let mut c = LibraryController::new(settings());
    assert!(!c.merge_scanned_albums(Vec::new()));
    assert!(c.merge_scanned_albums(vec![album("a", "/music/a"), album("b", "/music/b")]));
    assert!(c.merge_scanned_albums(vec![album("a", "/music/a2")]));
    let r: &LibraryScanResult = c.scan_result.as_ref().unwrap();
    let ids: Vec<&str> = r.albums.iter().map(|a| a.id.as_str()).collect();
    assert_eq!(ids, vec!["b", "a"]);
    assert_eq!(r.albums[1].dir, "/music/a2");
    assert_eq!(c.browse_album(&"a".to_string()), vec!["/music/a2/a.mp3".to_string()]);
    assert!(c.browse_album(&"zzz".to_string()).is_empty());
}

#[test]
fn purging_lyrics_caches() {
    let c = LibraryController::new(settings());
    let mut cache = LyricContentCache::from_parts(
        "/tmp/l.json".to_string(),
        vec![LrcEntry { key: "k".to_string(), lrc_text: "t".to_string(), accessed_ms: 0 }],
        vec![NoLyricsEntry { key: "n".to_string(), accessed_ms: 0 }],
    );
    c.purge_no_lyrics_cache(&mut cache);
    assert_eq!(cache.no_lyrics_count(), 0);
    assert_eq!(cache.lrc_count(), 1);
    c.purge_lrc_cache(&mut cache);
    assert_eq!(cache.lrc_count(), 0);
}

fn tagged(id: &str, dir: &str, name: &str, artist: &str) -> LibraryAlbum {
    let mut a = album(id, dir);
    a.album = name.to_string();
    a.album_artist = artist.to_string();
    a
}

fn scanned() -> LibraryScanResult {
    LibraryScanResult {
        albums: vec![
            tagged("a1", "/music/A", "Alpha", "Zed"),
            tagged("a2", "/music/B/x", "Beta", ""),
            tagged("a3", "/music/B/y", "Gamma", ""),
            tagged("a4", "/music/C/z", "Delta", ""),
        ],
        dirs: ["/music/A", "/music/B", "/music/B/x", "/music/B/y", "/music/C", "/music/C/z"]
            .iter()
            .map(|d| d.to_string())
            .collect(),
        dir_mtimes: Vec::new(),
    }
}

fn names(tiles: &[kanae::library_controller::LibraryTile]) -> Vec<String> {
    tiles.iter().map(|t| t.name.clone()).collect()
}

#[test]
fn root_tiles_promote_single_album_folders() {
    let r = scanned();
    let tiles = kanae::library_controller::build_nodes(&None, &r, &settings());
    assert_eq!(names(&tiles), vec!["B", "Delta", "Alpha"]);
    assert_eq!(tiles[0].kind, kanae::library_controller::TileKind::Folder);
    assert_eq!(tiles[0].path, "/music/B");
    assert_eq!(tiles[1].id, "a4");
}

#[test]
fn pinned_tiles_come_first() {
    let r = scanned();
    let mut s = settings();
    s.pinned_paths.push("/music/A".to_string());
    let tiles = kanae::library_controller::build_nodes(&None, &r, &s);
    assert_eq!(names(&tiles), vec!["Alpha", "B", "Delta"]);
    assert!(tiles[0].pinned);
}

#[test]
fn inside_a_folder() {
    let r = scanned();
    let tiles = kanae::library_controller::build_nodes(&Some("/music/B".to_string()), &r, &settings());
    assert_eq!(names(&tiles), vec!["Beta", "Gamma"]);
}

#[test]
fn merge_all_and_hidden_folders() {
    let r = scanned();
    let mut s = settings();
    s.merge_all_folders = true;
    s.ignored_folders.push("/music/C".to_string());
    let tiles = kanae::library_controller::build_nodes(&None, &r, &s);
    assert_eq!(names(&tiles), vec!["Beta", "Gamma", "Alpha"]);
}

#[test]
fn controller_refreshes_for_the_folder_shown() {
    let mut c = LibraryController::new(settings());
    assert!(c.refresh_nodes().is_none());
    c.scan_result = Some(scanned());
    c.navigate_to("/music/B".to_string());
    assert_eq!(names(&c.refresh_nodes().unwrap()), vec!["Beta", "Gamma"]);
}

#[test]
fn scan_progress_line_comes_from_the_last_counting_report() {
    assert_eq!(progress_message(&vec![]), None);
    assert_eq!(progress_message(&vec![(0, 0)]), None);
    assert_eq!(progress_message(&vec![(0, 0), (3, 1), (0, 0)]).as_deref(), Some("Scanning\u{2026} 3 files, 1 folders"));
    assert_eq!(progress_message(&vec![(1, 0), (5, 2)]).as_deref(), Some("Scanning\u{2026} 5 files, 2 folders"));
}

#[test]
fn start_up_from_the_cache() {
    let mut empty = settings();
    empty.search_paths.clear();
    let mut c = LibraryController::new(empty);
    assert_eq!(c.init(None, false), InitStep::PickDefaultDir);
    let mut c = LibraryController::new(settings());
    assert_eq!(c.init(None, false), InitStep::Scan);
    let legacy = LibraryScanResult { albums: vec![album("", "/music/a")], dirs: Vec::new(), dir_mtimes: Vec::new() };
    assert_eq!(c.init(Some(legacy), false), InitStep::Scan);
    assert!(c.scan_result.is_none());
    let fresh = LibraryScanResult { albums: vec![album("x", "/music/a")], dirs: Vec::new(), dir_mtimes: Vec::new() };
    assert_eq!(c.init(Some(fresh), false), InitStep::Watch);
    assert_eq!(c.scan_result.as_ref().map(|r| r.albums.len()), Some(1));
    let fresh = LibraryScanResult { albums: vec![album("x", "/music/a")], dirs: Vec::new(), dir_mtimes: Vec::new() };
    assert_eq!(c.init(Some(fresh), true), InitStep::Scan);
}
