use kanae::library::{LibraryAlbum, LibraryScanResult, LibrarySettings};
use kanae::tui_library::{library_nodes, open_item, ItemOpen, TuiLibrary, TuiLibraryNode};

fn settings(roots: &[&str]) -> LibrarySettings {
    LibrarySettings {
        search_paths: roots.iter().map(|r| r.to_string()).collect(),
        merged_folders: Vec::new(),
        ignored_folders: Vec::new(),
        pinned_paths: Vec::new(),
        merge_all_folders: false,
        lrc_limit_disabled: false,
        romanize_lyrics: false,
        discord_rpc: false,
    }
}

fn album(name: &str, dir: &str) -> LibraryAlbum {
    LibraryAlbum {
        id: format!("{}#{}", dir, name),
        dir: dir.to_string(),
        album: name.to_string(),
        album_artist: "Band".to_string(),
        year: "1999".to_string(),
        cover_url: None,
        track_paths: vec![format!("{}/1.flac", dir), format!("{}/2.flac", dir)],
        is_single: false,
    }
}

fn scan() -> LibraryScanResult {
    LibraryScanResult {
        albums: vec![album("Loose", "/m"), album("A", "/m/a"), album("B", "/m/b/x"), album("A2", "/m/a")],
        dirs: vec!["/m/a".to_string(), "/m/b".to_string(), "/m/b/x".to_string(), "/m/a/".to_string()],
        dir_mtimes: Vec::new(),
    }
}

fn names(nodes: &[TuiLibraryNode]) -> Vec<String> {
    nodes.iter().map(|n| format!("{}{}", n.icon(), n.name())).collect()
}

#[test]
fn root_lists_folders_then_loose_albums() {
    let s = settings(&["/m"]);
    let nodes = library_nodes(&s, &scan(), &None, false);
    assert_eq!(names(&nodes), vec!["\u{25b6}a", "\u{25b6}b", "\u{266a}A"]);
    let s = settings(&["/"]);
    let nodes = library_nodes(&s, &scan(), &None, true);
    assert_eq!(names(&nodes), vec!["\u{2299}Audio CD", "\u{266a}Loose"]);
}

#[test]
fn root_falls_back_to_every_album() {
    let s = settings(&["/elsewhere"]);
    let nodes = library_nodes(&s, &scan(), &None, false);
    assert_eq!(nodes.len(), 4);
    assert_eq!(nodes[0].sub(), "Band");
    assert_eq!(nodes[0].year(), "1999");
}

#[test]
fn merged_root_lists_every_album() {
    let mut s = settings(&["/m"]);
    s.merge_all_folders = true;
    let nodes = library_nodes(&s, &scan(), &None, true);
    assert_eq!(names(&nodes), vec!["\u{2299}Audio CD", "\u{266a}Loose", "\u{266a}A", "\u{266a}B", "\u{266a}A2"]);
}

#[test]
fn folder_lists_subfolders_and_albums() {
    let mut s = settings(&["/m"]);
    let nodes = library_nodes(&s, &scan(), &Some("/m/b".to_string()), true);
    assert_eq!(names(&nodes), vec!["\u{25b6}x", "\u{266a}B"]);
    s.ignored_folders = vec!["/m/b/x/".to_string()];
    let nodes = library_nodes(&s, &scan(), &Some("/m/b".to_string()), false);
    assert_eq!(names(&nodes), vec!["\u{266a}B"]);
    let nodes = library_nodes(&s, &scan(), &Some("/m/a".to_string()), false);
    assert_eq!(names(&nodes), vec!["\u{266a}A", "\u{266a}A2"]);
    assert!(nodes[0].sub() == "Band");
}

#[test]
fn history_goes_back_to_the_root() {
    let mut l = TuiLibrary::new(settings(&["/m"]));
    assert!(!l.can_go_back());
    l.navigate_to("/m/a".to_string());
    assert!(l.can_go_back());
    assert_eq!(l.current_dir().as_deref(), Some("/m/a"));
    l.navigate_to("/m/a/b".to_string());
    l.navigate_back();
    assert_eq!(l.current_dir().as_deref(), Some("/m/a"));
    assert!(l.can_go_forward());
    l.navigate_forward();
    assert_eq!(l.current_dir().as_deref(), Some("/m/a/b"));
    l.navigate_back();
    l.navigate_back();
    assert_eq!(l.current_dir(), None);
    assert!(l.nav_stack.is_empty());
    assert!(!l.can_go_back());
    l.navigate_to("/m/b".to_string());
    l.navigate_to_root();
    assert_eq!(l.current_dir(), None);
}

#[test]
fn refresh_follows_the_history() {
    let mut l = TuiLibrary::new(settings(&["/m"]));
    l.refresh_nodes(true);
    assert!(l.nodes.is_empty());
    l.scan_result = Some(scan());
    l.refresh_nodes(true);
    assert_eq!(names(&l.nodes), vec!["\u{2299}Audio CD", "\u{25b6}a", "\u{25b6}b", "\u{266a}A"]);
    l.navigate_to("/m/b".to_string());
    l.refresh_nodes(true);
    assert_eq!(names(&l.nodes), vec!["\u{25b6}x", "\u{266a}B"]);
}

#[test]
fn album_tracks_of_a_folder() {
    let mut l = TuiLibrary::new(settings(&["/m"]));
    assert!(l.album_tracks("/m/a").is_empty());
    l.scan_result = Some(scan());
    assert_eq!(l.album_tracks("/m/a/"), vec!["/m/a/1.flac", "/m/a/2.flac"]);
    assert!(l.album_tracks("/m/zzz").is_empty());
}

#[test]
fn opening_rows() {
    let s = settings(&["/"]);
    let nodes = library_nodes(&s, &scan(), &None, true);
    assert!(matches!(open_item(&nodes, 0, false, &None, -1), ItemOpen::Disc));
    match open_item(&nodes, 1, false, &None, -1) {
        ItemOpen::Browse { dir, name } => assert_eq!((dir.as_str(), name.as_str()), ("/m", "Loose")),
        other => panic!("unexpected {:?}", other),
    }
    match open_item(&nodes, 1, true, &Some("/m/".to_string()), 3) {
        ItemOpen::Playing { name, cursor } => assert_eq!((name.as_str(), cursor), ("Loose", 3)),
        other => panic!("unexpected {:?}", other),
    }
    match open_item(&nodes, 1, false, &Some("/m".to_string()), 3) {
        ItemOpen::Browse { .. } => {}
        other => panic!("unexpected {:?}", other),
    }
    assert!(matches!(open_item(&nodes, 9, false, &None, -1), ItemOpen::Nothing));
    let nodes = library_nodes(&settings(&["/m"]), &scan(), &None, false);
    match open_item(&nodes, 1, false, &None, -1) {
        ItemOpen::Folder(p) => assert_eq!(p, "/m/b"),
        other => panic!("unexpected {:?}", other),
    }
}

#[test]
fn scanned_albums_are_appended() {
    let mut l = TuiLibrary::new(settings(&["/m"]));
    assert!(!l.add_scanned_albums(Vec::new()));
    assert!(l.scan_result.is_none());
    assert!(l.add_scanned_albums(vec![album("A", "/m/a")]));
    assert!(l.add_scanned_albums(vec![album("B", "/m/b"), album("A", "/m/a")]));
    let r = l.scan_result.as_ref().unwrap();
    assert_eq!(r.albums.iter().map(|a| a.album.as_str()).collect::<Vec<_>>(), vec!["A", "B", "A"]);
    assert!(r.dirs.is_empty());
}
