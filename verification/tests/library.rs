use kanae::file_player::LocalTrack;
use kanae::library_cache::record_dir_mtime;
use kanae::library::{group_into_albums, order_albums, reusable_albums, LibraryAlbum, LibraryScanResult};

fn track(path: &str, album: &str, artist: &str) -> LocalTrack {
    LocalTrack {
        path: path.to_string(),
        title: path.rsplit('/').next().unwrap_or(path).to_string(),
        artist: artist.to_string(),
        album: album.to_string(),
        album_artist: artist.to_string(),
        year: String::new(),
        duration_secs: 0,
        cover_art_path: None,
    }
}

#[test]
fn untagged_tracks_become_distinct_singles() {
    let dir = "/music";
    let tracks = vec![
        track("/music/a.mp3", "", "Artist A"),
        track("/music/b.mp3", "", "Artist B"),
    ];
    let albums = group_into_albums(dir, &tracks);
    assert_eq!(albums.len(), 2, "two untagged files must be two singles");
    assert!(albums.iter().all(|a| a.is_single));
    assert_ne!(albums[0].id, albums[1].id, "singles need distinct ids");
    // Each single owns exactly its own track.
    assert!(albums.iter().all(|a| a.track_paths.len() == 1));
}

#[test]
fn differently_tagged_tracks_in_one_dir_are_separate_albums() {
    let dir = "/music";
    let tracks = vec![
        track("/music/x.mp3", "Album X", "Artist"),
        track("/music/y.mp3", "Album Y", "Artist"),
    ];
    let albums = group_into_albums(dir, &tracks);
    assert_eq!(albums.len(), 2);
    assert_ne!(albums[0].id, albums[1].id);
}

#[test]
fn same_album_tag_groups_together() {
    let dir = "/music/album";
    let tracks = vec![
        track("/music/album/1.mp3", "One Album", "Artist"),
        track("/music/album/2.mp3", "One Album", "Artist"),
    ];
    let albums = group_into_albums(dir, &tracks);
    assert_eq!(albums.len(), 1);
    assert_eq!(albums[0].track_paths.len(), 2);
    assert!(!albums[0].is_single);
}

#[test]
fn ids_are_stable_across_runs() {
    let dir = "/music";
    let tracks = vec![track("/music/a.mp3", "", "A")];
    let first = group_into_albums(dir, &tracks);
    let second = group_into_albums(dir, &tracks);
    assert_eq!(first[0].id, second[0].id, "ids must be deterministic");
}

fn lib_album(id: &str, dir: &str, album: &str, artist: &str) -> LibraryAlbum {
    LibraryAlbum {
        id: id.to_string(),
        dir: dir.to_string(),
        album: album.to_string(),
        album_artist: artist.to_string(),
        year: String::new(),
        cover_url: None,
        track_paths: vec![format!("{}/1.mp3", dir)],
        is_single: false,
    }
}

#[test]
fn scan_order_pins_then_artist_album_id() {
    let albums = vec![
        lib_album("3", "/m/c", "Zeta", "abba"),
        lib_album("2", "/m/b", "alpha", "ABBA"),
        lib_album("1", "/m/a", "Omega", "Beatles"),
        lib_album("0", "/m/d", "alpha", "abba"),
    ];
    let ids = |v: &Vec<LibraryAlbum>| v.iter().map(|a| a.id.clone()).collect::<Vec<_>>();
    let sorted = order_albums(albums, &vec![]);
    assert_eq!(ids(&sorted), vec!["0", "2", "3", "1"]);
    let pinned = order_albums(sorted, &vec!["/m/a".to_string()]);
    assert_eq!(ids(&pinned), vec!["1", "0", "2", "3"]);
}

#[test]
fn unchanged_dirs_reuse_their_albums() {
    let prev = LibraryScanResult {
        albums: vec![lib_album("x", "/m/a", "X", ""), lib_album("", "/m/a", "Legacy", ""), lib_album("y", "/m/b", "Y", "")],
        dirs: vec!["/m/a".to_string(), "/m/b".to_string()],
        dir_mtimes: vec![("/m/a".to_string(), 10), ("/m/b".to_string(), 20)],
    };
    let r = reusable_albums(&prev, "/m/a", Some(10)).unwrap();
    assert_eq!(r.len(), 1);
    assert_eq!(r[0].id, "x");
    assert!(reusable_albums(&prev, "/m/a", Some(11)).is_none());
    assert!(reusable_albums(&prev, "/m/a", None).is_none());
    assert!(reusable_albums(&prev, "/m/c", Some(10)).is_none());
}

#[test]
fn dir_mtimes_keep_each_folder_once() {
    let mut m: Vec<(String, u64)> = Vec::new();
    record_dir_mtime(&mut m, "/music/a", 10);
    record_dir_mtime(&mut m, "/music/b", 20);
    record_dir_mtime(&mut m, "/music/a/", 30);
    assert_eq!(m, vec![("/music/a".to_string(), 30), ("/music/b".to_string(), 20)]);
}
