use kanae::file_player::{format_mm_ss, is_audio_file, LocalTrack};
use kanae::library_cache::{dirs_changed, is_legacy_cache, DirStat, TuiIconSet, TuiImageMethod, TuiSettings};
use kanae::library::{LibraryAlbum, LibraryScanResult};
use kanae::paths::{file_name_of, file_stem_of, extension_of, parent_file_name_of, same_path_str, starts_with_str, parent_is};
use kanae::text::trim_str;
use kanae::file_player::{track_from_tags, FallbackTags, TextTag};
use kanae::file_player::cover_file_url;

fn s(v: Option<Vec<char>>) -> Option<String> {
    v.map(|c| c.into_iter().collect())
}

#[test]
fn path_pieces() {
    assert_eq!(s(file_name_of("/a/b/c.flac")), Some("c.flac".to_string()));
    assert_eq!(s(file_name_of("/")), None);
    assert_eq!(s(file_stem_of("/a/.hidden")), Some(".hidden".to_string()));
    assert_eq!(s(extension_of("/a/b.tar.gz")), Some("gz".to_string()));
    assert_eq!(s(extension_of("/a/b")), None);
    assert_eq!(s(parent_file_name_of("/music/album/1.mp3")), Some("album".to_string()));
    assert_eq!(s(parent_file_name_of("song.mp3")), None);
    assert!(same_path_str("/a//b/", "/a/b"));
    assert!(!same_path_str("/a/b", "a/b"));
    assert!(starts_with_str("/music/a/b", "/music/a"));
    assert!(!starts_with_str("/music/ab", "/music/a"));
    assert!(parent_is("/music/a/b", "/music/a"));
}

#[test]
fn audio_extensions() {
    assert!(is_audio_file("/x/Song.FLAC"));
    assert!(is_audio_file("a.mp3"));
    assert!(!is_audio_file("cover.jpg"));
    assert!(!is_audio_file("noext"));
}

#[test]
fn durations() {
    assert_eq!(format_mm_ss(0), "00:00");
    assert_eq!(format_mm_ss(185), "03:05");
    let t = LocalTrack {
        path: String::new(),
        title: String::new(),
        artist: String::new(),
        album: String::new(),
        album_artist: String::new(),
        year: String::new(),
        duration_secs: 3_725,
        cover_art_path: None,
    };
    assert_eq!(t.display_duration(), "62:05");
}

#[test]
fn trimming() {
    assert_eq!(trim_str("  a b \t\n"), "a b");
    assert_eq!(trim_str(""), "");
}

#[test]
fn tui_setting_cycles() {
    let m = TuiImageMethod::Auto;
    assert_eq!(m.next().prev(), m);
    let mut x = m;
    for _ in 0..6 {
        x = x.next();
    }
    assert_eq!(x, m);
    assert_eq!(TuiImageMethod::Disabled.label(), "None");
    let i = TuiIconSet::NerdFonts;
    assert_eq!(i.next().next().next(), i);
    assert_eq!(i.prev(), TuiIconSet::PlainText);
    let st = TuiSettings::new();
    assert_eq!(st.image_method, TuiImageMethod::Auto);
}

#[test]
fn legacy_caches_and_staleness() {
    let mut r = LibraryScanResult { albums: Vec::new(), dirs: vec!["/music/a".to_string()], dir_mtimes: vec![("/music/a".to_string(), 5)] };
    assert!(!is_legacy_cache(&r));
    r.albums.push(LibraryAlbum {
        id: String::new(),
        dir: "/music/a".to_string(),
        album: String::new(),
        album_artist: String::new(),
        year: String::new(),
        cover_url: None,
        track_paths: Vec::new(),
        is_single: false,
    });
    assert!(is_legacy_cache(&r));
    let roots = vec!["/music".to_string()];
    assert!(!dirs_changed(&roots, &vec![true], &r.dirs, &vec![DirStat::Modified(5)], &r.dir_mtimes));
    assert!(dirs_changed(&roots, &vec![true], &r.dirs, &vec![DirStat::Modified(6)], &r.dir_mtimes));
    assert!(dirs_changed(&roots, &vec![true], &r.dirs, &vec![DirStat::Missing], &r.dir_mtimes));
    assert!(!dirs_changed(&roots, &vec![true], &r.dirs, &vec![DirStat::Unknown], &r.dir_mtimes));
    assert!(dirs_changed(&vec!["/films".to_string()], &vec![true], &r.dirs, &vec![DirStat::Modified(5)], &r.dir_mtimes));
    assert!(!dirs_changed(&vec!["/films".to_string()], &vec![false], &r.dirs, &vec![DirStat::Modified(5)], &r.dir_mtimes));
}

#[test]
fn tags_merge_in_order() {
    let tags = vec![
        TextTag::Title("Song".to_string()),
        TextTag::Artist("Band".to_string()),
        TextTag::RecordingDate("1999-01-02".to_string()),
        TextTag::ReleaseDate("2001-05".to_string()),
        TextTag::RecordingDate("1980".to_string()),
    ];
    let t = track_from_tags("/m/a.mp3".to_string(), Some("a".to_string()), &tags, &None, 200, None);
    assert_eq!(t.title, "Song");
    assert_eq!(t.year, "2001");
    assert_eq!(t.album_artist, "Band");
    assert_eq!(t.duration_secs, 200);
    let fb = Some(FallbackTags {
        title: Some("Tagged".to_string()),
        artist: None,
        album: Some("LP".to_string()),
        year: Some(1977),
        album_artist: Some("Various".to_string()),
    });
    let t = track_from_tags("/m/b.mp3".to_string(), Some("b".to_string()), &Vec::new(), &fb, 0, None);
    assert_eq!(t.title, "Tagged");
    assert_eq!(t.album, "LP");
    assert_eq!(t.year, "1977");
    assert_eq!(t.album_artist, "Various");
    let t = track_from_tags("/m/c".to_string(), None, &tags[..1].to_vec(), &fb, 0, Some("file:///x.png".to_string()));
    assert_eq!(t.title, "Song");
    assert_eq!(t.album, "");
    assert_eq!(t.cover_art_path.as_deref(), Some("file:///x.png"));
    // The tag reader's artist stands in for an album artist nobody gave.
    let fb = Some(FallbackTags { title: None, artist: Some("A".to_string()), album: None, year: None, album_artist: None });
    let t = track_from_tags("/m/d.mp3".to_string(), Some("d".to_string()), &Vec::new(), &fb, 0, None);
    assert_eq!(t.artist, "A");
    assert_eq!(t.album_artist, "A");
}

#[test]
fn cover_urls() {
    assert_eq!(cover_file_url("/home/me/cover.jpg"), "file:///home/me/cover.jpg");
    assert_eq!(cover_file_url("C:\\Music\\cover.png"), "file:///C:/Music/cover.png");
    assert_eq!(cover_file_url("//x"), "file:///x");
}
