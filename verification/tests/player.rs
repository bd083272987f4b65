use kanae::cd_reader::{DriveInfo, TrackInfo};
use kanae::file_player::LocalTrack;
use kanae::musicbrainz::AlbumMetadata;
use kanae::player::{
    album_context_for, derive_album_meta, next_index_from, open_retry_delay_ms, pseudo_random, pseudo_random_from,
    toc_retry_delay_ms, Advance, DiscRead, DiscRefresh, DiscUpdate, EjectOrClose, PlayPause, PlaybackTarget, PlayerController,
    TrackEnd, REPEAT_ALL, REPEAT_OFF, REPEAT_ONE,
};
use kanae::queue::QueueEntry;
use kanae::smtc::SmtcUpdate;

fn track(path: &str, album: &str, album_artist: &str, year: &str) -> LocalTrack {
    LocalTrack {
        path: path.to_string(),
        title: path.rsplit('/').next().unwrap().to_string(),
        artist: "Artist".to_string(),
        album: album.to_string(),
        album_artist: album_artist.to_string(),
        year: year.to_string(),
        duration_secs: 185,
        cover_art_path: None,
    }
}

fn album(n: usize) -> Vec<LocalTrack> {
    (0..n).map(|i| track(&format!("/music/al/{}.flac", i + 1), "Al", "Band", "2001")).collect()
}

fn entry(path: &str) -> QueueEntry {
    QueueEntry { path: path.to_string(), title: "q".to_string(), artist: "a".to_string(), duration: "01:00".to_string() }
}

fn session(n: usize) -> PlayerController {
    let mut p = PlayerController::new(true);
    let tracks = album(n);
    let meta = derive_album_meta(&tracks, &["/music/al".to_string()], false);
    p.apply_local_tracks(tracks, false, meta);
    p
}

#[test]
fn album_header_from_common_tags() {
    let tracks = album(3);
    let m = derive_album_meta(&tracks, &["/music/al".to_string()], false);
    assert_eq!(m.title, "Al");
    assert_eq!(m.artist, "Band");
    assert_eq!(m.year, "2001");
    let mixed = vec![track("/x/1.mp3", "A", "B", "1999"), track("/x/2.mp3", "C", "", "2000")];
    let m = derive_album_meta(&mixed, &["/music/Folder".to_string()], false);
    assert_eq!(m.title, "Folder");
    assert_eq!(m.artist, "");
    assert_eq!(m.year, "");
    let single = derive_album_meta(&mixed[..1], &[], true);
    assert_eq!(single.title, "1.mp3");
    assert_eq!(single.artist, "Artist");
}

#[test]
fn album_context_picks_the_matching_album() {
    let this = track("/m/d/2.mp3", "X", "", "");
    let siblings = vec![
        track("/m/d/1.mp3", "X", "", ""),
        track("/m/d/other.mp3", "Y", "", ""),
        track("/m/d/2.mp3", "X", "", ""),
    ];
    let (tracks, idx) = album_context_for(this, siblings);
    assert_eq!(tracks.len(), 2);
    assert_eq!(idx, 1);
    assert_eq!(tracks[1].path, "/m/d/2.mp3");
    let loose = track("/m/d/loose.mp3", "", "", "");
    let (tracks, idx) = album_context_for(loose, vec![track("/m/d/1.mp3", "", "", "")]);
    assert_eq!(tracks.len(), 1);
    assert_eq!(idx, 0);
    assert_eq!(tracks[0].path, "/m/d/loose.mp3");
}

#[test]
fn random_index_in_range() {
    assert_eq!(pseudo_random(0), 0);
    for n in 1..20 {
        assert!(pseudo_random(n) < n);
    }
    // xorshift of seed 0 (taken as 1): 1 ^ 1<<13 = 8193; ^ >>7 = 8257; ^ <<17 = 1082269761
    assert_eq!(pseudo_random_from(0, 1_000_000_000_000), 1_082_269_761);
    assert_eq!(pseudo_random_from(0, 10), 1);
}

#[test]
fn in_order_next_and_repeat() {
    let mut h = Vec::new();
    assert_eq!(next_index_from(2, 5, REPEAT_OFF, false, &mut h, 7), Some(3));
    assert_eq!(next_index_from(4, 5, REPEAT_OFF, false, &mut h, 7), None);
    assert_eq!(next_index_from(4, 5, REPEAT_ALL, false, &mut h, 7), Some(0));
    assert_eq!(next_index_from(3, 5, REPEAT_ONE, true, &mut h, 7), Some(3));
    assert_eq!(next_index_from(-1, 5, REPEAT_ONE, false, &mut h, 7), Some(0));
    assert_eq!(next_index_from(0, 0, REPEAT_ALL, false, &mut h, 7), None);
}

#[test]
fn shuffle_never_repeats_within_a_pass() {
    let total = 6;
    let mut h = Vec::new();
    let mut current = 0;
    let mut seen = vec![current];
    for seed in 0..(total as u64 - 1) {
        let next = next_index_from(current, total, REPEAT_OFF, true, &mut h, seed * 7919 + 3).unwrap();
        assert!(!seen.contains(&next), "shuffle repeated {} before the pass ended", next);
        seen.push(next);
        current = next;
    }
    // Every track played: the pass is over and repeat is off.
    assert_eq!(next_index_from(current, total, REPEAT_OFF, true, &mut h, 1), None);
    assert!(h.is_empty());
}

#[test]
fn shuffle_with_repeat_all_starts_a_new_pass() {
    let mut h = vec![0, 1, 2];
    let next = next_index_from(3, 4, REPEAT_ALL, true, &mut h, 5);
    assert!(next.is_some());
    assert!(h.is_empty());
}

#[test]
fn load_and_previous() {
    let mut p = session(3);
    assert!(!p.load_track(5));
    assert!(p.load_track(2));
    assert_eq!(p.current_track, 2);
    assert!(p.previous_track());
    assert_eq!(p.current_track, 1);
    assert!(p.previous_track());
    assert!(!p.previous_track());
    assert_eq!(p.current_track, 0);
}

#[test]
fn play_pause_toggles() {
    let mut p = session(2);
    assert!(matches!(p.play_pause(), PlayPause::NotStarted));
    p.load_track(1);
    match p.play_pause() {
        PlayPause::Started(PlaybackTarget::File { path }) => assert_eq!(path, "/music/al/2.flac"),
        _ => panic!("expected a file to start"),
    }
    assert!(p.is_playing);
    assert!(matches!(p.play_pause(), PlayPause::Paused));
    assert!(!p.is_playing);
}

#[test]
fn repeat_cycles_through_three_modes() {
    let mut p = PlayerController::new(false);
    p.cycle_repeat();
    assert_eq!(p.repeat_mode, REPEAT_ALL);
    p.cycle_repeat();
    assert_eq!(p.repeat_mode, REPEAT_ONE);
    p.cycle_repeat();
    assert_eq!(p.repeat_mode, REPEAT_OFF);
}

#[test]
fn shuffle_toggle_resets_history() {
    let mut p = PlayerController::new(false);
    p.shuffle_history = vec![1, 2];
    p.toggle_shuffle();
    assert!(p.shuffle);
    assert!(p.shuffle_history.is_empty());
    p.toggle_shuffle();
    assert!(!p.shuffle);
}

#[test]
fn queue_plays_first_then_returns_to_album() {
    let mut p = session(3);
    p.load_track(0);
    p.queue.extend_from_paths(vec![entry("/other/song.mp3")]);
    match p.advance() {
        Advance::Queued(e) => {
            assert_eq!(e.path, "/other/song.mp3");
            let this = track("/other/song.mp3", "", "", "");
            p.play_queue_entry(&e, this, Vec::new());
        }
        _ => panic!("the queue plays first"),
    }
    assert_eq!(p.file_tracks.len(), 1);
    assert_eq!(p.album_title, "song.mp3");
    assert_eq!(p.current_track, 0);
    // Queue drained: back to the album, at the track after the one playing.
    assert!(matches!(p.advance(), Advance::Loaded));
    assert_eq!(p.file_tracks.len(), 3);
    assert_eq!(p.current_track, 1);
    assert_eq!(p.album_title, "Al");
    assert!(p.queue_resume.is_none());
}

#[test]
fn queue_play_at_drops_entries_before() {
    let mut p = session(2);
    p.queue.extend_from_paths(vec![entry("/a.mp3"), entry("/b.mp3"), entry("/c.mp3")]);
    assert_eq!(p.queue_play_at(1).unwrap().path, "/b.mp3");
    assert_eq!(p.queue.len(), 1);
    assert!(p.queue_resume.is_some());
    assert!(p.queue_play_at(-1).is_none());
    assert!(p.queue_play_at(4).is_none());
    assert!(p.queue.is_empty());
}

#[test]
fn next_track_skips_in_repeat_one() {
    let mut p = session(3);
    p.load_track(0);
    p.repeat_mode = REPEAT_ONE;
    assert!(matches!(p.next_track(), Advance::Loaded));
    assert_eq!(p.current_track, 1);
    assert_eq!(p.repeat_mode, REPEAT_ONE);
    p.repeat_mode = REPEAT_OFF;
    p.load_track(2);
    assert!(matches!(p.next_track(), Advance::Finished));
}

#[test]
fn crossfade_needs_a_next_track() {
    let mut p = session(2);
    p.load_track(1);
    assert!(!p.begin_crossfade());
    assert!(p.crossfade_armed);
    p.load_track(0);
    assert!(p.begin_crossfade());
}

#[test]
fn drive_selection() {
    let mut p = PlayerController::new(false);
    let drives = vec![
        DriveInfo { path: "/dev/sr0".to_string(), display_name: "sr0".to_string() },
        DriveInfo { path: "/dev/sr1".to_string(), display_name: "sr1".to_string() },
    ];
    assert_eq!(p.scan_drives(drives.clone(), &vec![false, true]), Some(1));
    assert_eq!(p.current_drive_path.as_deref(), Some("/dev/sr1"));
    assert_eq!(p.scan_drives(drives, &vec![]), Some(0));
    assert_eq!(p.current_drive_path.as_deref(), Some("/dev/sr0"));
    assert!(p.select_drive(1));
    assert_eq!(p.selected_drive_index, 1);
    assert!(!p.select_drive(2));
    assert_eq!(p.eject_disc().as_deref(), Some("/dev/sr1"));
    assert_eq!(p.scan_drives(Vec::new(), &vec![]), None);
    assert_eq!(p.selected_drive_index, -1);
}

#[test]
fn disc_load_titles_and_refresh() {
    let mut p = PlayerController::new(false);
    p.current_drive_path = Some("/dev/sr0".to_string());
    let tracks = vec![TrackInfo { track_number: 1, sector_count: 7_500 }, TrackInfo { track_number: 2, sector_count: 15_000 }];
    let meta = AlbumMetadata {
        title: "Disc".to_string(),
        artist: "Band".to_string(),
        year: "1999".to_string(),
        track_titles: vec!["Intro".to_string(), String::new()],
        track_artists: vec!["Guest".to_string()],
        cover_art_url: None,
        disc_number: 1,
        disc_count: 2,
    };
    match p.poll_load(DiscRead::Loaded { tracks: tracks.clone(), metadata: Some(meta), disc_id: "id1".to_string() }, true) {
        DiscUpdate::Loaded { durations, new_disc, disc_number, disc_count } => {
            assert_eq!(durations, vec!["01:40".to_string(), "03:20".to_string()]);
            assert!(new_disc);
            assert_eq!((disc_number, disc_count), (1, 2));
        }
        _ => panic!("expected the disc to load"),
    }
    assert_eq!(p.track_titles, vec!["Intro".to_string(), "Track 2".to_string()]);
    assert_eq!(p.track_artists, vec!["Guest".to_string(), String::new()]);
    assert_eq!(p.album_title, "Disc");
    assert_eq!(p.total_tracks, 2);
    assert!(matches!(
        p.poll_load(DiscRead::Loaded { tracks, metadata: None, disc_id: "id1".to_string() }, false),
        DiscUpdate::Refreshed
    ));
    assert!(matches!(p.start_playback(), None));
    p.load_track(1);
    match p.start_playback() {
        Some(PlaybackTarget::Disc { drive_path, track_number }) => {
            assert_eq!(drive_path, "/dev/sr0");
            assert_eq!(track_number, 2);
        }
        _ => panic!("expected the disc track to start"),
    }
    match p.poll_load(DiscRead::Empty { status: "No disc inserted".to_string() }, false) {
        DiscUpdate::Missing { status, cleared } => {
            assert_eq!(status, "No disc inserted");
            assert!(cleared);
        }
        _ => panic!("expected the disc to be dropped"),
    }
    assert_eq!(p.total_tracks, 0);
    assert_eq!(p.current_track, -1);
}

#[test]
fn track_end_on_disc_error_drops_the_disc() {
    let mut p = PlayerController::new(false);
    p.cd_tracks = vec![TrackInfo { track_number: 1, sector_count: 75 }];
    p.total_tracks = 1;
    p.current_track = 0;
    p.is_playing = true;
    assert!(matches!(p.track_ended(true), TrackEnd::DiscLost));
    assert_eq!(p.total_tracks, 0);
    assert!(p.cd_tracks.is_empty());
    assert!(!p.is_playing);
}

#[test]
fn presence_shows_album_artist_when_track_has_none() {
    let mut p = session(2);
    p.load_track(0);
    p.track_artists[0] = String::new();
    let pr = p.sync_discord().unwrap();
    assert_eq!(pr.title, "1.flac");
    assert_eq!(pr.artist, "Band");
    assert_eq!(pr.album, "Al");
    assert!(p.set_discord_enabled(false).is_none());
}

#[test]
fn dropped_urls_become_paths() {
    let mut p = session(2);
    let paths = p.open_dropped_paths(&vec![
        "file:///home/me/a.mp3".to_string(),
        "file://relative/b.mp3".to_string(),
        "".to_string(),
        "/plain/c.mp3".to_string(),
    ]);
    assert_eq!(paths, vec!["/home/me/a.mp3", "relative/b.mp3", "/plain/c.mp3"]);
    assert!(!p.is_file_mode);
    assert_eq!(p.total_tracks, 0);
}

#[test]
fn eject_or_close_in_each_mode() {
    let mut p = session(2);
    assert!(matches!(p.eject_or_close(), EjectOrClose::Closed));
    assert!(!p.is_file_mode);
    p.current_drive_path = Some("/dev/sr0".to_string());
    match p.eject_or_close() {
        EjectOrClose::Eject(Some(d)) => assert_eq!(d, "/dev/sr0"),
        _ => panic!("expected the drive to eject"),
    }
}

#[test]
fn retry_delays() {
    assert_eq!(open_retry_delay_ms(0), 200);
    assert_eq!(open_retry_delay_ms(3), 1600);
    assert_eq!(open_retry_delay_ms(9), 3200);
    assert_eq!(toc_retry_delay_ms(0), 300);
    assert_eq!(toc_retry_delay_ms(4), 2400);
}

#[test]
fn drive_check_only_when_idle() {
    let mut p = PlayerController::new(false);
    assert!(p.check_drive(false, false).is_none());
    p.current_drive_path = Some("/dev/sr0".to_string());
    let c = p.check_drive(false, false).unwrap();
    assert!(c.lookup_metadata);
    assert!(c.show_loading);
    assert!(p.check_drive(true, false).is_none());
    assert!(p.check_drive(false, true).is_none());
}

#[test]
fn media_session_metadata_for_a_track() {
    let mut p = session(2);
    p.track_artists[1] = String::new();
    match p.media_metadata(1, 185_000) {
        SmtcUpdate::Metadata { title, artist, album, cover_url, duration_ms } => {
            assert_eq!(title, "2.flac");
            assert_eq!(artist, p.album_artist);
            assert_eq!(album, p.album_title);
            assert_eq!(cover_url, None);
            assert_eq!(duration_ms, Some(185_000));
        }
        other => panic!("unexpected {:?}", other),
    }
    p.cover_url = "file:///c.jpg".to_string();
    match p.media_metadata(0, 1) {
        SmtcUpdate::Metadata { artist, cover_url, .. } => {
            assert_eq!(artist, "Artist");
            assert_eq!(cover_url.as_deref(), Some("file:///c.jpg"));
        }
        other => panic!("unexpected {:?}", other),
    }
    match p.media_metadata(7, 1) {
        SmtcUpdate::Metadata { title, artist, .. } => {
            assert_eq!(title, "");
            assert_eq!(artist, p.album_artist);
        }
        other => panic!("unexpected {:?}", other),
    }
}

#[test]
fn refreshing_the_disc() {
    let mut p = PlayerController::new(false);
    p.total_tracks = 3;
    assert!(matches!(p.refresh_disc(true), DiscRefresh::Busy));
    assert_eq!(p.total_tracks, 3);
    match p.refresh_disc(false) {
        DiscRefresh::NoDrive { status } => assert_eq!(status, "No drive selected"),
        other => panic!("unexpected {:?}", other),
    }
    assert_eq!(p.total_tracks, 0);
    p.current_drive_path = Some("/dev/sr0".to_string());
    match p.refresh_disc(false) {
        DiscRefresh::Read { drive } => assert_eq!(drive, "/dev/sr0"),
        other => panic!("unexpected {:?}", other),
    }
}

#[test]
fn queue_play_at_remembers_the_album_once() {
    let mut p = session(3);
    p.load_track(1);
    p.queue.extend_from_paths(vec![entry("/a.mp3"), entry("/b.mp3")]);
    assert_eq!(p.queue_play_at(0).unwrap().path, "/a.mp3");
    let r = p.queue_resume.as_ref().unwrap();
    assert_eq!(r.tracks.len(), 3);
    assert_eq!(r.next_index, 2);
    assert!(!r.is_single);
    // A second skip keeps the album remembered the first time.
    p.current_track = 0;
    assert_eq!(p.queue_play_at(0).unwrap().path, "/b.mp3");
    assert_eq!(p.queue_resume.as_ref().unwrap().next_index, 2);
}

#[test]
fn turning_presence_on_publishes_the_current_track() {
    let mut p = session(2);
    p.discord_enabled = false;
    p.load_track(1);
    let pr = p.set_discord_enabled(true).unwrap();
    assert!(p.discord_enabled);
    assert_eq!(pr.title, "2.flac");
    assert_eq!(pr.artist, "Artist");
    assert!(!pr.is_playing);
    p.is_playing = true;
    assert!(p.set_discord_enabled(true).unwrap().is_playing);
    assert_eq!(pr.album, "Al");
    assert!(p.set_discord_enabled(false).is_none());
    assert!(!p.discord_enabled);
}

#[test]
fn clicked_queue_entry_starts_playing() {
    let mut p = session(2);
    p.load_track(0);
    p.queue.extend_from_paths(vec![entry("/x/one.mp3"), entry("/y/two.mp3")]);
    let e = p.queue_play_at(1).unwrap();
    assert_eq!(e.path, "/y/two.mp3");
    let this = track("/y/two.mp3", "", "", "");
    match p.play_picked_entry(&e, this, Vec::new()) {
        Some(PlaybackTarget::File { path }) => assert_eq!(path, "/y/two.mp3"),
        _ => panic!("a clicked entry plays"),
    }
    assert!(p.is_playing);
    assert_eq!(p.current_track, 0);
    assert_eq!(p.file_tracks.len(), 1);
    assert!(p.queue.is_empty());
    assert!(p.queue_resume.is_some());
}
