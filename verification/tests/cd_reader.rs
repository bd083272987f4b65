use kanae::cd_reader::{get_track_info, Toc, Track, CD_EXTRA_GAP_SECTORS, format_duration, drive_letter, scan_drives};

fn track(number: u8, start_lba: u32, is_audio: bool) -> Track {
    Track { number, start_lba, start_msf: (0, 0, 0), is_audio }
}

fn seconds(sectors: u32) -> f64 {
    sectors as f64 / 75.0
}

#[test]
fn data_disc_has_no_playable_tracks() {
    let toc = Toc { first_track: 1, last_track: 1, tracks: vec![track(1, 0, false)], leadout_lba: 300_000 };
    assert!(get_track_info(&toc).is_empty());
}

#[test]
fn audio_disc_keeps_every_track() {
    let toc = Toc {
        first_track: 1,
        last_track: 2,
        tracks: vec![track(1, 0, true), track(2, 7_500, true)],
        leadout_lba: 22_500,
    };
    let tracks = get_track_info(&toc);
    assert_eq!(tracks.iter().map(|t| t.track_number).collect::<Vec<_>>(), vec![1, 2]);
    assert_eq!(seconds(tracks[0].sector_count), 100.0);
    assert_eq!(seconds(tracks[1].sector_count), 200.0);
}

#[test]
fn cd_extra_drops_data_track_and_session_gap() {
    let toc = Toc {
        first_track: 1,
        last_track: 3,
        tracks: vec![track(1, 0, true), track(2, 7_500, true), track(3, 30_000 + CD_EXTRA_GAP_SECTORS, false)],
        leadout_lba: 60_000,
    };
    let tracks = get_track_info(&toc);
    assert_eq!(tracks.len(), 2);
    assert_eq!(seconds(tracks[1].sector_count), 300.0);
}

#[test]
fn tracks_outside_the_disc_range_are_dropped() {
    let toc = Toc {
        first_track: 2,
        last_track: 2,
        tracks: vec![track(1, 0, true), track(2, 7_500, true)],
        leadout_lba: 15_000,
    };
    let tracks = get_track_info(&toc);
    assert_eq!(tracks.len(), 1);
    assert_eq!(tracks[0].track_number, 2);
    assert_eq!(tracks[0].sector_count, 7_500);
}

#[test]
fn empty_track_is_dropped() {
    let toc = Toc {
        first_track: 1,
        last_track: 2,
        tracks: vec![track(1, 0, true), track(2, 0, true)],
        leadout_lba: 7_500,
    };
    let tracks = get_track_info(&toc);
    assert_eq!(tracks.len(), 1);
    assert_eq!(tracks[0].track_number, 2);
}

#[test]
fn durations_print_minutes_and_seconds() {
    assert_eq!(format_duration(7_500), "01:40");
    assert_eq!(format_duration(74), "00:00");
    assert_eq!(format_duration(75 * 3_600), "60:00");
    assert_eq!(format_duration(75 * 6_001), "100:01");
}

#[test]
fn drive_labels() {
    assert_eq!(drive_letter("\\\\.\\D:"), "D:");
    assert_eq!(drive_letter("/dev/sr0"), "sr0");
    assert_eq!(drive_letter("disk6"), "disk6");
    let drives = scan_drives(vec!["/dev/sr0".to_string(), "/dev/sr1".to_string()]);
    assert_eq!(drives.len(), 2);
    assert_eq!(drives[1].display_name, "sr1");
    assert_eq!(drives[0].path, "/dev/sr0");
}
