use kanae::cd_reader::{Toc, Track};
use kanae::musicbrainz::{calculate_disc_id, date_year, disc_id_from_base64, format_toc_string};
use kanae::musicbrainz::{cover_art_url, cover_file_name, is_png, lookup_url, retry_wait};
use kanae::musicbrainz::{release_metadata, MbArtistCredit, MbDisc, MbMedium, MbRelease, MbResponse, MbTrack, MbRecording, MbCoverArtArchive};

fn track(number: u8, start_lba: u32) -> Track {
    Track { number, start_lba, start_msf: (0, 0, 0), is_audio: true }
}

fn example_toc() -> Toc {
    // The worked example of the MusicBrainz disc id documentation, with the
    // 150-sector lead-in taken off each offset.
    let offsets = [150u32, 15363, 32314, 46592, 63414, 80489];
    Toc {
        first_track: 1,
        last_track: 6,
        tracks: offsets.iter().enumerate().map(|(i, o)| track(i as u8 + 1, o - 150)).collect(),
        leadout_lba: 95462 - 150,
    }
}

#[test]
fn toc_string_layout() {
    let s: String = format_toc_string(&example_toc()).into_iter().collect();
    assert_eq!(s.len(), 2 + 2 + 8 + 99 * 8);
    assert!(s.starts_with("0106000174E60000009600003C03"));
    assert!(s.ends_with("00000000"));
}

#[test]
fn documented_disc_id() {
    assert_eq!(calculate_disc_id(&example_toc()), "49HHV7Eb8UKF3aQiNmu1GR8vKTY-");
}

#[test]
fn base64_alphabet_is_url_safe() {
    assert_eq!(disc_id_from_base64("ab+/c="), "ab._c-");
}

#[test]
fn years_from_dates() {
    assert_eq!(date_year("1997-05-21"), "1997");
    assert_eq!(date_year("2001"), "2001");
    assert_eq!(date_year(""), "");
}

#[test]
fn request_urls_and_cover_names() {
    assert_eq!(
        lookup_url("abc-"),
        "https://musicbrainz.org/ws/2/discid/abc-?inc=recordings+artist-credits&fmt=json"
    );
    assert_eq!(cover_art_url("r1"), "https://coverartarchive.org/release/r1/front");
    assert_eq!((retry_wait(0), retry_wait(1), retry_wait(2)), (0, 800, 1600));
    assert_eq!(retry_wait(10), 409_600);
    assert_eq!(retry_wait(55), 800 * (1u64 << 54));
    assert!(is_png(b"\x89PNG\r\n"));
    assert!(!is_png(b"\xff\xd8\xff"));
    assert_eq!(cover_file_name("r1", b"\x89PNG...."), "kanae_cover_r1.png");
    assert_eq!(cover_file_name("r1", b"\xff\xd8"), "kanae_cover_r1.jpg");
}

#[test]
fn reply_metadata() {
    let credit = |n: &str| MbArtistCredit { name: n.to_string() };
    let medium = |pos: u32, disc: &str, fmt: &str, titles: &[&str]| MbMedium {
        format: Some(fmt.to_string()),
        position: Some(pos),
        discs: Some(vec![MbDisc { id: Some(disc.to_string()) }]),
        tracks: Some(
            titles
                .iter()
                .map(|t| MbTrack {
                    title: Some(t.to_string()),
                    recording: Some(MbRecording { artist_credit: Some(vec![credit("Band")]) }),
                })
                .collect(),
        ),
    };
    let resp = MbResponse {
        releases: Some(vec![MbRelease {
            id: "rel".to_string(),
            title: "Box".to_string(),
            date: Some("2003-04-05".to_string()),
            artist_credit: Some(vec![credit("Band"), credit("Guest")]),
            cover_art_archive: Some(MbCoverArtArchive { front: true }),
            media: Some(vec![medium(1, "d1", "CD", &["a", "b"]), medium(2, "d2", "CD", &["c"])]),
        }]),
    };
    let l = release_metadata(&resp, "d2").unwrap();
    assert_eq!(l.metadata.title, "Box");
    assert_eq!(l.metadata.artist, "Band, Guest");
    assert_eq!(l.metadata.year, "2003");
    assert_eq!(l.metadata.track_titles, vec!["c".to_string()]);
    assert_eq!(l.metadata.track_artists, vec!["Band".to_string()]);
    assert_eq!((l.metadata.disc_number, l.metadata.disc_count), (2, 2));
    assert_eq!(l.release_id, "rel");
    assert!(l.has_front_cover);
    assert!(release_metadata(&MbResponse { releases: Some(Vec::new()) }, "d2").is_none());
}
