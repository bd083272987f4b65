//! MusicBrainz disc ids and the reading of a disc-id lookup reply.

use vstd::prelude::*;
use sha1::Digest;
use base64::Engine;
use crate::cd_reader::{Toc, Track};
use crate::text::{chars_of, hex_fixed, push_hex_fixed, string_from_chars};

verus! {

// ─── Disc id ─────────────────────────────────────────────────────────────────

/// Index of the first track numbered `n`, or -1.
pub open spec fn track_with_number(tracks: Seq<Track>, n: u8) -> int
    decreases tracks.len(),
{
    if tracks.len() == 0 {
        -1
    } else if track_with_number(tracks.drop_last(), n) >= 0 {
        track_with_number(tracks.drop_last(), n)
    } else if tracks.last().number == n {
        tracks.len() - 1
    } else {
        -1
    }
}

proof fn lemma_track_with_number(tracks: Seq<Track>, n: u8)
    ensures
        -1 <= track_with_number(tracks, n) < tracks.len(),
        track_with_number(tracks, n) >= 0 ==> tracks[track_with_number(tracks, n)].number == n,
        track_with_number(tracks, n) == -1 ==> forall|j: int| 0 <= j < tracks.len() ==> tracks[j].number != n,
        track_with_number(tracks, n) >= 0 ==> forall|j: int|
            0 <= j < track_with_number(tracks, n) ==> tracks[j].number != n,
    decreases tracks.len(),
{
    if tracks.len() > 0 {
        let d = tracks.drop_last();
        lemma_track_with_number(d, n);
        assert(forall|j: int| 0 <= j < d.len() ==> d[j] == tracks[j]);
    }
}

/// The offsets of the found tracks fit in 32 bits once the 150-sector
/// lead-in is added, as the disc-id string needs.
pub open spec fn toc_offsets_fit(toc: Toc) -> bool {
    &&& toc.leadout_lba + 150 <= u32::MAX
    &&& forall|n: u8|
        1 <= n <= 99 && track_with_number(toc.tracks@, n) >= 0 ==> toc.tracks@[track_with_number(
            toc.tracks@,
            n,
        )].start_lba + 150 <= u32::MAX
}

/// The eight hex digits for slot `n`: the track's start plus 150, or zeros.
pub open spec fn toc_slot(tracks: Seq<Track>, n: u8) -> Seq<char> {
    let i = track_with_number(tracks, n);
    if i >= 0 {
        hex_fixed((tracks[i].start_lba + 150) as nat, 8)
    } else {
        seq!['0', '0', '0', '0', '0', '0', '0', '0']
    }
}

/// The slots for track numbers 1 through `k`.
pub open spec fn toc_slots(tracks: Seq<Track>, k: int) -> Seq<char>
    decreases k,
{
    if k <= 0 {
        seq![]
    } else {
        toc_slots(tracks, k - 1) + toc_slot(tracks, k as u8)
    }
}

/// The string MusicBrainz hashes into a disc id: first and last track
/// numbers, the lead-out, and 99 track offsets, all in upper-case hex.
pub open spec fn toc_string(toc: Toc) -> Seq<char> {
    hex_fixed(toc.first_track as nat, 2) + hex_fixed(toc.last_track as nat, 2) + hex_fixed(
        (toc.leadout_lba + 150) as nat,
        8,
    ) + toc_slots(toc.tracks@, 99)
}

/// The string MusicBrainz hashes into a disc id.
pub fn format_toc_string(toc: &Toc) -> (r: Vec<char>)
    requires
        toc_offsets_fit(*toc),
    ensures
        r@ == toc_string(*toc),
{
    let mut s: Vec<char> = Vec::new();
    push_hex_fixed(&mut s, toc.first_track as u64, 2);
    push_hex_fixed(&mut s, toc.last_track as u64, 2);
    push_hex_fixed(&mut s, (toc.leadout_lba + 150) as u64, 8);
    let ghost head = s@;
    let mut n: u8 = 1;
    while n <= 99
        invariant
            1 <= n <= 100,
            toc_offsets_fit(*toc),
            s@ == head + toc_slots(toc.tracks@, n - 1),
        decreases 100 - n,
    {
        let mut found: Option<u32> = None;
        let mut i: usize = 0;
        while i < toc.tracks.len()
            invariant
                i <= toc.tracks@.len(),
                found is None ==> track_with_number(toc.tracks@.take(i as int), n) == -1,
                found matches Some(v) ==> track_with_number(toc.tracks@, n) >= 0 && v == toc.tracks@[track_with_number(toc.tracks@, n)].start_lba,
            decreases toc.tracks@.len() - i,
        {
            if found.is_none() {
                assert(toc.tracks@.take(i + 1).drop_last() =~= toc.tracks@.take(i as int));
                if toc.tracks[i].number == n {
                    proof {
                        lemma_track_with_number(toc.tracks@.take(i as int), n);
                        lemma_track_with_number(toc.tracks@, n);
                        assert(forall|j: int| 0 <= j < i ==> toc.tracks@.take(i as int)[j] == toc.tracks@[j]);
                        assert(toc.tracks@[i as int].number == n);
                    }
                    found = Some(toc.tracks[i].start_lba);
                }
            }
            i = i + 1;
        }
        let ghost before = s@;
        match found {
            Some(v) => {
                push_hex_fixed(&mut s, (v + 150) as u64, 8);
            },
            None => {
                assert(toc.tracks@.take(i as int) =~= toc.tracks@);
                let mut k: usize = 0;
                while k < 8
                    invariant
                        k <= 8,
                        s@ == before + Seq::new(k as nat, |_j: int| '0'),
                    decreases 8 - k,
                {
                    s.push('0');
                    k = k + 1;
                    assert(s@ =~= before + Seq::new(k as nat, |_j: int| '0'));
                }
                assert(Seq::new(8, |_j: int| '0') =~= seq!['0', '0', '0', '0', '0', '0', '0', '0']);
            },
        }
        assert(s@ =~= head + toc_slots(toc.tracks@, n as int));
        n = n + 1;
    }
    s
}

/// What SHA-1 gives for a byte string.
pub uninterp spec fn sha1(data: Seq<u8>) -> Seq<u8>;

/// SHA-1 of `data` (the `sha1` crate's `Sha1` digest): 20 bytes, a function
/// of the input alone.
#[verifier::external_body]
fn sha1_digest(data: &[u8]) -> (r: Vec<u8>)
    ensures
        r@ == sha1(data@),
        r@.len() == 20,
{
    let mut hasher = sha1::Sha1::new();
    hasher.update(data);
    hasher.finalize().to_vec()
}

/// What standard Base64 (with `+`, `/` and `=` padding) gives for bytes.
pub uninterp spec fn base64_standard(data: Seq<u8>) -> Seq<char>;

/// Standard Base64 of `data` (the `base64` crate's `STANDARD` engine).
#[verifier::external_body]
fn base64_encode(data: &[u8]) -> (r: String)
    ensures
        r@ == base64_standard(data@),
{
    base64::engine::general_purpose::STANDARD.encode(data)
}

/// MusicBrainz's URL-safe alphabet: `+` becomes `.`, `/` becomes `_` and the
/// `=` padding becomes `-`.
pub open spec fn disc_id_char(c: char) -> char {
    if c == '+' {
        '.'
    } else if c == '/' {
        '_'
    } else if c == '=' {
        '-'
    } else {
        c
    }
}

pub open spec fn disc_id_chars(s: Seq<char>) -> Seq<char> {
    Seq::new(s.len(), |i: int| disc_id_char(s[i]))
}

/// The MusicBrainz disc id of a table of contents.
pub open spec fn spec_disc_id(toc: Toc) -> Seq<char> {
    disc_id_chars(base64_standard(sha1(vstd::utf8::encode_utf8(toc_string(toc)))))
}

/// A Base64 digest rewritten into MusicBrainz's disc-id alphabet.
pub fn disc_id_from_base64(encoded: &str) -> (r: String)
    ensures
        r@ == disc_id_chars(encoded@),
{
    let cs = chars_of(encoded);
    let mut out: Vec<char> = Vec::new();
    let mut i: usize = 0;
    while i < cs.len()
        invariant
            i <= cs@.len(),
            cs@ == encoded@,
            out@ == disc_id_chars(encoded@).take(i as int),
        decreases cs@.len() - i,
    {
        let c = cs[i];
        let d = if c == '+' {
            '.'
        } else if c == '/' {
            '_'
        } else if c == '=' {
            '-'
        } else {
            c
        };
        out.push(d);
        i = i + 1;
        assert(out@ =~= disc_id_chars(encoded@).take(i as int));
    }
    assert(disc_id_chars(encoded@).take(i as int) =~= disc_id_chars(encoded@));
    string_from_chars(out.as_slice())
}

/// The MusicBrainz disc id of a disc: the TOC string, hashed with SHA-1 and
/// Base64-encoded in the URL-safe alphabet.
pub fn calculate_disc_id(toc: &Toc) -> (r: String)
    requires
        toc_offsets_fit(*toc),
    ensures
        r@ == spec_disc_id(*toc),
{
    let s = format_toc_string(toc);
    let text = string_from_chars(s.as_slice());
    let hash = sha1_digest(text.as_str().as_bytes());
    let encoded = base64_encode(hash.as_slice());
    disc_id_from_base64(encoded.as_str())
}


// ─── Disc-id lookup reply ────────────────────────────────────────────────────

#[derive(Clone, Debug)]
pub struct MbArtistCredit {
    pub name: String,
}

#[derive(Debug)]
pub struct MbRecording {
    pub artist_credit: Option<Vec<MbArtistCredit>>,
}

#[derive(Debug)]
pub struct MbTrack {
    pub title: Option<String>,
    pub recording: Option<MbRecording>,
}

#[derive(Debug)]
pub struct MbDisc {
    pub id: Option<String>,
}

#[derive(Debug)]
pub struct MbMedium {
    pub format: Option<String>,
    pub position: Option<u32>,
    pub discs: Option<Vec<MbDisc>>,
    pub tracks: Option<Vec<MbTrack>>,
}

#[derive(Debug)]
pub struct MbCoverArtArchive {
    pub front: bool,
}

#[derive(Debug)]
pub struct MbRelease {
    pub id: String,
    pub title: String,
    pub date: Option<String>,
    pub artist_credit: Option<Vec<MbArtistCredit>>,
    pub cover_art_archive: Option<MbCoverArtArchive>,
    pub media: Option<Vec<MbMedium>>,
}

#[derive(Debug)]
pub struct MbResponse {
    pub releases: Option<Vec<MbRelease>>,
}

/// Album-level metadata for a disc.
#[derive(Debug)]
pub struct AlbumMetadata {
    pub title: String,
    pub artist: String,
    pub year: String,
    pub track_titles: Vec<String>,
    pub track_artists: Vec<String>,
    pub cover_art_url: Option<String>,
    /// Position of this disc within the release (1-based), e.g. disc 2 of a
    /// 3-CD box set. 0 when unknown.
    pub disc_number: u32,
    /// Total number of media in the release. 0 when unknown.
    pub disc_count: u32,
}

/// What a disc-id reply says, before the cover art is fetched.
#[derive(Debug)]
pub struct MbLookup {
    /// The metadata, with no cover art yet.
    pub metadata: AlbumMetadata,
    /// The release the cover art belongs to.
    pub release_id: String,
    /// Whether the Cover Art Archive has a front cover for the release.
    pub has_front_cover: bool,
}

/// Names joined with `, `.
pub open spec fn joined_names(ac: Seq<MbArtistCredit>) -> Seq<char>
    decreases ac.len(),
{
    if ac.len() == 0 {
        seq![]
    } else if ac.len() == 1 {
        ac[0].name@
    } else {
        joined_names(ac.drop_last()) + seq![',', ' '] + ac.last().name@
    }
}

/// The artist line for a credit list: the names joined with `, `, or
/// `Unknown Artist` when there are none.
pub open spec fn credit_text(credits: Option<Seq<MbArtistCredit>>) -> Seq<char> {
    match credits {
        None => "Unknown Artist"@,
        Some(ac) => if ac.len() == 0 {
            "Unknown Artist"@
        } else {
            joined_names(ac)
        },
    }
}

pub open spec fn opt_credits(c: Option<Vec<MbArtistCredit>>) -> Option<Seq<MbArtistCredit>> {
    match c {
        None => None,
        Some(v) => Some(v@),
    }
}

/// The artist line for a credit list.
pub fn parse_artist_credit(credits: Option<&[MbArtistCredit]>) -> (r: String)
    ensures
        r@ == credit_text(
            match credits {
                None => None,
                Some(s) => Some(s@),
            },
        ),
{
    match credits {
        None => String::from_str("Unknown Artist"),
        Some(ac) => {
            if ac.len() == 0 {
                return String::from_str("Unknown Artist");
            }
            let mut out: Vec<char> = Vec::new();
            let mut i: usize = 0;
            while i < ac.len()
                invariant
                    i <= ac@.len(),
                    ac@.len() > 0,
                    out@ == joined_names(ac@.take(i as int)),
                decreases ac@.len() - i,
            {
                let ghost before = out@;
                assert(ac@.take(i + 1).drop_last() =~= ac@.take(i as int));
                if i > 0 {
                    out.push(',');
                    out.push(' ');
                }
                crate::text::push_str_chars(&mut out, ac[i].name.as_str());
                i = i + 1;
                assert(out@ =~= joined_names(ac@.take(i as int)));
            }
            assert(ac@.take(i as int) =~= ac@);
            string_from_chars(out.as_slice())
        },
    }
}

/// A track's title, or `Unknown Track`.
pub open spec fn track_title(t: MbTrack) -> Seq<char> {
    match t.title {
        Some(s) => s@,
        None => "Unknown Track"@,
    }
}

/// A track's own artist line, empty when it has none or when it matches the
/// album artist.
pub open spec fn track_artist(t: MbTrack, album_artist: Seq<char>) -> Seq<char> {
    let ta = match t.recording {
        Some(r) => match r.artist_credit {
            Some(ac) => credit_text(Some(ac@)),
            None => Seq::<char>::empty(),
        },
        None => Seq::<char>::empty(),
    };
    if ta == album_artist {
        Seq::<char>::empty()
    } else {
        ta
    }
}

pub open spec fn string_views(v: Seq<String>) -> Seq<Seq<char>> {
    Seq::new(v.len(), |i: int| v[i]@)
}

/// Per-track titles and artists of a medium's track list.
pub fn parse_tracks(tracks: Option<&[MbTrack]>, album_artist: &str) -> (r: (Vec<String>, Vec<String>))
    ensures
        tracks is None ==> r.0@.len() == 0 && r.1@.len() == 0,
        tracks matches Some(ts) ==> string_views(r.0@) == Seq::new(ts@.len(), |i: int| track_title(ts@[i]))
            && string_views(r.1@) == Seq::new(ts@.len(), |i: int| track_artist(ts@[i], album_artist@)),
{
    let ts = match tracks {
        None => {
            return (Vec::new(), Vec::new());
        },
        Some(ts) => ts,
    };
    let aa: String = album_artist.to_owned();
    let mut titles: Vec<String> = Vec::new();
    let mut artists: Vec<String> = Vec::new();
    let mut i: usize = 0;
    while i < ts.len()
        invariant
            i <= ts@.len(),
            aa@ == album_artist@,
            string_views(titles@) == Seq::new(i as nat, |k: int| track_title(ts@[k])),
            string_views(artists@) == Seq::new(i as nat, |k: int| track_artist(ts@[k], album_artist@)),
        decreases ts@.len() - i,
    {
        let t = &ts[i];
        let title = match &t.title {
            Some(s) => s.clone(),
            None => String::from_str("Unknown Track"),
        };
        let ta: String = match &t.recording {
            Some(r) => match &r.artist_credit {
                Some(ac) => parse_artist_credit(Some(ac.as_slice())),
                None => String::new(),
            },
            None => String::new(),
        };
        let artist = if ta == aa {
            String::new()
        } else {
            ta
        };
        assert(title@ == track_title(ts@[i as int]));
        assert(artist@ == track_artist(ts@[i as int], album_artist@));
        let ghost t0 = string_views(titles@);
        let ghost a0 = string_views(artists@);
        titles.push(title);
        artists.push(artist);
        assert(string_views(titles@) =~= t0.push(track_title(ts@[i as int])));
        assert(string_views(artists@) =~= a0.push(track_artist(ts@[i as int], album_artist@)));
        i = i + 1;
        assert(string_views(titles@) =~= Seq::new(i as nat, |k: int| track_title(ts@[k])));
        assert(string_views(artists@) =~= Seq::new(i as nat, |k: int| track_artist(ts@[k], album_artist@)));
    }
    (titles, artists)
}

/// The year of a release date: the part before the first `-`, or the whole
/// date when it has none.
pub open spec fn year_of(date: Seq<char>) -> Seq<char>
    decreases date.len(),
{
    if date.len() == 0 {
        seq![]
    } else if year_of(date.drop_last()).len() < date.len() - 1 {
        year_of(date.drop_last())
    } else if date.last() == '-' {
        date.drop_last()
    } else {
        date
    }
}

proof fn lemma_year_of(date: Seq<char>)
    ensures
        year_of(date).len() <= date.len(),
        year_of(date) == date.take(year_of(date).len() as int),
        forall|k: int| 0 <= k < year_of(date).len() ==> date[k] != '-',
        year_of(date).len() < date.len() ==> date[year_of(date).len() as int] == '-',
    decreases date.len(),
{
    if date.len() > 0 {
        let d = date.drop_last();
        lemma_year_of(d);
        assert(forall|k: int| 0 <= k < d.len() ==> d[k] == date[k]);
        if year_of(d).len() < d.len() {
            assert(year_of(date) == year_of(d));
            assert(date.take(year_of(d).len() as int) =~= d.take(year_of(d).len() as int));
        } else {
            assert(year_of(d) =~= d);
        }
    }
}

/// The part of a date before the first `-`.
pub fn date_year(date: &str) -> (r: String)
    ensures
        r@ == year_of(date@),
{
    let cs = chars_of(date);
    let mut out: Vec<char> = Vec::new();
    let mut i: usize = 0;
    while i < cs.len() && cs[i] != '-'
        invariant
            i <= cs@.len(),
            cs@ == date@,
            out@ == date@.take(i as int),
            forall|k: int| 0 <= k < i ==> date@[k] != '-',
        decreases cs@.len() - i,
    {
        out.push(cs[i]);
        i = i + 1;
        assert(out@ =~= date@.take(i as int));
    }
    proof {
        lemma_year_of(date@);
        let y = year_of(date@).len();
        if y < i {
            assert(date@[y as int] == '-');
        }
        if (i as int) < y {
            assert(date@[i as int] != '-');
        }
        assert(y == i);
    }
    string_from_chars(out.as_slice())
}

pub open spec fn opt_view(o: Option<String>) -> Option<Seq<char>> {
    match o {
        None => None,
        Some(s) => Some(s@),
    }
}

/// Whether a medium lists the disc id among its discs.
pub open spec fn medium_has_disc(m: MbMedium, disc_id: Seq<char>) -> bool {
    match m.discs {
        None => false,
        Some(ds) => exists|k: int| 0 <= k < ds@.len() && opt_view(ds@[k].id) == Some(disc_id),
    }
}

pub open spec fn medium_is_cd(m: MbMedium) -> bool {
    opt_view(m.format) == Some(seq!['C', 'D'])
}

/// Index of the first medium that lists the disc id, or -1.
pub open spec fn first_with_disc(media: Seq<MbMedium>, disc_id: Seq<char>) -> int
    decreases media.len(),
{
    if media.len() == 0 {
        -1
    } else if first_with_disc(media.drop_last(), disc_id) >= 0 {
        first_with_disc(media.drop_last(), disc_id)
    } else if medium_has_disc(media.last(), disc_id) {
        media.len() - 1
    } else {
        -1
    }
}

/// Index of the first CD-format medium, or -1.
pub open spec fn first_cd(media: Seq<MbMedium>) -> int
    decreases media.len(),
{
    if media.len() == 0 {
        -1
    } else if first_cd(media.drop_last()) >= 0 {
        first_cd(media.drop_last())
    } else if medium_is_cd(media.last()) {
        media.len() - 1
    } else {
        -1
    }
}

proof fn lemma_first_with_disc(media: Seq<MbMedium>, disc_id: Seq<char>)
    ensures
        -1 <= first_with_disc(media, disc_id) < media.len(),
        first_with_disc(media, disc_id) >= 0 ==> medium_has_disc(media[first_with_disc(media, disc_id)], disc_id),
        first_with_disc(media, disc_id) == -1 ==> forall|j: int| 0 <= j < media.len() ==> !medium_has_disc(media[j], disc_id),
        first_with_disc(media, disc_id) >= 0 ==> forall|j: int|
            0 <= j < first_with_disc(media, disc_id) ==> !medium_has_disc(media[j], disc_id),
    decreases media.len(),
{
    if media.len() > 0 {
        let d = media.drop_last();
        lemma_first_with_disc(d, disc_id);
        assert(forall|j: int| 0 <= j < d.len() ==> d[j] == media[j]);
    }
}

proof fn lemma_first_cd(media: Seq<MbMedium>)
    ensures
        -1 <= first_cd(media) < media.len(),
        first_cd(media) >= 0 ==> medium_is_cd(media[first_cd(media)]),
        first_cd(media) == -1 ==> forall|j: int| 0 <= j < media.len() ==> !medium_is_cd(media[j]),
        first_cd(media) >= 0 ==> forall|j: int| 0 <= j < first_cd(media) ==> !medium_is_cd(media[j]),
    decreases media.len(),
{
    if media.len() > 0 {
        let d = media.drop_last();
        lemma_first_cd(d);
        assert(forall|j: int| 0 <= j < d.len() ==> d[j] == media[j]);
    }
}

/// The medium that holds the disc: the first that lists its id, else the
/// first CD-format medium, else the first medium; -1 when there are none.
pub open spec fn chosen_medium(media: Seq<MbMedium>, disc_id: Seq<char>) -> int {
    if first_with_disc(media, disc_id) >= 0 {
        first_with_disc(media, disc_id)
    } else if first_cd(media) >= 0 {
        first_cd(media)
    } else if media.len() > 0 {
        0
    } else {
        -1
    }
}

fn medium_has_disc_exec(m: &MbMedium, disc_id: &String) -> (r: bool)
    ensures
        r == medium_has_disc(*m, disc_id@),
{
    match &m.discs {
        None => false,
        Some(ds) => {
            let mut k: usize = 0;
            while k < ds.len()
                invariant
                    k <= ds@.len(),
                    m.discs == Some(*ds),
                    forall|j: int| 0 <= j < k ==> opt_view(ds@[j].id) != Some(disc_id@),
                decreases ds@.len() - k,
            {
                match &ds[k].id {
                    Some(id) => {
                        if *id == *disc_id {
                            let ghost w = k as int;
                            assert(0 <= w < ds@.len() && opt_view(ds@[w].id) == Some(disc_id@));
                            assert(exists|j: int| 0 <= j < ds@.len() && opt_view(ds@[j].id) == Some(disc_id@));
                            assert(m.discs == Some(*ds));
                            return true;
                        }
                    },
                    None => {},
                }
                k = k + 1;
            }
            false
        },
    }
}

fn medium_is_cd_exec(m: &MbMedium) -> (r: bool)
    ensures
        r == medium_is_cd(*m),
{
    match &m.format {
        None => false,
        Some(f) => {
            let cd = String::from_str("CD");
            proof {
                reveal_strlit("CD");
            }
            assert(cd@ =~= seq!['C', 'D']);
            *f == cd
        },
    }
}

/// Pick the medium that holds the disc.
fn choose_medium(media: &Vec<MbMedium>, disc_id: &String) -> (r: Option<usize>)
    ensures
        r matches Some(i) ==> i == chosen_medium(media@, disc_id@) && i < media@.len(),
        r is None ==> chosen_medium(media@, disc_id@) == -1 && media@.len() == 0,
{
    proof {
        lemma_first_with_disc(media@, disc_id@);
        lemma_first_cd(media@);
    }
    let mut i: usize = 0;
    while i < media.len()
        invariant
            i <= media@.len(),
            first_with_disc(media@.take(i as int), disc_id@) == -1,
        decreases media@.len() - i,
    {
        assert(media@.take(i + 1).drop_last() =~= media@.take(i as int));
        if medium_has_disc_exec(&media[i], disc_id) {
            proof {
                lemma_first_with_disc(media@.take(i as int), disc_id@);
                lemma_first_with_disc(media@, disc_id@);
                assert(forall|j: int| 0 <= j < i ==> media@.take(i as int)[j] == media@[j]);
                assert(medium_has_disc(media@[i as int], disc_id@));
            }
            return Some(i);
        }
        i = i + 1;
    }
    assert(media@.take(i as int) =~= media@);
    let mut i: usize = 0;
    while i < media.len()
        invariant
            i <= media@.len(),
            first_with_disc(media@, disc_id@) == -1,
            first_cd(media@.take(i as int)) == -1,
        decreases media@.len() - i,
    {
        assert(media@.take(i + 1).drop_last() =~= media@.take(i as int));
        if medium_is_cd_exec(&media[i]) {
            proof {
                lemma_first_cd(media@.take(i as int));
                lemma_first_cd(media@);
                assert(forall|j: int| 0 <= j < i ==> media@.take(i as int)[j] == media@[j]);
                assert(medium_is_cd(media@[i as int]));
            }
            return Some(i);
        }
        i = i + 1;
    }
    assert(media@.take(i as int) =~= media@);
    if media.len() > 0 {
        Some(0)
    } else {
        None
    }
}

/// Read a disc-id lookup reply: the first release, the medium that holds the
/// disc, and that medium's track list. `None` when the reply has no release
/// or the release lists no media.
pub fn release_metadata(response: &MbResponse, disc_id: &str) -> (r: Option<MbLookup>)
    ensures
        ({
            match response.releases {
                None => r is None,
                Some(rels) => if rels@.len() == 0 {
                    r is None
                } else {
                    let rel = rels@[0];
                    match rel.media {
                        None => r is None,
                        Some(media) => if media@.len() == 0 {
                            r is None
                        } else {
                            let mi = chosen_medium(media@, disc_id@);
                            let m = media@[mi];
                            let artist = credit_text(opt_credits(rel.artist_credit));
                            &&& r is Some
                            &&& r->0.metadata.title@ == rel.title@
                            &&& r->0.metadata.artist@ == artist
                            &&& r->0.metadata.year@ == match rel.date {
                                Some(d) => year_of(d@),
                                None => Seq::<char>::empty(),
                            }
                            &&& r->0.metadata.cover_art_url is None
                            &&& r->0.metadata.disc_number == match m.position {
                                Some(p) => p,
                                None => 0u32,
                            }
                            &&& r->0.metadata.disc_count == media@.len() as u32
                            &&& match m.tracks {
                                None => r->0.metadata.track_titles@.len() == 0
                                    && r->0.metadata.track_artists@.len() == 0,
                                Some(ts) => string_views(r->0.metadata.track_titles@) == Seq::new(
                                    ts@.len(),
                                    |i: int| track_title(ts@[i]),
                                ) && string_views(r->0.metadata.track_artists@) == Seq::new(
                                    ts@.len(),
                                    |i: int| track_artist(ts@[i], artist),
                                ),
                            }
                            &&& r->0.release_id@ == rel.id@
                            &&& r->0.has_front_cover == match rel.cover_art_archive {
                                Some(c) => c.front,
                                None => false,
                            }
                        },
                    }
                },
            }
        }),
{
    let rels = match &response.releases {
        None => {
            return None;
        },
        Some(rels) => rels,
    };
    if rels.len() == 0 {
        return None;
    }
    let rel = &rels[0];
    let title = rel.title.clone();
    let year = match &rel.date {
        Some(d) => date_year(d.as_str()),
        None => String::new(),
    };
    let artist = match &rel.artist_credit {
        Some(ac) => parse_artist_credit(Some(ac.as_slice())),
        None => parse_artist_credit(None),
    };
    let media = match &rel.media {
        None => {
            return None;
        },
        Some(media) => media,
    };
    let id: String = disc_id.to_owned();
    let mi = match choose_medium(media, &id) {
        None => {
            return None;
        },
        Some(mi) => mi,
    };
    let m = &media[mi];
    let disc_number = match m.position {
        Some(p) => p,
        None => 0,
    };
    let disc_count = media.len() as u32;
    let (track_titles, track_artists) = match &m.tracks {
        Some(ts) => parse_tracks(Some(ts.as_slice()), artist.as_str()),
        None => parse_tracks(None, artist.as_str()),
    };
    let has_front_cover = match &rel.cover_art_archive {
        Some(c) => c.front,
        None => false,
    };
    Some(
        MbLookup {
            metadata: AlbumMetadata {
                title,
                artist,
                year,
                track_titles,
                track_artists,
                cover_art_url: None,
                disc_number,
                disc_count,
            },
            release_id: rel.id.clone(),
            has_front_cover,
        },
    )
}
// ─── Requests ────────────────────────────────────────────────────────────────

/// The disc-id lookup, with recordings and artist credits, as JSON.
pub open spec fn lookup_url_of(disc_id: Seq<char>) -> Seq<char> {
    "https://musicbrainz.org/ws/2/discid/"@ + disc_id + "?inc=recordings+artist-credits&fmt=json"@
}

/// The front cover of a release in the Cover Art Archive.
pub open spec fn cover_art_url_of(release_id: Seq<char>) -> Seq<char> {
    "https://coverartarchive.org/release/"@ + release_id + "/front"@
}

/// The lookup request for a disc id.
pub fn lookup_url(disc_id: &str) -> (r: String)
    ensures
        r@ == lookup_url_of(disc_id@),
{
    let mut out: Vec<char> = Vec::new();
    crate::text::push_str_chars(&mut out, "https://musicbrainz.org/ws/2/discid/");
    crate::text::push_str_chars(&mut out, disc_id);
    crate::text::push_str_chars(&mut out, "?inc=recordings+artist-credits&fmt=json");
    string_from_chars(out.as_slice())
}

/// The cover request for a release.
pub fn cover_art_url(release_id: &str) -> (r: String)
    ensures
        r@ == cover_art_url_of(release_id@),
{
    let mut out: Vec<char> = Vec::new();
    crate::text::push_str_chars(&mut out, "https://coverartarchive.org/release/");
    crate::text::push_str_chars(&mut out, release_id);
    crate::text::push_str_chars(&mut out, "/front");
    string_from_chars(out.as_slice())
}

/// The wait before try `attempt` (from 0) of a request: none before the
/// first, then 800 ms doubling.
pub open spec fn retry_wait_ms(attempt: nat) -> nat
    decreases attempt,
{
    if attempt == 0 {
        0
    } else if attempt == 1 {
        800
    } else {
        2 * retry_wait_ms((attempt - 1) as nat)
    }
}

/// Waits only grow with the try number.
proof fn lemma_retry_wait_grows(a: nat, b: nat)
    requires
        a <= b,
    ensures
        retry_wait_ms(a) <= retry_wait_ms(b),
    decreases b,
{
    if a < b {
        lemma_retry_wait_grows(a, (b - 1) as nat);
    }
}

/// The wait before try `attempt` of a request, in milliseconds, for any try
/// whose wait fits in a `u64` (up to try 55).
pub fn retry_wait(attempt: u32) -> (r: u64)
    requires
        retry_wait_ms(attempt as nat) <= u64::MAX,
    ensures
        r == retry_wait_ms(attempt as nat),
{
    if attempt == 0 {
        return 0;
    }
    let mut w: u64 = 800;
    let mut k: u32 = 1;
    while k < attempt
        invariant
            1 <= k <= attempt,
            w == retry_wait_ms(k as nat),
            retry_wait_ms(attempt as nat) <= u64::MAX,
        decreases attempt - k,
    {
        proof {
            lemma_retry_wait_grows((k + 1) as nat, attempt as nat);
        }
        w = w * 2;
        k = k + 1;
    }
    w
}

/// Whether downloaded cover bytes are a PNG (by its signature).
pub fn is_png(bytes: &[u8]) -> (r: bool)
    ensures
        r == (bytes@.len() >= 4 && bytes@[0] == 0x89 && bytes@[1] == 0x50 && bytes@[2] == 0x4E && bytes@[3] == 0x47),
{
    bytes.len() >= 4 && bytes[0] == 0x89 && bytes[1] == 0x50 && bytes[2] == 0x4E && bytes[3] == 0x47
}

/// The temporary file name a release's cover is saved under: one per
/// release, so caches keyed by path tell covers apart.
pub open spec fn cover_file_name_of(release_id: Seq<char>, png: bool) -> Seq<char> {
    "kanae_cover_"@ + release_id + if png {
        ".png"@
    } else {
        ".jpg"@
    }
}

/// The file name for a release's downloaded cover.
pub fn cover_file_name(release_id: &str, bytes: &[u8]) -> (r: String)
    ensures
        r@ == cover_file_name_of(
            release_id@,
            bytes@.len() >= 4 && bytes@[0] == 0x89 && bytes@[1] == 0x50 && bytes@[2] == 0x4E && bytes@[3] == 0x47,
        ),
{
    let mut out: Vec<char> = Vec::new();
    crate::text::push_str_chars(&mut out, "kanae_cover_");
    crate::text::push_str_chars(&mut out, release_id);
    if is_png(bytes) {
        crate::text::push_str_chars(&mut out, ".png");
    } else {
        crate::text::push_str_chars(&mut out, ".jpg");
    }
    string_from_chars(out.as_slice())
}

} // verus!
