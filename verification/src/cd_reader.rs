//! Optical drives and the table of contents of an audio CD.

use vstd::prelude::*;
use crate::text::{chars_of, string_from_chars};

verus! {

/// Sectors between the last audio track and the data session on a CD-Extra
/// disc; matches the gap the drive reader leaves out of its own track reads.
pub const CD_EXTRA_GAP_SECTORS: u32 = 11400;

/// One optical drive.
#[derive(Clone, Debug)]
pub struct DriveInfo {
    pub path: String,
    pub display_name: String,
}

/// Index of the last `\` in `s`, or -1.
pub open spec fn last_backslash(s: Seq<char>) -> int
    decreases s.len(),
{
    if s.len() == 0 {
        -1
    } else if s.last() == '\\' {
        s.len() - 1
    } else {
        last_backslash(s.drop_last())
    }
}

/// The short label for a drive path: after the last `\` on Windows-style
/// paths (`\\.\D:` gives `D:`), without `/dev/` on Linux, else the path.
pub open spec fn drive_label(p: Seq<char>) -> Seq<char> {
    if last_backslash(p) >= 0 {
        p.skip(last_backslash(p) + 1)
    } else if p.len() >= 5 && p.take(5) == seq!['/', 'd', 'e', 'v', '/'] {
        p.skip(5)
    } else {
        p
    }
}

proof fn lemma_last_backslash(s: Seq<char>)
    ensures
        -1 <= last_backslash(s) < s.len(),
    decreases s.len(),
{
    if s.len() > 0 && s.last() != '\\' {
        lemma_last_backslash(s.drop_last());
    }
}

/// Extract a short display label (e.g. "D:") from a drive path such as
/// "\\.\D:" (Windows), "/dev/sr0" (Linux) or "disk6" (macOS).
pub fn drive_letter(drive_path: &str) -> (r: String)
    ensures
        r@ == drive_label(drive_path@),
{
    let p = chars_of(drive_path);
    let n = p.len();
    let mut i: usize = n;
    assert(p@.take(n as int) =~= p@);
    while i > 0
        invariant
            i <= n,
            n == p@.len(),
            p@ == drive_path@,
            last_backslash(p@) == last_backslash(p@.take(i as int)),
        decreases i,
    {
        assert(p@.take(i as int).drop_last() =~= p@.take(i - 1));
        if p[i - 1] == '\\' {
            let mut out: Vec<char> = Vec::new();
            let mut k: usize = i;
            while k < n
                invariant
                    i <= k <= n,
                    n == p@.len(),
                    out@ == p@.subrange(i as int, k as int),
                decreases n - k,
            {
                out.push(p[k]);
                k = k + 1;
                assert(out@ =~= p@.subrange(i as int, k as int));
            }
            assert(out@ =~= p@.skip(i as int));
            return string_from_chars(out.as_slice());
        }
        i = i - 1;
    }
    assert(p@.take(0) =~= Seq::<char>::empty());
    if n >= 5 && p[0] == '/' && p[1] == 'd' && p[2] == 'e' && p[3] == 'v' && p[4] == '/' {
        assert(p@.take(5) =~= seq!['/', 'd', 'e', 'v', '/']);
        let mut out: Vec<char> = Vec::new();
        let mut k: usize = 5;
        while k < n
            invariant
                5 <= k <= n,
                n == p@.len(),
                out@ == p@.subrange(5, k as int),
            decreases n - k,
        {
            out.push(p[k]);
            k = k + 1;
            assert(out@ =~= p@.subrange(5, k as int));
        }
        assert(out@ =~= p@.skip(5));
        return string_from_chars(out.as_slice());
    }
    proof {
        if n >= 5 {
            if p@.take(5) == seq!['/', 'd', 'e', 'v', '/'] {
                assert(p@[0] == p@.take(5)[0]);
                assert(p@[1] == p@.take(5)[1]);
                assert(p@[2] == p@.take(5)[2]);
                assert(p@[3] == p@.take(5)[3]);
                assert(p@[4] == p@.take(5)[4]);
            }
        }
    }
    string_from_chars(p.as_slice())
}

/// The drives found at the given device paths, each labelled with its short
/// name. Listing the paths is left to the caller: it never touches a disc.
pub fn scan_drives(paths: Vec<String>) -> (r: Vec<DriveInfo>)
    ensures
        r@.len() == paths@.len(),
        forall|i: int|
            0 <= i < paths@.len() ==> r@[i].path@ == paths@[i]@ && r@[i].display_name@
                == drive_label(paths@[i]@),
{
    let mut r: Vec<DriveInfo> = Vec::new();
    let mut i: usize = 0;
    while i < paths.len()
        invariant
            i <= paths@.len(),
            r@.len() == i,
            forall|j: int|
                0 <= j < i ==> r@[j].path@ == paths@[j]@ && r@[j].display_name@ == drive_label(
                    paths@[j]@,
                ),
        decreases paths@.len() - i,
    {
        let name = drive_letter(paths[i].as_str());
        let path = paths[i].clone();
        r.push(DriveInfo { path, display_name: name });
        i = i + 1;
    }
    r
}

// ─── Table of contents ───────────────────────────────────────────────────────

/// One track entry of a disc's table of contents.
#[derive(Clone, Copy, Debug)]
pub struct Track {
    pub number: u8,
    pub start_lba: u32,
    pub start_msf: (u8, u8, u8),
    pub is_audio: bool,
}

/// A disc's table of contents, as the drive reports it.
#[derive(Clone, Debug)]
pub struct Toc {
    pub first_track: u8,
    pub last_track: u8,
    pub tracks: Vec<Track>,
    pub leadout_lba: u32,
}

/// A playable track: its number and how many sectors (1/75 s each) it spans.
#[derive(Clone, Copy, Debug, PartialEq, Eq, Structural)]
pub struct TrackInfo {
    pub track_number: u8,
    pub sector_count: u32,
}

/// `a - b`, or 0 when `b` is larger.
pub open spec fn sat_sub(a: u32, b: u32) -> u32 {
    if a >= b {
        (a - b) as u32
    } else {
        0
    }
}

/// Where track `idx` ends: at the next track; on a CD-Extra disc, where every
/// later track is data, a fixed gap before that data track; after the last
/// track, at the lead-out.
pub open spec fn track_end(tracks: Seq<Track>, leadout: u32, idx: int) -> u32 {
    if idx + 1 >= tracks.len() {
        leadout
    } else if forall|j: int| idx + 1 <= j < tracks.len() ==> !(#[trigger] tracks[j]).is_audio {
        sat_sub(tracks[idx + 1].start_lba, CD_EXTRA_GAP_SECTORS)
    } else {
        tracks[idx + 1].start_lba
    }
}

/// The playable entry for track `idx`, if it is one: an audio track with a
/// number inside the disc's range that spans at least one sector.
pub open spec fn playable(tracks: Seq<Track>, first: u8, last: u8, leadout: u32, idx: int) -> Seq<TrackInfo> {
    let t = tracks[idx];
    let count = sat_sub(track_end(tracks, leadout, idx), t.start_lba);
    if !t.is_audio || t.number < first || t.number > last || count == 0 {
        seq![]
    } else {
        seq![TrackInfo { track_number: t.number, sector_count: count }]
    }
}

/// The playable entries of the first `n` tracks, in order.
pub open spec fn playable_prefix(tracks: Seq<Track>, first: u8, last: u8, leadout: u32, n: int) -> Seq<TrackInfo>
    decreases n,
{
    if n <= 0 {
        seq![]
    } else {
        playable_prefix(tracks, first, last, leadout, n - 1) + playable(tracks, first, last, leadout, n - 1)
    }
}

/// The playable (audio) tracks of a disc; data tracks are left out.
pub open spec fn playable_tracks(toc: Toc) -> Seq<TrackInfo> {
    playable_prefix(toc.tracks@, toc.first_track, toc.last_track, toc.leadout_lba, toc.tracks@.len() as int)
}

/// Playable (audio) tracks of a disc; data tracks are left out.
pub fn get_track_info(toc: &Toc) -> (r: Vec<TrackInfo>)
    ensures
        r@ == playable_tracks(*toc),
{
    let mut out: Vec<TrackInfo> = Vec::new();
    let n = toc.tracks.len();
    let mut idx: usize = 0;
    while idx < n
        invariant
            n == toc.tracks@.len(),
            idx <= n,
            out@ == playable_prefix(toc.tracks@, toc.first_track, toc.last_track, toc.leadout_lba, idx as int),
        decreases n - idx,
    {
        let t = toc.tracks[idx];
        let ghost add = playable(toc.tracks@, toc.first_track, toc.last_track, toc.leadout_lba, idx as int);
        if !t.is_audio || t.number < toc.first_track || t.number > toc.last_track {
            assert(add =~= Seq::<TrackInfo>::empty());
            idx = idx + 1;
            assert(out@ =~= playable_prefix(toc.tracks@, toc.first_track, toc.last_track, toc.leadout_lba, idx as int));
            continue;
        }
        let end_lba: u32 = if idx + 1 >= n {
            toc.leadout_lba
        } else {
            let mut all_data = true;
            let mut j: usize = idx + 1;
            while j < n
                invariant
                    n == toc.tracks@.len(),
                    idx + 1 <= j <= n,
                    all_data == (forall|k: int| idx + 1 <= k < j ==> !(#[trigger] toc.tracks@[k]).is_audio),
                decreases n - j,
            {
                if toc.tracks[j].is_audio {
                    all_data = false;
                }
                j = j + 1;
            }
            let next = toc.tracks[idx + 1].start_lba;
            if all_data {
                if next >= CD_EXTRA_GAP_SECTORS { next - CD_EXTRA_GAP_SECTORS } else { 0 }
            } else {
                next
            }
        };
        assert(end_lba == track_end(toc.tracks@, toc.leadout_lba, idx as int));
        let count: u32 = if end_lba >= t.start_lba { end_lba - t.start_lba } else { 0 };
        if count == 0 {
            assert(add =~= Seq::<TrackInfo>::empty());
        } else {
            out.push(TrackInfo { track_number: t.number, sector_count: count });
        }
        idx = idx + 1;
        assert(out@ =~= playable_prefix(toc.tracks@, toc.first_track, toc.last_track, toc.leadout_lba, idx as int));
    }
    out
}

/// Playing time of a track of `sectors` sectors (75 to the second), as
/// `mm:ss` with the fraction of a second dropped.
pub fn format_duration(sectors: u32) -> (r: String)
    ensures
        r@ == crate::file_player::mm_ss((sectors / 75) as nat),
{
    crate::file_player::format_mm_ss((sectors / 75) as u64)
}

} // verus!
