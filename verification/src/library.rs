//! The music library: albums found on disk, the settings that steer the
//! scan, and the grouping of a directory's tracks into albums and singles.

use vstd::prelude::*;
use crate::file_player::LocalTrack;
use crate::paths::{file_name, file_stem, file_name_of, file_stem_of};
use crate::text::{trimmed, trim, chars_of, string_from_chars};

verus! {

/// A scanned album: one or more audio files found inside the same directory.
///
/// Tracks are grouped by their album tag. Tracks with no album tag are each
/// their own single: two untagged files in the same folder are two separate
/// albums, never merged together.
#[derive(Debug)]
pub struct LibraryAlbum {
    /// Stable unique identifier, distinguishing albums (or singles) that
    /// share a directory. Used as the navigation and browse key.
    pub id: String,
    /// Path of the containing directory.
    pub dir: String,
    pub album: String,
    pub album_artist: String,
    pub year: String,
    pub cover_url: Option<String>,
    pub track_paths: Vec<String>,
    /// True when this album is a standalone single (an untagged track).
    pub is_single: bool,
}

/// Settings that control scanning and browsing.
#[derive(Debug)]
pub struct LibrarySettings {
    /// Root directories to scan.
    pub search_paths: Vec<String>,
    /// Folders whose contents are shown as if they were in the parent.
    pub merged_folders: Vec<String>,
    /// Folders hidden entirely.
    pub ignored_folders: Vec<String>,
    /// Pinned folders and albums (always shown first).
    pub pinned_paths: Vec<String>,
    /// When true, only albums are shown and sub-folders are traversed silently.
    pub merge_all_folders: bool,
    /// When true the lyric content cache has no entry limit.
    pub lrc_limit_disabled: bool,
    /// When true, Japanese lyric lines are romanized.
    pub romanize_lyrics: bool,
    /// When true, the current track is published as Discord Rich Presence.
    pub discord_rpc: bool,
}

/// Final result of a completed scan.
#[derive(Debug)]
pub struct LibraryScanResult {
    pub albums: Vec<LibraryAlbum>,
    /// Every directory visited that holds audio or sub-directories.
    pub dirs: Vec<String>,
    /// Modification time (Unix seconds) of each scanned directory, captured
    /// at scan time; each directory is stored once (`mtimes_keyed_once`), and
    /// `record_dir_mtime` keeps it so.
    pub dir_mtimes: Vec<(String, u64)>,
}

/// What an album holds, as plain values.
pub struct AlbumRec {
    pub id: Seq<char>,
    pub dir: Seq<char>,
    pub album: Seq<char>,
    pub album_artist: Seq<char>,
    pub year: Seq<char>,
    pub cover_url: Option<Seq<char>>,
    pub track_paths: Seq<Seq<char>>,
    pub is_single: bool,
}

pub open spec fn opt_str(o: Option<String>) -> Option<Seq<char>> {
    match o {
        None => None,
        Some(s) => Some(s@),
    }
}

pub open spec fn str_views(v: Seq<String>) -> Seq<Seq<char>> {
    Seq::new(v.len(), |i: int| v[i]@)
}

impl View for LibraryAlbum {
    type V = AlbumRec;

    open spec fn view(&self) -> AlbumRec {
        AlbumRec {
            id: self.id@,
            dir: self.dir@,
            album: self.album@,
            album_artist: self.album_artist@,
            year: self.year@,
            cover_url: opt_str(self.cover_url),
            track_paths: str_views(self.track_paths@),
            is_single: self.is_single,
        }
    }
}

pub open spec fn album_views(v: Seq<LibraryAlbum>) -> Seq<AlbumRec> {
    Seq::new(v.len(), |i: int| v[i]@)
}

// ─── Ordering of album tags ──────────────────────────────────────────────────

/// Lexicographic order on strings by code point (the order of `String`).
pub open spec fn str_less(a: Seq<char>, b: Seq<char>) -> bool
    decreases a.len(),
{
    if a.len() == 0 {
        b.len() > 0
    } else if b.len() == 0 {
        false
    } else if a[0] != b[0] {
        (a[0] as u32) < (b[0] as u32)
    } else {
        str_less(a.drop_first(), b.drop_first())
    }
}

pub proof fn lemma_str_less_irrefl(a: Seq<char>)
    ensures
        !str_less(a, a),
    decreases a.len(),
{
    if a.len() > 0 {
        lemma_str_less_irrefl(a.drop_first());
    }
}

pub proof fn lemma_str_less_total(a: Seq<char>, b: Seq<char>)
    ensures
        a == b || str_less(a, b) || str_less(b, a),
        !(str_less(a, b) && str_less(b, a)),
    decreases a.len(),
{
    if a.len() > 0 && b.len() > 0 {
        lemma_str_less_total(a.drop_first(), b.drop_first());
        if a[0] == b[0] {
            if a.drop_first() == b.drop_first() {
                assert(a =~= b) by {
                    assert(forall|i: int| 1 <= i < a.len() ==> a[i] == a.drop_first()[i - 1]);
                    assert(forall|i: int| 1 <= i < b.len() ==> b[i] == b.drop_first()[i - 1]);
                }
            }
        } else {
            vstd::utf8::char_u32_cast(a[0], a[0] as u32);
            vstd::utf8::char_u32_cast(b[0], b[0] as u32);
        }
    } else if a.len() == 0 && b.len() == 0 {
        assert(a =~= b);
    }
}

pub proof fn lemma_str_less_trans(a: Seq<char>, b: Seq<char>, c: Seq<char>)
    requires
        str_less(a, b),
        str_less(b, c),
    ensures
        str_less(a, c),
    decreases a.len(),
{
    if a.len() > 0 && b.len() > 0 && c.len() > 0 {
        if a[0] == b[0] && b[0] == c[0] {
            lemma_str_less_trans(a.drop_first(), b.drop_first(), c.drop_first());
        }
    }
}

/// Whether `a` sorts before `b`.
pub fn chars_less(a: &[char], b: &[char]) -> (r: bool)
    ensures
        r == str_less(a@, b@),
{
    let mut i: usize = 0;
    assert(a@.skip(0) =~= a@);
    assert(b@.skip(0) =~= b@);
    while i < a.len() && i < b.len() && a[i] == b[i]
        invariant
            i <= a@.len(),
            i <= b@.len(),
            str_less(a@, b@) == str_less(a@.skip(i as int), b@.skip(i as int)),
        decreases a@.len() - i,
    {
        assert(a@.skip(i as int).drop_first() =~= a@.skip(i + 1));
        assert(b@.skip(i as int).drop_first() =~= b@.skip(i + 1));
        i = i + 1;
    }
    if i == a.len() {
        i < b.len()
    } else if i == b.len() {
        false
    } else {
        (a[i] as u32) < (b[i] as u32)
    }
}

// ─── Grouping ────────────────────────────────────────────────────────────────

/// What a track record holds, as plain values.
pub struct TrackRec {
    pub path: Seq<char>,
    pub title: Seq<char>,
    pub artist: Seq<char>,
    pub album: Seq<char>,
    pub album_artist: Seq<char>,
    pub year: Seq<char>,
    pub cover: Option<Seq<char>>,
}

pub open spec fn track_rec(t: LocalTrack) -> TrackRec {
    TrackRec {
        path: t.path@,
        title: t.title@,
        artist: t.artist@,
        album: t.album@,
        album_artist: t.album_artist@,
        year: t.year@,
        cover: opt_str(t.cover_art_path),
    }
}

pub open spec fn track_recs(ts: Seq<LocalTrack>) -> Seq<TrackRec> {
    Seq::new(ts.len(), |i: int| track_rec(ts[i]))
}

/// A stable id for an album from its directory and a discriminator (the
/// album tag, or `single:<file name>` for an untagged track), joined by
/// U+001F, which appears in neither.
pub open spec fn spec_album_id(dir: Seq<char>, key: Seq<char>) -> Seq<char> {
    dir + seq!['\u{1f}'] + key
}

pub fn album_id(dir: &str, key: &[char]) -> (r: String)
    ensures
        r@ == spec_album_id(dir@, key@),
{
    let mut out: Vec<char> = Vec::new();
    crate::text::push_str_chars(&mut out, dir);
    out.push('\u{1f}');
    let mut i: usize = 0;
    while i < key.len()
        invariant
            i <= key@.len(),
            out@ == dir@ + seq!['\u{1f}'] + key@.take(i as int),
        decreases key@.len() - i,
    {
        out.push(key[i]);
        i = i + 1;
        assert(out@ =~= dir@ + seq!['\u{1f}'] + key@.take(i as int));
    }
    assert(key@.take(i as int) =~= key@);
    string_from_chars(out.as_slice())
}

/// A track carries an album tag when the tag is not blank.
pub open spec fn is_tagged(t: TrackRec) -> bool {
    trimmed(t.album).len() > 0
}

/// The album artist shown for a track: its album-artist tag, else its artist.
pub open spec fn shown_artist(t: TrackRec) -> Seq<char> {
    if t.album_artist.len() > 0 {
        t.album_artist
    } else {
        t.artist
    }
}

/// The first cover among the tracks, if any has one.
pub open spec fn first_cover(ts: Seq<TrackRec>) -> Option<Seq<char>>
    decreases ts.len(),
{
    if ts.len() == 0 {
        None
    } else {
        match first_cover(ts.drop_last()) {
            Some(c) => Some(c),
            None => ts.last().cover,
        }
    }
}

/// The tracks tagged with album `k`, in order.
pub open spec fn with_tag(ts: Seq<TrackRec>, k: Seq<char>) -> Seq<TrackRec> {
    ts.filter(|t: TrackRec| is_tagged(t) && t.album == k)
}

/// The album that the tracks tagged `k` form in directory `dir`: named and
/// credited after its first track, covered by the first cover found, and
/// holding every such track in order.
pub open spec fn tagged_album(dir: Seq<char>, ts: Seq<TrackRec>, k: Seq<char>) -> AlbumRec {
    let g = with_tag(ts, k);
    AlbumRec {
        id: spec_album_id(dir, k),
        dir,
        album: k,
        album_artist: shown_artist(g[0]),
        year: g[0].year,
        cover_url: first_cover(g),
        track_paths: Seq::new(g.len(), |i: int| g[i].path),
        is_single: false,
    }
}

/// The single an untagged track forms: keyed by its file name, named after
/// its title or else its file stem.
pub open spec fn single_album(dir: Seq<char>, t: TrackRec) -> AlbumRec {
    let key = match file_name(t.path) {
        Some(n) => n,
        None => Seq::<char>::empty(),
    };
    AlbumRec {
        id: spec_album_id(dir, seq!['s', 'i', 'n', 'g', 'l', 'e', ':'] + key),
        dir,
        album: if trimmed(t.title).len() == 0 {
            match file_stem(t.path) {
                Some(s) => s,
                None => seq!['U', 'n', 'k', 'n', 'o', 'w', 'n'],
            }
        } else {
            t.title
        },
        album_artist: shown_artist(t),
        year: t.year,
        cover_url: t.cover,
        track_paths: seq![t.path],
        is_single: true,
    }
}

/// The singles of the untagged tracks, in order.
pub open spec fn singles(dir: Seq<char>, ts: Seq<TrackRec>) -> Seq<AlbumRec>
    decreases ts.len(),
{
    if ts.len() == 0 {
        seq![]
    } else if is_tagged(ts.last()) {
        singles(dir, ts.drop_last())
    } else {
        singles(dir, ts.drop_last()).push(single_album(dir, ts.last()))
    }
}

/// A sequence of tags in strictly ascending order.
pub open spec fn ascending(keys: Seq<Seq<char>>) -> bool {
    forall|i: int, j: int| 0 <= i < j < keys.len() ==> str_less(keys[i], keys[j])
}

/// The tags used by the tagged tracks.
pub open spec fn has_tag(ts: Seq<TrackRec>, k: Seq<char>) -> bool {
    exists|i: int| 0 <= i < ts.len() && is_tagged(ts[i]) && ts[i].album == k
}

/// The albums a directory's tracks group into: one per distinct album tag,
/// in ascending tag order, followed by one single per untagged track.
pub open spec fn grouped(dir: Seq<char>, ts: Seq<TrackRec>, out: Seq<AlbumRec>) -> bool {
    let ns = singles(dir, ts);
    let na = out.len() - ns.len();
    &&& out.len() >= ns.len()
    &&& out.skip(na) == ns
    &&& ascending(Seq::new(na as nat, |i: int| out[i].album))
    &&& forall|i: int| 0 <= i < na ==> out[i] == tagged_album(dir, ts, out[i].album) && has_tag(ts, out[i].album)
    &&& forall|k: Seq<char>| has_tag(ts, k) ==> exists|i: int| 0 <= i < na && out[i].album == k
}


proof fn lemma_with_tag_push(ts: Seq<TrackRec>, t: TrackRec, k: Seq<char>)
    ensures
        with_tag(ts.push(t), k) == if is_tagged(t) && t.album == k {
            with_tag(ts, k).push(t)
        } else {
            with_tag(ts, k)
        },
{
    assert(ts.push(t).drop_last() =~= ts);
    reveal_with_fuel(Seq::filter, 1);
}

proof fn lemma_has_tag_push(ts: Seq<TrackRec>, t: TrackRec, k: Seq<char>)
    ensures
        has_tag(ts.push(t), k) == (has_tag(ts, k) || (is_tagged(t) && t.album == k)),
{
    let ts2 = ts.push(t);
    if has_tag(ts, k) {
        let i = choose|i: int| 0 <= i < ts.len() && is_tagged(ts[i]) && ts[i].album == k;
        assert(ts2[i] == ts[i]);
    }
    if is_tagged(t) && t.album == k {
        assert(ts2[ts.len() as int] == t);
    }
    if has_tag(ts2, k) {
        let i = choose|i: int| 0 <= i < ts2.len() && is_tagged(ts2[i]) && ts2[i].album == k;
        if i < ts.len() {
            assert(ts2[i] == ts[i]);
        }
    }
}

proof fn lemma_with_tag_nonempty(ts: Seq<TrackRec>, k: Seq<char>)
    ensures
        has_tag(ts, k) <==> with_tag(ts, k).len() > 0,
    decreases ts.len(),
{
    if ts.len() > 0 {
        let d = ts.drop_last();
        lemma_with_tag_nonempty(d, k);
        assert(d.push(ts.last()) =~= ts);
        lemma_with_tag_push(d, ts.last(), k);
        lemma_has_tag_push(d, ts.last(), k);
    } else {
        reveal_with_fuel(Seq::filter, 1);
    }
}

proof fn lemma_singles_push(dir: Seq<char>, ts: Seq<TrackRec>, t: TrackRec)
    ensures
        singles(dir, ts.push(t)) == if is_tagged(t) {
            singles(dir, ts)
        } else {
            singles(dir, ts).push(single_album(dir, t))
        },
{
    assert(ts.push(t).drop_last() =~= ts);
}

/// The first track tagged `k` (by index in `ts`) is the first track of the
/// album that tag forms.
proof fn lemma_with_tag_first(ts: Seq<TrackRec>, k: Seq<char>) -> (j: int)
    requires
        has_tag(ts, k),
    ensures
        0 <= j < ts.len(),
        with_tag(ts, k).len() > 0,
        with_tag(ts, k)[0] == ts[j],
        is_tagged(ts[j]) && ts[j].album == k,
        forall|m: int| 0 <= m < j ==> !(is_tagged(#[trigger] ts[m]) && ts[m].album == k),
    decreases ts.len(),
{
    let d = ts.drop_last();
    let t = ts.last();
    assert(d.push(t) =~= ts);
    lemma_with_tag_push(d, t, k);
    lemma_has_tag_push(d, t, k);
    lemma_with_tag_nonempty(d, k);
    if has_tag(d, k) {
        let j = lemma_with_tag_first(d, k);
        assert(ts[j] == d[j]);
        assert forall|m: int| 0 <= m < j implies !(is_tagged(#[trigger] ts[m]) && ts[m].album == k) by {
            assert(ts[m] == d[m]);
        }
        j
    } else {
        assert forall|m: int| 0 <= m < ts.len() - 1 implies !(is_tagged(#[trigger] ts[m]) && ts[m].album == k) by {
            assert(ts[m] == d[m]);
        }
        (ts.len() - 1) as int
    }
}

/// Each single comes from an untagged track of the folder.
proof fn lemma_single_from(dir: Seq<char>, ts: Seq<TrackRec>, m: int) -> (j: int)
    requires
        0 <= m < singles(dir, ts).len(),
    ensures
        0 <= j < ts.len(),
        !is_tagged(ts[j]),
        singles(dir, ts)[m] == single_album(dir, ts[j]),
    decreases ts.len(),
{
    let d = ts.drop_last();
    if is_tagged(ts.last()) {
        let j = lemma_single_from(dir, d, m);
        assert(ts[j] == d[j]);
        j
    } else if m < singles(dir, d).len() {
        let j = lemma_single_from(dir, d, m);
        assert(ts[j] == d[j]);
        j
    } else {
        (ts.len() - 1) as int
    }
}

/// Who an album is credited to: every album a folder's tracks form names, as
/// its album artist, the album-artist tag of its first track, or that
/// track's artist when the tag is empty. For an album of a tag, its first
/// track is the first track carrying the tag; a single is its one track.
pub proof fn lemma_grouped_credit(dir: Seq<char>, ts: Seq<TrackRec>, out: Seq<AlbumRec>, i: int) -> (j: int)
    requires
        grouped(dir, ts, out),
        0 <= i < out.len(),
    ensures
        0 <= j < ts.len(),
        out[i].track_paths.len() > 0 && out[i].track_paths[0] == ts[j].path,
        out[i].album_artist == (if ts[j].album_artist.len() > 0 { ts[j].album_artist } else { ts[j].artist }),
        !out[i].is_single ==> is_tagged(ts[j]) && ts[j].album == out[i].album && forall|m: int|
            0 <= m < j ==> !(is_tagged(#[trigger] ts[m]) && ts[m].album == out[i].album),
        out[i].is_single ==> !is_tagged(ts[j]) && out[i].track_paths == seq![ts[j].path],
{
    let ns = singles(dir, ts);
    let na = out.len() - ns.len();
    if i < na {
        let k = out[i].album;
        let j = lemma_with_tag_first(ts, k);
        j
    } else {
        assert(out[i] == out.skip(na)[i - na]);
        let j = lemma_single_from(dir, ts, i - na);
        j
    }
}

/// `lemma_grouped_credit` for every album of the result, over the tracks as
/// given.
proof fn lemma_grouped_credit_all(dir: Seq<char>, tracks: Seq<LocalTrack>, out: Seq<AlbumRec>)
    requires
        grouped(dir, track_recs(tracks), out),
    ensures
        forall|i: int| 0 <= i < out.len() ==> exists|j: int| #![trigger tracks[j]] 0 <= j < tracks.len()
            && (#[trigger] out[i]).track_paths.len() > 0 && out[i].track_paths[0] == tracks[j].path@
            && out[i].album_artist == (if tracks[j].album_artist@.len() > 0 {
                tracks[j].album_artist@
            } else {
                tracks[j].artist@
            }),
{
    assert forall|i: int| 0 <= i < out.len() implies exists|j: int| #![trigger tracks[j]] 0 <= j < tracks.len()
        && (#[trigger] out[i]).track_paths.len() > 0 && out[i].track_paths[0] == tracks[j].path@
        && out[i].album_artist == (if tracks[j].album_artist@.len() > 0 {
            tracks[j].album_artist@
        } else {
            tracks[j].artist@
        }) by {
        let j = lemma_grouped_credit(dir, track_recs(tracks), out, i);
        assert(track_recs(tracks)[j] == track_rec(tracks[j]));
    }
}

/// The single for one untagged track.
fn make_single(dir: &str, t: &LocalTrack) -> (r: LibraryAlbum)
    ensures
        r@ == single_album(dir@, track_rec(*t)),
{
    let key: Vec<char> = match file_name_of(t.path.as_str()) {
        Some(n) => n,
        None => Vec::new(),
    };
    let mut full: Vec<char> = Vec::new();
    full.push('s');
    full.push('i');
    full.push('n');
    full.push('g');
    full.push('l');
    full.push('e');
    full.push(':');
    let mut i: usize = 0;
    while i < key.len()
        invariant
            i <= key@.len(),
            full@ == seq!['s', 'i', 'n', 'g', 'l', 'e', ':'] + key@.take(i as int),
        decreases key@.len() - i,
    {
        full.push(key[i]);
        i = i + 1;
        assert(full@ =~= seq!['s', 'i', 'n', 'g', 'l', 'e', ':'] + key@.take(i as int));
    }
    assert(key@.take(i as int) =~= key@);
    let id = album_id(dir, full.as_slice());
    let title_trim = trim(chars_of(t.title.as_str()).as_slice());
    let name: String = if title_trim.len() == 0 {
        match file_stem_of(t.path.as_str()) {
            Some(stem) => string_from_chars(stem.as_slice()),
            None => {
                let u: [char; 7] = ['U', 'n', 'k', 'n', 'o', 'w', 'n'];
                assert(u@ =~= seq!['U', 'n', 'k', 'n', 'o', 'w', 'n']);
                string_from_chars(&u)
            },
        }
    } else {
        t.title.clone()
    };
    let album_artist = if !t.album_artist.as_str().is_empty() {
        t.album_artist.clone()
    } else {
        t.artist.clone()
    };
    let cover_url = match &t.cover_art_path {
        Some(c) => Some(c.clone()),
        None => None,
    };
    let mut paths: Vec<String> = Vec::new();
    paths.push(t.path.clone());
    assert(str_views(paths@) =~= seq![t.path@]);
    LibraryAlbum {
        id,
        dir: dir.to_owned(),
        album: name,
        album_artist,
        year: t.year.clone(),
        cover_url,
        track_paths: paths,
        is_single: true,
    }
}

/// The album a tagged track forms on its own.
pub open spec fn first_track_album(dir: Seq<char>, t: TrackRec) -> AlbumRec {
    AlbumRec {
        id: spec_album_id(dir, t.album),
        dir,
        album: t.album,
        album_artist: shown_artist(t),
        year: t.year,
        cover_url: t.cover,
        track_paths: seq![t.path],
        is_single: false,
    }
}

/// The album formed by a single tagged track.
fn make_tagged(dir: &str, t: &LocalTrack) -> (r: LibraryAlbum)
    ensures
        r@ == first_track_album(dir@, track_rec(*t)),
{
    let key = chars_of(t.album.as_str());
    let id = album_id(dir, key.as_slice());
    let album_artist = if !t.album_artist.as_str().is_empty() {
        t.album_artist.clone()
    } else {
        t.artist.clone()
    };
    let cover_url = match &t.cover_art_path {
        Some(c) => Some(c.clone()),
        None => None,
    };
    let mut paths: Vec<String> = Vec::new();
    paths.push(t.path.clone());
    assert(str_views(paths@) =~= seq![t.path@]);
    LibraryAlbum {
        id,
        dir: dir.to_owned(),
        album: t.album.clone(),
        album_artist,
        year: t.year.clone(),
        cover_url,
        track_paths: paths,
        is_single: false,
    }
}

pub open spec fn keys_of(v: Seq<AlbumRec>) -> Seq<Seq<char>> {
    Seq::new(v.len(), |i: int| v[i].album)
}

/// The tagged albums built so far: ascending, each the album its tag forms
/// among the tracks seen, and every tag seen present.
pub open spec fn tagged_ok(dir: Seq<char>, ts: Seq<TrackRec>, a: Seq<AlbumRec>) -> bool {
    &&& ascending(keys_of(a))
    &&& forall|i: int| 0 <= i < a.len() ==> a[i] == tagged_album(dir, ts, a[i].album) && has_tag(ts, a[i].album)
    &&& forall|k: Seq<char>| has_tag(ts, k) ==> exists|i: int| 0 <= i < a.len() && a[i].album == k
}

/// Group the tracks of one directory into albums: one per album tag, in tag
/// order, then one single per untagged track, in the order given.
#[verifier::spinoff_prover]
#[verifier::rlimit(40)]
pub fn group_into_albums(dir: &str, tracks: &[LocalTrack]) -> (r: Vec<LibraryAlbum>)
    ensures
        grouped(dir@, track_recs(tracks@), album_views(r@)),
        forall|i: int| 0 <= i < r@.len() ==> exists|j: int| #![trigger tracks@[j]] 0 <= j < tracks@.len()
            && (#[trigger] album_views(r@)[i]).track_paths.len() > 0
            && album_views(r@)[i].track_paths[0] == tracks@[j].path@
            && album_views(r@)[i].album_artist == (if tracks@[j].album_artist@.len() > 0 {
                tracks@[j].album_artist@
            } else {
                tracks@[j].artist@
            }),
{
    let ghost all = track_recs(tracks@);
    let mut albums: Vec<LibraryAlbum> = Vec::new();
    let mut singles_v: Vec<LibraryAlbum> = Vec::new();
    let mut i: usize = 0;
    proof {
        assert(all.take(0) =~= Seq::<TrackRec>::empty());
        assert(album_views(albums@) =~= Seq::<AlbumRec>::empty());
        assert(album_views(singles_v@) =~= Seq::<AlbumRec>::empty());
    }
    while i < tracks.len()
        invariant
            i <= tracks@.len(),
            all == track_recs(tracks@),
            tagged_ok(dir@, all.take(i as int), album_views(albums@)),
            album_views(singles_v@) == singles(dir@, all.take(i as int)),
        decreases tracks@.len() - i,
    {
        let ghost ts = all.take(i as int);
        let ghost t = all[i as int];
        let ghost ts2 = all.take(i + 1);
        assert(ts2 =~= ts.push(t));
        proof {
            lemma_singles_push(dir@, ts, t);
            assert forall|k: Seq<char>| #[trigger] with_tag(ts2, k) == if is_tagged(t) && t.album == k {
                with_tag(ts, k).push(t)
            } else {
                with_tag(ts, k)
            } by {
                lemma_with_tag_push(ts, t, k);
            }
            assert forall|k: Seq<char>| #[trigger] has_tag(ts2, k) == (has_tag(ts, k) || (is_tagged(t) && t.album == k)) by {
                lemma_has_tag_push(ts, t, k);
            }
        }
        let tr = &tracks[i];
        assert(track_rec(*tr) == t);
        let album_trim = trim(chars_of(tr.album.as_str()).as_slice());
        if album_trim.len() == 0 {
            let s = make_single(dir, tr);
            singles_v.push(s);
            assert(album_views(singles_v@) =~= singles(dir@, ts2));
            let ghost a = album_views(albums@);
            assert forall|j: int| 0 <= j < a.len() implies a[j] == tagged_album(dir@, ts2, a[j].album) && has_tag(ts2, a[j].album) by {
                assert(with_tag(ts2, a[j].album) == with_tag(ts, a[j].album));
                assert(has_tag(ts2, a[j].album));
            }
            assert forall|k: Seq<char>| has_tag(ts2, k) implies exists|j: int| 0 <= j < a.len() && a[j].album == k by {
                assert(has_tag(ts, k));
            }
        } else {
            let key = chars_of(tr.album.as_str());
            let ghost a = album_views(albums@);
            let mut p: usize = 0;
            while p < albums.len() && chars_less(chars_of(albums[p].album.as_str()).as_slice(), key.as_slice())
                invariant
                    p <= albums@.len(),
                    a == album_views(albums@),
                    key@ == t.album,
                    forall|j: int| 0 <= j < p ==> str_less(a[j].album, key@),
                decreases albums@.len() - p,
            {
                p = p + 1;
            }
            proof {
                if p < a.len() {
                    assert(!str_less(a[p as int].album, key@));
                    lemma_str_less_total(a[p as int].album, key@);
                }
            }
            assert(is_tagged(t));
            if p < albums.len() && albums[p].album == tr.album {
                // Known tag: add the track to its album.
                let ghost old_rec = a[p as int];
                let ghost g = with_tag(ts, t.album);
                proof {
                    lemma_with_tag_nonempty(ts, t.album);
                    assert(old_rec == tagged_album(dir@, ts, t.album));
                }
                let mut al = albums.remove(p);
                if al.cover_url.is_none() {
                    al.cover_url = match &tr.cover_art_path {
                        Some(c) => Some(c.clone()),
                        None => None,
                    };
                }
                let ghost old_paths = str_views(al.track_paths@);
                al.track_paths.push(tr.path.clone());
                assert(str_views(al.track_paths@) =~= old_paths.push(t.path));
                albums.insert(p, al);
                proof {
                    let g2 = with_tag(ts2, t.album);
                    assert(g2 == g.push(t));
                    assert(g2[0] == g[0]);
                    assert(g2.drop_last() =~= g);
                    assert(Seq::new(g2.len(), |m: int| g2[m].path) =~= Seq::new(g.len(), |m: int| g[m].path).push(t.path));
                    let a2 = album_views(albums@);
                    assert(a2 =~= a.update(p as int, tagged_album(dir@, ts2, t.album)));
                    assert(keys_of(a2) =~= keys_of(a));
                    assert forall|j: int| 0 <= j < a2.len() implies a2[j] == tagged_album(dir@, ts2, a2[j].album) && has_tag(ts2, a2[j].album) by {
                        if j != p {
                            if a[j].album == t.album {
                                assert(str_less(keys_of(a)[if j < p { j } else { p as int }], keys_of(a)[if j < p { p as int } else { j }]));
                                lemma_str_less_irrefl(t.album);
                            }
                            assert(with_tag(ts2, a[j].album) == with_tag(ts, a[j].album));
                        }
                    }
                    assert forall|k: Seq<char>| has_tag(ts2, k) implies exists|j: int| 0 <= j < a2.len() && a2[j].album == k by {
                        if has_tag(ts, k) {
                            let j = choose|j: int| 0 <= j < a.len() && a[j].album == k;
                            assert(a2[j].album == k);
                        } else {
                            assert(a2[p as int].album == k);
                        }
                    }
                }
            } else {
                // New tag: insert its album at the sorted position.
                let al = make_tagged(dir, tr);
                proof {
                    if p < a.len() {
                        assert(a[p as int].album != t.album);
                        assert(str_less(t.album, a[p as int].album));
                    }
                    assert(!has_tag(ts, t.album)) by {
                        if has_tag(ts, t.album) {
                            let j = choose|j: int| 0 <= j < a.len() && a[j].album == t.album;
                            if j < p {
                                lemma_str_less_irrefl(t.album);
                            } else if j > p {
                                assert(str_less(keys_of(a)[p as int], keys_of(a)[j]));
                                lemma_str_less_trans(t.album, a[p as int].album, a[j].album);
                                lemma_str_less_irrefl(t.album);
                            }
                        }
                    }
                    lemma_with_tag_nonempty(ts, t.album);
                    reveal_with_fuel(first_cover, 2);
                }
                albums.insert(p, al);
                proof {
                    let a2 = album_views(albums@);
                    assert(a2 =~= a.insert(p as int, tagged_album(dir@, ts2, t.album))) by {
                        let g2 = with_tag(ts2, t.album);
                        assert(with_tag(ts, t.album).len() == 0);
                        assert(g2 =~= seq![t]);
                        assert(g2.drop_last() =~= Seq::<TrackRec>::empty());
                        assert(Seq::new(g2.len(), |m: int| g2[m].path) =~= seq![t.path]);
                    }
                    assert(ascending(keys_of(a2))) by {
                        assert forall|x: int, y: int| 0 <= x < y < a2.len() implies str_less(keys_of(a2)[x], keys_of(a2)[y]) by {
                            if x < p && y == p {
                            } else if x < p && y > p {
                                assert(str_less(a[x].album, t.album));
                                assert(str_less(t.album, a[p as int].album));
                                if y - 1 > p {
                                    assert(str_less(keys_of(a)[p as int], keys_of(a)[y - 1]));
                                    lemma_str_less_trans(t.album, a[p as int].album, a[y - 1].album);
                                }
                                lemma_str_less_trans(a[x].album, t.album, a[y - 1].album);
                            } else if x == p && y > p {
                                assert(str_less(t.album, a[p as int].album));
                                if y - 1 > p {
                                    assert(str_less(keys_of(a)[p as int], keys_of(a)[y - 1]));
                                    lemma_str_less_trans(t.album, a[p as int].album, a[y - 1].album);
                                }
                            } else if x > p {
                                assert(str_less(keys_of(a)[x - 1], keys_of(a)[y - 1]));
                            } else {
                                assert(str_less(keys_of(a)[x], keys_of(a)[y]));
                            }
                        }
                    }
                    assert forall|j: int| 0 <= j < a2.len() implies a2[j] == tagged_album(dir@, ts2, a2[j].album) && has_tag(ts2, a2[j].album) by {
                        if j != p {
                            let jj = if j < p { j } else { j - 1 };
                            assert(a2[j] == a[jj]);
                            if a[jj].album == t.album {
                                assert(has_tag(ts, t.album));
                            }
                            assert(with_tag(ts2, a[jj].album) == with_tag(ts, a[jj].album));
                        }
                    }
                    assert forall|k: Seq<char>| has_tag(ts2, k) implies exists|j: int| 0 <= j < a2.len() && a2[j].album == k by {
                        if has_tag(ts, k) {
                            let j = choose|j: int| 0 <= j < a.len() && a[j].album == k;
                            if j < p {
                                assert(a2[j].album == k);
                            } else {
                                assert(a2[j + 1].album == k);
                            }
                        } else {
                            assert(a2[p as int].album == k);
                        }
                    }
                }
            }
            assert(album_views(singles_v@) == singles(dir@, ts2));
        }
        i = i + 1;
    }
    assert(all.take(i as int) =~= all);
    let ghost a = album_views(albums@);
    let ghost sv = album_views(singles_v@);
    albums.append(&mut singles_v);
    proof {
        let out = album_views(albums@);
        assert(out =~= a + sv);
        assert(out.skip(a.len() as int) =~= sv);
        assert(Seq::new(a.len() as nat, |m: int| out[m].album) =~= keys_of(a));
        assert forall|m: int| 0 <= m < a.len() implies out[m] == tagged_album(dir@, all, out[m].album) && has_tag(all, out[m].album) by {
            assert(out[m] == a[m]);
        }
        assert forall|k: Seq<char>| has_tag(all, k) implies exists|m: int| 0 <= m < a.len() && out[m].album == k by {
            let j = choose|j: int| 0 <= j < a.len() && a[j].album == k;
            assert(out[j] == a[j]);
        }
        lemma_grouped_credit_all(dir@, tracks@, out);
    }
    albums
}
// ─── Scan results ────────────────────────────────────────────────────────────

/// A field-by-field copy of a list of strings.
pub fn copy_string_list(v: &Vec<String>) -> (r: Vec<String>)
    ensures
        str_views(r@) == str_views(v@),
{
    let mut r: Vec<String> = Vec::new();
    let mut i: usize = 0;
    while i < v.len()
        invariant
            i <= v@.len(),
            str_views(r@) == str_views(v@).take(i as int),
        decreases v@.len() - i,
    {
        let ghost r0 = r@;
        r.push(v[i].clone());
        assert(str_views(r@) =~= str_views(r0).push(v@[i as int]@));
        i = i + 1;
        assert(str_views(v@).take(i as int) =~= str_views(v@).take(i - 1).push(v@[i - 1]@));
    }
    assert(str_views(v@).take(i as int) =~= str_views(v@));
    r
}

impl LibraryAlbum {
    /// A field-by-field copy of the album.
    pub fn copied(&self) -> (r: LibraryAlbum)
        ensures
            r@ == self@,
    {
        LibraryAlbum {
            id: self.id.clone(),
            dir: self.dir.clone(),
            album: self.album.clone(),
            album_artist: self.album_artist.clone(),
            year: self.year.clone(),
            cover_url: crate::file_player::copy_opt_string(&self.cover_url),
            track_paths: copy_string_list(&self.track_paths),
            is_single: self.is_single,
        }
    }
}

pub open spec fn in_dir_with_id(dir: Seq<char>) -> spec_fn(AlbumRec) -> bool {
    |a: AlbumRec| crate::paths::same_path(a.dir, dir) && a.id.len() > 0
}

/// The stored modification time of `dir` in a scan result.
pub open spec fn mtime_in(stored: Seq<(String, u64)>, dir: Seq<char>) -> Option<u64> {
    crate::library_cache::stored_mtime(stored, dir)
}

/// The albums a rescan can take over for `dir` without reading its files:
/// those of the previous scan in that directory (ids set), when its
/// modification time `now` equals the stored one and there are any.
pub open spec fn reusable(prev_albums: Seq<AlbumRec>, stored: Seq<(String, u64)>, dir: Seq<char>, now: Option<u64>) -> Option<Seq<AlbumRec>> {
    match (now, mtime_in(stored, dir)) {
        (Some(cur), Some(was)) => if cur == was && prev_albums.filter(in_dir_with_id(dir)).len() > 0 {
            Some(prev_albums.filter(in_dir_with_id(dir)))
        } else {
            None
        },
        _ => None,
    }
}

/// The previous scan's albums of `dir` when it did not change since
/// (`now` is its modification time, if it could be read).
pub fn reusable_albums(prev: &LibraryScanResult, dir: &str, now: Option<u64>) -> (r: Option<Vec<LibraryAlbum>>)
    ensures
        match reusable(album_views(prev.albums@), prev.dir_mtimes@, dir@, now) {
            Some(v) => r matches Some(x) && album_views(x@) == v,
            None => r is None,
        },
{
    let cur = match now {
        Some(c) => c,
        None => return None,
    };
    let was = match crate::library_cache::stored_mtime_of(&prev.dir_mtimes, dir) {
        Some(w) => w,
        None => return None,
    };
    if cur != was {
        return None;
    }
    let ghost av = album_views(prev.albums@);
    let mut out: Vec<LibraryAlbum> = Vec::new();
    let mut i: usize = 0;
    while i < prev.albums.len()
        invariant
            i <= prev.albums@.len(),
            av == album_views(prev.albums@),
            album_views(out@) == av.take(i as int).filter(in_dir_with_id(dir@)),
        decreases prev.albums@.len() - i,
    {
        let ghost o0 = out@;
        assert(av.take(i + 1) =~= av.take(i as int).push(av[i as int]));
        proof {
            av.take(i as int).lemma_filter_push(av[i as int], in_dir_with_id(dir@));
        }
        let a = &prev.albums[i];
        if crate::paths::same_path_str(a.dir.as_str(), dir) && !a.id.as_str().is_empty() {
            out.push(a.copied());
            assert(album_views(out@) =~= album_views(o0).push(a@));
        }
        i = i + 1;
    }
    assert(av.take(i as int) =~= av);
    if out.len() == 0 {
        return None;
    }
    Some(out)
}

/// What the scan result is ordered by: pinned albums first, then album
/// artist and album title (lower-cased), then id.
pub open spec fn album_before(pinned: Seq<Seq<char>>, a: AlbumRec, b: AlbumRec) -> bool {
    let pa = crate::library_controller::has_path(pinned, a.dir);
    let pb = crate::library_controller::has_path(pinned, b.dir);
    let aa = crate::text::str_lowercase(a.album_artist);
    let ba = crate::text::str_lowercase(b.album_artist);
    let al = crate::text::str_lowercase(a.album);
    let bl = crate::text::str_lowercase(b.album);
    if pa != pb {
        pa
    } else if aa != ba {
        str_less(aa, ba)
    } else if al != bl {
        str_less(al, bl)
    } else {
        str_less(a.id, b.id)
    }
}

pub open spec fn albums_ordered(pinned: Seq<Seq<char>>, v: Seq<AlbumRec>) -> bool {
    forall|i: int, j: int| 0 <= i < j < v.len() ==> !album_before(pinned, #[trigger] v[j], #[trigger] v[i])
}

proof fn lemma_album_before_asym(pinned: Seq<Seq<char>>, a: AlbumRec, b: AlbumRec)
    ensures
        !(album_before(pinned, a, b) && album_before(pinned, b, a)),
{
    lemma_str_less_total(crate::text::str_lowercase(a.album_artist), crate::text::str_lowercase(b.album_artist));
    lemma_str_less_total(crate::text::str_lowercase(a.album), crate::text::str_lowercase(b.album));
    lemma_str_less_total(a.id, b.id);
}

proof fn lemma_album_before_trans(pinned: Seq<Seq<char>>, a: AlbumRec, b: AlbumRec, c: AlbumRec)
    requires
        album_before(pinned, a, b),
        album_before(pinned, b, c),
    ensures
        album_before(pinned, a, c),
{
    let (aa, ba, ca) = (
        crate::text::str_lowercase(a.album_artist),
        crate::text::str_lowercase(b.album_artist),
        crate::text::str_lowercase(c.album_artist),
    );
    let (al, bl, cl) = (
        crate::text::str_lowercase(a.album),
        crate::text::str_lowercase(b.album),
        crate::text::str_lowercase(c.album),
    );
    lemma_str_less_total(aa, ba);
    lemma_str_less_total(ba, ca);
    lemma_str_less_total(aa, ca);
    lemma_str_less_total(al, bl);
    lemma_str_less_total(bl, cl);
    lemma_str_less_total(al, cl);
    if str_less(aa, ba) && str_less(ba, ca) {
        lemma_str_less_trans(aa, ba, ca);
    }
    if str_less(al, bl) && str_less(bl, cl) {
        lemma_str_less_trans(al, bl, cl);
    }
    if str_less(a.id, b.id) && str_less(b.id, c.id) {
        lemma_str_less_trans(a.id, b.id, c.id);
    }
    lemma_str_less_irrefl(aa);
    lemma_str_less_irrefl(al);
}


/// `a` and `b` tie: neither goes before the other.
pub open spec fn albums_tie(pinned: Seq<Seq<char>>, a: AlbumRec, b: AlbumRec) -> bool {
    !album_before(pinned, a, b) && !album_before(pinned, b, a)
}

/// `b` is `a` reordered by the index map `perm` (`b[k]` is `a[perm[k]]`, each
/// index once), albums that tie keeping the order they had in `a`.
pub open spec fn albums_stably_reordered(pinned: Seq<Seq<char>>, a: Seq<AlbumRec>, b: Seq<AlbumRec>, perm: Seq<int>) -> bool {
    &&& perm.len() == b.len()
    &&& b.len() == a.len()
    &&& forall|k: int| 0 <= k < b.len() ==> 0 <= #[trigger] perm[k] < a.len() && b[k] == a[perm[k]]
    &&& forall|k1: int, k2: int| 0 <= k1 < k2 < b.len() ==> #[trigger] perm[k1] != #[trigger] perm[k2]
    &&& forall|i: int, j: int| 0 <= i < j < b.len() && albums_tie(pinned, #[trigger] b[i], #[trigger] b[j]) ==> perm[i] < perm[j]
}

proof fn lemma_album_before_neg_trans(pinned: Seq<Seq<char>>, x: AlbumRec, y: AlbumRec, z: AlbumRec)
    requires
        album_before(pinned, x, y),
        !album_before(pinned, z, y),
    ensures
        album_before(pinned, x, z),
{
    let (xa, ya, za) = (
        crate::text::str_lowercase(x.album_artist),
        crate::text::str_lowercase(y.album_artist),
        crate::text::str_lowercase(z.album_artist),
    );
    let (xl, yl, zl) = (
        crate::text::str_lowercase(x.album),
        crate::text::str_lowercase(y.album),
        crate::text::str_lowercase(z.album),
    );
    lemma_str_less_total(xa, ya);
    lemma_str_less_total(ya, za);
    lemma_str_less_total(xa, za);
    lemma_str_less_total(xl, yl);
    lemma_str_less_total(yl, zl);
    lemma_str_less_total(xl, zl);
    lemma_str_less_total(x.id, y.id);
    lemma_str_less_total(y.id, z.id);
    lemma_str_less_total(x.id, z.id);
    if str_less(xa, ya) && str_less(ya, za) {
        lemma_str_less_trans(xa, ya, za);
    }
    if str_less(xl, yl) && str_less(yl, zl) {
        lemma_str_less_trans(xl, yl, zl);
    }
    if str_less(x.id, y.id) && str_less(y.id, z.id) {
        lemma_str_less_trans(x.id, y.id, z.id);
    }
    lemma_str_less_irrefl(xa);
    lemma_str_less_irrefl(xl);
}

/// Library order, stated on the albums themselves: a pinned album comes
/// before an unpinned one; among albums equally pinned, the smaller album
/// artist ignoring case comes first; and among those whose album artists
/// match ignoring case, the smaller album title ignoring case comes first,
/// whatever their ids or folders.
pub proof fn lemma_library_order(pinned: Seq<Seq<char>>, v: Seq<AlbumRec>, i: int, j: int)
    requires
        albums_ordered(pinned, v),
        0 <= i < v.len(),
        0 <= j < v.len(),
    ensures
        crate::library_controller::has_path(pinned, v[i].dir) && !crate::library_controller::has_path(pinned, v[j].dir)
            ==> i < j,
        crate::library_controller::has_path(pinned, v[i].dir) == crate::library_controller::has_path(pinned, v[j].dir)
            && str_less(crate::text::str_lowercase(v[i].album_artist), crate::text::str_lowercase(v[j].album_artist))
            ==> i < j,
        crate::library_controller::has_path(pinned, v[i].dir) == crate::library_controller::has_path(pinned, v[j].dir)
            && crate::text::str_lowercase(v[i].album_artist) == crate::text::str_lowercase(v[j].album_artist)
            && str_less(crate::text::str_lowercase(v[i].album), crate::text::str_lowercase(v[j].album))
            ==> i < j,
{
    let aa = crate::text::str_lowercase(v[i].album_artist);
    let ba = crate::text::str_lowercase(v[j].album_artist);
    let al = crate::text::str_lowercase(v[i].album);
    let bl = crate::text::str_lowercase(v[j].album);
    lemma_str_less_irrefl(aa);
    lemma_str_less_irrefl(al);
    if j < i {
        assert(!album_before(pinned, v[i], v[j]));
    }
}

struct SortKey {
    pinned: bool,
    artist: Vec<char>,
    album: Vec<char>,
}

pub open spec fn key_matches(pinned: Seq<Seq<char>>, k: (bool, Seq<char>, Seq<char>), a: AlbumRec) -> bool {
    &&& k.0 == crate::library_controller::has_path(pinned, a.dir)
    &&& k.1 == crate::text::str_lowercase(a.album_artist)
    &&& k.2 == crate::text::str_lowercase(a.album)
}

fn sort_key(pinned: &Vec<String>, a: &LibraryAlbum) -> (k: SortKey)
    ensures
        key_matches(str_views(pinned@), (k.pinned, k.artist@, k.album@), a@),
{
    let ar = crate::text::to_lowercase(a.album_artist.as_str());
    let al = crate::text::to_lowercase(a.album.as_str());
    SortKey {
        pinned: crate::library_controller::contains_path(pinned, a.dir.as_str()),
        artist: chars_of(ar.as_str()),
        album: chars_of(al.as_str()),
    }
}

fn before_by_key(pinned: &Vec<String>, a: &LibraryAlbum, ka: &SortKey, b: &LibraryAlbum, kb: &SortKey) -> (r: bool)
    requires
        key_matches(str_views(pinned@), (ka.pinned, ka.artist@, ka.album@), a@),
        key_matches(str_views(pinned@), (kb.pinned, kb.artist@, kb.album@), b@),
    ensures
        r == album_before(str_views(pinned@), a@, b@),
{
    if ka.pinned != kb.pinned {
        return ka.pinned;
    }
    if !crate::paths::chars_eq(ka.artist.as_slice(), kb.artist.as_slice()) {
        return chars_less(ka.artist.as_slice(), kb.artist.as_slice());
    }
    if !crate::paths::chars_eq(ka.album.as_slice(), kb.album.as_slice()) {
        return chars_less(ka.album.as_slice(), kb.album.as_slice());
    }
    let ia = chars_of(a.id.as_str());
    let ib = chars_of(b.id.as_str());
    chars_less(ia.as_slice(), ib.as_slice())
}

/// The albums of a scan in library order: pinned first, then by album
/// artist, album title and id. A stable sort; no album is lost or added.
pub fn order_albums(albums: Vec<LibraryAlbum>, pinned: &Vec<String>) -> (r: Vec<LibraryAlbum>)
    ensures
        albums_ordered(str_views(pinned@), album_views(r@)),
        album_views(r@).to_multiset() == album_views(albums@).to_multiset(),
        exists|perm: Seq<int>| #[trigger] albums_stably_reordered(str_views(pinned@), album_views(albums@), album_views(r@), perm),
        forall|i: int, j: int| 0 <= i < r@.len() && 0 <= j < r@.len() ==> ({
            let a = #[trigger] r@[i];
            let b = #[trigger] r@[j];
            let pa = crate::library_controller::has_path(str_views(pinned@), a.dir@);
            let pb = crate::library_controller::has_path(str_views(pinned@), b.dir@);
            let (aa, ba) = (crate::text::str_lowercase(a.album_artist@), crate::text::str_lowercase(b.album_artist@));
            let (al, bl) = (crate::text::str_lowercase(a.album@), crate::text::str_lowercase(b.album@));
            &&& pa && !pb ==> i < j
            &&& pa == pb && str_less(aa, ba) ==> i < j
            &&& pa == pb && aa == ba && str_less(al, bl) ==> i < j
        }),
{
    broadcast use vstd::seq_lib::group_to_multiset_ensures;

    let ghost pv = str_views(pinned@);
    let ghost orig = album_views(albums@);
    let mut rest = albums;
    let mut out: Vec<LibraryAlbum> = Vec::new();
    let mut keys: Vec<SortKey> = Vec::new();
    let mut done: usize = 0;
    let n = rest.len();
    let ghost mut perm: Seq<int> = Seq::empty();
    assert(album_views(rest@) =~= orig.skip(0));
    assert(album_views(out@).to_multiset() =~= orig.take(0).to_multiset());
    while rest.len() > 0
        invariant
            done + rest@.len() == orig.len(),
            n == orig.len(),
            pv == str_views(pinned@),
            album_views(rest@) == orig.skip(done as int),
            albums_stably_reordered(pv, orig.take(done as int), album_views(out@), perm),
            keys@.len() == out@.len(),
            forall|k: int| 0 <= k < out@.len() ==> key_matches(pv, (#[trigger] keys@[k].pinned, keys@[k].artist@, keys@[k].album@), out@[k]@),
            albums_ordered(pv, album_views(out@)),
            album_views(out@).to_multiset() == orig.take(done as int).to_multiset(),
        decreases rest@.len(),
    {
        let ghost r0 = rest@;
        assert(album_views(r0)[0] == orig[done as int]);
        let x = rest.remove(0);
        assert(x@ == orig[done as int]);
        assert(album_views(rest@) =~= orig.skip(done + 1)) by {
            assert(album_views(rest@) =~= album_views(r0).drop_first());
        }
        let kx = sort_key(pinned, &x);
        let ghost ov = album_views(out@);
        let mut p: usize = 0;
        while p < out.len() && !before_by_key(pinned, &x, &kx, &out[p], &keys[p])
            invariant
                p <= out@.len(),
                keys@.len() == out@.len(),
                pv == str_views(pinned@),
                forall|k: int| 0 <= k < out@.len() ==> key_matches(pv, (#[trigger] keys@[k].pinned, keys@[k].artist@, keys@[k].album@), out@[k]@),
                key_matches(pv, (kx.pinned, kx.artist@, kx.album@), x@),
                ov == album_views(out@),
                forall|k: int| 0 <= k < p ==> !album_before(pv, x@, #[trigger] ov[k]),
            decreases out@.len() - p,
        {
            p = p + 1;
        }
        proof {
            assert forall|i: int| p <= i < ov.len() implies !album_before(pv, #[trigger] ov[i], x@) by {
                lemma_album_before_asym(pv, ov[p as int], x@);
                if i > p && album_before(pv, ov[i], x@) {
                    lemma_album_before_trans(pv, ov[i], x@, ov[p as int]);
                }
            }
        }
        let ghost oo = out@;
        let ghost ok = keys@;
        out.insert(p, x);
        keys.insert(p, kx);
        let ghost nv = album_views(out@);
        assert(nv =~= ov.insert(p as int, orig[done as int]));
        proof {
            let np = perm.insert(p as int, done as int);
            let a1 = orig.take(done + 1);
            assert forall|k: int| 0 <= k < nv.len() implies 0 <= #[trigger] np[k] < a1.len() && nv[k] == a1[np[k]] by {
                if k < p {
                    assert(np[k] == perm[k]);
                    assert(nv[k] == ov[k]);
                } else if k > p {
                    assert(np[k] == perm[k - 1]);
                    assert(nv[k] == ov[k - 1]);
                }
            }
            assert forall|k1: int, k2: int| 0 <= k1 < k2 < nv.len() implies #[trigger] np[k1] != #[trigger] np[k2] by {
                if k1 != p && k2 != p {
                    let o1 = if k1 < p { k1 } else { k1 - 1 };
                    let o2 = if k2 < p { k2 } else { k2 - 1 };
                    assert(np[k1] == perm[o1] && np[k2] == perm[o2]);
                    assert(perm[o1] != perm[o2]);
                } else if k1 == p {
                    assert(np[k2] == perm[k2 - 1]);
                    assert(0 <= perm[k2 - 1] < done);
                } else {
                    assert(np[k1] == perm[k1]);
                    assert(0 <= perm[k1] < done);
                }
            }
            assert forall|i: int, j: int| 0 <= i < j < nv.len() && albums_tie(pv, #[trigger] nv[i], #[trigger] nv[j]) implies np[i] < np[j] by {
                if i != p && j != p {
                    let oi = if i < p { i } else { i - 1 };
                    let oj = if j < p { j } else { j - 1 };
                    assert(nv[i] == ov[oi] && nv[j] == ov[oj]);
                    assert(np[i] == perm[oi] && np[j] == perm[oj]);
                    assert(albums_tie(pv, ov[oi], ov[oj]));
                } else if j == p {
                    assert(np[i] == perm[i]);
                    assert(0 <= perm[i] < done);
                } else {
                    assert(nv[j] == ov[j - 1]);
                    assert(p < ov.len());
                    assert(album_before(pv, x@, ov[p as int]));
                    if j - 1 > p {
                        lemma_album_before_neg_trans(pv, x@, ov[p as int], ov[j - 1]);
                    }
                    assert(false);
                }
            }
            assert(albums_stably_reordered(pv, a1, nv, np));
            perm = np;
        }
        proof {
            assert forall|i: int, j: int| 0 <= i < j < nv.len() implies !album_before(pv, #[trigger] nv[j], #[trigger] nv[i]) by {
                if i < p && j < p {
                } else if i < p && j == p {
                } else if i < p && j > p {
                    assert(nv[j] == ov[j - 1]);
                } else if i == p {
                    assert(nv[j] == ov[j - 1]);
                } else {
                    assert(nv[j] == ov[j - 1]);
                    assert(nv[i] == ov[i - 1]);
                }
            }
            vstd::seq_lib::to_multiset_insert(ov, p as int, orig[done as int]);
            assert(orig.take(done + 1) =~= orig.take(done as int).push(orig[done as int]));
            vstd::seq_lib::to_multiset_build(orig.take(done as int), orig[done as int]);
            assert(nv.to_multiset() =~= orig.take(done + 1).to_multiset());
        }
        assert forall|k: int| 0 <= k < out@.len() implies key_matches(pv, (#[trigger] keys@[k].pinned, keys@[k].artist@, keys@[k].album@), out@[k]@) by {
            if k < p {
                assert(keys@[k] == ok[k]);
                assert(out@[k] == oo[k]);
            } else if k > p {
                assert(keys@[k] == ok[k - 1]);
                assert(out@[k] == oo[k - 1]);
            }
        }
        done = done + 1;
    }
    assert(orig.take(done as int) =~= orig);
    assert(albums_stably_reordered(pv, orig, album_views(out@), perm));
    proof {
        let v = album_views(out@);
        assert forall|i: int, j: int| 0 <= i < out@.len() && 0 <= j < out@.len() implies ({
            let a = #[trigger] out@[i];
            let b = #[trigger] out@[j];
            let pa = crate::library_controller::has_path(pv, a.dir@);
            let pb = crate::library_controller::has_path(pv, b.dir@);
            let (aa, ba) = (crate::text::str_lowercase(a.album_artist@), crate::text::str_lowercase(b.album_artist@));
            let (al, bl) = (crate::text::str_lowercase(a.album@), crate::text::str_lowercase(b.album@));
            &&& pa && !pb ==> i < j
            &&& pa == pb && str_less(aa, ba) ==> i < j
            &&& pa == pb && aa == ba && str_less(al, bl) ==> i < j
        }) by {
            assert(v[i] == out@[i]@ && v[j] == out@[j]@);
            lemma_library_order(pv, v, i, j);
        }
    }
    out
}

} // verus!
