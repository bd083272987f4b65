//! The playback session behind both frontends: which track list is loaded,
//! which track is current, what plays next (queue, album, repeat, shuffle) and
//! what the album header shows.
//!
//! Audio threads, drive handles, media-key sessions and the lyric fetch live
//! in the frontends; they ask this model what to do and report back.

use vstd::prelude::*;
use crate::cd_reader::{DriveInfo, TrackInfo};
use crate::file_player::{LocalTrack, copy_opt_string};
use crate::library::{opt_str, str_views};
use crate::lyrics::{lyrics_cache_key, lyrics_key_of, shown_texts, shown_times, source_view, LyricsDelivery, LyricsPanel, LyricsRequest};
use crate::musicbrainz::AlbumMetadata;
use crate::paths::{file_name, parent_file_name, file_name_of, parent_file_name_of, same_path, same_path_str};
use crate::queue::{Queue, QueueEntry};
use crate::smtc::SmtcUpdate;
use crate::text::{str_at, string_at};

verus! {

// ─── Album header ────────────────────────────────────────────────────────────

/// Album-level fields shown above a local track list.
#[derive(Clone, Debug)]
pub struct AlbumMeta {
    pub title: String,
    pub artist: String,
    pub year: String,
    pub cover: Option<String>,
}

pub struct MetaRec {
    pub title: Seq<char>,
    pub artist: Seq<char>,
    pub year: Seq<char>,
    pub cover: Option<Seq<char>>,
}

impl View for AlbumMeta {
    type V = MetaRec;

    open spec fn view(&self) -> MetaRec {
        MetaRec {
            title: self.title@,
            artist: self.artist@,
            year: self.year@,
            cover: opt_str(self.cover),
        }
    }
}

pub open spec fn same_album(ts: Seq<LocalTrack>, a: Seq<char>) -> bool {
    forall|i: int| 0 <= i < ts.len() ==> #[trigger] ts[i].album@ == a
}

pub open spec fn same_album_artist(ts: Seq<LocalTrack>, a: Seq<char>) -> bool {
    forall|i: int| 0 <= i < ts.len() ==> #[trigger] ts[i].album_artist@ == a
}

pub open spec fn same_year(ts: Seq<LocalTrack>, y: Seq<char>) -> bool {
    forall|i: int| 0 <= i < ts.len() ==> #[trigger] ts[i].year@ == y
}

/// The header for a set of tracks. A single file shows its own title and
/// artist. Several files show their common album (else the `fallback` folder
/// name, else nothing), their common album artist if it is set, their common
/// year, and the first track's cover.
pub open spec fn album_meta_of(ts: Seq<LocalTrack>, fallback: Option<Seq<char>>, is_single: bool) -> MetaRec
    recommends
        ts.len() > 0,
{
    let t = ts[0];
    if is_single {
        MetaRec { title: t.title@, artist: t.artist@, year: t.year@, cover: opt_str(t.cover_art_path) }
    } else {
        MetaRec {
            title: if same_album(ts, t.album@) && t.album@.len() > 0 {
                t.album@
            } else {
                match fallback {
                    Some(n) => n,
                    None => Seq::empty(),
                }
            },
            artist: if same_album_artist(ts, t.album_artist@) && t.album_artist@.len() > 0 {
                t.album_artist@
            } else {
                Seq::empty()
            },
            year: if same_year(ts, t.year@) {
                t.year@
            } else {
                Seq::empty()
            },
            cover: opt_str(t.cover_art_path),
        }
    }
}

fn all_same_album(tracks: &[LocalTrack], a: &String) -> (r: bool)
    ensures
        r == same_album(tracks@, a@),
{
    let mut i: usize = 0;
    while i < tracks.len()
        invariant
            i <= tracks@.len(),
            forall|j: int| 0 <= j < i ==> #[trigger] tracks@[j].album@ == a@,
        decreases tracks@.len() - i,
    {
        if tracks[i].album != *a {
            return false;
        }
        i = i + 1;
    }
    true
}

fn all_same_album_artist(tracks: &[LocalTrack], a: &String) -> (r: bool)
    ensures
        r == same_album_artist(tracks@, a@),
{
    let mut i: usize = 0;
    while i < tracks.len()
        invariant
            i <= tracks@.len(),
            forall|j: int| 0 <= j < i ==> #[trigger] tracks@[j].album_artist@ == a@,
        decreases tracks@.len() - i,
    {
        if tracks[i].album_artist != *a {
            return false;
        }
        i = i + 1;
    }
    true
}

fn all_same_year(tracks: &[LocalTrack], y: &String) -> (r: bool)
    ensures
        r == same_year(tracks@, y@),
{
    let mut i: usize = 0;
    while i < tracks.len()
        invariant
            i <= tracks@.len(),
            forall|j: int| 0 <= j < i ==> #[trigger] tracks@[j].year@ == y@,
        decreases tracks@.len() - i,
    {
        if tracks[i].year != *y {
            return false;
        }
        i = i + 1;
    }
    true
}

/// The header for `tracks`, with `fallback` as the title of a mixed set.
fn album_meta_with(tracks: &[LocalTrack], fallback: Option<Vec<char>>, is_single: bool) -> (m: AlbumMeta)
    requires
        tracks@.len() > 0,
    ensures
        m@ == album_meta_of(
            tracks@,
            match fallback {
                Some(v) => Some(v@),
                None => None,
            },
            is_single,
        ),
{
    let t = &tracks[0];
    if is_single {
        return AlbumMeta {
            title: t.title.clone(),
            artist: t.artist.clone(),
            year: t.year.clone(),
            cover: copy_opt_string(&t.cover_art_path),
        };
    }
    let title = if all_same_album(tracks, &t.album) && !t.album.as_str().is_empty() {
        t.album.clone()
    } else {
        match fallback {
            Some(v) => crate::text::string_from_chars(v.as_slice()),
            None => String::new(),
        }
    };
    let artist = if all_same_album_artist(tracks, &t.album_artist)
        && !t.album_artist.as_str().is_empty() {
        t.album_artist.clone()
    } else {
        String::new()
    };
    let year = if all_same_year(tracks, &t.year) {
        t.year.clone()
    } else {
        String::new()
    };
    AlbumMeta { title, artist, year, cover: copy_opt_string(&t.cover_art_path) }
}

/// For a single file, show the track's own title and artist. For several
/// files, use their common album when they share one and fall back to the
/// name of the first path the user picked.
pub fn derive_album_meta(tracks: &[LocalTrack], input_paths: &[String], is_single: bool) -> (m: AlbumMeta)
    requires
        tracks@.len() > 0,
    ensures
        m@ == album_meta_of(
            tracks@,
            if input_paths@.len() > 0 {
                file_name(input_paths@[0]@)
            } else {
                None
            },
            is_single,
        ),
{
    let fallback = if input_paths.len() > 0 {
        file_name_of(input_paths[0].as_str())
    } else {
        None
    };
    album_meta_with(tracks, fallback, is_single)
}

// ─── The album a file belongs to ─────────────────────────────────────────────

/// The tracks among `siblings` that carry the album tag `a`, in order.
pub open spec fn tagged_siblings(siblings: Seq<LocalTrack>, a: Seq<char>) -> Seq<LocalTrack> {
    siblings.filter(has_album(a))
}

pub open spec fn has_album(a: Seq<char>) -> spec_fn(LocalTrack) -> bool {
    |t: LocalTrack| t.album@ == a
}

/// Index of the first track in `s` at the same path as `p`, or -1.
pub open spec fn position_of(s: Seq<LocalTrack>, p: Seq<char>) -> int
    decreases s.len(),
{
    if s.len() == 0 {
        -1
    } else if same_path(s[0].path@, p) {
        0
    } else {
        let r = position_of(s.drop_first(), p);
        if r < 0 {
            -1
        } else {
            r + 1
        }
    }
}

/// The album `this` belongs to, as the audio files of its folder that share
/// its album tag, and its index among them. A file with no album tag, or with
/// no sibling of the same album, stands on its own at index 0.
pub open spec fn album_context(this: LocalTrack, siblings: Seq<LocalTrack>) -> (Seq<LocalTrack>, int) {
    let album = if this.album@.len() == 0 {
        Seq::empty()
    } else {
        tagged_siblings(siblings, this.album@)
    };
    let i = position_of(album, this.path@);
    if i >= 0 && album.len() > 1 {
        (album, i)
    } else {
        (seq![this], 0)
    }
}

proof fn lemma_position_bounds(s: Seq<LocalTrack>, p: Seq<char>)
    ensures
        -1 <= position_of(s, p) < s.len(),
        position_of(s, p) >= 0 ==> same_path(s[position_of(s, p)].path@, p),
    decreases s.len(),
{
    if s.len() > 0 && !same_path(s[0].path@, p) {
        lemma_position_bounds(s.drop_first(), p);
    }
}

/// The album a file belongs to and the file's index within it, given the file
/// itself and the audio files found in its folder (read by the caller).
pub fn album_context_for(this: LocalTrack, siblings: Vec<LocalTrack>) -> (r: (Vec<LocalTrack>, i32))
    requires
        siblings@.len() <= i32::MAX,
    ensures
        r.0@ == album_context(this, siblings@).0,
        r.1 as int == album_context(this, siblings@).1,
{
    let ghost a = this.album@;
    let mut album: Vec<LocalTrack> = Vec::new();
    if !this.album.as_str().is_empty() {
        let mut i: usize = 0;
        while i < siblings.len()
            invariant
                i <= siblings@.len(),
                a == this.album@,
                album@ == tagged_siblings(siblings@.take(i as int), a),
            decreases siblings@.len() - i,
        {
            let ghost before = siblings@.take(i as int);
            assert(siblings@.take(i + 1) =~= before.push(siblings@[i as int]));
            proof {
                before.lemma_filter_push(siblings@[i as int], has_album(a));
            }
            if siblings[i].album == this.album {
                album.push(siblings[i].copied());
            }
            i = i + 1;
        }
        assert(siblings@.take(siblings@.len() as int) =~= siblings@);
    } else {
        assert(album@ =~= Seq::<LocalTrack>::empty());
    }
    let ghost sel = album@;
    assert(sel == (if this.album@.len() == 0 {
        Seq::<LocalTrack>::empty()
    } else {
        tagged_siblings(siblings@, this.album@)
    }));
    proof {
        siblings@.lemma_filter_len(has_album(a));
        lemma_position_bounds(sel, this.path@);
    }
    assert(sel.skip(0) =~= sel);
    let mut k: usize = 0;
    while k < album.len()
        invariant
            k <= album@.len(),
            album@ == sel,
            sel.len() <= siblings@.len(),
            siblings@.len() <= i32::MAX,
            sel == (if this.album@.len() == 0 {
                Seq::<LocalTrack>::empty()
            } else {
                tagged_siblings(siblings@, this.album@)
            }),
            position_of(sel, this.path@) == (if position_of(sel.skip(k as int), this.path@) < 0 {
                -1
            } else {
                position_of(sel.skip(k as int), this.path@) + k
            }),
        decreases album@.len() - k,
    {
        assert(sel.skip(k as int).drop_first() =~= sel.skip(k + 1));
        if same_path_str(album[k].path.as_str(), this.path.as_str()) {
            assert(sel.skip(k as int)[0] == sel[k as int]);
            assert(position_of(sel.skip(k as int), this.path@) == 0);
            assert(position_of(sel, this.path@) == k);
            if album.len() > 1 {
                return (album, k as i32);
            }
            return (vec![this], 0);
        }
        k = k + 1;
    }
    assert(sel.skip(k as int) =~= Seq::<LocalTrack>::empty());
    (vec![this], 0)
}

// ─── Shuffle randomness ──────────────────────────────────────────────────────

/// Xorshift step used to scramble the clock reading.
pub open spec fn xorshift(seed: u64) -> u64 {
    let x0 = seed | 1;
    let x1 = x0 ^ (x0 << 13u64);
    let x2 = x1 ^ (x1 >> 7u64);
    x2 ^ (x2 << 17u64)
}

/// Index in `0..len` picked from `seed` (0 when `len` is 0).
pub fn pseudo_random_from(seed: u64, len: usize) -> (r: usize)
    ensures
        len == 0 ==> r == 0,
        len > 0 ==> r < len && r as int == xorshift(seed) as int % len as int,
{
    if len == 0 {
        return 0;
    }
    let mut x: u64 = seed | 1;
    x = x ^ (x << 13u64);
    x = x ^ (x >> 7u64);
    x = x ^ (x << 17u64);
    let n: u64 = len as u64;
    let r: u64 = x % n;
    r as usize
}

/// Seconds since the Unix epoch and the nanoseconds past that second, from
/// `SystemTime::now().duration_since(UNIX_EPOCH)`; `None` when the clock is
/// set before the epoch. Of the reading only what `Duration::subsec_nanos`
/// documents is promised: the nanoseconds are under one billion.
#[verifier::external_body]
fn epoch_time() -> (r: Option<(u64, u32)>)
    ensures
        r matches Some((secs, nanos)) ==> nanos < 1_000_000_000,
{
    match std::time::SystemTime::now().duration_since(std::time::UNIX_EPOCH) {
        Ok(d) => Some((d.as_secs(), d.subsec_nanos())),
        Err(_) => None,
    }
}

/// The shuffle seed of a clock reading: its nanoseconds xor its seconds.
pub open spec fn seed_of_reading(secs: u64, nanos: u32) -> u64 {
    (nanos as u64) ^ secs
}

/// A seed the clock can give: that of some reading since the epoch, or 0
/// when the clock stands before the epoch.
pub open spec fn clock_seed_value(seed: u64) -> bool {
    seed == 0 || exists|secs: u64, nanos: u32| nanos < 1_000_000_000 && seed == #[trigger] seed_of_reading(secs, nanos)
}

/// A seed for the shuffle from the system clock: the reading's nanoseconds
/// xor its seconds, or 0 when the clock stands before the epoch. Which
/// reading comes is the clock's to say.
fn clock_seed() -> (r: u64)
    ensures
        clock_seed_value(r),
{
    match epoch_time() {
        Some((secs, nanos)) => {
            let r: u64 = (nanos as u64) ^ secs;
            assert(r == seed_of_reading(secs, nanos));
            r
        },
        None => 0,
    }
}

/// Index in `0..len` from the system clock: the pick of `pseudo_random_from`
/// for a seed the clock gives. Shuffle order does not need to be anything
/// more than unpredictable to a listener.
pub fn pseudo_random(len: usize) -> (r: usize)
    ensures
        len == 0 ==> r == 0,
        len > 0 ==> r < len && exists|seed: u64| #[trigger] clock_seed_value(seed)
            && r as int == xorshift(seed) as int % len as int,
{
    let seed = clock_seed();
    let r = pseudo_random_from(seed, len);
    assert(len > 0 ==> clock_seed_value(seed) && r as int == xorshift(seed) as int % len as int);
    r
}

// ─── Choosing the next track ─────────────────────────────────────────────────

/// Repeat modes, as the frontends number them.
pub const REPEAT_OFF: i32 = 0;
pub const REPEAT_ALL: i32 = 1;
pub const REPEAT_ONE: i32 = 2;

pub open spec fn in_list(total: i32) -> spec_fn(i32) -> bool {
    |i: i32| 0 <= i < total
}

pub open spec fn not_in(h: Seq<i32>) -> spec_fn(i32) -> bool {
    |i: i32| !h.contains(i)
}

/// The indices `0..total`.
pub open spec fn index_range(total: i32) -> Seq<i32> {
    Seq::new(if total < 0 { 0 } else { total as nat }, |i: int| i as i32)
}

/// The shuffle history at the start of a pick: entries still inside the list,
/// plus the current track if it was not recorded yet.
pub open spec fn pass_history(h: Seq<i32>, current: i32, total: i32) -> Seq<i32> {
    let kept = h.filter(in_list(total));
    if !kept.contains(current) && current >= 0 {
        kept.push(current)
    } else {
        kept
    }
}

/// The tracks of `0..total` not played yet in this pass.
pub open spec fn unplayed(h: Seq<i32>, total: i32) -> Seq<i32> {
    index_range(total).filter(not_in(h))
}

/// The repeat mode an explicit skip goes by: repeat-one counts as
/// repeat-all, so the skip moves on.
pub open spec fn skip_repeat(r: i32) -> i32 {
    if r == REPEAT_ONE {
        REPEAT_ALL
    } else {
        r
    }
}

pub open spec fn at_least_zero(i: i32) -> i32 {
    if i < 0 { 0 } else { i }
}

/// The next index within a list of `total` tracks and the shuffle history
/// after the pick. Repeat-one plays the same track again. Shuffle picks among
/// the tracks not yet played in this pass (by `seed`); a finished pass starts
/// over under repeat-all and ends playback otherwise. In order, the next track
/// follows, wrapping round under repeat-all.
pub open spec fn next_pick(current: i32, total: i32, repeat: i32, shuffle: bool, h: Seq<i32>, seed: u64) -> (Option<i32>, Seq<i32>) {
    if total <= 0 {
        (None, h)
    } else if repeat == REPEAT_ONE {
        (Some(at_least_zero(current)), h)
    } else if shuffle && total > 1 {
        let h2 = pass_history(h, current, total);
        if h2.len() >= total && repeat != REPEAT_ALL {
            (None, Seq::empty())
        } else {
            let h3 = if h2.len() >= total { Seq::empty() } else { h2 };
            let pool = unplayed(h3, total);
            if pool.len() > 0 {
                (Some(pool[(xorshift(seed) as int) % (pool.len() as int)]), h3)
            } else {
                (Some(at_least_zero(current)), h3)
            }
        }
    } else if current + 1 < total {
        (Some((current + 1) as i32), h)
    } else if repeat == REPEAT_ALL {
        (Some(0), h)
    } else {
        (None, h)
    }
}

fn contains_index(h: &Vec<i32>, x: i32) -> (r: bool)
    ensures
        r == h@.contains(x),
{
    let mut i: usize = 0;
    while i < h.len()
        invariant
            i <= h@.len(),
            forall|j: int| 0 <= j < i ==> h@[j] != x,
        decreases h@.len() - i,
    {
        if h[i] == x {
            return true;
        }
        i = i + 1;
    }
    false
}

/// A sequence of `total` or fewer... fewer than `total` indices misses one of
/// `0..total`.
proof fn lemma_missing_index(h: Seq<i32>, total: i32)
    requires
        0 <= total,
        h.len() < total,
    ensures
        exists|i: i32| 0 <= i < total && !#[trigger] h.contains(i),
{
    let m = h.map_values(|x: i32| x as int);
    if forall|i: i32| 0 <= i < total ==> #[trigger] h.contains(i) {
        vstd::set_lib::lemma_int_range(0, total as int);
        assert(vstd::set_lib::set_int_range(0, total as int).subset_of(m.to_set())) by {
            assert forall|x: int| vstd::set_lib::set_int_range(0, total as int).contains(x) implies m.to_set().contains(x) by {
                assert(h.contains(x as i32));
                let j = choose|j: int| 0 <= j < h.len() && h[j] == x as i32;
                assert(m[j] == x);
                assert(m.contains(x));
            }
        }
        m.lemma_cardinality_of_set();
        vstd::seq_lib::seq_to_set_is_finite(m);
        vstd::set_lib::lemma_len_subset(vstd::set_lib::set_int_range(0, total as int), m.to_set());
    }
}

/// The pick the shuffle makes when the pass is not over.
proof fn lemma_pool_nonempty(h3: Seq<i32>, total: i32)
    requires
        0 <= total,
        h3.len() < total,
    ensures
        unplayed(h3, total).len() > 0,
{
    lemma_missing_index(h3, total);
    let i = choose|i: i32| 0 <= i < total && !#[trigger] h3.contains(i);
    let r = index_range(total);
    assert(r[i as int] == i);
    r.lemma_filter_contains(not_in(h3), i as int);
}

/// The index to play after `current` in a list of `total`, and the updated
/// shuffle history, with `seed` standing for the random draw.
pub fn next_index_from(current: i32, total: i32, repeat: i32, shuffle: bool, history: &mut Vec<i32>, seed: u64) -> (r: Option<i32>)
    ensures
        (r, final(history)@) == next_pick(current, total, repeat, shuffle, old(history)@, seed),
{
    if total <= 0 {
        return None;
    }
    if repeat == REPEAT_ONE {
        return Some(if current < 0 { 0 } else { current });
    }
    if shuffle && total > 1 {
        let ghost h = history@;
        let mut kept: Vec<i32> = Vec::new();
        let mut i: usize = 0;
        while i < history.len()
            invariant
                i <= history@.len(),
                history@ == h,
                kept@ == h.take(i as int).filter(in_list(total)),
            decreases history@.len() - i,
        {
            assert(h.take(i + 1) =~= h.take(i as int).push(h[i as int]));
            proof {
                h.take(i as int).lemma_filter_push(h[i as int], in_list(total));
            }
            let x = history[i];
            if 0 <= x && x < total {
                kept.push(x);
            }
            i = i + 1;
        }
        assert(h.take(h.len() as int) =~= h);
        if !contains_index(&kept, current) && current >= 0 {
            kept.push(current);
        }
        assert(kept@ == pass_history(h, current, total));
        let full = kept.len() >= total as usize;
        if full {
            kept = Vec::new();
            if repeat != REPEAT_ALL {
                *history = kept;
                return None;
            }
        }
        let ghost h3 = kept@;
        let mut pool: Vec<i32> = Vec::new();
        let mut k: i32 = 0;
        while k < total
            invariant
                0 <= k <= total,
                kept@ == h3,
                pool@ == index_range(k).filter(not_in(h3)),
            decreases total - k,
        {
            assert(index_range((k + 1) as i32) =~= index_range(k).push(k));
            proof {
                index_range(k).lemma_filter_push(k, not_in(h3));
            }
            if !contains_index(&kept, k) {
                pool.push(k);
            }
            k = k + 1;
        }
        *history = kept;
        if pool.len() > 0 {
            let j = pseudo_random_from(seed, pool.len());
            return Some(pool[j]);
        }
        return Some(if current < 0 { 0 } else { current });
    }
    if current < total - 1 {
        return Some(current + 1);
    }
    if repeat == REPEAT_ALL {
        return Some(0);
    }
    None
}

/// In shuffle mode no track plays twice in one pass: a pick is always a track
/// of the list that is not in the pass's history (the current track included),
/// and playback only runs out once every track has had its turn and repeat-all
/// is off.
pub proof fn lemma_shuffle_no_repeat(current: i32, total: i32, repeat: i32, h: Seq<i32>, seed: u64)
    requires
        total > 1,
        repeat != REPEAT_ONE,
    ensures
        ({
            let (r, h3) = next_pick(current, total, repeat, true, h, seed);
            &&& r matches Some(i) ==> 0 <= i < total && !h3.contains(i)
            &&& current >= 0 && r is Some ==> h3.contains(current) || h3.len() == 0
            &&& r is None <==> (pass_history(h, current, total).len() >= total && repeat != REPEAT_ALL)
        }),
{
    broadcast use vstd::seq_lib::group_filter_ensures;

    let h2 = pass_history(h, current, total);
    let kept = h.filter(in_list(total));
    if !(h2.len() >= total && repeat != REPEAT_ALL) {
        let h3 = if h2.len() >= total { Seq::<i32>::empty() } else { h2 };
        assert(h3.len() < total);
        lemma_pool_nonempty(h3, total);
        let pool = unplayed(h3, total);
        let j = (xorshift(seed) as int) % (pool.len() as int);
        assert(0 <= j < pool.len());
        assert(not_in(h3)(pool[j]));
        assert(pool.contains(pool[j]));
        index_range(total).lemma_filter_contains_rev(not_in(h3), pool[j]);
        let w = choose|w: int| 0 <= w < index_range(total).len() && index_range(total)[w] == pool[j];
        assert(0 <= pool[j] < total);
        if current >= 0 && h2.len() < total {
            if !kept.contains(current) {
                assert(h2[h2.len() - 1] == current);
            }
        }
    }
}

// ─── The session ─────────────────────────────────────────────────────────────

/// Where playback goes back to once the queue drains.
pub struct QueueResume {
    pub tracks: Vec<LocalTrack>,
    pub is_single: bool,
    pub meta: AlbumMeta,
    pub next_index: i32,
}

/// What to start playing: a local file, or a track of the disc in a drive.
#[derive(Clone, Debug)]
pub enum PlaybackTarget {
    File { path: String },
    Disc { drive_path: String, track_number: u8 },
}

/// What `play_pause` did.
#[derive(Clone, Debug)]
pub enum PlayPause {
    /// Playback was running and is now stopped.
    Paused,
    /// Playback should start on this target.
    Started(PlaybackTarget),
    /// Nothing valid is loaded, so nothing started.
    NotStarted,
}

/// What `advance` did.
#[derive(Clone, Debug)]
pub enum Advance {
    /// A queued song is next. The caller reads it and its folder and hands
    /// them to `play_queue_entry`.
    Queued(QueueEntry),
    /// A track of the current list is loaded, stopped.
    Loaded,
    /// Nothing is left to play.
    Finished,
}

/// The playback session: the loaded track list, the current track, the play
/// modes, the queue and the album header.
pub struct PlayerController {
    /// Index of the current track, -1 when none is selected.
    pub current_track: i32,
    pub total_tracks: i32,
    pub is_playing: bool,
    /// Local files are loaded (as opposed to a disc).
    pub is_file_mode: bool,
    pub is_single_file: bool,
    pub shuffle: bool,
    /// `REPEAT_OFF`, `REPEAT_ALL` or `REPEAT_ONE`.
    pub repeat_mode: i32,
    pub selected_drive_index: i32,
    pub discord_enabled: bool,
    /// The crossfade handover for the current track has been started.
    pub crossfade_armed: bool,
    /// Album metadata is known for what is loaded.
    pub metadata_loaded: bool,
    pub drives: Vec<DriveInfo>,
    pub current_drive_path: Option<String>,
    pub current_disc_id: String,
    pub cd_tracks: Vec<TrackInfo>,
    pub file_tracks: Vec<LocalTrack>,
    /// Album, album artist and cover as the media session shows them.
    pub album_title: String,
    pub album_artist: String,
    pub album_year: String,
    pub cover_url: String,
    pub track_titles: Vec<String>,
    pub track_artists: Vec<String>,
    pub queue: Queue,
    /// The album the queue interrupted, to go back to once it drains.
    pub queue_resume: Option<QueueResume>,
    /// Indices already played in this shuffle pass.
    pub shuffle_history: Vec<i32>,
    /// The lyrics of the current track.
    pub lyrics: LyricsPanel,
}

pub open spec fn titles_of(ts: Seq<LocalTrack>) -> Seq<Seq<char>> {
    Seq::new(ts.len(), |i: int| ts[i].title@)
}

pub open spec fn artists_of(ts: Seq<LocalTrack>) -> Seq<Seq<char>> {
    Seq::new(ts.len(), |i: int| ts[i].artist@)
}

pub open spec fn cover_text(c: Option<Seq<char>>) -> Seq<char> {
    match c {
        Some(s) => s,
        None => Seq::empty(),
    }
}

/// `b` is `a` with `tracks` loaded as the local session, stopped and with no
/// track selected.
pub open spec fn loaded_session(a: PlayerController, b: PlayerController, tracks: Seq<LocalTrack>, is_single: bool, meta: MetaRec) -> bool {
    &&& b.is_file_mode
    &&& !b.is_playing
    &&& b.is_single_file == is_single
    &&& b.file_tracks@ == tracks
    &&& b.cd_tracks@.len() == 0
    &&& b.metadata_loaded
    &&& b.album_title@ == meta.title
    &&& b.album_artist@ == meta.artist
    &&& b.album_year@ == meta.year
    &&& b.cover_url@ == cover_text(meta.cover)
    &&& crate::library::str_views(b.track_titles@) == titles_of(tracks)
    &&& crate::library::str_views(b.track_artists@) == artists_of(tracks)
    &&& b.total_tracks == tracks.len()
    &&& b.current_track == -1
    &&& b.shuffle == a.shuffle
    &&& b.repeat_mode == a.repeat_mode
    &&& b.queue@ == a.queue@
    &&& b.queue_resume == a.queue_resume
    &&& b.shuffle_history == a.shuffle_history
    &&& b.drives == a.drives
    &&& b.current_drive_path == a.current_drive_path
    &&& b.selected_drive_index == a.selected_drive_index
    &&& b.current_disc_id == a.current_disc_id
    &&& b.discord_enabled == a.discord_enabled
    &&& b.crossfade_armed == a.crossfade_armed
}

/// Whether there is an album to come back to after the queue: local files are
/// loaded and the queue has not taken over already.
pub open spec fn capturable(a: PlayerController) -> bool {
    a.queue_resume is None && a.is_file_mode && a.file_tracks@.len() > 0
}

/// `b` is `a` with its album remembered as the place to resume after the
/// queue (when there is one to remember): the same tracks, the header as
/// shown, and the track after the current one.
pub open spec fn captured(a: PlayerController, b: PlayerController) -> bool {
    if !capturable(a) {
        b == a
    } else {
        &&& b == (PlayerController { queue_resume: b.queue_resume, ..a })
        &&& b.queue_resume matches Some(r)
        &&& r.tracks@ == a.file_tracks@
        &&& r.is_single == (a.file_tracks@.len() == 1)
        &&& r.meta@ == (MetaRec {
            title: a.album_title@,
            artist: a.album_artist@,
            year: Seq::empty(),
            cover: if a.cover_url@.len() == 0 {
                None
            } else {
                Some(a.cover_url@)
            },
        })
        &&& r.next_index == a.current_track + 1
    }
}

/// `b` is `a` returned to the album the queue interrupted: that album is
/// loaded again and, when it has one, the track after the one that was
/// playing is selected.
pub open spec fn resumed(a: PlayerController, b: PlayerController) -> bool {
    &&& a.queue_resume matches Some(res)
    &&& res.tracks@.len() > 0 ==> loaded_session(
        PlayerController { queue_resume: None, ..a },
        PlayerController { current_track: -1i32, is_playing: false, ..b },
        res.tracks@,
        res.is_single,
        res.meta@,
    )
    &&& res.tracks@.len() == 0 ==> b == (PlayerController { queue_resume: None, ..a })
    &&& res.tracks@.len() > 0 && 0 <= res.next_index < res.tracks@.len() ==> b.current_track
        == res.next_index && !b.is_playing
    &&& res.tracks@.len() > 0 && !(0 <= res.next_index < res.tracks@.len()) ==> b.current_track
        == -1 && !b.is_playing
}

/// `b` is `a` after `advance` returned `r`, with `seed` standing for the
/// shuffle's random draw: the queue's first song when there is one (the
/// album it interrupts remembered), else the interrupted album, else the next
/// pick in the current list.
pub open spec fn advanced(a: PlayerController, b: PlayerController, r: Advance, seed: u64) -> bool {
    &&& a.queue@.len() > 0 ==> r == Advance::Queued(a.queue@[0]) && b.queue@ == a.queue@.drop_first()
        && captured(PlayerController { queue: b.queue, ..a }, b)
    &&& a.queue@.len() == 0 && a.queue_resume is Some ==> resumed(a, b) && (r is Loaded <==> a.queue_resume->0.next_index
        < a.queue_resume->0.tracks@.len()) && !(r is Queued)
    &&& a.queue@.len() == 0 && a.queue_resume is None ==> ({
        let (p, h) = next_pick(a.current_track, a.total_tracks, a.repeat_mode, a.shuffle, a.shuffle_history@, seed);
        &&& b.shuffle_history@ == h
        &&& (r is Loaded <==> p is Some)
        &&& !(r is Queued)
        &&& (p is Some && 0 <= p->0 < a.list_len() ==> b == (PlayerController {
            current_track: p->0,
            is_playing: false,
            shuffle_history: b.shuffle_history,
            ..a
        }))
        &&& (!(p is Some && 0 <= p->0 < a.list_len()) ==> b == (PlayerController {
            shuffle_history: b.shuffle_history,
            ..a
        }))
    })
}

/// `s` with repeat mode `m`.
pub open spec fn with_repeat(s: PlayerController, m: i32) -> PlayerController {
    PlayerController { repeat_mode: m, ..s }
}

/// `s` with playback stopped.
pub open spec fn stopped(s: PlayerController) -> PlayerController {
    PlayerController { is_playing: false, ..s }
}

impl PlayerController {
    pub open spec fn wf(&self) -> bool {
        &&& 0 <= self.repeat_mode <= 2
        &&& -1 <= self.current_track < i32::MAX
        &&& self.total_tracks >= 0
        &&& self.file_tracks@.len() <= i32::MAX
        &&& self.cd_tracks@.len() <= i32::MAX
        &&& self.queue_resume matches Some(r) ==> r.tracks@.len() <= i32::MAX
    }

    /// The tracks of the loaded list, counted in the mode that is active.
    pub open spec fn list_len(&self) -> int {
        if self.is_file_mode {
            self.file_tracks@.len() as int
        } else {
            self.cd_tracks@.len() as int
        }
    }

    /// A fresh session: nothing loaded, disc mode, repeat and shuffle off.
    pub fn new(discord_enabled: bool) -> (p: PlayerController)
        ensures
            p.wf(),
            p.current_track == -1,
            p.total_tracks == 0,
            !p.is_playing,
            !p.is_file_mode,
            !p.shuffle,
            p.repeat_mode == REPEAT_OFF,
            p.selected_drive_index == -1,
            p.discord_enabled == discord_enabled,
            p.queue@.len() == 0,
            p.queue_resume is None,
            p.file_tracks@.len() == 0,
            p.cd_tracks@.len() == 0,
            p.drives@.len() == 0,
            p.current_drive_path is None,
            p.shuffle_history@.len() == 0,
    {
        PlayerController {
            current_track: -1,
            total_tracks: 0,
            is_playing: false,
            is_file_mode: false,
            is_single_file: false,
            shuffle: false,
            repeat_mode: REPEAT_OFF,
            selected_drive_index: -1,
            discord_enabled,
            crossfade_armed: false,
            metadata_loaded: false,
            drives: Vec::new(),
            current_drive_path: None,
            current_disc_id: String::new(),
            cd_tracks: Vec::new(),
            file_tracks: Vec::new(),
            album_title: String::new(),
            album_artist: String::new(),
            album_year: String::new(),
            cover_url: String::new(),
            track_titles: Vec::new(),
            track_artists: Vec::new(),
            queue: Queue::new(),
            queue_resume: None,
            shuffle_history: Vec::new(),
            lyrics: LyricsPanel::new(),
        }
    }

    /// Stop playback. Returns the drive to reopen for disc polling, when a
    /// disc (not local files) is loaded and a drive is selected.
    pub fn stop_playback_internal(&mut self) -> (reopen: Option<String>)
        ensures
            *final(self) == (PlayerController { is_playing: false, ..*old(self) }),
            reopen == (if old(self).is_file_mode {
                None
            } else {
                old(self).current_drive_path
            }),
    {
        self.is_playing = false;
        if self.is_file_mode {
            None
        } else {
            match &self.current_drive_path {
                Some(p) => Some(p.clone()),
                None => None,
            }
        }
    }

    /// Select track `index` of the loaded list, stopped at its start. An index
    /// outside the list changes nothing; returns whether it was taken.
    pub fn load_track_at(&mut self, index: i32) -> (ok: bool)
        requires
            old(self).wf(),
        ensures
            final(self).wf(),
            ok == (0 <= index < old(self).list_len()),
            ok ==> *final(self) == (PlayerController {
                is_playing: false,
                current_track: index,
                ..*old(self)
            }),
            !ok ==> *final(self) == *old(self),
    {
        if index < 0 {
            return false;
        }
        if self.is_file_mode {
            if index as usize >= self.file_tracks.len() {
                return false;
            }
        } else {
            if index as usize >= self.cd_tracks.len() {
                return false;
            }
        }
        self.is_playing = false;
        self.current_track = index;
        true
    }

    /// Track selection from the UI. Choosing a track by hand supersedes the
    /// album the queue was going to return to.
    pub fn load_track(&mut self, index: i32) -> (ok: bool)
        requires
            old(self).wf(),
        ensures
            final(self).wf(),
            ok == (0 <= index < old(self).list_len()),
            ok ==> *final(self) == (PlayerController {
                is_playing: false,
                current_track: index,
                queue_resume: None,
                ..*old(self)
            }),
            !ok ==> *final(self) == (PlayerController { queue_resume: None, ..*old(self) }),
    {
        self.queue_resume = None;
        self.load_track_at(index)
    }

    /// Go back one track, if there is one before the current.
    pub fn previous_track(&mut self) -> (ok: bool)
        requires
            old(self).wf(),
        ensures
            final(self).wf(),
            ok == (0 < old(self).current_track && old(self).current_track - 1 < old(self).list_len()),
            ok ==> *final(self) == (PlayerController {
                is_playing: false,
                current_track: (old(self).current_track - 1) as i32,
                queue_resume: None,
                ..*old(self)
            }),
            old(self).current_track > 0 && !ok ==> *final(self) == (PlayerController {
                queue_resume: None,
                ..*old(self)
            }),
            old(self).current_track <= 0 ==> *final(self) == *old(self),
    {
        if self.current_track > 0 {
            let i = self.current_track - 1;
            self.load_track(i)
        } else {
            false
        }
    }

    /// What to play for the current track. Playback stops first; it is marked
    /// running again only when there is something valid to play: a local file
    /// in file mode, or a track of the loaded disc in a selected drive.
    pub fn start_playback(&mut self) -> (t: Option<PlaybackTarget>)
        requires
            old(self).wf(),
        ensures
            final(self).wf(),
            final(self).is_playing == t is Some,
            old(self).is_file_mode ==> (t matches Some(PlaybackTarget::File { path }) ==> 0
                <= old(self).current_track < old(self).file_tracks@.len() && path
                == old(self).file_tracks@[old(self).current_track as int].path),
            old(self).is_file_mode ==> (t is Some <==> 0 <= old(self).current_track
                < old(self).file_tracks@.len()) && !(t matches Some(PlaybackTarget::Disc { .. })),
            old(self).is_file_mode && t is Some ==> *final(self) == (PlayerController {
                is_playing: true,
                crossfade_armed: false,
                ..*old(self)
            }),
            !old(self).is_file_mode ==> (t is Some <==> old(self).current_drive_path is Some && 0
                <= old(self).current_track < old(self).cd_tracks@.len()),
            !old(self).is_file_mode ==> (t matches Some(PlaybackTarget::Disc { drive_path, track_number }) ==> Some(drive_path)
                == old(self).current_drive_path && track_number == old(self).cd_tracks@[old(self).current_track as int].track_number),
            !old(self).is_file_mode ==> !(t matches Some(PlaybackTarget::File { .. })),
            !old(self).is_file_mode && t is Some ==> *final(self) == (PlayerController {
                is_playing: true,
                ..*old(self)
            }),
            t is None ==> *final(self) == (PlayerController { is_playing: false, ..*old(self) }),
    {
        self.is_playing = false;
        let cur = self.current_track;
        if self.is_file_mode {
            if cur < 0 || cur as usize >= self.file_tracks.len() {
                return None;
            }
            let path = self.file_tracks[cur as usize].path.clone();
            self.crossfade_armed = false;
            self.is_playing = true;
            return Some(PlaybackTarget::File { path });
        }
        let drive_path = match &self.current_drive_path {
            Some(p) => p.clone(),
            None => {
                return None;
            },
        };
        if self.cd_tracks.len() == 0 {
            return None;
        }
        if cur < 0 || cur as usize >= self.cd_tracks.len() {
            return None;
        }
        let track_number = self.cd_tracks[cur as usize].track_number;
        self.is_playing = true;
        Some(PlaybackTarget::Disc { drive_path, track_number })
    }

    /// Pause when playing, otherwise start the current track.
    pub fn play_pause(&mut self) -> (r: PlayPause)
        requires
            old(self).wf(),
        ensures
            final(self).wf(),
            old(self).is_playing ==> r is Paused && *final(self) == (PlayerController {
                is_playing: false,
                ..*old(self)
            }),
            !old(self).is_playing ==> (r is Paused ==> false),
            !old(self).is_playing ==> (final(self).is_playing <==> r is Started),
    {
        if self.is_playing {
            self.stop_playback_internal();
            PlayPause::Paused
        } else {
            match self.start_playback() {
                Some(t) => PlayPause::Started(t),
                None => PlayPause::NotStarted,
            }
        }
    }

    /// Turn shuffle on or off; either way a new pass starts.
    pub fn toggle_shuffle(&mut self)
        ensures
            *final(self) == (PlayerController {
                shuffle: !old(self).shuffle,
                shuffle_history: final(self).shuffle_history,
                ..*old(self)
            }),
            final(self).shuffle_history@.len() == 0,
    {
        self.shuffle = !self.shuffle;
        self.shuffle_history.clear();
    }

    /// Off, then repeat-all, then repeat-one, then off again.
    pub fn cycle_repeat(&mut self)
        requires
            old(self).wf(),
        ensures
            final(self).wf(),
            *final(self) == (PlayerController {
                repeat_mode: ((old(self).repeat_mode + 1) % 3) as i32,
                ..*old(self)
            }),
    {
        self.repeat_mode = (self.repeat_mode + 1) % 3;
    }

    /// The next index within the current list, honouring repeat and shuffle,
    /// with `seed` standing for the random draw of the shuffle.
    pub fn pick_next_index_seeded(&mut self, seed: u64) -> (r: Option<i32>)
        ensures
            (r, final(self).shuffle_history@) == next_pick(
                old(self).current_track,
                old(self).total_tracks,
                old(self).repeat_mode,
                old(self).shuffle,
                old(self).shuffle_history@,
                seed,
            ),
            *final(self) == (PlayerController {
                shuffle_history: final(self).shuffle_history,
                ..*old(self)
            }),
    {
        let mut h = Vec::new();
        std::mem::swap(&mut h, &mut self.shuffle_history);
        let r = next_index_from(self.current_track, self.total_tracks, self.repeat_mode, self.shuffle, &mut h, seed);
        self.shuffle_history = h;
        r
    }

    /// The next index within the current list, honouring repeat and shuffle;
    /// `None` means playback has run out. The shuffle draws from the clock.
    pub fn pick_next_index(&mut self) -> (r: Option<i32>)
        ensures
            exists|seed: u64|
                (r, final(self).shuffle_history@) == #[trigger] next_pick(
                    old(self).current_track,
                    old(self).total_tracks,
                    old(self).repeat_mode,
                    old(self).shuffle,
                    old(self).shuffle_history@,
                    seed,
                ),
            *final(self) == (PlayerController {
                shuffle_history: final(self).shuffle_history,
                ..*old(self)
            }),
    {
        let seed = clock_seed();
        self.pick_next_index_seeded(seed)
    }

    /// Drop one queue entry; a negative or out-of-range index changes nothing.
    pub fn queue_remove(&mut self, index: i32) -> (r: Option<QueueEntry>)
        ensures
            index < 0 || index >= old(self).queue@.len() ==> r is None && final(self).queue@
                == old(self).queue@,
            0 <= index < old(self).queue@.len() ==> r == Some(old(self).queue@[index as int])
                && final(self).queue@ == old(self).queue@.remove(index as int),
            *final(self) == (PlayerController { queue: final(self).queue, ..*old(self) }),
    {
        if index < 0 {
            return None;
        }
        self.queue.remove(index as usize)
    }

    /// Move a queue entry; negative positions change nothing.
    pub fn queue_move(&mut self, from: i32, to: i32)
        ensures
            from < 0 || to < 0 ==> final(self).queue@ == old(self).queue@,
            from >= 0 && to >= 0 ==> final(self).queue@ == crate::queue::moved(
                old(self).queue@,
                from as int,
                to as int,
            ),
            *final(self) == (PlayerController { queue: final(self).queue, ..*old(self) }),
    {
        if from < 0 || to < 0 {
            return;
        }
        self.queue.move_entry(from as usize, to as usize);
    }

    /// Queue the tracks read from dropped or chosen files, after what is
    /// queued already. Returns how many were added.
    pub fn enqueue_paths(&mut self, found: Vec<QueueEntry>) -> (added: usize)
        ensures
            final(self).queue@ == old(self).queue@ + found@,
            added == found@.len(),
            *final(self) == (PlayerController { queue: final(self).queue, ..*old(self) }),
    {
        if found.len() == 0 {
            assert(old(self).queue@ + found@ =~= old(self).queue@);
            return 0;
        }
        self.queue.extend_from_paths(found)
    }

    pub fn queue_clear(&mut self)
        ensures
            final(self).queue@.len() == 0,
            *final(self) == (PlayerController { queue: final(self).queue, ..*old(self) }),
    {
        self.queue.clear();
    }

    /// Remember the album to come back to after the queue, unless the queue
    /// already took over (then the first resume point is the one wanted)
    /// or no local album is loaded.
    pub fn capture_queue_resume(&mut self)
        requires
            old(self).wf(),
        ensures
            final(self).wf(),
            captured(*old(self), *final(self)),
    {
        if self.queue_resume.is_some() || !self.is_file_mode || self.file_tracks.len() == 0 {
            return;
        }
        let mut tracks: Vec<LocalTrack> = Vec::new();
        let mut i: usize = 0;
        while i < self.file_tracks.len()
            invariant
                i <= self.file_tracks@.len(),
                tracks@ == self.file_tracks@.take(i as int),
            decreases self.file_tracks@.len() - i,
        {
            tracks.push(self.file_tracks[i].copied());
            i = i + 1;
            assert(tracks@ =~= self.file_tracks@.take(i as int));
        }
        assert(self.file_tracks@.take(i as int) =~= self.file_tracks@);
        let is_single = tracks.len() == 1;
        let cover = if self.cover_url.as_str().is_empty() {
            None
        } else {
            Some(self.cover_url.clone())
        };
        let meta = AlbumMeta {
            title: self.album_title.clone(),
            artist: self.album_artist.clone(),
            year: String::new(),
            cover,
        };
        self.queue_resume = Some(QueueResume {
            tracks,
            is_single,
            meta,
            next_index: self.current_track + 1,
        });
    }

    /// Skip straight to a queue entry, dropping the ones before it. The entry
    /// is returned for the caller to read and hand to `play_picked_entry`,
    /// which starts it; the album it interrupts is remembered.
    pub fn queue_play_at(&mut self, index: i32) -> (r: Option<QueueEntry>)
        requires
            old(self).wf(),
        ensures
            final(self).wf(),
            index < 0 ==> r is None && *final(self) == *old(self),
            index >= old(self).queue@.len() ==> r is None && final(self).queue@.len() == 0
                && *final(self) == (PlayerController { queue: final(self).queue, ..*old(self) }),
            0 <= index < old(self).queue@.len() ==> r == Some(old(self).queue@[index as int])
                && final(self).queue@ == old(self).queue@.skip(index + 1)
                && captured(PlayerController { queue: final(self).queue, ..*old(self) }, *final(self)),
    {
        if index < 0 {
            return None;
        }
        let ghost q0 = self.queue@;
        let mut k: i32 = 0;
        while k < index
            invariant
                0 <= k <= index,
                self.wf(),
                k <= q0.len() ==> self.queue@ == q0.skip(k as int),
            k > q0.len() ==> self.queue@.len() == 0,
                *self == (PlayerController { queue: self.queue, ..*old(self) }),
            decreases index - k,
        {
            self.queue.pop_front();
            k = k + 1;
            proof {
                if k <= q0.len() {
                    assert(q0.skip(k as int) =~= q0.skip(k - 1).drop_first());
                }
            }
        }
        let e = self.queue.pop_front();
        if e.is_some() {
            self.capture_queue_resume();
        }
        e
    }

    /// Publish an already-collected set of local tracks as the session,
    /// stopped and with no track selected. An empty set changes nothing.
    pub fn apply_local_tracks(&mut self, tracks: Vec<LocalTrack>, is_single: bool, meta: AlbumMeta)
        requires
            old(self).wf(),
            tracks@.len() <= i32::MAX,
        ensures
            final(self).wf(),
            tracks@.len() == 0 ==> *final(self) == *old(self),
            tracks@.len() > 0 ==> loaded_session(*old(self), *final(self), tracks@, is_single, meta@),
    {
        if tracks.len() == 0 {
            return;
        }
        let mut titles: Vec<String> = Vec::new();
        let mut artists: Vec<String> = Vec::new();
        let mut i: usize = 0;
        while i < tracks.len()
            invariant
                i <= tracks@.len(),
                crate::library::str_views(titles@) == titles_of(tracks@.take(i as int)),
                crate::library::str_views(artists@) == artists_of(tracks@.take(i as int)),
            decreases tracks@.len() - i,
        {
            let ghost t0 = titles@;
            let ghost a0 = artists@;
            titles.push(tracks[i].title.clone());
            artists.push(tracks[i].artist.clone());
            assert(crate::library::str_views(titles@) =~= crate::library::str_views(t0).push(tracks@[i as int].title@));
            assert(crate::library::str_views(artists@) =~= crate::library::str_views(a0).push(tracks@[i as int].artist@));
            assert(titles_of(tracks@.take(i + 1)) =~= titles_of(tracks@.take(i as int)).push(tracks@[i as int].title@));
            assert(artists_of(tracks@.take(i + 1)) =~= artists_of(tracks@.take(i as int)).push(tracks@[i as int].artist@));
            i = i + 1;
        }
        assert(tracks@.take(i as int) =~= tracks@);
        let count = tracks.len() as i32;
        self.is_file_mode = true;
        self.is_playing = false;
        self.file_tracks = tracks;
        self.cd_tracks = Vec::new();
        self.metadata_loaded = true;
        self.album_title = meta.title;
        self.album_artist = meta.artist;
        self.album_year = meta.year;
        self.cover_url = match meta.cover {
            Some(c) => c,
            None => String::new(),
        };
        self.track_titles = titles;
        self.track_artists = artists;
        self.is_single_file = is_single;
        self.total_tracks = count;
        self.current_track = -1;
    }

    /// Load local files picked by the user (already read by the caller) as the
    /// session. Picking an album by hand supersedes anything the queue was
    /// going to come back to. No tracks found: nothing changes.
    pub fn load_local_tracks(&mut self, tracks: Vec<LocalTrack>, input_paths: &[String], is_single: bool)
        requires
            old(self).wf(),
            tracks@.len() <= i32::MAX,
        ensures
            final(self).wf(),
            tracks@.len() == 0 ==> *final(self) == *old(self),
            tracks@.len() > 0 ==> loaded_session(
                PlayerController { queue_resume: None, ..*old(self) },
                *final(self),
                tracks@,
                is_single,
                album_meta_of(
                    tracks@,
                    if input_paths@.len() > 0 {
                        file_name(input_paths@[0]@)
                    } else {
                        None
                    },
                    is_single,
                ),
            ),
    {
        if tracks.len() == 0 {
            return;
        }
        self.queue_resume = None;
        let meta = derive_album_meta(tracks.as_slice(), input_paths, is_single);
        self.apply_local_tracks(tracks, is_single, meta);
    }

    /// Swap the session over to a queued song, loaded in its album but not
    /// started. `this` is the song as read from disk and `siblings` the audio
    /// files of its folder.
    pub fn play_queue_entry(&mut self, entry: &QueueEntry, this: LocalTrack, siblings: Vec<LocalTrack>)
        requires
            old(self).wf(),
            siblings@.len() <= i32::MAX,
        ensures
            final(self).wf(),
            ({
                let (tracks, index) = album_context(this, siblings@);
                &&& loaded_session(
                    *old(self),
                    PlayerController { current_track: -1i32, ..*final(self) },
                    tracks,
                    tracks.len() == 1,
                    album_meta_of(tracks, parent_file_name(entry.path@), tracks.len() == 1),
                )
                &&& final(self).current_track == index
            }),
    {
        let (tracks, index) = album_context_for(this, siblings);
        proof {
            lemma_position_bounds(
                if this.album@.len() == 0 { Seq::empty() } else { tagged_siblings(siblings@, this.album@) },
                this.path@,
            );
        }
        let is_single = tracks.len() == 1;
        let fallback = parent_file_name_of(entry.path.as_str());
        let meta = album_meta_with(tracks.as_slice(), fallback, is_single);
        self.apply_local_tracks(tracks, is_single, meta);
        self.load_track_at(index);
    }

    /// Play a queue entry the listener clicked (taken with `queue_play_at`):
    /// unlike `advance`, which only loads, the song is loaded in its album and
    /// started. `this` is the song as read from disk and `siblings` the audio
    /// files of its folder; the file to play comes back.
    pub fn play_picked_entry(&mut self, entry: &QueueEntry, this: LocalTrack, siblings: Vec<LocalTrack>) -> (t: Option<PlaybackTarget>)
        requires
            old(self).wf(),
            siblings@.len() <= i32::MAX,
        ensures
            final(self).wf(),
            ({
                let (tracks, index) = album_context(this, siblings@);
                let loaded = PlayerController { is_playing: false, crossfade_armed: old(self).crossfade_armed, ..*final(self) };
                &&& 0 <= index < tracks.len()
                &&& loaded_session(
                    *old(self),
                    PlayerController { current_track: -1i32, ..loaded },
                    tracks,
                    tracks.len() == 1,
                    album_meta_of(tracks, parent_file_name(entry.path@), tracks.len() == 1),
                )
                &&& final(self).current_track == index
                &&& final(self).is_playing
                &&& !final(self).crossfade_armed
                &&& t matches Some(PlaybackTarget::File { path }) && path == tracks[index].path
            }),
    {
        proof {
            lemma_position_bounds(
                if this.album@.len() == 0 { Seq::empty() } else { tagged_siblings(siblings@, this.album@) },
                this.path@,
            );
        }
        let ghost ctx = album_context(this, siblings@);
        self.play_queue_entry(entry, this, siblings);
        let ghost mid = *self;
        let t = self.start_playback();
        assert(mid == PlayerController { is_playing: false, crossfade_armed: old(self).crossfade_armed, ..*self });
        t
    }

    /// Load whatever should play next: queued songs first, then the album the
    /// queue interrupted, then the rest of the current list. Playback is left
    /// stopped; the caller starts it.
    pub fn advance(&mut self) -> (r: Advance)
        requires
            old(self).wf(),
        ensures
            final(self).wf(),
            exists|seed: u64| #[trigger] advanced(*old(self), *final(self), r, seed),
    {
        let seed = clock_seed();
        self.advance_seeded(seed)
    }

    /// `advance`, with `seed` standing for the shuffle's random draw.
    pub fn advance_seeded(&mut self, seed: u64) -> (r: Advance)
        requires
            old(self).wf(),
        ensures
            final(self).wf(),
            advanced(*old(self), *final(self), r, seed),
            final(self).repeat_mode == old(self).repeat_mode,
    {
        if self.queue.len() > 0 {
            let next_queued = self.queue.pop_front();
            if let Some(entry) = next_queued {
                self.capture_queue_resume();
                return Advance::Queued(entry);
            }
        }
        let resume = self.queue_resume.take();
        if let Some(res) = resume {
            let count = res.tracks.len() as i32;
            let next = res.next_index;
            self.apply_local_tracks(res.tracks, res.is_single, res.meta);
            let ghost m1 = *self;
            if next < count {
                self.load_track_at(next);
                proof {
                    if count > 0 {
                        assert((PlayerController { current_track: -1i32, is_playing: false, ..*self }) == m1);
                    }
                }
                return Advance::Loaded;
            }
            proof {
                if count > 0 {
                    assert((PlayerController { current_track: -1i32, is_playing: false, ..*self }) == m1);
                }
            }
            return Advance::Finished;
        }
        match self.pick_next_index_seeded(seed) {
            Some(i) => {
                self.load_track_at(i);
                Advance::Loaded
            },
            None => Advance::Finished,
        }
    }

    /// Explicit skip to the next track. Repeat-one is lifted for the skip, so
    /// it moves on instead of replaying the same track; the mode itself stays.
    pub fn next_track(&mut self) -> (r: Advance)
        requires
            old(self).wf(),
        ensures
            final(self).wf(),
            final(self).repeat_mode == old(self).repeat_mode,
            exists|seed: u64|
                #[trigger] advanced(
                    with_repeat(*old(self), skip_repeat(old(self).repeat_mode)),
                    with_repeat(*final(self), skip_repeat(old(self).repeat_mode)),
                    r,
                    seed,
                ),
    {
        let seed = clock_seed();
        let ghost before = *self;
        if self.repeat_mode == REPEAT_ONE {
            self.repeat_mode = REPEAT_ALL;
            let ghost mid = *self;
            let r = self.advance_seeded(seed);
            let ghost f1 = *self;
            self.repeat_mode = REPEAT_ONE;
            assert(mid == with_repeat(before, skip_repeat(before.repeat_mode)));
            assert(f1 == with_repeat(*self, skip_repeat(before.repeat_mode)));
            assert(advanced(mid, f1, r, seed));
            return r;
        }
        let r = self.advance_seeded(seed);
        assert(before == with_repeat(before, skip_repeat(before.repeat_mode)));
        assert(*self == with_repeat(*self, skip_repeat(before.repeat_mode)));
        r
    }

    /// A track stopped on its own. When the disc went away its tracks are
    /// dropped; otherwise playback moves on as `advance` does.
    pub fn track_ended(&mut self, disc_error: bool) -> (r: TrackEnd)
        requires
            old(self).wf(),
        ensures
            final(self).wf(),
            disc_error ==> r is DiscLost && *final(self) == (PlayerController {
                is_playing: false,
                cd_tracks: final(self).cd_tracks,
                metadata_loaded: false,
                current_disc_id: final(self).current_disc_id,
                total_tracks: 0i32,
                current_track: -1i32,
                ..*old(self)
            }) && final(self).cd_tracks@.len() == 0 && final(self).current_disc_id@.len() == 0,
            !disc_error ==> exists|seed: u64|
                #[trigger] advanced(
                    stopped(*old(self)),
                    *final(self),
                    r->Next_0,
                    seed,
                ) && r is Next,
    {
        self.is_playing = false;
        if disc_error {
            self.cd_tracks = Vec::new();
            self.metadata_loaded = false;
            self.current_disc_id = String::new();
            self.total_tracks = 0;
            self.current_track = -1;
            return TrackEnd::DiscLost;
        }
        let seed = clock_seed();
        let a = self.advance_seeded(seed);
        TrackEnd::Next(a)
    }

    /// Whether a crossfade into the next track can start: something is queued
    /// or waiting to resume, shuffle or repeat-all is on, or a track follows.
    /// Either way the handover for the current track counts as started.
    pub fn begin_crossfade(&mut self) -> (has_next: bool)
        requires
            old(self).wf(),
        ensures
            final(self).wf(),
            has_next == (old(self).queue@.len() > 0 || old(self).queue_resume is Some
                || old(self).shuffle || old(self).repeat_mode == REPEAT_ALL
                || old(self).current_track + 1 < old(self).total_tracks),
            *final(self) == (PlayerController { crossfade_armed: true, ..*old(self) }),
    {
        let queued = !self.queue.is_empty() || self.queue_resume.is_some();
        let has_next = queued || self.shuffle || self.repeat_mode == REPEAT_ALL
            || self.current_track < self.total_tracks - 1;
        self.crossfade_armed = true;
        has_next
    }
}

/// Queued songs play before the rest of the album, and once the queue drains
/// playback goes back to the album it interrupted, at the track after the one
/// that was playing. `a` is the session when the queue first takes over, `b`
/// the session after that capture, `m` any session while queued songs play
/// (they leave the resume point alone) and `c` the session after advancing
/// with the queue drained.
pub proof fn lemma_queue_returns_to_album(a: PlayerController, b: PlayerController, m: PlayerController, c: PlayerController)
    requires
        capturable(a),
        captured(a, b),
        m.queue_resume == b.queue_resume,
        resumed(m, c),
    ensures
        c.file_tracks@ == a.file_tracks@,
        c.is_file_mode,
        c.queue_resume is None,
        0 <= a.current_track + 1 < a.file_tracks@.len() ==> c.current_track == a.current_track + 1,
        a.current_track + 1 >= a.file_tracks@.len() ==> c.current_track == -1,
{
}




/// What the Discord presence shows for the current track.
#[derive(Clone, Debug)]
pub struct TrackPresence {
    pub title: String,
    pub artist: String,
    pub album: String,
    pub cover_url: String,
    /// Whether the track is playing (a paused one is shown as paused).
    pub is_playing: bool,
}

/// A drive to poll for a disc, and how.
#[derive(Clone, Debug)]
pub struct DriveCheck {
    pub drive_path: String,
    /// Look the disc up online (no album metadata is known yet).
    pub lookup_metadata: bool,
    /// Show the loading spinner (no disc is loaded).
    pub show_loading: bool,
}

/// What reading the disc in the selected drive found.
pub enum DiscRead {
    Loaded { tracks: Vec<TrackInfo>, metadata: Option<AlbumMetadata>, disc_id: String },
    Empty { status: String },
    Unavailable { status: String },
}

/// What `poll_load` changed.
#[derive(Clone, Debug)]
pub enum DiscUpdate {
    /// The same disc was read again; only its track table was refreshed.
    Refreshed,
    /// A disc was loaded: the track durations to list, whether it is a newly
    /// inserted disc, and its position in a multi-disc release (0 if unknown).
    Loaded { durations: Vec<String>, new_disc: bool, disc_number: u32, disc_count: u32 },
    /// No disc could be read; `cleared` tells whether a loaded disc was dropped.
    Missing { status: String, cleared: bool },
}

/// How a track ended.
#[derive(Clone, Debug)]
pub enum TrackEnd {
    /// The disc went away mid-track; its tracks were dropped.
    DiscLost,
    /// It played out; what comes next.
    Next(Advance),
}

/// What `eject_or_close` did.
#[derive(Clone, Debug)]
pub enum EjectOrClose {
    /// Local files were closed; the caller rescans the drives.
    Closed,
    /// Playback stopped; the caller ejects this drive, if there is one.
    Eject(Option<String>),
}

/// Title shown for disc track `i`: its MusicBrainz title, else `Track n`.
pub open spec fn disc_track_title(meta: Option<AlbumMetadata>, i: int) -> Seq<char> {
    let t = match meta {
        Some(m) => if 0 <= i < m.track_titles@.len() {
            m.track_titles@[i]@
        } else {
            Seq::empty()
        },
        None => Seq::empty(),
    };
    if t.len() == 0 {
        seq!['T', 'r', 'a', 'c', 'k', ' '] + crate::text::decimal((i + 1) as nat)
    } else {
        t
    }
}

/// Artist shown for disc track `i` (empty when unknown).
pub open spec fn disc_track_artist(meta: Option<AlbumMetadata>, i: int) -> Seq<char> {
    match meta {
        Some(m) => if 0 <= i < m.track_artists@.len() {
            m.track_artists@[i]@
        } else {
            Seq::empty()
        },
        None => Seq::empty(),
    }
}

/// The first of `n` drives flagged as holding an audio CD, else 0.
pub open spec fn first_audio(n: int, has_audio: Seq<bool>) -> int {
    if exists|k: int| 0 <= k < n && k < has_audio.len() && #[trigger] has_audio[k] {
        choose|k: int| 0 <= k < n && k < has_audio.len() && #[trigger] has_audio[k] && forall|j: int|
            0 <= j < k ==> !(j < has_audio.len() && has_audio[j])
    } else {
        0
    }
}

proof fn lemma_first_audio(n: int, has_audio: Seq<bool>, i: int)
    requires
        0 <= i < n,
        i < has_audio.len(),
        has_audio[i],
        forall|k: int| 0 <= k < i ==> !(k < has_audio.len() && has_audio[k]),
    ensures
        first_audio(n, has_audio) == i,
{
    let w = choose|k: int| 0 <= k < n && k < has_audio.len() && #[trigger] has_audio[k] && forall|j: int|
        0 <= j < k ==> !(j < has_audio.len() && has_audio[j]);
    assert(0 <= i < n && i < has_audio.len() && has_audio[i] && forall|j: int|
        0 <= j < i ==> !(j < has_audio.len() && has_audio[j]));
    if w < i {
    } else if w > i {
        assert(!(i < has_audio.len() && has_audio[i]));
    }
}

proof fn lemma_no_audio(n: int, has_audio: Seq<bool>)
    requires
        forall|k: int| 0 <= k < n ==> !(k < has_audio.len() && has_audio[k]),
    ensures
        first_audio(n, has_audio) == 0,
{
}

/// The path a dropped URL stands for: `file:///x` is `/x`, `file://x` is
/// `x`, anything else is taken as a path already.
pub open spec fn dropped_path(u: Seq<char>) -> Seq<char> {
    let p8 = seq!['f', 'i', 'l', 'e', ':', '/', '/', '/'];
    if u.len() >= 8 && u.take(8) == p8 {
        seq!['/'] + u.skip(8)
    } else if u.len() >= 7 && u.take(7) == p8.take(7) {
        u.skip(7)
    } else {
        u
    }
}

/// The non-empty paths of a list of dropped URLs, in order.
pub open spec fn dropped_paths(urls: Seq<Seq<char>>) -> Seq<Seq<char>>
    decreases urls.len(),
{
    if urls.len() == 0 {
        Seq::empty()
    } else {
        let rest = dropped_paths(urls.drop_last());
        let p = dropped_path(urls.last());
        if p.len() == 0 {
            rest
        } else {
            rest.push(p)
        }
    }
}

fn has_prefix(u: &Vec<char>, p: &[char]) -> (r: bool)
    ensures
        r == (u@.len() >= p@.len() && u@.take(p@.len() as int) == p@),
{
    if u.len() < p.len() {
        return false;
    }
    let mut i: usize = 0;
    while i < p.len()
        invariant
            i <= p@.len() <= u@.len(),
            u@.take(i as int) == p@.take(i as int),
        decreases p@.len() - i,
    {
        if u[i] != p[i] {
            assert(u@.take(p@.len() as int)[i as int] != p@[i as int]);
            return false;
        }
        i = i + 1;
        assert(u@.take(i as int) =~= p@.take(i as int));
    }
    assert(p@.take(p@.len() as int) =~= p@);
    true
}

/// The path a dropped URL stands for.
pub fn dropped_path_of(url: &str) -> (r: String)
    ensures
        r@ == dropped_path(url@),
{
    let u = crate::text::chars_of(url);
    let p8 = ['f', 'i', 'l', 'e', ':', '/', '/', '/'];
    assert(p8@ =~= seq!['f', 'i', 'l', 'e', ':', '/', '/', '/']);
    let mut out: Vec<char> = Vec::new();
    let start: usize;
    if has_prefix(&u, &p8) {
        out.push('/');
        start = 8;
    } else if has_prefix(&u, &['f', 'i', 'l', 'e', ':', '/', '/']) {
        assert(['f', 'i', 'l', 'e', ':', '/', '/']@ =~= p8@.take(7));
        start = 7;
    } else {
        assert(!(u@.len() >= 7 && u@.take(7) == p8@.take(7))) by {
            assert(['f', 'i', 'l', 'e', ':', '/', '/']@ =~= p8@.take(7));
        }
        start = 0;
    }
    let ghost pre = out@;
    let mut i = start;
    while i < u.len()
        invariant
            start <= i <= u@.len(),
            out@ == pre + u@.subrange(start as int, i as int),
        decreases u@.len() - i,
    {
        out.push(u[i]);
        i = i + 1;
        assert(out@ =~= pre + u@.subrange(start as int, i as int));
    }
    assert(u@.subrange(start as int, u@.len() as int) =~= u@.skip(start as int));
    assert(u@.skip(0) =~= u@);
    crate::text::string_from_chars(out.as_slice())
}

/// `p` is the presence of `c`: none when the presence is off or no track is
/// selected, else the current track's title (empty when it has none), its
/// artist (the album artist when it has none), the album, the cover and
/// whether it is playing.
pub open spec fn discord_presence_is(c: PlayerController, p: Option<TrackPresence>) -> bool {
    &&& !c.discord_enabled || c.current_track < 0 ==> p is None
    &&& c.discord_enabled && c.current_track >= 0 ==> (p matches Some(t) && ({
        let i = c.current_track as int;
        let title = if i < c.track_titles@.len() {
            c.track_titles@[i]@
        } else {
            Seq::empty()
        };
        let raw = if i < c.track_artists@.len() {
            c.track_artists@[i]@
        } else {
            Seq::empty()
        };
        &&& t.title@ == title
        &&& t.artist@ == (if raw.len() == 0 {
            c.album_artist@
        } else {
            raw
        })
        &&& t.album@ == c.album_title@
        &&& t.cover_url@ == c.cover_url@
        &&& t.is_playing == c.is_playing
    }))
}

impl PlayerController {
    /// Select drive `index` (not while local files are loaded, which a drive
    /// must not interrupt): playback stops and the disc's tracks are dropped
    /// until the caller reads the new disc. Returns whether it was selected.
    pub fn select_drive(&mut self, index: i32) -> (ok: bool)
        requires
            old(self).wf(),
        ensures
            final(self).wf(),
            ok == (!old(self).is_file_mode && 0 <= index < old(self).drives@.len()),
            !ok ==> *final(self) == *old(self),
            ok ==> final(self).current_drive_path == Some(old(self).drives@[index as int].path)
                && *final(self) == (PlayerController {
                is_playing: false,
                cd_tracks: final(self).cd_tracks,
                current_drive_path: final(self).current_drive_path,
                selected_drive_index: index,
                ..*old(self)
            }) && final(self).cd_tracks@.len() == 0,
    {
        if self.is_file_mode {
            return false;
        }
        if index < 0 || index as usize >= self.drives.len() {
            return false;
        }
        let path = self.drives[index as usize].path.clone();
        self.is_playing = false;
        self.cd_tracks = Vec::new();
        self.current_drive_path = Some(path);
        self.selected_drive_index = index;
        true
    }

    /// Take a fresh drive listing, with whether each drive holds an audio CD.
    /// With no drive, the selection is cleared (and the disc's track count,
    /// unless local files are loaded). Otherwise the list is kept and, unless
    /// local files are playing, the first drive with an audio CD (else the
    /// first drive) is selected; its index is returned so the caller reads it.
    pub fn scan_drives(&mut self, drives: Vec<DriveInfo>, has_audio: &Vec<bool>) -> (sel: Option<i32>)
        requires
            old(self).wf(),
            drives@.len() <= i32::MAX,
        ensures
            final(self).wf(),
            drives@.len() == 0 ==> sel is None && *final(self) == (PlayerController {
                selected_drive_index: -1i32,
                total_tracks: if old(self).is_file_mode {
                    old(self).total_tracks
                } else {
                    0i32
                },
                ..*old(self)
            }),
            drives@.len() > 0 ==> final(self).drives@ == drives@,
            drives@.len() > 0 && old(self).is_file_mode ==> sel is None && *final(self) == (
            PlayerController { drives: final(self).drives, ..*old(self) }),
            drives@.len() > 0 && !old(self).is_file_mode ==> (sel matches Some(i) && i == first_audio(
                drives@.len() as int,
                has_audio@,
            ) && final(self).selected_drive_index == i && final(self).current_drive_path == Some(
                drives@[i as int].path,
            ) && !final(self).is_playing && final(self).cd_tracks@.len() == 0),
    {
        if drives.len() == 0 {
            self.selected_drive_index = -1;
            if !self.is_file_mode {
                self.total_tracks = 0;
            }
            return None;
        }
        let n = drives.len();
        self.drives = drives;
        if self.is_file_mode {
            return None;
        }
        let mut pick: usize = 0;
        let mut i: usize = 0;
        let mut found = false;
        while i < n && !found
            invariant
                i <= n,
                n == self.drives@.len(),
                !found ==> pick == 0 && forall|k: int| 0 <= k < i ==> !(k < has_audio@.len() && has_audio@[k]),
                found ==> pick < n && pick == first_audio(n as int, has_audio@),
            decreases n - i + (if found { 0int } else { 1int }),
        {
            if i < has_audio.len() && has_audio[i] {
                pick = i;
                found = true;
                proof {
                    lemma_first_audio(n as int, has_audio@, i as int);
                }
            } else {
                i = i + 1;
            }
        }
        proof {
            if !found {
                lemma_no_audio(n as int, has_audio@);
            }
        }
        let idx = pick as i32;
        self.selected_drive_index = idx;
        self.select_drive(idx);
        Some(idx)
    }

    /// The drive whose tray to open: the selected one, else the first known.
    /// Playback of a disc stops first; local playback keeps running.
    pub fn eject_disc(&mut self) -> (path: Option<String>)
        requires
            old(self).wf(),
        ensures
            final(self).wf(),
            path == (match old(self).current_drive_path {
                Some(p) => Some(p),
                None => if old(self).drives@.len() > 0 {
                    Some(old(self).drives@[0].path)
                } else {
                    None
                },
            }),
            path is Some && !old(self).is_file_mode ==> *final(self) == (PlayerController {
                is_playing: false,
                ..*old(self)
            }),
            path is None || old(self).is_file_mode ==> *final(self) == *old(self),
    {
        let path = match &self.current_drive_path {
            Some(p) => p.clone(),
            None => {
                if self.drives.len() > 0 {
                    self.drives[0].path.clone()
                } else {
                    return None;
                }
            },
        };
        if !self.is_file_mode {
            self.is_playing = false;
        }
        Some(path)
    }

    /// The presence to publish for the current track, or `None` to clear it
    /// (presence turned off, or no track selected). A track without its own
    /// artist shows the album artist.
    pub fn sync_discord(&self) -> (p: Option<TrackPresence>)
        ensures
            discord_presence_is(*self, p),
    {
        if !self.discord_enabled || self.current_track < 0 {
            return None;
        }
        let i = self.current_track as usize;
        let title = if i < self.track_titles.len() {
            self.track_titles[i].clone()
        } else {
            String::new()
        };
        let raw = if i < self.track_artists.len() {
            self.track_artists[i].clone()
        } else {
            String::new()
        };
        let artist = if raw.as_str().is_empty() {
            self.album_artist.clone()
        } else {
            raw
        };
        Some(TrackPresence {
            title,
            artist,
            album: self.album_title.clone(),
            cover_url: self.cover_url.clone(),
            is_playing: self.is_playing,
        })
    }

    /// Turn the Discord presence on or off, returning what to publish now.
    pub fn set_discord_enabled(&mut self, value: bool) -> (p: Option<TrackPresence>)
        ensures
            *final(self) == (PlayerController { discord_enabled: value, ..*old(self) }),
            !value || old(self).current_track < 0 ==> p is None,
            value && old(self).current_track >= 0 ==> p is Some,
            discord_presence_is(*final(self), p),
    {
        self.discord_enabled = value;
        self.sync_discord()
    }

    /// Whether to poll the selected drive for a disc change now: not while
    /// playing or loading, not in file mode, not while a check runs.
    pub fn check_drive(&self, is_loading: bool, check_active: bool) -> (c: Option<DriveCheck>)
        ensures
            self.is_playing || is_loading || self.is_file_mode || check_active
                || self.current_drive_path is None ==> c is None,
            !(self.is_playing || is_loading || self.is_file_mode || check_active)
                && self.current_drive_path is Some ==> (c matches Some(d) && Some(d.drive_path)
                == self.current_drive_path && d.lookup_metadata == !self.metadata_loaded
                && d.show_loading == (self.total_tracks == 0)),
    {
        if self.is_playing || is_loading || self.is_file_mode || check_active {
            return None;
        }
        match &self.current_drive_path {
            Some(p) => Some(DriveCheck {
                drive_path: p.clone(),
                lookup_metadata: !self.metadata_loaded,
                show_loading: self.total_tracks == 0,
            }),
            None => None,
        }
    }

    /// Forget what is loaded (local files or disc) and stop: back to an empty
    /// disc session. The selected drive is kept.
    pub fn close_session(&mut self)
        requires
            old(self).wf(),
        ensures
            final(self).wf(),
            !final(self).is_file_mode,
            !final(self).is_playing,
            !final(self).is_single_file,
            !final(self).metadata_loaded,
            final(self).file_tracks@.len() == 0,
            final(self).cd_tracks@.len() == 0,
            final(self).track_titles@.len() == 0,
            final(self).track_artists@.len() == 0,
            final(self).album_title@.len() == 0,
            final(self).album_artist@.len() == 0,
            final(self).album_year@.len() == 0,
            final(self).cover_url@.len() == 0,
            final(self).total_tracks == 0,
            final(self).current_track == -1,
            final(self).current_drive_path == old(self).current_drive_path,
            final(self).drives == old(self).drives,
            final(self).queue@ == old(self).queue@,
            final(self).shuffle == old(self).shuffle,
            final(self).repeat_mode == old(self).repeat_mode,
    {
        self.is_file_mode = false;
        self.is_playing = false;
        self.is_single_file = false;
        self.metadata_loaded = false;
        self.file_tracks = Vec::new();
        self.cd_tracks = Vec::new();
        self.track_titles = Vec::new();
        self.track_artists = Vec::new();
        self.album_title = String::new();
        self.album_artist = String::new();
        self.album_year = String::new();
        self.cover_url = String::new();
        self.total_tracks = 0;
        self.current_track = -1;
    }

    /// Switch back to the disc from local files; the caller then reads the
    /// selected drive again.
    pub fn load_disc(&mut self)
        requires
            old(self).wf(),
        ensures
            final(self).wf(),
            !final(self).is_file_mode,
            final(self).current_track == -1,
            final(self).total_tracks == 0,
            final(self).current_drive_path == old(self).current_drive_path,
    {
        self.close_session();
    }

    /// In file mode, close the local files (the caller rescans drives);
    /// otherwise stop and hand back the drive to eject.
    pub fn eject_or_close(&mut self) -> (r: EjectOrClose)
        requires
            old(self).wf(),
        ensures
            final(self).wf(),
            old(self).is_file_mode ==> r is Closed && !final(self).is_file_mode
                && final(self).total_tracks == 0 && final(self).current_track == -1,
            !old(self).is_file_mode ==> r == EjectOrClose::Eject(old(self).current_drive_path)
                && *final(self) == (PlayerController { is_playing: false, ..*old(self) }),
    {
        if self.is_file_mode {
            self.close_session();
            EjectOrClose::Closed
        } else {
            self.is_playing = false;
            let p = match &self.current_drive_path {
                Some(p) => Some(p.clone()),
                None => None,
            };
            EjectOrClose::Eject(p)
        }
    }

    /// Take dropped URLs: their paths, in order. When there are any, the
    /// current session is closed so the caller can load them.
    pub fn open_dropped_paths(&mut self, urls: &Vec<String>) -> (paths: Vec<String>)
        requires
            old(self).wf(),
        ensures
            final(self).wf(),
            crate::library::str_views(paths@) == dropped_paths(crate::library::str_views(urls@)),
            paths@.len() == 0 ==> *final(self) == *old(self),
            paths@.len() > 0 ==> !final(self).is_file_mode && final(self).total_tracks == 0
                && final(self).current_track == -1 && !final(self).is_playing,
    {
        let mut paths: Vec<String> = Vec::new();
        let mut i: usize = 0;
        while i < urls.len()
            invariant
                i <= urls@.len(),
                crate::library::str_views(paths@) == dropped_paths(
                    crate::library::str_views(urls@).take(i as int),
                ),
            decreases urls@.len() - i,
        {
            let ghost before = paths@;
            let p = dropped_path_of(urls[i].as_str());
            assert(crate::library::str_views(urls@).take(i + 1).drop_last() =~= crate::library::str_views(urls@).take(i as int));
            if !p.as_str().is_empty() {
                paths.push(p);
                assert(crate::library::str_views(paths@) =~= crate::library::str_views(before).push(p@));
            }
            i = i + 1;
        }
        assert(crate::library::str_views(urls@).take(i as int) =~= crate::library::str_views(urls@));
        if paths.len() > 0 {
            self.close_session();
        }
        paths
    }
}

pub open spec fn disc_titles(meta: Option<AlbumMetadata>, n: int) -> Seq<Seq<char>> {
    Seq::new(n as nat, |i: int| disc_track_title(meta, i))
}

pub open spec fn disc_artists(meta: Option<AlbumMetadata>, n: int) -> Seq<Seq<char>> {
    Seq::new(n as nat, |i: int| disc_track_artist(meta, i))
}

/// `b` is `a` with a disc's tracks loaded: its track table, titles and
/// artists, the album header from `meta` (cleared when there is none), and no
/// track selected when the disc is a new one.
pub open spec fn disc_applied(a: PlayerController, b: PlayerController, tracks: Seq<TrackInfo>, meta: Option<AlbumMetadata>, disc_id: Seq<char>) -> bool {
    &&& b == (PlayerController {
        cd_tracks: b.cd_tracks,
        total_tracks: b.total_tracks,
        current_disc_id: b.current_disc_id,
        track_titles: b.track_titles,
        track_artists: b.track_artists,
        album_title: b.album_title,
        album_artist: b.album_artist,
        album_year: b.album_year,
        cover_url: b.cover_url,
        metadata_loaded: b.metadata_loaded,
        current_track: b.current_track,
        ..a
    })
    &&& b.cd_tracks@ == tracks
    &&& b.total_tracks == tracks.len()
    &&& b.current_disc_id@ == disc_id
    &&& crate::library::str_views(b.track_titles@) == disc_titles(meta, tracks.len() as int)
    &&& crate::library::str_views(b.track_artists@) == disc_artists(meta, tracks.len() as int)
    &&& b.current_track == (if a.total_tracks == 0 && tracks.len() > 0 {
        -1
    } else {
        a.current_track as int
    })
    &&& match meta {
        Some(m) => {
            &&& b.metadata_loaded
            &&& b.album_title@ == m.title@
            &&& b.album_artist@ == m.artist@
            &&& b.album_year@ == m.year@
            &&& b.cover_url@ == cover_text(opt_str(m.cover_art_url))
        },
        None => {
            &&& !b.metadata_loaded
            &&& b.album_title@.len() == 0
            &&& b.album_artist@.len() == 0
            &&& b.album_year@.len() == 0
            &&& b.cover_url@.len() == 0
        },
    }
}

/// Title shown for disc track `i`.
fn disc_title_at(meta: &Option<AlbumMetadata>, i: usize) -> (r: String)
    requires
        i < u64::MAX,
    ensures
        r@ == disc_track_title(*meta, i as int),
{
    let t: Option<&String> = match meta {
        Some(m) => if i < m.track_titles.len() {
            Some(&m.track_titles[i])
        } else {
            None
        },
        None => None,
    };
    match t {
        Some(s) => {
            if !s.as_str().is_empty() {
                return s.clone();
            }
        },
        None => {},
    }
    let mut out: Vec<char> = vec!['T', 'r', 'a', 'c', 'k', ' '];
    crate::text::push_decimal(&mut out, (i as u64) + 1);
    assert(out@ =~= seq!['T', 'r', 'a', 'c', 'k', ' '] + crate::text::decimal((i + 1) as nat));
    crate::text::string_from_chars(out.as_slice())
}

/// Artist shown for disc track `i`.
fn disc_artist_at(meta: &Option<AlbumMetadata>, i: usize) -> (r: String)
    ensures
        r@ == disc_track_artist(*meta, i as int),
{
    match meta {
        Some(m) => if i < m.track_artists.len() {
            m.track_artists[i].clone()
        } else {
            String::new()
        },
        None => String::new(),
    }
}

impl PlayerController {
    /// Take the result of reading the selected drive. A background re-read of
    /// the same disc (same track count, nothing new to show) only refreshes
    /// the track table. A disc read otherwise is loaded with its titles and
    /// header; no disc drops what was loaded and reports the status.
    pub fn poll_load(&mut self, read: DiscRead, was_user_load: bool) -> (u: DiscUpdate)
        requires
            old(self).wf(),
            read matches DiscRead::Loaded { tracks, .. } ==> tracks@.len() <= i32::MAX,
        ensures
            final(self).wf(),
            read matches DiscRead::Loaded { tracks, metadata, disc_id } ==> ({
                let quiet = !was_user_load && old(self).total_tracks > 0 && tracks@.len()
                    == old(self).total_tracks && (old(self).metadata_loaded || metadata is None);
                &&& quiet ==> u is Refreshed && *final(self) == (PlayerController {
                    cd_tracks: final(self).cd_tracks,
                    current_disc_id: final(self).current_disc_id,
                    ..*old(self)
                }) && final(self).cd_tracks@ == tracks@ && final(self).current_disc_id@ == disc_id@
                &&& !quiet ==> disc_applied(*old(self), *final(self), tracks@, metadata, disc_id@) && (
                u matches DiscUpdate::Loaded { durations, new_disc, disc_number, disc_count } && new_disc
                    == (old(self).total_tracks == 0) && crate::library::str_views(durations@)
                    == Seq::new(
                    tracks@.len(),
                    |i: int| crate::file_player::mm_ss((tracks@[i].sector_count / 75) as nat),
                ) && disc_number == (match metadata {
                    Some(m) => m.disc_number,
                    None => 0,
                }) && disc_count == (match metadata {
                    Some(m) => m.disc_count,
                    None => 0,
                }))
            }),
            read matches DiscRead::Empty { status } ==> (u == (DiscUpdate::Missing {
                status,
                cleared: old(self).total_tracks > 0,
            })),
            read matches DiscRead::Unavailable { status } ==> (u == (DiscUpdate::Missing {
                status,
                cleared: old(self).total_tracks > 0,
            })),
            !(read is Loaded) && old(self).total_tracks == 0 ==> *final(self) == *old(self),
            !(read is Loaded) && old(self).total_tracks > 0 ==> final(self).cd_tracks@.len() == 0
                && final(self).total_tracks == 0 && final(self).current_track == -1
                && !final(self).metadata_loaded && final(self).track_titles@.len() == 0
                && final(self).track_artists@.len() == 0 && final(self).album_title@.len() == 0
                && final(self).album_artist@.len() == 0 && final(self).cover_url@.len() == 0,
    {
        let had = self.total_tracks;
        let status = match read {
            DiscRead::Loaded { tracks, metadata, disc_id } => {
                let count = tracks.len() as i32;
                if !was_user_load && had > 0 && count == had && (self.metadata_loaded || metadata.is_none()) {
                    self.current_disc_id = disc_id;
                    self.cd_tracks = tracks;
                    return DiscUpdate::Refreshed;
                }
                let mut durations: Vec<String> = Vec::new();
                let mut titles: Vec<String> = Vec::new();
                let mut artists: Vec<String> = Vec::new();
                let mut i: usize = 0;
                while i < tracks.len()
                    invariant
                        i <= tracks@.len() <= i32::MAX,
                        crate::library::str_views(durations@) == Seq::new(
                            i as nat,
                            |k: int| crate::file_player::mm_ss((tracks@[k].sector_count / 75) as nat),
                        ),
                        crate::library::str_views(titles@) == disc_titles(metadata, i as int),
                        crate::library::str_views(artists@) == disc_artists(metadata, i as int),
                    decreases tracks@.len() - i,
                {
                    let ghost d0 = durations@;
                    let ghost t0 = titles@;
                    let ghost a0 = artists@;
                    let d = crate::cd_reader::format_duration(tracks[i].sector_count);
                    let t = disc_title_at(&metadata, i);
                    let a = disc_artist_at(&metadata, i);
                    durations.push(d);
                    titles.push(t);
                    artists.push(a);
                    assert(crate::library::str_views(durations@) =~= crate::library::str_views(d0).push(d@));
                    assert(crate::library::str_views(titles@) =~= crate::library::str_views(t0).push(t@));
                    assert(crate::library::str_views(artists@) =~= crate::library::str_views(a0).push(a@));
                    i = i + 1;
                    assert(crate::library::str_views(durations@) =~= Seq::new(
                        i as nat,
                        |k: int| crate::file_player::mm_ss((tracks@[k].sector_count / 75) as nat),
                    ));
                    assert(crate::library::str_views(titles@) =~= disc_titles(metadata, i as int));
                    assert(crate::library::str_views(artists@) =~= disc_artists(metadata, i as int));
                }
                let (disc_number, disc_count) = match &metadata {
                    Some(m) => {
                        self.album_title = m.title.clone();
                        self.album_artist = m.artist.clone();
                        self.album_year = m.year.clone();
                        self.cover_url = match &m.cover_art_url {
                            Some(c) => c.clone(),
                            None => String::new(),
                        };
                        self.metadata_loaded = true;
                        (m.disc_number, m.disc_count)
                    },
                    None => {
                        self.album_title = String::new();
                        self.album_artist = String::new();
                        self.album_year = String::new();
                        self.cover_url = String::new();
                        self.metadata_loaded = false;
                        (0, 0)
                    },
                };
                self.track_titles = titles;
                self.track_artists = artists;
                self.current_disc_id = disc_id;
                self.cd_tracks = tracks;
                self.total_tracks = count;
                let new_disc = had == 0;
                if new_disc && count > 0 {
                    self.current_track = -1;
                }
                return DiscUpdate::Loaded { durations, new_disc, disc_number, disc_count };
            },
            DiscRead::Empty { status } => status,
            DiscRead::Unavailable { status } => status,
        };
        if had > 0 {
            self.cd_tracks = Vec::new();
            self.total_tracks = 0;
            self.current_track = -1;
            self.metadata_loaded = false;
            self.track_titles = Vec::new();
            self.track_artists = Vec::new();
            self.album_title = String::new();
            self.album_artist = String::new();
            self.album_year = String::new();
            self.cover_url = String::new();
        }
        DiscUpdate::Missing { status, cleared: had > 0 }
    }
}

/// `base` doubled once per failed attempt, `attempt` counting from 0, the
/// doubling capped after `cap` steps.
pub open spec fn backoff_ms(base: nat, attempt: nat, cap: nat) -> nat
    decreases (if attempt < cap { attempt } else { cap }),
{
    let k = if attempt < cap { attempt } else { cap };
    if k == 0 {
        base
    } else {
        2 * backoff_ms(base, (k - 1) as nat, cap)
    }
}

/// Wait before the next try after failed attempt `attempt` to open the drive
/// for playback: 200 ms, doubling up to 3.2 s (a disc may still be spinning up).
pub fn open_retry_delay_ms(attempt: u32) -> (r: u64)
    ensures
        r == backoff_ms(200, attempt as nat, 4),
{
    let k: u32 = if attempt < 4 { attempt } else { 4 };
    let mut d: u64 = 200;
    let mut i: u32 = 0;
    while i < k
        invariant
            i <= k <= 4,
            k == (if attempt < 4 { attempt } else { 4 }),
            d == backoff_ms(200, i as nat, 4),
            d <= 200 * 16,
        decreases k - i,
    {
        assert(backoff_ms(200, (i + 1) as nat, 4) == 2 * backoff_ms(200, i as nat, 4));
        assert(d * 2 <= 200 * 16) by {
            if i == 0 { } else if i == 1 { } else if i == 2 { } else { }
            assert(i < 4);
            assert(backoff_ms(200, 0, 4) == 200);
            assert(backoff_ms(200, 1, 4) == 400);
            assert(backoff_ms(200, 2, 4) == 800);
            assert(backoff_ms(200, 3, 4) == 1600);
        }
        d = d * 2;
        i = i + 1;
    }
    assert(backoff_ms(200, attempt as nat, 4) == backoff_ms(200, k as nat, 4));
    d
}

/// Wait before the next try after failed attempt `attempt` to read the table
/// of contents: 300 ms, doubling up to 2.4 s.
pub fn toc_retry_delay_ms(attempt: u32) -> (r: u64)
    ensures
        r == backoff_ms(300, attempt as nat, 3),
{
    let k: u32 = if attempt < 3 { attempt } else { 3 };
    let mut d: u64 = 300;
    let mut i: u32 = 0;
    while i < k
        invariant
            i <= k <= 3,
            k == (if attempt < 3 { attempt } else { 3 }),
            d == backoff_ms(300, i as nat, 3),
            d <= 300 * 8,
        decreases k - i,
    {
        assert(backoff_ms(300, (i + 1) as nat, 3) == 2 * backoff_ms(300, i as nat, 3));
        assert(d * 2 <= 300 * 8) by {
            assert(backoff_ms(300, 0, 3) == 300);
            assert(backoff_ms(300, 1, 3) == 600);
            assert(backoff_ms(300, 2, 3) == 1200);
        }
        d = d * 2;
        i = i + 1;
    }
    assert(backoff_ms(300, attempt as nat, 3) == backoff_ms(300, k as nat, 3));
    d
}


// ─── Lyrics ──────────────────────────────────────────────────────────────────

/// The file whose lyrics a fetch looks for: the current local track's path,
/// empty on a disc or with no track selected.
pub open spec fn lyrics_file_path(p: PlayerController) -> Seq<char> {
    if p.is_file_mode && 0 <= p.current_track < p.file_tracks@.len() {
        p.file_tracks@[p.current_track as int].path@
    } else {
        Seq::empty()
    }
}

impl PlayerController {
    /// Start fetching the lyrics of the current track: the shown lines are
    /// cleared and, unless the title is empty, a new fetch supersedes any
    /// earlier one. Returns that fetch, with the track's cache key.
    pub fn fetch_lyrics(&mut self, track_name: &str, artist_name: &str) -> (req: Option<LyricsRequest>)
        requires
            old(self).wf(),
            old(self).lyrics.generation < u64::MAX,
        ensures
            final(self).wf(),
            *final(self) == (PlayerController { lyrics: final(self).lyrics, ..*old(self) }),
            final(self).lyrics.lines@.len() == 0,
            final(self).lyrics.times@.len() == 0,
            source_view(final(self).lyrics.source@) == source_view(old(self).lyrics.source@),
            track_name@.len() == 0 ==> req is None && !final(self).lyrics.loading
                && final(self).lyrics.generation == old(self).lyrics.generation,
            track_name@.len() > 0 ==> final(self).lyrics.loading
                && final(self).lyrics.generation == old(self).lyrics.generation + 1
                && (req matches Some(r) && r.generation == final(self).lyrics.generation
                && r.cache_key@ == lyrics_key_of(
                    old(self).current_disc_id@,
                    old(self).current_track as int,
                    lyrics_file_path(*old(self)),
                    track_name@,
                    artist_name@,
                )),
    {
        self.lyrics.lines = Vec::new();
        self.lyrics.times = Vec::new();
        self.lyrics.loading = true;
        if track_name.is_empty() {
            self.lyrics.loading = false;
            return None;
        }
        let idx = self.current_track;
        let path = if self.is_file_mode && idx >= 0 && (idx as usize) < self.file_tracks.len() {
            self.file_tracks[idx as usize].path.clone()
        } else {
            String::new()
        };
        let key = lyrics_cache_key(self.current_disc_id.as_str(), idx, path.as_str(), track_name, artist_name);
        self.lyrics.generation = self.lyrics.generation + 1;
        Some(LyricsRequest { generation: self.lyrics.generation, cache_key: key })
    }

    /// Take a finished fetch. One that a later fetch superseded is dropped;
    /// the current one ends the loading state and its lines replace the
    /// fetched ones (shown romanized when `romanize` is set), or, when it
    /// found none, the fetched lines are cleared.
    pub fn poll_lyrics(&mut self, delivery: Option<LyricsDelivery>, romanize: bool)
        requires
            old(self).wf(),
        ensures
            final(self).wf(),
            *final(self) == (PlayerController { lyrics: final(self).lyrics, ..*old(self) }),
            match delivery {
                None => *final(self) == *old(self),
                Some(d) => if d.generation != old(self).lyrics.generation {
                    *final(self) == *old(self)
                } else {
                    &&& !final(self).lyrics.loading
                    &&& final(self).lyrics.generation == old(self).lyrics.generation
                    &&& match d.lines {
                        Some(ls) => {
                            &&& source_view(final(self).lyrics.source@) == source_view(ls@)
                            &&& str_views(final(self).lyrics.lines@) == shown_texts(ls@, romanize)
                            &&& str_views(final(self).lyrics.times@) == shown_times(ls@)
                        },
                        None => {
                            &&& final(self).lyrics.source@.len() == 0
                            &&& final(self).lyrics.lines == old(self).lyrics.lines
                            &&& final(self).lyrics.times == old(self).lyrics.times
                        },
                    }
                },
            },
    {
        let d = match delivery {
            None => return,
            Some(d) => d,
        };
        if d.generation != self.lyrics.generation {
            return;
        }
        self.lyrics.loading = false;
        match d.lines {
            Some(ls) => {
                self.lyrics.source = ls;
                self.lyrics.reapply(romanize);
            },
            None => {
                self.lyrics.source = Vec::new();
            },
        }
    }

    /// Show the fetched lyrics again after the romanize setting changed.
    pub fn reapply_lyrics(&mut self, romanize: bool)
        requires
            old(self).wf(),
        ensures
            final(self).wf(),
            *final(self) == (PlayerController { lyrics: final(self).lyrics, ..*old(self) }),
            final(self).lyrics.loading == old(self).lyrics.loading,
            final(self).lyrics.generation == old(self).lyrics.generation,
            source_view(final(self).lyrics.source@) == source_view(old(self).lyrics.source@),
            str_views(final(self).lyrics.lines@) == shown_texts(old(self).lyrics.source@, romanize),
            str_views(final(self).lyrics.times@) == shown_times(old(self).lyrics.source@),
    {
        self.lyrics.reapply(romanize);
    }
}


// ─── Media session ───────────────────────────────────────────────────────────

impl PlayerController {
    /// What the media session shows for track `index`: its title, its artist
    /// (the album artist when the track has none), the album, the cover when
    /// there is one, and the duration.
    pub fn media_metadata(&self, index: i32, duration_ms: u64) -> (r: SmtcUpdate)
        ensures
            r matches SmtcUpdate::Metadata { title, artist, album, cover_url, duration_ms: d } && title@ == str_at(
                self.track_titles@,
                index as int,
            ) && artist@ == (if str_at(self.track_artists@, index as int).len() == 0 {
                self.album_artist@
            } else {
                str_at(self.track_artists@, index as int)
            }) && album@ == self.album_title@ && (if self.cover_url@.len() == 0 {
                cover_url is None
            } else {
                cover_url matches Some(c) && c@ == self.cover_url@
            }) && d == Some(duration_ms),
    {
        let (title, raw_artist) = if index >= 0 {
            (string_at(&self.track_titles, index as usize), string_at(&self.track_artists, index as usize))
        } else {
            (String::new(), String::new())
        };
        let artist = if raw_artist.as_str().is_empty() { self.album_artist.clone() } else { raw_artist };
        let cover = if self.cover_url.as_str().is_empty() { None } else { Some(self.cover_url.clone()) };
        SmtcUpdate::Metadata {
            title,
            artist,
            album: self.album_title.clone(),
            cover_url: cover,
            duration_ms: Some(duration_ms),
        }
    }
}


// ─── Disc refresh ────────────────────────────────────────────────────────────

/// What `refresh_disc` decided.
#[derive(Clone, Debug)]
pub enum DiscRefresh {
    /// A load is already under way; nothing changed.
    Busy,
    /// No drive is selected: the track count was cleared; the status to show.
    NoDrive { status: String },
    /// Read this drive again (the caller shows "Loading disc..." meanwhile).
    Read { drive: String },
}

impl PlayerController {
    /// Read the selected drive again, unless a load is under way.
    pub fn refresh_disc(&mut self, is_loading: bool) -> (r: DiscRefresh)
        requires
            old(self).wf(),
        ensures
            final(self).wf(),
            is_loading ==> r is Busy && *final(self) == *old(self),
            !is_loading && old(self).current_drive_path is None ==> (r matches DiscRefresh::NoDrive { status }
                && status@ == "No drive selected"@) && *final(self) == (PlayerController {
                total_tracks: 0,
                ..*old(self)
            }),
            !is_loading && old(self).current_drive_path is Some ==> (r matches DiscRefresh::Read { drive }
                && old(self).current_drive_path == Some(drive)) && *final(self) == *old(self),
    {
        if is_loading {
            return DiscRefresh::Busy;
        }
        match &self.current_drive_path {
            Some(p) => DiscRefresh::Read { drive: p.clone() },
            None => {
                self.total_tracks = 0;
                let mut out: Vec<char> = Vec::new();
                crate::text::push_str_chars(&mut out, "No drive selected");
                DiscRefresh::NoDrive { status: crate::text::string_from_chars(out.as_slice()) }
            },
        }
    }
}

} // verus!
