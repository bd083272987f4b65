//! Synced lyrics of the playing track: the cache key a track is filed under,
//! what the cache says before a fetch, recording what a fetch found, and the
//! lyric panel that takes fetch results.

use vstd::prelude::*;
use crate::library::str_views;
use crate::lyric_cache::{
    cd_key, file_key, lrc_index, lrc_inserted, lrc_keys_unique, lrc_lookup, lrc_touched, no_lyrics_index,
    no_lyrics_inserted, no_lyrics_keys_unique, no_lyrics_touched, spec_cd_key, spec_file_key, used_before, used_by,
    LrcRecord, LyricContentCache, NoLyricsRecord, MAX_ENTRIES,
};
use crate::romaji::{romanize_lines, romanized};

verus! {

/// The cache key of a track: its disc and index when a disc is loaded and a
/// track is selected, else its file (or title and artist).
pub open spec fn lyrics_key_of(disc_id: Seq<char>, track_idx: int, file_path: Seq<char>, title: Seq<char>, artist: Seq<char>) -> Seq<char> {
    if disc_id.len() > 0 && track_idx >= 0 {
        spec_cd_key(disc_id, track_idx)
    } else {
        spec_file_key(file_path, title, artist)
    }
}

/// The key a track's lyrics are cached under.
pub fn lyrics_cache_key(disc_id: &str, track_idx: i32, file_path: &str, title: &str, artist: &str) -> (r: String)
    ensures
        r@ == lyrics_key_of(disc_id@, track_idx as int, file_path@, title@, artist@),
{
    if !disc_id.is_empty() && track_idx >= 0 {
        cd_key(disc_id, track_idx)
    } else {
        file_key(file_path, title, artist)
    }
}

/// What the cache knows of a track before any request is made.
#[derive(Clone, Debug)]
pub enum CachedLyrics {
    /// An earlier fetch found none.
    NoLyrics,
    /// The raw LRC an earlier fetch found.
    Lrc(String),
    /// Nothing is cached: a fetch is needed.
    Miss,
}

/// Ask the cache about `key`: a "no lyrics" entry wins, then stored LRC text;
/// the entry consulted is marked as used.
pub fn consult_cache(cache: &mut LyricContentCache, key: &str) -> (r: CachedLyrics)
    ensures
        final(cache).spec_path() == old(cache).spec_path(),
        final(cache).lrc().len() == old(cache).lrc().len(),
        final(cache).no_lyrics().len() == old(cache).no_lyrics().len(),
        no_lyrics_index(old(cache).no_lyrics(), key@) >= 0 ==> r is NoLyrics,
        no_lyrics_index(old(cache).no_lyrics(), key@) < 0 ==> match lrc_lookup(old(cache).lrc(), key@) {
            Some(t) => r matches CachedLyrics::Lrc(s) && s@ == t,
            None => r is Miss,
        },
        exists|now: u64| final(cache).no_lyrics() == #[trigger] no_lyrics_touched(old(cache).no_lyrics(), key@, now),
        no_lyrics_index(old(cache).no_lyrics(), key@) >= 0 ==> final(cache).lrc() == old(cache).lrc(),
        no_lyrics_index(old(cache).no_lyrics(), key@) < 0 ==> exists|now: u64| final(cache).lrc()
            == #[trigger] lrc_touched(old(cache).lrc(), key@, now),
{
    if cache.has_no_lyrics(key) {
        return CachedLyrics::NoLyrics;
    }
    match cache.get_lrc(key) {
        Some(t) => CachedLyrics::Lrc(t),
        None => CachedLyrics::Miss,
    }
}

/// What a fetch found, as plain values: the LRC text, or none.
pub open spec fn found_view(found: Option<String>) -> Option<Seq<char>> {
    match found {
        Some(t) => Some(t@),
        None => None,
    }
}

/// Both cache lists after recording at time `now` what a fetch for `key`
/// found.
pub open spec fn fetch_recorded(
    lrc: Seq<LrcRecord>,
    no: Seq<NoLyricsRecord>,
    key: Seq<char>,
    found: Option<Seq<char>>,
    limit_disabled: bool,
    now: u64,
) -> (Seq<LrcRecord>, Seq<NoLyricsRecord>) {
    match found {
        Some(t) => lrc_inserted(lrc, no, key, t, limit_disabled, now),
        None => no_lyrics_inserted(lrc, no, key, limit_disabled, now),
    }
}

/// A later look at the cache finds what the fetch found: its text under the
/// key, or the key among the tracks without lyrics.
pub open spec fn fetch_remembered(lrc: Seq<LrcRecord>, no: Seq<NoLyricsRecord>, key: Seq<char>, found: Option<Seq<char>>) -> bool {
    match found {
        Some(t) => lrc_lookup(lrc, key) == Some(t),
        None => no_lyrics_index(no, key) >= 0,
    }
}

/// The clock reading `now` keeps a recorded fetch through the entry limit:
/// every entry was used before it for lyrics, and none after it for a
/// "no lyrics" mark.
pub open spec fn fetch_clock_ok(lrc: Seq<LrcRecord>, no: Seq<NoLyricsRecord>, found: Option<Seq<char>>, now: u64) -> bool {
    match found {
        Some(t) => used_before(lrc, no, now),
        None => used_by(lrc, no, now),
    }
}

/// Record what a fetch for `key` found: the raw LRC, or that there is none.
/// `limit_disabled` comes from the library settings.
pub fn record_fetch(cache: &mut LyricContentCache, key: &str, found: &Option<String>, limit_disabled: bool)
    ensures
        final(cache).spec_path() == old(cache).spec_path(),
        found matches Some(t) ==> ((limit_disabled || lrc_index(old(cache).lrc(), key@) >= 0) ==> (
            lrc_lookup(final(cache).lrc(), key@) == Some(t@) && final(cache).no_lyrics() == old(cache).no_lyrics())),
        found is None && limit_disabled ==> no_lyrics_index(final(cache).no_lyrics(), key@) >= 0,
        found is None && no_lyrics_index(old(cache).no_lyrics(), key@) >= 0 ==> (final(cache).lrc() == old(cache).lrc()
            && final(cache).no_lyrics() == old(cache).no_lyrics()),
        !limit_disabled && (found is Some ==> lrc_index(old(cache).lrc(), key@) < 0) && (found is None
            ==> no_lyrics_index(old(cache).no_lyrics(), key@) < 0) ==> final(cache).lrc().len()
            + final(cache).no_lyrics().len() <= MAX_ENTRIES,
        lrc_keys_unique(old(cache).lrc()) ==> lrc_keys_unique(final(cache).lrc()),
        no_lyrics_keys_unique(old(cache).no_lyrics()) ==> no_lyrics_keys_unique(final(cache).no_lyrics()),
        exists|now: u64| {
            &&& (final(cache).lrc(), final(cache).no_lyrics()) == #[trigger] fetch_recorded(
                old(cache).lrc(), old(cache).no_lyrics(), key@, found_view(*found), limit_disabled, now)
            &&& (limit_disabled || fetch_clock_ok(old(cache).lrc(), old(cache).no_lyrics(), found_view(*found), now))
                ==> fetch_remembered(final(cache).lrc(), final(cache).no_lyrics(), key@, found_view(*found))
        },
{
    match found {
        Some(t) => {
            cache.insert_lrc(key, t.as_str(), limit_disabled);
            proof {
                let now = choose|now: u64| {
                    &&& (cache.lrc(), cache.no_lyrics()) == #[trigger] lrc_inserted(
                        old(cache).lrc(), old(cache).no_lyrics(), key@, t@, limit_disabled, now)
                    &&& used_before(old(cache).lrc(), old(cache).no_lyrics(), now)
                        ==> lrc_lookup(cache.lrc(), key@) == Some(t@)
                };
                assert(fetch_recorded(old(cache).lrc(), old(cache).no_lyrics(), key@, found_view(*found), limit_disabled, now)
                    == lrc_inserted(old(cache).lrc(), old(cache).no_lyrics(), key@, t@, limit_disabled, now));
            }
        },
        None => {
            cache.insert_no_lyrics(key, limit_disabled);
            proof {
                let now = choose|now: u64| {
                    &&& (cache.lrc(), cache.no_lyrics()) == #[trigger] no_lyrics_inserted(
                        old(cache).lrc(), old(cache).no_lyrics(), key@, limit_disabled, now)
                    &&& used_by(old(cache).lrc(), old(cache).no_lyrics(), now)
                        ==> no_lyrics_index(cache.no_lyrics(), key@) >= 0
                };
                assert(fetch_recorded(old(cache).lrc(), old(cache).no_lyrics(), key@, found_view(*found), limit_disabled, now)
                    == no_lyrics_inserted(old(cache).lrc(), old(cache).no_lyrics(), key@, limit_disabled, now));
            }
        },
    }
}

// ─── The lyric panel ─────────────────────────────────────────────────────────

/// A lyric line as the panel keeps it: when it starts (seconds, written out
/// in decimal) and its text.
#[derive(Clone, Debug)]
pub struct LyricText {
    pub time: String,
    pub text: String,
}

/// A lyric fetch to run: the fetch it is (later ones supersede it) and the
/// cache key of the track.
#[derive(Clone, Debug)]
pub struct LyricsRequest {
    pub generation: u64,
    pub cache_key: String,
}

/// What a finished fetch hands back: the fetch it answers and the lines it
/// found (`None`: the track has no lyrics).
#[derive(Clone, Debug)]
pub struct LyricsDelivery {
    pub generation: u64,
    pub lines: Option<Vec<LyricText>>,
}

/// The lyric panel: whether a fetch is under way, which fetch is current,
/// the lines as fetched and the lines and times as shown.
#[derive(Clone, Debug)]
pub struct LyricsPanel {
    pub loading: bool,
    pub generation: u64,
    pub source: Vec<LyricText>,
    pub lines: Vec<String>,
    pub times: Vec<String>,
}

/// The texts of `ls`, romanized when `romanize` is set.
pub open spec fn shown_texts(ls: Seq<LyricText>, romanize: bool) -> Seq<Seq<char>> {
    Seq::new(ls.len(), |i: int| if romanize { romanized(ls[i].text@) } else { ls[i].text@ })
}

/// The start times of `ls`.
pub open spec fn shown_times(ls: Seq<LyricText>) -> Seq<Seq<char>> {
    Seq::new(ls.len(), |i: int| ls[i].time@)
}

/// The fetched lines of `p` with their shown lines and times.
pub open spec fn source_view(ls: Seq<LyricText>) -> Seq<(Seq<char>, Seq<char>)> {
    Seq::new(ls.len(), |i: int| (ls[i].time@, ls[i].text@))
}

impl LyricsPanel {
    /// An empty panel, no fetch made yet.
    pub fn new() -> (p: Self)
        ensures
            !p.loading,
            p.generation == 0,
            p.source@.len() == 0,
            p.lines@.len() == 0,
            p.times@.len() == 0,
    {
        LyricsPanel { loading: false, generation: 0, source: Vec::new(), lines: Vec::new(), times: Vec::new() }
    }

    /// Show the fetched lines again, romanized when `romanize` is set.
    pub fn reapply(&mut self, romanize: bool)
        ensures
            final(self).loading == old(self).loading,
            final(self).generation == old(self).generation,
            source_view(final(self).source@) == source_view(old(self).source@),
            str_views(final(self).lines@) == shown_texts(old(self).source@, romanize),
            str_views(final(self).times@) == shown_times(old(self).source@),
    {
        let mut texts: Vec<String> = Vec::new();
        let mut times: Vec<String> = Vec::new();
        let mut i: usize = 0;
        while i < self.source.len()
            invariant
                i <= self.source@.len(),
                texts@.len() == i,
                times@.len() == i,
                forall|k: int| 0 <= k < i ==> (#[trigger] texts@[k])@ == self.source@[k].text@,
                forall|k: int| 0 <= k < i ==> (#[trigger] times@[k])@ == self.source@[k].time@,
            decreases self.source@.len() - i,
        {
            texts.push(self.source[i].text.clone());
            times.push(self.source[i].time.clone());
            i = i + 1;
        }
        let ghost plain = texts@;
        romanize_lines(&mut texts, romanize);
        assert(str_views(texts@) =~= shown_texts(self.source@, romanize)) by {
            if !romanize {
                assert(texts@ == plain);
            }
        }
        assert(str_views(times@) =~= shown_times(self.source@));
        self.lines = texts;
        self.times = times;
    }
}

} // verus!
