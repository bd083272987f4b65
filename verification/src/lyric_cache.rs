//! Cache of fetched lyrics: the raw LRC text of successful fetches, and the
//! tracks known to have no lyrics, evicted least-recently-used first once the
//! combined count passes the limit.

use vstd::prelude::*;
use crate::text::{push_str_chars, push_signed_decimal, signed_decimal, string_from_chars, str_lowercase, to_lowercase, trim_str, trimmed};

verus! {

/// Default maximum combined entries (LRC + no-lyrics) kept in the cache.
pub const MAX_ENTRIES: usize = 100;

#[derive(Clone, Debug)]
pub struct LrcEntry {
    pub key: String,
    /// Raw LRC text (the `[mm:ss.xx] line` format returned by lrclib).
    pub lrc_text: String,
    /// Unix milliseconds of last access, used for LRU eviction.
    pub accessed_ms: u64,
}

#[derive(Clone, Debug)]
pub struct NoLyricsEntry {
    pub key: String,
    pub accessed_ms: u64,
}

/// What an LRC entry holds, as plain values.
pub struct LrcRecord {
    pub key: Seq<char>,
    pub lrc_text: Seq<char>,
    pub accessed_ms: u64,
}

/// What a no-lyrics entry holds, as plain values.
pub struct NoLyricsRecord {
    pub key: Seq<char>,
    pub accessed_ms: u64,
}

impl View for LrcEntry {
    type V = LrcRecord;

    open spec fn view(&self) -> LrcRecord {
        LrcRecord { key: self.key@, lrc_text: self.lrc_text@, accessed_ms: self.accessed_ms }
    }
}

impl View for NoLyricsEntry {
    type V = NoLyricsRecord;

    open spec fn view(&self) -> NoLyricsRecord {
        NoLyricsRecord { key: self.key@, accessed_ms: self.accessed_ms }
    }
}

pub struct LyricContentCache {
    path: String,
    lrc_entries: Vec<LrcEntry>,
    no_lyrics_entries: Vec<NoLyricsEntry>,
}

// ─── Model ───────────────────────────────────────────────────────────────────

/// Index of the first entry whose key is `key`, or -1.
pub open spec fn lrc_index(s: Seq<LrcRecord>, key: Seq<char>) -> int
    decreases s.len(),
{
    if s.len() == 0 {
        -1
    } else if lrc_index(s.drop_last(), key) >= 0 {
        lrc_index(s.drop_last(), key)
    } else if s.last().key == key {
        s.len() - 1
    } else {
        -1
    }
}

/// Index of the first no-lyrics entry whose key is `key`, or -1.
pub open spec fn no_lyrics_index(s: Seq<NoLyricsRecord>, key: Seq<char>) -> int
    decreases s.len(),
{
    if s.len() == 0 {
        -1
    } else if no_lyrics_index(s.drop_last(), key) >= 0 {
        no_lyrics_index(s.drop_last(), key)
    } else if s.last().key == key {
        s.len() - 1
    } else {
        -1
    }
}

/// The lyrics a lookup of `key` finds in `s`.
pub open spec fn lrc_lookup(s: Seq<LrcRecord>, key: Seq<char>) -> Option<Seq<char>> {
    let i = lrc_index(s, key);
    if i >= 0 {
        Some(s[i].lrc_text)
    } else {
        None
    }
}

/// Index of the first smallest value in `t` (0 for an empty sequence).
pub open spec fn oldest(t: Seq<u64>) -> int
    decreases t.len(),
{
    if t.len() <= 1 {
        0
    } else {
        let k = oldest(t.drop_last());
        if t.last() < t[k] {
            t.len() - 1
        } else {
            k
        }
    }
}

pub open spec fn lrc_times(s: Seq<LrcRecord>) -> Seq<u64> {
    Seq::new(s.len(), |i: int| s[i].accessed_ms)
}

pub open spec fn no_lyrics_times(s: Seq<NoLyricsRecord>) -> Seq<u64> {
    Seq::new(s.len(), |i: int| s[i].accessed_ms)
}

/// One eviction: drop the least recently used entry across both lists; on a
/// tie the LRC entry goes.
pub open spec fn evict_one(lrc: Seq<LrcRecord>, no: Seq<NoLyricsRecord>) -> (Seq<LrcRecord>, Seq<NoLyricsRecord>) {
    let li = oldest(lrc_times(lrc));
    let ni = oldest(no_lyrics_times(no));
    if lrc.len() > 0 && no.len() > 0 {
        if lrc[li].accessed_ms <= no[ni].accessed_ms {
            (lrc.remove(li), no)
        } else {
            (lrc, no.remove(ni))
        }
    } else if lrc.len() > 0 {
        (lrc.remove(li), no)
    } else if no.len() > 0 {
        (lrc, no.remove(ni))
    } else {
        (lrc, no)
    }
}

/// `n` evictions in a row.
pub open spec fn evict_n(lrc: Seq<LrcRecord>, no: Seq<NoLyricsRecord>, n: nat) -> (Seq<LrcRecord>, Seq<NoLyricsRecord>)
    decreases n,
{
    if n == 0 {
        (lrc, no)
    } else {
        let p = evict_one(lrc, no);
        evict_n(p.0, p.1, (n - 1) as nat)
    }
}

/// The lists after trimming them back to `MAX_ENTRIES` combined entries.
pub open spec fn evicted(lrc: Seq<LrcRecord>, no: Seq<NoLyricsRecord>) -> (Seq<LrcRecord>, Seq<NoLyricsRecord>) {
    let total = lrc.len() + no.len();
    if total <= MAX_ENTRIES {
        (lrc, no)
    } else {
        evict_n(lrc, no, (total - MAX_ENTRIES) as nat)
    }
}

/// The LRC list after storing `text` under `key` at time `now`, before any
/// eviction: an existing entry is rewritten in place, a new one is appended.
pub open spec fn lrc_stored(s: Seq<LrcRecord>, key: Seq<char>, text: Seq<char>, now: u64) -> Seq<LrcRecord> {
    let i = lrc_index(s, key);
    if i >= 0 {
        s.update(i, LrcRecord { key: s[i].key, lrc_text: text, accessed_ms: now })
    } else {
        s.push(LrcRecord { key, lrc_text: text, accessed_ms: now })
    }
}

/// The LRC list after a lookup of `key` at time `now`: the first entry with
/// that key (if any) is marked as used, nothing else changes.
pub open spec fn lrc_touched(s: Seq<LrcRecord>, key: Seq<char>, now: u64) -> Seq<LrcRecord> {
    let i = lrc_index(s, key);
    if i >= 0 {
        s.update(i, LrcRecord { key: s[i].key, lrc_text: s[i].lrc_text, accessed_ms: now })
    } else {
        s
    }
}

/// The no-lyrics list after a check of `key` at time `now`: the first entry
/// with that key (if any) is marked as used, nothing else changes.
pub open spec fn no_lyrics_touched(s: Seq<NoLyricsRecord>, key: Seq<char>, now: u64) -> Seq<NoLyricsRecord> {
    let i = no_lyrics_index(s, key);
    if i >= 0 {
        s.update(i, NoLyricsRecord { key: s[i].key, accessed_ms: now })
    } else {
        s
    }
}

/// Both lists after caching `text` for `key` at time `now`: stored, then
/// trimmed to the limit when the key is new and the limit is on.
pub open spec fn lrc_inserted(
    lrc: Seq<LrcRecord>,
    no: Seq<NoLyricsRecord>,
    key: Seq<char>,
    text: Seq<char>,
    limit_disabled: bool,
    now: u64,
) -> (Seq<LrcRecord>, Seq<NoLyricsRecord>) {
    let stored = lrc_stored(lrc, key, text, now);
    if lrc_index(lrc, key) >= 0 || limit_disabled {
        (stored, no)
    } else {
        evicted(stored, no)
    }
}

/// Both lists after recording that `key` has no lyrics at time `now`: a known
/// key changes nothing; a new one is appended, then the lists are trimmed
/// to the limit when it is on.
pub open spec fn no_lyrics_inserted(
    lrc: Seq<LrcRecord>,
    no: Seq<NoLyricsRecord>,
    key: Seq<char>,
    limit_disabled: bool,
    now: u64,
) -> (Seq<LrcRecord>, Seq<NoLyricsRecord>) {
    let pushed = no.push(NoLyricsRecord { key, accessed_ms: now });
    if no_lyrics_index(no, key) >= 0 {
        (lrc, no)
    } else if limit_disabled {
        (lrc, pushed)
    } else {
        evicted(lrc, pushed)
    }
}

/// Every entry of both lists was last used before `now`.
pub open spec fn used_before(lrc: Seq<LrcRecord>, no: Seq<NoLyricsRecord>, now: u64) -> bool {
    &&& forall|i: int| 0 <= i < lrc.len() ==> (#[trigger] lrc[i]).accessed_ms < now
    &&& forall|i: int| 0 <= i < no.len() ==> (#[trigger] no[i]).accessed_ms < now
}

/// No entry of either list was used after `now` (the clock has not gone
/// back).
pub open spec fn used_by(lrc: Seq<LrcRecord>, no: Seq<NoLyricsRecord>, now: u64) -> bool {
    &&& forall|i: int| 0 <= i < lrc.len() ==> (#[trigger] lrc[i]).accessed_ms <= now
    &&& forall|i: int| 0 <= i < no.len() ==> (#[trigger] no[i]).accessed_ms <= now
}

/// No key occurs twice among the LRC entries.
pub open spec fn lrc_keys_unique(s: Seq<LrcRecord>) -> bool {
    forall|i: int, j: int| 0 <= i < j < s.len() ==> (#[trigger] s[i]).key != (#[trigger] s[j]).key
}

/// No key occurs twice among the no-lyrics entries.
pub open spec fn no_lyrics_keys_unique(s: Seq<NoLyricsRecord>) -> bool {
    forall|i: int, j: int| 0 <= i < j < s.len() ==> (#[trigger] s[i]).key != (#[trigger] s[j]).key
}

pub proof fn lemma_lrc_index_bounds(s: Seq<LrcRecord>, key: Seq<char>)
    ensures
        -1 <= lrc_index(s, key) < s.len(),
        lrc_index(s, key) >= 0 ==> s[lrc_index(s, key)].key == key,
        lrc_index(s, key) == -1 ==> forall|j: int| 0 <= j < s.len() ==> s[j].key != key,
        lrc_index(s, key) >= 0 ==> forall|j: int| 0 <= j < lrc_index(s, key) ==> s[j].key != key,
    decreases s.len(),
{
    if s.len() > 0 {
        let d = s.drop_last();
        lemma_lrc_index_bounds(d, key);
        assert(forall|j: int| 0 <= j < d.len() ==> d[j] == s[j]);
    }
}

pub proof fn lemma_no_lyrics_index_bounds(s: Seq<NoLyricsRecord>, key: Seq<char>)
    ensures
        -1 <= no_lyrics_index(s, key) < s.len(),
        no_lyrics_index(s, key) >= 0 ==> s[no_lyrics_index(s, key)].key == key,
        no_lyrics_index(s, key) == -1 ==> forall|j: int| 0 <= j < s.len() ==> s[j].key != key,
        no_lyrics_index(s, key) >= 0 ==> forall|j: int|
            0 <= j < no_lyrics_index(s, key) ==> s[j].key != key,
    decreases s.len(),
{
    if s.len() > 0 {
        let d = s.drop_last();
        lemma_no_lyrics_index_bounds(d, key);
        assert(forall|j: int| 0 <= j < d.len() ==> d[j] == s[j]);
    }
}

proof fn lemma_oldest_bounds(t: Seq<u64>)
    ensures
        t.len() > 0 ==> 0 <= oldest(t) < t.len(),
    decreases t.len(),
{
    if t.len() > 1 {
        lemma_oldest_bounds(t.drop_last());
    }
}

// ─── Implementation ──────────────────────────────────────────────────────────

impl LyricContentCache {
    /// The LRC entries, oldest insertion first.
    pub closed spec fn lrc(&self) -> Seq<LrcRecord> {
        self.lrc_entries@.map_values(|e: LrcEntry| e@)
    }

    /// The no-lyrics entries, oldest insertion first.
    pub closed spec fn no_lyrics(&self) -> Seq<NoLyricsRecord> {
        self.no_lyrics_entries@.map_values(|e: NoLyricsEntry| e@)
    }

    /// Where the cache is stored.
    pub closed spec fn spec_path(&self) -> Seq<char> {
        self.path@
    }

    /// A cache holding the given entries, stored at `path`.
    pub fn from_parts(path: String, lrc_entries: Vec<LrcEntry>, no_lyrics_entries: Vec<NoLyricsEntry>) -> (c: Self)
        ensures
            c.spec_path() == path@,
            c.lrc() == lrc_entries@.map_values(|e: LrcEntry| e@),
            c.no_lyrics() == no_lyrics_entries@.map_values(|e: NoLyricsEntry| e@),
    {
        LyricContentCache { path, lrc_entries, no_lyrics_entries }
    }

    pub fn path(&self) -> (r: &String)
        ensures
            r@ == self.spec_path(),
    {
        &self.path
    }

    pub fn lrc_entries(&self) -> (r: &[LrcEntry])
        ensures
            r@.map_values(|e: LrcEntry| e@) == self.lrc(),
    {
        self.lrc_entries.as_slice()
    }

    pub fn no_lyrics_entries(&self) -> (r: &[NoLyricsEntry])
        ensures
            r@.map_values(|e: NoLyricsEntry| e@) == self.no_lyrics(),
    {
        self.no_lyrics_entries.as_slice()
    }

    pub fn lrc_count(&self) -> (r: usize)
        ensures
            r == self.lrc().len(),
    {
        self.lrc_entries.len()
    }

    pub fn no_lyrics_count(&self) -> (r: usize)
        ensures
            r == self.no_lyrics().len(),
    {
        self.no_lyrics_entries.len()
    }

    fn find_lrc(&self, key: &String) -> (r: Option<usize>)
        ensures
            r matches Some(i) ==> i == lrc_index(self.lrc(), key@),
            r is None ==> lrc_index(self.lrc(), key@) == -1,
    {
        let mut i: usize = 0;
        while i < self.lrc_entries.len()
            invariant
                i <= self.lrc_entries@.len(),
                lrc_index(self.lrc().take(i as int), key@) == -1,
            decreases self.lrc_entries@.len() - i,
        {
            assert(self.lrc().take(i + 1).drop_last() =~= self.lrc().take(i as int));
            if self.lrc_entries[i].key == *key {
                proof {
                    lemma_lrc_index_bounds(self.lrc().take(i as int), key@);
                    lemma_lrc_index_bounds(self.lrc(), key@);
                    assert(self.lrc()[i as int].key == key@);
                    assert(forall|j: int| 0 <= j < i ==> self.lrc().take(i as int)[j] == self.lrc()[j]);
                }
                return Some(i);
            }
            i = i + 1;
        }
        assert(self.lrc().take(i as int) =~= self.lrc());
        None
    }

    fn find_no_lyrics(&self, key: &String) -> (r: Option<usize>)
        ensures
            r matches Some(i) ==> i == no_lyrics_index(self.no_lyrics(), key@),
            r is None ==> no_lyrics_index(self.no_lyrics(), key@) == -1,
    {
        let mut i: usize = 0;
        while i < self.no_lyrics_entries.len()
            invariant
                i <= self.no_lyrics_entries@.len(),
                no_lyrics_index(self.no_lyrics().take(i as int), key@) == -1,
            decreases self.no_lyrics_entries@.len() - i,
        {
            assert(self.no_lyrics().take(i + 1).drop_last() =~= self.no_lyrics().take(i as int));
            if self.no_lyrics_entries[i].key == *key {
                proof {
                    lemma_no_lyrics_index_bounds(self.no_lyrics().take(i as int), key@);
                    lemma_no_lyrics_index_bounds(self.no_lyrics(), key@);
                    assert(self.no_lyrics()[i as int].key == key@);
                    assert(forall|j: int|
                        0 <= j < i ==> self.no_lyrics().take(i as int)[j] == self.no_lyrics()[j]);
                }
                return Some(i);
            }
            i = i + 1;
        }
        assert(self.no_lyrics().take(i as int) =~= self.no_lyrics());
        None
    }
}


/// Evicting one more entry after `n` evictions is `n + 1` evictions.
proof fn lemma_evict_n_step(lrc: Seq<LrcRecord>, no: Seq<NoLyricsRecord>, n: nat)
    ensures
        evict_n(lrc, no, n + 1) == ({
            let p = evict_n(lrc, no, n);
            evict_one(p.0, p.1)
        }),
    decreases n,
{
    reveal_with_fuel(evict_n, 2);
    let p = evict_one(lrc, no);
    assert(evict_n(lrc, no, n + 1) == evict_n(p.0, p.1, n));
    if n > 0 {
        lemma_evict_n_step(p.0, p.1, (n - 1) as nat);
        assert(evict_n(lrc, no, n) == evict_n(p.0, p.1, (n - 1) as nat));
    }
}

/// One eviction from non-empty lists removes exactly one entry.
proof fn lemma_evict_one_len(lrc: Seq<LrcRecord>, no: Seq<NoLyricsRecord>)
    ensures
        lrc.len() + no.len() > 0 ==> evict_one(lrc, no).0.len() + evict_one(lrc, no).1.len() == lrc.len()
            + no.len() - 1,
{
    lemma_oldest_bounds(lrc_times(lrc));
    lemma_oldest_bounds(no_lyrics_times(no));
}

/// `n` evictions from lists holding at least `n` entries remove exactly `n`.
proof fn lemma_evict_n_len(lrc: Seq<LrcRecord>, no: Seq<NoLyricsRecord>, n: nat)
    requires
        n <= lrc.len() + no.len(),
    ensures
        evict_n(lrc, no, n).0.len() + evict_n(lrc, no, n).1.len() == lrc.len() + no.len() - n,
    decreases n,
{
    if n > 0 {
        lemma_evict_one_len(lrc, no);
        let p = evict_one(lrc, no);
        lemma_evict_n_len(p.0, p.1, (n - 1) as nat);
    }
}

/// After trimming, the cache holds at most `MAX_ENTRIES` entries in total.
pub proof fn lemma_evicted_within_limit(lrc: Seq<LrcRecord>, no: Seq<NoLyricsRecord>)
    ensures
        evicted(lrc, no).0.len() + evicted(lrc, no).1.len() <= MAX_ENTRIES,
        lrc.len() + no.len() > MAX_ENTRIES ==> evicted(lrc, no).0.len() + evicted(lrc, no).1.len()
            == MAX_ENTRIES,
{
    let total = lrc.len() + no.len();
    if total > MAX_ENTRIES {
        lemma_evict_n_len(lrc, no, (total - MAX_ENTRIES) as nat);
    }
}

/// Time source for access stamps: Unix milliseconds from the system clock.
/// Nothing is stated of the value: the clock can be set back, and before the
/// epoch it reads 0.
#[verifier::external_body]
fn unix_ms() -> u64 {
    std::time::SystemTime::now()
        .duration_since(std::time::UNIX_EPOCH)
        .unwrap_or_default()
        .as_millis() as u64
}

impl LyricContentCache {
    /// Returns the raw LRC text if a previous successful fetch is cached,
    /// marking the entry as used now.
    pub fn get_lrc(&mut self, key: &str) -> (r: Option<String>)
        ensures
            final(self).no_lyrics() == old(self).no_lyrics(),
            final(self).spec_path() == old(self).spec_path(),
            r matches Some(t) ==> lrc_lookup(old(self).lrc(), key@) == Some(t@),
            r is None ==> lrc_lookup(old(self).lrc(), key@) is None,
            final(self).lrc().len() == old(self).lrc().len(),
            exists|now: u64| final(self).lrc() == #[trigger] lrc_touched(old(self).lrc(), key@, now),
    {
        let now = unix_ms();
        proof {
            lemma_lrc_index_bounds(self.lrc(), key@);
        }
        let r = self.get_lrc_at(key, now);
        assert(self.lrc() == lrc_touched(old(self).lrc(), key@, now));
        r
    }

    /// `get_lrc` with the access time given.
    pub fn get_lrc_at(&mut self, key: &str, now: u64) -> (r: Option<String>)
        ensures
            final(self).no_lyrics() == old(self).no_lyrics(),
            final(self).spec_path() == old(self).spec_path(),
            ({
                let i = lrc_index(old(self).lrc(), key@);
                &&& i >= 0 ==> (r matches Some(t) && t@ == old(self).lrc()[i].lrc_text)
                &&& i >= 0 ==> final(self).lrc() == old(self).lrc().update(
                    i,
                    LrcRecord {
                        key: old(self).lrc()[i].key,
                        lrc_text: old(self).lrc()[i].lrc_text,
                        accessed_ms: now,
                    },
                )
                &&& i < 0 ==> r is None && final(self).lrc() == old(self).lrc()
            }),
            final(self).lrc() == lrc_touched(old(self).lrc(), key@, now),
    {
        proof {
            lemma_lrc_index_bounds(self.lrc(), key@);
        }
        let k: String = key.to_owned();
        match self.find_lrc(&k) {
            Some(i) => {
                let mut e = self.lrc_entries.remove(i);
                e.accessed_ms = now;
                let t = e.lrc_text.clone();
                self.lrc_entries.insert(i, e);
                assert(self.lrc() =~= old(self).lrc().update(
                    i as int,
                    LrcRecord {
                        key: old(self).lrc()[i as int].key,
                        lrc_text: old(self).lrc()[i as int].lrc_text,
                        accessed_ms: now,
                    },
                ));
                Some(t)
            },
            None => None,
        }
    }

    /// Returns `true` if this track was previously found to have no lyrics,
    /// marking the entry as used now.
    pub fn has_no_lyrics(&mut self, key: &str) -> (r: bool)
        ensures
            final(self).lrc() == old(self).lrc(),
            final(self).spec_path() == old(self).spec_path(),
            r == (no_lyrics_index(old(self).no_lyrics(), key@) >= 0),
            final(self).no_lyrics().len() == old(self).no_lyrics().len(),
            exists|now: u64| final(self).no_lyrics() == #[trigger] no_lyrics_touched(old(self).no_lyrics(), key@, now),
    {
        let now = unix_ms();
        proof {
            lemma_no_lyrics_index_bounds(self.no_lyrics(), key@);
        }
        let r = self.has_no_lyrics_at(key, now);
        assert(self.no_lyrics() == no_lyrics_touched(old(self).no_lyrics(), key@, now));
        r
    }

    /// `has_no_lyrics` with the access time given.
    pub fn has_no_lyrics_at(&mut self, key: &str, now: u64) -> (r: bool)
        ensures
            final(self).lrc() == old(self).lrc(),
            final(self).spec_path() == old(self).spec_path(),
            ({
                let i = no_lyrics_index(old(self).no_lyrics(), key@);
                &&& r == (i >= 0)
                &&& i >= 0 ==> final(self).no_lyrics() == old(self).no_lyrics().update(
                    i,
                    NoLyricsRecord { key: old(self).no_lyrics()[i].key, accessed_ms: now },
                )
                &&& i < 0 ==> final(self).no_lyrics() == old(self).no_lyrics()
            }),
            final(self).no_lyrics() == no_lyrics_touched(old(self).no_lyrics(), key@, now),
    {
        proof {
            lemma_no_lyrics_index_bounds(self.no_lyrics(), key@);
        }
        let k: String = key.to_owned();
        match self.find_no_lyrics(&k) {
            Some(i) => {
                let mut e = self.no_lyrics_entries.remove(i);
                e.accessed_ms = now;
                self.no_lyrics_entries.insert(i, e);
                assert(self.no_lyrics() =~= old(self).no_lyrics().update(
                    i as int,
                    NoLyricsRecord { key: old(self).no_lyrics()[i as int].key, accessed_ms: now },
                ));
                true
            },
            None => false,
        }
    }

    /// Cache a successful LRC fetch. `limit_disabled` comes from the library
    /// settings.
    pub fn insert_lrc(&mut self, key: &str, lrc_text: &str, limit_disabled: bool)
        ensures
            final(self).spec_path() == old(self).spec_path(),
            lrc_index(old(self).lrc(), key@) >= 0 ==> final(self).no_lyrics() == old(self).no_lyrics()
                && lrc_lookup(final(self).lrc(), key@) == Some(lrc_text@),
            limit_disabled ==> final(self).no_lyrics() == old(self).no_lyrics()
                && lrc_lookup(final(self).lrc(), key@) == Some(lrc_text@),
            !limit_disabled && lrc_index(old(self).lrc(), key@) < 0 ==> final(self).lrc().len()
                + final(self).no_lyrics().len() <= MAX_ENTRIES,
            lrc_index(old(self).lrc(), key@) >= 0 || limit_disabled ==> final(self).lrc().len()
                == old(self).lrc().len() + (if lrc_index(old(self).lrc(), key@) >= 0 { 0int } else { 1int }),
            lrc_keys_unique(old(self).lrc()) ==> lrc_keys_unique(final(self).lrc()),
            no_lyrics_keys_unique(old(self).no_lyrics()) ==> no_lyrics_keys_unique(final(self).no_lyrics()),
            exists|now: u64| {
                &&& (final(self).lrc(), final(self).no_lyrics()) == #[trigger] lrc_inserted(
                    old(self).lrc(), old(self).no_lyrics(), key@, lrc_text@, limit_disabled, now)
                &&& used_before(old(self).lrc(), old(self).no_lyrics(), now)
                    ==> lrc_lookup(final(self).lrc(), key@) == Some(lrc_text@)
            },
    {
        let now = unix_ms();
        self.insert_lrc_at(key, lrc_text, limit_disabled, now);
        proof {
            lemma_lrc_inserted(old(self).lrc(), old(self).no_lyrics(), key@, lrc_text@, limit_disabled, now);
        }
    }

    /// `insert_lrc` with the access time given.
    pub fn insert_lrc_at(&mut self, key: &str, lrc_text: &str, limit_disabled: bool, now: u64)
        ensures
            final(self).spec_path() == old(self).spec_path(),
            (final(self).lrc(), final(self).no_lyrics()) == lrc_inserted(
                old(self).lrc(), old(self).no_lyrics(), key@, lrc_text@, limit_disabled, now),
            used_before(old(self).lrc(), old(self).no_lyrics(), now)
                ==> lrc_lookup(final(self).lrc(), key@) == Some(lrc_text@),
    {
        proof {
            lemma_lrc_inserted(old(self).lrc(), old(self).no_lyrics(), key@, lrc_text@, limit_disabled, now);
        }
        proof {
            lemma_lrc_index_bounds(self.lrc(), key@);
        }
        let k: String = key.to_owned();
        let text: String = lrc_text.to_owned();
        match self.find_lrc(&k) {
            Some(i) => {
                let mut e = self.lrc_entries.remove(i);
                e.lrc_text = text;
                e.accessed_ms = now;
                self.lrc_entries.insert(i, e);
                assert(self.lrc() =~= lrc_stored(old(self).lrc(), key@, lrc_text@, now));
                return;
            },
            None => {},
        }
        self.lrc_entries.push(LrcEntry { key: k, lrc_text: text, accessed_ms: now });
        assert(self.lrc() =~= lrc_stored(old(self).lrc(), key@, lrc_text@, now));
        if !limit_disabled {
            self.evict_to_limit();
        }
    }

    /// Cache a "no lyrics" determination for this track.
    pub fn insert_no_lyrics(&mut self, key: &str, limit_disabled: bool)
        ensures
            final(self).spec_path() == old(self).spec_path(),
            no_lyrics_index(final(self).no_lyrics(), key@) >= 0 || !limit_disabled,
            no_lyrics_index(old(self).no_lyrics(), key@) >= 0 ==> final(self).lrc() == old(self).lrc()
                && final(self).no_lyrics() == old(self).no_lyrics(),
            !limit_disabled && no_lyrics_index(old(self).no_lyrics(), key@) < 0 ==> final(self).lrc().len()
                + final(self).no_lyrics().len() <= MAX_ENTRIES,
            limit_disabled && no_lyrics_index(old(self).no_lyrics(), key@) < 0 ==> final(self).lrc() == old(self).lrc()
                && final(self).no_lyrics().len() == old(self).no_lyrics().len() + 1,
            lrc_keys_unique(old(self).lrc()) ==> lrc_keys_unique(final(self).lrc()),
            no_lyrics_keys_unique(old(self).no_lyrics()) ==> no_lyrics_keys_unique(final(self).no_lyrics()),
            exists|now: u64| {
                &&& (final(self).lrc(), final(self).no_lyrics()) == #[trigger] no_lyrics_inserted(
                    old(self).lrc(), old(self).no_lyrics(), key@, limit_disabled, now)
                &&& used_by(old(self).lrc(), old(self).no_lyrics(), now)
                    ==> no_lyrics_index(final(self).no_lyrics(), key@) >= 0
            },
    {
        let now = unix_ms();
        self.insert_no_lyrics_at(key, limit_disabled, now);
        proof {
            lemma_no_lyrics_inserted(old(self).lrc(), old(self).no_lyrics(), key@, limit_disabled, now);
        }
    }

    /// `insert_no_lyrics` with the access time given.
    pub fn insert_no_lyrics_at(&mut self, key: &str, limit_disabled: bool, now: u64)
        ensures
            final(self).spec_path() == old(self).spec_path(),
            (final(self).lrc(), final(self).no_lyrics()) == no_lyrics_inserted(
                old(self).lrc(), old(self).no_lyrics(), key@, limit_disabled, now),
            used_by(old(self).lrc(), old(self).no_lyrics(), now)
                ==> no_lyrics_index(final(self).no_lyrics(), key@) >= 0,
    {
        proof {
            lemma_no_lyrics_inserted(old(self).lrc(), old(self).no_lyrics(), key@, limit_disabled, now);
        }
        let k: String = key.to_owned();
        if self.find_no_lyrics(&k).is_some() {
            return;
        }
        self.no_lyrics_entries.push(NoLyricsEntry { key: k, accessed_ms: now });
        assert(self.no_lyrics() =~= old(self).no_lyrics().push(
            NoLyricsRecord { key: key@, accessed_ms: now },
        ));
        if !limit_disabled {
            self.evict_to_limit();
        }
    }

    /// Remove all cached LRC entries.
    pub fn purge_lrc(&mut self)
        ensures
            final(self).lrc() == Seq::<LrcRecord>::empty(),
            final(self).no_lyrics() == old(self).no_lyrics(),
            final(self).spec_path() == old(self).spec_path(),
    {
        self.lrc_entries.clear();
        assert(self.lrc() =~= Seq::<LrcRecord>::empty());
    }

    /// Remove all "no lyrics" entries.
    pub fn purge_no_lyrics(&mut self)
        ensures
            final(self).no_lyrics() == Seq::<NoLyricsRecord>::empty(),
            final(self).lrc() == old(self).lrc(),
            final(self).spec_path() == old(self).spec_path(),
    {
        self.no_lyrics_entries.clear();
        assert(self.no_lyrics() =~= Seq::<NoLyricsRecord>::empty());
    }

    /// Index of the least recently used LRC entry (the first one on a tie).
    fn oldest_lrc(&self) -> (r: usize)
        requires
            self.lrc().len() > 0,
        ensures
            r == oldest(lrc_times(self.lrc())),
    {
        let ghost t = lrc_times(self.lrc());
        let mut best: usize = 0;
        let mut i: usize = 1;
        assert(t.take(1).len() == 1);
        while i < self.lrc_entries.len()
            invariant
                t == lrc_times(self.lrc()),
                1 <= i <= self.lrc_entries@.len(),
                best == oldest(t.take(i as int)),
                best < i,
            decreases self.lrc_entries@.len() - i,
        {
            proof {
                lemma_oldest_bounds(t.take(i as int));
            }
            assert(t.take(i + 1).drop_last() =~= t.take(i as int));
            if self.lrc_entries[i].accessed_ms < self.lrc_entries[best].accessed_ms {
                best = i;
            }
            i = i + 1;
        }
        assert(t.take(i as int) =~= t);
        best
    }

    /// Index of the least recently used no-lyrics entry (the first one on a tie).
    fn oldest_no_lyrics(&self) -> (r: usize)
        requires
            self.no_lyrics().len() > 0,
        ensures
            r == oldest(no_lyrics_times(self.no_lyrics())),
    {
        let ghost t = no_lyrics_times(self.no_lyrics());
        let mut best: usize = 0;
        let mut i: usize = 1;
        assert(t.take(1).len() == 1);
        while i < self.no_lyrics_entries.len()
            invariant
                t == no_lyrics_times(self.no_lyrics()),
                1 <= i <= self.no_lyrics_entries@.len(),
                best == oldest(t.take(i as int)),
                best < i,
            decreases self.no_lyrics_entries@.len() - i,
        {
            proof {
                lemma_oldest_bounds(t.take(i as int));
            }
            assert(t.take(i + 1).drop_last() =~= t.take(i as int));
            if self.no_lyrics_entries[i].accessed_ms < self.no_lyrics_entries[best].accessed_ms {
                best = i;
            }
            i = i + 1;
        }
        assert(t.take(i as int) =~= t);
        best
    }

    /// Evict oldest entries across both lists until the combined count is
    /// back at the limit.
    fn evict_to_limit(&mut self)
        ensures
            final(self).spec_path() == old(self).spec_path(),
            (final(self).lrc(), final(self).no_lyrics()) == evicted(old(self).lrc(), old(self).no_lyrics()),
    {
        let ghost l0 = self.lrc();
        let ghost n0 = self.no_lyrics();
        let ghost total0 = l0.len() + n0.len();
        loop
            invariant
                self.spec_path() == old(self).spec_path(),
                l0 == old(self).lrc(),
                n0 == old(self).no_lyrics(),
                total0 == l0.len() + n0.len(),
                self.lrc().len() + self.no_lyrics().len() <= total0,
                total0 > MAX_ENTRIES ==> self.lrc().len() + self.no_lyrics().len() >= MAX_ENTRIES,
                total0 <= MAX_ENTRIES ==> self.lrc() == l0 && self.no_lyrics() == n0,
                (self.lrc(), self.no_lyrics()) == evict_n(
                    l0,
                    n0,
                    (total0 - (self.lrc().len() + self.no_lyrics().len())) as nat,
                ),
            ensures
                (self.lrc(), self.no_lyrics()) == evicted(l0, n0),
                self.spec_path() == old(self).spec_path(),
            decreases self.lrc().len() + self.no_lyrics().len(),
        {
            let l = self.lrc_entries.len();
            let n = self.no_lyrics_entries.len();
            if l <= MAX_ENTRIES && n <= MAX_ENTRIES - l {
                return;
            }
            let ghost before = (self.lrc(), self.no_lyrics());
            let ghost k = (total0 - (self.lrc().len() + self.no_lyrics().len())) as nat;
            proof {
                lemma_evict_n_step(l0, n0, k);
                lemma_oldest_bounds(lrc_times(self.lrc()));
                lemma_oldest_bounds(no_lyrics_times(self.no_lyrics()));
            }
            if l > 0 && n > 0 {
                let li = self.oldest_lrc();
                let ni = self.oldest_no_lyrics();
                if self.lrc_entries[li].accessed_ms <= self.no_lyrics_entries[ni].accessed_ms {
                    self.lrc_entries.remove(li);
                    assert(self.lrc() =~= before.0.remove(li as int));
                } else {
                    self.no_lyrics_entries.remove(ni);
                    assert(self.no_lyrics() =~= before.1.remove(ni as int));
                }
            } else if l > 0 {
                let li = self.oldest_lrc();
                self.lrc_entries.remove(li);
                assert(self.lrc() =~= before.0.remove(li as int));
            } else {
                let ni = self.oldest_no_lyrics();
                self.no_lyrics_entries.remove(ni);
                assert(self.no_lyrics() =~= before.1.remove(ni as int));
            }
        }
    }
}

/// The oldest entry's time is no later than any other.
proof fn lemma_oldest_min(t: Seq<u64>)
    ensures
        forall|k: int| 0 <= k < t.len() ==> t[oldest(t)] <= #[trigger] t[k],
    decreases t.len(),
{
    if t.len() > 1 {
        let d = t.drop_last();
        lemma_oldest_min(d);
        lemma_oldest_bounds(d);
        assert forall|k: int| 0 <= k < t.len() implies t[oldest(t)] <= #[trigger] t[k] by {
            if k < d.len() {
                assert(d[k] == t[k]);
                assert(d[oldest(d)] <= d[k]);
            }
        }
    }
}

/// The oldest entry is the first with the smallest time: every entry before
/// it is strictly later.
proof fn lemma_oldest_first(t: Seq<u64>)
    ensures
        forall|k: int| 0 <= k < oldest(t) ==> #[trigger] t[k] > t[oldest(t)],
    decreases t.len(),
{
    if t.len() > 1 {
        let d = t.drop_last();
        lemma_oldest_first(d);
        lemma_oldest_min(d);
        lemma_oldest_bounds(d);
        assert forall|k: int| 0 <= k < oldest(t) implies #[trigger] t[k] > t[oldest(t)] by {
            assert(d[k] == t[k]);
            if oldest(t) < d.len() {
                assert(oldest(t) == oldest(d));
            }
        }
    }
}

/// One eviction keeps the keys of each list distinct.
proof fn lemma_evict_one_unique(lrc: Seq<LrcRecord>, no: Seq<NoLyricsRecord>)
    ensures
        lrc_keys_unique(lrc) ==> lrc_keys_unique(evict_one(lrc, no).0),
        no_lyrics_keys_unique(no) ==> no_lyrics_keys_unique(evict_one(lrc, no).1),
{
    let li = oldest(lrc_times(lrc));
    let ni = oldest(no_lyrics_times(no));
    lemma_oldest_bounds(lrc_times(lrc));
    lemma_oldest_bounds(no_lyrics_times(no));
    if lrc.len() > 0 {
        lrc.remove_ensures(li);
        let r = lrc.remove(li);
        assert(lrc_keys_unique(lrc) ==> lrc_keys_unique(r)) by {
            if lrc_keys_unique(lrc) {
                assert forall|i: int, j: int| 0 <= i < j < r.len() implies (#[trigger] r[i]).key != (#[trigger] r[j]).key by {
                    let a = if i < li { i } else { i + 1 };
                    let b = if j < li { j } else { j + 1 };
                    assert(r[i] == lrc[a]);
                    assert(r[j] == lrc[b]);
                }
            }
        }
    }
    if no.len() > 0 {
        no.remove_ensures(ni);
        let r = no.remove(ni);
        assert(no_lyrics_keys_unique(no) ==> no_lyrics_keys_unique(r)) by {
            if no_lyrics_keys_unique(no) {
                assert forall|i: int, j: int| 0 <= i < j < r.len() implies (#[trigger] r[i]).key != (#[trigger] r[j]).key by {
                    let a = if i < ni { i } else { i + 1 };
                    let b = if j < ni { j } else { j + 1 };
                    assert(r[i] == no[a]);
                    assert(r[j] == no[b]);
                }
            }
        }
    }
}

/// Trimming keeps the keys of each list distinct.
proof fn lemma_evict_n_unique(lrc: Seq<LrcRecord>, no: Seq<NoLyricsRecord>, n: nat)
    ensures
        lrc_keys_unique(lrc) ==> lrc_keys_unique(evict_n(lrc, no, n).0),
        no_lyrics_keys_unique(no) ==> no_lyrics_keys_unique(evict_n(lrc, no, n).1),
    decreases n,
{
    if n > 0 {
        lemma_evict_one_unique(lrc, no);
        let p = evict_one(lrc, no);
        lemma_evict_n_unique(p.0, p.1, (n - 1) as nat);
    }
}

/// The LRC list ends with `rec`, the only entry under its key, and every
/// other entry of both lists was used before it.
pub open spec fn lrc_newest(lrc: Seq<LrcRecord>, no: Seq<NoLyricsRecord>, rec: LrcRecord) -> bool {
    &&& lrc.len() > 0
    &&& lrc.last() == rec
    &&& forall|m: int| 0 <= m < lrc.len() - 1 ==> (#[trigger] lrc[m]).key != rec.key && lrc[m].accessed_ms < rec.accessed_ms
    &&& forall|m: int| 0 <= m < no.len() ==> (#[trigger] no[m]).accessed_ms < rec.accessed_ms
}

/// The no-lyrics list ends with `rec`, the only entry under its key, and no
/// other entry of either list was used after it.
pub open spec fn no_lyrics_newest(lrc: Seq<LrcRecord>, no: Seq<NoLyricsRecord>, rec: NoLyricsRecord) -> bool {
    &&& no.len() > 0
    &&& no.last() == rec
    &&& forall|m: int| 0 <= m < no.len() - 1 ==> (#[trigger] no[m]).key != rec.key && no[m].accessed_ms <= rec.accessed_ms
    &&& forall|m: int| 0 <= m < lrc.len() ==> (#[trigger] lrc[m]).accessed_ms <= rec.accessed_ms
}

/// With another entry left to take, eviction never takes the newest one.
proof fn lemma_evict_one_keeps_newest(lrc: Seq<LrcRecord>, no: Seq<NoLyricsRecord>, lr: LrcRecord, nr: NoLyricsRecord)
    requires
        lrc.len() + no.len() >= 2,
    ensures
        lrc_newest(lrc, no, lr) ==> lrc_newest(evict_one(lrc, no).0, evict_one(lrc, no).1, lr),
        no_lyrics_newest(lrc, no, nr) ==> no_lyrics_newest(evict_one(lrc, no).0, evict_one(lrc, no).1, nr),
{
    let lt = lrc_times(lrc);
    let nt = no_lyrics_times(no);
    let li = oldest(lt);
    let ni = oldest(nt);
    lemma_oldest_bounds(lt);
    lemma_oldest_bounds(nt);
    lemma_oldest_min(lt);
    lemma_oldest_min(nt);
    if lrc.len() > 0 {
        lrc.remove_ensures(li);
    }
    if no.len() > 0 {
        no.remove_ensures(ni);
    }
    let p = evict_one(lrc, no);
    if lrc_newest(lrc, no, lr) {
        if lrc.len() > 1 {
            assert(lt[li] <= lt[0]);
            assert(lt[0] == lrc[0].accessed_ms);
            assert(li != lrc.len() - 1);
        }
        if lrc.len() == 1 {
            assert(no.len() > 0);
            assert(no[ni].accessed_ms < lr.accessed_ms);
            assert(lrc[li].accessed_ms == lr.accessed_ms);
        }
        if p.0 == lrc {
            assert(p.1.len() == no.len() - 1);
            assert forall|m: int| 0 <= m < p.1.len() implies (#[trigger] p.1[m]).accessed_ms < lr.accessed_ms by {
                if m < ni {
                    assert(p.1[m] == no[m]);
                } else {
                    assert(p.1[m] == no[m + 1]);
                }
            }
        } else {
            assert(p.0 == lrc.remove(li));
            assert(p.1 == no);
            assert(p.0.last() == lrc.last());
            assert forall|m: int| 0 <= m < p.0.len() - 1 implies (#[trigger] p.0[m]).key != lr.key
                && p.0[m].accessed_ms < lr.accessed_ms by {
                if m < li {
                    assert(p.0[m] == lrc[m]);
                } else {
                    assert(p.0[m] == lrc[m + 1]);
                }
            }
        }
    }
    if no_lyrics_newest(lrc, no, nr) {
        lemma_oldest_first(nt);
        if no.len() > 1 {
            assert(nt[0] == no[0].accessed_ms);
            if ni == no.len() - 1 {
                assert(nt[0] > nt[ni]);
            }
            assert(ni != no.len() - 1);
        }
        if no.len() == 1 {
            assert(lrc.len() > 0);
            assert(lrc[li].accessed_ms <= nr.accessed_ms);
            assert(no[ni].accessed_ms == nr.accessed_ms);
        }
        if p.1 == no {
            assert(p.0.len() == lrc.len() - 1);
            assert forall|m: int| 0 <= m < p.0.len() implies (#[trigger] p.0[m]).accessed_ms <= nr.accessed_ms by {
                if m < li {
                    assert(p.0[m] == lrc[m]);
                } else {
                    assert(p.0[m] == lrc[m + 1]);
                }
            }
        } else {
            assert(p.1 == no.remove(ni));
            assert(p.0 == lrc);
            assert(p.1.last() == no.last());
            assert forall|m: int| 0 <= m < p.1.len() - 1 implies (#[trigger] p.1[m]).key != nr.key
                && p.1[m].accessed_ms <= nr.accessed_ms by {
                if m < ni {
                    assert(p.1[m] == no[m]);
                } else {
                    assert(p.1[m] == no[m + 1]);
                }
            }
        }
    }
}

/// Evictions that leave at least one entry never take the newest one.
proof fn lemma_evict_n_keeps_newest(lrc: Seq<LrcRecord>, no: Seq<NoLyricsRecord>, n: nat, lr: LrcRecord, nr: NoLyricsRecord)
    requires
        n < lrc.len() + no.len(),
    ensures
        lrc_newest(lrc, no, lr) ==> lrc_newest(evict_n(lrc, no, n).0, evict_n(lrc, no, n).1, lr),
        no_lyrics_newest(lrc, no, nr) ==> no_lyrics_newest(evict_n(lrc, no, n).0, evict_n(lrc, no, n).1, nr),
    decreases n,
{
    if n > 0 {
        lemma_evict_one_keeps_newest(lrc, no, lr, nr);
        lemma_evict_one_len(lrc, no);
        let p = evict_one(lrc, no);
        lemma_evict_n_keeps_newest(p.0, p.1, (n - 1) as nat, lr, nr);
    }
}

/// Storing lyrics gives a lookup of the key that text; existing entries keep
/// their keys, so no key comes to occur twice; the count grows by one for a
/// new key and stays for a known one unless the limit trims it; and when
/// every entry was used before `now`, the limit never trims the entry just
/// stored, nor lets the lists pass `MAX_ENTRIES` for a new key.
pub proof fn lemma_lrc_inserted(
    lrc: Seq<LrcRecord>,
    no: Seq<NoLyricsRecord>,
    key: Seq<char>,
    text: Seq<char>,
    limit_disabled: bool,
    now: u64,
)
    ensures
        ({
            let r = lrc_inserted(lrc, no, key, text, limit_disabled, now);
            &&& lrc_index(lrc, key) >= 0 || limit_disabled ==> r.1 == no
                && lrc_lookup(r.0, key) == Some(text)
                && r.0.len() == lrc.len() + (if lrc_index(lrc, key) >= 0 { 0int } else { 1int })
            &&& lrc_keys_unique(lrc) ==> lrc_keys_unique(r.0)
            &&& no_lyrics_keys_unique(no) ==> no_lyrics_keys_unique(r.1)
            &&& !limit_disabled && lrc_index(lrc, key) < 0 ==> r.0.len() + r.1.len() <= MAX_ENTRIES
            &&& used_before(lrc, no, now) ==> lrc_lookup(r.0, key) == Some(text)
        }),
{
    lemma_lrc_index_bounds(lrc, key);
    lemma_lookup_after_store(lrc, key, text, now);
    let st = lrc_stored(lrc, key, text, now);
    let i = lrc_index(lrc, key);
    lemma_evicted_within_limit(st, no);
    if lrc_keys_unique(lrc) {
        assert forall|a: int, b: int| 0 <= a < b < st.len() implies (#[trigger] st[a]).key != (#[trigger] st[b]).key by {
            if b == lrc.len() {
                assert(st[a] == lrc[a]);
            } else {
                assert(st[a].key == lrc[a].key);
                assert(st[b].key == lrc[b].key);
            }
        }
    }
    let total = st.len() + no.len();
    if total > MAX_ENTRIES {
        lemma_evict_n_unique(st, no, (total - MAX_ENTRIES) as nat);
    }
    if !limit_disabled && i < 0 && used_before(lrc, no, now) {
        let rec = LrcRecord { key, lrc_text: text, accessed_ms: now };
        assert(st.last() == rec);
        assert forall|m: int| 0 <= m < st.len() - 1 implies (#[trigger] st[m]).key != rec.key
            && st[m].accessed_ms < rec.accessed_ms by {
            assert(st[m] == lrc[m]);
        }
        assert(lrc_newest(st, no, rec));
        let r = evicted(st, no);
        if total > MAX_ENTRIES {
            lemma_evict_n_keeps_newest(st, no, (total - MAX_ENTRIES) as nat, rec, NoLyricsRecord { key, accessed_ms: now });
        }
        assert(lrc_newest(r.0, r.1, rec));
        lemma_lrc_index_bounds(r.0, key);
        assert(r.0[r.0.len() - 1].key == key);
        assert(lrc_index(r.0, key) == r.0.len() - 1);
    }
}

/// Recording "no lyrics" changes nothing for a known key, so recording it
/// again changes nothing; a new key is appended (one more entry, with the
/// limit off); no key comes to occur twice; the limit never lets the lists
/// pass `MAX_ENTRIES` for a new key; and when no entry was used after `now`
/// (the clock has not gone back), the key just recorded is never trimmed.
pub proof fn lemma_no_lyrics_inserted(
    lrc: Seq<LrcRecord>,
    no: Seq<NoLyricsRecord>,
    key: Seq<char>,
    limit_disabled: bool,
    now: u64,
)
    ensures
        ({
            let r = no_lyrics_inserted(lrc, no, key, limit_disabled, now);
            &&& no_lyrics_index(no, key) >= 0 ==> r == (lrc, no)
            &&& no_lyrics_index(no, key) < 0 && limit_disabled ==> r.0 == lrc && r.1.len() == no.len() + 1
            &&& limit_disabled ==> no_lyrics_index(r.1, key) >= 0
            &&& lrc_keys_unique(lrc) ==> lrc_keys_unique(r.0)
            &&& no_lyrics_keys_unique(no) ==> no_lyrics_keys_unique(r.1)
            &&& !limit_disabled && no_lyrics_index(no, key) < 0 ==> r.0.len() + r.1.len() <= MAX_ENTRIES
            &&& used_by(lrc, no, now) ==> no_lyrics_index(r.1, key) >= 0
            &&& limit_disabled || used_by(lrc, no, now) ==> forall|later: u64|
                #[trigger] no_lyrics_inserted(r.0, r.1, key, limit_disabled, later) == r
        }),
{
    lemma_no_lyrics_index_bounds(no, key);
    let rec = NoLyricsRecord { key, accessed_ms: now };
    let pushed = no.push(rec);
    lemma_no_lyrics_index_bounds(pushed, key);
    assert(pushed[pushed.len() - 1].key == key);
    lemma_evicted_within_limit(lrc, pushed);
    let i = no_lyrics_index(no, key);
    if no_lyrics_keys_unique(no) && i < 0 {
        assert forall|a: int, b: int| 0 <= a < b < pushed.len() implies (#[trigger] pushed[a]).key != (#[trigger] pushed[b]).key by {
            assert(pushed[a] == no[a]);
        }
    }
    let total = lrc.len() + pushed.len();
    if total > MAX_ENTRIES {
        lemma_evict_n_unique(lrc, pushed, (total - MAX_ENTRIES) as nat);
    }
    if !limit_disabled && i < 0 && used_by(lrc, no, now) {
        assert forall|m: int| 0 <= m < pushed.len() - 1 implies (#[trigger] pushed[m]).key != rec.key
            && pushed[m].accessed_ms <= rec.accessed_ms by {
            assert(pushed[m] == no[m]);
        }
        assert(no_lyrics_newest(lrc, pushed, rec));
        let r = evicted(lrc, pushed);
        if total > MAX_ENTRIES {
            lemma_evict_n_keeps_newest(lrc, pushed, (total - MAX_ENTRIES) as nat, LrcRecord { key, lrc_text: Seq::empty(), accessed_ms: now }, rec);
        }
        assert(no_lyrics_newest(r.0, r.1, rec));
        lemma_no_lyrics_index_bounds(r.1, key);
        assert(r.1[r.1.len() - 1].key == key);
    }
}

/// What a lookup finds right after storing: the text just stored.
proof fn lemma_lookup_after_store(s: Seq<LrcRecord>, key: Seq<char>, text: Seq<char>, now: u64)
    ensures
        lrc_lookup(lrc_stored(s, key, text, now), key) == Some(text),
{
    lemma_lrc_index_bounds(s, key);
    let st = lrc_stored(s, key, text, now);
    lemma_lrc_index_bounds(st, key);
    let i = lrc_index(s, key);
    let j = lrc_index(st, key);
    if i >= 0 {
        assert(st[i].key == key);
        assert(forall|m: int| 0 <= m < i ==> st[m] == s[m]);
    } else {
        assert(st[s.len() as int].key == key);
        assert(forall|m: int| 0 <= m < s.len() ==> st[m] == s[m]);
    }
}

/// Storing lyrics without the entry limit and then looking the key up finds
/// exactly what was stored.
pub proof fn lemma_read_after_store(s: Seq<LrcRecord>, key: Seq<char>, text: Seq<char>, now: u64)
    ensures
        lrc_lookup(lrc_stored(s, key, text, now), key) == Some(text),
{
    lemma_lookup_after_store(s, key, text, now);
}

/// The lookup key for a CD track: `cd:<disc id>:<track index>`.
pub open spec fn spec_cd_key(disc_id: Seq<char>, track_num: int) -> Seq<char> {
    seq!['c', 'd', ':'] + disc_id + seq![':'] + signed_decimal(track_num)
}

/// The lookup key for a file track: `file:<path>` when the path is known,
/// else `track:<title>:<artist>` with both trimmed and lower-cased.
pub open spec fn spec_file_key(path: Seq<char>, title: Seq<char>, artist: Seq<char>) -> Seq<char> {
    if path.len() > 0 {
        seq!['f', 'i', 'l', 'e', ':'] + path
    } else {
        seq!['t', 'r', 'a', 'c', 'k', ':'] + str_lowercase(trimmed(title)) + seq![':']
            + str_lowercase(trimmed(artist))
    }
}

/// Build the lookup key for a CD track.
pub fn cd_key(disc_id: &str, track_num: i32) -> (r: String)
    ensures
        r@ == spec_cd_key(disc_id@, track_num as int),
{
    let mut out: Vec<char> = Vec::new();
    out.push('c');
    out.push('d');
    out.push(':');
    push_str_chars(&mut out, disc_id);
    out.push(':');
    push_signed_decimal(&mut out, track_num as i64);
    assert(out@ =~= spec_cd_key(disc_id@, track_num as int));
    string_from_chars(out.as_slice())
}

/// Build the lookup key for a file track (prefer the path; fall back to
/// title and artist).
pub fn file_key(path: &str, title: &str, artist: &str) -> (r: String)
    ensures
        r@ == spec_file_key(path@, title@, artist@),
{
    let mut out: Vec<char> = Vec::new();
    if !path.is_empty() {
        push_str_chars(&mut out, "file:");
        push_str_chars(&mut out, path);
    } else {
        push_str_chars(&mut out, "track:");
        let t = trim_str(title);
        let tl = to_lowercase(t.as_str());
        push_str_chars(&mut out, tl.as_str());
        out.push(':');
        let a = trim_str(artist);
        let al = to_lowercase(a.as_str());
        push_str_chars(&mut out, al.as_str());
    }
    proof {
        reveal_strlit("file:");
        reveal_strlit("track:");
    }
    assert(out@ =~= spec_file_key(path@, title@, artist@));
    string_from_chars(out.as_slice())
}
} // verus!
