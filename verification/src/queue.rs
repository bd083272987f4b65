//! In-memory play queue shared by the GUI and TUI frontends.
//!
//! Entries play ahead of whatever the album or disc would have played next;
//! once the queue drains, playback returns to the interrupted album. The queue
//! is a scratch list for the current session and is not persisted.

use vstd::prelude::*;
use crate::file_player::{mm_ss, LocalTrack};
use crate::paths::{file_stem, file_stem_of};

verus! {

/// One queued song. Only local files can be queued; a CD track has no path
/// that survives the disc being swapped.
#[derive(Clone, Debug)]
pub struct QueueEntry {
    pub path: String,
    pub title: String,
    pub artist: String,
    /// Pre-formatted mm:ss, so both frontends render the same string.
    pub duration: String,
}

/// The title a queue entry shows for a track: its tag, or its file name
/// without the extension when it has no title.
pub open spec fn entry_title(path: Seq<char>, title: Seq<char>) -> Seq<char> {
    if title.len() == 0 {
        match file_stem(path) {
            Some(s) => s,
            None => Seq::empty(),
        }
    } else {
        title
    }
}

impl QueueEntry {
    /// The entry for a track read from its file.
    pub fn from_track(t: &LocalTrack) -> (e: QueueEntry)
        ensures
            e.path@ == t.path@,
            e.title@ == entry_title(t.path@, t.title@),
            e.artist@ == t.artist@,
            e.duration@ == mm_ss(t.duration_secs as nat),
    {
        let title = if t.title.as_str().is_empty() {
            match file_stem_of(t.path.as_str()) {
                Some(v) => crate::text::string_from_chars(v.as_slice()),
                None => String::new(),
            }
        } else {
            t.title.clone()
        };
        QueueEntry { path: t.path.clone(), title, artist: t.artist.clone(), duration: t.display_duration() }
    }
}

pub struct Queue {
    entries: Vec<QueueEntry>,
}

impl View for Queue {
    type V = Seq<QueueEntry>;

    closed spec fn view(&self) -> Seq<QueueEntry> {
        self.entries@
    }
}

/// The sequence after moving the entry at `from` to position `to`, the
/// destination clamped to the last position. An out-of-range `from`, or a move
/// onto itself, leaves the sequence as it is.
pub open spec fn moved<T>(s: Seq<T>, from: int, to: int) -> Seq<T> {
    if from < 0 || from >= s.len() || from == to {
        s
    } else {
        let dest = if to < s.len() - 1 { to } else { s.len() - 1 };
        s.remove(from).insert(dest, s[from])
    }
}

impl Queue {
    pub fn new() -> (q: Queue)
        ensures
            q@ == Seq::<QueueEntry>::empty(),
    {
        Queue { entries: Vec::new() }
    }

    pub fn entries(&self) -> (r: &[QueueEntry])
        ensures
            r@ == self@,
    {
        self.entries.as_slice()
    }

    pub fn len(&self) -> (r: usize)
        ensures
            r == self@.len(),
    {
        self.entries.len()
    }

    pub fn is_empty(&self) -> (r: bool)
        ensures
            r == (self@.len() == 0),
    {
        self.entries.len() == 0
    }

    /// Append the entries for every audio file found under the paths the user
    /// picked (files and folders alike, so an album, a folder or a single
    /// song all go through here). Returns how many entries were added.
    pub fn extend_from_paths(&mut self, found: Vec<QueueEntry>) -> (added: usize)
        ensures
            final(self)@ == old(self)@ + found@,
            added == found@.len(),
    {
        let added = found.len();
        let mut found = found;
        self.entries.append(&mut found);
        added
    }

    pub fn pop_front(&mut self) -> (r: Option<QueueEntry>)
        ensures
            old(self)@.len() == 0 ==> r is None && final(self)@ == old(self)@,
            old(self)@.len() > 0 ==> r == Some(old(self)@[0]) && final(self)@ == old(
                self,
            )@.drop_first(),
    {
        if self.entries.len() == 0 {
            None
        } else {
            Some(self.entries.remove(0))
        }
    }

    /// Remove and return one entry, ignoring an out-of-range index.
    pub fn remove(&mut self, index: usize) -> (r: Option<QueueEntry>)
        ensures
            index >= old(self)@.len() ==> r is None && final(self)@ == old(self)@,
            index < old(self)@.len() ==> r == Some(old(self)@[index as int]) && final(self)@
                == old(self)@.remove(index as int),
    {
        if index < self.entries.len() {
            Some(self.entries.remove(index))
        } else {
            None
        }
    }

    /// Move an entry to another position, clamping the destination. Used by
    /// the GUI's drag-and-drop and the TUI's move up/down keys.
    pub fn move_entry(&mut self, from: usize, to: usize)
        ensures
            final(self)@ == moved(old(self)@, from as int, to as int),
    {
        if from >= self.entries.len() || from == to {
            return;
        }
        let last = self.entries.len() - 1;
        let dest = if to < last { to } else { last };
        let entry = self.entries.remove(from);
        self.entries.insert(dest, entry);
    }

    pub fn clear(&mut self)
        ensures
            final(self)@ == Seq::<QueueEntry>::empty(),
    {
        self.entries.clear();
    }
}

/// Moving an entry keeps every entry: the queue holds the same multiset of
/// songs before and after, and the same number of them.
pub proof fn lemma_move_keeps_entries<T>(s: Seq<T>, from: int, to: int)
    requires
        0 <= to,
    ensures
        moved(s, from, to).len() == s.len(),
        moved(s, from, to).to_multiset() =~= s.to_multiset(),
{
    broadcast use vstd::seq_lib::group_to_multiset_ensures;

    if !(from < 0 || from >= s.len() || from == to) {
        let dest = if to < s.len() - 1 { to } else { s.len() - 1 };
        let r = s.remove(from);
        vstd::seq_lib::to_multiset_remove(s, from);
        vstd::seq_lib::to_multiset_insert(r, dest, s[from]);
        vstd::seq_lib::to_multiset_len(s);
        vstd::seq_lib::to_multiset_len(r.insert(dest, s[from]));
    }
}

/// Moving an entry from `from` to an in-range `to` and back again restores
/// the order it started from.
pub proof fn lemma_move_round_trip<T>(s: Seq<T>, from: int, to: int)
    requires
        0 <= from < s.len(),
        0 <= to < s.len(),
    ensures
        moved(moved(s, from, to), to, from) =~= s,
{
    if from != to {
        let r = s.remove(from);
        let m = r.insert(to, s[from]);
        assert(moved(s, from, to) == m);
        assert(m[to] == s[from]);
        assert(m.remove(to) =~= r) by {
            assert forall|i: int| 0 <= i < r.len() implies #[trigger] m.remove(to)[i] == r[i] by {
                if i < to {
                    assert(m[i] == r[i]);
                } else {
                    assert(m[i + 1] == r[i]);
                }
            }
        }
        assert(r.insert(from, s[from]) =~= s) by {
            assert forall|i: int| 0 <= i < s.len() implies #[trigger] r.insert(from, s[from])[i] == s[i] by {
                if i > from {
                    assert(r[i - 1] == s[i]);
                }
            }
        }
        assert(moved(m, to, from) == m.remove(to).insert(from, m[to]));
    }
}

} // verus!
