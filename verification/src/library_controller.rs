//! Browsing state of the library view: the back/forward history of folders,
//! the settings the user edits from the view, and the albums the current scan
//! has produced so far.
//!
//! The frontends persist the settings, run the scanner and render the tiles;
//! this module decides what each user action changes.

use vstd::prelude::*;
use crate::library::{LibraryAlbum, LibrarySettings, LibraryScanResult, str_views, album_views, AlbumRec};
use crate::lyric_cache::{LyricContentCache, LrcRecord, NoLyricsRecord};
use crate::paths::{same_path, same_path_str, chars_eq};
use crate::text::chars_of;

verus! {

/// Whether `v` holds a path equal to `p` (compared component by component,
/// as `Path`'s `==` does).
pub open spec fn has_path(v: Seq<Seq<char>>, p: Seq<char>) -> bool {
    exists|i: int| 0 <= i < v.len() && same_path(#[trigger] v[i], p)
}

pub open spec fn other_path(p: Seq<char>) -> spec_fn(Seq<char>) -> bool {
    |x: Seq<char>| !same_path(x, p)
}

/// `v` without the paths equal to `p`.
pub open spec fn without_path(v: Seq<Seq<char>>, p: Seq<char>) -> Seq<Seq<char>> {
    v.filter(other_path(p))
}

/// `v` with `p` added at the end, unless an equal path is already there.
pub open spec fn with_path(v: Seq<Seq<char>>, p: Seq<char>) -> Seq<Seq<char>> {
    if has_path(v, p) {
        v
    } else {
        v.push(p)
    }
}

/// Whether `v` holds a path equal to `p`.
pub fn contains_path(v: &Vec<String>, p: &str) -> (r: bool)
    ensures
        r == has_path(str_views(v@), p@),
{
    let mut i: usize = 0;
    while i < v.len()
        invariant
            i <= v@.len(),
            forall|j: int| 0 <= j < i ==> !same_path(#[trigger] str_views(v@)[j], p@),
        decreases v@.len() - i,
    {
        if same_path_str(v[i].as_str(), p) {
            assert(same_path(str_views(v@)[i as int], p@));
            return true;
        }
        i = i + 1;
    }
    false
}

/// Drop every path equal to `p` from `v`.
pub fn remove_path(v: &mut Vec<String>, p: &str)
    ensures
        str_views(final(v)@) == without_path(str_views(old(v)@), p@),
{
    let ghost s = str_views(v@);
    let mut kept: Vec<String> = Vec::new();
    let mut i: usize = 0;
    while i < v.len()
        invariant
            i <= v@.len(),
            s == str_views(v@),
            str_views(kept@) == s.take(i as int).filter(other_path(p@)),
        decreases v@.len() - i,
    {
        let ghost k0 = kept@;
        assert(s.take(i + 1) =~= s.take(i as int).push(s[i as int]));
        proof {
            s.take(i as int).lemma_filter_push(s[i as int], other_path(p@));
        }
        if !same_path_str(v[i].as_str(), p) {
            kept.push(v[i].clone());
            assert(str_views(kept@) =~= str_views(k0).push(s[i as int]));
        }
        i = i + 1;
    }
    assert(s.take(i as int) =~= s);
    *v = kept;
}

/// Add `p` to `v` unless an equal path is there. Returns whether it was added.
pub fn add_path(v: &mut Vec<String>, p: String) -> (added: bool)
    ensures
        str_views(final(v)@) == with_path(str_views(old(v)@), p@),
        added == !has_path(str_views(old(v)@), p@),
{
    if contains_path(v, p.as_str()) {
        return false;
    }
    let ghost s = str_views(v@);
    v.push(p);
    assert(str_views(v@) =~= s.push(p@));
    true
}

/// The label of the library view when no folder is open.
pub open spec fn root_label() -> Seq<char> {
    seq!['L', 'i', 'b', 'r', 'a', 'r', 'y']
}

/// The actions offered on a folder tile, by their names.
pub open spec fn option_named(o: Seq<char>, name: Seq<char>) -> bool {
    o == name
}

/// `b` is `a` after opening folder `p`: the forward history dropped and `p`
/// the newest entry, shown.
pub open spec fn navigated_to(a: LibraryController, b: LibraryController, p: Seq<char>) -> bool {
    &&& b.history() == (if a.nav_stack@.len() == 0 {
        seq![p]
    } else {
        a.history().take(a.nav_idx + 1).push(p)
    })
    &&& b.nav_idx == b.nav_stack@.len() - 1
    &&& b.settings == a.settings
    &&& b.scan_result == a.scan_result
}

/// `b` is `a` one step back in the history (or `a` itself at its start).
pub open spec fn stepped_back(a: LibraryController, b: LibraryController) -> bool {
    &&& b.nav_stack == a.nav_stack
    &&& b.nav_idx == (if a.nav_idx > 0 {
        a.nav_idx - 1
    } else {
        0
    })
    &&& b.settings == a.settings
    &&& b.scan_result == a.scan_result
}

/// `b` is `a` one step forward in the history (or `a` itself at its end).
pub open spec fn stepped_forward(a: LibraryController, b: LibraryController) -> bool {
    &&& b.nav_stack == a.nav_stack
    &&& b.nav_idx == (if a.nav_idx + 1 < a.nav_stack@.len() {
        a.nav_idx + 1
    } else {
        a.nav_idx as int
    })
    &&& b.settings == a.settings
    &&& b.scan_result == a.scan_result
}

/// The library view's state.
pub struct LibraryController {
    pub settings: LibrarySettings,
    /// Albums of the latest scan (or of the one in progress, as they arrive).
    pub scan_result: Option<LibraryScanResult>,
    /// Folders opened, oldest first; the view shows `nav_stack[nav_idx]`,
    /// or the library root when the history is empty.
    pub nav_stack: Vec<String>,
    pub nav_idx: usize,
}

impl LibraryController {
    /// The history position is a valid index, and 0 when the history is empty.
    pub open spec fn wf(&self) -> bool {
        if self.nav_stack@.len() == 0 {
            self.nav_idx == 0
        } else {
            self.nav_idx < self.nav_stack@.len()
        }
    }

    pub open spec fn history(&self) -> Seq<Seq<char>> {
        str_views(self.nav_stack@)
    }

    /// The folder shown, or `None` at the library root.
    pub open spec fn shown(&self) -> Option<Seq<char>> {
        if self.nav_stack@.len() == 0 {
            None
        } else {
            Some(self.history()[self.nav_idx as int])
        }
    }

    /// A controller at the library root with the given settings.
    pub fn new(settings: LibrarySettings) -> (c: LibraryController)
        ensures
            c.wf(),
            c.settings == settings,
            c.scan_result is None,
            c.nav_stack@.len() == 0,
    {
        LibraryController { settings, scan_result: None, nav_stack: Vec::new(), nav_idx: 0 }
    }

    /// Whether at least one folder to scan is set.
    pub fn music_dir_set(&self) -> (r: bool)
        ensures
            r == (self.settings.search_paths@.len() > 0),
    {
        self.settings.search_paths.len() > 0
    }

    /// Open folder `path`: the forward history is dropped and `path` becomes
    /// the newest entry.
    pub fn navigate_to(&mut self, path: String)
        requires
            old(self).wf(),
            old(self).nav_stack@.len() < usize::MAX,
        ensures
            final(self).wf(),
            navigated_to(*old(self), *final(self), path@),
            final(self).shown() == Some(path@),
    {
        let ghost h = self.history();
        let ghost v0 = self.nav_stack@;
        let idx = self.nav_idx;
        let len = self.nav_stack.len();
        if idx + 1 < len {
            self.nav_stack.truncate(idx + 1);
            assert(self.nav_stack@ =~= v0.take(idx + 1));
            assert(str_views(self.nav_stack@) =~= h.take(idx + 1));
        } else if len > 0 {
            assert(h.take(idx + 1) =~= h);
        }
        self.nav_stack.push(path);
        self.nav_idx = self.nav_stack.len() - 1;
        assert(self.history() =~= if len == 0 {
            seq![path@]
        } else {
            h.take(idx + 1).push(path@)
        });
    }

    /// Go back one folder, if there is one.
    pub fn navigate_back(&mut self)
        requires
            old(self).wf(),
        ensures
            final(self).wf(),
            stepped_back(*old(self), *final(self)),
    {
        if self.nav_idx > 0 {
            self.nav_idx = self.nav_idx - 1;
        }
    }

    /// Go forward one folder, if the history has one.
    pub fn navigate_forward(&mut self)
        requires
            old(self).wf(),
        ensures
            final(self).wf(),
            stepped_forward(*old(self), *final(self)),
    {
        let l = self.nav_stack.len();
        if self.nav_idx + 1 < l {
            self.nav_idx = self.nav_idx + 1;
        }
    }

    /// Back to the library root; the history is cleared.
    pub fn navigate_to_root(&mut self)
        ensures
            final(self).wf(),
            final(self).nav_stack@.len() == 0,
            final(self).shown() is None,
            final(self).settings == old(self).settings,
            final(self).scan_result == old(self).scan_result,
    {
        self.nav_stack.clear();
        self.nav_idx = 0;
    }

    pub fn can_go_back(&self) -> (r: bool)
        ensures
            r == (self.nav_idx > 0),
    {
        self.nav_idx > 0
    }

    pub fn can_go_forward(&self) -> (r: bool)
        ensures
            r == (self.nav_idx + 1 < self.nav_stack@.len()),
    {
        self.nav_idx < self.nav_stack.len() && self.nav_idx + 1 < self.nav_stack.len()
    }

    /// The folder shown, or `None` at the library root.
    pub fn current_dir(&self) -> (r: Option<String>)
        requires
            self.wf(),
        ensures
            r matches Some(p) ==> self.shown() == Some(p@),
            r is None ==> self.shown() is None,
    {
        if self.nav_stack.len() == 0 {
            None
        } else {
            Some(self.nav_stack[self.nav_idx].clone())
        }
    }

    /// The title of the view: the folder shown, or `Library` at the root.
    pub fn current_path(&self) -> (r: String)
        requires
            self.wf(),
        ensures
            r@ == (match self.shown() {
                Some(p) => p,
                None => root_label(),
            }),
    {
        match self.current_dir() {
            Some(p) => p,
            None => {
                let r = String::from_str("Library");
                proof {
                    reveal_strlit("Library");
                }
                r
            },
        }
    }

    /// Add a folder to scan (from the first-run picker). Returns whether the
    /// settings changed; either way the caller rescans.
    pub fn set_music_dir(&mut self, path: String) -> (added: bool)
        ensures
            str_views(final(self).settings.search_paths@) == with_path(
                str_views(old(self).settings.search_paths@),
                path@,
            ),
            added == !has_path(str_views(old(self).settings.search_paths@), path@),
            final(self).nav_stack == old(self).nav_stack,
            final(self).nav_idx == old(self).nav_idx,
            final(self).scan_result == old(self).scan_result,
    {
        add_path(&mut self.settings.search_paths, path)
    }

    /// Add a folder to scan, if it exists and is not listed already. Returns
    /// whether it was added (then the caller saves and rescans).
    pub fn add_search_path(&mut self, path: String, exists: bool) -> (added: bool)
        ensures
            added == (exists && !has_path(str_views(old(self).settings.search_paths@), path@)),
            str_views(final(self).settings.search_paths@) == (if exists {
                with_path(str_views(old(self).settings.search_paths@), path@)
            } else {
                str_views(old(self).settings.search_paths@)
            }),
            final(self).nav_stack == old(self).nav_stack,
            final(self).nav_idx == old(self).nav_idx,
            final(self).scan_result == old(self).scan_result,
    {
        if !exists {
            return false;
        }
        add_path(&mut self.settings.search_paths, path)
    }

    /// Stop scanning a folder. Returns whether any folder to scan is left.
    pub fn remove_search_path(&mut self, path: &str) -> (any_left: bool)
        ensures
            str_views(final(self).settings.search_paths@) == without_path(
                str_views(old(self).settings.search_paths@),
                path@,
            ),
            any_left == (final(self).settings.search_paths@.len() > 0),
            final(self).nav_stack == old(self).nav_stack,
            final(self).nav_idx == old(self).nav_idx,
            final(self).scan_result == old(self).scan_result,
    {
        remove_path(&mut self.settings.search_paths, path);
        self.settings.search_paths.len() > 0
    }

    /// Apply a folder tile action: `merge`, `merge_remove`, `ignore`,
    /// `ignore_remove`, `pin` or `unpin`. Any other name changes nothing.
    pub fn set_folder_option(&mut self, path: String, option: &str)
        ensures
            final(self).nav_stack == old(self).nav_stack,
            final(self).nav_idx == old(self).nav_idx,
            final(self).scan_result == old(self).scan_result,
            final(self).settings.search_paths == old(self).settings.search_paths,
            str_views(final(self).settings.merged_folders@) == (if option@ == seq!['m', 'e', 'r', 'g', 'e'] {
                with_path(str_views(old(self).settings.merged_folders@), path@)
            } else if option@ == seq!['m', 'e', 'r', 'g', 'e', '_', 'r', 'e', 'm', 'o', 'v', 'e'] {
                without_path(str_views(old(self).settings.merged_folders@), path@)
            } else {
                str_views(old(self).settings.merged_folders@)
            }),
            str_views(final(self).settings.ignored_folders@) == (if option@ == seq!['i', 'g', 'n', 'o', 'r', 'e'] {
                with_path(str_views(old(self).settings.ignored_folders@), path@)
            } else if option@ == seq!['i', 'g', 'n', 'o', 'r', 'e', '_', 'r', 'e', 'm', 'o', 'v', 'e'] {
                without_path(str_views(old(self).settings.ignored_folders@), path@)
            } else {
                str_views(old(self).settings.ignored_folders@)
            }),
            str_views(final(self).settings.pinned_paths@) == (if option@ == seq!['p', 'i', 'n'] {
                with_path(str_views(old(self).settings.pinned_paths@), path@)
            } else if option@ == seq!['u', 'n', 'p', 'i', 'n'] {
                without_path(str_views(old(self).settings.pinned_paths@), path@)
            } else {
                str_views(old(self).settings.pinned_paths@)
            }),
            final(self).settings.merge_all_folders == old(self).settings.merge_all_folders,
            final(self).settings.lrc_limit_disabled == old(self).settings.lrc_limit_disabled,
            final(self).settings.romanize_lyrics == old(self).settings.romanize_lyrics,
            final(self).settings.discord_rpc == old(self).settings.discord_rpc,
    {
        let o = chars_of(option);
        let s = o.as_slice();
        assert(['m', 'e', 'r', 'g', 'e']@ =~= seq!['m', 'e', 'r', 'g', 'e']);
        assert(['m', 'e', 'r', 'g', 'e', '_', 'r', 'e', 'm', 'o', 'v', 'e']@ =~= seq!['m', 'e', 'r', 'g', 'e', '_', 'r', 'e', 'm', 'o', 'v', 'e']);
        assert(['i', 'g', 'n', 'o', 'r', 'e']@ =~= seq!['i', 'g', 'n', 'o', 'r', 'e']);
        assert(['i', 'g', 'n', 'o', 'r', 'e', '_', 'r', 'e', 'm', 'o', 'v', 'e']@ =~= seq!['i', 'g', 'n', 'o', 'r', 'e', '_', 'r', 'e', 'm', 'o', 'v', 'e']);
        assert(['p', 'i', 'n']@ =~= seq!['p', 'i', 'n']);
        assert(['u', 'n', 'p', 'i', 'n']@ =~= seq!['u', 'n', 'p', 'i', 'n']);
        if chars_eq(s, &['m', 'e', 'r', 'g', 'e']) {
            add_path(&mut self.settings.merged_folders, path);
        } else if chars_eq(s, &['m', 'e', 'r', 'g', 'e', '_', 'r', 'e', 'm', 'o', 'v', 'e']) {
            remove_path(&mut self.settings.merged_folders, path.as_str());
        } else if chars_eq(s, &['i', 'g', 'n', 'o', 'r', 'e']) {
            add_path(&mut self.settings.ignored_folders, path);
        } else if chars_eq(s, &['i', 'g', 'n', 'o', 'r', 'e', '_', 'r', 'e', 'm', 'o', 'v', 'e']) {
            remove_path(&mut self.settings.ignored_folders, path.as_str());
        } else if chars_eq(s, &['p', 'i', 'n']) {
            add_path(&mut self.settings.pinned_paths, path);
        } else if chars_eq(s, &['u', 'n', 'p', 'i', 'n']) {
            remove_path(&mut self.settings.pinned_paths, path.as_str());
        }
    }

    pub fn set_merge_all(&mut self, value: bool)
        ensures
            *final(self) == (LibraryController {
                settings: LibrarySettings { merge_all_folders: value, ..old(self).settings },
                ..*old(self)
            }),
    {
        self.settings.merge_all_folders = value;
    }

    pub fn set_lrc_limit_disabled(&mut self, value: bool)
        ensures
            *final(self) == (LibraryController {
                settings: LibrarySettings { lrc_limit_disabled: value, ..old(self).settings },
                ..*old(self)
            }),
    {
        self.settings.lrc_limit_disabled = value;
    }

    pub fn set_romanize_lyrics(&mut self, value: bool)
        ensures
            *final(self) == (LibraryController {
                settings: LibrarySettings { romanize_lyrics: value, ..old(self).settings },
                ..*old(self)
            }),
    {
        self.settings.romanize_lyrics = value;
    }

    pub fn set_discord_rpc(&mut self, value: bool)
        ensures
            *final(self) == (LibraryController {
                settings: LibrarySettings { discord_rpc: value, ..old(self).settings },
                ..*old(self)
            }),
    {
        self.settings.discord_rpc = value;
    }

    /// Empty the cached lyrics (the caller loads and saves the cache file).
    pub fn purge_lrc_cache(&self, cache: &mut LyricContentCache)
        ensures
            final(cache).lrc() == Seq::<LrcRecord>::empty(),
            final(cache).no_lyrics() == old(cache).no_lyrics(),
            final(cache).spec_path() == old(cache).spec_path(),
    {
        cache.purge_lrc();
    }

    /// Forget which tracks were found to have no lyrics.
    pub fn purge_no_lyrics_cache(&self, cache: &mut LyricContentCache)
        ensures
            final(cache).no_lyrics() == Seq::<NoLyricsRecord>::empty(),
            final(cache).lrc() == old(cache).lrc(),
            final(cache).spec_path() == old(cache).spec_path(),
    {
        cache.purge_no_lyrics();
    }
}

/// Opening a folder and then going back shows again the folder that was
/// shown before (when one was: from the library root, the first folder opened
/// is the oldest entry and stays shown).
pub proof fn lemma_back_after_navigate(a: LibraryController, b: LibraryController, c: LibraryController, p: Seq<char>)
    requires
        a.wf(),
        navigated_to(a, b, p),
        stepped_back(b, c),
    ensures
        c.wf(),
        a.shown() is Some ==> c.shown() == a.shown(),
        a.shown() is None ==> c.shown() == Some(p),
{
    assert(b.nav_stack@.len() == b.history().len());
    assert(c.history() == b.history());
}

/// Going back and then forward returns to the same folder, whenever there
/// was a folder to go back to.
pub proof fn lemma_forward_after_back(a: LibraryController, b: LibraryController, c: LibraryController)
    requires
        a.wf(),
        a.nav_idx > 0,
        stepped_back(a, b),
        stepped_forward(b, c),
    ensures
        c.nav_stack == a.nav_stack,
        c.nav_idx == a.nav_idx,
        c.shown() == a.shown(),
{
}

pub open spec fn ids_of(v: Seq<AlbumRec>) -> Seq<Seq<char>> {
    Seq::new(v.len(), |i: int| v[i].id)
}

pub open spec fn id_not_in(ids: Seq<Seq<char>>) -> spec_fn(AlbumRec) -> bool {
    |a: AlbumRec| !ids.contains(a.id)
}

/// The albums after merging `arriving` into `prior`: an album of `prior`
/// whose id arrives again is replaced, the arriving ones come last in their
/// order.
pub open spec fn upserted(prior: Seq<AlbumRec>, arriving: Seq<AlbumRec>) -> Seq<AlbumRec> {
    prior.filter(id_not_in(ids_of(arriving))) + arriving
}

/// Index of the first album with id `id`, or -1.
pub open spec fn album_index(v: Seq<AlbumRec>, id: Seq<char>) -> int
    decreases v.len(),
{
    if v.len() == 0 {
        -1
    } else if v[0].id == id {
        0
    } else {
        let r = album_index(v.drop_first(), id);
        if r < 0 {
            -1
        } else {
            r + 1
        }
    }
}

proof fn lemma_album_index_bounds(v: Seq<AlbumRec>, id: Seq<char>)
    ensures
        -1 <= album_index(v, id) < v.len(),
        album_index(v, id) >= 0 ==> v[album_index(v, id)].id == id,
    decreases v.len(),
{
    if v.len() > 0 && v[0].id != id {
        lemma_album_index_bounds(v.drop_first(), id);
    }
}

fn ids_contain(v: &Vec<LibraryAlbum>, id: &String) -> (r: bool)
    ensures
        r == ids_of(album_views(v@)).contains(id@),
{
    let mut i: usize = 0;
    while i < v.len()
        invariant
            i <= v@.len(),
            forall|j: int| 0 <= j < i ==> #[trigger] album_views(v@)[j].id != id@,
        decreases v@.len() - i,
    {
        if v[i].id == *id {
            assert(ids_of(album_views(v@))[i as int] == id@);
            return true;
        }
        i = i + 1;
    }
    assert forall|k: int| 0 <= k < ids_of(album_views(v@)).len() implies ids_of(album_views(v@))[k] != id@ by {
        assert(album_views(v@)[k].id != id@);
    }
    false
}

/// A copy of a list of strings.
fn copy_strings(v: &Vec<String>) -> (r: Vec<String>)
    ensures
        str_views(r@) == str_views(v@),
{
    let mut r: Vec<String> = Vec::new();
    let mut i: usize = 0;
    while i < v.len()
        invariant
            i <= v@.len(),
            str_views(r@) == str_views(v@).take(i as int),
        decreases v@.len() - i,
    {
        let ghost r0 = r@;
        r.push(v[i].clone());
        assert(str_views(r@) =~= str_views(r0).push(v@[i as int]@));
        i = i + 1;
        assert(str_views(v@).take(i as int) =~= str_views(v@).take(i - 1).push(v@[i - 1]@));
    }
    assert(str_views(v@).take(i as int) =~= str_views(v@));
    r
}

impl LibraryController {
    /// Merge albums streamed in by a running scan, replacing any album with
    /// the same id, so a rescan re-streaming a folder adds no duplicate tile.
    /// Returns whether anything arrived (and the tiles need refreshing).
    pub fn merge_scanned_albums(&mut self, new_albums: Vec<LibraryAlbum>) -> (changed: bool)
        ensures
            changed == (new_albums@.len() > 0),
            !changed ==> *final(self) == *old(self),
            changed ==> (final(self).scan_result matches Some(r) && album_views(r.albums@) == upserted(
                match old(self).scan_result {
                    Some(o) => album_views(o.albums@),
                    None => Seq::empty(),
                },
                album_views(new_albums@),
            ) && r.dir_mtimes@ == match old(self).scan_result {
                Some(o) => o.dir_mtimes@,
                None => Seq::empty(),
            }),
            final(self).settings == old(self).settings,
            final(self).nav_stack == old(self).nav_stack,
            final(self).nav_idx == old(self).nav_idx,
    {
        if new_albums.len() == 0 {
            return false;
        }
        let mut result = match self.scan_result.take() {
            Some(r) => r,
            None => LibraryScanResult { albums: Vec::new(), dirs: Vec::new(), dir_mtimes: Vec::new() },
        };
        let ghost mt = result.dir_mtimes@;
        assert(mt == match old(self).scan_result {
            Some(o) => o.dir_mtimes@,
            None => Seq::<(String, u64)>::empty(),
        });
        let ghost orig = album_views(result.albums@);
        let ghost ids = ids_of(album_views(new_albums@));
        let mut rest: Vec<LibraryAlbum> = Vec::new();
        std::mem::swap(&mut rest, &mut result.albums);
        let mut kept: Vec<LibraryAlbum> = Vec::new();
        let n = rest.len();
        let mut k: usize = 0;
        assert(album_views(rest@) =~= orig.skip(0));
        while rest.len() > 0
            invariant
                k + rest@.len() == n,
                n == orig.len(),
                album_views(rest@) == orig.skip(k as int),
                album_views(kept@) == orig.take(k as int).filter(id_not_in(ids)),
                ids == ids_of(album_views(new_albums@)),
            decreases rest@.len(),
        {
            let ghost r0 = rest@;
            let ghost k0 = kept@;
            assert(album_views(r0)[0] == orig[k as int]);
            let a = rest.remove(0);
            assert(a@ == orig[k as int]);
            assert(album_views(rest@) =~= album_views(r0).drop_first());
            assert(album_views(rest@) =~= orig.skip(k + 1));
            assert(orig.take(k + 1) =~= orig.take(k as int).push(a@));
            proof {
                orig.take(k as int).lemma_filter_push(a@, id_not_in(ids));
            }
            if !ids_contain(&new_albums, &a.id) {
                kept.push(a);
                assert(album_views(kept@) =~= album_views(k0).push(a@));
            }
            k = k + 1;
        }
        assert(orig.take(k as int) =~= orig);
        let ghost nv = new_albums@;
        let mut incoming = new_albums;
        kept.append(&mut incoming);
        result.albums = kept;
        assert(album_views(result.albums@) =~= upserted(orig, album_views(nv)));
        self.scan_result = Some(result);
        true
    }

    /// The track paths of the album with id `id` (the first one, should two
    /// share it), or none when it is not in the scan.
    pub fn browse_album(&self, id: &String) -> (paths: Vec<String>)
        ensures
            self.scan_result is None ==> paths@.len() == 0,
            self.scan_result matches Some(r) ==> (album_index(album_views(r.albums@), id@) < 0 ==> paths@.len() == 0),
            self.scan_result matches Some(r) ==> (album_index(album_views(r.albums@), id@) >= 0 ==> str_views(paths@)
                == album_views(r.albums@)[album_index(album_views(r.albums@), id@)].track_paths),
    {
        match &self.scan_result {
            None => Vec::new(),
            Some(r) => {
                let ghost v = album_views(r.albums@);
                proof {
                    lemma_album_index_bounds(v, id@);
                }
                let mut i: usize = 0;
                assert(v.skip(0) =~= v);
                while i < r.albums.len()
                    invariant
                        i <= r.albums@.len(),
                        v == album_views(r.albums@),
                        self.scan_result == Some(*r),
                        album_index(v, id@) == (if album_index(v.skip(i as int), id@) < 0 {
                            -1
                        } else {
                            album_index(v.skip(i as int), id@) + i
                        }),
                    decreases r.albums@.len() - i,
                {
                    assert(v.skip(i as int).drop_first() =~= v.skip(i + 1));
                    if r.albums[i].id == *id {
                        assert(v.skip(i as int)[0] == v[i as int]);
                        assert(album_index(v.skip(i as int), id@) == 0);
                        assert(album_index(v, id@) == i);
                        let paths = copy_strings(&r.albums[i].track_paths);
                        assert(str_views(paths@) == v[i as int].track_paths);
                        return paths;
                    }
                    assert(v.skip(i as int)[0] == v[i as int]);
                    i = i + 1;
                }
                assert(v.skip(i as int) =~= Seq::<AlbumRec>::empty());
                Vec::new()
            },
        }
    }
}

/// Merging never duplicates an album: when the albums so far and the albums
/// arriving each carry distinct ids, so does the merged list.
pub proof fn lemma_upsert_distinct_ids(prior: Seq<AlbumRec>, arriving: Seq<AlbumRec>)
    requires
        ids_of(prior).no_duplicates(),
        ids_of(arriving).no_duplicates(),
    ensures
        ids_of(upserted(prior, arriving)).no_duplicates(),
        forall|i: int| 0 <= i < arriving.len() ==> ids_of(upserted(prior, arriving)).contains(#[trigger] arriving[i].id),
{
    broadcast use vstd::seq_lib::group_filter_ensures;

    let ids = ids_of(arriving);
    let f = prior.filter(id_not_in(ids));
    let u = f + arriving;
    let iu = ids_of(u);
    assert forall|i: int, j: int| 0 <= i < iu.len() && 0 <= j < iu.len() && i != j implies iu[i] != iu[j] by {
        if i < f.len() && j < f.len() {
            lemma_filter_ids_distinct(prior, ids, i, j);
        } else if i >= f.len() && j >= f.len() {
            assert(ids[i - f.len()] == iu[i]);
            assert(ids[j - f.len()] == iu[j]);
        } else if i < f.len() {
            assert(id_not_in(ids)(f[i]));
            assert(ids[j - f.len()] == iu[j]);
        } else {
            assert(id_not_in(ids)(f[j]));
            assert(ids[i - f.len()] == iu[i]);
        }
    }
    assert forall|i: int| 0 <= i < arriving.len() implies iu.contains(#[trigger] arriving[i].id) by {
        assert(iu[f.len() + i] == arriving[i].id);
    }
}

/// Filtering a list whose ids are distinct keeps them distinct.
proof fn lemma_filter_ids_distinct(prior: Seq<AlbumRec>, ids: Seq<Seq<char>>, i: int, j: int)
    requires
        ids_of(prior).no_duplicates(),
        0 <= i < prior.filter(id_not_in(ids)).len(),
        0 <= j < prior.filter(id_not_in(ids)).len(),
        i != j,
    ensures
        prior.filter(id_not_in(ids))[i].id != prior.filter(id_not_in(ids))[j].id,
    decreases prior.len(),
{
    let p = id_not_in(ids);
    reveal(Seq::filter);
    let f = prior.filter(p);
    let rest = prior.drop_last();
    assert(ids_of(rest) =~= ids_of(prior).drop_last());
    let fr = rest.filter(p);
    if p(prior.last()) {
        assert(f == fr.push(prior.last()));
        if i < fr.len() && j < fr.len() {
            lemma_filter_ids_distinct(rest, ids, i, j);
        } else {
            let k = if i < fr.len() { i } else { j };
            assert(fr.contains(fr[k]));
            rest.lemma_filter_contains_rev(p, fr[k]);
            let w = choose|w: int| 0 <= w < rest.len() && rest[w] == fr[k];
            assert(ids_of(prior)[w] == fr[k].id);
            assert(ids_of(prior)[prior.len() - 1] == prior.last().id);
        }
    } else {
        assert(f == fr);
        lemma_filter_ids_distinct(rest, ids, i, j);
    }
}

// ─── Tiles of the library view ───────────────────────────────────────────────

#[derive(Clone, Copy, Debug, PartialEq, Eq, Structural)]
pub enum TileKind {
    Folder,
    Album,
}

/// One tile of the library view.
#[derive(Debug)]
pub struct LibraryTile {
    pub kind: TileKind,
    /// The real directory: the one to open for a folder, the containing one
    /// for an album (folder actions such as pin act on directories).
    pub path: String,
    /// The album's stable id (empty for a folder).
    pub id: String,
    pub name: String,
    pub album_artist: String,
    pub year: String,
    pub cover_url: String,
    pub pinned: bool,
}

pub struct TileRec {
    pub kind: TileKind,
    pub path: Seq<char>,
    pub id: Seq<char>,
    pub name: Seq<char>,
    pub album_artist: Seq<char>,
    pub year: Seq<char>,
    pub cover_url: Seq<char>,
    pub pinned: bool,
}

impl View for LibraryTile {
    type V = TileRec;

    open spec fn view(&self) -> TileRec {
        TileRec {
            kind: self.kind,
            path: self.path@,
            id: self.id@,
            name: self.name@,
            album_artist: self.album_artist@,
            year: self.year@,
            cover_url: self.cover_url@,
            pinned: self.pinned,
        }
    }
}

pub open spec fn tile_views(v: Seq<LibraryTile>) -> Seq<TileRec> {
    Seq::new(v.len(), |i: int| v[i]@)
}

/// Whether `p` lies in (or is) a hidden folder.
pub open spec fn hidden(s: LibrarySettings, p: Seq<char>) -> bool {
    exists|i: int| 0 <= i < s.ignored_folders@.len() && crate::paths::path_starts_with(p, #[trigger] s.ignored_folders@[i]@)
}

/// Whether `dir` is a search root or sits directly in one.
pub open spec fn in_root(s: LibrarySettings, dir: Seq<char>) -> bool {
    exists|i: int| 0 <= i < s.search_paths@.len() && (same_path(dir, #[trigger] s.search_paths@[i]@)
        || crate::paths::parent_components(dir) == Some(crate::paths::components(s.search_paths@[i]@)))
}

/// Whether an album in `dir` shows at the library root: everything does when
/// all folders are merged; otherwise albums in or directly under a search
/// root, and albums anywhere under a merged folder.
pub open spec fn at_root(s: LibrarySettings, dir: Seq<char>) -> bool {
    s.merge_all_folders || in_root(s, dir) || exists|i: int| 0 <= i < s.merged_folders@.len()
        && crate::paths::path_starts_with(dir, #[trigger] s.merged_folders@[i]@)
}

pub open spec fn or_text(o: Option<Seq<char>>, d: Seq<char>) -> Seq<char> {
    match o {
        Some(v) => v,
        None => d,
    }
}

/// The tile of an album: named by its tag, else by its folder.
pub open spec fn album_tile(s: LibrarySettings, a: AlbumRec) -> TileRec {
    TileRec {
        kind: TileKind::Album,
        path: a.dir,
        id: a.id,
        name: if a.album.len() == 0 {
            or_text(crate::paths::file_name(a.dir), "Unknown"@)
        } else {
            a.album
        },
        album_artist: a.album_artist,
        year: a.year,
        cover_url: or_text(a.cover_url, Seq::empty()),
        pinned: has_path(str_views(s.pinned_paths@), a.dir),
    }
}

/// The tile of a folder holding several albums.
pub open spec fn folder_tile(s: LibrarySettings, dir: Seq<char>) -> TileRec {
    TileRec {
        kind: TileKind::Folder,
        path: dir,
        id: Seq::empty(),
        name: or_text(crate::paths::file_name(dir), Seq::empty()),
        album_artist: Seq::empty(),
        year: Seq::empty(),
        cover_url: Seq::empty(),
        pinned: has_path(str_views(s.pinned_paths@), dir),
    }
}

/// Tiles placed so far, and the album folders already shown.
pub struct TileState {
    pub tiles: Seq<TileRec>,
    pub used: Seq<Seq<char>>,
}

pub open spec fn show_album(st: TileState, s: LibrarySettings, a: AlbumRec) -> TileState {
    TileState { tiles: st.tiles.push(album_tile(s, a)), used: st.used.push(a.dir) }
}

pub open spec fn promote_pred(s: LibrarySettings, used: Seq<Seq<char>>, dir: Seq<char>) -> spec_fn(AlbumRec) -> bool {
    |a: AlbumRec| crate::paths::path_starts_with(a.dir, dir) && !hidden(s, a.dir) && !has_path(used, a.dir)
}

/// A folder shows as its album when exactly one album not shown yet lies
/// under it, as a folder tile when several do, and not at all otherwise.
pub open spec fn promote(st: TileState, s: LibrarySettings, albums: Seq<AlbumRec>, dir: Seq<char>) -> TileState {
    let sub = albums.filter(promote_pred(s, st.used, dir));
    if sub.len() == 1 {
        show_album(st, s, sub[0])
    } else if sub.len() > 1 {
        TileState { tiles: st.tiles.push(folder_tile(s, dir)), used: st.used }
    } else {
        st
    }
}

/// Album tiles at the library root, in scan order.
pub open spec fn root_albums(s: LibrarySettings, albums: Seq<AlbumRec>) -> TileState
    decreases albums.len(),
{
    if albums.len() == 0 {
        TileState { tiles: Seq::empty(), used: Seq::empty() }
    } else {
        let st = root_albums(s, albums.drop_last());
        let a = albums.last();
        if hidden(s, a.dir) || !at_root(s, a.dir) {
            st
        } else {
            show_album(st, s, a)
        }
    }
}

/// Folder tiles at the library root: directories in or directly under a
/// search root that are not hidden, merged or already shown as an album.
pub open spec fn root_dirs(st0: TileState, s: LibrarySettings, albums: Seq<AlbumRec>, dirs: Seq<Seq<char>>) -> TileState
    decreases dirs.len(),
{
    if dirs.len() == 0 {
        st0
    } else {
        let st = root_dirs(st0, s, albums, dirs.drop_last());
        let d = dirs.last();
        if hidden(s, d) || has_path(st.used, d) || has_path(str_views(s.merged_folders@), d) || !in_root(s, d) {
            st
        } else {
            promote(st, s, albums, d)
        }
    }
}

/// Album tiles inside folder `cur`: every album under it when all folders
/// are merged, else the albums in it.
pub open spec fn cur_albums(s: LibrarySettings, albums: Seq<AlbumRec>, cur: Seq<char>) -> TileState
    decreases albums.len(),
{
    if albums.len() == 0 {
        TileState { tiles: Seq::empty(), used: Seq::empty() }
    } else {
        let st = cur_albums(s, albums.drop_last(), cur);
        let a = albums.last();
        let inside = if s.merge_all_folders {
            crate::paths::path_starts_with(a.dir, cur)
        } else {
            same_path(a.dir, cur)
        };
        if !inside || hidden(s, a.dir) {
            st
        } else {
            show_album(st, s, a)
        }
    }
}

/// Folder tiles inside `cur`: its sub-directories not shown yet or hidden.
pub open spec fn cur_dirs(st0: TileState, s: LibrarySettings, albums: Seq<AlbumRec>, dirs: Seq<Seq<char>>, cur: Seq<char>) -> TileState
    decreases dirs.len(),
{
    if dirs.len() == 0 {
        st0
    } else {
        let st = cur_dirs(st0, s, albums, dirs.drop_last(), cur);
        let d = dirs.last();
        if has_path(st.used, d) || crate::paths::parent_components(d) != Some(crate::paths::components(cur))
            || hidden(s, d) {
            st
        } else {
            promote(st, s, albums, d)
        }
    }
}

/// The tiles of the view at the root (`cur` is `None`) or inside a folder,
/// before ordering.
pub open spec fn placed_tiles(s: LibrarySettings, albums: Seq<AlbumRec>, dirs: Seq<Seq<char>>, cur: Option<Seq<char>>) -> Seq<TileRec> {
    match cur {
        None => {
            let st = root_albums(s, albums);
            if s.merge_all_folders {
                st.tiles
            } else {
                root_dirs(st, s, albums, dirs).tiles
            }
        },
        Some(c) => {
            let st = cur_albums(s, albums, c);
            if s.merge_all_folders {
                st.tiles
            } else {
                cur_dirs(st, s, albums, dirs, c).tiles
            }
        },
    }
}

/// Whether `p` lies in a hidden folder.
fn is_hidden(s: &LibrarySettings, p: &str) -> (r: bool)
    ensures
        r == hidden(*s, p@),
{
    let mut i: usize = 0;
    while i < s.ignored_folders.len()
        invariant
            i <= s.ignored_folders@.len(),
            forall|k: int| 0 <= k < i ==> !crate::paths::path_starts_with(p@, #[trigger] s.ignored_folders@[k]@),
        decreases s.ignored_folders@.len() - i,
    {
        if crate::paths::starts_with_str(p, s.ignored_folders[i].as_str()) {
            return true;
        }
        i = i + 1;
    }
    false
}

fn is_in_root(s: &LibrarySettings, dir: &str) -> (r: bool)
    ensures
        r == in_root(*s, dir@),
{
    let mut i: usize = 0;
    while i < s.search_paths.len()
        invariant
            i <= s.search_paths@.len(),
            forall|k: int| 0 <= k < i ==> !(same_path(dir@, #[trigger] s.search_paths@[k]@)
                || crate::paths::parent_components(dir@) == Some(crate::paths::components(s.search_paths@[k]@))),
        decreases s.search_paths@.len() - i,
    {
        if same_path_str(dir, s.search_paths[i].as_str()) || crate::paths::parent_is(dir, s.search_paths[i].as_str()) {
            return true;
        }
        i = i + 1;
    }
    false
}

fn is_at_root(s: &LibrarySettings, dir: &str) -> (r: bool)
    ensures
        r == at_root(*s, dir@),
{
    if s.merge_all_folders || is_in_root(s, dir) {
        return true;
    }
    let mut i: usize = 0;
    while i < s.merged_folders.len()
        invariant
            i <= s.merged_folders@.len(),
            forall|k: int| 0 <= k < i ==> !crate::paths::path_starts_with(dir@, #[trigger] s.merged_folders@[k]@),
        decreases s.merged_folders@.len() - i,
    {
        if crate::paths::starts_with_str(dir, s.merged_folders[i].as_str()) {
            return true;
        }
        i = i + 1;
    }
    false
}

fn name_or(n: Option<Vec<char>>, d: &str) -> (r: String)
    ensures
        r@ == or_text(
            match n {
                Some(v) => Some(v@),
                None => None,
            },
            d@,
        ),
{
    match n {
        Some(v) => crate::text::string_from_chars(v.as_slice()),
        None => d.to_string(),
    }
}

fn make_album_tile(s: &LibrarySettings, a: &LibraryAlbum) -> (t: LibraryTile)
    ensures
        t@ == album_tile(*s, a@),
{
    let name = if a.album.as_str().is_empty() {
        name_or(crate::paths::file_name_of(a.dir.as_str()), "Unknown")
    } else {
        a.album.clone()
    };
    let cover_url = match &a.cover_url {
        Some(c) => c.clone(),
        None => String::new(),
    };
    LibraryTile {
        kind: TileKind::Album,
        path: a.dir.clone(),
        id: a.id.clone(),
        name,
        album_artist: a.album_artist.clone(),
        year: a.year.clone(),
        cover_url,
        pinned: contains_path(&s.pinned_paths, a.dir.as_str()),
    }
}

fn make_folder_tile(s: &LibrarySettings, dir: &String) -> (t: LibraryTile)
    ensures
        t@ == folder_tile(*s, dir@),
{
    let name = name_or(crate::paths::file_name_of(dir.as_str()), "");
    proof {
        assert(""@ =~= Seq::<char>::empty()) by {
            reveal_strlit("");
        }
    }
    LibraryTile {
        kind: TileKind::Folder,
        path: dir.clone(),
        id: String::new(),
        name,
        album_artist: String::new(),
        year: String::new(),
        cover_url: String::new(),
        pinned: contains_path(&s.pinned_paths, dir.as_str()),
    }
}

/// Show `a` as a tile and mark its folder as shown.
fn push_album(s: &LibrarySettings, a: &LibraryAlbum, tiles: &mut Vec<LibraryTile>, used: &mut Vec<String>)
    ensures
        tile_views(final(tiles)@) == tile_views(old(tiles)@).push(album_tile(*s, a@)),
        str_views(final(used)@) == str_views(old(used)@).push(a.dir@),
{
    let ghost t0 = tile_views(tiles@);
    let ghost u0 = str_views(used@);
    tiles.push(make_album_tile(s, a));
    used.push(a.dir.clone());
    assert(tile_views(tiles@) =~= t0.push(album_tile(*s, a@)));
    assert(str_views(used@) =~= u0.push(a.dir@));
}

/// Show folder `dir` as its single album, as a folder, or not at all.
fn promote_folder(s: &LibrarySettings, albums: &Vec<LibraryAlbum>, dir: &String, tiles: &mut Vec<LibraryTile>, used: &mut Vec<String>)
    ensures
        ({
            let st = promote(
                TileState { tiles: tile_views(old(tiles)@), used: str_views(old(used)@) },
                *s,
                album_views(albums@),
                dir@,
            );
            &&& tile_views(final(tiles)@) == st.tiles
            &&& str_views(final(used)@) == st.used
        }),
{
    let ghost av = album_views(albums@);
    let ghost pred = promote_pred(*s, str_views(used@), dir@);
    let mut first: usize = 0;
    let mut count: usize = 0;
    let mut i: usize = 0;
    while i < albums.len() && count < 2
        invariant
            i <= albums@.len(),
            av == album_views(albums@),
            pred == promote_pred(*s, str_views(used@), dir@),
            count == av.take(i as int).filter(pred).len() || (count == 2 && av.take(i as int).filter(pred).len() >= 2),
            count <= 2,
            count >= 1 ==> first < albums@.len() && av.take(i as int).filter(pred)[0] == av[first as int],
        decreases albums@.len() - i,
    {
        let a = &albums[i];
        assert(av.take(i + 1) =~= av.take(i as int).push(av[i as int]));
        proof {
            av.take(i as int).lemma_filter_push(av[i as int], pred);
        }
        if crate::paths::starts_with_str(a.dir.as_str(), dir.as_str()) && !is_hidden(s, a.dir.as_str())
            && !contains_path(used, a.dir.as_str()) {
            if count == 0 {
                first = i;
            }
            count = count + 1;
        }
        i = i + 1;
    }
    proof {
        if count < 2 {
            assert(av.take(i as int) =~= av);
        } else {
            av.take(i as int).lemma_filter_len(pred);
            av.lemma_filter_take_len(pred, i as int);
        }
    }
    if count == 1 {
        push_album(s, &albums[first], tiles, used);
    } else if count >= 2 {
        let ghost t0 = tile_views(tiles@);
        tiles.push(make_folder_tile(s, dir));
        assert(tile_views(tiles@) =~= t0.push(folder_tile(*s, dir@)));
    }
}

/// The tiles of the view before ordering: at the root when `cur` is `None`,
/// else inside folder `cur`.
pub fn place_tiles(s: &LibrarySettings, result: &LibraryScanResult, cur: &Option<String>) -> (tiles: Vec<LibraryTile>)
    ensures
        tile_views(tiles@) == placed_tiles(
            *s,
            album_views(result.albums@),
            str_views(result.dirs@),
            match cur {
                Some(c) => Some(c@),
                None => None,
            },
        ),
{
    let ghost av = album_views(result.albums@);
    let ghost dv = str_views(result.dirs@);
    let mut tiles: Vec<LibraryTile> = Vec::new();
    let mut used: Vec<String> = Vec::new();
    let mut i: usize = 0;
    match cur {
        None => {
            while i < result.albums.len()
                invariant
                    i <= result.albums@.len(),
                    av == album_views(result.albums@),
                    tile_views(tiles@) == root_albums(*s, av.take(i as int)).tiles,
                    str_views(used@) == root_albums(*s, av.take(i as int)).used,
                decreases result.albums@.len() - i,
            {
                assert(av.take(i + 1).drop_last() =~= av.take(i as int));
                let a = &result.albums[i];
                if !is_hidden(s, a.dir.as_str()) && is_at_root(s, a.dir.as_str()) {
                    push_album(s, a, &mut tiles, &mut used);
                }
                i = i + 1;
            }
            assert(av.take(i as int) =~= av);
            if s.merge_all_folders {
                return tiles;
            }
            let ghost st0 = root_albums(*s, av);
            let mut j: usize = 0;
            while j < result.dirs.len()
                invariant
                    j <= result.dirs@.len(),
                    av == album_views(result.albums@),
                    dv == str_views(result.dirs@),
                    tile_views(tiles@) == root_dirs(st0, *s, av, dv.take(j as int)).tiles,
                    str_views(used@) == root_dirs(st0, *s, av, dv.take(j as int)).used,
                decreases result.dirs@.len() - j,
            {
                assert(dv.take(j + 1).drop_last() =~= dv.take(j as int));
                let d = &result.dirs[j];
                if !is_hidden(s, d.as_str()) && !contains_path(&used, d.as_str()) && !contains_path(
                    &s.merged_folders,
                    d.as_str(),
                ) && is_in_root(s, d.as_str()) {
                    promote_folder(s, &result.albums, d, &mut tiles, &mut used);
                }
                j = j + 1;
            }
            assert(dv.take(j as int) =~= dv);
            tiles
        },
        Some(c) => {
            while i < result.albums.len()
                invariant
                    i <= result.albums@.len(),
                    av == album_views(result.albums@),
                    tile_views(tiles@) == cur_albums(*s, av.take(i as int), c@).tiles,
                    str_views(used@) == cur_albums(*s, av.take(i as int), c@).used,
                decreases result.albums@.len() - i,
            {
                assert(av.take(i + 1).drop_last() =~= av.take(i as int));
                let a = &result.albums[i];
                let inside = if s.merge_all_folders {
                    crate::paths::starts_with_str(a.dir.as_str(), c.as_str())
                } else {
                    same_path_str(a.dir.as_str(), c.as_str())
                };
                if inside && !is_hidden(s, a.dir.as_str()) {
                    push_album(s, a, &mut tiles, &mut used);
                }
                i = i + 1;
            }
            assert(av.take(i as int) =~= av);
            if s.merge_all_folders {
                return tiles;
            }
            let ghost st0 = cur_albums(*s, av, c@);
            let mut j: usize = 0;
            while j < result.dirs.len()
                invariant
                    j <= result.dirs@.len(),
                    av == album_views(result.albums@),
                    dv == str_views(result.dirs@),
                    tile_views(tiles@) == cur_dirs(st0, *s, av, dv.take(j as int), c@).tiles,
                    str_views(used@) == cur_dirs(st0, *s, av, dv.take(j as int), c@).used,
                decreases result.dirs@.len() - j,
            {
                assert(dv.take(j + 1).drop_last() =~= dv.take(j as int));
                let d = &result.dirs[j];
                if !contains_path(&used, d.as_str()) && crate::paths::parent_is(d.as_str(), c.as_str())
                    && !is_hidden(s, d.as_str()) {
                    promote_folder(s, &result.albums, d, &mut tiles, &mut used);
                }
                j = j + 1;
            }
            assert(dv.take(j as int) =~= dv);
            tiles
        },
    }
}

// ─── Order of the tiles ──────────────────────────────────────────────────────

/// What tiles are ordered by, after pinning and kind: album artist and name,
/// lower-cased.
pub open spec fn tile_key(t: TileRec) -> Seq<char> {
    crate::text::str_lowercase(t.album_artist) + seq![' '] + crate::text::str_lowercase(t.name)
}

/// `a` goes before `b`: pinned tiles first, then folders before albums, then
/// by key.
pub open spec fn tile_before(a: TileRec, b: TileRec) -> bool {
    if a.pinned != b.pinned {
        a.pinned
    } else if a.kind != b.kind {
        a.kind == TileKind::Folder
    } else {
        crate::library::str_less(tile_key(a), tile_key(b))
    }
}

/// No tile comes after one that should follow it.
pub open spec fn tiles_ordered(v: Seq<TileRec>) -> bool {
    forall|i: int, j: int| 0 <= i < j < v.len() ==> !tile_before(#[trigger] v[j], #[trigger] v[i])
}

proof fn lemma_before_asym(a: TileRec, b: TileRec)
    ensures
        !(tile_before(a, b) && tile_before(b, a)),
{
    crate::library::lemma_str_less_total(tile_key(a), tile_key(b));
}

proof fn lemma_before_trans(a: TileRec, b: TileRec, c: TileRec)
    requires
        tile_before(a, b),
        tile_before(b, c),
    ensures
        tile_before(a, c),
{
    if a.pinned == b.pinned && b.pinned == c.pinned && a.kind == b.kind && b.kind == c.kind {
        crate::library::lemma_str_less_trans(tile_key(a), tile_key(b), tile_key(c));
    }
}


/// `a` and `b` tie: neither goes before the other.
pub open spec fn tiles_tie(a: TileRec, b: TileRec) -> bool {
    !tile_before(a, b) && !tile_before(b, a)
}

/// `b` is `a` reordered by the index map `perm` (`b[k]` is `a[perm[k]]`, each
/// index once), tiles that tie keeping the order they had in `a`.
pub open spec fn stably_reordered(a: Seq<TileRec>, b: Seq<TileRec>, perm: Seq<int>) -> bool {
    &&& perm.len() == b.len()
    &&& b.len() == a.len()
    &&& forall|k: int| 0 <= k < b.len() ==> 0 <= #[trigger] perm[k] < a.len() && b[k] == a[perm[k]]
    &&& forall|k1: int, k2: int| 0 <= k1 < k2 < b.len() ==> #[trigger] perm[k1] != #[trigger] perm[k2]
    &&& forall|i: int, j: int| 0 <= i < j < b.len() && tiles_tie(#[trigger] b[i], #[trigger] b[j]) ==> perm[i] < perm[j]
}

proof fn lemma_before_neg_trans(x: TileRec, y: TileRec, z: TileRec)
    requires
        tile_before(x, y),
        !tile_before(z, y),
    ensures
        tile_before(x, z),
{
    crate::library::lemma_str_less_total(tile_key(x), tile_key(z));
    crate::library::lemma_str_less_total(tile_key(z), tile_key(y));
    crate::library::lemma_str_less_total(tile_key(x), tile_key(y));
    if x.pinned == y.pinned && y.pinned == z.pinned && x.kind == y.kind && y.kind == z.kind {
        if tile_key(z) != tile_key(y) {
            crate::library::lemma_str_less_trans(tile_key(x), tile_key(y), tile_key(z));
        }
    }
}

/// Tile order, stated on the tiles themselves: among tiles equally pinned
/// and of the same kind, the one whose "album-artist name" key is smaller
/// ignoring case comes first, and tiles whose keys match ignoring case (they
/// may differ in case) keep the order they were given in.
pub proof fn lemma_tile_order(a: Seq<TileRec>, b: Seq<TileRec>, perm: Seq<int>, i: int, j: int)
    requires
        tiles_ordered(b),
        stably_reordered(a, b, perm),
        0 <= i < b.len(),
        0 <= j < b.len(),
        b[i].pinned == b[j].pinned,
        b[i].kind == b[j].kind,
    ensures
        crate::library::str_less(
            crate::text::str_lowercase(b[i].album_artist) + seq![' '] + crate::text::str_lowercase(b[i].name),
            crate::text::str_lowercase(b[j].album_artist) + seq![' '] + crate::text::str_lowercase(b[j].name),
        ) ==> i < j,
        crate::text::str_lowercase(b[i].album_artist) + seq![' '] + crate::text::str_lowercase(b[i].name)
            == crate::text::str_lowercase(b[j].album_artist) + seq![' '] + crate::text::str_lowercase(b[j].name)
            ==> (i < j <==> perm[i] < perm[j]),
{
    let ki = crate::text::str_lowercase(b[i].album_artist) + seq![' '] + crate::text::str_lowercase(b[i].name);
    let kj = crate::text::str_lowercase(b[j].album_artist) + seq![' '] + crate::text::str_lowercase(b[j].name);
    crate::library::lemma_str_less_irrefl(ki);
    crate::library::lemma_str_less_total(ki, kj);
    assert(tile_key(b[i]) == ki && tile_key(b[j]) == kj);
    if j < i {
        assert(!tile_before(b[i], b[j]));
    }
    if ki == kj {
        assert(tiles_tie(b[i], b[j]));
        assert(tiles_tie(b[j], b[i]));
        if j < i {
            assert(perm[j] < perm[i]);
        }
    }
}

fn key_of(t: &LibraryTile) -> (k: Vec<char>)
    ensures
        k@ == tile_key(t@),
{
    let a = crate::text::to_lowercase(t.album_artist.as_str());
    let n = crate::text::to_lowercase(t.name.as_str());
    let mut k: Vec<char> = Vec::new();
    crate::text::push_str_chars(&mut k, a.as_str());
    k.push(' ');
    crate::text::push_str_chars(&mut k, n.as_str());
    assert(k@ =~= tile_key(t@));
    k
}

fn before(a: &LibraryTile, ka: &Vec<char>, b: &LibraryTile, kb: &Vec<char>) -> (r: bool)
    requires
        ka@ == tile_key(a@),
        kb@ == tile_key(b@),
    ensures
        r == tile_before(a@, b@),
{
    if a.pinned != b.pinned {
        a.pinned
    } else if a.kind != b.kind {
        a.kind == TileKind::Folder
    } else {
        crate::library::chars_less(ka.as_slice(), kb.as_slice())
    }
}

/// The tiles in display order: a stable sort of `tiles` by `tile_before`.
pub fn order_tiles(tiles: Vec<LibraryTile>) -> (r: Vec<LibraryTile>)
    ensures
        tiles_ordered(tile_views(r@)),
        tile_views(r@).to_multiset() == tile_views(tiles@).to_multiset(),
        exists|perm: Seq<int>| #[trigger] stably_reordered(tile_views(tiles@), tile_views(r@), perm),
        forall|i: int, j: int| 0 <= i < r@.len() && 0 <= j < r@.len() && (#[trigger] r@[i]).pinned == (#[trigger] r@[j]).pinned
            && r@[i].kind == r@[j].kind && crate::library::str_less(
                crate::text::str_lowercase(r@[i].album_artist@) + seq![' '] + crate::text::str_lowercase(r@[i].name@),
                crate::text::str_lowercase(r@[j].album_artist@) + seq![' '] + crate::text::str_lowercase(r@[j].name@),
            ) ==> i < j,
        exists|perm: Seq<int>| {
            &&& #[trigger] stably_reordered(tile_views(tiles@), tile_views(r@), perm)
            &&& forall|i: int, j: int| 0 <= i < j < r@.len() && (#[trigger] r@[i]).pinned == (#[trigger] r@[j]).pinned
                && r@[i].kind == r@[j].kind
                && crate::text::str_lowercase(r@[i].album_artist@) + seq![' '] + crate::text::str_lowercase(r@[i].name@)
                == crate::text::str_lowercase(r@[j].album_artist@) + seq![' '] + crate::text::str_lowercase(r@[j].name@)
                ==> perm[i] < perm[j]
        },
{
    broadcast use vstd::seq_lib::group_to_multiset_ensures;

    let ghost orig = tile_views(tiles@);
    let mut rest = tiles;
    let mut out: Vec<LibraryTile> = Vec::new();
    let mut keys: Vec<Vec<char>> = Vec::new();
    let mut done: usize = 0;
    let n = rest.len();
    let ghost mut perm: Seq<int> = Seq::empty();
    assert(tile_views(rest@) =~= orig.skip(0));
    assert(tile_views(out@).to_multiset() =~= orig.take(0).to_multiset());
    while rest.len() > 0
        invariant
            done + rest@.len() == orig.len(),
            n == orig.len(),
            tile_views(rest@) == orig.skip(done as int),
            stably_reordered(orig.take(done as int), tile_views(out@), perm),
            keys@.len() == out@.len(),
            forall|k: int| 0 <= k < out@.len() ==> (#[trigger] keys@[k])@ == tile_key(out@[k]@),
            tiles_ordered(tile_views(out@)),
            tile_views(out@).to_multiset() == orig.take(done as int).to_multiset(),
        decreases rest@.len(),
    {
        let ghost r0 = rest@;
        assert(tile_views(r0)[0] == orig[done as int]);
        let x = rest.remove(0);
        assert(x@ == orig[done as int]);
        assert(tile_views(rest@) =~= orig.skip(done + 1)) by {
            assert(tile_views(rest@) =~= tile_views(r0).drop_first());
        }
        let kx = key_of(&x);
        let ghost ov = tile_views(out@);
        let mut p: usize = 0;
        while p < out.len() && !before(&x, &kx, &out[p], &keys[p])
            invariant
                p <= out@.len(),
                keys@.len() == out@.len(),
                forall|k: int| 0 <= k < out@.len() ==> (#[trigger] keys@[k])@ == tile_key(out@[k]@),
                kx@ == tile_key(x@),
                ov == tile_views(out@),
                forall|k: int| 0 <= k < p ==> !tile_before(x@, #[trigger] ov[k]),
            decreases out@.len() - p,
        {
            p = p + 1;
        }
        proof {
            assert forall|i: int| p <= i < ov.len() implies !tile_before(#[trigger] ov[i], x@) by {
                lemma_before_asym(ov[p as int], x@);
                if i > p && tile_before(ov[i], x@) {
                    lemma_before_trans(ov[i], x@, ov[p as int]);
                }
            }
        }
        let ghost oo = out@;
        let ghost ok = keys@;
        out.insert(p, x);
        keys.insert(p, kx);
        let ghost nv = tile_views(out@);
        assert(nv =~= ov.insert(p as int, orig[done as int]));
        proof {
            let np = perm.insert(p as int, done as int);
            let a1 = orig.take(done + 1);
            assert forall|k: int| 0 <= k < nv.len() implies 0 <= #[trigger] np[k] < a1.len() && nv[k] == a1[np[k]] by {
                if k < p {
                    assert(np[k] == perm[k]);
                    assert(nv[k] == ov[k]);
                } else if k > p {
                    assert(np[k] == perm[k - 1]);
                    assert(nv[k] == ov[k - 1]);
                }
            }
            assert forall|k1: int, k2: int| 0 <= k1 < k2 < nv.len() implies #[trigger] np[k1] != #[trigger] np[k2] by {
                if k1 != p && k2 != p {
                    let o1 = if k1 < p { k1 } else { k1 - 1 };
                    let o2 = if k2 < p { k2 } else { k2 - 1 };
                    assert(np[k1] == perm[o1] && np[k2] == perm[o2]);
                    assert(perm[o1] != perm[o2]);
                } else if k1 == p {
                    assert(np[k2] == perm[k2 - 1]);
                    assert(0 <= perm[k2 - 1] < done);
                } else {
                    assert(np[k1] == perm[k1]);
                    assert(0 <= perm[k1] < done);
                }
            }
            assert forall|i: int, j: int| 0 <= i < j < nv.len() && tiles_tie(#[trigger] nv[i], #[trigger] nv[j]) implies np[i] < np[j] by {
                if i != p && j != p {
                    let oi = if i < p { i } else { i - 1 };
                    let oj = if j < p { j } else { j - 1 };
                    assert(nv[i] == ov[oi] && nv[j] == ov[oj]);
                    assert(np[i] == perm[oi] && np[j] == perm[oj]);
                    assert(tiles_tie(ov[oi], ov[oj]));
                } else if j == p {
                    assert(np[i] == perm[i]);
                    assert(0 <= perm[i] < done);
                } else {
                    assert(nv[j] == ov[j - 1]);
                    assert(p < ov.len());
                    assert(tile_before(x@, ov[p as int]));
                    if j - 1 > p {
                        lemma_before_neg_trans(x@, ov[p as int], ov[j - 1]);
                    }
                    assert(false);
                }
            }
            assert(stably_reordered(a1, nv, np));
            perm = np;
        }
        proof {
            assert forall|i: int, j: int| 0 <= i < j < nv.len() implies !tile_before(#[trigger] nv[j], #[trigger] nv[i]) by {
                if i < p && j < p {
                } else if i < p && j == p {
                } else if i < p && j > p {
                    assert(nv[j] == ov[j - 1]);
                } else if i == p {
                    assert(nv[j] == ov[j - 1]);
                } else {
                    assert(nv[j] == ov[j - 1]);
                    assert(nv[i] == ov[i - 1]);
                }
            }
            vstd::seq_lib::to_multiset_insert(ov, p as int, orig[done as int]);
            assert(orig.take(done + 1) =~= orig.take(done as int).push(orig[done as int]));
            vstd::seq_lib::to_multiset_build(orig.take(done as int), orig[done as int]);
            assert(nv.to_multiset() =~= orig.take(done + 1).to_multiset());
        }
        assert forall|k: int| 0 <= k < out@.len() implies (#[trigger] keys@[k])@ == tile_key(out@[k]@) by {
            if k < p {
                assert(keys@[k] == ok[k]);
                assert(out@[k] == oo[k]);
            } else if k > p {
                assert(keys@[k] == ok[k - 1]);
                assert(out@[k] == oo[k - 1]);
            }
        }
        done = done + 1;
    }
    assert(orig.take(done as int) =~= orig);
    assert(stably_reordered(orig, tile_views(out@), perm));
    proof {
        let v = tile_views(out@);
        assert forall|i: int, j: int| 0 <= i < out@.len() && 0 <= j < out@.len() && (#[trigger] out@[i]).pinned
            == (#[trigger] out@[j]).pinned && out@[i].kind == out@[j].kind && crate::library::str_less(
                crate::text::str_lowercase(out@[i].album_artist@) + seq![' '] + crate::text::str_lowercase(out@[i].name@),
                crate::text::str_lowercase(out@[j].album_artist@) + seq![' '] + crate::text::str_lowercase(out@[j].name@),
            ) implies i < j by {
            assert(v[i] == out@[i]@ && v[j] == out@[j]@);
            lemma_tile_order(orig, v, perm, i, j);
        }
        assert forall|i: int, j: int| 0 <= i < j < out@.len() && (#[trigger] out@[i]).pinned == (#[trigger] out@[j]).pinned
            && out@[i].kind == out@[j].kind
            && crate::text::str_lowercase(out@[i].album_artist@) + seq![' '] + crate::text::str_lowercase(out@[i].name@)
            == crate::text::str_lowercase(out@[j].album_artist@) + seq![' '] + crate::text::str_lowercase(out@[j].name@)
            implies perm[i] < perm[j] by {
            assert(v[i] == out@[i]@ && v[j] == out@[j]@);
            lemma_tile_order(orig, v, perm, i, j);
        }
    }
    out
}

/// The tiles of the library view, in display order: what `place_tiles`
/// places, pinned first, then folders, then by album artist and name.
pub fn build_nodes(cur: &Option<String>, result: &LibraryScanResult, settings: &LibrarySettings) -> (tiles: Vec<LibraryTile>)
    ensures
        tiles_ordered(tile_views(tiles@)),
        tile_views(tiles@).to_multiset() == placed_tiles(
            *settings,
            album_views(result.albums@),
            str_views(result.dirs@),
            match cur {
                Some(c) => Some(c@),
                None => None,
            },
        ).to_multiset(),
        exists|perm: Seq<int>| #[trigger] stably_reordered(
            placed_tiles(*settings, album_views(result.albums@), str_views(result.dirs@), crate::library::opt_str(*cur)),
            tile_views(tiles@),
            perm,
        ),
{
    let placed = place_tiles(settings, result, cur);
    proof {
        assert(crate::library::opt_str(*cur) == match cur {
            Some(c) => Some(c@),
            None => None,
        });
    }
    order_tiles(placed)
}

impl LibraryController {
    /// The tiles for the folder shown, or `None` before any scan result.
    pub fn refresh_nodes(&self) -> (tiles: Option<Vec<LibraryTile>>)
        requires
            self.wf(),
        ensures
            self.scan_result is None ==> tiles is None,
            self.scan_result matches Some(r) ==> (tiles matches Some(t) && tiles_ordered(tile_views(t@))
                && tile_views(t@).to_multiset() == placed_tiles(
                self.settings,
                album_views(r.albums@),
                str_views(r.dirs@),
                self.shown(),
            ).to_multiset() && (exists|perm: Seq<int>| #[trigger] stably_reordered(
                placed_tiles(self.settings, album_views(r.albums@), str_views(r.dirs@), self.shown()),
                tile_views(t@),
                perm,
            ))),
    {
        match &self.scan_result {
            None => None,
            Some(r) => {
                let cur = self.current_dir();
                Some(build_nodes(&cur, r, &self.settings))
            },
        }
    }
}


// ─── Scan progress ───────────────────────────────────────────────────────────

/// The status line for a scan progress report.
pub open spec fn progress_line(files: nat, dirs: nat) -> Seq<char> {
    "Scanning\u{2026} "@ + crate::text::decimal(files) + " files, "@ + crate::text::decimal(dirs) + " folders"@
}

/// The status line after the progress reports `reports` (files found,
/// folders visited) came in: that of the last report that counted anything,
/// or none when no report did.
pub open spec fn progress_message_of(reports: Seq<(usize, usize)>) -> Option<Seq<char>>
    decreases reports.len(),
{
    if reports.len() == 0 {
        None
    } else {
        let (f, d) = reports.last();
        if f > 0 || d > 0 {
            Some(progress_line(f as nat, d as nat))
        } else {
            progress_message_of(reports.drop_last())
        }
    }
}

/// The scan status line to show after a batch of progress reports.
pub fn progress_message(reports: &Vec<(usize, usize)>) -> (r: Option<String>)
    ensures
        match progress_message_of(reports@) {
            None => r is None,
            Some(m) => r matches Some(s) && s@ == m,
        },
{
    let mut last: Option<String> = None;
    let mut i: usize = 0;
    while i < reports.len()
        invariant
            i <= reports@.len(),
            match progress_message_of(reports@.take(i as int)) {
                None => last is None,
                Some(m) => last matches Some(s) && s@ == m,
            },
        decreases reports@.len() - i,
    {
        let (f, d) = reports[i];
        assert(reports@.take(i + 1).drop_last() =~= reports@.take(i as int));
        if f > 0 || d > 0 {
            let mut out: Vec<char> = Vec::new();
            crate::text::push_str_chars(&mut out, "Scanning\u{2026} ");
            crate::text::push_decimal(&mut out, f as u64);
            crate::text::push_str_chars(&mut out, " files, ");
            crate::text::push_decimal(&mut out, d as u64);
            crate::text::push_str_chars(&mut out, " folders");
            last = Some(crate::text::string_from_chars(out.as_slice()));
        }
        i = i + 1;
    }
    assert(reports@.take(i as int) =~= reports@);
    last
}


// ─── Start-up ────────────────────────────────────────────────────────────────

/// What the library view does first.
#[derive(Clone, Copy, Debug, PartialEq, Eq, Structural)]
pub enum InitStep {
    /// No folder is set: offer the system's music folder.
    PickDefaultDir,
    /// Scan the folders.
    Scan,
    /// The cached scan is current: watch the folders for changes.
    Watch,
}

impl LibraryController {
    /// Start up with the scan cached on disk, if any. `stale` tells whether
    /// the folders changed since that scan was made. A cache from before
    /// album ids is dropped and a full scan made; a usable one is shown
    /// (and scanned again when stale).
    pub fn init(&mut self, cached: Option<LibraryScanResult>, stale: bool) -> (step: InitStep)
        requires
            old(self).wf(),
        ensures
            final(self).wf(),
            final(self).settings == old(self).settings,
            final(self).nav_stack == old(self).nav_stack,
            final(self).nav_idx == old(self).nav_idx,
            old(self).settings.search_paths@.len() == 0 ==> step == InitStep::PickDefaultDir
                && final(self).scan_result == old(self).scan_result,
            old(self).settings.search_paths@.len() > 0 ==> match cached {
                None => step == InitStep::Scan && final(self).scan_result == old(self).scan_result,
                Some(c) => if crate::library_cache::spec_is_legacy(c) {
                    step == InitStep::Scan && final(self).scan_result == old(self).scan_result
                } else {
                    final(self).scan_result == Some(c) && step == (if stale {
                        InitStep::Scan
                    } else {
                        InitStep::Watch
                    })
                },
            },
    {
        if self.settings.search_paths.len() == 0 {
            return InitStep::PickDefaultDir;
        }
        match cached {
            None => InitStep::Scan,
            Some(c) => {
                if crate::library_cache::is_legacy_cache(&c) {
                    InitStep::Scan
                } else {
                    self.scan_result = Some(c);
                    if stale {
                        InitStep::Scan
                    } else {
                        InitStep::Watch
                    }
                }
            },
        }
    }
}

} // verus!
