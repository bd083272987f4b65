//! Settings that only the terminal frontend uses, and the check that tells a
//! library cache from before album ids apart.

use vstd::prelude::*;
use crate::library::{LibraryScanResult, LibrarySettings, album_views, str_views};

verus! {

/// How album-art images are rendered in the TUI.
#[derive(Clone, Copy, PartialEq, Eq, Debug, Structural)]
pub enum TuiImageMethod {
    /// Automatically detect the best supported protocol at startup.
    Auto,
    /// Unicode half-block character art.
    Halfblocks,
    /// Sixel graphics.
    Sixel,
    /// Kitty graphics protocol.
    Kitty,
    /// iTerm2 inline images.
    Iterm2,
    /// Disable album-art display entirely.
    Disabled,
}

/// Position of a rendering method in the settings cycle.
pub open spec fn image_method_index(m: TuiImageMethod) -> int {
    match m {
        TuiImageMethod::Auto => 0,
        TuiImageMethod::Halfblocks => 1,
        TuiImageMethod::Sixel => 2,
        TuiImageMethod::Kitty => 3,
        TuiImageMethod::Iterm2 => 4,
        TuiImageMethod::Disabled => 5,
    }
}

impl TuiImageMethod {
    /// Label shown in the settings panel.
    pub fn label(self) -> (r: &'static str)
        ensures
            r@ == image_method_label(self),
    {
        match self {
            TuiImageMethod::Auto => "Auto",
            TuiImageMethod::Halfblocks => "Halfblocks",
            TuiImageMethod::Sixel => "Sixel",
            TuiImageMethod::Kitty => "Kitty",
            TuiImageMethod::Iterm2 => "iTerm2",
            TuiImageMethod::Disabled => "None",
        }
    }
}

/// The label of each rendering method.
pub open spec fn image_method_label(m: TuiImageMethod) -> Seq<char> {
    match m {
        TuiImageMethod::Auto => "Auto"@,
        TuiImageMethod::Halfblocks => "Halfblocks"@,
        TuiImageMethod::Sixel => "Sixel"@,
        TuiImageMethod::Kitty => "Kitty"@,
        TuiImageMethod::Iterm2 => "iTerm2"@,
        TuiImageMethod::Disabled => "None"@,
    }
}


impl TuiImageMethod {
    /// The next method in the settings cycle.
    pub fn next(self) -> (r: TuiImageMethod)
        ensures
            image_method_index(r) == (image_method_index(self) + 1) % 6,
    {
        match self {
            TuiImageMethod::Auto => TuiImageMethod::Halfblocks,
            TuiImageMethod::Halfblocks => TuiImageMethod::Sixel,
            TuiImageMethod::Sixel => TuiImageMethod::Kitty,
            TuiImageMethod::Kitty => TuiImageMethod::Iterm2,
            TuiImageMethod::Iterm2 => TuiImageMethod::Disabled,
            TuiImageMethod::Disabled => TuiImageMethod::Auto,
        }
    }

    /// The previous method in the settings cycle.
    pub fn prev(self) -> (r: TuiImageMethod)
        ensures
            image_method_index(r) == (image_method_index(self) + 5) % 6,
    {
        match self {
            TuiImageMethod::Auto => TuiImageMethod::Disabled,
            TuiImageMethod::Halfblocks => TuiImageMethod::Auto,
            TuiImageMethod::Sixel => TuiImageMethod::Halfblocks,
            TuiImageMethod::Kitty => TuiImageMethod::Sixel,
            TuiImageMethod::Iterm2 => TuiImageMethod::Kitty,
            TuiImageMethod::Disabled => TuiImageMethod::Iterm2,
        }
    }
}

/// A method is determined by its position in the cycle.
pub proof fn lemma_image_method_index_injective(a: TuiImageMethod, b: TuiImageMethod)
    ensures
        image_method_index(a) == image_method_index(b) ==> a == b,
        0 <= image_method_index(a) < 6,
{
}

/// Stepping forward then back (or back then forward) in the image-method
/// cycle returns to where it started, and six steps forward go all the way
/// round.
pub proof fn lemma_image_method_cycle(m: TuiImageMethod, a: TuiImageMethod, b: TuiImageMethod)
    requires
        image_method_index(a) == (image_method_index(m) + 1) % 6,
        image_method_index(b) == (image_method_index(a) + 5) % 6,
    ensures
        b == m,
{
    lemma_image_method_index_injective(b, m);
}

/// Which icon style to use in the TUI.
#[derive(Clone, Copy, PartialEq, Eq, Debug, Structural)]
pub enum TuiIconSet {
    /// Nerd Fonts patched font icons.
    NerdFonts,
    /// Standard Unicode symbols.
    Unicode,
    /// Plain ASCII text.
    PlainText,
}

/// Position of an icon set in the settings cycle.
pub open spec fn icon_set_index(s: TuiIconSet) -> int {
    match s {
        TuiIconSet::NerdFonts => 0,
        TuiIconSet::Unicode => 1,
        TuiIconSet::PlainText => 2,
    }
}

pub open spec fn icon_set_label(s: TuiIconSet) -> Seq<char> {
    match s {
        TuiIconSet::NerdFonts => "Nerd Fonts"@,
        TuiIconSet::Unicode => "Unicode"@,
        TuiIconSet::PlainText => "Plain Text"@,
    }
}

impl TuiIconSet {
    pub fn label(self) -> (r: &'static str)
        ensures
            r@ == icon_set_label(self),
    {
        match self {
            TuiIconSet::NerdFonts => "Nerd Fonts",
            TuiIconSet::Unicode => "Unicode",
            TuiIconSet::PlainText => "Plain Text",
        }
    }

    pub fn next(self) -> (r: TuiIconSet)
        ensures
            icon_set_index(r) == (icon_set_index(self) + 1) % 3,
    {
        match self {
            TuiIconSet::NerdFonts => TuiIconSet::Unicode,
            TuiIconSet::Unicode => TuiIconSet::PlainText,
            TuiIconSet::PlainText => TuiIconSet::NerdFonts,
        }
    }

    pub fn prev(self) -> (r: TuiIconSet)
        ensures
            icon_set_index(r) == (icon_set_index(self) + 2) % 3,
    {
        match self {
            TuiIconSet::NerdFonts => TuiIconSet::PlainText,
            TuiIconSet::Unicode => TuiIconSet::NerdFonts,
            TuiIconSet::PlainText => TuiIconSet::Unicode,
        }
    }
}

/// Stepping forward then back in the icon-set cycle returns to where it
/// started.
pub proof fn lemma_icon_set_cycle(s: TuiIconSet, a: TuiIconSet, b: TuiIconSet)
    requires
        icon_set_index(a) == (icon_set_index(s) + 1) % 3,
        icon_set_index(b) == (icon_set_index(a) + 2) % 3,
    ensures
        b == s,
{
}

/// TUI-specific persistent settings.
#[derive(Clone, Copy, Debug)]
pub struct TuiSettings {
    pub image_method: TuiImageMethod,
    pub icon_set: TuiIconSet,
}

impl TuiSettings {
    /// The defaults: automatic image protocol, Nerd Font icons.
    pub fn new() -> (r: TuiSettings)
        ensures
            r.image_method == TuiImageMethod::Auto,
            r.icon_set == TuiIconSet::NerdFonts,
    {
        TuiSettings { image_method: TuiImageMethod::Auto, icon_set: TuiIconSet::NerdFonts }
    }
}

/// A cache from before album ids: it has albums and every id is empty.
pub open spec fn spec_is_legacy(result: LibraryScanResult) -> bool {
    let a = album_views(result.albums@);
    a.len() > 0 && forall|i: int| 0 <= i < a.len() ==> a[i].id.len() == 0
}

/// True if the cached result predates album ids (every album has an empty
/// id). Such a cache must be fully re-scanned, not incrementally reused, so
/// albums get stable ids and untagged singles split apart correctly.
pub fn is_legacy_cache(result: &LibraryScanResult) -> (r: bool)
    ensures
        r == spec_is_legacy(*result),
{
    let ghost a = album_views(result.albums@);
    if result.albums.len() == 0 {
        return false;
    }
    let mut i: usize = 0;
    while i < result.albums.len()
        invariant
            i <= result.albums@.len(),
            a == album_views(result.albums@),
            forall|j: int| 0 <= j < i ==> a[j].id.len() == 0,
        decreases result.albums@.len() - i,
    {
        if !result.albums[i].id.as_str().is_empty() {
            assert(a[i as int].id.len() != 0);
            return false;
        }
        assert(a[i as int].id.len() == 0);
        i = i + 1;
    }
    true
}
/// What the filesystem says of a scanned directory now.
#[derive(Clone, Copy, Debug)]
pub enum DirStat {
    /// The directory is gone.
    Missing,
    /// It exists, but its modification time cannot be read.
    Unknown,
    /// It exists and was last modified at this Unix second.
    Modified(u64),
}

/// The stored modification time of `dir`, from the first entry for it.
pub open spec fn stored_mtime(stored: Seq<(String, u64)>, dir: Seq<char>) -> Option<u64>
    decreases stored.len(),
{
    if stored.len() == 0 {
        None
    } else if crate::paths::same_path(stored[0].0@, dir) {
        Some(stored[0].1)
    } else {
        stored_mtime(stored.drop_first(), dir)
    }
}

/// A search root that exists but holds none of the scanned directories.
pub open spec fn root_uncovered(roots: Seq<Seq<char>>, exists: Seq<bool>, dirs: Seq<Seq<char>>) -> bool {
    exists|i: int| 0 <= i < roots.len() && i < exists.len() && #[trigger] exists[i] && !(exists|j: int|
        0 <= j < dirs.len() && crate::paths::path_starts_with(#[trigger] dirs[j], roots[i]))
}

/// A scanned directory that is gone, or whose modification time differs
/// from the stored one (files were added, removed or renamed in it).
pub open spec fn dir_touched(dirs: Seq<Seq<char>>, stats: Seq<DirStat>, stored: Seq<(String, u64)>) -> bool {
    exists|j: int| 0 <= j < dirs.len() && j < stats.len() && match #[trigger] stats[j] {
        DirStat::Missing => true,
        DirStat::Unknown => false,
        DirStat::Modified(m) => match stored_mtime(stored, dirs[j]) {
            Some(s) => s != m,
            None => false,
        },
    }
}

pub(crate) fn stored_mtime_of(stored: &Vec<(String, u64)>, dir: &str) -> (r: Option<u64>)
    ensures
        r == stored_mtime(stored@, dir@),
{
    let mut i: usize = 0;
    assert(stored@.skip(0) =~= stored@);
    while i < stored.len()
        invariant
            i <= stored@.len(),
            stored_mtime(stored@, dir@) == stored_mtime(stored@.skip(i as int), dir@),
        decreases stored@.len() - i,
    {
        assert(stored@.skip(i as int)[0] == stored@[i as int]);
        assert(stored@.skip(i as int).drop_first() =~= stored@.skip(i + 1));
        if crate::paths::same_path_str(stored[i].0.as_str(), dir) {
            return Some(stored[i].1);
        }
        i = i + 1;
    }
    None
}

/// No directory has two stored modification times (they are keyed by
/// directory, as in a map).
pub open spec fn mtimes_keyed_once(m: Seq<(String, u64)>) -> bool {
    forall|i: int, j: int| 0 <= i < j < m.len() ==> !crate::paths::same_path((#[trigger] m[i]).0@, (#[trigger] m[j]).0@)
}

/// The stored time of `dir` is that of the first entry naming it; there is
/// none exactly when no entry names it; and when every directory is stored
/// once, any entry naming it holds that time.
pub proof fn lemma_stored_mtime(m: Seq<(String, u64)>, dir: Seq<char>)
    ensures
        stored_mtime(m, dir) is None <==> forall|i: int| 0 <= i < m.len() ==> !crate::paths::same_path((#[trigger] m[i]).0@, dir),
        mtimes_keyed_once(m) ==> forall|i: int| 0 <= i < m.len() && crate::paths::same_path((#[trigger] m[i]).0@, dir)
            ==> stored_mtime(m, dir) == Some(m[i].1),
    decreases m.len(),
{
    if m.len() > 0 {
        let r = m.drop_first();
        lemma_stored_mtime(r, dir);
        assert(forall|i: int| 0 <= i < r.len() ==> r[i] == m[i + 1]);
        assert forall|i: int| 0 <= i < m.len() && !crate::paths::same_path(m[0].0@, dir) implies (
            crate::paths::same_path((#[trigger] m[i]).0@, dir) <==> (i > 0 && crate::paths::same_path(r[i - 1].0@, dir))) by {}
        if mtimes_keyed_once(m) {
            assert(mtimes_keyed_once(r)) by {
                assert forall|a: int, b: int| 0 <= a < b < r.len() implies !crate::paths::same_path((#[trigger] r[a]).0@, (#[trigger] r[b]).0@) by {
                    assert(r[a] == m[a + 1] && r[b] == m[b + 1]);
                }
            }
            assert forall|i: int| 0 <= i < m.len() && crate::paths::same_path((#[trigger] m[i]).0@, dir)
                implies stored_mtime(m, dir) == Some(m[i].1) by {
                if i > 0 && crate::paths::same_path(m[0].0@, dir) {
                    assert(!crate::paths::same_path(m[0].0@, m[i].0@));
                }
                if i > 0 && !crate::paths::same_path(m[0].0@, dir) {
                    assert(r[i - 1] == m[i]);
                }
            }
        }
    }
}

/// Store `mtime` as the modification time of `dir`: an entry naming the same
/// directory gets the new time (keeping its spelling), else the directory is
/// appended. Every other directory keeps its time.
pub fn record_dir_mtime(mtimes: &mut Vec<(String, u64)>, dir: &str, mtime: u64)
    requires
        mtimes_keyed_once(old(mtimes)@),
    ensures
        mtimes_keyed_once(final(mtimes)@),
        stored_mtime(final(mtimes)@, dir@) == Some(mtime),
        forall|d: Seq<char>| !crate::paths::same_path(d, dir@) ==> #[trigger] stored_mtime(final(mtimes)@, d)
            == stored_mtime(old(mtimes)@, d),
        final(mtimes)@.len() == old(mtimes)@.len() + (if stored_mtime(old(mtimes)@, dir@) is Some { 0int } else { 1int }),
{
    let ghost m0 = mtimes@;
    proof {
        lemma_stored_mtime(m0, dir@);
    }
    let mut i: usize = 0;
    while i < mtimes.len()
        invariant
            i <= mtimes@.len(),
            mtimes@ == m0,
            m0 == old(mtimes)@,
            mtimes_keyed_once(m0),
            forall|k: int| 0 <= k < i ==> !crate::paths::same_path((#[trigger] m0[k]).0@, dir@),
        decreases mtimes@.len() - i,
    {
        if crate::paths::same_path_str(mtimes[i].0.as_str(), dir) {
            let name = mtimes[i].0.clone();
            mtimes.set(i, (name, mtime));
            proof {
                lemma_stored_mtime(m0, dir@);
                assert(crate::paths::same_path(m0[i as int].0@, dir@));
                assert(stored_mtime(m0, dir@) is Some);
                let m1 = mtimes@;
                assert(m1[i as int].0@ == m0[i as int].0@);
                assert(mtimes_keyed_once(m1)) by {
                    assert forall|a: int, b: int| 0 <= a < b < m1.len() implies !crate::paths::same_path((#[trigger] m1[a]).0@, (#[trigger] m1[b]).0@) by {
                        assert(m1[a].0@ == m0[a].0@ && m1[b].0@ == m0[b].0@);
                    }
                }
                lemma_stored_mtime(m1, dir@);
                assert forall|d: Seq<char>| !crate::paths::same_path(d, dir@) implies #[trigger] stored_mtime(m1, d)
                    == stored_mtime(m0, d) by {
                    lemma_stored_mtime(m1, d);
                    lemma_stored_mtime(m0, d);
                    assert(!crate::paths::same_path(m1[i as int].0@, d));
                    if stored_mtime(m0, d) is Some {
                        let j = choose|j: int| 0 <= j < m0.len() && crate::paths::same_path((#[trigger] m0[j]).0@, d);
                        assert(j != i);
                        assert(m1[j] == m0[j]);
                        assert(stored_mtime(m0, d) == Some(m0[j].1));
                        assert(stored_mtime(m1, d) == Some(m1[j].1));
                    } else {
                        assert forall|j: int| 0 <= j < m1.len() implies !crate::paths::same_path((#[trigger] m1[j]).0@, d) by {
                            if j != i {
                                assert(m1[j] == m0[j]);
                            }
                        }
                    }
                }
            }
            return;
        }
        i = i + 1;
    }
    let name = crate::text::string_from_chars(crate::text::chars_of(dir).as_slice());
    mtimes.push((name, mtime));
    proof {
        let m1 = mtimes@;
        assert(m1[m0.len() as int].0@ == dir@);
        assert(forall|k: int| 0 <= k < m0.len() ==> m1[k] == m0[k]);
        assert(mtimes_keyed_once(m1)) by {
            assert forall|a: int, b: int| 0 <= a < b < m1.len() implies !crate::paths::same_path((#[trigger] m1[a]).0@, (#[trigger] m1[b]).0@) by {
                if b == m0.len() {
                    assert(!crate::paths::same_path(m0[a].0@, dir@));
                }
            }
        }
        lemma_stored_mtime(m1, dir@);
        assert forall|d: Seq<char>| !crate::paths::same_path(d, dir@) implies #[trigger] stored_mtime(m1, d)
            == stored_mtime(m0, d) by {
            lemma_stored_mtime(m1, d);
            lemma_stored_mtime(m0, d);
            assert(!crate::paths::same_path(m1[m0.len() as int].0@, d));
            if stored_mtime(m0, d) is Some {
                let j = choose|j: int| 0 <= j < m0.len() && crate::paths::same_path((#[trigger] m0[j]).0@, d);
                assert(m1[j] == m0[j]);
            } else {
                assert forall|j: int| 0 <= j < m1.len() implies !crate::paths::same_path((#[trigger] m1[j]).0@, d) by {
                    if j < m0.len() {
                        assert(m1[j] == m0[j]);
                    }
                }
            }
        }
    }
}

/// Whether the library on disk changed since the scan that produced `dirs`
/// and `dir_mtimes`: a search root that exists (`root_exists`, one per root)
/// is not covered by any scanned directory, or a scanned directory is gone or
/// was modified (`stats`, one per directory, as the caller found them).
pub fn dirs_changed(search_paths: &Vec<String>, root_exists: &Vec<bool>, dirs: &Vec<String>, stats: &Vec<DirStat>, dir_mtimes: &Vec<(String, u64)>) -> (r: bool)
    ensures
        r == (root_uncovered(str_views(search_paths@), root_exists@, str_views(dirs@)) || dir_touched(
            str_views(dirs@),
            stats@,
            dir_mtimes@,
        )),
{
    let ghost roots = str_views(search_paths@);
    let ghost ds = str_views(dirs@);
    let mut i: usize = 0;
    while i < search_paths.len()
        invariant
            i <= search_paths@.len(),
            roots == str_views(search_paths@),
            ds == str_views(dirs@),
            forall|k: int| 0 <= k < i && k < root_exists@.len() && #[trigger] root_exists@[k] ==> (exists|j: int|
                0 <= j < ds.len() && crate::paths::path_starts_with(#[trigger] ds[j], roots[k])),
        decreases search_paths@.len() - i,
    {
        if i < root_exists.len() && root_exists[i] {
            let mut covered = false;
            let mut j: usize = 0;
            while j < dirs.len()
                invariant
                    j <= dirs@.len(),
                    i < search_paths@.len(),
                    roots == str_views(search_paths@),
                    ds == str_views(dirs@),
                    covered ==> exists|q: int| 0 <= q < ds.len() && crate::paths::path_starts_with(#[trigger] ds[q], roots[i as int]),
                    !covered ==> forall|q: int| 0 <= q < j ==> !crate::paths::path_starts_with(#[trigger] ds[q], roots[i as int]),
                decreases dirs@.len() - j,
            {
                if !covered && crate::paths::starts_with_str(dirs[j].as_str(), search_paths[i].as_str()) {
                    assert(crate::paths::path_starts_with(ds[j as int], roots[i as int]));
                    covered = true;
                }
                j = j + 1;
            }
            if !covered {
                assert(root_uncovered(roots, root_exists@, ds));
                return true;
            }
        }
        i = i + 1;
    }
    assert(!root_uncovered(roots, root_exists@, ds));
    let mut j: usize = 0;
    while j < dirs.len()
        invariant
            j <= dirs@.len(),
            ds == str_views(dirs@),
            forall|k: int| 0 <= k < j && k < stats@.len() ==> match #[trigger] stats@[k] {
                DirStat::Missing => false,
                DirStat::Unknown => true,
                DirStat::Modified(m) => match stored_mtime(dir_mtimes@, ds[k]) {
                    Some(s) => s == m,
                    None => true,
                },
            },
        decreases dirs@.len() - j,
    {
        if j < stats.len() {
            match stats[j] {
                DirStat::Missing => {
                    assert(dir_touched(ds, stats@, dir_mtimes@));
                    return true;
                },
                DirStat::Unknown => {},
                DirStat::Modified(m) => {
                    match stored_mtime_of(dir_mtimes, dirs[j].as_str()) {
                        Some(s) => {
                            if s != m {
                                assert(dir_touched(ds, stats@, dir_mtimes@));
                                return true;
                            }
                        },
                        None => {},
                    }
                },
            }
        }
        j = j + 1;
    }
    false
}

/// Whether a cached scan is stale and the library must be rescanned, given
/// what the filesystem says now of the search roots and scanned directories.
pub fn needs_rescan(settings: &LibrarySettings, result: &LibraryScanResult, root_exists: &Vec<bool>, stats: &Vec<DirStat>) -> (r: bool)
    ensures
        r == (root_uncovered(str_views(settings.search_paths@), root_exists@, str_views(result.dirs@))
            || dir_touched(str_views(result.dirs@), stats@, result.dir_mtimes@)),
{
    dirs_changed(&settings.search_paths, root_exists, &result.dirs, stats, &result.dir_mtimes)
}

} // verus!
