//! The terminal frontend's library view: its folder history and the rows it
//! lists (the disc, folders and albums).

use vstd::prelude::*;
use crate::library::{album_views, str_views, AlbumRec, LibraryAlbum, LibraryScanResult, LibrarySettings};
use crate::library_controller::{has_path, or_text, contains_path};
use crate::paths::{components, file_name, file_name_of, parent_components, parent_is, same_path, same_path_str};
use crate::text::string_from_chars;

verus! {

/// A row of the library list.
#[derive(Debug)]
pub enum TuiLibraryNode {
    Folder { path: String, name: String },
    Album { album: LibraryAlbum },
    Cd,
}

/// A row as plain values.
pub enum NodeRec {
    Folder(Seq<char>, Seq<char>),
    Album(AlbumRec),
    Cd,
}

impl View for TuiLibraryNode {
    type V = NodeRec;

    open spec fn view(&self) -> NodeRec {
        match self {
            TuiLibraryNode::Folder { path, name } => NodeRec::Folder(path@, name@),
            TuiLibraryNode::Album { album } => NodeRec::Album(album@),
            TuiLibraryNode::Cd => NodeRec::Cd,
        }
    }
}

pub open spec fn node_views(v: Seq<TuiLibraryNode>) -> Seq<NodeRec> {
    Seq::new(v.len(), |i: int| v[i]@)
}

impl TuiLibraryNode {
    /// The row's title: the folder's name, the album's title, or "Audio CD".
    pub fn name(&self) -> (r: &str)
        ensures
            r@ == match self@ {
                NodeRec::Folder(_, n) => n,
                NodeRec::Album(a) => a.album,
                NodeRec::Cd => "Audio CD"@,
            },
    {
        match self {
            TuiLibraryNode::Folder { name, .. } => name.as_str(),
            TuiLibraryNode::Album { album } => album.album.as_str(),
            TuiLibraryNode::Cd => "Audio CD",
        }
    }

    /// The row's second column: an album's artist, else empty.
    pub fn sub(&self) -> (r: &str)
        ensures
            r@ == match self@ {
                NodeRec::Album(a) => a.album_artist,
                _ => Seq::empty(),
            },
    {
        proof {
            reveal_strlit("");
        }
        match self {
            TuiLibraryNode::Album { album } => album.album_artist.as_str(),
            _ => "",
        }
    }

    /// The row's year: an album's, else empty.
    pub fn year(&self) -> (r: &str)
        ensures
            r@ == match self@ {
                NodeRec::Album(a) => a.year,
                _ => Seq::empty(),
            },
    {
        proof {
            reveal_strlit("");
        }
        match self {
            TuiLibraryNode::Album { album } => album.year.as_str(),
            _ => "",
        }
    }

    /// The row's icon.
    pub fn icon(&self) -> (r: &str)
        ensures
            r@ == match self@ {
                NodeRec::Folder(_, _) => "\u{25b6}"@,
                NodeRec::Album(_) => "\u{266a}"@,
                NodeRec::Cd => "\u{2299}"@,
            },
    {
        match self {
            TuiLibraryNode::Folder { .. } => "\u{25b6}",
            TuiLibraryNode::Album { .. } => "\u{266a}",
            TuiLibraryNode::Cd => "\u{2299}",
        }
    }
}

/// `d` sits directly in `root`.
pub open spec fn child_of(d: Seq<char>, root: Seq<char>) -> bool {
    parent_components(d) == Some(components(root))
}

/// The row of folder `d`, named by its last component.
pub open spec fn folder_node(d: Seq<char>) -> NodeRec {
    NodeRec::Folder(d, or_text(file_name(d), Seq::empty()))
}

/// Whether `nodes` already lists an album of folder `dir`.
pub open spec fn lists_album_in(nodes: Seq<NodeRec>, dir: Seq<char>) -> bool {
    exists|i: int| 0 <= i < nodes.len() && (#[trigger] nodes[i] matches NodeRec::Album(a) && same_path(a.dir, dir))
}

/// The folders of `dirs` directly in `root` and not listed yet, appended in
/// order; `seen` holds the folders listed so far.
pub open spec fn root_folders(nodes: Seq<NodeRec>, seen: Seq<Seq<char>>, root: Seq<char>, dirs: Seq<Seq<char>>) -> (Seq<NodeRec>, Seq<Seq<char>>)
    decreases dirs.len(),
{
    if dirs.len() == 0 {
        (nodes, seen)
    } else {
        let p = root_folders(nodes, seen, root, dirs.drop_last());
        let d = dirs.last();
        if child_of(d, root) && !has_path(p.1, d) {
            (p.0.push(folder_node(d)), p.1.push(d))
        } else {
            p
        }
    }
}

/// The albums of `albums` directly in `root` whose folder is not listed
/// yet, appended in order.
pub open spec fn root_album_nodes(nodes: Seq<NodeRec>, root: Seq<char>, albums: Seq<AlbumRec>) -> Seq<NodeRec>
    decreases albums.len(),
{
    if albums.len() == 0 {
        nodes
    } else {
        let n = root_album_nodes(nodes, root, albums.drop_last());
        let a = albums.last();
        if child_of(a.dir, root) && !lists_album_in(n, a.dir) {
            n.push(NodeRec::Album(a))
        } else {
            n
        }
    }
}

/// Each search root in turn: its folders, then its albums.
pub open spec fn roots_walk(nodes: Seq<NodeRec>, seen: Seq<Seq<char>>, roots: Seq<Seq<char>>, albums: Seq<AlbumRec>, dirs: Seq<Seq<char>>) -> (Seq<NodeRec>, Seq<Seq<char>>)
    decreases roots.len(),
{
    if roots.len() == 0 {
        (nodes, seen)
    } else {
        let p = roots_walk(nodes, seen, roots.drop_last(), albums, dirs);
        let r = roots.last();
        let q = root_folders(p.0, p.1, r, dirs);
        (root_album_nodes(q.0, r, albums), q.1)
    }
}

/// A row for each album.
pub open spec fn album_nodes(albums: Seq<AlbumRec>) -> Seq<NodeRec> {
    Seq::new(albums.len(), |i: int| NodeRec::Album(albums[i]))
}

/// The rows inside folder `cur`: its sub-folders that are not hidden, then
/// the albums in it or directly under it.
pub open spec fn folder_rows(s: LibrarySettings, albums: Seq<AlbumRec>, dirs: Seq<Seq<char>>, cur: Seq<char>) -> Seq<NodeRec> {
    sub_folders(s, dirs, cur) + albums_at(albums, cur)
}

pub open spec fn sub_folders(s: LibrarySettings, dirs: Seq<Seq<char>>, cur: Seq<char>) -> Seq<NodeRec>
    decreases dirs.len(),
{
    if dirs.len() == 0 {
        Seq::empty()
    } else {
        let n = sub_folders(s, dirs.drop_last(), cur);
        let d = dirs.last();
        if child_of(d, cur) && !has_path(str_views(s.ignored_folders@), d) {
            n.push(folder_node(d))
        } else {
            n
        }
    }
}

pub open spec fn albums_at(albums: Seq<AlbumRec>, cur: Seq<char>) -> Seq<NodeRec>
    decreases albums.len(),
{
    if albums.len() == 0 {
        Seq::empty()
    } else {
        let n = albums_at(albums.drop_last(), cur);
        let a = albums.last();
        if child_of(a.dir, cur) || same_path(a.dir, cur) {
            n.push(NodeRec::Album(a))
        } else {
            n
        }
    }
}

/// The rows of the library view. At the root: the disc first when one is
/// loaded, then every album when all folders are merged; otherwise each
/// search root's folders and albums, or every album when that lists
/// nothing. Inside a folder: its rows.
pub open spec fn library_rows(s: LibrarySettings, albums: Seq<AlbumRec>, dirs: Seq<Seq<char>>, cur: Option<Seq<char>>, has_cd: bool) -> Seq<NodeRec> {
    match cur {
        None => {
            let start: Seq<NodeRec> = if has_cd { seq![NodeRec::Cd] } else { Seq::empty() };
            if s.merge_all_folders {
                start + album_nodes(albums)
            } else {
                let w = roots_walk(start, Seq::empty(), str_views(s.search_paths@), albums, dirs).0;
                if w.len() == 0 {
                    album_nodes(albums)
                } else {
                    w
                }
            }
        },
        Some(c) => folder_rows(s, albums, dirs, c),
    }
}

fn folder_row(d: &String) -> (r: TuiLibraryNode)
    ensures
        r@ == folder_node(d@),
{
    let name = match file_name_of(d.as_str()) {
        Some(v) => string_from_chars(v.as_slice()),
        None => String::new(),
    };
    TuiLibraryNode::Folder { path: d.clone(), name }
}

fn lists_album(nodes: &Vec<TuiLibraryNode>, dir: &String) -> (r: bool)
    ensures
        r == lists_album_in(node_views(nodes@), dir@),
{
    let mut i: usize = 0;
    while i < nodes.len()
        invariant
            i <= nodes@.len(),
            forall|j: int| 0 <= j < i ==> !(#[trigger] node_views(nodes@)[j] matches NodeRec::Album(a) && same_path(a.dir, dir@)),
        decreases nodes@.len() - i,
    {
        match &nodes[i] {
            TuiLibraryNode::Album { album } => {
                if same_path_str(album.dir.as_str(), dir.as_str()) {
                    assert(node_views(nodes@)[i as int] matches NodeRec::Album(a) && same_path(a.dir, dir@));
                    return true;
                }
            },
            _ => {},
        }
        i = i + 1;
    }
    false
}

fn walk_root(nodes: &mut Vec<TuiLibraryNode>, seen: &mut Vec<String>, root: &String, r: &LibraryScanResult)
    ensures
        ({
            let q = root_folders(node_views(old(nodes)@), str_views(old(seen)@), root@, str_views(r.dirs@));
            &&& node_views(final(nodes)@) == root_album_nodes(q.0, root@, album_views(r.albums@))
            &&& str_views(final(seen)@) == q.1
        }),
{
    let ghost n0 = node_views(nodes@);
    let ghost s0 = str_views(seen@);
    let mut i: usize = 0;
    while i < r.dirs.len()
        invariant
            i <= r.dirs@.len(),
            root_folders(n0, s0, root@, str_views(r.dirs@.take(i as int))) == (node_views(nodes@), str_views(seen@)),
        decreases r.dirs@.len() - i,
    {
        let d = &r.dirs[i];
        assert(str_views(r.dirs@.take(i + 1)).drop_last() =~= str_views(r.dirs@.take(i as int)));
        let ghost nv = node_views(nodes@);
        let ghost sv = str_views(seen@);
        if parent_is(d.as_str(), root.as_str()) && !contains_path(seen, d.as_str()) {
            nodes.push(folder_row(d));
            seen.push(d.clone());
            assert(node_views(nodes@) =~= nv.push(folder_node(d@)));
            assert(str_views(seen@) =~= sv.push(d@));
        }
        i = i + 1;
    }
    assert(r.dirs@.take(i as int) =~= r.dirs@);
    let ghost n1 = node_views(nodes@);
    let mut k: usize = 0;
    while k < r.albums.len()
        invariant
            k <= r.albums@.len(),
            node_views(nodes@) == root_album_nodes(n1, root@, album_views(r.albums@.take(k as int))),
        decreases r.albums@.len() - k,
    {
        let a = &r.albums[k];
        assert(album_views(r.albums@.take(k + 1)).drop_last() =~= album_views(r.albums@.take(k as int)));
        let ghost nv = node_views(nodes@);
        if parent_is(a.dir.as_str(), root.as_str()) && !lists_album(nodes, &a.dir) {
            nodes.push(TuiLibraryNode::Album { album: a.copied() });
            assert(node_views(nodes@) =~= nv.push(NodeRec::Album(a@)));
        }
        k = k + 1;
    }
    assert(r.albums@.take(k as int) =~= r.albums@);
}

fn all_album_rows(nodes: &mut Vec<TuiLibraryNode>, albums: &Vec<LibraryAlbum>)
    ensures
        node_views(final(nodes)@) == node_views(old(nodes)@) + album_nodes(album_views(albums@)),
{
    let ghost n0 = node_views(nodes@);
    let mut k: usize = 0;
    while k < albums.len()
        invariant
            k <= albums@.len(),
            node_views(nodes@) == n0 + album_nodes(album_views(albums@.take(k as int))),
        decreases albums@.len() - k,
    {
        let ghost nv = node_views(nodes@);
        nodes.push(TuiLibraryNode::Album { album: albums[k].copied() });
        assert(node_views(nodes@) =~= nv.push(NodeRec::Album(albums@[k as int]@)));
        assert(album_nodes(album_views(albums@.take(k + 1))) =~= album_nodes(album_views(albums@.take(k as int))).push(
            NodeRec::Album(albums@[k as int]@),
        ));
        k = k + 1;
        assert(node_views(nodes@) =~= n0 + album_nodes(album_views(albums@.take(k as int))));
    }
    assert(albums@.take(k as int) =~= albums@);
}

/// The rows of the library view (see `library_rows`).
pub fn library_nodes(s: &LibrarySettings, r: &LibraryScanResult, cur: &Option<String>, has_cd: bool) -> (nodes: Vec<TuiLibraryNode>)
    ensures
        node_views(nodes@) == library_rows(
            *s,
            album_views(r.albums@),
            str_views(r.dirs@),
            match cur {
                Some(c) => Some(c@),
                None => None,
            },
            has_cd,
        ),
{
    let mut nodes: Vec<TuiLibraryNode> = Vec::new();
    match cur {
        None => {
            if has_cd {
                nodes.push(TuiLibraryNode::Cd);
            }
            let ghost start = node_views(nodes@);
            assert(start =~= if has_cd { seq![NodeRec::Cd] } else { Seq::<NodeRec>::empty() });
            if s.merge_all_folders {
                all_album_rows(&mut nodes, &r.albums);
                return nodes;
            }
            let mut seen: Vec<String> = Vec::new();
            let mut i: usize = 0;
            assert(str_views(seen@) =~= Seq::<Seq<char>>::empty());
            while i < s.search_paths.len()
                invariant
                    i <= s.search_paths@.len(),
                    roots_walk(start, Seq::empty(), str_views(s.search_paths@.take(i as int)), album_views(r.albums@), str_views(r.dirs@))
                        == (node_views(nodes@), str_views(seen@)),
                decreases s.search_paths@.len() - i,
            {
                assert(str_views(s.search_paths@.take(i + 1)).drop_last() =~= str_views(s.search_paths@.take(i as int)));
                walk_root(&mut nodes, &mut seen, &s.search_paths[i], r);
                i = i + 1;
            }
            assert(s.search_paths@.take(i as int) =~= s.search_paths@);
            if nodes.len() == 0 {
                all_album_rows(&mut nodes, &r.albums);
                assert(node_views(nodes@) =~= album_nodes(album_views(r.albums@)));
            }
            nodes
        },
        Some(c) => {
            let mut i: usize = 0;
            while i < r.dirs.len()
                invariant
                    i <= r.dirs@.len(),
                    node_views(nodes@) == sub_folders(*s, str_views(r.dirs@.take(i as int)), c@),
                decreases r.dirs@.len() - i,
            {
                let d = &r.dirs[i];
                assert(str_views(r.dirs@.take(i + 1)).drop_last() =~= str_views(r.dirs@.take(i as int)));
                let ghost nv = node_views(nodes@);
                if parent_is(d.as_str(), c.as_str()) && !contains_path(&s.ignored_folders, d.as_str()) {
                    nodes.push(folder_row(d));
                    assert(node_views(nodes@) =~= nv.push(folder_node(d@)));
                }
                i = i + 1;
            }
            assert(r.dirs@.take(i as int) =~= r.dirs@);
            let ghost folders = node_views(nodes@);
            let mut k: usize = 0;
            assert(folders + albums_at(album_views(r.albums@.take(0)), c@) =~= folders);
            while k < r.albums.len()
                invariant
                    k <= r.albums@.len(),
                    node_views(nodes@) == folders + albums_at(album_views(r.albums@.take(k as int)), c@),
                decreases r.albums@.len() - k,
            {
                let a = &r.albums[k];
                assert(album_views(r.albums@.take(k + 1)).drop_last() =~= album_views(r.albums@.take(k as int)));
                let ghost nv = node_views(nodes@);
                if parent_is(a.dir.as_str(), c.as_str()) || same_path_str(a.dir.as_str(), c.as_str()) {
                    nodes.push(TuiLibraryNode::Album { album: a.copied() });
                    assert(node_views(nodes@) =~= nv.push(NodeRec::Album(a@)));
                }
                k = k + 1;
                assert(node_views(nodes@) =~= folders + albums_at(album_views(r.albums@.take(k as int)), c@));
            }
            assert(r.albums@.take(k as int) =~= r.albums@);
            nodes
        },
    }
}


// ─── The view's state ────────────────────────────────────────────────────────

/// The terminal library view: settings, the latest scan, the folder history
/// and the rows shown.
pub struct TuiLibrary {
    pub settings: LibrarySettings,
    pub scan_result: Option<LibraryScanResult>,
    /// Folders opened, oldest first; the view shows `nav_stack[nav_idx]`, or
    /// the library root when the history is empty.
    pub nav_stack: Vec<String>,
    pub nav_idx: usize,
    pub nodes: Vec<TuiLibraryNode>,
}

/// The folder a history shows: entry `idx`, or the root (`None`) when it is
/// empty.
pub open spec fn shown_in(h: Seq<Seq<char>>, idx: int) -> Option<Seq<char>> {
    if h.len() == 0 {
        None
    } else {
        Some(h[idx])
    }
}

impl TuiLibrary {
    /// The history position is an entry of it, and 0 when it is empty.
    pub open spec fn wf(&self) -> bool {
        if self.nav_stack@.len() == 0 {
            self.nav_idx == 0
        } else {
            self.nav_idx < self.nav_stack@.len()
        }
    }

    pub open spec fn history(&self) -> Seq<Seq<char>> {
        str_views(self.nav_stack@)
    }

    /// The folder shown, `None` at the root.
    pub open spec fn shown(&self) -> Option<Seq<char>> {
        shown_in(self.history(), self.nav_idx as int)
    }

    /// A view at the root with no scan yet.
    pub fn new(settings: LibrarySettings) -> (l: Self)
        ensures
            l.wf(),
            l.settings == settings,
            l.scan_result is None,
            l.nav_stack@.len() == 0,
            l.nodes@.len() == 0,
    {
        TuiLibrary { settings, scan_result: None, nav_stack: Vec::new(), nav_idx: 0, nodes: Vec::new() }
    }

    /// Open folder `path`: the forward history is dropped and `path` becomes
    /// the newest entry, shown.
    pub fn navigate_to(&mut self, path: String)
        requires
            old(self).wf(),
            old(self).nav_stack@.len() < usize::MAX,
        ensures
            final(self).wf(),
            final(self).history() == (if old(self).nav_stack@.len() == 0 {
                seq![path@]
            } else {
                old(self).history().take(old(self).nav_idx + 1).push(path@)
            }),
            final(self).nav_idx == final(self).nav_stack@.len() - 1,
            final(self).shown() == Some(path@),
            final(self).settings == old(self).settings,
            final(self).scan_result == old(self).scan_result,
    {
        let ghost h = self.history();
        let ghost v0 = self.nav_stack@;
        let idx = self.nav_idx;
        let len = self.nav_stack.len();
        if idx + 1 < len {
            self.nav_stack.truncate(idx + 1);
            assert(self.nav_stack@ =~= v0.take(idx + 1));
            assert(str_views(self.nav_stack@) =~= h.take(idx + 1));
        } else if len > 0 {
            assert(h.take(idx + 1) =~= h);
        }
        self.nav_stack.push(path);
        self.nav_idx = self.nav_stack.len() - 1;
        assert(self.history() =~= if len == 0 {
            seq![path@]
        } else {
            h.take(idx + 1).push(path@)
        });
    }

    /// Go back one folder; from the oldest entry, back to the root (the
    /// history is dropped).
    pub fn navigate_back(&mut self)
        requires
            old(self).wf(),
        ensures
            final(self).wf(),
            old(self).nav_idx > 0 ==> final(self).nav_stack == old(self).nav_stack && final(self).nav_idx
                == old(self).nav_idx - 1,
            old(self).nav_idx == 0 ==> final(self).nav_stack@.len() == 0 && final(self).nav_idx == 0,
            final(self).settings == old(self).settings,
            final(self).scan_result == old(self).scan_result,
    {
        if self.nav_idx > 0 {
            self.nav_idx = self.nav_idx - 1;
        } else {
            self.nav_stack.clear();
            self.nav_idx = 0;
        }
    }

    /// Go forward one folder, if the history has one.
    pub fn navigate_forward(&mut self)
        requires
            old(self).wf(),
        ensures
            final(self).wf(),
            final(self).nav_stack == old(self).nav_stack,
            final(self).nav_idx == (if old(self).nav_idx + 1 < old(self).nav_stack@.len() {
                old(self).nav_idx + 1
            } else {
                old(self).nav_idx as int
            }),
            final(self).settings == old(self).settings,
            final(self).scan_result == old(self).scan_result,
    {
        let l = self.nav_stack.len();
        if self.nav_idx < l && self.nav_idx + 1 < l {
            self.nav_idx = self.nav_idx + 1;
        }
    }

    /// Back to the library root; the history is dropped.
    pub fn navigate_to_root(&mut self)
        ensures
            final(self).wf(),
            final(self).nav_stack@.len() == 0,
            final(self).settings == old(self).settings,
            final(self).scan_result == old(self).scan_result,
    {
        self.nav_stack.clear();
        self.nav_idx = 0;
    }

    /// Whether going back changes the view: a folder is shown.
    pub fn can_go_back(&self) -> (r: bool)
        ensures
            r == (self.nav_idx > 0 || self.nav_stack@.len() > 0),
    {
        self.nav_idx > 0 || self.nav_stack.len() > 0
    }

    /// Whether the history has a newer entry.
    pub fn can_go_forward(&self) -> (r: bool)
        ensures
            r == (self.nav_idx + 1 < self.nav_stack@.len()),
    {
        self.nav_idx < self.nav_stack.len() && self.nav_idx + 1 < self.nav_stack.len()
    }

    /// The folder shown, `None` at the root.
    pub fn current_dir(&self) -> (r: Option<String>)
        requires
            self.wf(),
        ensures
            match self.shown() {
                None => r is None,
                Some(d) => r matches Some(s) && s@ == d,
            },
    {
        if self.nav_stack.len() == 0 {
            None
        } else {
            Some(self.nav_stack[self.nav_idx].clone())
        }
    }

    /// Rebuild the rows: none before a scan; else the rows of the folder
    /// shown (see `library_rows`), the disc first at the root when
    /// `has_cd`.
    pub fn refresh_nodes(&mut self, has_cd: bool)
        requires
            old(self).wf(),
        ensures
            final(self).wf(),
            final(self).settings == old(self).settings,
            final(self).scan_result == old(self).scan_result,
            final(self).nav_stack == old(self).nav_stack,
            final(self).nav_idx == old(self).nav_idx,
            match old(self).scan_result {
                None => final(self).nodes@.len() == 0,
                Some(r) => node_views(final(self).nodes@) == library_rows(
                    old(self).settings,
                    album_views(r.albums@),
                    str_views(r.dirs@),
                    old(self).shown(),
                    has_cd,
                ),
            },
    {
        let cur = self.current_dir();
        let nodes = match &self.scan_result {
            None => Vec::new(),
            Some(r) => library_nodes(&self.settings, r, &cur, has_cd),
        };
        proof {
            let cv = match cur {
                Some(c) => Some(c@),
                None => None,
            };
            assert(cv == self.shown());
        }
        self.nodes = nodes;
    }

    /// The track files of the album in folder `dir` (the first one listed),
    /// none when the scan has no such album.
    pub fn album_tracks(&self, dir: &str) -> (r: Vec<String>)
        ensures
            match self.scan_result {
                None => r@.len() == 0,
                Some(res) => {
                    let albums = album_views(res.albums@);
                    &&& (forall|i: int| 0 <= i < albums.len() ==> !same_path(#[trigger] albums[i].dir, dir@))
                        ==> r@.len() == 0
                    &&& forall|i: int| 0 <= i < albums.len() && same_path(#[trigger] albums[i].dir, dir@)
                        && (forall|j: int| 0 <= j < i ==> !same_path(#[trigger] albums[j].dir, dir@))
                        ==> str_views(r@) == albums[i].track_paths
                },
            },
    {
        match &self.scan_result {
            None => Vec::new(),
            Some(res) => {
                let mut i: usize = 0;
                while i < res.albums.len()
                    invariant
                        i <= res.albums@.len(),
                        self.scan_result == Some(*res),
                        forall|j: int| 0 <= j < i ==> !same_path(#[trigger] album_views(res.albums@)[j].dir, dir@),
                    decreases res.albums@.len() - i,
                {
                    if same_path_str(res.albums[i].dir.as_str(), dir) {
                        let mut out: Vec<String> = Vec::new();
                        let t = &res.albums[i].track_paths;
                        let mut k: usize = 0;
                        while k < t.len()
                            invariant
                                k <= t@.len(),
                                self.scan_result == Some(*res),
                                out@.len() == k,
                                forall|m: int| 0 <= m < k ==> (#[trigger] out@[m])@ == t@[m]@,
                            decreases t@.len() - k,
                        {
                            out.push(t[k].clone());
                            k = k + 1;
                        }
                        assert(str_views(out@) =~= str_views(t@));
                        proof {
                            let albums = album_views(res.albums@);
                            assert(same_path(albums[i as int].dir, dir@));
                            assert forall|m: int| 0 <= m < albums.len() && same_path(#[trigger] albums[m].dir, dir@)
                                && (forall|j: int| 0 <= j < m ==> !same_path(#[trigger] albums[j].dir, dir@))
                                implies str_views(out@) == albums[m].track_paths by {
                                if m < i {
                                } else if m > i {
                                    assert(same_path(albums[i as int].dir, dir@));
                                }
                            }
                        }
                        return out;
                    }
                    i = i + 1;
                }
                Vec::new()
            },
        }
    }
}

/// In the terminal view, opening a folder and then going back always shows
/// again what was shown before: the folder, or the root. (`b` is `a` after
/// `navigate_to(p)`, `c` is `b` after `navigate_back`, as their contracts
/// state.)
pub proof fn lemma_tui_back_after_navigate(a: TuiLibrary, b: TuiLibrary, c: TuiLibrary, p: Seq<char>)
    requires
        a.wf(),
        b.history() == (if a.nav_stack@.len() == 0 {
            seq![p]
        } else {
            a.history().take(a.nav_idx + 1).push(p)
        }),
        b.nav_idx == b.nav_stack@.len() - 1,
        b.nav_idx > 0 ==> c.nav_stack == b.nav_stack && c.nav_idx == b.nav_idx - 1,
        b.nav_idx == 0 ==> c.nav_stack@.len() == 0 && c.nav_idx == 0,
    ensures
        c.shown() == a.shown(),
{
    assert(b.history().len() == b.nav_stack@.len());
    if b.nav_idx > 0 {
        assert(c.history() == b.history());
    }
}

// ─── Opening a row ───────────────────────────────────────────────────────────

/// What opening a row of the library list leads to.
#[derive(Clone, Debug)]
pub enum ItemOpen {
    /// A folder: open it, the list back at its top.
    Folder(String),
    /// The album already playing from local files: show the playing list
    /// with the cursor on the current track.
    Playing { name: String, cursor: usize },
    /// Another album: browse its tracks.
    Browse { dir: String, name: String },
    /// The disc's track list.
    Disc,
    /// No such row.
    Nothing,
}

/// Open row `idx` of `nodes`. `playing_dir` is the folder of the album
/// playing from local files, if any.
pub fn open_item(nodes: &Vec<TuiLibraryNode>, idx: usize, is_file_mode: bool, playing_dir: &Option<String>, current_track: i32) -> (r: ItemOpen)
    ensures
        idx >= nodes@.len() ==> r is Nothing,
        idx < nodes@.len() ==> match nodes@[idx as int]@ {
            NodeRec::Folder(p, _) => r matches ItemOpen::Folder(q) && q@ == p,
            NodeRec::Album(a) => if is_file_mode && (playing_dir matches Some(d) && same_path(d@, a.dir)) {
                r matches ItemOpen::Playing { name, cursor } && name@ == a.album
                    && cursor == (if current_track >= 0 { current_track as int } else { 0 })
            } else {
                r matches ItemOpen::Browse { dir, name } && dir@ == a.dir && name@ == a.album
            },
            NodeRec::Cd => r is Disc,
        },
{
    if idx >= nodes.len() {
        return ItemOpen::Nothing;
    }
    match &nodes[idx] {
        TuiLibraryNode::Folder { path, .. } => ItemOpen::Folder(path.clone()),
        TuiLibraryNode::Album { album } => {
            let playing = match playing_dir {
                Some(d) => is_file_mode && same_path_str(d.as_str(), album.dir.as_str()),
                None => false,
            };
            if playing {
                let cursor: usize = if current_track >= 0 { current_track as usize } else { 0 };
                ItemOpen::Playing { name: album.album.clone(), cursor }
            } else {
                ItemOpen::Browse { dir: album.dir.clone(), name: album.album.clone() }
            }
        },
        TuiLibraryNode::Cd => ItemOpen::Disc,
    }
}


/// The albums of a scan result, none before any scan.
pub open spec fn scanned_albums(r: Option<LibraryScanResult>) -> Seq<AlbumRec> {
    match r {
        Some(o) => album_views(o.albums@),
        None => Seq::empty(),
    }
}

/// The folders of a scan result, none before any scan.
pub open spec fn scanned_dirs(r: Option<LibraryScanResult>) -> Seq<Seq<char>> {
    match r {
        Some(o) => str_views(o.dirs@),
        None => Seq::empty(),
    }
}

impl TuiLibrary {
    /// Take albums a running scan reported: they are appended to the scan
    /// result (started empty when there is none yet). Returns whether any
    /// came, that is whether the rows need rebuilding.
    pub fn add_scanned_albums(&mut self, new_albums: Vec<LibraryAlbum>) -> (added: bool)
        ensures
            added == (new_albums@.len() > 0),
            final(self).settings == old(self).settings,
            final(self).nav_stack == old(self).nav_stack,
            final(self).nav_idx == old(self).nav_idx,
            new_albums@.len() == 0 ==> final(self).scan_result == old(self).scan_result,
            new_albums@.len() > 0 ==> (final(self).scan_result matches Some(r)
                && album_views(r.albums@) == scanned_albums(old(self).scan_result) + album_views(new_albums@)
                && str_views(r.dirs@) == scanned_dirs(old(self).scan_result)),
    {
        if new_albums.len() == 0 {
            return false;
        }
        let mut result = match self.scan_result.take() {
            Some(r) => r,
            None => LibraryScanResult { albums: Vec::new(), dirs: Vec::new(), dir_mtimes: Vec::new() },
        };
        let ghost before = album_views(result.albums@);
        let ghost dirs = str_views(result.dirs@);
        let mut incoming = new_albums;
        result.albums.append(&mut incoming);
        assert(album_views(result.albums@) =~= before + album_views(new_albums@));
        self.scan_result = Some(result);
        true
    }
}

} // verus!
