//! Keyboard and mouse handling of the terminal frontend: what a key press or
//! a click does to the view state, and which player or library action it
//! asks the frontend to carry out.

use vstd::prelude::*;
use crate::text::{chars_of, string_from_chars, trim_str, trimmed};

verus! {

/// A rectangle of terminal cells.
#[derive(Clone, Copy, Debug, PartialEq, Eq, Structural)]
pub struct Rect {
    pub x: u16,
    pub y: u16,
    pub width: u16,
    pub height: u16,
}

/// The cell `(x, y)` lies in `r`.
pub open spec fn inside(r: Rect, x: u16, y: u16) -> bool {
    &&& r.x <= x
    &&& x < r.x + r.width
    &&& r.y <= y
    &&& y < r.y + r.height
}

/// Whether the cell `(x, y)` lies in `r`.
pub fn rect_contains(r: Rect, x: u16, y: u16) -> (b: bool)
    ensures
        b == inside(r, x, y),
{
    let right: u32 = r.x as u32 + r.width as u32;
    let bottom: u32 = r.y as u32 + r.height as u32;
    x >= r.x && (x as u32) < right && y >= r.y && (y as u32) < bottom
}

/// `rs[i]` is the first rectangle of `rs` holding `(x, y)`.
pub open spec fn first_hit_at(rs: Seq<Rect>, x: u16, y: u16, i: int) -> bool {
    &&& 0 <= i < rs.len()
    &&& inside(rs[i], x, y)
    &&& forall|j: int| 0 <= j < i ==> !inside(#[trigger] rs[j], x, y)
}

/// No rectangle of `rs` holds `(x, y)`.
pub open spec fn no_hit(rs: Seq<Rect>, x: u16, y: u16) -> bool {
    forall|j: int| 0 <= j < rs.len() ==> !inside(#[trigger] rs[j], x, y)
}


/// The first rectangle of `rs` holding `(x, y)` (meaningful when one does).
pub open spec fn first_hit_index(rs: Seq<Rect>, x: u16, y: u16) -> int {
    choose|i: int| first_hit_at(rs, x, y, i)
}

proof fn lemma_first_hit_unique(rs: Seq<Rect>, x: u16, y: u16, i: int)
    requires
        first_hit_at(rs, x, y, i),
    ensures
        first_hit_index(rs, x, y) == i,
{
    let k = first_hit_index(rs, x, y);
    assert(first_hit_at(rs, x, y, k));
    if k < i {
        assert(!inside(rs[k], x, y));
    } else if i < k {
        assert(!inside(rs[i], x, y));
    }
}

/// The index of the first rectangle of `rs` holding `(x, y)`.
fn first_hit(rs: &Vec<Rect>, x: u16, y: u16) -> (r: Option<usize>)
    ensures
        match r {
            Some(i) => first_hit_at(rs@, x, y, i as int) && first_hit_index(rs@, x, y) == i,
            None => no_hit(rs@, x, y),
        },
{
    let mut i: usize = 0;
    while i < rs.len()
        invariant
            i <= rs@.len(),
            forall|j: int| 0 <= j < i ==> !inside(#[trigger] rs@[j], x, y),
        decreases rs@.len() - i,
    {
        if rect_contains(rs[i], x, y) {
            proof {
                lemma_first_hit_unique(rs@, x, y, i as int);
            }
            return Some(i);
        }
        i = i + 1;
    }
    None
}

/// What the main area shows.
#[derive(Clone, Copy, Debug, PartialEq, Eq, Structural)]
pub enum Screen {
    Library,
    Album,
    Settings,
}

/// The keys the frontend reacts to.
#[derive(Clone, Copy, Debug, PartialEq, Eq, Structural)]
pub enum Key {
    Char(char),
    Left,
    Right,
    Up,
    Down,
    Enter,
    Backspace,
    Esc,
    Delete,
    Other,
}

/// The modifiers held with a key: Control, Shift, and whether any other
/// (Alt, Super, Hyper, Meta) is held.
#[derive(Clone, Copy, Debug, PartialEq, Eq, Structural)]
pub struct Mods {
    pub control: bool,
    pub shift: bool,
    pub other: bool,
}

/// What the mouse did.
#[derive(Clone, Copy, Debug, PartialEq, Eq, Structural)]
pub enum MouseKind {
    LeftDown,
    LeftDrag,
    LeftUp,
    ScrollDown,
    ScrollUp,
    Other,
}

/// A position on a bar: cells from its left edge, out of `span` cells.
#[derive(Clone, Copy, Debug, PartialEq, Eq, Structural)]
pub struct BarPoint {
    pub offset: u16,
    pub span: u16,
}

/// What the frontend is asked to do after an input.
#[derive(Clone, Debug)]
pub enum InputAction {
    Nothing,
    /// Toggle play and pause.
    PlayPause,
    /// Load the first track, start it and fetch its lyrics.
    PlayFirst,
    /// Go to the next track, fetching its lyrics if asked.
    Next { refetch_lyrics: bool },
    /// Go to the previous track, fetching its lyrics if asked.
    Previous { refetch_lyrics: bool },
    /// Seek five seconds back (not before the start).
    SeekBack,
    /// Seek five seconds on (not past the end).
    SeekForward,
    /// Raise the volume by a twentieth (at most full).
    VolumeUp,
    /// Lower the volume by a twentieth (at least silent).
    VolumeDown,
    /// Leave the browsed album.
    CloseAlbum,
    /// Step back in the library history and refresh the tiles.
    Back,
    /// Step forward in the library history and refresh the tiles.
    Forward,
    /// Go to the library root, leaving any browsed album.
    Root,
    /// Jump to this entry of the library history, leaving any browsed album.
    JumpTo(usize),
    /// Remove the search path at this index, save and rescan.
    RemovePath(usize),
    /// Add this typed folder (if it exists and is not listed), save and rescan.
    AddPath(String),
    /// Flip "merge all folders", save and refresh the tiles.
    ToggleMerge,
    /// Scan the library again.
    Rescan,
    /// Open the library tile at this index.
    OpenItem(usize),
    /// Play the browsed album's track at this index.
    PlayItem(usize),
    /// Seek to a point of the seek bar.
    SeekTo(BarPoint),
    /// Set the volume from a point of the volume bar.
    SetVolume(BarPoint),
    /// Seek to the start of the lyric line at this index, if there is one.
    SeekLyric(usize),
    /// Follow a drag: the seek and volume bar points, when they are dragged.
    Drag { seek: Option<BarPoint>, volume: Option<BarPoint> },
    /// The sidebar was resized: reload the cover at the new size.
    ReloadCover,
}

/// What the input handling reads of the player and the library.
#[derive(Clone, Copy, Debug)]
pub struct InputContext {
    pub total_tracks: i32,
    pub current_track: i32,
    pub is_playing: bool,
    pub can_go_back: bool,
    pub can_go_forward: bool,
    /// Length of the library history.
    pub history_len: usize,
    /// Number of configured search paths.
    pub search_paths: usize,
    /// Number of library tiles shown.
    pub library_items: usize,
    /// Number of tracks of the browsed album.
    pub album_tracks: usize,
}

/// Where the clickable parts of the screen were last drawn.
#[derive(Clone, Debug)]
pub struct Layout {
    pub divider: Rect,
    pub seek_bar: Rect,
    pub vol_bar: Rect,
    pub btn_prev: Rect,
    pub btn_play: Rect,
    pub btn_next: Rect,
    pub btn_back: Rect,
    pub btn_fwd: Rect,
    pub breadcrumbs: Vec<Rect>,
    /// For each breadcrumb, the history entry it leads to (`None`: the root).
    pub breadcrumb_targets: Vec<Option<usize>>,
    pub content_items: Vec<Rect>,
    pub lyric_items: Vec<Rect>,
    /// For each lyric row drawn, the lyric line it shows.
    pub lyric_rows: Vec<usize>,
}

/// The frontend's input state.
#[derive(Clone, Debug)]
pub struct InputState {
    pub view: Screen,
    /// A folder path is being typed in the settings.
    pub settings_input_mode: bool,
    pub settings_input_text: String,
    pub settings_selected: usize,
    pub content_selected: usize,
    pub content_scroll: usize,
    pub quitting: bool,
    pub divider_dragging: bool,
    pub seek_dragging: bool,
    pub seek_drag_x: u16,
    pub vol_dragging: bool,
    pub sidebar_w: u16,
}

/// The input state with the typed text as characters.
pub struct InputModel {
    pub view: Screen,
    pub input_mode: bool,
    pub text: Seq<char>,
    pub settings_selected: usize,
    pub content_selected: usize,
    pub content_scroll: usize,
    pub quitting: bool,
    pub divider_dragging: bool,
    pub seek_dragging: bool,
    pub seek_drag_x: u16,
    pub vol_dragging: bool,
    pub sidebar_w: u16,
}

impl View for InputState {
    type V = InputModel;

    open spec fn view(&self) -> InputModel {
        InputModel {
            view: self.view,
            input_mode: self.settings_input_mode,
            text: self.settings_input_text@,
            settings_selected: self.settings_selected,
            content_selected: self.content_selected,
            content_scroll: self.content_scroll,
            quitting: self.quitting,
            divider_dragging: self.divider_dragging,
            seek_dragging: self.seek_dragging,
            seek_drag_x: self.seek_drag_x,
            vol_dragging: self.vol_dragging,
            sidebar_w: self.sidebar_w,
        }
    }
}

/// The state after leaving a browsed album: the library, from the top.
pub open spec fn closed_album(s: InputModel) -> InputModel {
    InputModel { view: Screen::Library, content_selected: 0, content_scroll: 0, ..s }
}

/// The state with the list back at its top.
pub open spec fn list_reset(s: InputModel) -> InputModel {
    InputModel { content_selected: 0, content_scroll: 0, ..s }
}

/// Number of entries of the list in the main area.
pub open spec fn list_len(s: InputModel, ctx: InputContext) -> usize {
    match s.view {
        Screen::Library => ctx.library_items,
        Screen::Album => ctx.album_tracks,
        Screen::Settings => 0,
    }
}

/// The selection moved one entry up (not above the first).
pub open spec fn moved_up(s: InputModel) -> InputModel {
    if s.view == Screen::Settings {
        InputModel { settings_selected: if s.settings_selected > 0 { (s.settings_selected - 1) as usize } else { 0 }, ..s }
    } else {
        InputModel { content_selected: if s.content_selected > 0 { (s.content_selected - 1) as usize } else { 0 }, ..s }
    }
}

/// The selection moved one entry down (not past the last). The settings
/// list holds the paths, then "add", "merge all folders" and "rescan".
pub open spec fn moved_down(s: InputModel, ctx: InputContext) -> InputModel {
    if s.view == Screen::Settings {
        if s.settings_selected < ctx.search_paths + 2 {
            InputModel { settings_selected: (s.settings_selected + 1) as usize, ..s }
        } else {
            s
        }
    } else {
        let last: int = if list_len(s, ctx) > 0 { list_len(s, ctx) - 1 } else { 0 };
        if s.content_selected < last {
            InputModel { content_selected: (s.content_selected + 1) as usize, ..s }
        } else {
            s
        }
    }
}

/// The settings selection after the selected path was removed.
pub open spec fn path_removed(s: InputModel) -> InputModel {
    InputModel { settings_selected: if s.settings_selected > 0 { (s.settings_selected - 1) as usize } else { 0 }, ..s }
}

/// The state with the path input closed and emptied.
pub open spec fn input_closed(s: InputModel) -> InputModel {
    InputModel { input_mode: false, text: Seq::empty(), ..s }
}

/// Play/pause: toggles what is loaded, or starts the first track.
pub open spec fn play_key_action(ctx: InputContext) -> InputAction {
    if ctx.total_tracks > 0 && ctx.current_track >= 0 {
        InputAction::PlayPause
    } else if ctx.total_tracks > 0 {
        InputAction::PlayFirst
    } else {
        InputAction::Nothing
    }
}

/// Going back: out of a browsed album, else back in the history.
pub open spec fn back_step(s: InputModel, ctx: InputContext, t: InputModel, a: InputAction) -> bool {
    if s.view == Screen::Album {
        t == closed_album(s) && a is CloseAlbum
    } else if ctx.can_go_back {
        t == list_reset(s) && a is Back
    } else {
        t == s && a is Nothing
    }
}

/// Enter in the settings.
pub open spec fn settings_enter(s: InputModel, ctx: InputContext, t: InputModel, a: InputAction) -> bool {
    let sel = s.settings_selected;
    if s.input_mode {
        &&& t == input_closed(s)
        &&& if trimmed(s.text).len() > 0 {
            a matches InputAction::AddPath(p) && p@ == trimmed(s.text)
        } else {
            a is Nothing
        }
    } else if sel < ctx.search_paths {
        t == path_removed(s) && a == InputAction::RemovePath(sel)
    } else if sel == ctx.search_paths {
        t == InputModel { input_mode: true, text: Seq::empty(), ..s } && a is Nothing
    } else if sel == ctx.search_paths + 1 {
        t == s && a is ToggleMerge
    } else if sel == ctx.search_paths + 2 {
        t == s && a is Rescan
    } else {
        t == s && a is Nothing
    }
}

/// What the key `key` with modifiers `mods` does: the state goes from `s`
/// to `t` and the frontend is asked for `a`.
pub open spec fn key_handled(s: InputModel, key: Key, mods: Mods, ctx: InputContext, t: InputModel, a: InputAction) -> bool {
    let typing = s.view == Screen::Settings && s.input_mode;
    let plain = !mods.control && !mods.shift && !mods.other;
    match key {
        Key::Char(c) => if c == 'q' || c == 'Q' || (c == 'c' && mods.control) {
            t == InputModel { quitting: true, ..s } && a is Nothing
        } else if c == ' ' {
            t == s && a == play_key_action(ctx)
        } else if c == 'n' || c == ']' {
            t == s && a == (InputAction::Next { refetch_lyrics: ctx.is_playing })
        } else if c == 'p' || c == '[' {
            t == s && a == (InputAction::Previous { refetch_lyrics: ctx.is_playing })
        } else if typing {
            t == InputModel { text: s.text.push(c), ..s } && a is Nothing
        } else if c == 's' {
            &&& a is Nothing
            &&& t == if s.view == Screen::Settings {
                InputModel { view: Screen::Library, ..input_closed(s) }
            } else {
                InputModel { view: Screen::Settings, ..s }
            }
        } else if c == '+' || c == '=' {
            t == s && a is VolumeUp
        } else if c == '-' {
            t == s && a is VolumeDown
        } else {
            t == s && a is Nothing
        },
        Key::Left => if plain {
            t == s && a is SeekBack
        } else if mods.shift {
            back_step(s, ctx, t, a)
        } else {
            t == s && a is Nothing
        },
        Key::Right => if plain {
            t == s && a is SeekForward
        } else if mods.shift && ctx.can_go_forward {
            t == list_reset(s) && a is Forward
        } else {
            t == s && a is Nothing
        },
        Key::Backspace => if typing {
            t == InputModel { text: if s.text.len() > 0 { s.text.drop_last() } else { s.text }, ..s } && a is Nothing
        } else {
            back_step(s, ctx, t, a)
        },
        Key::Esc => {
            &&& a is Nothing
            &&& t == if s.view == Screen::Settings {
                if s.input_mode {
                    input_closed(s)
                } else {
                    InputModel { view: Screen::Library, ..s }
                }
            } else {
                s
            }
        },
        Key::Delete => if s.view == Screen::Settings && s.settings_selected < ctx.search_paths {
            t == path_removed(s) && a == InputAction::RemovePath(s.settings_selected)
        } else {
            t == s && a is Nothing
        },
        Key::Enter => if s.view == Screen::Settings {
            settings_enter(s, ctx, t, a)
        } else {
            &&& t == s
            &&& if s.content_selected < list_len(s, ctx) {
                a == if s.view == Screen::Library {
                    InputAction::OpenItem(s.content_selected)
                } else {
                    InputAction::PlayItem(s.content_selected)
                }
            } else {
                a is Nothing
            }
        },
        Key::Up => t == moved_up(s) && a is Nothing,
        Key::Down => t == moved_down(s, ctx) && a is Nothing,
        Key::Other => t == s && a is Nothing,
    }
}


/// Where `x` falls on the bar `r`: cells from its left edge (0 left of it),
/// out of its width (at least one).
pub open spec fn bar_point(r: Rect, x: u16) -> BarPoint {
    BarPoint {
        offset: if x >= r.x { (x - r.x) as u16 } else { 0 },
        span: if r.width >= 1 { r.width } else { 1 },
    }
}

/// A click on breadcrumb `i`: the root, or an entry of the history.
pub open spec fn crumb_clicked(s: InputModel, l: Layout, ctx: InputContext, i: int, t: InputModel, a: InputAction) -> bool {
    let targets = l.breadcrumb_targets@;
    if 0 <= i < targets.len() {
        match targets[i] {
            None => t == InputModel { view: Screen::Library, content_scroll: 0, ..s } && a is Root,
            Some(n) => if n < ctx.history_len {
                t == InputModel { view: Screen::Library, content_selected: 0, content_scroll: 0, ..s }
                    && a == InputAction::JumpTo(n)
            } else {
                t == s && a is Nothing
            },
        }
    } else {
        t == s && a is Nothing
    }
}

/// A click on visible list row `i`: it is selected and opened or played.
pub open spec fn row_clicked(s: InputModel, i: int, t: InputModel, a: InputAction) -> bool {
    let abs = (i + s.content_scroll) as usize;
    &&& t == InputModel { content_selected: abs, ..s }
    &&& a == match s.view {
        Screen::Library => InputAction::OpenItem(abs),
        Screen::Album => InputAction::PlayItem(abs),
        Screen::Settings => InputAction::Nothing,
    }
}

/// A click on lyric row `i`: a seek to the lyric line the row shows.
pub open spec fn lyric_clicked(l: Layout, i: int, a: InputAction) -> bool {
    let rows = l.lyric_rows@;
    a == InputAction::SeekLyric(if i < rows.len() { rows[i] } else { i as usize })
}

/// A left click at `(x, y)`: the first control under it, in drawing order.
pub open spec fn clicked(s: InputModel, x: u16, y: u16, l: Layout, ctx: InputContext, t: InputModel, a: InputAction) -> bool {
    if inside(l.divider, x, y) {
        t == InputModel { divider_dragging: true, ..s } && a is Nothing
    } else if inside(l.seek_bar, x, y) && ctx.total_tracks > 0 {
        t == InputModel { seek_dragging: true, seek_drag_x: x, ..s } && a == InputAction::SeekTo(bar_point(l.seek_bar, x))
    } else if inside(l.vol_bar, x, y) {
        t == InputModel { vol_dragging: true, ..s } && a == InputAction::SetVolume(bar_point(l.vol_bar, x))
    } else if inside(l.btn_prev, x, y) {
        t == s && a == (InputAction::Previous { refetch_lyrics: false })
    } else if inside(l.btn_play, x, y) {
        &&& t == s
        &&& a == if ctx.current_track >= 0 {
            InputAction::PlayPause
        } else if ctx.total_tracks > 0 {
            InputAction::PlayFirst
        } else {
            InputAction::Nothing
        }
    } else if inside(l.btn_next, x, y) {
        t == s && a == (InputAction::Next { refetch_lyrics: false })
    } else if inside(l.btn_back, x, y) {
        if s.view == Screen::Album {
            t == InputModel { view: Screen::Library, content_scroll: 0, ..s } && a is CloseAlbum
        } else if ctx.can_go_back {
            t == InputModel { content_scroll: 0, ..s } && a is Back
        } else {
            t == s && a is Nothing
        }
    } else if inside(l.btn_fwd, x, y) {
        if ctx.can_go_forward {
            t == InputModel { content_scroll: 0, ..s } && a is Forward
        } else {
            t == s && a is Nothing
        }
    } else if !no_hit(l.breadcrumbs@, x, y) {
        crumb_clicked(s, l, ctx, first_hit_index(l.breadcrumbs@, x, y), t, a)
    } else if !no_hit(l.content_items@, x, y) {
        row_clicked(s, first_hit_index(l.content_items@, x, y), t, a)
    } else if !no_hit(l.lyric_items@, x, y) {
        t == s && lyric_clicked(l, first_hit_index(l.lyric_items@, x, y), a)
    } else {
        t == s && a is Nothing
    }
}

/// What the mouse event `kind` at `(x, y)` does: the state goes from `s` to
/// `t` and the frontend is asked for `a`.
pub open spec fn mouse_handled(s: InputModel, kind: MouseKind, x: u16, y: u16, l: Layout, ctx: InputContext, t: InputModel, a: InputAction) -> bool {
    match kind {
        MouseKind::LeftDown => clicked(s, x, y, l, ctx, t, a),
        MouseKind::LeftDrag => {
            &&& t == InputModel {
                sidebar_w: if s.divider_dragging { if x >= 12 { x } else { 12 } } else { s.sidebar_w },
                ..s
            }
            &&& a == (InputAction::Drag {
                seek: if s.seek_dragging && ctx.total_tracks > 0 { Some(bar_point(l.seek_bar, x)) } else { None },
                volume: if s.vol_dragging { Some(bar_point(l.vol_bar, x)) } else { None },
            })
        },
        MouseKind::LeftUp => {
            &&& t == InputModel { seek_dragging: false, vol_dragging: false, divider_dragging: false, ..s }
            &&& a == if s.divider_dragging { InputAction::ReloadCover } else { InputAction::Nothing }
        },
        MouseKind::ScrollDown => t == moved_down(s, ctx) && a is Nothing,
        MouseKind::ScrollUp => t == moved_up(s) && a is Nothing,
        MouseKind::Other => t == s && a is Nothing,
    }
}

/// Where `x` falls on the bar `r`.
fn bar_at(r: Rect, x: u16) -> (p: BarPoint)
    ensures
        p == bar_point(r, x),
{
    BarPoint { offset: if x >= r.x { x - r.x } else { 0 }, span: if r.width >= 1 { r.width } else { 1 } }
}

impl InputState {
    /// The state the frontend starts in: the library, nothing selected, no
    /// drag under way, a sidebar of `sidebar_w` cells.
    pub fn new(sidebar_w: u16) -> (s: Self)
        ensures
            s@ == (InputModel {
                view: Screen::Library,
                input_mode: false,
                text: Seq::empty(),
                settings_selected: 0,
                content_selected: 0,
                content_scroll: 0,
                quitting: false,
                divider_dragging: false,
                seek_dragging: false,
                seek_drag_x: 0,
                vol_dragging: false,
                sidebar_w,
            }),
    {
        InputState {
            view: Screen::Library,
            settings_input_mode: false,
            settings_input_text: String::new(),
            settings_selected: 0,
            content_selected: 0,
            content_scroll: 0,
            quitting: false,
            divider_dragging: false,
            seek_dragging: false,
            seek_drag_x: 0,
            vol_dragging: false,
            sidebar_w,
        }
    }

    fn clear_input(&mut self)
        ensures
            final(self)@ == input_closed(old(self)@),
    {
        self.settings_input_mode = false;
        self.settings_input_text = String::new();
    }

    fn go_back(&mut self, ctx: &InputContext) -> (a: InputAction)
        ensures
            back_step(old(self)@, *ctx, final(self)@, a),
    {
        if self.view == Screen::Album {
            self.view = Screen::Library;
            self.content_selected = 0;
            self.content_scroll = 0;
            InputAction::CloseAlbum
        } else if ctx.can_go_back {
            self.content_selected = 0;
            self.content_scroll = 0;
            InputAction::Back
        } else {
            InputAction::Nothing
        }
    }

    fn remove_selected_path(&mut self) -> (a: InputAction)
        ensures
            final(self)@ == path_removed(old(self)@),
            a == InputAction::RemovePath(old(self).settings_selected),
    {
        let sel = self.settings_selected;
        if self.settings_selected > 0 {
            self.settings_selected = self.settings_selected - 1;
        }
        InputAction::RemovePath(sel)
    }

    fn move_up(&mut self)
        ensures
            final(self)@ == moved_up(old(self)@),
    {
        if self.view == Screen::Settings {
            if self.settings_selected > 0 {
                self.settings_selected = self.settings_selected - 1;
            }
        } else if self.content_selected > 0 {
            self.content_selected = self.content_selected - 1;
        }
    }

    fn move_down(&mut self, ctx: &InputContext)
        requires
            ctx.search_paths <= usize::MAX - 2,
        ensures
            final(self)@ == moved_down(old(self)@, *ctx),
    {
        if self.view == Screen::Settings {
            if self.settings_selected < ctx.search_paths + 2 {
                self.settings_selected = self.settings_selected + 1;
            }
        } else {
            let n = match self.view {
                Screen::Library => ctx.library_items,
                Screen::Album => ctx.album_tracks,
                Screen::Settings => 0,
            };
            let last = if n > 0 { n - 1 } else { 0 };
            if self.content_selected < last {
                self.content_selected = self.content_selected + 1;
            }
        }
    }

    fn enter_settings(&mut self, ctx: &InputContext) -> (a: InputAction)
        requires
            old(self).view == Screen::Settings,
            ctx.search_paths <= usize::MAX - 2,
        ensures
            settings_enter(old(self)@, *ctx, final(self)@, a),
    {
        let sel = self.settings_selected;
        if self.settings_input_mode {
            let path = trim_str(self.settings_input_text.as_str());
            self.clear_input();
            if chars_of(path.as_str()).len() > 0 {
                InputAction::AddPath(path)
            } else {
                InputAction::Nothing
            }
        } else if sel < ctx.search_paths {
            self.remove_selected_path()
        } else if sel == ctx.search_paths {
            self.settings_input_mode = true;
            self.settings_input_text = String::new();
            InputAction::Nothing
        } else if sel == ctx.search_paths + 1 {
            InputAction::ToggleMerge
        } else if sel == ctx.search_paths + 2 {
            InputAction::Rescan
        } else {
            InputAction::Nothing
        }
    }

    /// React to a key press.
    pub fn handle_key(&mut self, key: Key, mods: Mods, ctx: &InputContext) -> (a: InputAction)
        requires
            ctx.search_paths <= usize::MAX - 2,
        ensures
            key_handled(old(self)@, key, mods, *ctx, final(self)@, a),
    {
        let typing = self.view == Screen::Settings && self.settings_input_mode;
        let plain = !mods.control && !mods.shift && !mods.other;
        match key {
            Key::Char(c) => {
                if c == 'q' || c == 'Q' || (c == 'c' && mods.control) {
                    self.quitting = true;
                    InputAction::Nothing
                } else if c == ' ' {
                    if ctx.total_tracks > 0 && ctx.current_track >= 0 {
                        InputAction::PlayPause
                    } else if ctx.total_tracks > 0 {
                        InputAction::PlayFirst
                    } else {
                        InputAction::Nothing
                    }
                } else if c == 'n' || c == ']' {
                    InputAction::Next { refetch_lyrics: ctx.is_playing }
                } else if c == 'p' || c == '[' {
                    InputAction::Previous { refetch_lyrics: ctx.is_playing }
                } else if typing {
                    let mut cs = chars_of(self.settings_input_text.as_str());
                    cs.push(c);
                    self.settings_input_text = string_from_chars(cs.as_slice());
                    InputAction::Nothing
                } else if c == 's' {
                    if self.view == Screen::Settings {
                        self.view = Screen::Library;
                        self.clear_input();
                    } else {
                        self.view = Screen::Settings;
                    }
                    InputAction::Nothing
                } else if c == '+' || c == '=' {
                    InputAction::VolumeUp
                } else if c == '-' {
                    InputAction::VolumeDown
                } else {
                    InputAction::Nothing
                }
            },
            Key::Left => {
                if plain {
                    InputAction::SeekBack
                } else if mods.shift {
                    self.go_back(ctx)
                } else {
                    InputAction::Nothing
                }
            },
            Key::Right => {
                if plain {
                    InputAction::SeekForward
                } else if mods.shift && ctx.can_go_forward {
                    self.content_selected = 0;
                    self.content_scroll = 0;
                    InputAction::Forward
                } else {
                    InputAction::Nothing
                }
            },
            Key::Backspace => {
                if typing {
                    let mut cs = chars_of(self.settings_input_text.as_str());
                    if cs.len() > 0 {
                        cs.pop();
                        self.settings_input_text = string_from_chars(cs.as_slice());
                    }
                    InputAction::Nothing
                } else {
                    self.go_back(ctx)
                }
            },
            Key::Esc => {
                if self.view == Screen::Settings {
                    if self.settings_input_mode {
                        self.clear_input();
                    } else {
                        self.view = Screen::Library;
                    }
                }
                InputAction::Nothing
            },
            Key::Delete => {
                if self.view == Screen::Settings && self.settings_selected < ctx.search_paths {
                    self.remove_selected_path()
                } else {
                    InputAction::Nothing
                }
            },
            Key::Enter => {
                if self.view == Screen::Settings {
                    self.enter_settings(ctx)
                } else {
                    let n = match self.view {
                        Screen::Library => ctx.library_items,
                        Screen::Album => ctx.album_tracks,
                        Screen::Settings => 0,
                    };
                    if self.content_selected < n {
                        if self.view == Screen::Library {
                            InputAction::OpenItem(self.content_selected)
                        } else {
                            InputAction::PlayItem(self.content_selected)
                        }
                    } else {
                        InputAction::Nothing
                    }
                }
            },
            Key::Up => {
                self.move_up();
                InputAction::Nothing
            },
            Key::Down => {
                self.move_down(ctx);
                InputAction::Nothing
            },
            Key::Other => InputAction::Nothing,
        }
    }

    fn click(&mut self, x: u16, y: u16, layout: &Layout, ctx: &InputContext) -> (a: InputAction)
        requires
            old(self).content_scroll + layout.content_items@.len() <= usize::MAX,
        ensures
            clicked(old(self)@, x, y, *layout, *ctx, final(self)@, a),
    {
        if rect_contains(layout.divider, x, y) {
            self.divider_dragging = true;
            return InputAction::Nothing;
        }
        if rect_contains(layout.seek_bar, x, y) && ctx.total_tracks > 0 {
            self.seek_dragging = true;
            self.seek_drag_x = x;
            return InputAction::SeekTo(bar_at(layout.seek_bar, x));
        }
        if rect_contains(layout.vol_bar, x, y) {
            self.vol_dragging = true;
            return InputAction::SetVolume(bar_at(layout.vol_bar, x));
        }
        if rect_contains(layout.btn_prev, x, y) {
            return InputAction::Previous { refetch_lyrics: false };
        }
        if rect_contains(layout.btn_play, x, y) {
            return if ctx.current_track >= 0 {
                InputAction::PlayPause
            } else if ctx.total_tracks > 0 {
                InputAction::PlayFirst
            } else {
                InputAction::Nothing
            };
        }
        if rect_contains(layout.btn_next, x, y) {
            return InputAction::Next { refetch_lyrics: false };
        }
        if rect_contains(layout.btn_back, x, y) {
            if self.view == Screen::Album {
                self.view = Screen::Library;
                self.content_scroll = 0;
                return InputAction::CloseAlbum;
            } else if ctx.can_go_back {
                self.content_scroll = 0;
                return InputAction::Back;
            }
            return InputAction::Nothing;
        }
        if rect_contains(layout.btn_fwd, x, y) {
            if ctx.can_go_forward {
                self.content_scroll = 0;
                return InputAction::Forward;
            }
            return InputAction::Nothing;
        }
        match first_hit(&layout.breadcrumbs, x, y) {
            Some(i) => {
                if i < layout.breadcrumb_targets.len() {
                    match layout.breadcrumb_targets[i] {
                        None => {
                            self.view = Screen::Library;
                            self.content_scroll = 0;
                            return InputAction::Root;
                        },
                        Some(n) => {
                            if n < ctx.history_len {
                                self.view = Screen::Library;
                                self.content_selected = 0;
                                self.content_scroll = 0;
                                return InputAction::JumpTo(n);
                            }
                        },
                    }
                }
                return InputAction::Nothing;
            },
            None => {},
        }
        match first_hit(&layout.content_items, x, y) {
            Some(i) => {
                let abs = i + self.content_scroll;
                self.content_selected = abs;
                return match self.view {
                    Screen::Library => InputAction::OpenItem(abs),
                    Screen::Album => InputAction::PlayItem(abs),
                    Screen::Settings => InputAction::Nothing,
                };
            },
            None => {},
        }
        match first_hit(&layout.lyric_items, x, y) {
            Some(i) => {
                let li = if i < layout.lyric_rows.len() { layout.lyric_rows[i] } else { i };
                InputAction::SeekLyric(li)
            },
            None => InputAction::Nothing,
        }
    }

    /// React to a mouse event at cell `(x, y)`.
    pub fn handle_mouse(&mut self, kind: MouseKind, x: u16, y: u16, layout: &Layout, ctx: &InputContext) -> (a: InputAction)
        requires
            ctx.search_paths <= usize::MAX - 2,
            old(self).content_scroll + layout.content_items@.len() <= usize::MAX,
        ensures
            mouse_handled(old(self)@, kind, x, y, *layout, *ctx, final(self)@, a),
    {
        match kind {
            MouseKind::LeftDown => self.click(x, y, layout, ctx),
            MouseKind::LeftDrag => {
                if self.divider_dragging {
                    self.sidebar_w = if x >= 12 { x } else { 12 };
                }
                let seek = if self.seek_dragging && ctx.total_tracks > 0 {
                    Some(bar_at(layout.seek_bar, x))
                } else {
                    None
                };
                let volume = if self.vol_dragging { Some(bar_at(layout.vol_bar, x)) } else { None };
                InputAction::Drag { seek, volume }
            },
            MouseKind::LeftUp => {
                let resized = self.divider_dragging;
                self.seek_dragging = false;
                self.vol_dragging = false;
                self.divider_dragging = false;
                if resized {
                    InputAction::ReloadCover
                } else {
                    InputAction::Nothing
                }
            },
            MouseKind::ScrollDown => {
                self.move_down(ctx);
                InputAction::Nothing
            },
            MouseKind::ScrollUp => {
                self.move_up();
                InputAction::Nothing
            },
            MouseKind::Other => InputAction::Nothing,
        }
    }

}

} // verus!
