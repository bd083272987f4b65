use kanae::tui_input::{
    rect_contains, InputAction, InputContext, InputState, Key, Layout, Mods, MouseKind, Rect, Screen,
};

fn ctx() -> InputContext {
    InputContext {
        total_tracks: 3,
        current_track: 1,
        is_playing: true,
        can_go_back: true,
        can_go_forward: false,
        history_len: 2,
        search_paths: 2,
        library_items: 4,
        album_tracks: 6,
    }
}

fn plain() -> Mods {
    Mods { control: false, shift: false, other: false }
}

fn shift() -> Mods {
    Mods { control: false, shift: true, other: false }
}

fn r(x: u16, y: u16, width: u16, height: u16) -> Rect {
    Rect { x, y, width, height }
}

fn layout() -> Layout {
    Layout {
        divider: r(30, 0, 1, 40),
        seek_bar: r(10, 38, 50, 1),
        vol_bar: r(70, 38, 10, 1),
        btn_prev: r(0, 39, 3, 1),
        btn_play: r(4, 39, 3, 1),
        btn_next: r(8, 39, 3, 1),
        btn_back: r(31, 0, 2, 1),
        btn_fwd: r(34, 0, 2, 1),
        breadcrumbs: vec![r(40, 0, 7, 1), r(48, 0, 5, 1)],
        breadcrumb_targets: vec![None, Some(1)],
        content_items: vec![r(31, 2, 40, 1), r(31, 3, 40, 1)],
        lyric_items: vec![r(0, 10, 29, 1), r(0, 11, 29, 1)],
        lyric_rows: vec![4, 5],
    }
}

#[test]
fn rectangles_hold_their_cells() {
    let a = r(2, 3, 4, 2);
    assert!(rect_contains(a, 2, 3));
    assert!(rect_contains(a, 5, 4));
    assert!(!rect_contains(a, 6, 4));
    assert!(!rect_contains(a, 2, 5));
    assert!(!rect_contains(a, 1, 3));
    assert!(!rect_contains(r(0, 0, 0, 0), 0, 0));
    assert!(rect_contains(r(65535, 0, 1, 1), 65535, 0));
}

#[test]
fn quit_keys() {
    let mut st = InputState::new(30);
    st.handle_key(Key::Char('q'), plain(), &ctx());
    assert!(st.quitting);
    let mut st = InputState::new(30);
    st.handle_key(Key::Char('c'), plain(), &ctx());
    assert!(!st.quitting);
    st.handle_key(Key::Char('c'), Mods { control: true, shift: false, other: false }, &ctx());
    assert!(st.quitting);
}

#[test]
fn space_toggles_or_starts() {
    let mut st = InputState::new(30);
    assert!(matches!(st.handle_key(Key::Char(' '), plain(), &ctx()), InputAction::PlayPause));
    let c = InputContext { current_track: -1, ..ctx() };
    assert!(matches!(st.handle_key(Key::Char(' '), plain(), &c), InputAction::PlayFirst));
    let c = InputContext { total_tracks: 0, current_track: -1, ..ctx() };
    assert!(matches!(st.handle_key(Key::Char(' '), plain(), &c), InputAction::Nothing));
}

#[test]
fn track_keys_refetch_lyrics_while_playing() {
    let mut st = InputState::new(30);
    assert!(matches!(st.handle_key(Key::Char(']'), plain(), &ctx()), InputAction::Next { refetch_lyrics: true }));
    let c = InputContext { is_playing: false, ..ctx() };
    assert!(matches!(st.handle_key(Key::Char('p'), plain(), &c), InputAction::Previous { refetch_lyrics: false }));
}

#[test]
fn arrows_seek_and_shift_arrows_navigate() {
    let mut st = InputState::new(30);
    assert!(matches!(st.handle_key(Key::Left, plain(), &ctx()), InputAction::SeekBack));
    assert!(matches!(st.handle_key(Key::Right, plain(), &ctx()), InputAction::SeekForward));
    st.content_selected = 3;
    assert!(matches!(st.handle_key(Key::Left, shift(), &ctx()), InputAction::Back));
    assert_eq!(st.content_selected, 0);
    assert!(matches!(st.handle_key(Key::Right, shift(), &ctx()), InputAction::Nothing));
    let c = InputContext { can_go_forward: true, ..ctx() };
    assert!(matches!(st.handle_key(Key::Right, shift(), &c), InputAction::Forward));
    let alt = Mods { control: false, shift: false, other: true };
    assert!(matches!(st.handle_key(Key::Left, alt, &ctx()), InputAction::Nothing));
}

#[test]
fn backspace_leaves_an_album() {
    let mut st = InputState::new(30);
    st.view = Screen::Album;
    st.content_selected = 2;
    st.content_scroll = 1;
    assert!(matches!(st.handle_key(Key::Backspace, plain(), &ctx()), InputAction::CloseAlbum));
    assert_eq!(st.view, Screen::Library);
    assert_eq!((st.content_selected, st.content_scroll), (0, 0));
}

#[test]
fn volume_keys() {
    let mut st = InputState::new(30);
    assert!(matches!(st.handle_key(Key::Char('='), plain(), &ctx()), InputAction::VolumeUp));
    assert!(matches!(st.handle_key(Key::Char('-'), plain(), &ctx()), InputAction::VolumeDown));
}

#[test]
fn typing_a_folder_in_the_settings() {
    let mut st = InputState::new(30);
    st.handle_key(Key::Char('s'), plain(), &ctx());
    assert_eq!(st.view, Screen::Settings);
    st.handle_key(Key::Down, plain(), &ctx());
    st.handle_key(Key::Down, plain(), &ctx());
    assert_eq!(st.settings_selected, 2);
    assert!(matches!(st.handle_key(Key::Enter, plain(), &ctx()), InputAction::Nothing));
    assert!(st.settings_input_mode);
    for c in " /mus".chars() {
        st.handle_key(Key::Char(c), plain(), &ctx());
    }
    st.handle_key(Key::Char('x'), plain(), &ctx());
    st.handle_key(Key::Backspace, plain(), &ctx());
    st.handle_key(Key::Char('+'), plain(), &ctx());
    assert_eq!(st.settings_input_text, "/mus+");
    match st.handle_key(Key::Enter, plain(), &ctx()) {
        InputAction::AddPath(p) => assert_eq!(p, "/mus+"),
        other => panic!("unexpected {:?}", other),
    }
    assert!(!st.settings_input_mode);
    assert_eq!(st.settings_input_text, "");
}

#[test]
fn quit_key_wins_over_typing() {
    let mut st = InputState::new(30);
    st.view = Screen::Settings;
    st.settings_input_mode = true;
    st.handle_key(Key::Char('q'), plain(), &ctx());
    assert!(st.quitting);
    assert_eq!(st.settings_input_text, "");
}

#[test]
fn blank_folder_is_not_added() {
    let mut st = InputState::new(30);
    st.view = Screen::Settings;
    st.settings_input_mode = true;
    st.handle_key(Key::Char(' '), plain(), &ctx());
    assert!(matches!(st.handle_key(Key::Enter, plain(), &ctx()), InputAction::Nothing));
    st.settings_input_mode = true;
    st.settings_input_text = "  ".to_string();
    assert!(matches!(st.handle_key(Key::Enter, plain(), &ctx()), InputAction::Nothing));
}

#[test]
fn settings_rows() {
    let mut st = InputState::new(30);
    st.view = Screen::Settings;
    st.settings_selected = 1;
    assert!(matches!(st.handle_key(Key::Delete, plain(), &ctx()), InputAction::RemovePath(1)));
    assert_eq!(st.settings_selected, 0);
    assert!(matches!(st.handle_key(Key::Enter, plain(), &ctx()), InputAction::RemovePath(0)));
    assert_eq!(st.settings_selected, 0);
    st.settings_selected = 3;
    assert!(matches!(st.handle_key(Key::Enter, plain(), &ctx()), InputAction::ToggleMerge));
    st.settings_selected = 4;
    assert!(matches!(st.handle_key(Key::Enter, plain(), &ctx()), InputAction::Rescan));
    st.handle_key(Key::Down, plain(), &ctx());
    assert_eq!(st.settings_selected, 4);
    st.handle_key(Key::Esc, plain(), &ctx());
    assert_eq!(st.view, Screen::Library);
    st.handle_key(Key::Delete, plain(), &ctx());
    assert_eq!(st.settings_selected, 4);
}

#[test]
fn enter_opens_or_plays() {
    let mut st = InputState::new(30);
    st.content_selected = 3;
    assert!(matches!(st.handle_key(Key::Enter, plain(), &ctx()), InputAction::OpenItem(3)));
    st.content_selected = 4;
    assert!(matches!(st.handle_key(Key::Enter, plain(), &ctx()), InputAction::Nothing));
    st.view = Screen::Album;
    assert!(matches!(st.handle_key(Key::Enter, plain(), &ctx()), InputAction::PlayItem(4)));
}

#[test]
fn list_moves_stop_at_the_ends() {
    let mut st = InputState::new(30);
    st.handle_key(Key::Up, plain(), &ctx());
    assert_eq!(st.content_selected, 0);
    for _ in 0..10 {
        st.handle_key(Key::Down, plain(), &ctx());
    }
    assert_eq!(st.content_selected, 3);
}

#[test]
fn clicks_on_controls() {
    let l = layout();
    let mut st = InputState::new(30);
    match st.handle_mouse(MouseKind::LeftDown, 35, 38, &l, &ctx()) {
        InputAction::SeekTo(p) => assert_eq!((p.offset, p.span), (25, 50)),
        other => panic!("unexpected {:?}", other),
    }
    assert!(st.seek_dragging);
    assert_eq!(st.seek_drag_x, 35);
    match st.handle_mouse(MouseKind::LeftDrag, 5, 38, &l, &ctx()) {
        InputAction::Drag { seek: Some(p), volume: None } => assert_eq!((p.offset, p.span), (0, 50)),
        other => panic!("unexpected {:?}", other),
    }
    assert!(matches!(st.handle_mouse(MouseKind::LeftUp, 5, 38, &l, &ctx()), InputAction::Nothing));
    assert!(!st.seek_dragging);
    assert!(matches!(st.handle_mouse(MouseKind::LeftDown, 5, 39, &l, &ctx()), InputAction::PlayPause));
    assert!(matches!(
        st.handle_mouse(MouseKind::LeftDown, 1, 39, &l, &ctx()),
        InputAction::Previous { refetch_lyrics: false }
    ));
    match st.handle_mouse(MouseKind::LeftDown, 75, 38, &l, &ctx()) {
        InputAction::SetVolume(p) => assert_eq!((p.offset, p.span), (5, 10)),
        other => panic!("unexpected {:?}", other),
    }
}

#[test]
fn divider_drag_resizes_the_sidebar() {
    let l = layout();
    let mut st = InputState::new(30);
    st.handle_mouse(MouseKind::LeftDown, 30, 5, &l, &ctx());
    assert!(st.divider_dragging);
    st.handle_mouse(MouseKind::LeftDrag, 4, 5, &l, &ctx());
    assert_eq!(st.sidebar_w, 12);
    st.handle_mouse(MouseKind::LeftDrag, 40, 5, &l, &ctx());
    assert_eq!(st.sidebar_w, 40);
    assert!(matches!(st.handle_mouse(MouseKind::LeftUp, 40, 5, &l, &ctx()), InputAction::ReloadCover));
    assert!(!st.divider_dragging);
}

#[test]
fn clicks_on_breadcrumbs_rows_and_lyrics() {
    let l = layout();
    let mut st = InputState::new(30);
    st.view = Screen::Album;
    st.content_scroll = 2;
    assert!(matches!(st.handle_mouse(MouseKind::LeftDown, 41, 0, &l, &ctx()), InputAction::Root));
    assert_eq!(st.view, Screen::Library);
    assert_eq!(st.content_scroll, 0);
    st.content_selected = 1;
    assert!(matches!(st.handle_mouse(MouseKind::LeftDown, 50, 0, &l, &ctx()), InputAction::JumpTo(1)));
    assert_eq!(st.content_selected, 0);
    let c = InputContext { history_len: 1, ..ctx() };
    assert!(matches!(st.handle_mouse(MouseKind::LeftDown, 50, 0, &l, &c), InputAction::Nothing));
    st.content_scroll = 5;
    assert!(matches!(st.handle_mouse(MouseKind::LeftDown, 40, 3, &l, &ctx()), InputAction::OpenItem(6)));
    assert_eq!(st.content_selected, 6);
    assert!(matches!(st.handle_mouse(MouseKind::LeftDown, 3, 11, &l, &ctx()), InputAction::SeekLyric(5)));
    assert!(matches!(st.handle_mouse(MouseKind::LeftDown, 3, 20, &l, &ctx()), InputAction::Nothing));
}

#[test]
fn back_button_keeps_the_selection() {
    let l = layout();
    let mut st = InputState::new(30);
    st.view = Screen::Album;
    st.content_selected = 2;
    st.content_scroll = 2;
    assert!(matches!(st.handle_mouse(MouseKind::LeftDown, 31, 0, &l, &ctx()), InputAction::CloseAlbum));
    assert_eq!((st.content_selected, st.content_scroll), (2, 0));
}

#[test]
fn scrolling_moves_the_selection() {
    let l = layout();
    let mut st = InputState::new(30);
    st.handle_mouse(MouseKind::ScrollDown, 0, 0, &l, &ctx());
    st.handle_mouse(MouseKind::ScrollDown, 0, 0, &l, &ctx());
    assert_eq!(st.content_selected, 2);
    st.handle_mouse(MouseKind::ScrollUp, 0, 0, &l, &ctx());
    assert_eq!(st.content_selected, 1);
}
