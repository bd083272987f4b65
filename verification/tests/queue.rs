use kanae::file_player::LocalTrack;
use kanae::player::PlayerController;
use kanae::queue::{Queue, QueueEntry};

fn entry(name: &str) -> QueueEntry {
    QueueEntry {
        path: format!("/music/{}.mp3", name),
        title: name.to_string(),
        artist: "Artist".to_string(),
        duration: "03:00".to_string(),
    }
}

fn titles(q: &Queue) -> Vec<String> {
    q.entries().iter().map(|e| e.title.clone()).collect()
}

fn queue_of(names: &[&str]) -> Queue {
    let mut q = Queue::new();
    let added = q.extend_from_paths(names.iter().map(|n| entry(n)).collect());
    assert_eq!(added, names.len());
    q
}

#[test]
fn new_queue_is_empty() {
    let q = Queue::new();
    assert!(q.is_empty());
    assert_eq!(q.len(), 0);
}

#[test]
fn entries_play_in_order() {
    let mut q = queue_of(&["a", "b", "c"]);
    assert_eq!(q.pop_front().unwrap().title, "a");
    assert_eq!(q.pop_front().unwrap().title, "b");
    assert_eq!(titles(&q), vec!["c"]);
    assert_eq!(q.pop_front().unwrap().title, "c");
    assert!(q.pop_front().is_none());
}

#[test]
fn remove_ignores_out_of_range() {
    let mut q = queue_of(&["a", "b", "c"]);
    assert!(q.remove(5).is_none());
    assert_eq!(q.len(), 3);
    assert_eq!(q.remove(1).unwrap().title, "b");
    assert_eq!(titles(&q), vec!["a", "c"]);
}

#[test]
fn move_clamps_destination() {
    let mut q = queue_of(&["a", "b", "c", "d"]);
    q.move_entry(0, 99);
    assert_eq!(titles(&q), vec!["b", "c", "d", "a"]);
    q.move_entry(3, 1);
    assert_eq!(titles(&q), vec!["b", "a", "c", "d"]);
    q.move_entry(7, 0);
    assert_eq!(titles(&q), vec!["b", "a", "c", "d"]);
}

#[test]
fn move_and_back_restores_order() {
    let mut q = queue_of(&["a", "b", "c", "d"]);
    q.move_entry(1, 3);
    assert_eq!(titles(&q), vec!["a", "c", "d", "b"]);
    q.move_entry(3, 1);
    assert_eq!(titles(&q), vec!["a", "b", "c", "d"]);
}

#[test]
fn clear_empties() {
    let mut q = queue_of(&["a", "b"]);
    q.clear();
    assert!(q.is_empty());
}

fn local(path: &str, title: &str) -> LocalTrack {
    LocalTrack {
        path: path.to_string(),
        title: title.to_string(),
        artist: "Band".to_string(),
        album: String::new(),
        album_artist: String::new(),
        year: String::new(),
        duration_secs: 125,
        cover_art_path: None,
    }
}

#[test]
fn entries_from_tracks() {
    let e = QueueEntry::from_track(&local("/m/a/01 Intro.flac", "Intro"));
    assert_eq!((e.path.as_str(), e.title.as_str(), e.artist.as_str(), e.duration.as_str()), ("/m/a/01 Intro.flac", "Intro", "Band", "02:05"));
    let e = QueueEntry::from_track(&local("/m/a/02 Song.mp3", ""));
    assert_eq!(e.title, "02 Song");
}

#[test]
fn enqueueing_appends() {
    let mut p = PlayerController::new(false);
    assert_eq!(p.enqueue_paths(Vec::new()), 0);
    assert_eq!(p.enqueue_paths(vec![entry("a"), entry("b")]), 2);
    assert_eq!(p.enqueue_paths(vec![entry("c")]), 1);
    assert_eq!(titles(&p.queue), vec!["a", "b", "c"]);
}
