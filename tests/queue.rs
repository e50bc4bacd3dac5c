use crabidy_server::model::Track;
use crabidy_server::queue::QueueManager;

fn track(id: &str) -> Track {
    Track {
        uuid: format!("track:{}", id),
        title: id.to_string(),
        artist: "artist".to_string(),
        album: None,
        duration: Some(1000),
    }
}

fn tracks(ids: &[&str]) -> Vec<Track> {
    ids.iter().map(|id| track(id)).collect()
}

fn ids(q: &QueueManager) -> Vec<String> {
    q.tracks().iter().map(|t| t.title.clone()).collect()
}

fn current_id(q: &QueueManager) -> Option<String> {
    q.current_track().map(|t| t.title)
}

fn assert_permutation(q: &QueueManager) {
    let mut order = q.play_order().to_vec();
    order.sort();
    let expected: Vec<usize> = (0..q.tracks().len()).collect();
    assert_eq!(order, expected);
}

fn shuffled_queue(n: usize, current: u32) -> QueueManager {
    let mut q = QueueManager::new();
    let names: Vec<String> = (0..n).map(|i| format!("t{}", i)).collect();
    let refs: Vec<&str> = names.iter().map(|s| s.as_str()).collect();
    q.replace_with_tracks(&tracks(&refs));
    q.shuffle_on();
    assert!(q.set_current_position(current));
    q
}

#[test]
fn random_delete_before() {
    for _ in 0..20 {
        let mut q = shuffled_queue(8, 5);
        while q.current_offset() < 4 {
            q.next_track();
        }
        let current = current_id(&q).unwrap();
        let before = q.play_order()[0] as u32;
        let offset = q.current_offset();
        assert_eq!(q.remove_tracks(&[before]), None);
        assert_eq!(current_id(&q).unwrap(), current);
        assert_eq!(q.current_offset(), offset - 1);
        assert_eq!(q.tracks().len(), 7);
        assert_permutation(&q);
    }
}

#[test]
fn random_delete_track() {
    for _ in 0..20 {
        let mut q = shuffled_queue(8, 3);
        q.next_track();
        q.next_track();
        let offset = q.current_offset();
        let following = q.tracks()[q.play_order()[offset + 1]].title.clone();
        let current = q.current_position() as u32;
        let next = q.remove_tracks(&[current]).unwrap();
        assert_eq!(next.title, following);
        assert_eq!(current_id(&q).unwrap(), following);
        assert_eq!(q.current_offset(), offset);
        assert_permutation(&q);
    }
}

#[test]
fn random_delete_after() {
    for _ in 0..20 {
        let mut q = shuffled_queue(8, 2);
        q.next_track();
        let current = current_id(&q).unwrap();
        let offset = q.current_offset();
        let last = q.play_order()[7] as u32;
        assert_eq!(q.remove_tracks(&[last]), None);
        assert_eq!(current_id(&q).unwrap(), current);
        assert_eq!(q.current_offset(), offset);
        assert_permutation(&q);
    }
}

#[test]
fn random_select_track() {
    for pos in 0..6u32 {
        let mut q = shuffled_queue(6, 0);
        assert!(q.set_current_position(pos));
        assert_eq!(q.current_offset(), 0);
        assert_eq!(q.current_position(), pos as usize);
        assert_eq!(current_id(&q).unwrap(), format!("t{}", pos));
        assert_permutation(&q);
    }
}

#[test]
fn jump_then_run_off_the_end_then_repeat() {
    let mut q = QueueManager::new();
    q.replace_with_tracks(&tracks(&["a", "b", "c"]));
    assert!(q.set_current_position(2));
    assert_eq!(current_id(&q).as_deref(), Some("c"));
    assert_eq!(q.next_track(), None);
    q.set_repeat(true);
    assert_eq!(q.next_track().map(|t| t.title).as_deref(), Some("a"));
}

#[test]
fn insert_before_current_keeps_current() {
    let mut q = QueueManager::new();
    q.replace_with_tracks(&tracks(&["a", "b", "c"]));
    q.next_track();
    assert_eq!(q.current_offset(), 1);
    q.insert_tracks(0, &tracks(&["x"]));
    assert_eq!(ids(&q), vec!["a", "x", "b", "c"]);
    assert_eq!(current_id(&q).as_deref(), Some("b"));
    assert_eq!(q.play_order(), &[0, 1, 2, 3]);
    assert_eq!(q.current_offset(), 2);
}

#[test]
fn remove_current_among_several() {
    let mut q = QueueManager::new();
    q.replace_with_tracks(&tracks(&["a", "b", "c", "d"]));
    assert!(q.set_current_position(2));
    let next = q.remove_tracks(&[0, 2]);
    assert_eq!(ids(&q), vec!["b", "d"]);
    assert_eq!(next.map(|t| t.title).as_deref(), Some("d"));
    assert_eq!(current_id(&q).as_deref(), Some("d"));
}

#[test]
fn remove_in_any_order_refers_to_positions_before_removal() {
    let mut q = QueueManager::new();
    q.replace_with_tracks(&tracks(&["a", "b", "c", "d"]));
    assert_eq!(q.remove_tracks(&[3, 0]), Some(track("b")));
    assert_eq!(ids(&q), vec!["b", "c"]);
}

#[test]
fn append_to_empty_queue_becomes_current() {
    let mut q = QueueManager::new();
    assert_eq!(q.replace_with_tracks(&[]), None);
    assert_eq!(q.current_track(), None);
    q.append_tracks(&tracks(&["a"]));
    assert_eq!(current_id(&q).as_deref(), Some("a"));
}

#[test]
fn append_while_shuffling_keeps_played_steps() {
    for _ in 0..20 {
        let mut q = shuffled_queue(5, 1);
        q.next_track();
        q.next_track();
        assert_eq!(q.current_offset(), 2);
        let played: Vec<usize> = q.play_order()[..=2].to_vec();
        q.append_tracks(&tracks(&["f", "g"]));
        assert_eq!(&q.play_order()[..=2], played.as_slice());
        assert_eq!(q.tracks().len(), 7);
        assert_permutation(&q);
    }
}

#[test]
fn shuffle_on_then_off_keeps_current_track() {
    for _ in 0..20 {
        let mut q = QueueManager::new();
        q.replace_with_tracks(&tracks(&["a", "b", "c", "d", "e"]));
        q.next_track();
        q.next_track();
        q.shuffle_on();
        assert_eq!(current_id(&q).as_deref(), Some("c"));
        q.shuffle_off();
        assert_eq!(current_id(&q).as_deref(), Some("c"));
        assert_eq!(q.play_order(), &[0, 1, 2, 3, 4]);
        assert_eq!(q.current_offset(), 2);
    }
}

#[test]
fn shuffle_off_restores_plain_order_at_current_track() {
    let mut q = shuffled_queue(6, 4);
    q.shuffle_off();
    assert_eq!(q.current_offset(), 4);
    assert_eq!(current_id(&q).as_deref(), Some("t4"));
}

#[test]
fn replace_then_remove_nothing_changes_nothing() {
    let mut q = QueueManager::new();
    q.replace_with_tracks(&tracks(&["a", "b", "c"]));
    assert_eq!(q.remove_tracks(&[]), None);
    assert_eq!(ids(&q), vec!["a", "b", "c"]);
    assert_eq!(current_id(&q).as_deref(), Some("a"));
}

#[test]
fn next_past_the_end_stays_put() {
    let mut q = QueueManager::new();
    q.replace_with_tracks(&tracks(&["a", "b"]));
    q.next_track();
    for _ in 0..5 {
        assert_eq!(q.next_track(), None);
        assert_eq!(q.current_offset(), 1);
    }
    let mut empty = QueueManager::new();
    assert_eq!(empty.next_track(), None);
    assert_eq!(empty.prev_track(), None);
    assert_eq!(empty.current_offset(), 0);
}

#[test]
fn prev_moves_back() {
    let mut q = QueueManager::new();
    q.replace_with_tracks(&tracks(&["a", "b"]));
    assert_eq!(q.prev_track(), None);
    q.next_track();
    assert_eq!(q.prev_track().map(|t| t.title).as_deref(), Some("a"));
}

#[test]
fn out_of_range_requests_change_nothing() {
    let mut q = QueueManager::new();
    q.replace_with_tracks(&tracks(&["a", "b"]));
    assert!(!q.set_current_position(2));
    assert_eq!(q.remove_tracks(&[0, 2]), None);
    assert_eq!(ids(&q), vec!["a", "b"]);
    assert_eq!(current_id(&q).as_deref(), Some("a"));
}

#[test]
fn queue_tracks_plays_them_next() {
    let mut q = QueueManager::new();
    q.replace_with_tracks(&tracks(&["a", "b", "c"]));
    q.queue_tracks(&tracks(&["x", "y"]));
    assert_eq!(ids(&q), vec!["a", "x", "y", "b", "c"]);
    assert_eq!(q.next_track().map(|t| t.title).as_deref(), Some("x"));
}

#[test]
fn insert_into_empty_queue_replaces() {
    let mut q = QueueManager::new();
    q.insert_tracks(7, &tracks(&["a", "b"]));
    assert_eq!(ids(&q), vec!["a", "b"]);
    assert_eq!(current_id(&q).as_deref(), Some("a"));
}

#[test]
fn insert_past_the_end_appends() {
    let mut q = QueueManager::new();
    q.replace_with_tracks(&tracks(&["a", "b"]));
    q.insert_tracks(9, &tracks(&["x"]));
    assert_eq!(ids(&q), vec!["a", "b", "x"]);
}

#[test]
fn insert_while_shuffling_keeps_current_and_played() {
    for _ in 0..20 {
        let mut q = shuffled_queue(6, 2);
        q.next_track();
        q.next_track();
        let current = current_id(&q);
        let played: Vec<String> =
            q.play_order()[..2].iter().map(|&p| q.tracks()[p].title.clone()).collect();
        q.insert_tracks(1, &tracks(&["x", "y"]));
        assert_eq!(current_id(&q), current);
        let played_after: Vec<String> =
            q.play_order()[..2].iter().map(|&p| q.tracks()[p].title.clone()).collect();
        assert_eq!(played, played_after);
        assert_eq!(q.tracks()[2].title, "x");
        assert_permutation(&q);
    }
}

#[test]
fn clear_keeps_current_when_asked() {
    let mut q = QueueManager::new();
    q.replace_with_tracks(&tracks(&["a", "b", "c"]));
    q.next_track();
    assert!(!q.clear(true));
    assert_eq!(ids(&q), vec!["b"]);
    assert_eq!(current_id(&q).as_deref(), Some("b"));
    assert!(q.clear(false));
    assert_eq!(q.tracks().len(), 0);
    assert_eq!(q.current_track(), None);
}

#[test]
fn snapshot_shows_tracks_and_position() {
    let mut q = QueueManager::new();
    q.replace_with_tracks(&tracks(&["a", "b", "c"]));
    q.set_current_position(1);
    let s = q.snapshot();
    assert_eq!(s.current_position, 1);
    assert_eq!(s.tracks, tracks(&["a", "b", "c"]));
}

#[test]
fn shuffle_all_permutes() {
    let mut q = QueueManager::new();
    q.replace_with_tracks(&tracks(&["a", "b", "c", "d", "e", "f", "g", "h"]));
    let mut changed = false;
    for _ in 0..20 {
        q.shuffle_all();
        assert_permutation(&q);
        if q.play_order() != [0, 1, 2, 3, 4, 5, 6, 7] {
            changed = true;
        }
    }
    assert!(changed);
}

#[test]
fn insert_after_removing_the_last_current_track_gives_a_current_track() {
    let mut q = QueueManager::new();
    q.replace_with_tracks(&tracks(&["a", "b", "c"]));
    assert!(q.set_current_position(2));
    assert_eq!(q.remove_tracks(&[2]), None);
    assert_eq!(q.current_track(), None);
    assert_eq!(q.current_offset(), 2);
    q.insert_tracks(0, &tracks(&["x"]));
    assert_eq!(ids(&q), vec!["a", "x", "b"]);
    assert_eq!(q.current_offset(), 2);
    assert_eq!(current_id(&q).as_deref(), Some("b"));
    assert_permutation(&q);
}

#[test]
fn insert_while_shuffling_without_current_keeps_offset() {
    for _ in 0..20 {
        let mut q = shuffled_queue(4, 0);
        while q.current_offset() < 3 {
            q.next_track();
        }
        let current = q.current_position() as u32;
        q.remove_tracks(&[current]);
        assert_eq!(q.current_offset(), 3);
        assert_eq!(q.current_track(), None);
        q.insert_tracks(1, &tracks(&["x", "y"]));
        assert_eq!(q.current_offset(), 3);
        assert!(q.current_track().is_some());
        assert_permutation(&q);
    }
}
