use remani::scene::{play_start, play_update, PlayAction, PlayState};

const S: i64 = 1_000_000_000;

#[test]
fn autoplay_sounds_play_in_order_when_due() {
    let times = vec![1 * S, 2 * S, 2 * S];
    let s = play_start();
    assert_eq!(s, PlayState { autoplay_index: 0, end_time: None });
    // the offset is taken off the music time
    let (s, a) = play_update(s, &times, S + S / 2, S, false);
    assert_eq!(a, PlayAction { play_autoplay: None, leave: false });
    let (s, a) = play_update(s, &times, 2 * S, S, false);
    assert_eq!(a.play_autoplay, Some(0));
    // one sound per update, even when several are due
    let (s, a) = play_update(s, &times, 4 * S, 0, false);
    assert_eq!(a.play_autoplay, Some(1));
    let (s, a) = play_update(s, &times, 4 * S, 0, false);
    assert_eq!(a.play_autoplay, Some(2));
    let (s, a) = play_update(s, &times, 5 * S, 0, false);
    assert_eq!(a.play_autoplay, None);
    assert_eq!(s.autoplay_index, 3);
}

#[test]
fn the_scene_is_left_ten_seconds_after_the_end() {
    let times: Vec<i64> = Vec::new();
    let s = play_start();
    let (s, a) = play_update(s, &times, 3 * S, 0, false);
    assert!(!a.leave);
    let (s, a) = play_update(s, &times, 5 * S, 0, true);
    assert_eq!(s.end_time, Some(5 * S));
    assert!(!a.leave);
    // the end time stays the first one seen
    let (s, a) = play_update(s, &times, 15 * S, 0, true);
    assert_eq!(s.end_time, Some(5 * S));
    assert!(!a.leave);
    let (_, a) = play_update(s, &times, 15 * S + 1, 0, true);
    assert!(a.leave);
}
