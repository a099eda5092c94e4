use remani::chart::Note;
use remani::config::InputButton;
use remani::model::{Judgement, Model};

const SEC: i64 = 1_000_000_000;

fn note(time_ms: i64, column: usize, end_ms: Option<i64>) -> Note {
    Note {
        time: time_ms * 1_000_000,
        column,
        end_time: end_ms.map(|e| e * 1_000_000),
        sound_index: None,
    }
}

fn bindings() -> [InputButton; 7] {
    let mut b = [InputButton::Keyboard { value: 0 }; 7];
    for (i, k) in b.iter_mut().enumerate() {
        *k = InputButton::Keyboard { value: 100 + i as u32 };
    }
    b
}

#[test]
fn notes_become_pending_and_are_judged() {
    let notes = vec![note(1000, 0, None), note(1200, 3, Some(2000)), note(5000, 0, None)];
    let mut m = Model::new();
    // one second of tolerance: the first two notes are due at 0.5 s
    let missed = m.update(&notes, SEC / 2, SEC);
    assert!(missed.is_empty());
    assert_eq!(m.pending(0), vec![0]);
    assert_eq!(m.pending(3), vec![1]);
    // a press 50 ms early is perfect
    let ev = m.press(&bindings(), InputButton::Keyboard { value: 100 }, &notes, 950 * 1_000_000);
    assert_eq!(ev, vec![(0, Some(Judgement::Perfect))]);
    assert!(m.keys_down[0]);
    assert!(m.pending(0).is_empty());
    // pressing again while the key is down does nothing
    let ev = m.press(&bindings(), InputButton::Keyboard { value: 100 }, &notes, SEC);
    assert!(ev.is_empty());
    // a long note 150 ms late is a miss, but is held
    let ev = m.press(&bindings(), InputButton::Keyboard { value: 103 }, &notes, 1350 * 1_000_000);
    assert_eq!(ev, vec![(3, Some(Judgement::Miss))]);
    assert_eq!(m.held(3), Some(1));
    // releasing lets go of it
    let ev = m.release(&bindings(), InputButton::Keyboard { value: 103 });
    assert_eq!(ev, vec![3]);
    assert_eq!(m.held(3), None);
    assert!(!m.keys_down[3]);
    // a press on a column with nothing pending has no judgement
    let ev = m.press(&bindings(), InputButton::Keyboard { value: 105 }, &notes, SEC);
    assert_eq!(ev, vec![(5, None)]);
    // an unbound button does nothing
    assert!(m.press(&bindings(), InputButton::Mouse { value: 1 }, &notes, SEC).is_empty());
}

#[test]
fn late_notes_are_missed() {
    let notes = vec![note(1000, 2, None), note(1100, 2, None), note(3000, 2, Some(3500))];
    let mut m = Model::new();
    m.update(&notes, 0, 2 * SEC);
    assert_eq!(m.pending(2), vec![0, 1]);
    // at 1.35 s the first note is more than 0.3 s late, the second is not
    let missed = m.update(&notes, 1350 * 1_000_000, 2 * SEC);
    assert_eq!(missed, vec![0]);
    assert_eq!(m.pending(2), vec![1, 2]);
    // a long note is missed only 0.3 s after its end
    let missed = m.update(&notes, 3700 * 1_000_000, 2 * SEC);
    assert_eq!(missed, vec![1]);
    assert_eq!(m.pending(2), vec![2]);
    let missed = m.update(&notes, 3900 * 1_000_000, 2 * SEC);
    assert_eq!(missed, vec![2]);
    assert!(m.pending(2).is_empty());
}

#[test]
fn one_button_bound_to_two_columns() {
    let notes = vec![note(1000, 1, None), note(1000, 2, None)];
    let mut b = bindings();
    b[2] = b[1];
    let mut m = Model::new();
    m.update(&notes, 0, 2 * SEC);
    let ev = m.press(&b, b[1], &notes, SEC);
    assert_eq!(ev, vec![(1, Some(Judgement::Perfect)), (2, Some(Judgement::Perfect))]);
    assert_eq!(m.release(&b, b[1]), vec![1, 2]);
}
