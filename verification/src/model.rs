//! The play model: which notes are waiting to be hit in each column, which
//! keys are held, and the timing judgements of key presses.
//!
//! Times are in nanoseconds, like the chart's. A note becomes pending in its
//! column once it is less than the miss tolerance ahead of the current time;
//! a pending note more than 0.3 s late is missed; a press judges the first
//! pending note of its column.

use std::collections::VecDeque;

use vstd::prelude::*;

use crate::chart::Note;
use crate::config::InputButton;

verus! {

/// How well a note was hit.
#[derive(Copy, Clone, Debug, PartialEq, Eq, Structural)]
pub enum Judgement {
    Perfect,
    Good,
    Bad,
    Miss,
}

/// How late a pending note may be before it is missed: 0.3 s.
pub open spec fn miss_window() -> int {
    300_000_000
}

/// How far from its time a press must be for `Perfect`: less than 0.1 s.
pub open spec fn perfect_window() -> int {
    100_000_000
}

/// Holds the game state needed by the logic and the renderer.
pub struct Model {
    pub keys_down: [bool; 7],
    /// The index of the first note that is not yet pending.
    current_note_index: usize,
    /// The pending notes of each column, by index into the chart's notes, in
    /// the order they became pending.
    next_notes: Vec<VecDeque<usize>>,
    /// The long note each column is holding, if any.
    long_notes_held: [Option<usize>; 7],
}

pub struct ModelView {
    pub keys_down: Seq<bool>,
    pub current: nat,
    pub queues: Seq<Seq<usize>>,
    pub held: Seq<Option<usize>>,
}

impl View for Model {
    type V = ModelView;

    closed spec fn view(&self) -> ModelView {
        ModelView {
            keys_down: self.keys_down@,
            current: self.current_note_index as nat,
            queues: self.next_notes@.map_values(|q: VecDeque<usize>| q@),
            held: self.long_notes_held@,
        }
    }
}

/// The model fits a chart of `n` notes: 7 columns, every pending note is one
/// of the notes made pending so far, a column holds a long note only while
/// its key is down, and each column's pending notes are in increasing order
/// (so no note is pending twice).
pub open spec fn model_wf(m: ModelView, n: nat) -> bool {
    &&& m.keys_down.len() == 7
    &&& m.held.len() == 7
    &&& m.queues.len() == 7
    &&& m.current <= n
    &&& forall|c: int, k: int|
        0 <= c < 7 && 0 <= k < m.queues[c].len() ==> #[trigger] m.queues[c][k] < m.current
    &&& forall|c: int| 0 <= c < 7 && (#[trigger] m.held[c]) is Some ==> m.keys_down[c]
    &&& forall|c: int, a: int, b: int|
        #![trigger m.queues[c][a], m.queues[c][b]]
        0 <= c < 7 && 0 <= a < b < m.queues[c].len() ==> m.queues[c][a] < m.queues[c][b]
}

// ---------------------------------------------------------------------------
// Updates
// ---------------------------------------------------------------------------

/// Whether a note is missed at `time`: its end (for a long note) or its time
/// is more than 0.3 s past.
pub open spec fn is_missed(n: Note, time: int) -> bool {
    match n.end_time {
        Some(e) => e - time < -miss_window(),
        None => n.time - time < -miss_window(),
    }
}

/// The missed notes of a queue, in queue order.
pub open spec fn missed_in(q: Seq<usize>, notes: Seq<Note>, time: int) -> Seq<usize>
    decreases q.len(),
{
    if q.len() == 0 {
        Seq::empty()
    } else {
        let r = missed_in(q.drop_last(), notes, time);
        if is_missed(notes[q.last() as int], time) {
            r.push(q.last())
        } else {
            r
        }
    }
}

/// The missed notes of the first `c` columns, column after column.
pub open spec fn missed_upto(queues: Seq<Seq<usize>>, notes: Seq<Note>, time: int, c: int) -> Seq<usize>
    decreases c,
{
    if c <= 0 {
        Seq::empty()
    } else {
        missed_upto(queues, notes, time, c - 1) + missed_in(queues[c - 1], notes, time)
    }
}

/// Note `k` is due at `time`: it is less than `tolerance` ahead.
pub open spec fn is_due(notes: Seq<Note>, k: int, time: int, tolerance: int) -> bool {
    k < notes.len() && notes[k].time - time < tolerance
}

/// The first note from `k` on that is not due.
pub open spec fn due_end(notes: Seq<Note>, k: int, time: int, tolerance: int) -> int
    decreases notes.len() - k,
{
    if 0 <= k && is_due(notes, k, time, tolerance) {
        due_end(notes, k + 1, time, tolerance)
    } else {
        k
    }
}

/// The notes of `from..to` on column `c`, in order.
pub open spec fn on_column(notes: Seq<Note>, c: int, from: int, to: int) -> Seq<usize>
    decreases to - from,
{
    if to <= from {
        Seq::empty()
    } else if notes[to - 1].column == c {
        on_column(notes, c, from, to - 1).push((to - 1) as usize)
    } else {
        on_column(notes, c, from, to - 1)
    }
}

/// What an update at `time` does: the missed notes are reported, and as many
/// notes leave the front of each queue as were missed in it; then the notes
/// that are now due become pending in their columns.
pub open spec fn update_spec(m: ModelView, notes: Seq<Note>, time: int, tolerance: int) -> (ModelView, Seq<usize>) {
    let end = due_end(notes, m.current as int, time, tolerance);
    (
        ModelView {
            current: end as nat,
            queues: Seq::new(
                7,
                |c: int|
                    m.queues[c].skip(missed_in(m.queues[c], notes, time).len() as int) + on_column(
                        notes,
                        c,
                        m.current as int,
                        end,
                    ),
            ),
            ..m
        },
        missed_upto(m.queues, notes, time, 7),
    )
}

/// Every note that becomes pending names one of the 7 columns.
pub open spec fn update_ok(m: ModelView, notes: Seq<Note>, time: int, tolerance: int) -> bool {
    forall|j: int|
        m.current <= j < due_end(notes, m.current as int, time, tolerance) ==> #[trigger] notes[j].column
            < 7
}

// ---------------------------------------------------------------------------
// Presses and releases
// ---------------------------------------------------------------------------

/// The judgement of a press `timing` away from the note's time.
pub open spec fn judgement_of(timing: int) -> Judgement {
    if -perfect_window() < timing < perfect_window() {
        Judgement::Perfect
    } else {
        Judgement::Miss
    }
}

/// What pressing `button` does to column `k`: where the key of the column is
/// bound to it and is not already down, the key goes down and the first
/// pending note of the column (if any) is judged and leaves the queue; a long
/// note is then held.
pub open spec fn press_col(
    m: ModelView,
    k: int,
    bindings: Seq<InputButton>,
    button: InputButton,
    notes: Seq<Note>,
    time: int,
) -> (ModelView, Option<(usize, Option<Judgement>)>) {
    if bindings[k] == button && !m.keys_down[k] {
        let keys_down = m.keys_down.update(k, true);
        if m.queues[k].len() > 0 {
            let ni = m.queues[k][0];
            let n = notes[ni as int];
            let held = if n.end_time is Some {
                m.held.update(k, Some(ni))
            } else {
                m.held
            };
            (
                ModelView {
                    keys_down: keys_down,
                    queues: m.queues.update(k, m.queues[k].drop_first()),
                    held: held,
                    ..m
                },
                Some((k as usize, Some(judgement_of(n.time - time)))),
            )
        } else {
            (ModelView { keys_down: keys_down, ..m }, Some((k as usize, None)))
        }
    } else {
        (m, None)
    }
}

/// Pressing `button` over the first `c` columns, in column order, with the
/// column and judgement reported for each column it presses.
pub open spec fn press_upto(
    m: ModelView,
    c: int,
    bindings: Seq<InputButton>,
    button: InputButton,
    notes: Seq<Note>,
    time: int,
) -> (ModelView, Seq<(usize, Option<Judgement>)>)
    decreases c,
{
    if c <= 0 {
        (m, Seq::empty())
    } else {
        let (m1, ev) = press_upto(m, c - 1, bindings, button, notes, time);
        let (m2, e) = press_col(m1, c - 1, bindings, button, notes, time);
        (
            m2,
            match e {
                Some(x) => ev.push(x),
                None => ev,
            },
        )
    }
}

/// What releasing `button` does to column `k`: where the key of the column is
/// bound to it, the key goes up and the column no longer holds a long note.
pub open spec fn release_col(m: ModelView, k: int, bindings: Seq<InputButton>, button: InputButton) -> (
    ModelView,
    Option<usize>,
) {
    if bindings[k] == button {
        (
            ModelView { keys_down: m.keys_down.update(k, false), held: m.held.update(k, None), ..m },
            Some(k as usize),
        )
    } else {
        (m, None)
    }
}

pub open spec fn release_upto(m: ModelView, c: int, bindings: Seq<InputButton>, button: InputButton) -> (
    ModelView,
    Seq<usize>,
)
    decreases c,
{
    if c <= 0 {
        (m, Seq::empty())
    } else {
        let (m1, ev) = release_upto(m, c - 1, bindings, button);
        let (m2, e) = release_col(m1, c - 1, bindings, button);
        (
            m2,
            match e {
                Some(x) => ev.push(x),
                None => ev,
            },
        )
    }
}

// ---------------------------------------------------------------------------
// Lemmas
// ---------------------------------------------------------------------------

proof fn lemma_missed_in_len(q: Seq<usize>, notes: Seq<Note>, time: int)
    ensures
        missed_in(q, notes, time).len() <= q.len(),
    decreases q.len(),
{
    if q.len() > 0 {
        lemma_missed_in_len(q.drop_last(), notes, time);
    }
}

proof fn lemma_due_end_step(notes: Seq<Note>, k: int, time: int, tolerance: int)
    requires
        0 <= k,
        is_due(notes, k, time, tolerance),
    ensures
        due_end(notes, k, time, tolerance) == due_end(notes, k + 1, time, tolerance),
{
}

proof fn lemma_on_column_bounds(notes: Seq<Note>, c: int, from: int, to: int)
    requires
        0 <= from,
        to <= usize::MAX + 1,
    ensures
        forall|i: int|
            0 <= i < on_column(notes, c, from, to).len() ==> from <= #[trigger] on_column(notes, c, from, to)[i]
                < to,
    decreases to - from,
{
    if to > from {
        lemma_on_column_bounds(notes, c, from, to - 1);
        let prev = on_column(notes, c, from, to - 1);
        let cur = on_column(notes, c, from, to);
        assert forall|i: int| 0 <= i < cur.len() implies from <= #[trigger] cur[i] < to by {
            if i < prev.len() {
                assert(cur[i] == prev[i]);
            }
        }
    }
}

proof fn lemma_on_column_increasing(notes: Seq<Note>, c: int, from: int, to: int)
    requires
        0 <= from,
        to <= usize::MAX + 1,
    ensures
        forall|a: int, b: int|
            #![trigger on_column(notes, c, from, to)[a], on_column(notes, c, from, to)[b]]
            0 <= a < b < on_column(notes, c, from, to).len() ==> on_column(notes, c, from, to)[a]
                < on_column(notes, c, from, to)[b],
    decreases to - from,
{
    if to > from {
        lemma_on_column_increasing(notes, c, from, to - 1);
        lemma_on_column_bounds(notes, c, from, to - 1);
        let prev = on_column(notes, c, from, to - 1);
        let cur = on_column(notes, c, from, to);
        assert forall|a: int, b: int|
            #![trigger cur[a], cur[b]]
            0 <= a < b < cur.len() implies cur[a] < cur[b] by {
            if b < prev.len() {
                assert(cur[a] == prev[a] && cur[b] == prev[b]);
            } else {
                assert(cur[a] == prev[a]);
                assert(prev[a] < to - 1);
            }
        }
    }
}

proof fn lemma_due_end_ge(notes: Seq<Note>, k: int, time: int, tolerance: int)
    requires
        0 <= k,
    ensures
        k <= due_end(notes, k, time, tolerance),
        due_end(notes, k, time, tolerance) <= (if k <= notes.len() { notes.len() as int } else { k }),
    decreases notes.len() - k,
{
    if is_due(notes, k, time, tolerance) {
        lemma_due_end_ge(notes, k + 1, time, tolerance);
    }
}

// ---------------------------------------------------------------------------
// The model
// ---------------------------------------------------------------------------

impl Model {
    /// A model with nothing pending, no key down and no long note held.
    pub fn new() -> (r: Model)
        ensures
            r@.current == 0,
            r@.keys_down == Seq::new(7, |i: int| false),
            r@.queues == Seq::new(7, |i: int| Seq::<usize>::empty()),
            r@.held == Seq::new(7, |i: int| None::<usize>),
            forall|n: nat| model_wf(r@, n),
    {
        let mut queues: Vec<VecDeque<usize>> = Vec::new();
        let mut i: usize = 0;
        while i < 7
            invariant
                i <= 7,
                queues@.len() == i,
                forall|k: int| 0 <= k < i ==> (#[trigger] queues@[k])@ == Seq::<usize>::empty(),
            decreases 7 - i,
        {
            queues.push(VecDeque::new());
            i = i + 1;
        }
        let r = Model {
            keys_down: [false, false, false, false, false, false, false],
            current_note_index: 0,
            next_notes: queues,
            long_notes_held: [None, None, None, None, None, None, None],
        };
        assert(r@.keys_down =~= Seq::new(7, |i: int| false));
        assert(r@.queues =~= Seq::new(7, |i: int| Seq::<usize>::empty()));
        assert(r@.held =~= Seq::new(7, |i: int| None::<usize>));
        r
    }

    /// The pending notes of a column, first to be hit first.
    pub fn pending(&self, column: usize) -> (r: Vec<usize>)
        requires
            column < self@.queues.len(),
        ensures
            r@ == self@.queues[column as int],
    {
        let q = &self.next_notes[column];
        let mut r: Vec<usize> = Vec::new();
        let mut i: usize = 0;
        while i < q.len()
            invariant
                i <= q.len(),
                r@ == q@.take(i as int),
                q@ == self@.queues[column as int],
            decreases q.len() - i,
        {
            r.push(q[i]);
            assert(q@.take(i + 1) =~= q@.take(i as int).push(q@[i as int]));
            i = i + 1;
        }
        assert(q@.take(i as int) =~= q@);
        r
    }

    /// The long note a column holds, if any.
    pub fn held(&self, column: usize) -> (r: Option<usize>)
        requires
            column < 7,
        ensures
            r == self@.held[column as int],
    {
        self.long_notes_held[column]
    }

    /// Takes the first pending note of a column.
    fn pop_front_of(&mut self, c: usize) -> (r: Option<usize>)
        requires
            c < 7,
            old(self).next_notes@.len() == 7,
        ensures
            final(self).next_notes@.len() == 7,
            final(self)@ == (ModelView {
                queues: old(self)@.queues.update(
                    c as int,
                    if old(self)@.queues[c as int].len() > 0 {
                        old(self)@.queues[c as int].drop_first()
                    } else {
                        old(self)@.queues[c as int]
                    },
                ),
                ..old(self)@
            }),
            match r {
                Some(x) => old(self)@.queues[c as int].len() > 0 && x == old(self)@.queues[c as int][0],
                None => old(self)@.queues[c as int].len() == 0,
            },
    {
        let ghost before = self.next_notes@;
        let ghost v0 = self@;
        assert(v0.queues[c as int] == before[c as int]@);
        let mut q = self.next_notes.remove(c);
        let r = q.pop_front();
        let ghost q1 = q@;
        self.next_notes.insert(c, q);
        proof {
            assert(self.next_notes@.len() == 7);
            assert forall|d: int| 0 <= d < 7 implies #[trigger] self@.queues[d] == v0.queues.update(
                c as int,
                if v0.queues[c as int].len() > 0 {
                    v0.queues[c as int].drop_first()
                } else {
                    v0.queues[c as int]
                },
            )[d] by {
                if d != c {
                    assert(self.next_notes@[d] == before[d]);
                } else {
                    assert(self.next_notes@[d]@ == q1);
                    if v0.queues[c as int].len() > 0 {
                        assert(q1 =~= v0.queues[c as int].drop_first());
                    }
                }
            }
            assert(self@.queues =~= v0.queues.update(
                c as int,
                if v0.queues[c as int].len() > 0 {
                    v0.queues[c as int].drop_first()
                } else {
                    v0.queues[c as int]
                },
            ));
        }
        r
    }

    /// Makes a note pending at the back of a column.
    fn push_back_to(&mut self, c: usize, x: usize)
        requires
            c < 7,
            old(self).next_notes@.len() == 7,
        ensures
            final(self).next_notes@.len() == 7,
            final(self)@ == (ModelView {
                queues: old(self)@.queues.update(c as int, old(self)@.queues[c as int].push(x)),
                ..old(self)@
            }),
    {
        let ghost before = self.next_notes@;
        let ghost v0 = self@;
        assert(v0.queues[c as int] == before[c as int]@);
        let mut q = self.next_notes.remove(c);
        q.push_back(x);
        let ghost q1 = q@;
        self.next_notes.insert(c, q);
        proof {
            assert forall|d: int| 0 <= d < 7 implies #[trigger] self@.queues[d] == v0.queues.update(
                c as int,
                v0.queues[c as int].push(x),
            )[d] by {
                if d != c {
                    assert(self.next_notes@[d] == before[d]);
                } else {
                    assert(self.next_notes@[d]@ == q1);
                }
            }
            assert(self@.queues =~= v0.queues.update(c as int, v0.queues[c as int].push(x)));
        }
    }

    /// Called when an update event occurs: reports the notes that were missed
    /// and makes pending the notes less than `tolerance` ahead (see
    /// `update_spec`).
    pub fn update(&mut self, notes: &Vec<Note>, time: i64, tolerance: i64) -> (missed: Vec<usize>)
        requires
            model_wf(old(self)@, notes.len() as nat),
            update_ok(old(self)@, notes@, time as int, tolerance as int),
        ensures
            (final(self)@, missed@) == update_spec(old(self)@, notes@, time as int, tolerance as int),
            model_wf(final(self)@, notes.len() as nat),
    {
        let ghost m0 = self@;
        let mut missed: Vec<usize> = Vec::new();
        let mut c: usize = 0;
        while c < 7
            invariant
                c <= 7,
                model_wf(m0, notes.len() as nat),
                self.next_notes@.len() == 7,
                self@.current == m0.current,
                self@.keys_down == m0.keys_down,
                self@.held == m0.held,
                self@.queues.len() == 7,
                missed@ == missed_upto(m0.queues, notes@, time as int, c as int),
                forall|d: int|
                    0 <= d < 7 ==> #[trigger] self@.queues[d] == (if d < c {
                        m0.queues[d].skip(missed_in(m0.queues[d], notes@, time as int).len() as int)
                    } else {
                        m0.queues[d]
                    }),
            decreases 7 - c,
        {
            assert(self@.queues[c as int] == m0.queues[c as int]);
            assert(self.next_notes@[c as int]@ == self@.queues[c as int]);
            let ghost q = m0.queues[c as int];
            let mut count: usize = 0;
            let mut i: usize = 0;
            let ghost base = missed@;
            while i < self.next_notes[c].len()
                invariant
                    i <= q.len(),
                    self.next_notes@.len() == 7,
                    self.next_notes@[c as int]@ == q,
                    q == m0.queues[c as int],
                    model_wf(m0, notes.len() as nat),
                    c < 7,
                    count <= i,
                    missed@ == base + missed_in(q.take(i as int), notes@, time as int),
                    count == missed_in(q.take(i as int), notes@, time as int).len(),
                decreases q.len() - i,
            {
                let idx = self.next_notes[c][i];
                assert(q[i as int] < m0.current);
                let n = notes[idx];
                let late = match n.end_time {
                    Some(e) => (e as i128) - (time as i128) < -300_000_000,
                    None => (n.time as i128) - (time as i128) < -300_000_000,
                };
                assert(q.take(i + 1).drop_last() =~= q.take(i as int));
                if late {
                    missed.push(idx);
                    count = count + 1;
                }
                i = i + 1;
            }
            assert(q.take(i as int) =~= q);
            proof {
                lemma_missed_in_len(q, notes@, time as int);
            }
            let mut j: usize = 0;
            while j < count
                invariant
                    j <= count <= q.len(),
                    c < 7,
                    self.next_notes@.len() == 7,
                    self@.queues.len() == 7,
                    self@.queues[c as int] == q.skip(j as int),
                    self@.current == m0.current,
                    self@.keys_down == m0.keys_down,
                    self@.held == m0.held,
                    forall|d: int|
                        0 <= d < 7 && d != c ==> #[trigger] self@.queues[d] == (if d < c {
                            m0.queues[d].skip(missed_in(m0.queues[d], notes@, time as int).len() as int)
                        } else {
                            m0.queues[d]
                        }),
                decreases count - j,
            {
                let ghost before = self@.queues;
                self.pop_front_of(c);
                assert(q.skip(j + 1) =~= q.skip(j as int).drop_first());
                assert forall|d: int| 0 <= d < 7 && d != c implies #[trigger] self@.queues[d] == before[d] by {}
                j = j + 1;
            }
            c = c + 1;
        }
        let ghost cur0 = self.current_note_index as int;
        let ghost end = due_end(notes@, cur0, time as int, tolerance as int);
        let ghost mid = self@.queues;
        proof {
            lemma_due_end_ge(notes@, cur0, time as int, tolerance as int);
            assert forall|d: int| 0 <= d < 7 implies #[trigger] mid[d] + on_column(notes@, d, cur0, cur0)
                == mid[d] by {
                assert(mid[d] + on_column(notes@, d, cur0, cur0) =~= mid[d]);
            }
        }
        while self.current_note_index < notes.len() && (notes[self.current_note_index].time as i128)
            - (time as i128) < (tolerance as i128)
            invariant
                self.next_notes@.len() == 7,
                self@.queues.len() == 7,
                mid.len() == 7,
                cur0 <= self.current_note_index <= end <= notes.len(),
                end == due_end(notes@, self.current_note_index as int, time as int, tolerance as int),
                update_ok(m0, notes@, time as int, tolerance as int),
                m0.current == cur0,
                end == due_end(notes@, cur0, time as int, tolerance as int),
                self@.keys_down == m0.keys_down,
                self@.held == m0.held,
                forall|d: int|
                    0 <= d < 7 ==> #[trigger] self@.queues[d] == mid[d] + on_column(
                        notes@,
                        d,
                        cur0,
                        self.current_note_index as int,
                    ),
            decreases notes.len() - self.current_note_index,
        {
            let k = self.current_note_index;
            proof {
                lemma_due_end_step(notes@, k as int, time as int, tolerance as int);
                lemma_due_end_ge(notes@, k + 1, time as int, tolerance as int);
            }
            let col = notes[k].column;
            assert(col < 7);
            let ghost before = self@.queues;
            self.push_back_to(col, k);
            self.current_note_index = k + 1;
            proof {
                assert forall|d: int| 0 <= d < 7 implies #[trigger] self@.queues[d] == mid[d] + on_column(
                    notes@,
                    d,
                    cur0,
                    k + 1,
                ) by {
                    if d == col {
                        assert(mid[d] + on_column(notes@, d, cur0, k + 1) =~= (mid[d] + on_column(
                            notes@,
                            d,
                            cur0,
                            k as int,
                        )).push(k));
                    } else {
                        assert(self@.queues[d] == before[d]);
                    }
                }
            }
        }
        proof {
            let m1 = self@;
            let spec_m = update_spec(m0, notes@, time as int, tolerance as int).0;
            assert(m1.queues =~= spec_m.queues);
            assert forall|cc: int, kk: int| 0 <= cc < 7 && 0 <= kk < m1.queues[cc].len() implies #[trigger] m1.queues[cc][kk]
                < m1.current by {
                let mq = mid[cc];
                let oc = on_column(notes@, cc, cur0, self.current_note_index as int);
                lemma_on_column_bounds(notes@, cc, cur0, self.current_note_index as int);
                if kk < mq.len() {
                    let sk = missed_in(m0.queues[cc], notes@, time as int).len() as int;
                    lemma_missed_in_len(m0.queues[cc], notes@, time as int);
                    assert(mq == m0.queues[cc].skip(sk));
                    assert(mq[kk] == m0.queues[cc][kk + sk]);
                } else {
                    assert(m1.queues[cc][kk] == oc[kk - mq.len()]);
                }
            }
            assert forall|cc: int, a: int, b: int|
                #![trigger m1.queues[cc][a], m1.queues[cc][b]]
                0 <= cc < 7 && 0 <= a < b < m1.queues[cc].len() implies m1.queues[cc][a] < m1.queues[cc][b] by {
                let mq = mid[cc];
                let oc = on_column(notes@, cc, cur0, self.current_note_index as int);
                lemma_on_column_bounds(notes@, cc, cur0, self.current_note_index as int);
                lemma_on_column_increasing(notes@, cc, cur0, self.current_note_index as int);
                let sk = missed_in(m0.queues[cc], notes@, time as int).len() as int;
                lemma_missed_in_len(m0.queues[cc], notes@, time as int);
                assert(mq == m0.queues[cc].skip(sk));
                if b < mq.len() {
                    assert(m1.queues[cc][a] == m0.queues[cc][a + sk]);
                    assert(m1.queues[cc][b] == m0.queues[cc][b + sk]);
                } else if a < mq.len() {
                    assert(m1.queues[cc][a] == m0.queues[cc][a + sk]);
                    assert(m0.queues[cc][a + sk] < m0.current);
                    assert(m1.queues[cc][b] == oc[b - mq.len()]);
                } else {
                    assert(m1.queues[cc][a] == oc[a - mq.len()]);
                    assert(m1.queues[cc][b] == oc[b - mq.len()]);
                }
            }
        }
        missed
    }

    /// Called when a press event occurs: reports each column pressed, with
    /// the judgement of the note it hit, if any (see `press_upto`).
    pub fn press(&mut self, bindings: &[InputButton; 7], button: InputButton, notes: &Vec<Note>, time: i64) -> (events: Vec<(usize, Option<Judgement>)>)
        requires
            model_wf(old(self)@, notes.len() as nat),
        ensures
            (final(self)@, events@) == press_upto(old(self)@, 7, bindings@, button, notes@, time as int),
            model_wf(final(self)@, notes.len() as nat),
    {
        let ghost m0 = self@;
        let mut events: Vec<(usize, Option<Judgement>)> = Vec::new();
        let mut k: usize = 0;
        while k < 7
            invariant
                k <= 7,
                self.next_notes@.len() == 7,
                model_wf(self@, notes.len() as nat),
                (self@, events@) == press_upto(m0, k as int, bindings@, button, notes@, time as int),
            decreases 7 - k,
        {
            let ghost m1 = self@;
            if bindings[k] == button && !self.keys_down[k] {
                self.keys_down = with7(self.keys_down, k, true);
                assert(m1.queues[k as int].len() > 0 ==> m1.queues[k as int][0] < m1.current);
                match self.pop_front_of(k) {
                    Some(ni) => {
                        let n = notes[ni];
                        if n.end_time.is_some() {
                            self.long_notes_held = with7(self.long_notes_held, k, Some(ni));
                        }
                        let timing = (n.time as i128) - (time as i128);
                        let j = if -100_000_000 < timing && timing < 100_000_000 {
                            Judgement::Perfect
                        } else {
                            Judgement::Miss
                        };
                        events.push((k, Some(j)));
                    },
                    None => {
                        events.push((k, None));
                    },
                }
                proof {
                    let p = press_col(m1, k as int, bindings@, button, notes@, time as int).0;
                    assert(self@.keys_down =~= p.keys_down);
                    assert(self@.held =~= p.held);
                    assert(self@.queues =~= p.queues);
                    assert forall|cc: int, kk: int| 0 <= cc < 7 && 0 <= kk < self@.queues[cc].len() implies #[trigger] self@.queues[cc][kk]
                        < self@.current by {
                        if cc == k {
                            assert(self@.queues[cc][kk] == m1.queues[cc][kk + 1]);
                        } else {
                            assert(self@.queues[cc] == m1.queues[cc]);
                        }
                    }
                    assert forall|cc: int, a: int, b: int|
                        #![trigger self@.queues[cc][a], self@.queues[cc][b]]
                        0 <= cc < 7 && 0 <= a < b < self@.queues[cc].len() implies self@.queues[cc][a]
                        < self@.queues[cc][b] by {
                        if cc == k {
                            assert(self@.queues[cc][a] == m1.queues[cc][a + 1]);
                            assert(self@.queues[cc][b] == m1.queues[cc][b + 1]);
                        } else {
                            assert(self@.queues[cc] == m1.queues[cc]);
                        }
                    }
                }
            }
            k = k + 1;
        }
        events
    }

    /// Called when a release event occurs: reports each column released (see
    /// `release_upto`).
    pub fn release(&mut self, bindings: &[InputButton; 7], button: InputButton) -> (events: Vec<usize>)
        requires
            old(self)@.keys_down.len() == 7,
            old(self)@.held.len() == 7,
        ensures
            (final(self)@, events@) == release_upto(old(self)@, 7, bindings@, button),
            forall|n: nat| model_wf(old(self)@, n) ==> model_wf(final(self)@, n),
    {
        let ghost m0 = self@;
        let mut events: Vec<usize> = Vec::new();
        let mut k: usize = 0;
        while k < 7
            invariant
                k <= 7,
                self@.keys_down.len() == 7,
                self@.held.len() == 7,
                (self@, events@) == release_upto(m0, k as int, bindings@, button),
                self@.queues == m0.queues,
                self@.current == m0.current,
                held_ok(m0) ==> held_ok(self@),
            decreases 7 - k,
        {
            let ghost m1 = self@;
            if bindings[k] == button {
                self.keys_down = with7(self.keys_down, k, false);
                self.long_notes_held = with7(self.long_notes_held, k, None);
                events.push(k);
                assert(self@.keys_down =~= release_col(m1, k as int, bindings@, button).0.keys_down);
                assert(self@.held =~= release_col(m1, k as int, bindings@, button).0.held);
            }
            k = k + 1;
        }
        events
    }
}

// ---------------------------------------------------------------------------
// Laws
// ---------------------------------------------------------------------------

/// Each pending note is a note of the chart on the column it waits in.
pub open spec fn on_columns(m: ModelView, notes: Seq<Note>) -> bool {
    forall|c: int, k: int|
        0 <= c < 7 && 0 <= k < m.queues[c].len() ==> (#[trigger] m.queues[c][k] as int) < notes.len()
            && notes[m.queues[c][k] as int].column == c
}

proof fn lemma_on_column_members(notes: Seq<Note>, c: int, from: int, to: int)
    requires
        0 <= from,
        to <= notes.len(),
        notes.len() <= usize::MAX,
    ensures
        forall|i: int|
            0 <= i < on_column(notes, c, from, to).len() ==> notes[#[trigger] on_column(notes, c, from, to)[i] as int].column
                == c,
    decreases to - from,
{
    if to > from {
        lemma_on_column_members(notes, c, from, to - 1);
        let prev = on_column(notes, c, from, to - 1);
        let cur = on_column(notes, c, from, to);
        assert forall|i: int| 0 <= i < cur.len() implies notes[#[trigger] cur[i] as int].column == c by {
            if i < prev.len() {
                assert(cur[i] == prev[i]);
            } else {
                assert(cur[i] == (to - 1) as usize);
            }
        }
    }
}

/// An update keeps every pending note on its own column.
pub proof fn lemma_update_keeps_columns(m: ModelView, notes: Seq<Note>, time: int, tolerance: int)
    requires
        notes.len() <= usize::MAX,
        model_wf(m, notes.len()),
        on_columns(m, notes),
    ensures
        on_columns(update_spec(m, notes, time, tolerance).0, notes),
{
    let m1 = update_spec(m, notes, time, tolerance).0;
    let end = due_end(notes, m.current as int, time, tolerance);
    lemma_due_end_ge(notes, m.current as int, time, tolerance);
    assert forall|c: int, k: int|
        0 <= c < 7 && 0 <= k < m1.queues[c].len() implies (#[trigger] m1.queues[c][k] as int) < notes.len()
        && notes[m1.queues[c][k] as int].column == c by {
        let sk = missed_in(m.queues[c], notes, time).len() as int;
        lemma_missed_in_len(m.queues[c], notes, time);
        let mq = m.queues[c].skip(sk);
        let oc = on_column(notes, c, m.current as int, end);
        lemma_on_column_members(notes, c, m.current as int, end);
        lemma_on_column_bounds(notes, c, m.current as int, end);
        assert(m1.queues[c] == mq + oc);
        if k < mq.len() {
            assert(m1.queues[c][k] == m.queues[c][k + sk]);
        } else {
            assert(m1.queues[c][k] == oc[k - mq.len()]);
        }
    }
}

/// A press keeps every pending note on its own column.
pub proof fn lemma_press_keeps_columns(
    m: ModelView,
    c: int,
    bindings: Seq<InputButton>,
    button: InputButton,
    notes: Seq<Note>,
    time: int,
)
    requires
        model_wf(m, notes.len()),
        on_columns(m, notes),
        0 <= c <= 7,
    ensures
        on_columns(press_upto(m, c, bindings, button, notes, time).0, notes),
        press_upto(m, c, bindings, button, notes, time).0.queues.len() == 7,
    decreases c,
{
    if c > 0 {
        lemma_press_keeps_columns(m, c - 1, bindings, button, notes, time);
        let m1 = press_upto(m, c - 1, bindings, button, notes, time).0;
        let m2 = press_col(m1, c - 1, bindings, button, notes, time).0;
        assert forall|cc: int, k: int|
            0 <= cc < 7 && 0 <= k < m2.queues[cc].len() implies (#[trigger] m2.queues[cc][k] as int)
            < notes.len() && notes[m2.queues[cc][k] as int].column == cc by {
            if cc == c - 1 && m2.queues != m1.queues {
                assert(m2.queues[cc][k] == m1.queues[cc][k + 1]);
            } else {
                assert(m2.queues[cc] == m1.queues[cc]);
            }
        }
    }
}

/// A note is over at `time` when its end (for a long note) or its time is more
/// than 0.3 s before `time`.
pub open spec fn note_over(n: Note, time: int) -> bool {
    match n.end_time {
        Some(e) => e + 300_000_000 < time,
        None => n.time + 300_000_000 < time,
    }
}

proof fn lemma_missed_in_members(q: Seq<usize>, notes: Seq<Note>, time: int, x: usize)
    ensures
        missed_in(q, notes, time).contains(x) <==> q.contains(x) && note_over(notes[x as int], time),
    decreases q.len(),
{
    if q.len() > 0 {
        lemma_missed_in_members(q.drop_last(), notes, time, x);
        let r = missed_in(q.drop_last(), notes, time);
        if q.contains(x) && x != q.last() {
            let k = choose|k: int| 0 <= k < q.len() && q[k] == x;
            assert(q.drop_last()[k] == x);
        }
        if q.drop_last().contains(x) {
            let k = choose|k: int| 0 <= k < q.drop_last().len() && q.drop_last()[k] == x;
            assert(q[k] == x);
        }
        if is_missed(notes[q.last() as int], time) {
            assert(r.push(q.last())[r.len() as int] == q.last());
            if r.contains(x) {
                let k = choose|k: int| 0 <= k < r.len() && r[k] == x;
                assert(r.push(q.last())[k] == x);
            }
            if r.push(q.last()).contains(x) && x != q.last() {
                let k = choose|k: int| 0 <= k < r.len() + 1 && r.push(q.last())[k] == x;
                assert(r[k] == x);
            }
        }
        assert(q[q.len() - 1] == q.last());
    }
}

proof fn lemma_missed_upto_members(queues: Seq<Seq<usize>>, notes: Seq<Note>, time: int, c: int, x: usize)
    requires
        0 <= c <= queues.len(),
    ensures
        missed_upto(queues, notes, time, c).contains(x) <==> (exists|d: int|
            0 <= d < c && #[trigger] queues[d].contains(x)) && note_over(notes[x as int], time),
    decreases c,
{
    if c > 0 {
        lemma_missed_upto_members(queues, notes, time, c - 1, x);
        lemma_missed_in_members(queues[c - 1], notes, time, x);
        let a = missed_upto(queues, notes, time, c - 1);
        let b = missed_in(queues[c - 1], notes, time);
        if (a + b).contains(x) {
            let k = choose|k: int| 0 <= k < (a + b).len() && (a + b)[k] == x;
            if k < a.len() {
                assert(a[k] == x);
            } else {
                assert(b[k - a.len()] == x);
            }
        }
        if a.contains(x) {
            let k = choose|k: int| 0 <= k < a.len() && a[k] == x;
            assert((a + b)[k] == x);
        }
        if b.contains(x) {
            let k = choose|k: int| 0 <= k < b.len() && b[k] == x;
            assert((a + b)[a.len() + k] == x);
        }
        if exists|d: int| 0 <= d < c && #[trigger] queues[d].contains(x) {
            let d = choose|d: int| 0 <= d < c && #[trigger] queues[d].contains(x);
            if d < c - 1 {
                assert(exists|d: int| 0 <= d < c - 1 && #[trigger] queues[d].contains(x));
            }
        }
    }
}

/// An update reports exactly the pending notes that are over: those whose end
/// (for a long note) or time is more than 0.3 s before the update's time.
pub proof fn lemma_update_misses(m: ModelView, notes: Seq<Note>, time: int, tolerance: int, x: usize)
    requires
        m.queues.len() == 7,
    ensures
        update_spec(m, notes, time, tolerance).1.contains(x) <==> (exists|c: int|
            0 <= c < 7 && #[trigger] m.queues[c].contains(x)) && note_over(notes[x as int], time),
{
    lemma_missed_upto_members(m.queues, notes, time, 7, x);
}

/// What pressing a button tells of column `k`, judged against the model `m`
/// before the press: the column's key is bound to the button and was up; with
/// no pending note on the column nothing is judged; otherwise the first pending
/// note is judged `Perfect` when the press is less than 0.1 s from the note's
/// time, early or late, and `Miss` otherwise.
pub open spec fn press_report_ok(
    m: ModelView,
    bindings: Seq<InputButton>,
    button: InputButton,
    notes: Seq<Note>,
    time: int,
    e: (usize, Option<Judgement>),
) -> bool {
    let k = e.0 as int;
    &&& 0 <= k < 7
    &&& bindings[k] == button
    &&& !m.keys_down[k]
    &&& match e.1 {
        None => m.queues[k].len() == 0,
        Some(j) => {
            &&& m.queues[k].len() > 0
            &&& (j == Judgement::Perfect || j == Judgement::Miss)
            &&& (j == Judgement::Perfect <==> -100_000_000 < notes[m.queues[k][0] as int].time
                - time < 100_000_000)
        },
    }
}

proof fn lemma_press_upto_reports(
    m: ModelView,
    c: int,
    bindings: Seq<InputButton>,
    button: InputButton,
    notes: Seq<Note>,
    time: int,
)
    requires
        m.queues.len() == 7,
        m.keys_down.len() == 7,
        0 <= c <= 7,
    ensures
        ({
            let (p, ev) = press_upto(m, c, bindings, button, notes, time);
            &&& p.queues.len() == 7
            &&& p.keys_down.len() == 7
            &&& forall|k: int| c <= k < 7 ==> p.queues[k] == m.queues[k] && p.keys_down[k] == m.keys_down[k]
            &&& forall|i: int|
                0 <= i < ev.len() ==> ev[i].0 < c && press_report_ok(m, bindings, button, notes, time, #[trigger] ev[i])
        }),
    decreases c,
{
    if c > 0 {
        lemma_press_upto_reports(m, c - 1, bindings, button, notes, time);
        let (m1, ev) = press_upto(m, c - 1, bindings, button, notes, time);
        let (m2, e) = press_col(m1, c - 1, bindings, button, notes, time);
        assert(m1.queues[c - 1] == m.queues[c - 1]);
        assert(m1.keys_down[c - 1] == m.keys_down[c - 1]);
        match e {
            Some(x) => {
                assert(press_report_ok(m, bindings, button, notes, time, x));
                let ev2 = ev.push(x);
                assert forall|i: int| 0 <= i < ev2.len() implies ev2[i].0 < c && press_report_ok(
                    m,
                    bindings,
                    button,
                    notes,
                    time,
                    #[trigger] ev2[i],
                ) by {
                    if i < ev.len() {
                        assert(ev2[i] == ev[i]);
                    }
                }
            },
            None => {},
        }
    }
}

/// Each column a press reports is one whose key is bound to the button and
/// was up, and the note it judges is the column's first pending note:
/// `Perfect` when the press is less than 0.1 s from the note's time (early or
/// late), `Miss` otherwise; a column with no pending note judges nothing.
/// Columns are reported in increasing order, each at most once.
pub proof fn lemma_press_judgements(
    m: ModelView,
    bindings: Seq<InputButton>,
    button: InputButton,
    notes: Seq<Note>,
    time: int,
)
    requires
        model_wf(m, notes.len()),
    ensures
        ({
            let ev = press_upto(m, 7, bindings, button, notes, time).1;
            &&& forall|i: int|
                0 <= i < ev.len() ==> press_report_ok(m, bindings, button, notes, time, #[trigger] ev[i])
            &&& forall|i: int, j: int| 0 <= i < j < ev.len() ==> #[trigger] ev[i].0 < #[trigger] ev[j].0
        }),
{
    lemma_press_upto_reports(m, 7, bindings, button, notes, time);
    lemma_press_upto_increasing(m, 7, bindings, button, notes, time);
}

proof fn lemma_press_upto_increasing(
    m: ModelView,
    c: int,
    bindings: Seq<InputButton>,
    button: InputButton,
    notes: Seq<Note>,
    time: int,
)
    requires
        m.queues.len() == 7,
        m.keys_down.len() == 7,
        0 <= c <= 7,
    ensures
        ({
            let ev = press_upto(m, c, bindings, button, notes, time).1;
            forall|i: int, j: int| 0 <= i < j < ev.len() ==> #[trigger] ev[i].0 < #[trigger] ev[j].0
        }),
    decreases c,
{
    if c > 0 {
        lemma_press_upto_increasing(m, c - 1, bindings, button, notes, time);
        lemma_press_upto_reports(m, c - 1, bindings, button, notes, time);
        let (m1, ev) = press_upto(m, c - 1, bindings, button, notes, time);
        let (m2, e) = press_col(m1, c - 1, bindings, button, notes, time);
        match e {
            Some(x) => {
                let ev2 = ev.push(x);
                assert forall|i: int, j: int| 0 <= i < j < ev2.len() implies #[trigger] ev2[i].0
                    < #[trigger] ev2[j].0 by {
                    assert(ev2[i] == ev[i]);
                    if j < ev.len() {
                        assert(ev2[j] == ev[j]);
                    } else {
                        assert(ev[i].0 < c - 1 + 1);
                    }
                }
            },
            None => {},
        }
    }
}

/// Whether pressing `button` hits column `k`: its key is bound to the button
/// and is up.
pub open spec fn presses_column(m: ModelView, bindings: Seq<InputButton>, button: InputButton, k: int) -> bool {
    bindings[k] == button && !m.keys_down[k]
}

/// Column `k` of `p` after pressing `button` over the first `c` columns of
/// `m`: if the press hits the column (see `presses_column`), its key is down,
/// its first pending note (if any) is gone, and that note, if long, is held.
pub open spec fn column_after_press(
    m: ModelView,
    p: ModelView,
    c: int,
    bindings: Seq<InputButton>,
    button: InputButton,
    notes: Seq<Note>,
    k: int,
) -> bool {
    let hit = k < c && presses_column(m, bindings, button, k);
    let judged = hit && m.queues[k].len() > 0;
    &&& p.keys_down[k] == (m.keys_down[k] || hit)
    &&& p.queues[k] == if judged { m.queues[k].drop_first() } else { m.queues[k] }
    &&& p.held[k] == if judged && notes[m.queues[k][0] as int].end_time is Some {
        Some(m.queues[k][0])
    } else {
        m.held[k]
    }
}

proof fn lemma_press_upto_effect(
    m: ModelView,
    c: int,
    bindings: Seq<InputButton>,
    button: InputButton,
    notes: Seq<Note>,
    time: int,
)
    requires
        m.queues.len() == 7,
        m.keys_down.len() == 7,
        m.held.len() == 7,
        0 <= c <= 7,
    ensures
        ({
            let p = press_upto(m, c, bindings, button, notes, time).0;
            &&& p.queues.len() == 7
            &&& p.keys_down.len() == 7
            &&& p.held.len() == 7
            &&& p.current == m.current
            &&& forall|k: int|
                0 <= k < 7 ==> #[trigger] column_after_press(m, p, c, bindings, button, notes, k)
        }),
    decreases c,
{
    if c > 0 {
        lemma_press_upto_effect(m, c - 1, bindings, button, notes, time);
        let m1 = press_upto(m, c - 1, bindings, button, notes, time).0;
        let m2 = press_col(m1, c - 1, bindings, button, notes, time).0;
        assert(column_after_press(m, m1, c - 1, bindings, button, notes, c - 1));
        assert forall|k: int| 0 <= k < 7 implies #[trigger] column_after_press(
            m,
            m2,
            c,
            bindings,
            button,
            notes,
            k,
        ) by {
            assert(column_after_press(m, m1, c - 1, bindings, button, notes, k));
            if k != c - 1 {
                assert(m2.keys_down[k] == m1.keys_down[k]);
                assert(m2.queues[k] == m1.queues[k]);
                assert(m2.held[k] == m1.held[k]);
            }
        }
    }
}

/// A press puts down the key of each column bound to the button whose key was
/// up; on each such column the first pending note, if any, leaves the column,
/// and a long note becomes the one the column holds. Every other column, and
/// the notes not yet pending, stay as they were.
pub proof fn lemma_press_effect(
    m: ModelView,
    bindings: Seq<InputButton>,
    button: InputButton,
    notes: Seq<Note>,
    time: int,
)
    requires
        model_wf(m, notes.len()),
    ensures
        ({
            let p = press_upto(m, 7, bindings, button, notes, time).0;
            &&& p.current == m.current
            &&& forall|k: int|
                0 <= k < 7 ==> #[trigger] column_after_press(m, p, 7, bindings, button, notes, k)
        }),
{
    lemma_press_upto_effect(m, 7, bindings, button, notes, time);
}

/// Column `k` of `r` after releasing `button` over the first `c` columns of
/// `m`: a column bound to the button has its key up and holds no long note.
pub open spec fn column_after_release(
    m: ModelView,
    r: ModelView,
    c: int,
    bindings: Seq<InputButton>,
    button: InputButton,
    k: int,
) -> bool {
    let hit = k < c && bindings[k] == button;
    &&& r.keys_down[k] == (m.keys_down[k] && !hit)
    &&& r.held[k] == if hit { None } else { m.held[k] }
}

proof fn lemma_release_upto_effect(m: ModelView, c: int, bindings: Seq<InputButton>, button: InputButton)
    requires
        m.keys_down.len() == 7,
        m.held.len() == 7,
        0 <= c <= 7,
    ensures
        ({
            let (r, ev) = release_upto(m, c, bindings, button);
            &&& r.keys_down.len() == 7
            &&& r.held.len() == 7
            &&& forall|k: int| 0 <= k < 7 ==> #[trigger] column_after_release(m, r, c, bindings, button, k)
            &&& forall|k: int| 0 <= k < 7 ==> (ev.contains(k as usize) <==> k < c && #[trigger] bindings[k] == button)
            &&& forall|i: int| 0 <= i < ev.len() ==> #[trigger] ev[i] < c
        }),
    decreases c,
{
    if c > 0 {
        lemma_release_upto_effect(m, c - 1, bindings, button);
        let (r1, ev) = release_upto(m, c - 1, bindings, button);
        let (r2, e) = release_col(r1, c - 1, bindings, button);
        let ev2 = match e {
            Some(x) => ev.push(x),
            None => ev,
        };
        assert forall|k: int| 0 <= k < 7 implies #[trigger] column_after_release(m, r2, c, bindings, button, k) by {
            assert(column_after_release(m, r1, c - 1, bindings, button, k));
            if k != c - 1 || bindings[c - 1] != button {
                assert(r2.keys_down[k] == r1.keys_down[k]);
                assert(r2.held[k] == r1.held[k]);
            }
        }
        assert forall|k: int| 0 <= k < 7 implies (ev2.contains(k as usize) <==> k < c && #[trigger] bindings[k]
            == button) by {
            if bindings[c - 1] == button {
                assert(ev2[ev.len() as int] == (c - 1) as usize);
                if ev.contains(k as usize) {
                    let i = choose|i: int| 0 <= i < ev.len() && ev[i] == k as usize;
                    assert(ev2[i] == k as usize);
                }
                if ev2.contains(k as usize) && k != c - 1 {
                    let i = choose|i: int| 0 <= i < ev2.len() && ev2[i] == k as usize;
                    assert(i < ev.len());
                    assert(ev[i] == k as usize);
                }
            } else {
                if ev.contains(k as usize) {
                    let i = choose|i: int| 0 <= i < ev.len() && ev[i] == k as usize;
                    assert(ev[i] < c - 1);
                }
            }
        }
        assert forall|i: int| 0 <= i < ev2.len() implies #[trigger] ev2[i] < c by {
            if i < ev.len() {
                assert(ev2[i] == ev[i]);
            }
        }
    }
}

/// A release puts up the key of every column bound to the button, which then
/// holds no long note, and reports exactly those columns; the other columns
/// stay as they were.
pub proof fn lemma_release_effect(m: ModelView, bindings: Seq<InputButton>, button: InputButton)
    requires
        m.keys_down.len() == 7,
        m.held.len() == 7,
    ensures
        ({
            let (r, ev) = release_upto(m, 7, bindings, button);
            &&& forall|k: int| 0 <= k < 7 ==> #[trigger] column_after_release(m, r, 7, bindings, button, k)
            &&& forall|k: int| 0 <= k < 7 ==> (ev.contains(k as usize) <==> #[trigger] bindings[k] == button)
        }),
{
    lemma_release_upto_effect(m, 7, bindings, button);
}

/// A release leaves the pending notes as they are.
pub proof fn lemma_release_keeps_queues(m: ModelView, c: int, bindings: Seq<InputButton>, button: InputButton)
    ensures
        release_upto(m, c, bindings, button).0.queues == m.queues,
        release_upto(m, c, bindings, button).0.current == m.current,
    decreases c,
{
    if c > 0 {
        lemma_release_keeps_queues(m, c - 1, bindings, button);
    }
}

/// A column holds a long note only while its key is down.
pub open spec fn held_ok(m: ModelView) -> bool {
    forall|c: int| 0 <= c < 7 && (#[trigger] m.held[c]) is Some ==> m.keys_down[c]
}

fn with7<T: Copy>(a: [T; 7], i: usize, x: T) -> (r: [T; 7])
    requires
        i < 7,
    ensures
        r@ == a@.update(i as int, x),
{
    let r = [
        if i == 0 { x } else { a[0] },
        if i == 1 { x } else { a[1] },
        if i == 2 { x } else { a[2] },
        if i == 3 { x } else { a[3] },
        if i == 4 { x } else { a[4] },
        if i == 5 { x } else { a[5] },
        if i == 6 { x } else { a[6] },
    ];
    assert(r@ =~= a@.update(i as int, x));
    r
}

} // verus!
