//! The decisions the play scene takes on each update of the game loop: when
//! the next autoplay sound is due, and when to leave the scene once the chart
//! has ended. Times are in nanoseconds; measuring them and playing sounds are
//! the caller's part.

use vstd::prelude::*;

verus! {

/// How long the scene stays after the chart has ended, in nanoseconds.
pub const LINGER_NS: i64 = 10_000_000_000;

/// What the play scene remembers between updates.
#[derive(Copy, Clone, Debug, PartialEq, Eq, Structural)]
pub struct PlayState {
    /// The next autoplay sound to play.
    pub autoplay_index: usize,
    /// When the chart was first seen to have ended.
    pub end_time: Option<i64>,
}

/// What the caller does after an update.
#[derive(Copy, Clone, Debug, PartialEq, Eq, Structural)]
pub struct PlayAction {
    /// Play the autoplay sound with this index.
    pub play_autoplay: Option<usize>,
    /// Go back to song selection.
    pub leave: bool,
}

/// The scene's state at its start.
pub fn play_start() -> (r: PlayState)
    ensures
        r == (PlayState { autoplay_index: 0, end_time: None }),
{
    PlayState { autoplay_index: 0, end_time: None }
}

/// One update at music time `time` (offset included): the next autoplay sound
/// is played once `time - offset` has reached its time; the first update on
/// which the chart has ended records the end time; the scene is left once
/// `time` is more than 10 s past it.
pub open spec fn play_update_spec(
    s: PlayState,
    autoplay_times: Seq<i64>,
    time: i64,
    offset: i64,
    chart_ended: bool,
) -> (PlayState, PlayAction) {
    let due = s.autoplay_index < autoplay_times.len() && time - offset
        >= autoplay_times[s.autoplay_index as int];
    let index = if due { (s.autoplay_index + 1) as usize } else { s.autoplay_index };
    let end_time = if chart_ended && s.end_time is None { Some(time) } else { s.end_time };
    let leave = match end_time {
        Some(t) => time - LINGER_NS > t,
        None => false,
    };
    (
        PlayState { autoplay_index: index, end_time: end_time },
        PlayAction { play_autoplay: if due { Some(s.autoplay_index) } else { None }, leave: leave },
    )
}

/// Takes one update of the play scene (see `play_update_spec`).
pub fn play_update(
    s: PlayState,
    autoplay_times: &Vec<i64>,
    time: i64,
    offset: i64,
    chart_ended: bool,
) -> (r: (PlayState, PlayAction))
    requires
        s.autoplay_index <= autoplay_times.len(),
    ensures
        r == play_update_spec(s, autoplay_times@, time, offset, chart_ended),
        r.0.autoplay_index <= autoplay_times.len(),
{
    let due = s.autoplay_index < autoplay_times.len() && (time as i128) - (offset as i128)
        >= autoplay_times[s.autoplay_index] as i128;
    let index = if due { s.autoplay_index + 1 } else { s.autoplay_index };
    let end_time = if chart_ended && s.end_time.is_none() { Some(time) } else { s.end_time };
    let leave = match end_time {
        Some(t) => (time as i128) - (LINGER_NS as i128) > t as i128,
        None => false,
    };
    (
        PlayState { autoplay_index: index, end_time: end_time },
        PlayAction { play_autoplay: if due { Some(s.autoplay_index) } else { None }, leave: leave },
    )
}

/// Each autoplay sound is played once, in order: over any run of updates the
/// index only moves forward, one sound at a time.
pub proof fn lemma_autoplay_in_order(
    s: PlayState,
    autoplay_times: Seq<i64>,
    time: i64,
    offset: i64,
    chart_ended: bool,
)
    requires
        autoplay_times.len() <= usize::MAX,
    ensures
        ({
            let (n, a) = play_update_spec(s, autoplay_times, time, offset, chart_ended);
            &&& n.autoplay_index == s.autoplay_index || n.autoplay_index == s.autoplay_index + 1
            &&& (a.play_autoplay is Some <==> n.autoplay_index == s.autoplay_index + 1)
            &&& (a.play_autoplay matches Some(i) ==> i == s.autoplay_index)
        }),
{
}

/// Once recorded, the end time of the chart stays as it was.
pub proof fn lemma_end_time_kept(
    s: PlayState,
    autoplay_times: Seq<i64>,
    time: i64,
    offset: i64,
    chart_ended: bool,
)
    requires
        s.end_time is Some,
    ensures
        play_update_spec(s, autoplay_times, time, offset, chart_ended).0.end_time == s.end_time,
{
}

} // verus!
