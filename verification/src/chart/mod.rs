//! Charts (beatmaps): the notes to hit and the timing points that set the scroll
//! speed.
//!
//! Times are held as whole nanoseconds from the start of the song. Chart files
//! give times in milliseconds with up to six decimal places kept, so a time read
//! from a file is exact in these units.

use vstd::prelude::*;

pub mod ojm;
pub mod ojn;
pub mod osu;
pub mod osu_chart;

verus! {

/// A note of a chart: a regular note, or a long note when `end_time` is set.
#[derive(Debug, Clone, Copy, PartialEq, Eq)]
pub struct Note {
    /// Where the note begins, in nanoseconds.
    pub time: i64,
    /// The column the note is on, with 0 being the first column.
    pub column: usize,
    /// Where the note ends, in nanoseconds. `None` for a regular note.
    pub end_time: Option<i64>,
    /// The index of the sound to play when the note is hit.
    pub sound_index: Option<usize>,
}

/// What a timing point changes. Each variant holds the length of a beat as the
/// chart wrote it, in millionths of a millisecond.
#[derive(Debug, Clone, Copy, PartialEq, Eq)]
pub enum TimingPointValue {
    /// A tempo change: `60000 / beat_length_ms` beats per minute.
    BPM(u64),
    /// A scroll speed multiplier (currently only used by osu): `100 / beat_length_ms`,
    /// where the chart wrote the beat length with a minus sign.
    SV(u64),
}

/// The tempo or multiplier as a fraction `numerator / denominator`.
pub open spec fn timing_value_fraction(v: TimingPointValue) -> (nat, nat) {
    match v {
        TimingPointValue::BPM(b) => (60_000_000_000, b as nat),
        TimingPointValue::SV(b) => (100_000_000, b as nat),
    }
}

impl TimingPointValue {
    /// The value (beats per minute, or the scroll speed multiplier) as the
    /// fraction `(numerator, denominator)`; a zero denominator stands for an
    /// infinite value.
    pub fn inner(&self) -> (r: (u64, u64))
        ensures
            (r.0 as nat, r.1 as nat) == timing_value_fraction(*self),
    {
        match *self {
            TimingPointValue::SV(v) => (100_000_000, v),
            TimingPointValue::BPM(v) => (60_000_000_000, v),
        }
    }
}

/// Represents either an SV change or a BPM change.
#[derive(Debug, Clone, Copy, PartialEq, Eq)]
pub struct TimingPoint {
    /// The offset from the start of the song, in nanoseconds.
    pub offset: i64,
    pub value: TimingPointValue,
}

impl TimingPoint {
    pub fn is_bpm(&self) -> (r: bool)
        ensures
            r == (self.value is BPM),
    {
        match self.value {
            TimingPointValue::BPM(_) => true,
            _ => false,
        }
    }

    pub fn is_sv(&self) -> (r: bool)
        ensures
            r == (self.value is SV),
    {
        match self.value {
            TimingPointValue::SV(_) => true,
            _ => false,
        }
    }
}

/// What a parse error is about.
#[derive(Debug, Clone, Copy, PartialEq, Eq)]
pub enum ParseContext {
    /// "Error parsing file version"
    FileVersion,
    /// "Error parsing General section: Malformed key/value pair"
    GeneralKeyValue,
    /// "Osu chart is wrong gamemode"
    WrongGameMode,
    /// "Malformed key/value pair"
    KeyValue,
    /// "This chart is not 7 key"
    NotSevenKey,
    /// "Error parsing timing point"
    TimingPoint,
    /// "Error parsing hit object"
    HitObject,
    /// "Error on line {} of .osu file"
    Line(usize),
    /// "Chart has no notes"
    NoNotes,
    /// "Could not find audio file"
    NoAudioFile,
}

/// The error type from parsing.
#[derive(Debug, PartialEq, Eq)]
pub enum ParseError {
    /// Parsing error, with what it is about and what caused it.
    Parse(ParseContext, Option<Box<ParseError>>),
    /// A field that should hold a number does not.
    InvalidNumber,
    UnknownFormat,
    InvalidFile,
    /// Unexpected end of line.
    EOL,
}

} // verus!
