//! Osu chart parser module.
//!
//! A `.osu` file is read line by line. The first line names the file format
//! version; the rest is split into `[Sections]` of `Key:Value` lines or of
//! comma-separated records. Numbers are read exactly (see `text::Number`).

use vstd::prelude::*;

use crate::chart::{Note, ParseContext, ParseError, TimingPoint, TimingPointValue};
use crate::text::{
    bytes_eq, decimal_parts, lemma_first_index_unique, digits_capped_512, digits_value, find, first_index,
    fraction_reaches_sevenths, is_first_index, lemma_digits_below_pow10, lemma_digits_concat,
    parse_i32, parse_i32_spec, parse_number, parse_number_spec, parse_u32, parse_u8,
    parse_unsigned, pow10, seq_views, slice_to_vec, split, split_decimal, split_seq, trim,
    trim_seq, Number,
};
use vstd::arithmetic::div_mod::{
    lemma_fundamental_div_mod, lemma_fundamental_div_mod_converse_div, lemma_mod_pos_bound,
};

verus! {

/// A sample set.
#[derive(PartialEq, Eq, Structural, Copy, Clone, Debug)]
pub enum SampleSet {
    Auto,
    Normal,
    Soft,
    Drum,
}

#[derive(PartialEq, Eq, Structural, Copy, Clone, Debug)]
pub enum SampleHitSoundSound {
    Normal,
    Whistle,
    Finish,
    Clap,
}

/// A hit sound that comes from a sample set.
#[derive(PartialEq, Eq, Structural, Copy, Clone, Debug)]
pub struct SampleHitSound {
    pub set: SampleSet,
    pub sound: SampleHitSoundSound,
    pub index: u32,
}

/// Where to get the audio source of the hit sound.
#[derive(Clone, Debug, PartialEq, Eq)]
pub enum HitSoundSource {
    SampleSet(SampleHitSound),
    /// A sound file, named relative to the chart's directory.
    File(Vec<u8>),
}

#[derive(Clone, Debug, PartialEq, Eq)]
pub struct HitSound {
    /// The audio source of the sample.
    pub source: HitSoundSource,
    /// The volume of the hit sound, from 0 to 100.
    pub volume: u8,
}

pub enum HitSoundSourceView {
    SampleSet(SampleHitSound),
    File(Seq<u8>),
}

pub struct HitSoundView {
    pub source: HitSoundSourceView,
    pub volume: u8,
}

impl View for HitSound {
    type V = HitSoundView;

    open spec fn view(&self) -> HitSoundView {
        HitSoundView {
            source: match self.source {
                HitSoundSource::SampleSet(s) => HitSoundSourceView::SampleSet(s),
                HitSoundSource::File(p) => HitSoundSourceView::File(p@),
            },
            volume: self.volume,
        }
    }
}

/// The contents of each hit sound of `v`.
pub open spec fn sound_views(v: Seq<HitSound>) -> Seq<HitSoundView> {
    v.map_values(|s: HitSound| s@)
}

/// A hit object of the HitObjects section. It becomes a `Note` once the whole
/// file is read and the hit sounds can be resolved against the timing points.
#[derive(Clone, Debug, PartialEq, Eq)]
pub struct HitObject {
    /// Where the note begins, in nanoseconds.
    pub time: i64,
    pub column: usize,
    pub end_time: Option<i64>,
    pub sounds: Vec<HitSound>,
}

pub struct HitObjectView {
    pub time: int,
    pub column: nat,
    pub end_time: Option<int>,
    pub sounds: Seq<HitSoundView>,
}

impl View for HitObject {
    type V = HitObjectView;

    open spec fn view(&self) -> HitObjectView {
        HitObjectView {
            time: self.time as int,
            column: self.column as nat,
            end_time: match self.end_time {
                Some(t) => Some(t as int),
                None => None,
            },
            sounds: sound_views(self.sounds@),
        }
    }
}

/// A timing point of the TimingPoints section, with what the hit sounds need
/// beyond the chart's `TimingPoint`.
#[derive(Clone, Copy, Debug, PartialEq, Eq)]
pub struct OsuTimingPoint {
    pub offset: i64,
    pub value: TimingPointValue,
    pub sample_set: SampleSet,
    pub sample_index: u32,
    pub volume: u8,
}

// ---------------------------------------------------------------------------
// Numbers in .osu files
// ---------------------------------------------------------------------------

/// A time in milliseconds, as nanoseconds: `None` when the text is no number or
/// the time is beyond the range of `i64` nanoseconds.
pub open spec fn parse_time_spec(s: Seq<u8>) -> Option<int> {
    match parse_number_spec(s) {
        Some(n) => if n.micros <= i64::MAX {
            Some(if n.negative { -(n.micros as int) } else { n.micros as int })
        } else {
            None
        },
        None => None,
    }
}

fn parse_time(s: &[u8]) -> (r: Option<i64>)
    ensures
        match r {
            Some(t) => parse_time_spec(s@) == Some(t as int),
            None => parse_time_spec(s@) is None,
        },
{
    match parse_number(s) {
        Some(n) => if n.micros <= 9223372036854775807 {
            if n.negative {
                Some(-(n.micros as i64))
            } else {
                Some(n.micros as i64)
            }
        } else {
            None
        },
        None => None,
    }
}

/// The column of a hit object whose x field is `s`: the playfield, 512 wide,
/// is cut into 7 columns of width 512/7, and the column is `floor(x / (512/7))`
/// with every digit of x kept, clamped to 0..=7 (left of the field is column 0;
/// from x = 512 on it is 7). `None` when the field is no decimal literal.
pub open spec fn x_column_spec(s: Seq<u8>) -> Option<nat> {
    match decimal_parts(s) {
        None => None,
        Some((neg, i, f)) => if neg {
            Some(0)
        } else {
            let c = (7 * digits_value(i + f)) / (512 * pow10(f.len()));
            Some(if c > 7 { 7 } else { c })
        },
    }
}

proof fn lemma_pow10_positive(n: nat)
    ensures
        pow10(n) >= 1,
    decreases n,
{
    if n > 0 {
        lemma_pow10_positive((n - 1) as nat);
    }
}

/// The column of `i.f`, from the integer part `i`, the fraction's digits'
/// value `f` and their count's power of ten `p`.
proof fn lemma_column_parts(i: int, f: int, p: int)
    requires
        i >= 0,
        0 <= f < p,
        p >= 1,
    ensures
        i >= 512 ==> (7 * (i * p + f)) / (512 * p) >= 7,
        i < 512 ==> (7 * (i * p + f)) / (512 * p) == (7 * i) / 512 + (if 7 * f >= (512 - (7 * i) % 512) * p {
            1int
        } else {
            0int
        }),
{
    let x = 7 * (i * p + f);
    let d = 512 * p;
    if i >= 512 {
        lemma_fundamental_div_mod(x, d);
        lemma_mod_pos_bound(x, d);
        let c = x / d;
        assert(c >= 7) by (nonlinear_arith)
            requires
                x == d * c + x % d,
                0 <= x % d < d,
                d == 512 * p,
                p >= 1,
                x == 7 * (i * p + f),
                i >= 512,
                f >= 0,
        ;
    } else {
        let q = 7 * i;
        lemma_fundamental_div_mod(q, 512);
        lemma_mod_pos_bound(q, 512);
        let b = q / 512;
        let r = q % 512;
        assert(x == b * d + (r * p + 7 * f)) by (nonlinear_arith)
            requires
                q == 512 * b + r,
                q == 7 * i,
                x == 7 * (i * p + f),
                d == 512 * p,
        ;
        if 7 * f >= (512 - r) * p {
            assert(x == (b + 1) * d + (r * p + 7 * f - 512 * p)) by (nonlinear_arith)
                requires
                    x == b * d + (r * p + 7 * f),
                    d == 512 * p,
            ;
            assert(0 <= r * p + 7 * f - 512 * p < d) by (nonlinear_arith)
                requires
                    7 * f >= (512 - r) * p,
                    0 <= r < 512,
                    0 <= f < p,
                    d == 512 * p,
            ;
            lemma_fundamental_div_mod_converse_div(x, d, b + 1, r * p + 7 * f - 512 * p);
        } else {
            assert(0 <= r * p + 7 * f < d) by (nonlinear_arith)
                requires
                    7 * f < (512 - r) * p,
                    0 <= r < 512,
                    0 <= f,
                    p >= 1,
                    d == 512 * p,
            ;
            lemma_fundamental_div_mod_converse_div(x, d, b, r * p + 7 * f);
        }
    }
}

/// The column of a hit object is the one whose stretch of the playfield holds
/// x: for x written with `k` decimals as the digits `D` (x = D / 10^k), column
/// `c` below 7 has `c * 512/7 <= x < (c + 1) * 512/7`, column 7 has x >= 512,
/// and a negative x gives column 0.
pub proof fn lemma_column_bounds(s: Seq<u8>)
    requires
        x_column_spec(s) is Some,
    ensures
        ({
            let (neg, i, f) = decimal_parts(s)->0;
            let d = digits_value(i + f) as int;
            let p = pow10(f.len()) as int;
            let c = x_column_spec(s)->0 as int;
            &&& neg ==> c == 0
            &&& !neg && c < 7 ==> 512 * c * p <= 7 * d < 512 * (c + 1) * p
            &&& !neg && c == 7 ==> 7 * d >= 512 * 7 * p
            &&& 0 <= c <= 7
        }),
{
    let (neg, i, f) = decimal_parts(s)->0;
    let d = digits_value(i + f) as int;
    let p = pow10(f.len()) as int;
    lemma_pow10_positive(f.len());
    if !neg {
        let x = 7 * d;
        let m = 512 * p;
        lemma_fundamental_div_mod(x, m);
        lemma_mod_pos_bound(x, m);
        let q = x / m;
        assert(m * q <= x < m * q + m);
        assert(q >= 0) by (nonlinear_arith)
            requires
                m > 0,
                x >= 0,
                m * q <= x < m * q + m,
        ;
        if q <= 7 {
            assert(512 * q * p <= x < 512 * (q + 1) * p) by (nonlinear_arith)
                requires
                    m == 512 * p,
                    m * q <= x < m * q + m,
            ;
        } else {
            assert(x >= 512 * 7 * p) by (nonlinear_arith)
                requires
                    m == 512 * p,
                    m * q <= x,
                    q > 7,
                    p >= 1,
            ;
        }
    }
}

/// Reads the column of a hit object from its x field (see `x_column_spec`).
pub fn column_from_x(s: &[u8]) -> (r: Option<usize>)
    ensures
        match r {
            Some(c) => x_column_spec(s@) == Some(c as nat),
            None => x_column_spec(s@) is None,
        },
{
    let (neg, i, f) = split_decimal(s);
    if i.len() == 0 && f.len() == 0 {
        return None;
    }
    let iv = match digits_capped_512(i.as_slice()) {
        None => return None,
        Some(v) => v,
    };
    let q: u64 = 7 * iv;
    let m: u64 = if iv >= 512 { 512 } else { 512 - q % 512 };
    let reaches = match fraction_reaches_sevenths(f.as_slice(), m) {
        None => return None,
        Some(b) => b,
    };
    if neg {
        return Some(0);
    }
    proof {
        let fv = digits_value(f@);
        let p = pow10(f@.len());
        lemma_digits_below_pow10(f@);
        lemma_pow10_positive(f@.len());
        lemma_digits_concat(i@, f@);
        lemma_column_parts(digits_value(i@) as int, fv as int, p as int);
    }
    if iv >= 512 {
        Some(7)
    } else if reaches {
        Some((q / 512 + 1) as usize)
    } else {
        Some((q / 512) as usize)
    }
}

// ---------------------------------------------------------------------------
// Hit objects
// ---------------------------------------------------------------------------

pub open spec fn default_hit_sound(sound: SampleHitSoundSound) -> HitSoundView {
    HitSoundView {
        volume: 100,
        source: HitSoundSourceView::SampleSet(
            SampleHitSound { set: SampleSet::Auto, sound: sound, index: 0 },
        ),
    }
}

/// The hit sounds the hitsound field `n` asks for: always the normal sound, then
/// whistle, finish and clap for bits 2, 4 and 8.
pub open spec fn hit_sounds_of_bits(n: u8) -> Seq<HitSoundView> {
    let s0 = seq![default_hit_sound(SampleHitSoundSound::Normal)];
    let s1 = if n & 2 == 2 { s0.push(default_hit_sound(SampleHitSoundSound::Whistle)) } else { s0 };
    let s2 = if n & 4 == 4 { s1.push(default_hit_sound(SampleHitSoundSound::Finish)) } else { s1 };
    if n & 8 == 8 {
        s2.push(default_hit_sound(SampleHitSoundSound::Clap))
    } else {
        s2
    }
}

pub open spec fn sample_set_code(n: nat) -> Option<SampleSet> {
    if n == 1 {
        Some(SampleSet::Normal)
    } else if n == 2 {
        Some(SampleSet::Soft)
    } else if n == 3 {
        Some(SampleSet::Drum)
    } else {
        None
    }
}

/// Sets the sample set of the sample-set hit sounds (only those other than the
/// normal sound when `additions_only`).
pub open spec fn with_sample_set(s: HitSoundView, set: SampleSet, additions_only: bool) -> HitSoundView {
    match s.source {
        HitSoundSourceView::SampleSet(shs) => if !additions_only || shs.sound
            != SampleHitSoundSound::Normal {
            HitSoundView {
                source: HitSoundSourceView::SampleSet(
                    SampleHitSound { set: set, sound: shs.sound, index: shs.index },
                ),
                volume: s.volume,
            }
        } else {
            s
        },
        HitSoundSourceView::File(_) => s,
    }
}

pub open spec fn with_sample_index(s: HitSoundView, index: u32) -> HitSoundView {
    match s.source {
        HitSoundSourceView::SampleSet(shs) => HitSoundView {
            source: HitSoundSourceView::SampleSet(
                SampleHitSound { set: shs.set, sound: shs.sound, index: index },
            ),
            volume: s.volume,
        },
        HitSoundSourceView::File(_) => s,
    }
}

pub open spec fn with_volume(s: HitSoundView, volume: u8) -> HitSoundView {
    HitSoundView { source: s.source, volume: volume }
}

/// One item of the extras field (`sampleSet:additionSet:index:volume:filename`)
/// applied to the hit sounds and to the volume a sound file is played at.
/// `None` when the item should hold a number and does not.
pub open spec fn extras_item(i: nat, v: Seq<u8>, st: (Seq<HitSoundView>, u8)) -> Option<
    (Seq<HitSoundView>, u8),
> {
    let (sounds, volume) = st;
    if i == 0 || i == 1 {
        match parse_unsigned(v, 255) {
            None => None,
            Some(n) => match sample_set_code(n) {
                Some(set) => Some((sounds.map_values(|s| with_sample_set(s, set, i == 1)), volume)),
                None => Some(st),
            },
        }
    } else if i == 2 {
        match parse_unsigned(v, u32::MAX as nat) {
            None => None,
            Some(n) => if n == 0 {
                Some(st)
            } else {
                Some((sounds.map_values(|s| with_sample_index(s, n as u32)), volume))
            },
        }
    } else if i == 3 {
        match parse_unsigned(v, 255) {
            None => None,
            Some(n) => if n == 0 {
                Some(st)
            } else {
                Some((sounds.map_values(|s| with_volume(s, n as u8)), n as u8))
            },
        }
    } else {
        if v.len() > 0 {
            Some(
                (
                    sounds.push(HitSoundView { volume: volume, source: HitSoundSourceView::File(v) }),
                    volume,
                ),
            )
        } else {
            Some(st)
        }
    }
}

/// The sample set a sample-set item's number names: 1 normal, 2 soft, 3 drum;
/// any other number leaves `old`.
pub open spec fn named_sample_set(n: nat, old: SampleSet) -> SampleSet {
    if n == 1 {
        SampleSet::Normal
    } else if n == 2 {
        SampleSet::Soft
    } else if n == 3 {
        SampleSet::Drum
    } else {
        old
    }
}

/// The first two items of the extras field set sample sets: the first (the
/// sample set) that of every sample-set hit sound, the second (the addition
/// set) only that of the whistle, finish and clap sounds, so the normal sound
/// keeps the set the first item gave it. Sounds from a file are left as they
/// are, and neither item changes a sound's kind, index or volume, the order of
/// the sounds, or the volume for files. An item that is no number up to 255
/// is refused.
pub proof fn lemma_sample_set_items(i: nat, v: Seq<u8>, sounds: Seq<HitSoundView>, volume: u8)
    requires
        i == 0 || i == 1,
    ensures
        match extras_item(i, v, (sounds, volume)) {
            None => parse_unsigned(v, 255) is None,
            Some((out, vol)) => {
                &&& parse_unsigned(v, 255) is Some
                &&& vol == volume
                &&& out.len() == sounds.len()
                &&& forall|k: int|
                    0 <= k < sounds.len() ==> match (#[trigger] sounds[k]).source {
                        HitSoundSourceView::File(_) => out[k] == sounds[k],
                        HitSoundSourceView::SampleSet(shs) => {
                            let changes = i == 0 || shs.sound != SampleHitSoundSound::Normal;
                            let set = if changes {
                                named_sample_set(parse_unsigned(v, 255)->0, shs.set)
                            } else {
                                shs.set
                            };
                            &&& out[k].volume == sounds[k].volume
                            &&& out[k].source == HitSoundSourceView::SampleSet(
                                SampleHitSound { set: set, sound: shs.sound, index: shs.index },
                            )
                        },
                    }
            },
        },
{
}

/// The third item of the extras field (the sample index) gives every
/// sample-set hit sound that index, unless it is 0; the fourth (the volume)
/// gives every hit sound, and the files named after it, that volume, unless
/// it is 0; the fifth names a sound file, added after the others at the
/// volume so far, unless it is empty.
pub proof fn lemma_index_volume_file_items(i: nat, v: Seq<u8>, sounds: Seq<HitSoundView>, volume: u8)
    requires
        2 <= i <= 4,
    ensures
        i == 2 ==> match extras_item(i, v, (sounds, volume)) {
            None => parse_unsigned(v, u32::MAX as nat) is None,
            Some((out, vol)) => {
                let n = parse_unsigned(v, u32::MAX as nat)->0;
                &&& parse_unsigned(v, u32::MAX as nat) is Some
                &&& vol == volume
                &&& out.len() == sounds.len()
                &&& forall|k: int|
                    0 <= k < sounds.len() ==> match (#[trigger] sounds[k]).source {
                        HitSoundSourceView::File(_) => out[k] == sounds[k],
                        HitSoundSourceView::SampleSet(shs) => {
                            &&& out[k].volume == sounds[k].volume
                            &&& out[k].source == HitSoundSourceView::SampleSet(
                                SampleHitSound {
                                    set: shs.set,
                                    sound: shs.sound,
                                    index: if n == 0 { shs.index } else { n as u32 },
                                },
                            )
                        },
                    }
            },
        },
        i == 3 ==> match extras_item(i, v, (sounds, volume)) {
            None => parse_unsigned(v, 255) is None,
            Some((out, vol)) => {
                let n = parse_unsigned(v, 255)->0;
                &&& parse_unsigned(v, 255) is Some
                &&& vol == (if n == 0 { volume } else { n as u8 })
                &&& out.len() == sounds.len()
                &&& forall|k: int|
                    0 <= k < sounds.len() ==> (#[trigger] out[k]).source == sounds[k].source
                        && out[k].volume == (if n == 0 { sounds[k].volume } else { n as u8 })
            },
        },
        i == 4 ==> extras_item(i, v, (sounds, volume)) == Some(
            (
                if v.len() > 0 {
                    sounds + seq![HitSoundView { volume: volume, source: HitSoundSourceView::File(v) }]
                } else {
                    sounds
                },
                volume,
            ),
        ),
{
    if i == 4 && v.len() > 0 {
        assert(sounds.push(HitSoundView { volume: volume, source: HitSoundSourceView::File(v) })
            =~= sounds + seq![HitSoundView { volume: volume, source: HitSoundSourceView::File(v) }]);
    }
}

/// The first `k` items of the extras field applied in order.
pub open spec fn apply_extras(sounds: Seq<HitSoundView>, items: Seq<Seq<u8>>, k: nat) -> Option<
    (Seq<HitSoundView>, u8),
>
    decreases k,
{
    if k == 0 {
        Some((sounds, 100u8))
    } else {
        match apply_extras(sounds, items, (k - 1) as nat) {
            None => None,
            Some(st) => extras_item((k - 1) as nat, items[k - 1], st),
        }
    }
}

pub open spec fn hit_object_error(cause: ParseError) -> ParseError {
    ParseError::Parse(ParseContext::HitObject, Some(Box::new(cause)))
}

/// A line of the HitObjects section: `x,y,time,type,hitSound,extras`, where a
/// long note (type bit 128) starts its extras with `endTime:`. Times are in
/// milliseconds; fields past the sixth are ignored.
pub open spec fn parse_hit_object_spec(line: Seq<u8>) -> Result<HitObjectView, ParseError> {
    let f = split_seq(line, 44);
    let bad = Err(hit_object_error(ParseError::InvalidNumber));
    let eol = Err(hit_object_error(ParseError::EOL));
    match x_column_spec(f[0]) {
        None => bad,
        Some(column) => if f.len() < 3 {
            eol
        } else {
            match parse_time_spec(f[2]) {
                None => bad,
                Some(t) => if f.len() < 4 {
                    eol
                } else {
                    match parse_unsigned(f[3], 255) {
                        None => bad,
                        Some(ty) => if f.len() < 5 {
                            eol
                        } else {
                            match parse_unsigned(f[4], 255) {
                                None => bad,
                                Some(hs) => if f.len() < 6 {
                                    eol
                                } else {
                                    let ln = (ty as u8) & 128 == 128;
                                    let extras = split_seq(f[5], 58);
                                    let items = if ln { extras.drop_first() } else { extras };
                                    if ln && parse_time_spec(extras[0]) is None {
                                        bad
                                    } else {
                                        match apply_extras(
                                            hit_sounds_of_bits(hs as u8),
                                            items,
                                            if items.len() < 5 { items.len() } else { 5 },
                                        ) {
                                            None => bad,
                                            Some((sounds, _)) => Ok(HitObjectView {
                                                time: t,
                                                column: column,
                                                end_time: if ln { parse_time_spec(extras[0]) } else { None },
                                                sounds: sounds,
                                            }),
                                        }
                                    }
                                }
                            }
                        }
                    }
                }
            }
        }
    }
}

fn copy_bytes(v: &Vec<u8>) -> (r: Vec<u8>)
    ensures
        r@ == v@,
{
    let r = slice_to_vec(v.as_slice(), 0, v.len());
    assert(v@.subrange(0, v.len() as int) =~= v@);
    r
}

fn copy_hit_sound(s: &HitSound) -> (r: HitSound)
    ensures
        r@ == s@,
{
    match &s.source {
        HitSoundSource::SampleSet(shs) => HitSound { source: HitSoundSource::SampleSet(*shs), volume: s.volume },
        HitSoundSource::File(p) => HitSound { source: HitSoundSource::File(copy_bytes(p)), volume: s.volume },
    }
}

fn new_hit_sound(sound: SampleHitSoundSound) -> (r: HitSound)
    ensures
        r@ == default_hit_sound(sound),
{
    HitSound {
        volume: 100,
        source: HitSoundSource::SampleSet(SampleHitSound { set: SampleSet::Auto, sound: sound, index: 0 }),
    }
}

fn hit_sounds_from_bits(n: u8) -> (r: Vec<HitSound>)
    ensures
        sound_views(r@) == hit_sounds_of_bits(n),
{
    let mut v: Vec<HitSound> = Vec::new();
    v.push(new_hit_sound(SampleHitSoundSound::Normal));
    if n & 2 == 2 {
        v.push(new_hit_sound(SampleHitSoundSound::Whistle));
    }
    if n & 4 == 4 {
        v.push(new_hit_sound(SampleHitSoundSound::Finish));
    }
    if n & 8 == 8 {
        v.push(new_hit_sound(SampleHitSoundSound::Clap));
    }
    assert(sound_views(v@) =~= hit_sounds_of_bits(n));
    v
}

/// How the extras field changes one hit sound.
enum SoundChange {
    SampleSetTo(SampleSet, bool),
    Index(u32),
    Volume(u8),
}

spec fn changed(s: HitSoundView, c: SoundChange) -> HitSoundView {
    match c {
        SoundChange::SampleSetTo(set, additions_only) => with_sample_set(s, set, additions_only),
        SoundChange::Index(i) => with_sample_index(s, i),
        SoundChange::Volume(v) => with_volume(s, v),
    }
}

fn change_hit_sound(s: &HitSound, c: &SoundChange) -> (r: HitSound)
    ensures
        r@ == changed(s@, *c),
{
    match c {
        SoundChange::SampleSetTo(set, additions_only) => match &s.source {
            HitSoundSource::SampleSet(shs) => {
                if !*additions_only || shs.sound != SampleHitSoundSound::Normal {
                    HitSound {
                        source: HitSoundSource::SampleSet(
                            SampleHitSound { set: *set, sound: shs.sound, index: shs.index },
                        ),
                        volume: s.volume,
                    }
                } else {
                    copy_hit_sound(s)
                }
            },
            HitSoundSource::File(_) => copy_hit_sound(s),
        },
        SoundChange::Index(i) => match &s.source {
            HitSoundSource::SampleSet(shs) => HitSound {
                source: HitSoundSource::SampleSet(
                    SampleHitSound { set: shs.set, sound: shs.sound, index: *i },
                ),
                volume: s.volume,
            },
            HitSoundSource::File(_) => copy_hit_sound(s),
        },
        SoundChange::Volume(v) => {
            let c = copy_hit_sound(s);
            HitSound { source: c.source, volume: *v }
        },
    }
}

fn change_hit_sounds(sounds: &Vec<HitSound>, c: SoundChange) -> (r: Vec<HitSound>)
    ensures
        sound_views(r@) == sound_views(sounds@).map_values(|s| changed(s, c)),
{
    let mut r: Vec<HitSound> = Vec::new();
    let mut i: usize = 0;
    while i < sounds.len()
        invariant
            i <= sounds.len(),
            sound_views(r@) == sound_views(sounds@.take(i as int)).map_values(|s| changed(s, c)),
        decreases sounds.len() - i,
    {
        let h = change_hit_sound(&sounds[i], &c);
        let ghost before = r@;
        r.push(h);
        i = i + 1;
        proof {
            let prev = sound_views(sounds@.take(i - 1)).map_values(|s| changed(s, c));
            assert(sound_views(r@) =~= sound_views(before).push(h@));
            assert(sounds@.take(i as int) =~= sounds@.take(i - 1).push(sounds@[i - 1]));
            assert(sound_views(sounds@.take(i as int)) =~= sound_views(sounds@.take(i - 1)).push(
                sounds@[i - 1]@,
            ));
            assert(sound_views(sounds@.take(i as int)).map_values(|s| changed(s, c)) =~= prev.push(
                changed(sounds@[i - 1]@, c),
            ));
        }
    }
    assert(sounds@.take(i as int) =~= sounds@);
    r
}

/// Applies item `i` of the extras field.
fn apply_extras_item(i: usize, v: &Vec<u8>, sounds: Vec<HitSound>, volume: u8) -> (r: Option<
    (Vec<HitSound>, u8),
>)
    requires
        i < 5,
    ensures
        match r {
            Some((s, vol)) => extras_item(i as nat, v@, (sound_views(sounds@), volume)) == Some(
                (sound_views(s@), vol),
            ),
            None => extras_item(i as nat, v@, (sound_views(sounds@), volume)) is None,
        },
{
    let ghost sv = sound_views(sounds@);
    if i == 0 || i == 1 {
        match parse_u8(v.as_slice()) {
            None => None,
            Some(n) => {
                let set = if n == 1 {
                    SampleSet::Normal
                } else if n == 2 {
                    SampleSet::Soft
                } else if n == 3 {
                    SampleSet::Drum
                } else {
                    return Some((sounds, volume));
                };
                let r = change_hit_sounds(&sounds, SoundChange::SampleSetTo(set, i == 1));
                assert(sound_views(r@) =~= sv.map_values(|s| with_sample_set(s, set, i == 1)));
                Some((r, volume))
            },
        }
    } else if i == 2 {
        match parse_u32(v.as_slice()) {
            None => None,
            Some(n) => if n == 0 {
                Some((sounds, volume))
            } else {
                let r = change_hit_sounds(&sounds, SoundChange::Index(n));
                assert(sound_views(r@) =~= sv.map_values(|s| with_sample_index(s, n)));
                Some((r, volume))
            },
        }
    } else if i == 3 {
        match parse_u8(v.as_slice()) {
            None => None,
            Some(n) => if n == 0 {
                Some((sounds, volume))
            } else {
                let r = change_hit_sounds(&sounds, SoundChange::Volume(n));
                assert(sound_views(r@) =~= sv.map_values(|s| with_volume(s, n)));
                Some((r, n))
            },
        }
    } else {
        if v.len() > 0 {
            let mut s = sounds;
            let ghost before = s@;
            s.push(HitSound { volume: volume, source: HitSoundSource::File(copy_bytes(v)) });
            assert(sound_views(s@) =~= sv.push(
                HitSoundView { volume: volume, source: HitSoundSourceView::File(v@) },
            ));
            Some((s, volume))
        } else {
            Some((sounds, volume))
        }
    }
}

/// Parse a line from the HitObjects section into a hit object.
#[verifier::loop_isolation(false)]
pub fn parse_hit_object_line(line: &[u8]) -> (r: Result<HitObject, ParseError>)
    ensures
        match r {
            Ok(h) => parse_hit_object_spec(line@) == Ok::<HitObjectView, ParseError>(h@),
            Err(e) => parse_hit_object_spec(line@) == Err::<HitObjectView, ParseError>(e),
        },
{
    let f = split(line, 44);
    let ghost fs = split_seq(line@, 44);
    assert(fs.len() >= 1);
    assert(f@[0]@ == fs[0]);
    let bad = ParseError::Parse(ParseContext::HitObject, Some(Box::new(ParseError::InvalidNumber)));
    let eol = ParseError::Parse(ParseContext::HitObject, Some(Box::new(ParseError::EOL)));
    let column = match column_from_x(f[0].as_slice()) {
        None => return Err(bad),
        Some(c) => c,
    };
    if f.len() < 3 {
        return Err(eol);
    }
    assert(f@[2]@ == fs[2]);
    let time = match parse_time(f[2].as_slice()) {
        None => return Err(bad),
        Some(t) => t,
    };
    if f.len() < 4 {
        return Err(eol);
    }
    assert(f@[3]@ == fs[3]);
    let ty = match parse_u8(f[3].as_slice()) {
        None => return Err(bad),
        Some(t) => t,
    };
    if f.len() < 5 {
        return Err(eol);
    }
    assert(f@[4]@ == fs[4]);
    let hs = match parse_u8(f[4].as_slice()) {
        None => return Err(bad),
        Some(t) => t,
    };
    if f.len() < 6 {
        return Err(eol);
    }
    assert(f@[5]@ == fs[5]);
    let ln = ty & 128 == 128;
    let extras = split(f[5].as_slice(), 58);
    let ghost es = split_seq(fs[5], 58);
    assert(extras@[0]@ == es[0]);
    let mut end_time: Option<i64> = None;
    let mut first_item: usize = 0;
    if ln {
        match parse_time(extras[0].as_slice()) {
            None => return Err(bad),
            Some(t) => {
                end_time = Some(t);
            },
        }
        first_item = 1;
    }
    let ghost items = if ln { es.drop_first() } else { es };
    let item_count: usize = if extras.len() - first_item < 5 { extras.len() - first_item } else { 5 };
    assert(item_count == if items.len() < 5 { items.len() } else { 5 });
    let mut sounds = hit_sounds_from_bits(hs);
    let mut volume: u8 = 100;
    let mut k: usize = 0;
    while k < item_count
        invariant
            k <= item_count,
            item_count <= 5,
            first_item + item_count <= extras.len(),
            seq_views(extras@) == es,
            items == es.skip(first_item as int),
            apply_extras(hit_sounds_of_bits(hs), items, k as nat) == Some(
                (sound_views(sounds@), volume),
            ),
        decreases item_count - k,
    {
        assert(extras@[(first_item + k) as int]@ == items[k as int]);
        match apply_extras_item(k, &extras[first_item + k], sounds, volume) {
            None => {
                proof {
                    lemma_apply_extras_none_stays(hit_sounds_of_bits(hs), items, (k + 1) as nat, item_count as nat);
                }
                return Err(bad);
            },
            Some((s, v)) => {
                sounds = s;
                volume = v;
            },
        }
        k = k + 1;
    }
    Ok(HitObject { time: time, column: column, end_time: end_time, sounds: sounds })
}


// ---------------------------------------------------------------------------
// Timing points
// ---------------------------------------------------------------------------

/// The sample set a timing point names; codes past 3 are unknown and read as
/// `Auto`.
pub open spec fn timing_sample_set(n: nat) -> SampleSet {
    if n == 1 {
        SampleSet::Normal
    } else if n == 2 {
        SampleSet::Soft
    } else if n == 3 {
        SampleSet::Drum
    } else {
        SampleSet::Auto
    }
}

pub open spec fn timing_point_error(cause: ParseError) -> ParseError {
    ParseError::Parse(ParseContext::TimingPoint, Some(Box::new(cause)))
}

/// A line of the TimingPoints section:
/// `time,beatLength,meter,sampleSet,sampleIndex,volume,uninherited,effects`.
/// A beat length written with a minus sign is a scroll speed change. Fields past
/// the eighth are ignored.
pub open spec fn parse_timing_point_spec(line: Seq<u8>) -> Result<OsuTimingPoint, ParseError> {
    let f = split_seq(line, 44);
    let bad = Err(timing_point_error(ParseError::InvalidNumber));
    let eol = Err(timing_point_error(ParseError::EOL));
    match parse_time_spec(f[0]) {
        None => bad,
        Some(offset) => if f.len() < 2 {
            eol
        } else {
            match parse_number_spec(f[1]) {
                None => bad,
                Some(beat) => if f.len() < 4 {
                    eol
                } else {
                    match parse_unsigned(f[3], 255) {
                        None => bad,
                        Some(set) => if f.len() < 5 {
                            eol
                        } else {
                            match parse_unsigned(f[4], u32::MAX as nat) {
                                None => bad,
                                Some(index) => if f.len() < 6 {
                                    eol
                                } else {
                                    match parse_unsigned(f[5], 255) {
                                        None => bad,
                                        Some(volume) => if f.len() < 8 {
                                            eol
                                        } else {
                                            Ok(
                                                OsuTimingPoint {
                                                    offset: offset as i64,
                                                    value: if beat.negative {
                                                        TimingPointValue::SV(beat.micros)
                                                    } else {
                                                        TimingPointValue::BPM(beat.micros)
                                                    },
                                                    sample_set: timing_sample_set(set),
                                                    sample_index: index as u32,
                                                    volume: volume as u8,
                                                },
                                            )
                                        },
                                    }
                                },
                            }
                        },
                    }
                },
            }
        },
    }
}

/// Parse a line from the TimingPoints section into a timing point.
pub fn parse_timing_point_line(line: &[u8]) -> (r: Result<OsuTimingPoint, ParseError>)
    ensures
        match r {
            Ok(t) => parse_timing_point_spec(line@) == Ok::<OsuTimingPoint, ParseError>(t),
            Err(e) => parse_timing_point_spec(line@) == Err::<OsuTimingPoint, ParseError>(e),
        },
{
    let f = split(line, 44);
    let ghost fs = split_seq(line@, 44);
    let bad = ParseError::Parse(ParseContext::TimingPoint, Some(Box::new(ParseError::InvalidNumber)));
    let eol = ParseError::Parse(ParseContext::TimingPoint, Some(Box::new(ParseError::EOL)));
    assert(f@[0]@ == fs[0]);
    let offset = match parse_time(f[0].as_slice()) {
        None => return Err(bad),
        Some(t) => t,
    };
    if f.len() < 2 {
        return Err(eol);
    }
    assert(f@[1]@ == fs[1]);
    let beat = match parse_number(f[1].as_slice()) {
        None => return Err(bad),
        Some(n) => n,
    };
    if f.len() < 4 {
        return Err(eol);
    }
    assert(f@[3]@ == fs[3]);
    let set = match parse_u8(f[3].as_slice()) {
        None => return Err(bad),
        Some(n) => n,
    };
    if f.len() < 5 {
        return Err(eol);
    }
    assert(f@[4]@ == fs[4]);
    let index = match parse_u32(f[4].as_slice()) {
        None => return Err(bad),
        Some(n) => n,
    };
    if f.len() < 6 {
        return Err(eol);
    }
    assert(f@[5]@ == fs[5]);
    let volume = match parse_u8(f[5].as_slice()) {
        None => return Err(bad),
        Some(n) => n,
    };
    if f.len() < 8 {
        return Err(eol);
    }
    let sample_set = if set == 1 {
        SampleSet::Normal
    } else if set == 2 {
        SampleSet::Soft
    } else if set == 3 {
        SampleSet::Drum
    } else {
        SampleSet::Auto
    };
    Ok(
        OsuTimingPoint {
            offset: offset,
            value: if beat.negative {
                TimingPointValue::SV(beat.micros)
            } else {
                TimingPointValue::BPM(beat.micros)
            },
            sample_set: sample_set,
            sample_index: index,
            volume: volume,
        },
    )
}

// ---------------------------------------------------------------------------
// Key/value sections
// ---------------------------------------------------------------------------

/// Whether byte `i` of `s` starts a character (or is the end of `s`), as
/// `str::is_char_boundary` decides for UTF-8 text.
pub open spec fn is_boundary(s: Seq<u8>, i: int) -> bool {
    i == s.len() || (0 <= i < s.len() && !(0x80 <= s[i] && s[i] < 0xC0))
}

fn boundary(s: &[u8], i: usize) -> (r: bool)
    requires
        i <= s.len(),
    ensures
        r == is_boundary(s@, i as int),
{
    i == s.len() || !(0x80 <= s[i] && s[i] < 0xC0)
}

/// A chart being read, with the values found so far.
#[derive(Debug, Default)]
pub struct IncompleteChart {
    pub hit_objects: Vec<HitObject>,
    pub timing_points: Vec<OsuTimingPoint>,
    pub creator: Option<Vec<u8>>,
    pub artist: Option<Vec<u8>>,
    pub artist_unicode: Option<Vec<u8>>,
    pub song_name: Option<Vec<u8>>,
    pub song_name_unicode: Option<Vec<u8>>,
    pub difficulty_name: Option<Vec<u8>>,
    pub music_path: Option<Vec<u8>>,
}

pub open spec fn opt_bytes(o: Option<Vec<u8>>) -> Option<Seq<u8>> {
    match o {
        Some(v) => Some(v@),
        None => None,
    }
}

pub struct IncompleteChartView {
    pub hit_objects: Seq<HitObjectView>,
    pub timing_points: Seq<OsuTimingPoint>,
    pub creator: Option<Seq<u8>>,
    pub artist: Option<Seq<u8>>,
    pub artist_unicode: Option<Seq<u8>>,
    pub song_name: Option<Seq<u8>>,
    pub song_name_unicode: Option<Seq<u8>>,
    pub difficulty_name: Option<Seq<u8>>,
    pub music_path: Option<Seq<u8>>,
}

pub open spec fn hit_object_views(v: Seq<HitObject>) -> Seq<HitObjectView> {
    v.map_values(|h: HitObject| h@)
}

impl View for IncompleteChart {
    type V = IncompleteChartView;

    open spec fn view(&self) -> IncompleteChartView {
        IncompleteChartView {
            hit_objects: hit_object_views(self.hit_objects@),
            timing_points: self.timing_points@,
            creator: opt_bytes(self.creator),
            artist: opt_bytes(self.artist),
            artist_unicode: opt_bytes(self.artist_unicode),
            song_name: opt_bytes(self.song_name),
            song_name_unicode: opt_bytes(self.song_name_unicode),
            difficulty_name: opt_bytes(self.difficulty_name),
            music_path: opt_bytes(self.music_path),
        }
    }
}

impl IncompleteChart {
    pub fn new() -> (r: IncompleteChart)
        ensures
            r@.hit_objects.len() == 0,
            r@.timing_points.len() == 0,
            r@.creator is None,
            r@.artist is None,
            r@.artist_unicode is None,
            r@.song_name is None,
            r@.song_name_unicode is None,
            r@.difficulty_name is None,
            r@.music_path is None,
    {
        IncompleteChart {
            hit_objects: Vec::new(),
            timing_points: Vec::new(),
            creator: None,
            artist: None,
            artist_unicode: None,
            song_name: None,
            song_name_unicode: None,
            difficulty_name: None,
            music_path: None,
        }
    }
}

/// A General line panics where the value after `Key:` is not at least one byte
/// long followed by a character boundary: the reader skips `: ` as two bytes.
pub open spec fn general_panics(line: Seq<u8>) -> bool {
    match first_index(line, 58) {
        Some(n) => !(n + 2 <= line.len() && is_boundary(line, n + 2)),
        None => false,
    }
}

/// A line from the General section: `AudioFilename: file` names the music,
/// and `Mode` must be `3` (osu!mania).
pub open spec fn parse_general_spec(line: Seq<u8>, c: IncompleteChartView) -> Result<
    IncompleteChartView,
    ParseError,
> {
    match first_index(line, 58) {
        None => Err(ParseError::Parse(ParseContext::GeneralKeyValue, None)),
        Some(n) => {
            let k = line.take(n);
            let v = line.skip(n + 2);
            if k == lit_audio_filename() {
                Ok(IncompleteChartView { music_path: Some(v), ..c })
            } else if k == lit_mode() && v != lit_three() {
                Err(ParseError::Parse(ParseContext::WrongGameMode, None))
            } else {
                Ok(c)
            }
        },
    }
}

/// A line from the Metadata section: `Key:value`.
pub open spec fn parse_metadata_spec(line: Seq<u8>, c: IncompleteChartView) -> Result<
    IncompleteChartView,
    ParseError,
> {
    match first_index(line, 58) {
        None => Err(ParseError::Parse(ParseContext::KeyValue, None)),
        Some(n) => {
            let k = line.take(n);
            let v = Some(line.skip(n + 1));
            Ok(
                if k == lit_title() {
                    IncompleteChartView { song_name: v, ..c }
                } else if k == lit_title_unicode() {
                    IncompleteChartView { song_name_unicode: v, ..c }
                } else if k == lit_artist() {
                    IncompleteChartView { artist: v, ..c }
                } else if k == lit_artist_unicode() {
                    IncompleteChartView { artist_unicode: v, ..c }
                } else if k == lit_creator() {
                    IncompleteChartView { creator: v, ..c }
                } else if k == lit_version() {
                    IncompleteChartView { difficulty_name: v, ..c }
                } else {
                    c
                },
            )
        },
    }
}

/// A line from the Difficulty section: only checks that the chart has 7 keys.
pub open spec fn parse_difficulty_spec(line: Seq<u8>) -> Result<(), ParseError> {
    match first_index(line, 58) {
        None => Err(ParseError::Parse(ParseContext::KeyValue, None)),
        Some(n) => if line.take(n) == lit_circle_size() && line.skip(n + 1) != lit_seven() {
            Err(ParseError::Parse(ParseContext::NotSevenKey, None))
        } else {
            Ok(())
        },
    }
}

/// Parse a line from the General section and add the info to the chart.
fn parse_general(line: &[u8], chart: &mut IncompleteChart) -> (r: Result<(), ParseError>)
    requires
        !general_panics(line@),
    ensures
        match parse_general_spec(line@, old(chart)@) {
            Ok(c) => r is Ok && final(chart)@ == c,
            Err(e) => r == Err::<(), ParseError>(e) && final(chart)@ == old(chart)@,
        },
{
    let n = match find(line, 58) {
        Some(n) => n,
        None => return Err(ParseError::Parse(ParseContext::GeneralKeyValue, None)),
    };
    let len = line.len();
    assert(n + 2 <= len);
    let k = slice_to_vec(line, 0, n);
    let v = slice_to_vec(line, n + 2, line.len());
    assert(k@ =~= line@.take(n as int));
    assert(v@ =~= line@.skip(n + 2));
    if is_audio_filename(k.as_slice()) {
        chart.music_path = Some(v);
    } else if is_mode(k.as_slice()) {
        if !is_three(v.as_slice()) {
            return Err(ParseError::Parse(ParseContext::WrongGameMode, None));
        }
    }
    Ok(())
}

/// Parse a line from the Metadata section and add the info to the chart.
fn parse_metadata(line: &[u8], chart: &mut IncompleteChart) -> (r: Result<(), ParseError>)
    ensures
        match parse_metadata_spec(line@, old(chart)@) {
            Ok(c) => r is Ok && final(chart)@ == c,
            Err(e) => r == Err::<(), ParseError>(e) && final(chart)@ == old(chart)@,
        },
{
    let n = match find(line, 58) {
        Some(n) => n,
        None => return Err(ParseError::Parse(ParseContext::KeyValue, None)),
    };
    assert(is_first_index(line@, 58, n as int));
    let len = line.len();
    assert(n < len);
    let k = slice_to_vec(line, 0, n);
    let v = slice_to_vec(line, n + 1, line.len());
    assert(k@ =~= line@.take(n as int));
    assert(v@ =~= line@.skip(n + 1));
    let k = k.as_slice();
    if is_title(k) {
        chart.song_name = Some(v);
    } else if is_title_unicode(k) {
        chart.song_name_unicode = Some(v);
    } else if is_artist(k) {
        chart.artist = Some(v);
    } else if is_artist_unicode(k) {
        chart.artist_unicode = Some(v);
    } else if is_creator(k) {
        chart.creator = Some(v);
    } else if is_version(k) {
        chart.difficulty_name = Some(v);
    }
    Ok(())
}

/// Parse a line from the Difficulty section. This just checks to see if the
/// chart is a 7k chart.
pub fn parse_difficulty(line: &[u8]) -> (r: Result<(), ParseError>)
    ensures
        r == parse_difficulty_spec(line@),
{
    let n = match find(line, 58) {
        Some(n) => n,
        None => return Err(ParseError::Parse(ParseContext::KeyValue, None)),
    };
    assert(is_first_index(line@, 58, n as int));
    let len = line.len();
    assert(n < len);
    let k = slice_to_vec(line, 0, n);
    let v = slice_to_vec(line, n + 1, line.len());
    assert(k@ =~= line@.take(n as int));
    assert(v@ =~= line@.skip(n + 1));
    if is_circle_size(k.as_slice()) && !is_seven(v.as_slice()) {
        Err(ParseError::Parse(ParseContext::NotSevenKey, None))
    } else {
        Ok(())
    }
}

/// `AudioFilename`
pub open spec fn lit_audio_filename() -> Seq<u8> {
    seq![65u8, 117, 100, 105, 111, 70, 105, 108, 101, 110, 97, 109, 101]
}

fn is_audio_filename(k: &[u8]) -> (r: bool)
    ensures
        r == (k@ == lit_audio_filename()),
{
    let lit = [65u8, 117, 100, 105, 111, 70, 105, 108, 101, 110, 97, 109, 101];
    assert(lit@ =~= lit_audio_filename());
    bytes_eq(k, &lit)
}

/// `Mode`
pub open spec fn lit_mode() -> Seq<u8> {
    seq![77u8, 111, 100, 101]
}

fn is_mode(k: &[u8]) -> (r: bool)
    ensures
        r == (k@ == lit_mode()),
{
    let lit = [77u8, 111, 100, 101];
    assert(lit@ =~= lit_mode());
    bytes_eq(k, &lit)
}

/// `3`
pub open spec fn lit_three() -> Seq<u8> {
    seq![51u8]
}

fn is_three(k: &[u8]) -> (r: bool)
    ensures
        r == (k@ == lit_three()),
{
    let lit = [51u8];
    assert(lit@ =~= lit_three());
    bytes_eq(k, &lit)
}

/// `Title`
pub open spec fn lit_title() -> Seq<u8> {
    seq![84u8, 105, 116, 108, 101]
}

fn is_title(k: &[u8]) -> (r: bool)
    ensures
        r == (k@ == lit_title()),
{
    let lit = [84u8, 105, 116, 108, 101];
    assert(lit@ =~= lit_title());
    bytes_eq(k, &lit)
}

/// `TitleUnicode`
pub open spec fn lit_title_unicode() -> Seq<u8> {
    seq![84u8, 105, 116, 108, 101, 85, 110, 105, 99, 111, 100, 101]
}

fn is_title_unicode(k: &[u8]) -> (r: bool)
    ensures
        r == (k@ == lit_title_unicode()),
{
    let lit = [84u8, 105, 116, 108, 101, 85, 110, 105, 99, 111, 100, 101];
    assert(lit@ =~= lit_title_unicode());
    bytes_eq(k, &lit)
}

/// `Artist`
pub open spec fn lit_artist() -> Seq<u8> {
    seq![65u8, 114, 116, 105, 115, 116]
}

fn is_artist(k: &[u8]) -> (r: bool)
    ensures
        r == (k@ == lit_artist()),
{
    let lit = [65u8, 114, 116, 105, 115, 116];
    assert(lit@ =~= lit_artist());
    bytes_eq(k, &lit)
}

/// `ArtistUnicode`
pub open spec fn lit_artist_unicode() -> Seq<u8> {
    seq![65u8, 114, 116, 105, 115, 116, 85, 110, 105, 99, 111, 100, 101]
}

fn is_artist_unicode(k: &[u8]) -> (r: bool)
    ensures
        r == (k@ == lit_artist_unicode()),
{
    let lit = [65u8, 114, 116, 105, 115, 116, 85, 110, 105, 99, 111, 100, 101];
    assert(lit@ =~= lit_artist_unicode());
    bytes_eq(k, &lit)
}

/// `Creator`
pub open spec fn lit_creator() -> Seq<u8> {
    seq![67u8, 114, 101, 97, 116, 111, 114]
}

fn is_creator(k: &[u8]) -> (r: bool)
    ensures
        r == (k@ == lit_creator()),
{
    let lit = [67u8, 114, 101, 97, 116, 111, 114];
    assert(lit@ =~= lit_creator());
    bytes_eq(k, &lit)
}

/// `Version`
pub open spec fn lit_version() -> Seq<u8> {
    seq![86u8, 101, 114, 115, 105, 111, 110]
}

fn is_version(k: &[u8]) -> (r: bool)
    ensures
        r == (k@ == lit_version()),
{
    let lit = [86u8, 101, 114, 115, 105, 111, 110];
    assert(lit@ =~= lit_version());
    bytes_eq(k, &lit)
}

/// `CircleSize`
pub open spec fn lit_circle_size() -> Seq<u8> {
    seq![67u8, 105, 114, 99, 108, 101, 83, 105, 122, 101]
}

fn is_circle_size(k: &[u8]) -> (r: bool)
    ensures
        r == (k@ == lit_circle_size()),
{
    let lit = [67u8, 105, 114, 99, 108, 101, 83, 105, 122, 101];
    assert(lit@ =~= lit_circle_size());
    bytes_eq(k, &lit)
}

/// `7`
pub open spec fn lit_seven() -> Seq<u8> {
    seq![55u8]
}

fn is_seven(k: &[u8]) -> (r: bool)
    ensures
        r == (k@ == lit_seven()),
{
    let lit = [55u8];
    assert(lit@ =~= lit_seven());
    bytes_eq(k, &lit)
}

/// `General`
pub open spec fn lit_general() -> Seq<u8> {
    seq![71u8, 101, 110, 101, 114, 97, 108]
}

fn is_general(k: &[u8]) -> (r: bool)
    ensures
        r == (k@ == lit_general()),
{
    let lit = [71u8, 101, 110, 101, 114, 97, 108];
    assert(lit@ =~= lit_general());
    bytes_eq(k, &lit)
}

/// `Difficulty`
pub open spec fn lit_difficulty() -> Seq<u8> {
    seq![68u8, 105, 102, 102, 105, 99, 117, 108, 116, 121]
}

fn is_difficulty(k: &[u8]) -> (r: bool)
    ensures
        r == (k@ == lit_difficulty()),
{
    let lit = [68u8, 105, 102, 102, 105, 99, 117, 108, 116, 121];
    assert(lit@ =~= lit_difficulty());
    bytes_eq(k, &lit)
}

/// `Metadata`
pub open spec fn lit_metadata() -> Seq<u8> {
    seq![77u8, 101, 116, 97, 100, 97, 116, 97]
}

fn is_metadata(k: &[u8]) -> (r: bool)
    ensures
        r == (k@ == lit_metadata()),
{
    let lit = [77u8, 101, 116, 97, 100, 97, 116, 97];
    assert(lit@ =~= lit_metadata());
    bytes_eq(k, &lit)
}

/// `TimingPoints`
pub open spec fn lit_timing_points() -> Seq<u8> {
    seq![84u8, 105, 109, 105, 110, 103, 80, 111, 105, 110, 116, 115]
}

fn is_timing_points(k: &[u8]) -> (r: bool)
    ensures
        r == (k@ == lit_timing_points()),
{
    let lit = [84u8, 105, 109, 105, 110, 103, 80, 111, 105, 110, 116, 115];
    assert(lit@ =~= lit_timing_points());
    bytes_eq(k, &lit)
}

/// `HitObjects`
pub open spec fn lit_hit_objects() -> Seq<u8> {
    seq![72u8, 105, 116, 79, 98, 106, 101, 99, 116, 115]
}

fn is_hit_objects(k: &[u8]) -> (r: bool)
    ensures
        r == (k@ == lit_hit_objects()),
{
    let lit = [72u8, 105, 116, 79, 98, 106, 101, 99, 116, 115];
    assert(lit@ =~= lit_hit_objects());
    bytes_eq(k, &lit)
}

/// `osu file format v`
pub open spec fn lit_header() -> Seq<u8> {
    seq![111u8, 115, 117, 32, 102, 105, 108, 101, 32, 102, 111, 114, 109, 97, 116, 32, 118]
}

fn is_header(k: &[u8]) -> (r: bool)
    ensures
        r == (k@ == lit_header()),
{
    let lit = [111u8, 115, 117, 32, 102, 105, 108, 101, 32, 102, 111, 114, 109, 97, 116, 32, 118];
    assert(lit@ =~= lit_header());
    bytes_eq(k, &lit)
}

/// `Unnamed`
pub open spec fn lit_unnamed() -> Seq<u8> {
    seq![85u8, 110, 110, 97, 109, 101, 100]
}

/// The difficulty name of a chart whose Metadata section names none.
pub fn unnamed() -> (r: Vec<u8>)
    ensures
        r@ == lit_unnamed(),
{
    let v = vec![85u8, 110, 110, 97, 109, 101, 100];
    assert(v@ =~= lit_unnamed());
    v
}

/// Checks the header line of a `.osu` file and gives the file format version
/// it names.
pub fn verify(line: &[u8]) -> (r: Result<i32, ParseError>)
    ensures
        match header_version(line@) {
            None => r == Err::<i32, ParseError>(ParseError::InvalidFile),
            Some(None) => r == Err::<i32, ParseError>(
                ParseError::Parse(ParseContext::FileVersion, Some(Box::new(ParseError::InvalidNumber))),
            ),
            Some(Some(v)) => r == Ok::<i32, ParseError>(v as i32),
        },
{
    if line.len() < 17 {
        return Err(ParseError::InvalidFile);
    }
    let head = slice_to_vec(line, 0, 17);
    assert(head@ =~= line@.take(17));
    if !is_header(head.as_slice()) {
        return Err(ParseError::InvalidFile);
    }
    let rest = slice_to_vec(line, 17, line.len());
    assert(rest@ =~= line@.skip(17));
    match parse_i32(rest.as_slice()) {
        Some(v) => Ok(v),
        None => Err(ParseError::Parse(ParseContext::FileVersion, Some(Box::new(ParseError::InvalidNumber)))),
    }
}

/// The name of the section a `[Name]` line starts.
pub fn parse_section(line: &[u8]) -> (r: Vec<u8>)
    requires
        line.len() >= 2,
        is_boundary(line@, 1),
        is_boundary(line@, line.len() - 1),
    ensures
        r@ == line@.subrange(1, line.len() - 1),
{
    slice_to_vec(line, 1, line.len() - 1)
}

// ---------------------------------------------------------------------------
// Lines and sections
// ---------------------------------------------------------------------------

/// Reads a .osu chart line by line.
#[derive(Debug, Default)]
pub struct OsuParser {
    pub current_section: Option<Vec<u8>>,
    pub chart: IncompleteChart,
}

pub struct ParserView {
    pub section: Option<Seq<u8>>,
    pub chart: IncompleteChartView,
}

impl View for OsuParser {
    type V = ParserView;

    open spec fn view(&self) -> ParserView {
        ParserView { section: opt_bytes(self.current_section), chart: self.chart@ }
    }
}

/// Whether reading the (trimmed) `line` panics: a line that starts with a
/// multi-byte character, a lone `[`, a section header that ends with a
/// multi-byte character, or a General line that `general_panics`.
pub open spec fn line_panics(st: ParserView, line: Seq<u8>) -> bool {
    line.len() > 0 && (!is_boundary(line, 1) || (line[0] == 91 && (line.len() < 2 || !is_boundary(
        line,
        line.len() - 1,
    ))) || (line[0] != 91 && st.section == Some(lit_general()) && general_panics(line)))
}

/// What reading the (trimmed) `line` does: blank lines are skipped, `[Name]`
/// starts a section, and other lines are read by their section's reader.
/// Lines before the first section are refused, and lines of other sections
/// are ignored.
pub open spec fn parse_line_spec(st: ParserView, line: Seq<u8>) -> Result<ParserView, ParseError> {
    if line.len() == 0 {
        Ok(st)
    } else if line[0] == 91 {
        Ok(ParserView { section: Some(line.subrange(1, line.len() - 1)), chart: st.chart })
    } else {
        match st.section {
            None => Err(ParseError::InvalidFile),
            Some(s) => if s == lit_general() {
                match parse_general_spec(line, st.chart) {
                    Ok(c) => Ok(ParserView { section: st.section, chart: c }),
                    Err(e) => Err(e),
                }
            } else if s == lit_difficulty() {
                match parse_difficulty_spec(line) {
                    Ok(_) => Ok(st),
                    Err(e) => Err(e),
                }
            } else if s == lit_metadata() {
                match parse_metadata_spec(line, st.chart) {
                    Ok(c) => Ok(ParserView { section: st.section, chart: c }),
                    Err(e) => Err(e),
                }
            } else if s == lit_timing_points() {
                match parse_timing_point_spec(line) {
                    Ok(t) => Ok(
                        ParserView {
                            section: st.section,
                            chart: IncompleteChartView {
                                timing_points: st.chart.timing_points.push(t),
                                ..st.chart
                            },
                        },
                    ),
                    Err(e) => Err(e),
                }
            } else if s == lit_hit_objects() {
                match parse_hit_object_spec(line) {
                    Ok(h) => Ok(
                        ParserView {
                            section: st.section,
                            chart: IncompleteChartView {
                                hit_objects: st.chart.hit_objects.push(h),
                                ..st.chart
                            },
                        },
                    ),
                    Err(e) => Err(e),
                }
            } else {
                Ok(st)
            },
        }
    }
}

/// `key:value` splits at the colon after `key` when `key` holds none.
proof fn lemma_key_value_line(key: Seq<u8>, v: Seq<u8>)
    requires
        forall|i: int| 0 <= i < key.len() ==> key[i] != 58,
    ensures
        first_index(key + seq![58u8] + v, 58) == Some(key.len() as int),
        (key + seq![58u8] + v).take(key.len() as int) == key,
        (key + seq![58u8] + v).skip(key.len() as int + 1) == v,
{
    let line = key + seq![58u8] + v;
    assert(is_first_index(line, 58, key.len() as int)) by {
        assert forall|j: int| 0 <= j < key.len() implies line[j] != 58 by {
            assert(line[j] == key[j]);
        }
    }
    lemma_first_index_unique(line, 58, key.len() as int);
    assert(line.take(key.len() as int) =~= key);
    assert(line.skip(key.len() as int + 1) =~= v);
}

/// In the Metadata section, `Title:v` sets the chart's `song_name` to `v`,
/// everything after the first colon, and leaves every other field as it was.
pub proof fn lemma_metadata_title_line(st: ParserView, v: Seq<u8>)
    requires
        st.section == Some(seq![77u8, 101, 116, 97, 100, 97, 116, 97]),
    ensures
        parse_line_spec(st, seq![84u8, 105, 116, 108, 101, 58] + v) == Ok::<ParserView, ParseError>(
            ParserView { section: st.section, chart: IncompleteChartView { song_name: Some(v), ..st.chart } },
        ),
{
    lemma_key_value_line(seq![84u8, 105, 116, 108, 101], v);
    assert(seq![84u8, 105, 116, 108, 101] + seq![58u8] + v =~= seq![84u8, 105, 116, 108, 101, 58] + v);
}

/// In the Metadata section, `TitleUnicode:v` sets the chart's `song_name_unicode` to `v`,
/// everything after the first colon, and leaves every other field as it was.
pub proof fn lemma_metadata_title_unicode_line(st: ParserView, v: Seq<u8>)
    requires
        st.section == Some(seq![77u8, 101, 116, 97, 100, 97, 116, 97]),
    ensures
        parse_line_spec(st, seq![84u8, 105, 116, 108, 101, 85, 110, 105, 99, 111, 100, 101, 58] + v) == Ok::<ParserView, ParseError>(
            ParserView { section: st.section, chart: IncompleteChartView { song_name_unicode: Some(v), ..st.chart } },
        ),
{
    lemma_key_value_line(seq![84u8, 105, 116, 108, 101, 85, 110, 105, 99, 111, 100, 101], v);
    assert(seq![84u8, 105, 116, 108, 101, 85, 110, 105, 99, 111, 100, 101] + seq![58u8] + v =~= seq![84u8, 105, 116, 108, 101, 85, 110, 105, 99, 111, 100, 101, 58] + v);
}

/// In the Metadata section, `Artist:v` sets the chart's `artist` to `v`,
/// everything after the first colon, and leaves every other field as it was.
pub proof fn lemma_metadata_artist_line(st: ParserView, v: Seq<u8>)
    requires
        st.section == Some(seq![77u8, 101, 116, 97, 100, 97, 116, 97]),
    ensures
        parse_line_spec(st, seq![65u8, 114, 116, 105, 115, 116, 58] + v) == Ok::<ParserView, ParseError>(
            ParserView { section: st.section, chart: IncompleteChartView { artist: Some(v), ..st.chart } },
        ),
{
    lemma_key_value_line(seq![65u8, 114, 116, 105, 115, 116], v);
    assert(seq![65u8, 114, 116, 105, 115, 116] + seq![58u8] + v =~= seq![65u8, 114, 116, 105, 115, 116, 58] + v);
}

/// In the Metadata section, `ArtistUnicode:v` sets the chart's `artist_unicode` to `v`,
/// everything after the first colon, and leaves every other field as it was.
pub proof fn lemma_metadata_artist_unicode_line(st: ParserView, v: Seq<u8>)
    requires
        st.section == Some(seq![77u8, 101, 116, 97, 100, 97, 116, 97]),
    ensures
        parse_line_spec(st, seq![65u8, 114, 116, 105, 115, 116, 85, 110, 105, 99, 111, 100, 101, 58] + v) == Ok::<ParserView, ParseError>(
            ParserView { section: st.section, chart: IncompleteChartView { artist_unicode: Some(v), ..st.chart } },
        ),
{
    lemma_key_value_line(seq![65u8, 114, 116, 105, 115, 116, 85, 110, 105, 99, 111, 100, 101], v);
    assert(seq![65u8, 114, 116, 105, 115, 116, 85, 110, 105, 99, 111, 100, 101] + seq![58u8] + v =~= seq![65u8, 114, 116, 105, 115, 116, 85, 110, 105, 99, 111, 100, 101, 58] + v);
}

/// In the Metadata section, `Creator:v` sets the chart's `creator` to `v`,
/// everything after the first colon, and leaves every other field as it was.
pub proof fn lemma_metadata_creator_line(st: ParserView, v: Seq<u8>)
    requires
        st.section == Some(seq![77u8, 101, 116, 97, 100, 97, 116, 97]),
    ensures
        parse_line_spec(st, seq![67u8, 114, 101, 97, 116, 111, 114, 58] + v) == Ok::<ParserView, ParseError>(
            ParserView { section: st.section, chart: IncompleteChartView { creator: Some(v), ..st.chart } },
        ),
{
    lemma_key_value_line(seq![67u8, 114, 101, 97, 116, 111, 114], v);
    assert(seq![67u8, 114, 101, 97, 116, 111, 114] + seq![58u8] + v =~= seq![67u8, 114, 101, 97, 116, 111, 114, 58] + v);
}

/// In the Metadata section, `Version:v` sets the chart's `difficulty_name` to `v`,
/// everything after the first colon, and leaves every other field as it was.
pub proof fn lemma_metadata_version_line(st: ParserView, v: Seq<u8>)
    requires
        st.section == Some(seq![77u8, 101, 116, 97, 100, 97, 116, 97]),
    ensures
        parse_line_spec(st, seq![86u8, 101, 114, 115, 105, 111, 110, 58] + v) == Ok::<ParserView, ParseError>(
            ParserView { section: st.section, chart: IncompleteChartView { difficulty_name: Some(v), ..st.chart } },
        ),
{
    lemma_key_value_line(seq![86u8, 101, 114, 115, 105, 111, 110], v);
    assert(seq![86u8, 101, 114, 115, 105, 111, 110] + seq![58u8] + v =~= seq![86u8, 101, 114, 115, 105, 111, 110, 58] + v);
}

/// In the General section, `AudioFilename: v` names the music file `v` (what
/// follows the colon and one more byte) and changes nothing else.
pub proof fn lemma_general_audio_line(st: ParserView, v: Seq<u8>)
    requires
        st.section == Some(seq![71u8, 101, 110, 101, 114, 97, 108]),
    ensures
        parse_line_spec(st, seq![65u8, 117, 100, 105, 111, 70, 105, 108, 101, 110, 97, 109, 101, 58, 32] + v) == Ok::<ParserView, ParseError>(
            ParserView { section: st.section, chart: IncompleteChartView { music_path: Some(v), ..st.chart } },
        ),
{
    let key = seq![65u8, 117, 100, 105, 111, 70, 105, 108, 101, 110, 97, 109, 101];
    lemma_key_value_line(key, seq![32u8] + v);
    assert(key + seq![58u8] + (seq![32u8] + v) =~= seq![65u8, 117, 100, 105, 111, 70, 105, 108, 101, 110, 97, 109, 101, 58, 32] + v);
    assert((seq![32u8] + v).skip(1) =~= v);
    assert((key + seq![58u8] + (seq![32u8] + v)).skip(key.len() as int + 2) =~= v);
}

/// In the General section, `Mode: v` refuses the chart unless `v` is `3`
/// (osu!mania), and changes nothing otherwise.
pub proof fn lemma_general_mode_line(st: ParserView, v: Seq<u8>)
    requires
        st.section == Some(seq![71u8, 101, 110, 101, 114, 97, 108]),
    ensures
        parse_line_spec(st, seq![77u8, 111, 100, 101, 58, 32] + v) == if v == seq![51u8] {
            Ok::<ParserView, ParseError>(st)
        } else {
            Err::<ParserView, ParseError>(ParseError::Parse(ParseContext::WrongGameMode, None))
        },
{
    let key = seq![77u8, 111, 100, 101];
    lemma_key_value_line(key, seq![32u8] + v);
    assert(key + seq![58u8] + (seq![32u8] + v) =~= seq![77u8, 111, 100, 101, 58, 32] + v);
    assert((key + seq![58u8] + (seq![32u8] + v)).skip(key.len() as int + 2) =~= v);
}

/// In the Difficulty section, `CircleSize:v` refuses the chart unless `v` is
/// `7` (seven keys), and changes nothing otherwise.
pub proof fn lemma_difficulty_keys_line(st: ParserView, v: Seq<u8>)
    requires
        st.section == Some(seq![68u8, 105, 102, 102, 105, 99, 117, 108, 116, 121]),
    ensures
        parse_line_spec(st, seq![67u8, 105, 114, 99, 108, 101, 83, 105, 122, 101, 58] + v) == if v == seq![55u8] {
            Ok::<ParserView, ParseError>(st)
        } else {
            Err::<ParserView, ParseError>(ParseError::Parse(ParseContext::NotSevenKey, None))
        },
{
    let key = seq![67u8, 105, 114, 99, 108, 101, 83, 105, 122, 101];
    lemma_key_value_line(key, v);
    assert(key + seq![58u8] + v =~= seq![67u8, 105, 114, 99, 108, 101, 83, 105, 122, 101, 58] + v);
}

/// In the Metadata section, a `key:value` line whose key is none of those
/// read changes nothing.
pub proof fn lemma_other_metadata_lines(st: ParserView, key: Seq<u8>, v: Seq<u8>)
    requires
        st.section == Some(seq![77u8, 101, 116, 97, 100, 97, 116, 97]),
        key.len() > 0,
        key[0] != 91,
        forall|i: int| 0 <= i < key.len() ==> key[i] != 58,
        key != seq![84u8, 105, 116, 108, 101] && key != seq![84u8, 105, 116, 108, 101, 85, 110, 105, 99, 111, 100, 101] && key != seq![65u8, 114, 116, 105, 115, 116] && key != seq![65u8, 114, 116, 105, 115, 116, 85, 110, 105, 99, 111, 100, 101] && key != seq![67u8, 114, 101, 97, 116, 111, 114] && key != seq![86u8, 101, 114, 115, 105, 111, 110],
    ensures
        parse_line_spec(st, key + seq![58u8] + v) == Ok::<ParserView, ParseError>(st),
{
    lemma_key_value_line(key, v);
}

impl OsuParser {
    pub fn new() -> (r: OsuParser)
        ensures
            r@.section is None,
            r@.chart.hit_objects.len() == 0,
            r@.chart.timing_points.len() == 0,
            r@.chart.creator is None,
            r@.chart.artist is None,
            r@.chart.artist_unicode is None,
            r@.chart.song_name is None,
            r@.chart.song_name_unicode is None,
            r@.chart.difficulty_name is None,
            r@.chart.music_path is None,
    {
        OsuParser { current_section: None, chart: IncompleteChart::new() }
    }

    /// Reads one (trimmed) line of the chart.
    pub fn parse_line(&mut self, line: &[u8]) -> (r: Result<(), ParseError>)
        requires
            !line_panics(old(self)@, line@),
        ensures
            match parse_line_spec(old(self)@, line@) {
                Ok(st) => r is Ok && final(self)@ == st,
                Err(e) => r == Err::<(), ParseError>(e) && final(self)@ == old(self)@,
            },
    {
        if line.len() == 0 {
            return Ok(());
        }
        if line[0] == 91 {
            let name = parse_section(line);
            self.current_section = Some(name);
            return Ok(());
        }
        match &self.current_section {
            None => Err(ParseError::InvalidFile),
            Some(s) => {
                let s = s.as_slice();
                if is_general(s) {
                    parse_general(line, &mut self.chart)
                } else if is_difficulty(s) {
                    parse_difficulty(line)
                } else if is_metadata(s) {
                    parse_metadata(line, &mut self.chart)
                } else if is_timing_points(s) {
                    let t = parse_timing_point_line(line)?;
                    self.chart.timing_points.push(t);
                    Ok(())
                } else if is_hit_objects(s) {
                    let h = parse_hit_object_line(line)?;
                    let ghost before = self.chart.hit_objects@;
                    self.chart.hit_objects.push(h);
                    assert(hit_object_views(self.chart.hit_objects@) =~= hit_object_views(before).push(h@));
                    Ok(())
                } else {
                    Ok(())
                }
            },
        }
    }
}

// ---------------------------------------------------------------------------
// Reading a whole file
// ---------------------------------------------------------------------------

/// How far reading the lines of a chart got.
pub enum LineRun {
    /// Every line so far was read.
    Running(ParserView),
    /// A line was refused, with the error that names its line number.
    Stopped(ParseError),
    /// A line panics.
    Panicked,
}

/// Reads lines `1..k` of the file (line 0 is the header), each trimmed.
pub open spec fn run_lines(lines: Seq<Seq<u8>>, start: ParserView, k: int) -> LineRun
    decreases k,
{
    if k <= 1 {
        LineRun::Running(start)
    } else {
        match run_lines(lines, start, k - 1) {
            LineRun::Running(st) => {
                let t = trim_seq(lines[k - 1]);
                if line_panics(st, t) {
                    LineRun::Panicked
                } else {
                    match parse_line_spec(st, t) {
                        Ok(st2) => LineRun::Running(st2),
                        Err(e) => LineRun::Stopped(
                            ParseError::Parse(ParseContext::Line((k) as usize), Some(Box::new(e))),
                        ),
                    }
                }
            },
            other => other,
        }
    }
}

pub open spec fn empty_parser() -> ParserView {
    ParserView {
        section: None,
        chart: IncompleteChartView {
            hit_objects: Seq::empty(),
            timing_points: Seq::empty(),
            creator: None,
            artist: None,
            artist_unicode: None,
            song_name: None,
            song_name_unicode: None,
            difficulty_name: None,
            music_path: None,
        },
    }
}

/// The file format version the header line names: `None` when the line does
/// not start with `osu file format v`.
pub open spec fn header_version(line: Seq<u8>) -> Option<Option<int>> {
    if line.len() >= 17 && line.take(17) == lit_header() {
        Some(parse_i32_spec(line.skip(17)))
    } else {
        None
    }
}

/// Whether reading the file panics.
pub open spec fn chart_panics(lines: Seq<Seq<u8>>) -> bool {
    &&& lines.len() > 0
    &&& (header_version(lines[0]) matches Some(Some(_)))
    &&& run_lines(lines, empty_parser(), lines.len() as int) is Panicked
}

pub(crate) enum RunOutcome {
    Done(OsuParser),
    Failed(ParseError),
    Panics,
}

/// Reads lines `1..` of the file.
pub(crate) fn run_all_lines(lines: &Vec<Vec<u8>>) -> (r: RunOutcome)
    requires
        lines.len() >= 1,
    ensures
        match r {
            RunOutcome::Done(p) => run_lines(seq_views(lines@), empty_parser(), lines.len() as int)
                == LineRun::Running(p@),
            RunOutcome::Failed(e) => run_lines(seq_views(lines@), empty_parser(), lines.len() as int)
                == LineRun::Stopped(e),
            RunOutcome::Panics => run_lines(seq_views(lines@), empty_parser(), lines.len() as int)
                is Panicked,
        },
{
    let ghost ls = seq_views(lines@);
    let mut parser = OsuParser::new();
    assert(parser@ == empty_parser()) by {
        assert(parser@.chart.hit_objects =~= Seq::<HitObjectView>::empty());
        assert(parser@.chart.timing_points =~= Seq::<OsuTimingPoint>::empty());
    }
    let mut i: usize = 1;
    while i < lines.len()
        invariant
            1 <= i <= lines.len(),
            ls == seq_views(lines@),
            run_lines(ls, empty_parser(), i as int) == LineRun::Running(parser@),
        decreases lines.len() - i,
    {
        let t = trim(lines[i].as_slice());
        assert(lines@[i as int]@ == ls[i as int]);
        if line_would_panic(&parser, t.as_slice()) {
            proof {
                lemma_run_lines_sticks(ls, empty_parser(), i + 1, lines.len() as int);
            }
            return RunOutcome::Panics;
        }
        match parser.parse_line(t.as_slice()) {
            Ok(()) => {},
            Err(e) => {
                proof {
                    lemma_run_lines_sticks(ls, empty_parser(), i + 1, lines.len() as int);
                }
                return RunOutcome::Failed(
                    ParseError::Parse(ParseContext::Line(i + 1), Some(Box::new(e))),
                );
            },
        }
        i = i + 1;
    }
    RunOutcome::Done(parser)
}

/// Once a line is refused (or would panic), reading more lines changes
/// nothing: the outcome is that of the first such line.
pub proof fn lemma_run_lines_sticks(lines: Seq<Seq<u8>>, start: ParserView, k: int, m: int)
    requires
        1 <= k <= m,
        !(run_lines(lines, start, k) is Running),
    ensures
        run_lines(lines, start, m) == run_lines(lines, start, k),
    decreases m - k,
{
    if k < m {
        lemma_run_lines_sticks(lines, start, k + 1, m);
    }
}

fn line_would_panic(st: &OsuParser, line: &[u8]) -> (r: bool)
    ensures
        r == line_panics(st@, line@),
{
    if line.len() == 0 {
        return false;
    }
    if !boundary(line, 1) {
        return true;
    }
    if line[0] == 91 {
        return line.len() < 2 || !boundary(line, line.len() - 1);
    }
    let in_general = match &st.current_section {
        Some(s) => is_general(s.as_slice()),
        None => false,
    };
    if !in_general {
        return false;
    }
    match find(line, 58) {
        Some(n) => {
            assert(is_first_index(line@, 58, n as int));
            let len = line.len();
            !(n < len - 1 && boundary(line, n + 2))
        },
        None => false,
    }
}

proof fn lemma_apply_extras_none_stays(sounds: Seq<HitSoundView>, items: Seq<Seq<u8>>, k: nat, m: nat)
    requires
        k <= m,
        apply_extras(sounds, items, k) is None,
    ensures
        apply_extras(sounds, items, m) is None,
    decreases m - k,
{
    if k < m {
        lemma_apply_extras_none_stays(sounds, items, k + 1, m);
    }
}

} // verus!
