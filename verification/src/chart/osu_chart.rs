//! The osu chart a whole `.osu` file describes: its notes with their resolved
//! hit sounds, its timing points and the tempo it is mostly played at.

use vstd::prelude::*;

use crate::chart::osu::{
    chart_panics, empty_parser, header_version, lit_general, lit_metadata, lit_unnamed, opt_bytes,
    parse_general_spec, parse_line_spec, parse_metadata_spec, run_all_lines, run_lines,
    sound_views, unnamed, verify, HitObject, HitObjectView, HitSound, HitSoundSource,
    HitSoundSourceView, HitSoundView, IncompleteChart, IncompleteChartView, LineRun,
    OsuTimingPoint, ParserView, RunOutcome, SampleHitSound, SampleHitSoundSound, SampleSet,
};
use crate::chart::{
    timing_value_fraction, Note, ParseContext, ParseError, TimingPoint, TimingPointValue,
};
use crate::config::SkinEntry;
use crate::text::{
    bytes_eq, concat_bytes, decimal, decimal_bytes, seq_views, slice_to_vec, trim_seq,
};

verus! {

// ---------------------------------------------------------------------------
// First appearances
// ---------------------------------------------------------------------------

/// The distinct values of `s` in the order they first appear.
pub open spec fn distinct<A>(s: Seq<A>) -> Seq<A>
    decreases s.len(),
{
    if s.len() == 0 {
        Seq::empty()
    } else {
        let r = distinct(s.drop_last());
        if r.contains(s.last()) {
            r
        } else {
            r.push(s.last())
        }
    }
}

/// `distinct` holds each value of `s` once, and no other value.
pub proof fn lemma_distinct<A>(s: Seq<A>)
    ensures
        distinct(s).no_duplicates(),
        forall|x: A| distinct(s).contains(x) <==> s.contains(x),
    decreases s.len(),
{
    if s.len() > 0 {
        let dl = s.drop_last();
        lemma_distinct(dl);
        let r = distinct(dl);
        if r.contains(s.last()) {
            assert(distinct(s) == r);
        } else {
            assert(distinct(s) == r.push(s.last()));
        }
        assert forall|x: A| distinct(s).contains(x) <==> s.contains(x) by {
            if s.contains(x) {
                let i = choose|i: int| 0 <= i < s.len() && s[i] == x;
                if i < s.len() - 1 {
                    assert(dl[i] == x);
                    assert(dl.contains(x));
                    assert(r.contains(x));
                    let j = choose|j: int| 0 <= j < r.len() && r[j] == x;
                    assert(distinct(s)[j] == x);
                } else if r.contains(x) {
                    assert(distinct(s) == r);
                } else {
                    assert(distinct(s)[r.len() as int] == x);
                }
            }
            if distinct(s).contains(x) {
                let j = choose|j: int| 0 <= j < distinct(s).len() && distinct(s)[j] == x;
                if j < r.len() {
                    assert(r[j] == x);
                    assert(r.contains(x));
                    assert(dl.contains(x));
                    let i = choose|i: int| 0 <= i < dl.len() && dl[i] == x;
                    assert(s[i] == x);
                } else {
                    assert(s[s.len() - 1] == x);
                }
            }
        }
    }
}

// ---------------------------------------------------------------------------
// Hit sounds that inherit from timing points
// ---------------------------------------------------------------------------

pub open spec fn is_first_after(tps: Seq<OsuTimingPoint>, time: int, j: int) -> bool {
    &&& 0 <= j < tps.len()
    &&& tps[j].offset > time
    &&& forall|k: int| 0 <= k < j ==> tps[k].offset <= time
}

/// The timing point a hit sound at `time` inherits from: the last one at or
/// before `time` (reading in file order until one lies after `time`), or the
/// first one when `time` comes before it; `None` without timing points.
pub open spec fn tp_inherit_index(time: int, tps: Seq<OsuTimingPoint>) -> Option<int> {
    if tps.len() == 0 {
        None
    } else if time < tps[0].offset {
        Some(0)
    } else if exists|j: int| is_first_after(tps, time, j) {
        Some((choose|j: int| is_first_after(tps, time, j)) - 1)
    } else {
        Some(tps.len() - 1)
    }
}

/// Find the timing point to inherit from.
pub fn find_tp_inherit_from(time: i64, timing_points: &Vec<OsuTimingPoint>) -> (r: Option<usize>)
    ensures
        match r {
            Some(i) => tp_inherit_index(time as int, timing_points@) == Some(i as int),
            None => tp_inherit_index(time as int, timing_points@) is None,
        },
{
    if timing_points.len() == 0 {
        return None;
    }
    if time < timing_points[0].offset {
        return Some(0);
    }
    let mut tp_index: usize = 0;
    let mut i: usize = 0;
    while i < timing_points.len()
        invariant
            i <= timing_points.len(),
            timing_points.len() > 0,
            time >= timing_points@[0].offset,
            forall|k: int| 0 <= k < i ==> timing_points@[k].offset <= time,
            i == 0 ==> tp_index == 0,
            i > 0 ==> tp_index == i - 1,
        decreases timing_points.len() - i,
    {
        if timing_points[i].offset > time {
            proof {
                let tps = timing_points@;
                assert(is_first_after(tps, time as int, i as int));
                let j = choose|j: int| is_first_after(tps, time as int, j);
                if j < i {
                    assert(tps[j].offset <= time);
                }
                if i < j {
                    assert(tps[i as int].offset <= time);
                }
            }
            return Some(tp_index);
        }
        tp_index = i;
        i = i + 1;
    }
    assert(!exists|j: int| is_first_after(timing_points@, time as int, j));
    Some(tp_index)
}

/// A hit sound with an unset sample index or sample set takes them from the
/// timing point it inherits from (index 1 and the normal set without one).
pub open spec fn resolve_sound(s: HitSoundView, time: int, tps: Seq<OsuTimingPoint>) -> HitSoundView {
    match s.source {
        HitSoundSourceView::SampleSet(shs) => {
            let tp = tp_inherit_index(time, tps);
            let index = if shs.index == 0 {
                match tp {
                    Some(i) => tps[i].sample_index,
                    None => 1u32,
                }
            } else {
                shs.index
            };
            let set = if shs.set == SampleSet::Auto {
                match tp {
                    Some(i) => tps[i].sample_set,
                    None => SampleSet::Normal,
                }
            } else {
                shs.set
            };
            HitSoundView {
                source: HitSoundSourceView::SampleSet(
                    SampleHitSound { set: set, sound: shs.sound, index: index },
                ),
                volume: s.volume,
            }
        },
        HitSoundSourceView::File(_) => s,
    }
}

pub open spec fn resolved_sounds(h: HitObjectView, tps: Seq<OsuTimingPoint>) -> Seq<HitSoundView> {
    h.sounds.map_values(|s| resolve_sound(s, h.time, tps))
}

/// Figures out which timing point the hit sound inherits from, if any.
pub fn resolve_tp_inherit(s: &HitSound, time: i64, timing_points: &Vec<OsuTimingPoint>) -> (r: HitSound)
    ensures
        r@ == resolve_sound(s@, time as int, timing_points@),
{
    match &s.source {
        HitSoundSource::SampleSet(shs) => {
            let tp = find_tp_inherit_from(time, timing_points);
            let index = if shs.index == 0 {
                match tp {
                    Some(i) => timing_points[i].sample_index,
                    None => 1,
                }
            } else {
                shs.index
            };
            let set = if shs.set == SampleSet::Auto {
                match tp {
                    Some(i) => timing_points[i].sample_set,
                    None => SampleSet::Normal,
                }
            } else {
                shs.set
            };
            HitSound {
                source: HitSoundSource::SampleSet(
                    SampleHitSound { set: set, sound: shs.sound, index: index },
                ),
                volume: s.volume,
            }
        },
        HitSoundSource::File(p) => {
            let c = slice_to_vec(p.as_slice(), 0, p.len());
            assert(p@.subrange(0, p.len() as int) =~= p@);
            HitSound { source: HitSoundSource::File(c), volume: s.volume }
        },
    }
}

fn resolve_all(h: &HitObject, timing_points: &Vec<OsuTimingPoint>) -> (r: Vec<HitSound>)
    ensures
        sound_views(r@) == resolved_sounds(h@, timing_points@),
{
    let mut r: Vec<HitSound> = Vec::new();
    let mut i: usize = 0;
    while i < h.sounds.len()
        invariant
            i <= h.sounds.len(),
            sound_views(r@) == sound_views(h.sounds@.take(i as int)).map_values(
                |s| resolve_sound(s, h.time as int, timing_points@),
            ),
        decreases h.sounds.len() - i,
    {
        let x = resolve_tp_inherit(&h.sounds[i], h.time, timing_points);
        let ghost before = r@;
        r.push(x);
        i = i + 1;
        proof {
            assert(sound_views(r@) =~= sound_views(before).push(x@));
            assert(h.sounds@.take(i as int) =~= h.sounds@.take(i - 1).push(h.sounds@[i - 1]));
            assert(sound_views(h.sounds@.take(i as int)) =~= sound_views(h.sounds@.take(i - 1)).push(
                h.sounds@[i - 1]@,
            ));
        }
        assert(sound_views(r@) =~= sound_views(h.sounds@.take(i as int)).map_values(
            |s| resolve_sound(s, h.time as int, timing_points@),
        ));
    }
    assert(h.sounds@.take(i as int) =~= h.sounds@);
    r
}

fn hit_sound_eq(a: &HitSound, b: &HitSound) -> (r: bool)
    ensures
        r == (a@ == b@),
{
    if a.volume != b.volume {
        return false;
    }
    match (&a.source, &b.source) {
        (HitSoundSource::SampleSet(x), HitSoundSource::SampleSet(y)) => *x == *y,
        (HitSoundSource::File(p), HitSoundSource::File(q)) => bytes_eq(p.as_slice(), q.as_slice()),
        _ => false,
    }
}

fn hit_sounds_eq(a: &Vec<HitSound>, b: &Vec<HitSound>) -> (r: bool)
    ensures
        r == (sound_views(a@) == sound_views(b@)),
{
    if a.len() != b.len() {
        assert(sound_views(a@).len() != sound_views(b@).len());
        return false;
    }
    let mut i: usize = 0;
    while i < a.len()
        invariant
            i <= a.len() == b.len(),
            forall|k: int| 0 <= k < i ==> a@[k]@ == b@[k]@,
        decreases a.len() - i,
    {
        if !hit_sound_eq(&a[i], &b[i]) {
            assert(sound_views(a@)[i as int] != sound_views(b@)[i as int]);
            return false;
        }
        i = i + 1;
    }
    assert(sound_views(a@) =~= sound_views(b@));
    true
}

pub open spec fn sound_table_views(v: Seq<Vec<HitSound>>) -> Seq<Seq<HitSoundView>> {
    v.map_values(|x: Vec<HitSound>| sound_views(x@))
}

fn table_index(table: &Vec<Vec<HitSound>>, sounds: &Vec<HitSound>) -> (r: Option<usize>)
    ensures
        match r {
            Some(j) => j < table.len() && sound_table_views(table@)[j as int] == sound_views(sounds@),
            None => !sound_table_views(table@).contains(sound_views(sounds@)),
        },
{
    let mut j: usize = 0;
    while j < table.len()
        invariant
            j <= table.len(),
            forall|k: int| 0 <= k < j ==> sound_table_views(table@)[k] != sound_views(sounds@),
        decreases table.len() - j,
    {
        if hit_sounds_eq(&table[j], sounds) {
            return Some(j);
        }
        j = j + 1;
    }
    None
}

// ---------------------------------------------------------------------------
// The chart's main tempo
// ---------------------------------------------------------------------------

pub open spec fn beat_of(t: TimingPoint) -> u64 {
    match t.value {
        TimingPointValue::BPM(b) => b,
        TimingPointValue::SV(b) => b,
    }
}

/// The tempo changes taken into account for the main tempo: the BPM timing
/// points in file order, up to the first one that is not before the last note
/// (`.1` says whether that one was met).
pub open spec fn scan_bpm(tps: Seq<TimingPoint>, last: int) -> (Seq<TimingPoint>, bool)
    decreases tps.len(),
{
    if tps.len() == 0 {
        (Seq::empty(), false)
    } else {
        let (p, stop) = scan_bpm(tps.drop_last(), last);
        let t = tps.last();
        if stop || !(t.value is BPM) {
            (p, stop)
        } else if (t.offset as int) < last {
            (p.push(t), false)
        } else {
            (p, true)
        }
    }
}

/// How long the tempo of `p[k]` lasts: until the next tempo change, or the last
/// note.
pub open spec fn section_len(p: Seq<TimingPoint>, last: int, k: int) -> int {
    (if k + 1 < p.len() {
        p[k + 1].offset as int
    } else {
        last
    }) - p[k].offset
}

pub open spec fn lengths_for(p: Seq<TimingPoint>, last: int, b: u64, k: nat) -> int
    decreases k,
{
    if k == 0 {
        0
    } else {
        lengths_for(p, last, b, (k - 1) as nat) + if beat_of(p[k - 1]) == b {
            section_len(p, last, k - 1)
        } else {
            0
        }
    }
}

/// How long the song is at the tempo with beat length `b`, counting the time
/// before the first tempo change as part of the first tempo, over the first `k`
/// tempo changes.
pub open spec fn bpm_total(p: Seq<TimingPoint>, last: int, b: u64, k: nat) -> int {
    (if beat_of(p[0]) == b {
        p[0].offset as int
    } else {
        0
    }) + lengths_for(p, last, b, k)
}

/// `t[i]` is the last of the largest values of `t`.
pub open spec fn is_last_max(t: Seq<int>, i: int) -> bool {
    &&& 0 <= i < t.len()
    &&& forall|j: int| 0 <= j < t.len() ==> t[j] <= t[i]
    &&& forall|j: int| i < j < t.len() ==> t[j] < t[i]
}

/// The beat length of 150 BPM, used when there is no tempo to go by.
pub open spec fn default_beat() -> u64 {
    400_000_000
}

/// The beat length of the tempo the song is at for the longest time before its
/// last note (the last such tempo on a tie), or that of 150 BPM when no tempo
/// change comes before the last note.
pub open spec fn primary_beat(tps: Seq<TimingPoint>, last: int) -> u64 {
    let p = scan_bpm(tps, last).0;
    if p.len() == 0 {
        default_beat()
    } else {
        let c = distinct(p.map_values(|t: TimingPoint| beat_of(t)));
        let totals = c.map_values(|b: u64| bpm_total(p, last, b, p.len()));
        c[choose|i: int| is_last_max(totals, i)]
    }
}

proof fn lemma_last_max_unique(t: Seq<int>, i: int)
    requires
        is_last_max(t, i),
    ensures
        (choose|k: int| is_last_max(t, k)) == i,
{
    let k = choose|k: int| is_last_max(t, k);
    assert(is_last_max(t, k));
    if k < i {
        assert(t[i] < t[k]);
    }
    if i < k {
        assert(t[k] < t[i]);
    }
}

proof fn lemma_lengths_absent(p: Seq<TimingPoint>, last: int, b: u64, k: nat)
    requires
        k <= p.len(),
        !p.take(k as int).map_values(|t: TimingPoint| beat_of(t)).contains(b),
    ensures
        lengths_for(p, last, b, k) == 0,
    decreases k,
{
    if k > 0 {
        let s = p.take(k as int).map_values(|t: TimingPoint| beat_of(t));
        let s2 = p.take(k - 1).map_values(|t: TimingPoint| beat_of(t));
        assert(s2 =~= s.drop_last());
        if beat_of(p[k - 1]) == b {
            assert(s[k - 1] == b);
        }
        if s2.contains(b) {
            let i = choose|i: int| 0 <= i < s2.len() && s2[i] == b;
            assert(s[i] == b);
        }
        lemma_lengths_absent(p, last, b, (k - 1) as nat);
    }
}

fn scan_bpm_points(tps: &Vec<TimingPoint>, last: i64) -> (r: Vec<TimingPoint>)
    ensures
        r@ == scan_bpm(tps@, last as int).0,
{
    let mut p: Vec<TimingPoint> = Vec::new();
    let mut i: usize = 0;
    while i < tps.len()
        invariant
            i <= tps.len(),
            scan_bpm(tps@.take(i as int), last as int) == (p@, false),
        decreases tps.len() - i,
    {
        assert(tps@.take(i + 1).drop_last() =~= tps@.take(i as int));
        let t = tps[i];
        if t.is_bpm() {
            if t.offset < last {
                p.push(t);
            } else {
                proof {
                    lemma_scan_stops(tps@, last as int, i + 1);
                }
                return p;
            }
        }
        i = i + 1;
    }
    assert(tps@.take(i as int) =~= tps@);
    p
}

proof fn lemma_scan_stops(tps: Seq<TimingPoint>, last: int, k: int)
    requires
        0 <= k <= tps.len(),
        scan_bpm(tps.take(k), last).1,
    ensures
        scan_bpm(tps, last) == scan_bpm(tps.take(k), last),
    decreases tps.len() - k,
{
    if k < tps.len() {
        assert(tps.take(k + 1).drop_last() =~= tps.take(k));
        lemma_scan_stops(tps, last, k + 1);
    } else {
        assert(tps.take(k) =~= tps);
    }
}

/// The beat length of the chart's main tempo (see `primary_beat`).
#[verifier::loop_isolation(false)]
pub fn find_primary_beat(tps: &Vec<TimingPoint>, last: i64) -> (r: u64)
    requires
        tps.len() < 0x4000_0000_0000_0000,
    ensures
        r == primary_beat(tps@, last as int),
{
    let p = scan_bpm_points(tps, last);
    proof {
        lemma_scan_len(tps@, last as int);
    }
    if p.len() == 0 {
        return 400_000_000;
    }
    let ghost pv = p@;
    let ghost beats = pv.map_values(|t: TimingPoint| beat_of(t));
    let m = p.len();
    // section lengths
    let first_len: i128 = if 1 < m {
        p[1].offset as i128 - p[0].offset as i128
    } else {
        last as i128 - p[0].offset as i128
    };
    let b0 = beat_value(&p[0]);
    let mut sums: Vec<(u64, i128)> = Vec::new();
    sums.push((b0, p[0].offset as i128 + first_len));
    proof {
        reveal_with_fuel(lengths_for, 2);
        assert(beats.take(1) =~= seq![beats[0]]);
        assert(beats.take(1).drop_last() =~= Seq::<u64>::empty());
        assert(distinct(beats.take(1).drop_last()) =~= Seq::<u64>::empty());
        assert(beats[0] == b0);
        assert(distinct(beats.take(1)) =~= seq![b0]);
    }
    let mut k: usize = 1;
    while k < m
        invariant
            1 <= k <= m,
            m == pv.len(),
            p@ == pv,
            pv.len() < 0x4000_0000_0000_0000,
            sums@.map_values(|x: (u64, i128)| x.0) == distinct(beats.take(k as int)),
            forall|g: int|
                0 <= g < sums@.len() ==> #[trigger] sums@[g].1 as int == bpm_total(
                    pv,
                    last as int,
                    sums@[g].0,
                    k as nat,
                ),
            forall|g: int|
                0 <= g < sums@.len() ==> -(k + 1) * 0x1_0000_0000_0000_0000 <= #[trigger] sums@[g].1
                    <= (k + 1) * 0x1_0000_0000_0000_0000,
        decreases m - k,
    {
        let len: i128 = if k + 1 < m {
            p[k + 1].offset as i128 - p[k].offset as i128
        } else {
            last as i128 - p[k].offset as i128
        };
        assert(len == section_len(pv, last as int, k as int));
        let b = beat_value(&p[k]);
        assert(beats[k as int] == b);
        assert(beats.take(k + 1).drop_last() =~= beats.take(k as int));
        let ghost old_sums = sums@;
        let mut g: usize = 0;
        #[verifier::loop_isolation(true)]
        while g < sums.len() && sums[g].0 != b
            invariant
                g <= sums.len(),
                sums@ == old_sums,
                forall|h: int| 0 <= h < g ==> sums@[h].0 != b,
            decreases sums.len() - g,
        {
            g = g + 1;
        }
        let found = g < sums.len();
        if found {
            let (gb, gs) = sums[g];
            sums.set(g, (gb, gs + len));
            proof {
                assert(old_sums.map_values(|x: (u64, i128)| x.0)[g as int] == b);
                assert(distinct(beats.take(k as int)).contains(b));
                assert(sums@.map_values(|x: (u64, i128)| x.0) =~= old_sums.map_values(
                    |x: (u64, i128)| x.0,
                ));
                lemma_distinct(beats.take(k as int));
                assert forall|h: int| 0 <= h < sums@.len() implies #[trigger] sums@[h].1 as int
                    == bpm_total(pv, last as int, sums@[h].0, (k + 1) as nat) by {
                    assert(old_sums.map_values(|x: (u64, i128)| x.0)[h] == old_sums[h].0);
                    assert(old_sums[h].1 as int == bpm_total(pv, last as int, old_sums[h].0, k as nat));
                }
            }
        } else {
            sums.push((b, len));
            proof {
                assert(!distinct(beats.take(k as int)).contains(b)) by {
                    if distinct(beats.take(k as int)).contains(b) {
                        let h = choose|h: int|
                            0 <= h < distinct(beats.take(k as int)).len() && distinct(
                                beats.take(k as int),
                            )[h] == b;
                        assert(old_sums.map_values(|x: (u64, i128)| x.0)[h] == b);
                    }
                }
                lemma_distinct(beats.take(k as int));
                assert(!beats.take(k as int).contains(b));
                assert(pv.take(k as int).map_values(|t: TimingPoint| beat_of(t)) =~= beats.take(
                    k as int,
                ));
                lemma_lengths_absent(pv, last as int, b, k as nat);
                if beat_of(pv[0]) == b {
                    assert(beats.take(k as int)[0] == b);
                }
                assert(sums@.map_values(|x: (u64, i128)| x.0) =~= old_sums.map_values(
                    |x: (u64, i128)| x.0,
                ).push(b));
                assert forall|h: int| 0 <= h < sums@.len() implies #[trigger] sums@[h].1 as int
                    == bpm_total(pv, last as int, sums@[h].0, (k + 1) as nat) by {
                    if h < old_sums.len() {
                        assert(old_sums[h].1 as int == bpm_total(pv, last as int, old_sums[h].0, k as nat));
                    }
                }
            }
        }
        k = k + 1;
    }
    assert(beats.take(m as int) =~= beats);
    let ghost c = distinct(beats);
    let ghost totals = c.map_values(|b: u64| bpm_total(pv, last as int, b, m as nat));
    let mut best: usize = 0;
    let mut g: usize = 1;
    while g < sums.len()
        invariant
            1 <= g <= sums.len(),
            best < g,
            sums@.map_values(|x: (u64, i128)| x.0) == c,
            totals.len() == c.len(),
            forall|h: int| 0 <= h < sums@.len() ==> #[trigger] sums@[h].1 as int == totals[h],
            is_last_max(totals.take(g as int), best as int),
        decreases sums.len() - g,
    {
        if sums[g].1 >= sums[best].1 {
            best = g;
        }
        g = g + 1;
    }
    proof {
        assert(totals.take(g as int) =~= totals);
        lemma_last_max_unique(totals, best as int);
    }
    sums[best].0
}

fn beat_value(t: &TimingPoint) -> (r: u64)
    ensures
        r == beat_of(*t),
{
    match t.value {
        TimingPointValue::BPM(b) => b,
        TimingPointValue::SV(b) => b,
    }
}

proof fn lemma_scan_len(tps: Seq<TimingPoint>, last: int)
    ensures
        scan_bpm(tps, last).0.len() <= tps.len(),
    decreases tps.len(),
{
    if tps.len() > 0 {
        lemma_scan_len(tps.drop_last(), last);
    }
}

// ---------------------------------------------------------------------------
// The finished chart
// ---------------------------------------------------------------------------

/// A chart read from a `.osu` file.
pub struct OsuChart {
    /// The file format version the header names.
    pub format_version: i32,
    pub notes: Vec<Note>,
    pub timing_points: Vec<TimingPoint>,
    /// The beat length of the main tempo, in millionths of a millisecond.
    pub primary_beat: u64,
    pub creator: Option<Vec<u8>>,
    pub artist: Option<Vec<u8>>,
    pub artist_unicode: Option<Vec<u8>>,
    pub song_name: Option<Vec<u8>>,
    pub song_name_unicode: Option<Vec<u8>>,
    pub difficulty_name: Vec<u8>,
    /// The song's audio file, relative to `chart_path`.
    pub music_path: Vec<u8>,
    /// The directory the chart was read from.
    pub chart_path: Vec<u8>,
    /// The hit sounds played together when a note is hit, one entry per
    /// distinct combination; a note's `sound_index` points into it.
    pub sounds: Vec<Vec<HitSound>>,
}

pub struct OsuChartView {
    pub format_version: i32,
    pub notes: Seq<Note>,
    pub timing_points: Seq<TimingPoint>,
    pub primary_beat: u64,
    pub creator: Option<Seq<u8>>,
    pub artist: Option<Seq<u8>>,
    pub artist_unicode: Option<Seq<u8>>,
    pub song_name: Option<Seq<u8>>,
    pub song_name_unicode: Option<Seq<u8>>,
    pub difficulty_name: Seq<u8>,
    pub music_path: Seq<u8>,
    pub chart_path: Seq<u8>,
    pub sounds: Seq<Seq<HitSoundView>>,
}

impl View for OsuChart {
    type V = OsuChartView;

    open spec fn view(&self) -> OsuChartView {
        OsuChartView {
            format_version: self.format_version,
            notes: self.notes@,
            timing_points: self.timing_points@,
            primary_beat: self.primary_beat,
            creator: opt_bytes(self.creator),
            artist: opt_bytes(self.artist),
            artist_unicode: opt_bytes(self.artist_unicode),
            song_name: opt_bytes(self.song_name),
            song_name_unicode: opt_bytes(self.song_name_unicode),
            difficulty_name: self.difficulty_name@,
            music_path: self.music_path@,
            chart_path: self.chart_path@,
            sounds: sound_table_views(self.sounds@),
        }
    }
}

impl OsuChart {
    pub fn notes(&self) -> (r: &[Note])
        ensures
            r@ == self.notes@,
    {
        self.notes.as_slice()
    }

    pub fn timing_points(&self) -> (r: &[TimingPoint])
        ensures
            r@ == self.timing_points@,
    {
        self.timing_points.as_slice()
    }

    /// The tempo for most of the song, in beats per minute, as the fraction
    /// `(numerator, denominator)`.
    pub fn primary_bpm(&self) -> (r: (u64, u64))
        ensures
            (r.0 as nat, r.1 as nat) == timing_value_fraction(TimingPointValue::BPM(self.primary_beat)),
    {
        TimingPointValue::BPM(self.primary_beat).inner()
    }

    /// The creator of the chart.
    pub fn creator(&self) -> (r: Option<&[u8]>)
        ensures
            opt_slice(r) == opt_bytes(self.creator),
    {
        as_opt_slice(&self.creator)
    }

    /// The song's artist in ASCII.
    pub fn artist(&self) -> (r: Option<&[u8]>)
        ensures
            opt_slice(r) == opt_bytes(self.artist),
    {
        as_opt_slice(&self.artist)
    }

    /// The song's artist in Unicode.
    pub fn artist_unicode(&self) -> (r: Option<&[u8]>)
        ensures
            opt_slice(r) == opt_bytes(self.artist_unicode),
    {
        as_opt_slice(&self.artist_unicode)
    }

    /// The name of the song in ASCII.
    pub fn song_name(&self) -> (r: Option<&[u8]>)
        ensures
            opt_slice(r) == opt_bytes(self.song_name),
    {
        as_opt_slice(&self.song_name)
    }

    /// The name of the song in Unicode.
    pub fn song_name_unicode(&self) -> (r: Option<&[u8]>)
        ensures
            opt_slice(r) == opt_bytes(self.song_name_unicode),
    {
        as_opt_slice(&self.song_name_unicode)
    }

    pub fn difficulty_name(&self) -> (r: &[u8])
        ensures
            r@ == self.difficulty_name@,
    {
        self.difficulty_name.as_slice()
    }

    /// The hit sounds to play together for a note's `sound_index`, as files to
    /// look for; loading them is left to the caller.
    pub fn hit_sound_list(&self, i: usize) -> (r: Option<&Vec<HitSound>>)
        ensures
            match r {
                Some(v) => i < self.sounds.len() && sound_views(v@) == self@.sounds[i as int],
                None => i >= self.sounds.len(),
            },
    {
        if i < self.sounds.len() {
            Some(&self.sounds[i])
        } else {
            None
        }
    }
}

pub open spec fn opt_slice(o: Option<&[u8]>) -> Option<Seq<u8>> {
    match o {
        Some(v) => Some(v@),
        None => None,
    }
}

fn as_opt_slice(o: &Option<Vec<u8>>) -> (r: Option<&[u8]>)
    ensures
        opt_slice(r) == opt_bytes(*o),
{
    match o {
        Some(v) => Some(v.as_slice()),
        None => None,
    }
}

/// The resolved hit sounds of each hit object, in file order.
pub open spec fn all_resolved(hs: Seq<HitObjectView>, tps: Seq<OsuTimingPoint>) -> Seq<Seq<HitSoundView>> {
    hs.map_values(|h: HitObjectView| resolved_sounds(h, tps))
}

/// The chart's timing points without what only hit sounds need.
pub open spec fn chart_timing_points(tps: Seq<OsuTimingPoint>) -> Seq<TimingPoint> {
    tps.map_values(|t: OsuTimingPoint| TimingPoint { offset: t.offset, value: t.value })
}

/// When the last note of the file ends.
pub open spec fn last_note_time(hs: Seq<HitObjectView>) -> int {
    match hs.last().end_time {
        Some(e) => e,
        None => hs.last().time,
    }
}

/// `n` is the note hit object `h` becomes, pointing at its resolved hit sounds
/// `s` in the table `sounds`.
pub open spec fn is_note_of(n: Note, h: HitObjectView, sounds: Seq<Seq<HitSoundView>>, s: Seq<HitSoundView>) -> bool {
    &&& n.time as int == h.time
    &&& n.column as nat == h.column
    &&& n.end_time == (match h.end_time {
        Some(e) => Some(e as i64),
        None => None,
    })
    &&& n.sound_index matches Some(k) && k < sounds.len() && sounds[k as int] == s
}

/// Why a fully read chart cannot be finished: it has no notes, or (checked
/// after that) no audio file.
pub open spec fn finalize_error(c: IncompleteChartView) -> Option<ParseError> {
    if c.hit_objects.len() == 0 {
        Some(ParseError::Parse(ParseContext::NoNotes, None))
    } else if c.music_path is None {
        Some(ParseError::Parse(ParseContext::NoAudioFile, None))
    } else {
        None
    }
}

/// `r` is the chart finished from the fully read `c`: the hit objects become
/// the notes in file order, each pointing at its resolved hit sounds in a
/// table that holds each distinct combination once, in order of first use.
pub open spec fn is_finished_chart(c: IncompleteChartView, dir: Seq<u8>, version: i32, r: OsuChartView) -> bool {
    let res = all_resolved(c.hit_objects, c.timing_points);
    &&& r.format_version == version
    &&& r.sounds == distinct(res)
    &&& r.notes.len() == c.hit_objects.len()
    &&& forall|i: int|
        0 <= i < r.notes.len() ==> #[trigger] is_note_of(r.notes[i], c.hit_objects[i], r.sounds, res[i])
    &&& r.timing_points == chart_timing_points(c.timing_points)
    &&& r.primary_beat == primary_beat(r.timing_points, last_note_time(c.hit_objects))
    &&& r.creator == c.creator
    &&& r.artist == c.artist
    &&& r.artist_unicode == c.artist_unicode
    &&& r.song_name == c.song_name
    &&& r.song_name_unicode == c.song_name_unicode
    &&& r.difficulty_name == (match c.difficulty_name {
        Some(d) => d,
        None => lit_unnamed(),
    })
    &&& c.music_path == Some(r.music_path)
    &&& r.chart_path == dir
}

fn copy_opt_bytes(o: &Option<Vec<u8>>) -> (r: Option<Vec<u8>>)
    ensures
        opt_bytes(r) == opt_bytes(*o),
{
    match o {
        Some(v) => {
            let c = slice_to_vec(v.as_slice(), 0, v.len());
            assert(v@.subrange(0, v.len() as int) =~= v@);
            Some(c)
        },
        None => None,
    }
}

impl IncompleteChart {
    /// Turns the fully read chart into an `OsuChart`, read from the directory
    /// `chart_path`.
    pub fn finalize(&self, chart_path: &[u8], format_version: i32) -> (r: Result<OsuChart, ParseError>)
        requires
            self.timing_points.len() < 0x4000_0000_0000_0000,
        ensures
            match r {
                Ok(ch) => finalize_error(self@) is None && is_finished_chart(
                    self@,
                    chart_path@,
                    format_version,
                    ch@,
                ),
                Err(e) => finalize_error(self@) == Some(e),
            },
    {
        let ghost c = self@;
        let ghost res = all_resolved(c.hit_objects, c.timing_points);
        let mut notes: Vec<Note> = Vec::new();
        let mut table: Vec<Vec<HitSound>> = Vec::new();
        let mut i: usize = 0;
        while i < self.hit_objects.len()
            invariant
                i <= self.hit_objects.len(),
                c == self@,
                res == all_resolved(c.hit_objects, c.timing_points),
                c.hit_objects.len() == self.hit_objects.len(),
                sound_table_views(table@) == distinct(res.take(i as int)),
                notes.len() == i,
                forall|j: int|
                    0 <= j < i ==> #[trigger] is_note_of(
                        notes@[j],
                        c.hit_objects[j],
                        sound_table_views(table@),
                        res[j],
                    ),
            decreases self.hit_objects.len() - i,
        {
            let h = &self.hit_objects[i];
            assert(c.hit_objects[i as int] == h@);
            let sounds = resolve_all(h, &self.timing_points);
            assert(sound_views(sounds@) == res[i as int]);
            assert(res.take(i + 1).drop_last() =~= res.take(i as int));
            assert(res.take(i + 1).last() == res[i as int]);
            let ghost old_table = sound_table_views(table@);
            let k = match table_index(&table, &sounds) {
                Some(k) => k,
                None => {
                    let k = table.len();
                    table.push(sounds);
                    proof {
                        assert(sound_table_views(table@) =~= old_table.push(res[i as int]));
                    }
                    k
                },
            };
            assert(forall|q: int| 0 <= q < old_table.len() ==> sound_table_views(table@)[q] == old_table[q]);
            let n = Note { time: h.time, column: h.column, end_time: h.end_time, sound_index: Some(k) };
            let ghost old_notes = notes@;
            notes.push(n);
            proof {
                assert forall|j: int| 0 <= j < i + 1 implies #[trigger] is_note_of(
                    notes@[j],
                    c.hit_objects[j],
                    sound_table_views(table@),
                    res[j],
                ) by {
                    if j < i {
                        assert(old_notes[j] == notes@[j]);
                        assert(is_note_of(old_notes[j], c.hit_objects[j], old_table, res[j]));
                    }
                }
            }
            i = i + 1;
        }
        assert(res.take(i as int) =~= res);
        let mut tps: Vec<TimingPoint> = Vec::new();
        let mut t: usize = 0;
        while t < self.timing_points.len()
            invariant
                t <= self.timing_points.len(),
                c == self@,
                tps@ == chart_timing_points(c.timing_points.take(t as int)),
            decreases self.timing_points.len() - t,
        {
            let o = &self.timing_points[t];
            tps.push(TimingPoint { offset: o.offset, value: o.value });
            assert(chart_timing_points(c.timing_points.take(t + 1)) =~= chart_timing_points(
                c.timing_points.take(t as int),
            ).push(TimingPoint { offset: o.offset, value: o.value }));
            t = t + 1;
        }
        assert(c.timing_points.take(t as int) =~= c.timing_points);
        if notes.len() == 0 {
            return Err(ParseError::Parse(ParseContext::NoNotes, None));
        }
        let last_h = &self.hit_objects[self.hit_objects.len() - 1];
        let last = match last_h.end_time {
            Some(e) => e,
            None => last_h.time,
        };
        assert(last as int == last_note_time(c.hit_objects));
        let beat = find_primary_beat(&tps, last);
        let music_path = match copy_opt_bytes(&self.music_path) {
            Some(m) => m,
            None => return Err(ParseError::Parse(ParseContext::NoAudioFile, None)),
        };
        let difficulty_name = match copy_opt_bytes(&self.difficulty_name) {
            Some(d) => d,
            None => unnamed(),
        };
        let r = OsuChart {
            format_version: format_version,
            notes: notes,
            timing_points: tps,
            primary_beat: beat,
            creator: copy_opt_bytes(&self.creator),
            artist: copy_opt_bytes(&self.artist),
            artist_unicode: copy_opt_bytes(&self.artist_unicode),
            song_name: copy_opt_bytes(&self.song_name),
            song_name_unicode: copy_opt_bytes(&self.song_name_unicode),
            difficulty_name: difficulty_name,
            music_path: music_path,
            chart_path: slice_to_vec(chart_path, 0, chart_path.len()),
            sounds: table,
        };
        assert(chart_path@.subrange(0, chart_path.len() as int) =~= chart_path@);
        Ok(r)
    }
}

// ---------------------------------------------------------------------------
// Reading a whole chart
// ---------------------------------------------------------------------------

proof fn lemma_run_lines_timing_points(lines: Seq<Seq<u8>>, start: ParserView, k: int)
    requires
        0 <= k,
    ensures
        run_lines(lines, start, k) matches LineRun::Running(st) ==> st.chart.timing_points.len()
            <= start.chart.timing_points.len() + k,
    decreases k,
{
    if k > 1 {
        lemma_run_lines_timing_points(lines, start, k - 1);
        if let LineRun::Running(st) = run_lines(lines, start, k - 1) {
            lemma_parse_line_timing_points(st, trim_seq(lines[k - 1]));
        }
    }
}

proof fn lemma_parse_line_timing_points(st: ParserView, line: Seq<u8>)
    ensures
        parse_line_spec(st, line) matches Ok(st2) ==> st2.chart.timing_points.len()
            <= st.chart.timing_points.len() + 1,
{
    if line.len() > 0 && line[0] != 91 && st.section is Some {
        let s = st.section->0;
        if s == lit_general() {
            if let Ok(c) = parse_general_spec(line, st.chart) {
                assert(c.timing_points == st.chart.timing_points);
            }
        } else if s == lit_metadata() {
            if let Ok(c) = parse_metadata_spec(line, st.chart) {
                assert(c.timing_points == st.chart.timing_points);
            }
        }
    }
}

/// Whether reading the lines of a `.osu` file as `from_lines` does would panic
/// (see `chart_panics`).
pub fn chart_would_panic(lines: &Vec<Vec<u8>>) -> (r: bool)
    ensures
        r == chart_panics(seq_views(lines@)),
{
    if lines.len() == 0 {
        return false;
    }
    assert(seq_views(lines@)[0] == lines@[0]@);
    match verify(lines[0].as_slice()) {
        Ok(_) => {},
        Err(_) => return false,
    }
    match run_all_lines(lines) {
        RunOutcome::Panics => true,
        _ => false,
    }
}

/// Reads a `.osu` chart from its lines (without their line breaks), found in
/// the directory `chart_dir`. The first line must name the file format
/// version; every other line is trimmed and read by its section's reader; an
/// error on a line names its line number, counting from 1.
pub fn from_lines(lines: &Vec<Vec<u8>>, chart_dir: &[u8]) -> (r: Result<OsuChart, ParseError>)
    requires
        !chart_panics(seq_views(lines@)),
        lines.len() < 0x4000_0000_0000_0000,
    ensures
        lines.len() == 0 ==> r == Err::<OsuChart, ParseError>(ParseError::InvalidFile),
        lines.len() > 0 ==> match header_version(lines@[0]@) {
            None => r == Err::<OsuChart, ParseError>(ParseError::InvalidFile),
            Some(None) => r == Err::<OsuChart, ParseError>(
                ParseError::Parse(ParseContext::FileVersion, Some(Box::new(ParseError::InvalidNumber))),
            ),
            Some(Some(v)) => match run_lines(seq_views(lines@), empty_parser(), lines.len() as int) {
                LineRun::Running(st) => match r {
                    Ok(ch) => finalize_error(st.chart) is None && is_finished_chart(
                        st.chart,
                        chart_dir@,
                        v as i32,
                        ch@,
                    ),
                    Err(e) => finalize_error(st.chart) == Some(e),
                },
                LineRun::Stopped(e) => r == Err::<OsuChart, ParseError>(e),
                LineRun::Panicked => false,
            },
        },
{
    if lines.len() == 0 {
        return Err(ParseError::InvalidFile);
    }
    assert(seq_views(lines@)[0] == lines@[0]@);
    let version = match verify(lines[0].as_slice()) {
        Ok(v) => v,
        Err(e) => return Err(e),
    };
    match run_all_lines(lines) {
        RunOutcome::Done(p) => {
            proof {
                lemma_run_lines_timing_points(seq_views(lines@), empty_parser(), lines.len() as int);
            }
            p.chart.finalize(chart_dir, version)
        },
        RunOutcome::Failed(e) => Err(e),
        RunOutcome::Panics => {
            proof {
                assert(chart_panics(seq_views(lines@)));
            }
            Err(ParseError::InvalidFile)
        },
    }
}

// ---------------------------------------------------------------------------
// Hit sound files
// ---------------------------------------------------------------------------

/// The directories a sample set hit sound is looked for in.
#[derive(Copy, Clone, Debug, PartialEq, Eq, Structural)]
pub enum SoundDir {
    /// The chart's directory.
    Chart,
    /// The directory of the current skin (an osu! skin).
    Skin,
    /// The directory of the default osu! skin.
    DefaultSkin,
}

/// How a sample set is spelled in hit sound file names.
pub open spec fn set_name(s: SampleSet) -> Seq<u8> {
    match s {
        SampleSet::Auto => seq![],
        SampleSet::Normal => seq![110u8, 111, 114, 109, 97, 108],
        SampleSet::Soft => seq![115u8, 111, 102, 116],
        SampleSet::Drum => seq![100u8, 114, 117, 109],
    }
}

/// How a sound is spelled in hit sound file names.
pub open spec fn sound_name(s: SampleHitSoundSound) -> Seq<u8> {
    match s {
        SampleHitSoundSound::Normal => seq![110u8, 111, 114, 109, 97, 108],
        SampleHitSoundSound::Whistle => seq![119u8, 104, 105, 115, 116, 108, 101],
        SampleHitSoundSound::Finish => seq![102u8, 105, 110, 105, 115, 104],
        SampleHitSoundSound::Clap => seq![99u8, 108, 97, 112],
    }
}

/// `-hit`
pub open spec fn hit_word() -> Seq<u8> {
    seq![45u8, 104, 105, 116]
}

/// `.wav`
pub open spec fn wav_ext() -> Seq<u8> {
    seq![46u8, 119, 97, 118]
}

/// The sample index as written in a file name: nothing for 0 and 1.
pub open spec fn index_text(i: u32) -> Seq<u8> {
    if i <= 1 {
        seq![]
    } else {
        decimal(i as nat)
    }
}

/// The file name of a sample set hit sound: `{set}-hit{sound}{index}.wav`,
/// with the index or without it.
pub open spec fn sound_file_name(shs: SampleHitSound, with_index: bool) -> Seq<u8> {
    set_name(shs.set) + hit_word() + sound_name(shs.sound) + (if with_index {
        index_text(shs.index)
    } else {
        seq![]
    }) + wav_ext()
}

/// Where a sample set hit sound is looked for, in order: the chart's
/// directory (with the index in the name), the current skin's directory when
/// it is an osu! skin, and the default osu! skin's directory (both without).
pub open spec fn sound_search(shs: SampleHitSound, skin_is_osu: bool) -> Seq<(SoundDir, Seq<u8>)> {
    if skin_is_osu {
        seq![
            (SoundDir::Chart, sound_file_name(shs, true)),
            (SoundDir::Skin, sound_file_name(shs, false)),
            (SoundDir::DefaultSkin, sound_file_name(shs, false)),
        ]
    } else {
        seq![(SoundDir::Chart, sound_file_name(shs, true)), (SoundDir::DefaultSkin, sound_file_name(shs, false))]
    }
}

fn file_name(shs: SampleHitSound, with_index: bool) -> (r: Vec<u8>)
    ensures
        r@ == sound_file_name(shs, with_index),
{
    let set: Vec<u8> = match shs.set {
        SampleSet::Auto => vec![],
        SampleSet::Normal => vec![110u8, 111, 114, 109, 97, 108],
        SampleSet::Soft => vec![115u8, 111, 102, 116],
        SampleSet::Drum => vec![100u8, 114, 117, 109],
    };
    assert(set@ =~= set_name(shs.set));
    let sound: Vec<u8> = match shs.sound {
        SampleHitSoundSound::Normal => vec![110u8, 111, 114, 109, 97, 108],
        SampleHitSoundSound::Whistle => vec![119u8, 104, 105, 115, 116, 108, 101],
        SampleHitSoundSound::Finish => vec![102u8, 105, 110, 105, 115, 104],
        SampleHitSoundSound::Clap => vec![99u8, 108, 97, 112],
    };
    assert(sound@ =~= sound_name(shs.sound));
    let hit = [45u8, 104, 105, 116];
    assert(hit@ =~= hit_word());
    let wav = [46u8, 119, 97, 118];
    assert(wav@ =~= wav_ext());
    let index: Vec<u8> = if with_index && shs.index > 1 {
        decimal_bytes(shs.index as u64)
    } else {
        vec![]
    };
    assert(index@ =~= (if with_index {
        index_text(shs.index)
    } else {
        seq![]
    }));
    let a = concat_bytes(set.as_slice(), &hit);
    let b = concat_bytes(a.as_slice(), sound.as_slice());
    let c = concat_bytes(b.as_slice(), index.as_slice());
    concat_bytes(c.as_slice(), &wav)
}

/// Where a sample set hit sound is looked for (see `sound_search`).
pub fn possible_paths(shs: SampleHitSound, current_skin: &SkinEntry) -> (r: Vec<(SoundDir, Vec<u8>)>)
    ensures
        r@.len() == sound_search(shs, current_skin is Osu).len(),
        forall|i: int|
            0 <= i < r@.len() ==> r@[i].0 == #[trigger] sound_search(shs, current_skin is Osu)[i].0
                && r@[i].1@ == sound_search(shs, current_skin is Osu)[i].1,
{
    let mut r: Vec<(SoundDir, Vec<u8>)> = Vec::new();
    r.push((SoundDir::Chart, file_name(shs, true)));
    match current_skin {
        SkinEntry::Osu(_) => r.push((SoundDir::Skin, file_name(shs, false))),
        SkinEntry::O2Jam(_) => {},
    }
    r.push((SoundDir::DefaultSkin, file_name(shs, false)));
    r
}

// ---------------------------------------------------------------------------
// Laws
// ---------------------------------------------------------------------------

/// A finished chart's sound table holds each combination of hit sounds once,
/// and each note points at the one entry that holds its own resolved hit
/// sounds.
pub proof fn lemma_finished_chart_sounds(c: IncompleteChartView, dir: Seq<u8>, version: i32, r: OsuChartView)
    requires
        is_finished_chart(c, dir, version, r),
    ensures
        r.sounds.no_duplicates(),
        forall|i: int| 0 <= i < r.notes.len() ==> (#[trigger] r.notes[i]).sound_index is Some,
        forall|i: int, k: int|
            #![trigger r.notes[i], r.sounds[k]]
            0 <= i < r.notes.len() && 0 <= k < r.sounds.len() ==> (r.notes[i].sound_index->0 as int == k
                <==> r.sounds[k] == all_resolved(c.hit_objects, c.timing_points)[i]),
{
    let res = all_resolved(c.hit_objects, c.timing_points);
    lemma_distinct(res);
    assert forall|i: int| 0 <= i < r.notes.len() implies (#[trigger] r.notes[i]).sound_index is Some by {
        assert(is_note_of(r.notes[i], c.hit_objects[i], r.sounds, res[i]));
    }
    assert forall|i: int, k: int|
        #![trigger r.notes[i], r.sounds[k]]
        0 <= i < r.notes.len() && 0 <= k < r.sounds.len() implies (r.notes[i].sound_index->0 as int == k
        <==> r.sounds[k] == res[i]) by {
        assert(is_note_of(r.notes[i], c.hit_objects[i], r.sounds, res[i]));
        let k0 = r.notes[i].sound_index->0 as int;
        if r.sounds[k] == res[i] && k != k0 {
            assert(r.sounds[k] == r.sounds[k0]);
        }
    }
}

/// Resolving the hit sounds of a note against the timing points a second
/// time changes nothing.
pub proof fn lemma_resolve_idempotent(s: HitSoundView, time: int, tps: Seq<OsuTimingPoint>)
    ensures
        resolve_sound(resolve_sound(s, time, tps), time, tps) == resolve_sound(s, time, tps),
{
}

/// A hit sound at or after the first timing point inherits from the last
/// timing point at or before it (reading the points in file order until one
/// lies after it); one before the first timing point inherits from the first.
pub proof fn lemma_tp_inherit_bounds(time: int, tps: Seq<OsuTimingPoint>)
    requires
        tps.len() > 0,
    ensures
        tp_inherit_index(time, tps) matches Some(i) && 0 <= i < tps.len(),
        time < tps[0].offset ==> tp_inherit_index(time, tps) == Some(0int),
        time >= tps[0].offset ==> ({
            let i = tp_inherit_index(time, tps)->0;
            &&& forall|k: int| 0 <= k <= i ==> tps[k].offset <= time
            &&& i + 1 < tps.len() ==> tps[i + 1].offset > time
        }),
{
    if time >= tps[0].offset {
        if exists|j: int| is_first_after(tps, time, j) {
            let j = choose|j: int| is_first_after(tps, time, j);
            assert(is_first_after(tps, time, j));
            assert(j > 0);
        } else {
            assert forall|k: int| 0 <= k < tps.len() implies tps[k].offset <= time by {
                if tps[k].offset > time {
                    lemma_first_after_exists(tps, time, k);
                }
            }
        }
    }
}

proof fn lemma_first_after_exists(tps: Seq<OsuTimingPoint>, time: int, k: int)
    requires
        0 <= k < tps.len(),
        tps[k].offset > time,
    ensures
        exists|j: int| is_first_after(tps, time, j),
    decreases k,
{
    if exists|g: int| 0 <= g < k && tps[g].offset > time {
        let g = choose|g: int| 0 <= g < k && tps[g].offset > time;
        lemma_first_after_exists(tps, time, g);
    } else {
        assert(is_first_after(tps, time, k));
    }
}

proof fn lemma_last_max_exists(t: Seq<int>)
    requires
        t.len() > 0,
    ensures
        exists|i: int| is_last_max(t, i),
    decreases t.len(),
{
    if t.len() == 1 {
        assert(is_last_max(t, 0));
    } else {
        let d = t.drop_last();
        lemma_last_max_exists(d);
        let i = choose|i: int| is_last_max(d, i);
        let n = t.len() - 1;
        assert(is_last_max(d, i));
        assert forall|j: int| 0 <= j < n implies #[trigger] t[j] == d[j] by {}
        if t[n] >= t[i] {
            assert forall|j: int| 0 <= j < t.len() implies t[j] <= t[n] by {
                if j < n {
                    assert(t[j] == d[j]);
                }
            }
            assert(is_last_max(t, n));
        } else {
            assert forall|j: int| 0 <= j < t.len() implies t[j] <= t[i] by {
                if j < n {
                    assert(t[j] == d[j]);
                }
            }
            assert forall|j: int| i < j < t.len() implies t[j] < t[i] by {
                if j < n {
                    assert(t[j] == d[j]);
                }
            }
            assert(is_last_max(t, i));
        }
    }
}

/// The main tempo is that of a tempo change before the last note, and the
/// song is at no other tempo for longer; without such a change it is 150 BPM.
pub proof fn lemma_primary_beat_longest(tps: Seq<TimingPoint>, last: int)
    ensures
        scan_bpm(tps, last).0.len() == 0 ==> primary_beat(tps, last) == default_beat(),
        scan_bpm(tps, last).0.len() > 0 ==> ({
            let p = scan_bpm(tps, last).0;
            let beats = p.map_values(|t: TimingPoint| beat_of(t));
            &&& beats.contains(primary_beat(tps, last))
            &&& forall|b: u64|
                beats.contains(b) ==> bpm_total(p, last, b, p.len()) <= bpm_total(
                    p,
                    last,
                    primary_beat(tps, last),
                    p.len(),
                )
        }),
{
    let p = scan_bpm(tps, last).0;
    if p.len() > 0 {
        let beats = p.map_values(|t: TimingPoint| beat_of(t));
        let c = distinct(beats);
        let totals = c.map_values(|b: u64| bpm_total(p, last, b, p.len()));
        lemma_distinct(beats);
        assert(beats.contains(beats[0]));
        assert(c.len() > 0);
        lemma_last_max_exists(totals);
        let k = choose|i: int| is_last_max(totals, i);
        assert(is_last_max(totals, k));
        assert(c.contains(c[k]));
        assert forall|b: u64| beats.contains(b) implies bpm_total(p, last, b, p.len()) <= bpm_total(
            p,
            last,
            primary_beat(tps, last),
            p.len(),
        ) by {
            assert(c.contains(b));
            let j = choose|j: int| 0 <= j < c.len() && c[j] == b;
            assert(totals[j] <= totals[k]);
        }
    }
}

} // verus!
