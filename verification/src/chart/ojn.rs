//! O2Jam chart (`.ojn`) reader.
//!
//! An `.ojn` file starts with a 300-byte header, followed by a notes section
//! per difficulty. A notes section is a list of packages; a package holds the
//! events of one channel within one measure, each event four bytes long.
//! Floating-point fields are kept as their IEEE 754 bit patterns.

use vstd::prelude::*;

use crate::bytes::{
    as_i16, as_i32, check_tag, le16, le32, nul_terminated, read_i16, read_i32, read_u32,
    string_block, tag_mismatch, Failure,
};

verus! {

/// The header of an `.ojn` file.
#[derive(Debug, Clone)]
pub struct Header {
    pub songid: i32,
    /// The bits of the `f32` encode version.
    pub encode_version: u32,
    pub genre: i32,
    /// The bits of the `f32` tempo.
    pub bpm: u32,
    pub level: [i16; 4],
    pub event_count: [i32; 3],
    pub note_count: [i32; 3],
    pub measure_count: [i32; 3],
    pub package_count: [i32; 3],
    pub old_encode_version: i16,
    pub old_songid: i16,
    pub old_genre: Vec<u8>,
    pub bmp_size: i32,
    pub old_file_version: i32,
    pub title: Vec<u8>,
    pub artist: Vec<u8>,
    pub noter: Vec<u8>,
    pub ojm_file: Vec<u8>,
    pub cover_size: i32,
    /// The length of the song in seconds, per difficulty.
    pub time: [i32; 3],
    /// Where each difficulty's notes section starts in the file.
    pub note_offset: [i32; 3],
    pub cover_offset: i32,
}

/// The size of the header in bytes.
pub open spec fn header_len() -> nat {
    300
}

/// `ojn\0`
pub open spec fn ojn_tag() -> Seq<u8> {
    seq![111u8, 106, 110, 0]
}

/// The text field of `n` bytes at `i` has its NUL byte.
pub open spec fn has_text(s: Seq<u8>, i: int, n: int) -> bool {
    nul_terminated(s.subrange(i, i + n)) is Some
}

/// The header is complete: the input holds all of it and each text field
/// has its NUL byte.
pub open spec fn header_complete(s: Seq<u8>) -> bool {
    &&& s.len() >= header_len()
    &&& has_text(s, 80, 20)
    &&& has_text(s, 108, 64)
    &&& has_text(s, 172, 32)
    &&& has_text(s, 204, 32)
    &&& has_text(s, 236, 32)
}

pub open spec fn i32_at(s: Seq<u8>, i: int) -> int {
    as_i32(le32(s, i))
}

pub open spec fn i16_at(s: Seq<u8>, i: int) -> int {
    as_i16(le16(s, i))
}

pub open spec fn text_at(s: Seq<u8>, i: int, n: int) -> Seq<u8> {
    nul_terminated(s.subrange(i, i + n))->0
}

/// The three `i32` values at `i`, `i + 4` and `i + 8`.
pub open spec fn i32_triple(s: Seq<u8>, i: int) -> Seq<int> {
    seq![i32_at(s, i), i32_at(s, i + 4), i32_at(s, i + 8)]
}

/// `h` holds the fields of the header at the start of `s`.
pub open spec fn is_header_of(s: Seq<u8>, h: Header) -> bool {
    &&& h.songid == i32_at(s, 0)
    &&& h.encode_version == le32(s, 8)
    &&& h.genre == i32_at(s, 12)
    &&& h.bpm == le32(s, 16)
    &&& h.level@.map_values(|x: i16| x as int) == seq![
        i16_at(s, 20),
        i16_at(s, 22),
        i16_at(s, 24),
        i16_at(s, 26),
    ]
    &&& h.event_count@.map_values(|x: i32| x as int) == i32_triple(s, 28)
    &&& h.note_count@.map_values(|x: i32| x as int) == i32_triple(s, 40)
    &&& h.measure_count@.map_values(|x: i32| x as int) == i32_triple(s, 52)
    &&& h.package_count@.map_values(|x: i32| x as int) == i32_triple(s, 64)
    &&& h.old_encode_version == i16_at(s, 76)
    &&& h.old_songid == i16_at(s, 78)
    &&& h.old_genre@ == text_at(s, 80, 20)
    &&& h.bmp_size == i32_at(s, 100)
    &&& h.old_file_version == i32_at(s, 104)
    &&& h.title@ == text_at(s, 108, 64)
    &&& h.artist@ == text_at(s, 172, 32)
    &&& h.noter@ == text_at(s, 204, 32)
    &&& h.ojm_file@ == text_at(s, 236, 32)
    &&& h.cover_size == i32_at(s, 268)
    &&& h.time@.map_values(|x: i32| x as int) == i32_triple(s, 272)
    &&& h.note_offset@.map_values(|x: i32| x as int) == i32_triple(s, 284)
    &&& h.cover_offset == i32_at(s, 296)
}

fn read_i32_triple(s: &[u8], pos: usize) -> (r: [i32; 3])
    requires
        pos + 12 <= s.len(),
    ensures
        r@.map_values(|x: i32| x as int) == i32_triple(s@, pos as int),
{
    let r = [read_i32(s, pos), read_i32(s, pos + 4), read_i32(s, pos + 8)];
    assert(r@.map_values(|x: i32| x as int) =~= i32_triple(s@, pos as int));
    r
}

fn text_field(s: &[u8], pos: usize, n: usize) -> (r: Result<Vec<u8>, Failure>)
    requires
        pos + n <= s.len(),
    ensures
        match r {
            Ok(v) => nul_terminated(s@.subrange(pos as int, pos + n)) == Some(v@),
            Err(e) => e == Failure::Incomplete && nul_terminated(s@.subrange(pos as int, pos + n)) is None,
        },
{
    match string_block(s, pos, n) {
        Some(v) => Ok(v),
        None => Err(Failure::Incomplete),
    }
}

/// Reads the header at the start of `s`: `Tag` where it does not carry the
/// `ojn\0` tag after the song id, `Incomplete` where the input ends too soon
/// or a text field has no NUL byte.
pub fn header(s: &[u8]) -> (r: Result<Header, Failure>)
    ensures
        match r {
            Ok(h) => header_complete(s@) && !tag_mismatch(s@, 4, ojn_tag()) && s@.subrange(4, 8)
                == ojn_tag() && is_header_of(s@, h),
            Err(Failure::Tag) => s.len() >= 4 && tag_mismatch(s@, 4, ojn_tag()),
            Err(Failure::Incomplete) => (s.len() < 4 || !tag_mismatch(s@, 4, ojn_tag())) && !(
            header_complete(s@) && s@.subrange(4, 8) == ojn_tag()),
        },
{
    if s.len() < 4 {
        return Err(Failure::Incomplete);
    }
    let tag = [111u8, 106, 110, 0];
    assert(tag@ =~= ojn_tag());
    match check_tag(s, 4, &tag) {
        Ok(()) => {},
        Err(e) => {
            return Err(e);
        },
    }
    if s.len() < 300 {
        return Err(Failure::Incomplete);
    }
    let old_genre = match text_field(s, 80, 20) {
        Ok(v) => v,
        Err(e) => {
            return Err(e);
        },
    };
    let title = match text_field(s, 108, 64) {
        Ok(v) => v,
        Err(e) => {
            return Err(e);
        },
    };
    let artist = match text_field(s, 172, 32) {
        Ok(v) => v,
        Err(e) => {
            return Err(e);
        },
    };
    let noter = match text_field(s, 204, 32) {
        Ok(v) => v,
        Err(e) => {
            return Err(e);
        },
    };
    let ojm_file = match text_field(s, 236, 32) {
        Ok(v) => v,
        Err(e) => {
            return Err(e);
        },
    };
    let level = [read_i16(s, 20), read_i16(s, 22), read_i16(s, 24), read_i16(s, 26)];
    assert(level@.map_values(|x: i16| x as int) =~= seq![
        i16_at(s@, 20),
        i16_at(s@, 22),
        i16_at(s@, 24),
        i16_at(s@, 26),
    ]);
    let h = Header {
        songid: read_i32(s, 0),
        encode_version: read_u32(s, 8),
        genre: read_i32(s, 12),
        bpm: read_u32(s, 16),
        level: level,
        event_count: read_i32_triple(s, 28),
        note_count: read_i32_triple(s, 40),
        measure_count: read_i32_triple(s, 52),
        package_count: read_i32_triple(s, 64),
        old_encode_version: read_i16(s, 76),
        old_songid: read_i16(s, 78),
        old_genre: old_genre,
        bmp_size: read_i32(s, 100),
        old_file_version: read_i32(s, 104),
        title: title,
        artist: artist,
        noter: noter,
        ojm_file: ojm_file,
        cover_size: read_i32(s, 268),
        time: read_i32_triple(s, 272),
        note_offset: read_i32_triple(s, 284),
        cover_offset: read_i32(s, 296),
    };
    Ok(h)
}

// ---------------------------------------------------------------------------
// Notes sections
// ---------------------------------------------------------------------------

/// An event of a note channel.
#[derive(Copy, Clone, Debug, PartialEq, Eq, Structural)]
pub struct NoteEvent {
    /// Reference to the sample in the OJM file, unless this value is 0, in
    /// which case the entire event is ignored.
    pub value: i16,
    /// 0..=15, 0 is max volume.
    pub volume: u8,
    /// 1~7 = left -> center, 0 or 8 = center, 9~15 = center -> right.
    pub pan: u8,
    /// 0 = normal note, 2 = long note start, 3 = long note end.
    pub note_type: u8,
}

/// The events of a package, by its channel.
#[derive(Clone, Debug)]
pub enum Events {
    /// Channel 0: the bits of each `f32` measure fraction.
    MeasureFraction(Vec<u32>),
    /// Channel 1: the bits of each `f32` tempo.
    BpmChange(Vec<u32>),
    /// Channels 2 to 8: notes on the column `channel - 2`, with the channel
    /// kept.
    NoteEvent(usize, Vec<NoteEvent>),
    /// Any other channel, with its id.
    Unknown(i16, Vec<[u8; 4]>),
}

/// The events of one channel within one measure.
#[derive(Clone, Debug)]
pub struct Package {
    pub measure: i32,
    pub events: Events,
}

/// How many events the package at `pos` declares.
pub open spec fn event_count_at(s: Seq<u8>, pos: int) -> int {
    i16_at(s, pos + 6)
}

/// The package at `pos` lies within the input: its 8-byte header and its
/// events of 4 bytes each. A negative count never fits.
pub open spec fn package_fits(s: Seq<u8>, pos: int) -> bool {
    &&& pos + 8 <= s.len()
    &&& event_count_at(s, pos) >= 0
    &&& pos + 8 + 4 * event_count_at(s, pos) <= s.len()
}

/// Where the package at `pos` ends.
pub open spec fn package_end(s: Seq<u8>, pos: int) -> int {
    pos + 8 + 4 * event_count_at(s, pos)
}

/// The 4 bytes of event `j` of the package at `pos`.
pub open spec fn event_pos(pos: int, j: int) -> int {
    pos + 8 + 4 * j
}

pub open spec fn note_event_at(s: Seq<u8>, q: int) -> NoteEvent {
    NoteEvent {
        value: i16_at(s, q) as i16,
        volume: s[q + 2] / 16,
        pan: s[q + 2] % 16,
        note_type: s[q + 3],
    }
}

/// `p` is the package at `pos`.
pub open spec fn is_package_at(s: Seq<u8>, pos: int, p: Package) -> bool {
    let c = i16_at(s, pos + 4);
    let n = event_count_at(s, pos);
    &&& p.measure == i32_at(s, pos)
    &&& match p.events {
        Events::MeasureFraction(v) => c == 0 && v@.len() == n && forall|j: int|
            0 <= j < n ==> #[trigger] v@[j] == le32(s, event_pos(pos, j)),
        Events::BpmChange(v) => c == 1 && v@.len() == n && forall|j: int|
            0 <= j < n ==> #[trigger] v@[j] == le32(s, event_pos(pos, j)),
        Events::NoteEvent(ch, v) => 2 <= c <= 8 && ch == c && v@.len() == n && forall|j: int|
            0 <= j < n ==> #[trigger] v@[j] == note_event_at(s, event_pos(pos, j)),
        Events::Unknown(ch, v) => !(0 <= c <= 8) && ch == c && v@.len() == n && forall|j: int|
            0 <= j < n ==> #[trigger] v@[j]@ == s.subrange(event_pos(pos, j), event_pos(pos, j) + 4),
    }
}

/// Reads the package at `pos`.
pub fn package(s: &[u8], pos: usize) -> (r: Result<(Package, usize), Failure>)
    requires
        pos <= s.len(),
    ensures
        match r {
            Ok((p, end)) => package_fits(s@, pos as int) && end == package_end(s@, pos as int)
                && is_package_at(s@, pos as int, p),
            Err(e) => e == Failure::Incomplete && !package_fits(s@, pos as int),
        },
{
    if s.len() - pos < 8 {
        return Err(Failure::Incomplete);
    }
    let measure = read_i32(s, pos);
    let channel = read_i16(s, pos + 4);
    let count = read_i16(s, pos + 6);
    if count < 0 {
        return Err(Failure::Incomplete);
    }
    let n = count as usize;
    if (s.len() - pos - 8) / 4 < n {
        return Err(Failure::Incomplete);
    }
    let base = pos + 8;
    let events = if channel == 0 || channel == 1 {
        let mut v: Vec<u32> = Vec::new();
        let mut j: usize = 0;
        while j < n
            invariant
                j <= n,
                base == pos + 8,
                base + 4 * n <= s.len(),
                v@.len() == j,
                forall|k: int| 0 <= k < j ==> #[trigger] v@[k] == le32(s@, event_pos(pos as int, k)),
            decreases n - j,
        {
            v.push(read_u32(s, base + 4 * j));
            j = j + 1;
        }
        if channel == 0 {
            Events::MeasureFraction(v)
        } else {
            Events::BpmChange(v)
        }
    } else if 2 <= channel && channel <= 8 {
        let mut v: Vec<NoteEvent> = Vec::new();
        let mut j: usize = 0;
        while j < n
            invariant
                j <= n,
                base == pos + 8,
                base + 4 * n <= s.len(),
                v@.len() == j,
                forall|k: int| 0 <= k < j ==> #[trigger] v@[k] == note_event_at(s@, event_pos(pos as int, k)),
            decreases n - j,
        {
            let q = base + 4 * j;
            let vp = s[q + 2];
            v.push(NoteEvent { value: read_i16(s, q), volume: vp / 16, pan: vp % 16, note_type: s[q + 3] });
            j = j + 1;
        }
        Events::NoteEvent(channel as usize, v)
    } else {
        let mut v: Vec<[u8; 4]> = Vec::new();
        let mut j: usize = 0;
        while j < n
            invariant
                j <= n,
                base == pos + 8,
                base + 4 * n <= s.len(),
                v@.len() == j,
                forall|k: int|
                    0 <= k < j ==> #[trigger] v@[k]@ == s@.subrange(
                        event_pos(pos as int, k),
                        event_pos(pos as int, k) + 4,
                    ),
            decreases n - j,
        {
            let q = base + 4 * j;
            let w = [s[q], s[q + 1], s[q + 2], s[q + 3]];
            assert(w@ =~= s@.subrange(q as int, q + 4));
            v.push(w);
            j = j + 1;
        }
        Events::Unknown(channel, v)
    };
    Ok((Package { measure: measure, events: events }, base + 4 * n))
}

/// Where package `k` of a notes section starts (packages follow each other).
pub open spec fn package_start(s: Seq<u8>, k: nat) -> int
    decreases k,
{
    if k == 0 {
        0
    } else {
        package_end(s, package_start(s, (k - 1) as nat))
    }
}

/// The first `k` packages of the notes section fit in it.
pub open spec fn packages_fit(s: Seq<u8>, k: nat) -> bool {
    forall|i: nat| i < k ==> #[trigger] package_fits(s, package_start(s, i))
}

/// Reads the `count` packages of a notes section. The count comes from the
/// header, as an `i32`: a negative one stands for more packages than any
/// section holds.
pub fn notes_section(s: &[u8], count: i32) -> (r: Result<Vec<Package>, Failure>)
    ensures
        match r {
            Ok(v) => count >= 0 && v.len() == count && packages_fit(s@, count as nat) && forall|i: int|
                0 <= i < count ==> #[trigger] is_package_at(s@, package_start(s@, i as nat), v@[i]),
            Err(e) => e == Failure::Incomplete && (count < 0 || !packages_fit(s@, count as nat)),
        },
{
    if count < 0 {
        return Err(Failure::Incomplete);
    }
    let n = count as usize;
    let mut v: Vec<Package> = Vec::new();
    let mut pos: usize = 0;
    let mut i: usize = 0;
    while i < n
        invariant
            i <= n,
            n == count,
            v@.len() == i,
            pos == package_start(s@, i as nat),
            pos <= s.len(),
            packages_fit(s@, i as nat),
            forall|k: int| 0 <= k < i ==> #[trigger] is_package_at(s@, package_start(s@, k as nat), v@[k]),
        decreases n - i,
    {
        match package(s, pos) {
            Ok((p, end)) => {
                v.push(p);
                proof {
                    assert forall|q: nat| q < i + 1 implies #[trigger] package_fits(s@, package_start(s@, q)) by {
                        if q < i {
                        }
                    }
                }
                pos = end;
                i = i + 1;
            },
            Err(e) => {
                return Err(e);
            },
        }
    }
    Ok(v)
}

/// How many note events the packages hold (value-0 events included).
pub open spec fn note_event_count(ps: Seq<Package>) -> int
    decreases ps.len(),
{
    if ps.len() == 0 {
        0
    } else {
        note_event_count(ps.drop_last()) + match ps.last().events {
            Events::NoteEvent(_, v) => v@.len() as int,
            _ => 0,
        }
    }
}

/// Counts the note events of the packages; `None` where the count does not
/// fit in a `u64`.
pub fn note_count(packages: &Vec<Package>) -> (r: Option<u64>)
    ensures
        match r {
            Some(n) => n == note_event_count(packages@),
            None => note_event_count(packages@) > u64::MAX,
        },
{
    let mut total: u64 = 0;
    let mut i: usize = 0;
    while i < packages.len()
        invariant
            i <= packages.len(),
            total == note_event_count(packages@.take(i as int)),
        decreases packages.len() - i,
    {
        assert(packages@.take(i + 1).drop_last() =~= packages@.take(i as int));
        proof {
            lemma_note_count_prefix(packages@, i + 1);
        }
        match &packages[i].events {
            Events::NoteEvent(_, v) => {
                let n = v.len() as u64;
                if total > u64::MAX - n {
                    return None;
                }
                total = total + n;
            },
            _ => {},
        }
        i = i + 1;
    }
    assert(packages@.take(i as int) =~= packages@);
    Some(total)
}

proof fn lemma_note_count_prefix(ps: Seq<Package>, k: int)
    requires
        0 <= k <= ps.len(),
    ensures
        note_event_count(ps.take(k)) <= note_event_count(ps),
    decreases ps.len() - k,
{
    if k < ps.len() {
        lemma_note_count_prefix(ps, k + 1);
        assert(ps.take(k + 1).drop_last() =~= ps.take(k));
    } else {
        assert(ps.take(k) =~= ps);
    }
}

} // verus!
