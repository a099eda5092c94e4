//! The `skin.ini` file of an osu! skin: which image files the skin uses and
//! where the 7-key stage is drawn.
//!
//! The file is read line by line (each trimmed). `[Name]` starts a section,
//! `//` starts a comment, and other lines are `Key: value`. `Keys` counts in
//! any section; the other settings count only in the `Mania` section once it
//! has said `Keys: 7`. A value that does not parse leaves the setting as it
//! was.

use vstd::prelude::*;

use crate::text::{
    all_digits, bytes_eq, concat_bytes, decimal, decimal_bytes, digits_value, find, first_index,
    is_alnum, is_first_index, lemma_first_index_unique, lemma_trim_alnum_ends, parse_u16, parse_u8,
    parse_unsigned, seq_views, slice_to_vec, split, split_seq, trim, trim_seq,
};

verus! {

// ---------------------------------------------------------------------------
// Words of the file
// ---------------------------------------------------------------------------

/// The words the reader looks for, and the stems of the default image names.
#[derive(Copy, Clone, Debug, PartialEq, Eq, Structural)]
pub enum Word {
    Keys,
    Mania,
    ColumnStart,
    HitPosition,
    ScorePosition,
    LightPosition,
    ColumnWidth,
    ColumnLineWidth,
    ColourColumnLine,
    ColumnSpacing,
    NoteBodyStyle,
    Hit0,
    Hit50,
    Hit100,
    Hit200,
    Hit300,
    Hit300g,
    StageHint,
    StageLeft,
    StageRight,
    StageBottom,
    StageLight,
    LightingN,
    LightingL,
    KeyImage,
    NoteImage,
    ColourLight,
    ManiaHit0,
    ManiaHit50,
    ManiaHit100,
    ManiaHit200,
    ManiaHit300,
    ManiaHit300g,
    ManiaStageHint,
    ManiaStageLeft,
    ManiaStageRight,
    ManiaStageBottom,
    ManiaStageLight,
    DefaultLightingN,
    DefaultLightingL,
    ManiaKey,
    ManiaNote,
}

/// The text of a word.
pub open spec fn word(w: Word) -> Seq<u8> {
    match w {
        Word::Keys => seq![75u8, 101, 121, 115],
        Word::Mania => seq![77u8, 97, 110, 105, 97],
        Word::ColumnStart => seq![67u8, 111, 108, 117, 109, 110, 83, 116, 97, 114, 116],
        Word::HitPosition => seq![72u8, 105, 116, 80, 111, 115, 105, 116, 105, 111, 110],
        Word::ScorePosition => seq![83u8, 99, 111, 114, 101, 80, 111, 115, 105, 116, 105, 111, 110],
        Word::LightPosition => seq![76u8, 105, 103, 104, 116, 80, 111, 115, 105, 116, 105, 111, 110],
        Word::ColumnWidth => seq![67u8, 111, 108, 117, 109, 110, 87, 105, 100, 116, 104],
        Word::ColumnLineWidth => seq![67u8, 111, 108, 117, 109, 110, 76, 105, 110, 101, 87, 105, 100, 116, 104],
        Word::ColourColumnLine => seq![67u8, 111, 108, 111, 117, 114, 67, 111, 108, 117, 109, 110, 76, 105, 110, 101],
        Word::ColumnSpacing => seq![67u8, 111, 108, 117, 109, 110, 83, 112, 97, 99, 105, 110, 103],
        Word::NoteBodyStyle => seq![78u8, 111, 116, 101, 66, 111, 100, 121, 83, 116, 121, 108, 101],
        Word::Hit0 => seq![72u8, 105, 116, 48],
        Word::Hit50 => seq![72u8, 105, 116, 53, 48],
        Word::Hit100 => seq![72u8, 105, 116, 49, 48, 48],
        Word::Hit200 => seq![72u8, 105, 116, 50, 48, 48],
        Word::Hit300 => seq![72u8, 105, 116, 51, 48, 48],
        Word::Hit300g => seq![72u8, 105, 116, 51, 48, 48, 103],
        Word::StageHint => seq![83u8, 116, 97, 103, 101, 72, 105, 110, 116],
        Word::StageLeft => seq![83u8, 116, 97, 103, 101, 76, 101, 102, 116],
        Word::StageRight => seq![83u8, 116, 97, 103, 101, 82, 105, 103, 104, 116],
        Word::StageBottom => seq![83u8, 116, 97, 103, 101, 66, 111, 116, 116, 111, 109],
        Word::StageLight => seq![83u8, 116, 97, 103, 101, 76, 105, 103, 104, 116],
        Word::LightingN => seq![76u8, 105, 103, 104, 116, 105, 110, 103, 78],
        Word::LightingL => seq![76u8, 105, 103, 104, 116, 105, 110, 103, 76],
        Word::KeyImage => seq![75u8, 101, 121, 73, 109, 97, 103, 101],
        Word::NoteImage => seq![78u8, 111, 116, 101, 73, 109, 97, 103, 101],
        Word::ColourLight => seq![67u8, 111, 108, 111, 117, 114, 76, 105, 103, 104, 116],
        Word::ManiaHit0 => seq![109u8, 97, 110, 105, 97, 45, 104, 105, 116, 48],
        Word::ManiaHit50 => seq![109u8, 97, 110, 105, 97, 45, 104, 105, 116, 53, 48],
        Word::ManiaHit100 => seq![109u8, 97, 110, 105, 97, 45, 104, 105, 116, 49, 48, 48],
        Word::ManiaHit200 => seq![109u8, 97, 110, 105, 97, 45, 104, 105, 116, 50, 48, 48],
        Word::ManiaHit300 => seq![109u8, 97, 110, 105, 97, 45, 104, 105, 116, 51, 48, 48],
        Word::ManiaHit300g => seq![109u8, 97, 110, 105, 97, 45, 104, 105, 116, 51, 48, 48, 103],
        Word::ManiaStageHint => seq![109u8, 97, 110, 105, 97, 45, 115, 116, 97, 103, 101, 45, 104, 105, 110, 116],
        Word::ManiaStageLeft => seq![109u8, 97, 110, 105, 97, 45, 115, 116, 97, 103, 101, 45, 108, 101, 102, 116],
        Word::ManiaStageRight => seq![109u8, 97, 110, 105, 97, 45, 115, 116, 97, 103, 101, 45, 114, 105, 103, 104, 116],
        Word::ManiaStageBottom => seq![109u8, 97, 110, 105, 97, 45, 115, 116, 97, 103, 101, 45, 98, 111, 116, 116, 111, 109],
        Word::ManiaStageLight => seq![109u8, 97, 110, 105, 97, 45, 115, 116, 97, 103, 101, 45, 108, 105, 103, 104, 116],
        Word::DefaultLightingN => seq![108u8, 105, 103, 104, 116, 105, 110, 103, 78],
        Word::DefaultLightingL => seq![108u8, 105, 103, 104, 116, 105, 110, 103, 76],
        Word::ManiaKey => seq![109u8, 97, 110, 105, 97, 45, 107, 101, 121],
        Word::ManiaNote => seq![109u8, 97, 110, 105, 97, 45, 110, 111, 116, 101],
    }
}

/// The text of a word.
pub fn word_bytes(w: Word) -> (r: Vec<u8>)
    ensures
        r@ == word(w),
{
    let v = match w {
        Word::Keys => vec![75u8, 101, 121, 115],
        Word::Mania => vec![77u8, 97, 110, 105, 97],
        Word::ColumnStart => vec![67u8, 111, 108, 117, 109, 110, 83, 116, 97, 114, 116],
        Word::HitPosition => vec![72u8, 105, 116, 80, 111, 115, 105, 116, 105, 111, 110],
        Word::ScorePosition => vec![83u8, 99, 111, 114, 101, 80, 111, 115, 105, 116, 105, 111, 110],
        Word::LightPosition => vec![76u8, 105, 103, 104, 116, 80, 111, 115, 105, 116, 105, 111, 110],
        Word::ColumnWidth => vec![67u8, 111, 108, 117, 109, 110, 87, 105, 100, 116, 104],
        Word::ColumnLineWidth => vec![67u8, 111, 108, 117, 109, 110, 76, 105, 110, 101, 87, 105, 100, 116, 104],
        Word::ColourColumnLine => vec![67u8, 111, 108, 111, 117, 114, 67, 111, 108, 117, 109, 110, 76, 105, 110, 101],
        Word::ColumnSpacing => vec![67u8, 111, 108, 117, 109, 110, 83, 112, 97, 99, 105, 110, 103],
        Word::NoteBodyStyle => vec![78u8, 111, 116, 101, 66, 111, 100, 121, 83, 116, 121, 108, 101],
        Word::Hit0 => vec![72u8, 105, 116, 48],
        Word::Hit50 => vec![72u8, 105, 116, 53, 48],
        Word::Hit100 => vec![72u8, 105, 116, 49, 48, 48],
        Word::Hit200 => vec![72u8, 105, 116, 50, 48, 48],
        Word::Hit300 => vec![72u8, 105, 116, 51, 48, 48],
        Word::Hit300g => vec![72u8, 105, 116, 51, 48, 48, 103],
        Word::StageHint => vec![83u8, 116, 97, 103, 101, 72, 105, 110, 116],
        Word::StageLeft => vec![83u8, 116, 97, 103, 101, 76, 101, 102, 116],
        Word::StageRight => vec![83u8, 116, 97, 103, 101, 82, 105, 103, 104, 116],
        Word::StageBottom => vec![83u8, 116, 97, 103, 101, 66, 111, 116, 116, 111, 109],
        Word::StageLight => vec![83u8, 116, 97, 103, 101, 76, 105, 103, 104, 116],
        Word::LightingN => vec![76u8, 105, 103, 104, 116, 105, 110, 103, 78],
        Word::LightingL => vec![76u8, 105, 103, 104, 116, 105, 110, 103, 76],
        Word::KeyImage => vec![75u8, 101, 121, 73, 109, 97, 103, 101],
        Word::NoteImage => vec![78u8, 111, 116, 101, 73, 109, 97, 103, 101],
        Word::ColourLight => vec![67u8, 111, 108, 111, 117, 114, 76, 105, 103, 104, 116],
        Word::ManiaHit0 => vec![109u8, 97, 110, 105, 97, 45, 104, 105, 116, 48],
        Word::ManiaHit50 => vec![109u8, 97, 110, 105, 97, 45, 104, 105, 116, 53, 48],
        Word::ManiaHit100 => vec![109u8, 97, 110, 105, 97, 45, 104, 105, 116, 49, 48, 48],
        Word::ManiaHit200 => vec![109u8, 97, 110, 105, 97, 45, 104, 105, 116, 50, 48, 48],
        Word::ManiaHit300 => vec![109u8, 97, 110, 105, 97, 45, 104, 105, 116, 51, 48, 48],
        Word::ManiaHit300g => vec![109u8, 97, 110, 105, 97, 45, 104, 105, 116, 51, 48, 48, 103],
        Word::ManiaStageHint => vec![109u8, 97, 110, 105, 97, 45, 115, 116, 97, 103, 101, 45, 104, 105, 110, 116],
        Word::ManiaStageLeft => vec![109u8, 97, 110, 105, 97, 45, 115, 116, 97, 103, 101, 45, 108, 101, 102, 116],
        Word::ManiaStageRight => vec![109u8, 97, 110, 105, 97, 45, 115, 116, 97, 103, 101, 45, 114, 105, 103, 104, 116],
        Word::ManiaStageBottom => vec![109u8, 97, 110, 105, 97, 45, 115, 116, 97, 103, 101, 45, 98, 111, 116, 116, 111, 109],
        Word::ManiaStageLight => vec![109u8, 97, 110, 105, 97, 45, 115, 116, 97, 103, 101, 45, 108, 105, 103, 104, 116],
        Word::DefaultLightingN => vec![108u8, 105, 103, 104, 116, 105, 110, 103, 78],
        Word::DefaultLightingL => vec![108u8, 105, 103, 104, 116, 105, 110, 103, 76],
        Word::ManiaKey => vec![109u8, 97, 110, 105, 97, 45, 107, 101, 121],
        Word::ManiaNote => vec![109u8, 97, 110, 105, 97, 45, 110, 111, 116, 101],
    };
    assert(v@ =~= word(w));
    v
}

fn is_word(k: &[u8], w: Word) -> (r: bool)
    ensures
        r == (k@ == word(w)),
{
    let v = word_bytes(w);
    bytes_eq(k, v.as_slice())
}

// ---------------------------------------------------------------------------
// Images
// ---------------------------------------------------------------------------

/// An image of the skin. The images of columns carry the column, 0 to 6.
#[derive(Copy, Clone, Debug, PartialEq, Eq, Structural)]
pub enum SkinImage {
    Hit0,
    Hit50,
    Hit100,
    Hit200,
    Hit300,
    Hit300g,
    StageHint,
    StageLeft,
    StageRight,
    StageBottom,
    StageLight,
    LightingN,
    LightingL,
    Key(usize),
    KeyDown(usize),
    Note(usize),
    LongNoteHead(usize),
    LongNoteBody(usize),
    LongNoteTail(usize),
}

/// How many images a skin names.
pub open spec fn image_count() -> nat {
    55
}

/// An image names a column from 0 to 6 where it has one.
pub open spec fn image_ok(img: SkinImage) -> bool {
    match img {
        SkinImage::Key(i) => i < 7,
        SkinImage::KeyDown(i) => i < 7,
        SkinImage::Note(i) => i < 7,
        SkinImage::LongNoteHead(i) => i < 7,
        SkinImage::LongNoteBody(i) => i < 7,
        SkinImage::LongNoteTail(i) => i < 7,
        _ => true,
    }
}

/// Where the name of an image is kept.
pub open spec fn slot(img: SkinImage) -> int {
    match img {
        SkinImage::Hit0 => 0,
        SkinImage::Hit50 => 1,
        SkinImage::Hit100 => 2,
        SkinImage::Hit200 => 3,
        SkinImage::Hit300 => 4,
        SkinImage::Hit300g => 5,
        SkinImage::StageHint => 6,
        SkinImage::StageLeft => 7,
        SkinImage::StageRight => 8,
        SkinImage::StageBottom => 9,
        SkinImage::StageLight => 10,
        SkinImage::LightingN => 11,
        SkinImage::LightingL => 12,
        SkinImage::Key(i) => 13 + i,
        SkinImage::KeyDown(i) => 20 + i,
        SkinImage::Note(i) => 27 + i,
        SkinImage::LongNoteHead(i) => 34 + i,
        SkinImage::LongNoteBody(i) => 41 + i,
        SkinImage::LongNoteTail(i) => 48 + i,
    }
}

fn image_slot(img: SkinImage) -> (r: usize)
    requires
        image_ok(img),
    ensures
        r == slot(img),
        r < image_count(),
{
    match img {
        SkinImage::Hit0 => 0,
        SkinImage::Hit50 => 1,
        SkinImage::Hit100 => 2,
        SkinImage::Hit200 => 3,
        SkinImage::Hit300 => 4,
        SkinImage::Hit300g => 5,
        SkinImage::StageHint => 6,
        SkinImage::StageLeft => 7,
        SkinImage::StageRight => 8,
        SkinImage::StageBottom => 9,
        SkinImage::StageLight => 10,
        SkinImage::LightingN => 11,
        SkinImage::LightingL => 12,
        SkinImage::Key(i) => 13 + i,
        SkinImage::KeyDown(i) => 20 + i,
        SkinImage::Note(i) => 27 + i,
        SkinImage::LongNoteHead(i) => 34 + i,
        SkinImage::LongNoteBody(i) => 41 + i,
        SkinImage::LongNoteTail(i) => 48 + i,
    }
}

/// The images in slot order.
pub open spec fn image_at(k: int) -> SkinImage {
    if k == 0 {
        SkinImage::Hit0
    } else if k == 1 {
        SkinImage::Hit50
    } else if k == 2 {
        SkinImage::Hit100
    } else if k == 3 {
        SkinImage::Hit200
    } else if k == 4 {
        SkinImage::Hit300
    } else if k == 5 {
        SkinImage::Hit300g
    } else if k == 6 {
        SkinImage::StageHint
    } else if k == 7 {
        SkinImage::StageLeft
    } else if k == 8 {
        SkinImage::StageRight
    } else if k == 9 {
        SkinImage::StageBottom
    } else if k == 10 {
        SkinImage::StageLight
    } else if k == 11 {
        SkinImage::LightingN
    } else if k == 12 {
        SkinImage::LightingL
    } else if k < 20 {
        SkinImage::Key((k - 13) as usize)
    } else if k < 27 {
        SkinImage::KeyDown((k - 20) as usize)
    } else if k < 34 {
        SkinImage::Note((k - 27) as usize)
    } else if k < 41 {
        SkinImage::LongNoteHead((k - 34) as usize)
    } else if k < 48 {
        SkinImage::LongNoteBody((k - 41) as usize)
    } else {
        SkinImage::LongNoteTail((k - 48) as usize)
    }
}

fn image_of_slot(k: usize) -> (r: SkinImage)
    requires
        k < 55,
    ensures
        r == image_at(k as int),
        image_ok(r),
        slot(r) == k,
{
    if k == 0 {
        SkinImage::Hit0
    } else if k == 1 {
        SkinImage::Hit50
    } else if k == 2 {
        SkinImage::Hit100
    } else if k == 3 {
        SkinImage::Hit200
    } else if k == 4 {
        SkinImage::Hit300
    } else if k == 5 {
        SkinImage::Hit300g
    } else if k == 6 {
        SkinImage::StageHint
    } else if k == 7 {
        SkinImage::StageLeft
    } else if k == 8 {
        SkinImage::StageRight
    } else if k == 9 {
        SkinImage::StageBottom
    } else if k == 10 {
        SkinImage::StageLight
    } else if k == 11 {
        SkinImage::LightingN
    } else if k == 12 {
        SkinImage::LightingL
    } else if k < 20 {
        SkinImage::Key(k - 13)
    } else if k < 27 {
        SkinImage::KeyDown(k - 20)
    } else if k < 34 {
        SkinImage::Note(k - 27)
    } else if k < 41 {
        SkinImage::LongNoteHead(k - 34)
    } else if k < 48 {
        SkinImage::LongNoteBody(k - 41)
    } else {
        SkinImage::LongNoteTail(k - 48)
    }
}

/// All the images of a skin, in slot order.
pub fn all_images() -> (r: Vec<SkinImage>)
    ensures
        r@.len() == image_count(),
        forall|k: int| 0 <= k < image_count() ==> #[trigger] r@[k] == image_at(k) && image_ok(r@[k]) && slot(
            r@[k],
        ) == k,
{
    let mut r: Vec<SkinImage> = Vec::new();
    let mut k: usize = 0;
    while k < 55
        invariant
            k <= 55,
            r@.len() == k,
            forall|j: int| 0 <= j < k ==> #[trigger] r@[j] == image_at(j) && image_ok(r@[j]) && slot(r@[j]) == j,
        decreases 55 - k,
    {
        r.push(image_of_slot(k));
        k = k + 1;
    }
    r
}

/// The kind of a column in the 7-key layout, as default image names spell
/// it: the columns follow the pattern `1 2 1 S 1 2 1`.
pub open spec fn column_kind(i: int) -> Seq<u8> {
    if i % 2 == 0 {
        seq![49u8]
    } else if i == 3 {
        seq![83u8]
    } else {
        seq![50u8]
    }
}

fn column_kind_bytes(i: usize) -> (r: Vec<u8>)
    ensures
        r@ == column_kind(i as int),
{
    let r = if i % 2 == 0 {
        vec![49u8]
    } else if i == 3 {
        vec![83u8]
    } else {
        vec![50u8]
    };
    assert(r@ =~= column_kind(i as int));
    r
}

/// The file name (without `.png`) an image has in the default skin.
pub open spec fn default_name(img: SkinImage) -> Seq<u8> {
    match img {
        SkinImage::Hit0 => word(Word::ManiaHit0),
        SkinImage::Hit50 => word(Word::ManiaHit50),
        SkinImage::Hit100 => word(Word::ManiaHit100),
        SkinImage::Hit200 => word(Word::ManiaHit200),
        SkinImage::Hit300 => word(Word::ManiaHit300),
        SkinImage::Hit300g => word(Word::ManiaHit300g),
        SkinImage::StageHint => word(Word::ManiaStageHint),
        SkinImage::StageLeft => word(Word::ManiaStageLeft),
        SkinImage::StageRight => word(Word::ManiaStageRight),
        SkinImage::StageBottom => word(Word::ManiaStageBottom),
        SkinImage::StageLight => word(Word::ManiaStageLight),
        SkinImage::LightingN => word(Word::DefaultLightingN),
        SkinImage::LightingL => word(Word::DefaultLightingL),
        SkinImage::Key(i) => word(Word::ManiaKey) + column_kind(i as int),
        SkinImage::KeyDown(i) => word(Word::ManiaKey) + column_kind(i as int) + seq![68u8],
        SkinImage::Note(i) => word(Word::ManiaNote) + column_kind(i as int),
        SkinImage::LongNoteHead(i) => word(Word::ManiaNote) + column_kind(i as int) + seq![72u8],
        SkinImage::LongNoteBody(i) => word(Word::ManiaNote) + column_kind(i as int) + seq![76u8],
        SkinImage::LongNoteTail(i) => word(Word::ManiaNote) + column_kind(i as int) + seq![84u8],
    }
}

fn concat(a: Vec<u8>, b: &[u8]) -> (r: Vec<u8>)
    ensures
        r@ == a@ + b@,
{
    let mut r = a;
    let mut i: usize = 0;
    let ghost a0 = r@;
    while i < b.len()
        invariant
            i <= b.len(),
            r@ == a0 + b@.take(i as int),
        decreases b.len() - i,
    {
        r.push(b[i]);
        assert(b@.take(i + 1) =~= b@.take(i as int).push(b@[i as int]));
        assert(a0 + b@.take(i + 1) =~= (a0 + b@.take(i as int)).push(b@[i as int]));
        i = i + 1;
    }
    assert(b@.take(i as int) =~= b@);
    r
}

/// The file name (without `.png`) an image has in the default skin.
pub fn default_image_name(img: SkinImage) -> (r: Vec<u8>)
    requires
        image_ok(img),
    ensures
        r@ == default_name(img),
{
    match img {
        SkinImage::Hit0 => word_bytes(Word::ManiaHit0),
        SkinImage::Hit50 => word_bytes(Word::ManiaHit50),
        SkinImage::Hit100 => word_bytes(Word::ManiaHit100),
        SkinImage::Hit200 => word_bytes(Word::ManiaHit200),
        SkinImage::Hit300 => word_bytes(Word::ManiaHit300),
        SkinImage::Hit300g => word_bytes(Word::ManiaHit300g),
        SkinImage::StageHint => word_bytes(Word::ManiaStageHint),
        SkinImage::StageLeft => word_bytes(Word::ManiaStageLeft),
        SkinImage::StageRight => word_bytes(Word::ManiaStageRight),
        SkinImage::StageBottom => word_bytes(Word::ManiaStageBottom),
        SkinImage::StageLight => word_bytes(Word::ManiaStageLight),
        SkinImage::LightingN => word_bytes(Word::DefaultLightingN),
        SkinImage::LightingL => word_bytes(Word::DefaultLightingL),
        SkinImage::Key(i) => concat(word_bytes(Word::ManiaKey), column_kind_bytes(i).as_slice()),
        SkinImage::KeyDown(i) => {
            let k = concat(word_bytes(Word::ManiaKey), column_kind_bytes(i).as_slice());
            concat(k, &[68u8])
        },
        SkinImage::Note(i) => concat(word_bytes(Word::ManiaNote), column_kind_bytes(i).as_slice()),
        SkinImage::LongNoteHead(i) => {
            let k = concat(word_bytes(Word::ManiaNote), column_kind_bytes(i).as_slice());
            concat(k, &[72u8])
        },
        SkinImage::LongNoteBody(i) => {
            let k = concat(word_bytes(Word::ManiaNote), column_kind_bytes(i).as_slice());
            concat(k, &[76u8])
        },
        SkinImage::LongNoteTail(i) => {
            let k = concat(word_bytes(Word::ManiaNote), column_kind_bytes(i).as_slice());
            concat(k, &[84u8])
        },
    }
}

// ---------------------------------------------------------------------------
// Settings
// ---------------------------------------------------------------------------

/// `prefix`, one digit naming `base + i` for `i` from 0 to 6, then `suffix`:
/// the `i` a key of that shape names.
pub open spec fn indexed(key: Seq<u8>, prefix: Seq<u8>, suffix: Seq<u8>, base: int) -> Option<int> {
    let p = prefix.len() as int;
    if key.len() == p + 1 + suffix.len() && key.take(p) == prefix && key.skip(p + 1) == suffix && 48
        + base <= key[p] <= 54 + base {
        Some(key[p] - 48 - base)
    } else {
        None
    }
}

fn indexed_key(key: &[u8], prefix: Word, suffix: &[u8], base: u8) -> (r: Option<usize>)
    requires
        base <= 1,
    ensures
        match r {
            Some(i) => indexed(key@, word(prefix), suffix@, base as int) == Some(i as int) && i < 7,
            None => indexed(key@, word(prefix), suffix@, base as int) is None,
        },
{
    let p = word_bytes(prefix);
    let pl = p.len();
    if key.len() <= pl || key.len() - pl - 1 != suffix.len() {
        return None;
    }
    let head = slice_to_vec(key, 0, pl);
    let tail = slice_to_vec(key, pl + 1, key.len());
    assert(head@ =~= key@.take(pl as int));
    assert(tail@ =~= key@.skip(pl + 1));
    if !bytes_eq(head.as_slice(), p.as_slice()) || !bytes_eq(tail.as_slice(), suffix) {
        return None;
    }
    let d = key[pl];
    if 48 + base <= d && d <= 54 + base {
        Some((d - 48 - base) as usize)
    } else {
        None
    }
}

/// The image a key of the `Mania` section names.
pub open spec fn image_of_key(key: Seq<u8>) -> Option<SkinImage> {
    if key == word(Word::Hit0) {
        Some(SkinImage::Hit0)
    } else if key == word(Word::Hit50) {
        Some(SkinImage::Hit50)
    } else if key == word(Word::Hit100) {
        Some(SkinImage::Hit100)
    } else if key == word(Word::Hit200) {
        Some(SkinImage::Hit200)
    } else if key == word(Word::Hit300) {
        Some(SkinImage::Hit300)
    } else if key == word(Word::Hit300g) {
        Some(SkinImage::Hit300g)
    } else if key == word(Word::StageHint) {
        Some(SkinImage::StageHint)
    } else if key == word(Word::StageLeft) {
        Some(SkinImage::StageLeft)
    } else if key == word(Word::StageRight) {
        Some(SkinImage::StageRight)
    } else if key == word(Word::StageBottom) {
        Some(SkinImage::StageBottom)
    } else if key == word(Word::StageLight) {
        Some(SkinImage::StageLight)
    } else if key == word(Word::LightingN) {
        Some(SkinImage::LightingN)
    } else if key == word(Word::LightingL) {
        Some(SkinImage::LightingL)
    } else if indexed(key, word(Word::KeyImage), seq![], 0) is Some {
        Some(SkinImage::Key(indexed(key, word(Word::KeyImage), seq![], 0)->0 as usize))
    } else if indexed(key, word(Word::KeyImage), seq![68u8], 0) is Some {
        Some(SkinImage::KeyDown(indexed(key, word(Word::KeyImage), seq![68u8], 0)->0 as usize))
    } else if indexed(key, word(Word::NoteImage), seq![], 0) is Some {
        Some(SkinImage::Note(indexed(key, word(Word::NoteImage), seq![], 0)->0 as usize))
    } else if indexed(key, word(Word::NoteImage), seq![72u8], 0) is Some {
        Some(SkinImage::LongNoteHead(indexed(key, word(Word::NoteImage), seq![72u8], 0)->0 as usize))
    } else if indexed(key, word(Word::NoteImage), seq![76u8], 0) is Some {
        Some(SkinImage::LongNoteBody(indexed(key, word(Word::NoteImage), seq![76u8], 0)->0 as usize))
    } else if indexed(key, word(Word::NoteImage), seq![84u8], 0) is Some {
        Some(SkinImage::LongNoteTail(indexed(key, word(Word::NoteImage), seq![84u8], 0)->0 as usize))
    } else {
        None
    }
}

fn image_for_key(key: &[u8]) -> (r: Option<SkinImage>)
    ensures
        r == image_of_key(key@),
        r matches Some(img) ==> image_ok(img),
{
    if is_word(key, Word::Hit0) {
        return Some(SkinImage::Hit0);
    }
    if is_word(key, Word::Hit50) {
        return Some(SkinImage::Hit50);
    }
    if is_word(key, Word::Hit100) {
        return Some(SkinImage::Hit100);
    }
    if is_word(key, Word::Hit200) {
        return Some(SkinImage::Hit200);
    }
    if is_word(key, Word::Hit300) {
        return Some(SkinImage::Hit300);
    }
    if is_word(key, Word::Hit300g) {
        return Some(SkinImage::Hit300g);
    }
    if is_word(key, Word::StageHint) {
        return Some(SkinImage::StageHint);
    }
    if is_word(key, Word::StageLeft) {
        return Some(SkinImage::StageLeft);
    }
    if is_word(key, Word::StageRight) {
        return Some(SkinImage::StageRight);
    }
    if is_word(key, Word::StageBottom) {
        return Some(SkinImage::StageBottom);
    }
    if is_word(key, Word::StageLight) {
        return Some(SkinImage::StageLight);
    }
    if is_word(key, Word::LightingN) {
        return Some(SkinImage::LightingN);
    }
    if is_word(key, Word::LightingL) {
        return Some(SkinImage::LightingL);
    }
    let none: [u8; 0] = [];
    assert(none@ =~= Seq::<u8>::empty());
    let d = [68u8];
    let h = [72u8];
    let l = [76u8];
    let t = [84u8];
    assert(d@ =~= seq![68u8]);
    assert(h@ =~= seq![72u8]);
    assert(l@ =~= seq![76u8]);
    assert(t@ =~= seq![84u8]);
    if let Some(i) = indexed_key(key, Word::KeyImage, &none, 0) {
        return Some(SkinImage::Key(i));
    }
    if let Some(i) = indexed_key(key, Word::KeyImage, &d, 0) {
        return Some(SkinImage::KeyDown(i));
    }
    if let Some(i) = indexed_key(key, Word::NoteImage, &none, 0) {
        return Some(SkinImage::Note(i));
    }
    if let Some(i) = indexed_key(key, Word::NoteImage, &h, 0) {
        return Some(SkinImage::LongNoteHead(i));
    }
    if let Some(i) = indexed_key(key, Word::NoteImage, &l, 0) {
        return Some(SkinImage::LongNoteBody(i));
    }
    if let Some(i) = indexed_key(key, Word::NoteImage, &t, 0) {
        return Some(SkinImage::LongNoteTail(i));
    }
    None
}

/// How the body of a long note is drawn.
#[derive(Copy, Clone, Debug, PartialEq, Eq, Structural)]
pub enum NoteBodyStyle {
    Stretch,
    CascadeFromTop,
    CascadeFromBottom,
}

/// The style a value names: `0`, `1` or `2`.
pub open spec fn style_of(v: Seq<u8>) -> Option<NoteBodyStyle> {
    if v == seq![48u8] {
        Some(NoteBodyStyle::Stretch)
    } else if v == seq![49u8] {
        Some(NoteBodyStyle::CascadeFromTop)
    } else if v == seq![50u8] {
        Some(NoteBodyStyle::CascadeFromBottom)
    } else {
        None
    }
}

impl NoteBodyStyle {
    /// The style a value names (see `style_of`).
    pub fn from_bytes(v: &[u8]) -> (r: Option<NoteBodyStyle>)
        ensures
            r == style_of(v@),
    {
        if v.len() != 1 {
            assert(v@ != seq![48u8] && v@ != seq![49u8] && v@ != seq![50u8]);
            return None;
        }
        assert(v@ =~= seq![v[0]]);
        if v[0] == 48 {
            Some(NoteBodyStyle::Stretch)
        } else if v[0] == 49 {
            Some(NoteBodyStyle::CascadeFromTop)
        } else if v[0] == 50 {
            Some(NoteBodyStyle::CascadeFromBottom)
        } else {
            None
        }
    }
}

/// A list of `count` numbers no larger than `max`, written `a,b,c,...`: the
/// first `count` pieces must each be a number (more pieces are ignored).
pub open spec fn csv_values(v: Seq<u8>, count: nat, max: nat) -> Option<Seq<nat>> {
    let parts = split_seq(v, 44);
    if parts.len() >= count && forall|i: int| 0 <= i < count ==> (#[trigger] parse_unsigned(parts[i], max)) is Some {
        Some(Seq::new(count, |i: int| parse_unsigned(parts[i], max)->0))
    } else {
        None
    }
}

fn csv_numbers(v: &[u8], count: usize, max: u64) -> (r: Option<Vec<u64>>)
    ensures
        match r {
            Some(x) => csv_values(v@, count as nat, max as nat) matches Some(c) && x@.len() == count
                && forall|i: int| 0 <= i < count ==> x@[i] as nat == #[trigger] c[i],
            None => csv_values(v@, count as nat, max as nat) is None,
        },
{
    let parts = split(v, 44);
    let ghost ps = split_seq(v@, 44);
    if parts.len() < count {
        return None;
    }
    let mut out: Vec<u64> = Vec::new();
    let mut i: usize = 0;
    while i < count
        invariant
            i <= count <= parts.len(),
            ps == split_seq(v@, 44),
            seq_views(parts@) == ps,
            out@.len() == i,
            forall|k: int| 0 <= k < i ==> parse_unsigned(ps[k], max as nat) == Some(out@[k] as nat),
        decreases count - i,
    {
        assert(parts@[i as int]@ == ps[i as int]);
        match crate::text::parse_unsigned_at_most(parts[i].as_slice(), max) {
            Some(x) => out.push(x),
            None => {
                return None;
            },
        }
        i = i + 1;
    }
    Some(out)
}

fn with7<T: Copy>(a: [T; 7], i: usize, x: T) -> (r: [T; 7])
    requires
        i < 7,
    ensures
        r@ == a@.update(i as int, x),
{
    let r = [
        if i == 0 { x } else { a[0] },
        if i == 1 { x } else { a[1] },
        if i == 2 { x } else { a[2] },
        if i == 3 { x } else { a[3] },
        if i == 4 { x } else { a[4] },
        if i == 5 { x } else { a[5] },
        if i == 6 { x } else { a[6] },
    ];
    assert(r@ =~= a@.update(i as int, x));
    r
}

// ---------------------------------------------------------------------------
// The settings of a skin
// ---------------------------------------------------------------------------

/// What a `skin.ini` says, as read so far. The numbers are kept as the file
/// writes them; scaling happens when drawing.
#[derive(Debug, Clone)]
pub struct SkinIni {
    /// The section the next lines belong to.
    pub section: Vec<u8>,
    /// The number of keys the current `Mania` section is for.
    pub keys: u8,
    pub column_start: u16,
    pub column_width: [u16; 7],
    pub column_line_width: [u16; 8],
    pub colour_column_line: [u8; 4],
    pub column_spacing: [u16; 6],
    pub colour_light: [[u8; 3]; 7],
    pub hit_position: u16,
    pub score_position: u16,
    pub light_position: u16,
    pub note_body_style: [NoteBodyStyle; 7],
    /// The file name (without `.png`) of each image in this skin, by `slot`.
    pub image_names: Vec<Vec<u8>>,
}

pub struct SkinIniView {
    pub section: Seq<u8>,
    pub keys: u8,
    pub column_start: u16,
    pub column_width: Seq<u16>,
    pub column_line_width: Seq<u16>,
    pub colour_column_line: Seq<u8>,
    pub column_spacing: Seq<u16>,
    pub colour_light: Seq<Seq<u8>>,
    pub hit_position: u16,
    pub score_position: u16,
    pub light_position: u16,
    pub note_body_style: Seq<NoteBodyStyle>,
    pub image_names: Seq<Seq<u8>>,
}

impl View for SkinIni {
    type V = SkinIniView;

    open spec fn view(&self) -> SkinIniView {
        SkinIniView {
            section: self.section@,
            keys: self.keys,
            column_start: self.column_start,
            column_width: self.column_width@,
            column_line_width: self.column_line_width@,
            colour_column_line: self.colour_column_line@,
            column_spacing: self.column_spacing@,
            colour_light: self.colour_light@.map_values(|c: [u8; 3]| c@),
            hit_position: self.hit_position,
            score_position: self.score_position,
            light_position: self.light_position,
            note_body_style: self.note_body_style@,
            image_names: seq_views(self.image_names@),
        }
    }
}

/// The settings before any line is read: section `General`, no key count,
/// the default layout, and every image named as in the default skin.
pub open spec fn initial_ini() -> SkinIniView {
    SkinIniView {
        section: seq![71u8, 101, 110, 101, 114, 97, 108],
        keys: 0,
        column_start: 136,
        column_width: Seq::new(7, |i: int| 30u16),
        column_line_width: Seq::new(8, |i: int| 2u16),
        colour_column_line: Seq::new(4, |i: int| 255u8),
        column_spacing: Seq::new(6, |i: int| 0u16),
        colour_light: Seq::new(7, |i: int| seq![255u8, 255, 255]),
        hit_position: 402,
        score_position: 240,
        light_position: 413,
        note_body_style: Seq::new(7, |i: int| NoteBodyStyle::CascadeFromTop),
        image_names: Seq::new(image_count(), |k: int| default_name(image_at(k))),
    }
}

/// What a `Key: value` line of the `Mania` section (with 7 keys) changes.
pub open spec fn setting_step(st: SkinIniView, key: Seq<u8>, value: Seq<u8>) -> SkinIniView {
    if key == word(Word::ColumnStart) {
        match parse_unsigned(value, 65535) {
            Some(v) => SkinIniView { column_start: v as u16, ..st },
            None => st,
        }
    } else if key == word(Word::HitPosition) {
        match parse_unsigned(value, 65535) {
            Some(v) => SkinIniView { hit_position: v as u16, ..st },
            None => st,
        }
    } else if key == word(Word::ScorePosition) {
        match parse_unsigned(value, 65535) {
            Some(v) => SkinIniView { score_position: v as u16, ..st },
            None => st,
        }
    } else if key == word(Word::LightPosition) {
        match parse_unsigned(value, 65535) {
            Some(v) => SkinIniView { light_position: v as u16, ..st },
            None => st,
        }
    } else if key == word(Word::ColumnWidth) {
        match csv_values(value, 7, 65535) {
            Some(v) => SkinIniView { column_width: v.map_values(|x: nat| x as u16), ..st },
            None => st,
        }
    } else if key == word(Word::ColumnLineWidth) {
        match csv_values(value, 8, 65535) {
            Some(v) => SkinIniView { column_line_width: v.map_values(|x: nat| x as u16), ..st },
            None => st,
        }
    } else if key == word(Word::ColourColumnLine) {
        match csv_values(value, 4, 255) {
            Some(v) => SkinIniView { colour_column_line: v.map_values(|x: nat| x as u8), ..st },
            None => st,
        }
    } else if key == word(Word::ColumnSpacing) {
        match csv_values(value, 6, 65535) {
            Some(v) => SkinIniView { column_spacing: v.map_values(|x: nat| x as u16), ..st },
            None => st,
        }
    } else if key == word(Word::NoteBodyStyle) {
        match style_of(value) {
            Some(b) => SkinIniView { note_body_style: Seq::new(7, |i: int| b), ..st },
            None => st,
        }
    } else if image_of_key(key) is Some {
        SkinIniView {
            image_names: st.image_names.update(slot(image_of_key(key)->0), value),
            ..st
        }
    } else if indexed(key, word(Word::ColourLight), seq![], 1) is Some {
        match csv_values(value, 3, 255) {
            Some(v) => SkinIniView {
                colour_light: st.colour_light.update(
                    indexed(key, word(Word::ColourLight), seq![], 1)->0,
                    v.map_values(|x: nat| x as u8),
                ),
                ..st
            },
            None => st,
        }
    } else if indexed(key, word(Word::NoteBodyStyle), seq![], 0) is Some {
        match style_of(value) {
            Some(b) => SkinIniView {
                note_body_style: st.note_body_style.update(
                    indexed(key, word(Word::NoteBodyStyle), seq![], 0)->0,
                    b,
                ),
                ..st
            },
            None => st,
        }
    } else {
        st
    }
}

/// What reading one line of a `skin.ini` changes.
pub open spec fn ini_step(st: SkinIniView, line: Seq<u8>) -> SkinIniView {
    let t = trim_seq(line);
    if t.len() > 0 && t[0] == 91 && t[t.len() - 1] == 93 {
        SkinIniView { section: t.subrange(1, t.len() - 1), ..st }
    } else if t.len() == 0 || (t.len() >= 2 && t[0] == 47 && t[1] == 47) {
        st
    } else {
        match first_index(t, 58) {
            None => st,
            Some(n) => {
                let key = trim_seq(t.take(n));
                let value = trim_seq(t.skip(n + 1));
                if key == word(Word::Keys) {
                    match parse_unsigned(value, 255) {
                        Some(k) => SkinIniView { keys: k as u8, ..st },
                        None => st,
                    }
                } else if st.keys == 7 && st.section == word(Word::Mania) {
                    setting_step(st, key, value)
                } else {
                    st
                }
            },
        }
    }
}

/// What reading the lines of a `skin.ini` in order gives.
pub open spec fn ini_run(lines: Seq<Seq<u8>>) -> SkinIniView
    decreases lines.len(),
{
    if lines.len() == 0 {
        initial_ini()
    } else {
        ini_step(ini_run(lines.drop_last()), lines.last())
    }
}

fn arr7_u16(v: &Vec<u64>) -> (r: [u16; 7])
    requires
        v.len() == 7,
        forall|i: int| 0 <= i < 7 ==> v@[i] <= 65535,
    ensures
        forall|i: int| 0 <= i < 7 ==> r@[i] as u64 == v@[i],
        r@.len() == 7,
{
    [v[0] as u16, v[1] as u16, v[2] as u16, v[3] as u16, v[4] as u16, v[5] as u16, v[6] as u16]
}

fn arr8_u16(v: &Vec<u64>) -> (r: [u16; 8])
    requires
        v.len() == 8,
        forall|i: int| 0 <= i < 8 ==> v@[i] <= 65535,
    ensures
        forall|i: int| 0 <= i < 8 ==> r@[i] as u64 == v@[i],
        r@.len() == 8,
{
    [v[0] as u16, v[1] as u16, v[2] as u16, v[3] as u16, v[4] as u16, v[5] as u16, v[6] as u16, v[7] as u16]
}

fn arr6_u16(v: &Vec<u64>) -> (r: [u16; 6])
    requires
        v.len() == 6,
        forall|i: int| 0 <= i < 6 ==> v@[i] <= 65535,
    ensures
        forall|i: int| 0 <= i < 6 ==> r@[i] as u64 == v@[i],
        r@.len() == 6,
{
    [v[0] as u16, v[1] as u16, v[2] as u16, v[3] as u16, v[4] as u16, v[5] as u16]
}

fn arr4_u8(v: &Vec<u64>) -> (r: [u8; 4])
    requires
        v.len() == 4,
        forall|i: int| 0 <= i < 4 ==> v@[i] <= 255,
    ensures
        forall|i: int| 0 <= i < 4 ==> r@[i] as u64 == v@[i],
        r@.len() == 4,
{
    [v[0] as u8, v[1] as u8, v[2] as u8, v[3] as u8]
}

fn arr3_u8(v: &Vec<u64>) -> (r: [u8; 3])
    requires
        v.len() == 3,
        forall|i: int| 0 <= i < 3 ==> v@[i] <= 255,
    ensures
        forall|i: int| 0 <= i < 3 ==> r@[i] as u64 == v@[i],
        r@.len() == 3,
{
    [v[0] as u8, v[1] as u8, v[2] as u8]
}

proof fn lemma_csv_bound(v: Seq<u8>, count: nat, max: nat, i: int)
    requires
        csv_values(v, count, max) is Some,
        0 <= i < count,
    ensures
        csv_values(v, count, max)->0[i] <= max,
{
    let parts = split_seq(v, 44);
    assert(parse_unsigned(parts[i], max) is Some);
}

impl SkinIni {
    /// The settings before any line is read (see `initial_ini`).
    pub fn new() -> (r: SkinIni)
        ensures
            r@ == initial_ini(),
            r.image_names.len() == image_count(),
    {
        let mut names: Vec<Vec<u8>> = Vec::new();
        let mut k: usize = 0;
        while k < 55
            invariant
                k <= 55,
                names@.len() == k,
                forall|j: int| 0 <= j < k ==> #[trigger] names@[j]@ == default_name(image_at(j)),
            decreases 55 - k,
        {
            let img = image_of_slot(k);
            names.push(default_image_name(img));
            k = k + 1;
        }
        let section = vec![71u8, 101, 110, 101, 114, 97, 108];
        let r = SkinIni {
            section: section,
            keys: 0,
            column_start: 136,
            column_width: [30u16, 30, 30, 30, 30, 30, 30],
            column_line_width: [2u16, 2, 2, 2, 2, 2, 2, 2],
            colour_column_line: [255u8, 255, 255, 255],
            column_spacing: [0u16, 0, 0, 0, 0, 0],
            colour_light: [
                [255u8, 255, 255],
                [255u8, 255, 255],
                [255u8, 255, 255],
                [255u8, 255, 255],
                [255u8, 255, 255],
                [255u8, 255, 255],
                [255u8, 255, 255],
            ],
            hit_position: 402,
            score_position: 240,
            light_position: 413,
            note_body_style: [
                NoteBodyStyle::CascadeFromTop,
                NoteBodyStyle::CascadeFromTop,
                NoteBodyStyle::CascadeFromTop,
                NoteBodyStyle::CascadeFromTop,
                NoteBodyStyle::CascadeFromTop,
                NoteBodyStyle::CascadeFromTop,
                NoteBodyStyle::CascadeFromTop,
            ],
            image_names: names,
        };
        assert(r@.section =~= initial_ini().section);
        assert(r@.column_width =~= initial_ini().column_width);
        assert(r@.column_line_width =~= initial_ini().column_line_width);
        assert(r@.colour_column_line =~= initial_ini().colour_column_line);
        assert(r@.column_spacing =~= initial_ini().column_spacing);
        assert(r@.colour_light =~= initial_ini().colour_light) by {
            assert forall|i: int| 0 <= i < 7 implies r@.colour_light[i] == initial_ini().colour_light[i] by {
                assert(r.colour_light@[i]@ =~= seq![255u8, 255, 255]);
            }
        }
        assert(r@.note_body_style =~= initial_ini().note_body_style);
        assert(r@.image_names =~= initial_ini().image_names);
        r
    }

    /// Applies a `Key: value` line of the `Mania` section (with 7 keys).
    fn apply_setting(&mut self, key: &[u8], value: &[u8])
        requires
            old(self).image_names.len() == image_count(),
        ensures
            final(self)@ == setting_step(old(self)@, key@, value@),
            final(self).image_names.len() == image_count(),
    {
        if is_word(key, Word::ColumnStart) {
            if let Some(v) = parse_u16(value) {
                self.column_start = v;
            }
            return;
        }
        if is_word(key, Word::HitPosition) {
            if let Some(v) = parse_u16(value) {
                self.hit_position = v;
            }
            return;
        }
        if is_word(key, Word::ScorePosition) {
            if let Some(v) = parse_u16(value) {
                self.score_position = v;
            }
            return;
        }
        if is_word(key, Word::LightPosition) {
            if let Some(v) = parse_u16(value) {
                self.light_position = v;
            }
            return;
        }
        if is_word(key, Word::ColumnWidth) {
            if let Some(v) = csv_numbers(value, 7, 65535) {
                proof {
                    assert forall|i: int| 0 <= i < 7 implies v@[i] <= 65535 by {
                        lemma_csv_bound(value@, 7, 65535, i);
                    }
                }
                self.column_width = arr7_u16(&v);
                assert(self.column_width@ =~= csv_values(value@, 7, 65535)->0.map_values(|x: nat| x as u16));
            }
            return;
        }
        if is_word(key, Word::ColumnLineWidth) {
            if let Some(v) = csv_numbers(value, 8, 65535) {
                proof {
                    assert forall|i: int| 0 <= i < 8 implies v@[i] <= 65535 by {
                        lemma_csv_bound(value@, 8, 65535, i);
                    }
                }
                self.column_line_width = arr8_u16(&v);
                assert(self.column_line_width@ =~= csv_values(value@, 8, 65535)->0.map_values(
                    |x: nat| x as u16,
                ));
            }
            return;
        }
        if is_word(key, Word::ColourColumnLine) {
            if let Some(v) = csv_numbers(value, 4, 255) {
                proof {
                    assert forall|i: int| 0 <= i < 4 implies v@[i] <= 255 by {
                        lemma_csv_bound(value@, 4, 255, i);
                    }
                }
                self.colour_column_line = arr4_u8(&v);
                assert(self.colour_column_line@ =~= csv_values(value@, 4, 255)->0.map_values(
                    |x: nat| x as u8,
                ));
            }
            return;
        }
        if is_word(key, Word::ColumnSpacing) {
            if let Some(v) = csv_numbers(value, 6, 65535) {
                proof {
                    assert forall|i: int| 0 <= i < 6 implies v@[i] <= 65535 by {
                        lemma_csv_bound(value@, 6, 65535, i);
                    }
                }
                self.column_spacing = arr6_u16(&v);
                assert(self.column_spacing@ =~= csv_values(value@, 6, 65535)->0.map_values(
                    |x: nat| x as u16,
                ));
            }
            return;
        }
        if is_word(key, Word::NoteBodyStyle) {
            if let Some(b) = NoteBodyStyle::from_bytes(value) {
                self.note_body_style = [b, b, b, b, b, b, b];
                assert(self.note_body_style@ =~= Seq::new(7, |i: int| b));
            }
            return;
        }
        if let Some(img) = image_for_key(key) {
            let k = image_slot(img);
            let ghost before = self.image_names@;
            self.image_names.set(k, slice_to_vec(value, 0, value.len()));
            proof {
                assert(value@.subrange(0, value.len() as int) =~= value@);
                assert(seq_views(self.image_names@) =~= seq_views(before).update(k as int, value@));
            }
            return;
        }
        let none: [u8; 0] = [];
        assert(none@ =~= Seq::<u8>::empty());
        if let Some(i) = indexed_key(key, Word::ColourLight, &none, 1) {
            if let Some(v) = csv_numbers(value, 3, 255) {
                proof {
                    assert forall|j: int| 0 <= j < 3 implies v@[j] <= 255 by {
                        lemma_csv_bound(value@, 3, 255, j);
                    }
                }
                let c = arr3_u8(&v);
                let ghost before = self.colour_light@;
                self.colour_light = with7(self.colour_light, i, c);
                proof {
                    assert(c@ =~= csv_values(value@, 3, 255)->0.map_values(|x: nat| x as u8));
                    assert(self.colour_light@.map_values(|a: [u8; 3]| a@) =~= before.map_values(
                        |a: [u8; 3]| a@,
                    ).update(i as int, c@));
                }
            }
            return;
        }
        if let Some(i) = indexed_key(key, Word::NoteBodyStyle, &none, 0) {
            if let Some(b) = NoteBodyStyle::from_bytes(value) {
                self.note_body_style = with7(self.note_body_style, i, b);
            }
            return;
        }
    }

    /// Reads one line of a `skin.ini` (see `ini_step`).
    pub fn read_line(&mut self, line: &[u8])
        requires
            old(self).image_names.len() == image_count(),
        ensures
            final(self)@ == ini_step(old(self)@, line@),
            final(self).image_names.len() == image_count(),
    {
        let t = trim(line);
        let n = t.len();
        if n > 0 && t[0] == 91 && t[n - 1] == 93 {
            self.section = slice_to_vec(t.as_slice(), 1, n - 1);
            return;
        }
        if n == 0 || (n >= 2 && t[0] == 47 && t[1] == 47) {
            return;
        }
        let c = match find(t.as_slice(), 58) {
            Some(c) => c,
            None => return,
        };
        assert(is_first_index(t@, 58, c as int));
        let k = slice_to_vec(t.as_slice(), 0, c);
        let v = slice_to_vec(t.as_slice(), c + 1, n);
        assert(k@ =~= t@.take(c as int));
        assert(v@ =~= t@.skip(c + 1));
        let key = trim(k.as_slice());
        let value = trim(v.as_slice());
        if is_word(key.as_slice(), Word::Keys) {
            if let Some(x) = parse_u8(value.as_slice()) {
                self.keys = x;
            }
            return;
        }
        if self.keys == 7 && is_word(self.section.as_slice(), Word::Mania) {
            self.apply_setting(key.as_slice(), value.as_slice());
        }
    }
}

/// Reads the lines of a `skin.ini` (without their line breaks).
pub fn read_skin_ini(lines: &Vec<Vec<u8>>) -> (r: SkinIni)
    ensures
        r@ == ini_run(seq_views(lines@)),
        r.image_names.len() == image_count(),
{
    let mut ini = SkinIni::new();
    let mut i: usize = 0;
    while i < lines.len()
        invariant
            i <= lines.len(),
            ini.image_names.len() == image_count(),
            ini@ == ini_run(seq_views(lines@).take(i as int)),
        decreases lines.len() - i,
    {
        assert(seq_views(lines@).take(i + 1).drop_last() =~= seq_views(lines@).take(i as int));
        ini.read_line(lines[i].as_slice());
        i = i + 1;
    }
    assert(seq_views(lines@).take(i as int) =~= seq_views(lines@));
    ini
}

impl SkinIni {
    /// The file name (without `.png`) of an image: the one this skin gives it,
    /// and the one it has in the default skin.
    pub fn image_name(&self, img: SkinImage) -> (r: (Vec<u8>, Vec<u8>))
        requires
            self.image_names.len() == image_count(),
            image_ok(img),
        ensures
            r.0@ == self@.image_names[slot(img)],
            r.1@ == default_name(img),
    {
        let k = image_slot(img);
        let v = &self.image_names[k];
        let c = slice_to_vec(v.as_slice(), 0, v.len());
        assert(v@.subrange(0, v.len() as int) =~= v@);
        (c, default_image_name(img))
    }
}

/// A line `key:digits` of the `Mania` section of a 7-key skin, with a key
/// of letters, is read as the setting `key` with the value `digits`.
proof fn lemma_mania_setting_line(st: SkinIniView, key: Seq<u8>, digits: Seq<u8>)
    requires
        st.keys == 7,
        st.section == word(Word::Mania),
        key.len() > 4,
        forall|i: int| 0 <= i < key.len() ==> is_alnum(#[trigger] key[i]),
        digits.len() > 0,
        all_digits(digits),
    ensures
        ini_step(st, key + seq![58u8] + digits) == setting_step(st, key, digits),
{
    let line = key + seq![58u8] + digits;
    let n = key.len() as int;
    assert(line[0] == key[0]);
    assert(line[line.len() - 1] == digits[digits.len() - 1]);
    lemma_trim_alnum_ends(line);
    assert(is_first_index(line, 58, n)) by {
        assert forall|j: int| 0 <= j < n implies line[j] != 58 by {
            assert(line[j] == key[j]);
        }
    }
    lemma_first_index_unique(line, 58, n);
    assert(line.take(n) =~= key);
    assert(line.skip(n + 1) =~= digits);
    lemma_trim_alnum_ends(key);
    lemma_trim_alnum_ends(digits);
    assert(key != word(Word::Keys));
    assert(!(line.len() >= 2 && line[0] == 47 && line[1] == 47));
    assert(line[0] != 91);
}

/// In the `Mania` section of a 7-key skin, `ColumnStart:n` with `n` a number up
/// to 65535 sets `column_start` to `n` and changes nothing else.
pub proof fn lemma_mania_column_start_line(st: SkinIniView, digits: Seq<u8>)
    requires
        st.keys == 7,
        st.section == seq![77u8, 97, 110, 105, 97],
        digits.len() > 0,
        all_digits(digits),
        digits_value(digits) <= 65535,
    ensures
        ini_step(st, seq![67u8, 111, 108, 117, 109, 110, 83, 116, 97, 114, 116, 58] + digits) == (SkinIniView { column_start: digits_value(digits) as u16, ..st }),
{
    lemma_mania_setting_line(st, seq![67u8, 111, 108, 117, 109, 110, 83, 116, 97, 114, 116], digits);
    assert(seq![67u8, 111, 108, 117, 109, 110, 83, 116, 97, 114, 116] + seq![58u8] + digits =~= seq![67u8, 111, 108, 117, 109, 110, 83, 116, 97, 114, 116, 58] + digits);
}

/// In the `Mania` section of a 7-key skin, `HitPosition:n` with `n` a number up
/// to 65535 sets `hit_position` to `n` and changes nothing else.
pub proof fn lemma_mania_hit_position_line(st: SkinIniView, digits: Seq<u8>)
    requires
        st.keys == 7,
        st.section == seq![77u8, 97, 110, 105, 97],
        digits.len() > 0,
        all_digits(digits),
        digits_value(digits) <= 65535,
    ensures
        ini_step(st, seq![72u8, 105, 116, 80, 111, 115, 105, 116, 105, 111, 110, 58] + digits) == (SkinIniView { hit_position: digits_value(digits) as u16, ..st }),
{
    lemma_mania_setting_line(st, seq![72u8, 105, 116, 80, 111, 115, 105, 116, 105, 111, 110], digits);
    assert(seq![72u8, 105, 116, 80, 111, 115, 105, 116, 105, 111, 110] + seq![58u8] + digits =~= seq![72u8, 105, 116, 80, 111, 115, 105, 116, 105, 111, 110, 58] + digits);
}

/// In the `Mania` section of a 7-key skin, `ScorePosition:n` with `n` a number up
/// to 65535 sets `score_position` to `n` and changes nothing else.
pub proof fn lemma_mania_score_position_line(st: SkinIniView, digits: Seq<u8>)
    requires
        st.keys == 7,
        st.section == seq![77u8, 97, 110, 105, 97],
        digits.len() > 0,
        all_digits(digits),
        digits_value(digits) <= 65535,
    ensures
        ini_step(st, seq![83u8, 99, 111, 114, 101, 80, 111, 115, 105, 116, 105, 111, 110, 58] + digits) == (SkinIniView { score_position: digits_value(digits) as u16, ..st }),
{
    lemma_mania_setting_line(st, seq![83u8, 99, 111, 114, 101, 80, 111, 115, 105, 116, 105, 111, 110], digits);
    assert(seq![83u8, 99, 111, 114, 101, 80, 111, 115, 105, 116, 105, 111, 110] + seq![58u8] + digits =~= seq![83u8, 99, 111, 114, 101, 80, 111, 115, 105, 116, 105, 111, 110, 58] + digits);
}

/// In the `Mania` section of a 7-key skin, `LightPosition:n` with `n` a number up
/// to 65535 sets `light_position` to `n` and changes nothing else.
pub proof fn lemma_mania_light_position_line(st: SkinIniView, digits: Seq<u8>)
    requires
        st.keys == 7,
        st.section == seq![77u8, 97, 110, 105, 97],
        digits.len() > 0,
        all_digits(digits),
        digits_value(digits) <= 65535,
    ensures
        ini_step(st, seq![76u8, 105, 103, 104, 116, 80, 111, 115, 105, 116, 105, 111, 110, 58] + digits) == (SkinIniView { light_position: digits_value(digits) as u16, ..st }),
{
    lemma_mania_setting_line(st, seq![76u8, 105, 103, 104, 116, 80, 111, 115, 105, 116, 105, 111, 110], digits);
    assert(seq![76u8, 105, 103, 104, 116, 80, 111, 115, 105, 116, 105, 111, 110] + seq![58u8] + digits =~= seq![76u8, 105, 103, 104, 116, 80, 111, 115, 105, 116, 105, 111, 110, 58] + digits);
}

/// Blank lines, comment lines and lines without `:` change nothing.
pub proof fn lemma_ini_ignored_lines(st: SkinIniView, line: Seq<u8>)
    requires
        ({
            let t = trim_seq(line);
            &&& !(t.len() > 0 && t[0] == 91 && t[t.len() - 1] == 93)
            &&& (t.len() == 0 || (t.len() >= 2 && t[0] == 47 && t[1] == 47) || first_index(t, 58) is None)
        }),
    ensures
        ini_step(st, line) == st,
{
}

/// Outside a `Mania` section for 7 keys, a line changes at most the section
/// and the key count.
pub proof fn lemma_ini_outside_mania(st: SkinIniView, line: Seq<u8>)
    requires
        !(st.keys == 7 && st.section == word(Word::Mania)),
    ensures
        ini_step(st, line) == (SkinIniView {
            section: ini_step(st, line).section,
            keys: ini_step(st, line).keys,
            ..st
        }),
{
}

// ---------------------------------------------------------------------------
// Finding image files
// ---------------------------------------------------------------------------

/// Where an image file is looked for: the skin's directory, then the default
/// skin's.
#[derive(Copy, Clone, Debug, PartialEq, Eq, Structural)]
pub enum ImageDir {
    Skin,
    Default,
}

/// What finding the files of an image asks for next.
#[derive(Clone, Debug, PartialEq, Eq)]
pub enum ImageAction {
    /// Has an image already been loaded under this name? (Answer with
    /// `true` or `false`.)
    LookUp(Vec<u8>),
    /// Is this file in the directory? (Answer with `true` or `false`.)
    Exists(ImageDir, Vec<u8>),
    /// Done: use what was loaded under this name.
    UseLoaded(Vec<u8>),
    /// Done: load these files of the directory, in order (the frames of an
    /// animation, or one image), and keep them under the name that was
    /// searched for (the third field) for later look-ups.
    Load(ImageDir, Vec<Vec<u8>>, Vec<u8>),
    /// Done: the image has no file.
    Missing,
}

/// Where the search is within a directory.
#[derive(Copy, Clone, Debug, PartialEq, Eq, Structural)]
pub enum ImagePhase {
    /// Asked whether the name was loaded before.
    LookUp,
    /// Asked for frame `n` of an animation, `name-n.png`.
    Frame(u64),
    /// Asked for the single image `name.png`.
    Single,
    /// Finished.
    Done,
}

/// Finding the files of one image. An image that may be animated is looked
/// for as the frames `name-0.png`, `name-1.png`, ... (as many as there are
/// in a row), else as `name.png`; an image that may not be animated only as
/// `name.png`. The skin's name for the image is tried in the skin's directory
/// first, then the default name in the default skin's directory; each name is
/// first looked up among the images loaded so far.
#[derive(Clone, Debug)]
pub struct ImageSearch {
    pub animated: bool,
    /// The name in the skin's directory, then the default name.
    pub names: Vec<Vec<u8>>,
    /// 0 for the skin's directory, 1 for the default skin's.
    pub stage: usize,
    pub phase: ImagePhase,
    /// The frames found so far.
    pub frames: Vec<Vec<u8>>,
}

pub struct ImageSearchView {
    pub animated: bool,
    pub names: Seq<Seq<u8>>,
    pub stage: int,
    pub phase: ImagePhase,
    pub frames: Seq<Seq<u8>>,
}

impl View for ImageSearch {
    type V = ImageSearchView;

    open spec fn view(&self) -> ImageSearchView {
        ImageSearchView {
            animated: self.animated,
            names: seq_views(self.names@),
            stage: self.stage as int,
            phase: self.phase,
            frames: seq_views(self.frames@),
        }
    }
}

pub enum ImageActionView {
    LookUp(Seq<u8>),
    Exists(ImageDir, Seq<u8>),
    UseLoaded(Seq<u8>),
    Load(ImageDir, Seq<Seq<u8>>, Seq<u8>),
    Missing,
}

pub open spec fn action_view(a: ImageAction) -> ImageActionView {
    match a {
        ImageAction::LookUp(n) => ImageActionView::LookUp(n@),
        ImageAction::Exists(d, f) => ImageActionView::Exists(d, f@),
        ImageAction::UseLoaded(n) => ImageActionView::UseLoaded(n@),
        ImageAction::Load(d, fs, n) => ImageActionView::Load(d, seq_views(fs@), n@),
        ImageAction::Missing => ImageActionView::Missing,
    }
}

/// `.png`
pub open spec fn png() -> Seq<u8> {
    seq![46u8, 112, 110, 103]
}

/// `name-n.png`
pub open spec fn frame_file(name: Seq<u8>, n: nat) -> Seq<u8> {
    name + seq![45u8] + decimal(n) + png()
}

/// `name.png`
pub open spec fn single_file(name: Seq<u8>) -> Seq<u8> {
    name + png()
}

pub open spec fn stage_dir(stage: int) -> ImageDir {
    if stage == 0 {
        ImageDir::Skin
    } else {
        ImageDir::Default
    }
}

/// The first question of a directory's search, once its name was not found
/// among the loaded images.
pub open spec fn first_probe(s: ImageSearchView) -> (ImageSearchView, ImageActionView) {
    let name = s.names[s.stage];
    if s.animated {
        (
            ImageSearchView { phase: ImagePhase::Frame(0), frames: seq![], ..s },
            ImageActionView::Exists(stage_dir(s.stage), frame_file(name, 0)),
        )
    } else {
        (
            ImageSearchView { phase: ImagePhase::Single, ..s },
            ImageActionView::Exists(stage_dir(s.stage), single_file(name)),
        )
    }
}

/// What the answer `yes` to the last question leads to.
pub open spec fn search_step(s: ImageSearchView, yes: bool) -> (ImageSearchView, ImageActionView) {
    let name = s.names[s.stage];
    let dir = stage_dir(s.stage);
    match s.phase {
        ImagePhase::LookUp => if yes {
            (ImageSearchView { phase: ImagePhase::Done, ..s }, ImageActionView::UseLoaded(name))
        } else {
            first_probe(s)
        },
        ImagePhase::Frame(n) => if yes && n < u64::MAX {
            let frames = s.frames.push(frame_file(name, n as nat));
            (
                ImageSearchView { phase: ImagePhase::Frame((n + 1) as u64), frames: frames, ..s },
                ImageActionView::Exists(dir, frame_file(name, (n + 1) as nat)),
            )
        } else if yes {
            (
                ImageSearchView { phase: ImagePhase::Done, ..s },
                ImageActionView::Load(dir, s.frames.push(frame_file(name, n as nat)), name),
            )
        } else if n > 0 {
            (ImageSearchView { phase: ImagePhase::Done, ..s }, ImageActionView::Load(dir, s.frames, name))
        } else {
            (
                ImageSearchView { phase: ImagePhase::Single, ..s },
                ImageActionView::Exists(dir, single_file(name)),
            )
        },
        ImagePhase::Single => if yes {
            (
                ImageSearchView { phase: ImagePhase::Done, ..s },
                ImageActionView::Load(dir, seq![single_file(name)], name),
            )
        } else if s.stage == 0 {
            (
                ImageSearchView { stage: 1, phase: ImagePhase::LookUp, ..s },
                ImageActionView::LookUp(s.names[1]),
            )
        } else {
            (ImageSearchView { phase: ImagePhase::Done, ..s }, ImageActionView::Missing)
        },
        ImagePhase::Done => (s, ImageActionView::Missing),
    }
}

/// The search is in a state it can be in.
pub open spec fn search_wf(s: ImageSearchView) -> bool {
    &&& s.names.len() == 2
    &&& 0 <= s.stage < 2
    &&& (s.phase matches ImagePhase::Frame(n) ==> s.frames.len() == n)
}

fn frame_file_bytes(name: &[u8], n: u64) -> (r: Vec<u8>)
    ensures
        r@ == frame_file(name@, n as nat),
{
    let dash = [45u8];
    let a = concat_bytes(name, &dash);
    let d = decimal_bytes(n);
    let b = concat_bytes(a.as_slice(), d.as_slice());
    let p = [46u8, 112, 110, 103];
    assert(p@ =~= png());
    assert(dash@ =~= seq![45u8]);
    concat_bytes(b.as_slice(), &p)
}

fn single_file_bytes(name: &[u8]) -> (r: Vec<u8>)
    ensures
        r@ == single_file(name@),
{
    let p = [46u8, 112, 110, 103];
    assert(p@ =~= png());
    concat_bytes(name, &p)
}

fn copy_vec(v: &Vec<u8>) -> (r: Vec<u8>)
    ensures
        r@ == v@,
{
    let r = slice_to_vec(v.as_slice(), 0, v.len());
    assert(v@.subrange(0, v.len() as int) =~= v@);
    r
}

fn copy_frames(v: &Vec<Vec<u8>>) -> (r: Vec<Vec<u8>>)
    ensures
        seq_views(r@) == seq_views(v@),
{
    let mut r: Vec<Vec<u8>> = Vec::new();
    let mut i: usize = 0;
    while i < v.len()
        invariant
            i <= v.len(),
            seq_views(r@) == seq_views(v@).take(i as int),
        decreases v.len() - i,
    {
        let ghost before = seq_views(r@);
        r.push(copy_vec(&v[i]));
        assert(seq_views(r@) =~= before.push(v@[i as int]@));
        assert(seq_views(v@).take(i + 1) =~= seq_views(v@).take(i as int).push(v@[i as int]@));
        i = i + 1;
    }
    assert(seq_views(v@).take(i as int) =~= seq_views(v@));
    r
}

impl ImageSearch {
    /// Starts finding the files of an image: the skin's name for it is looked
    /// up first.
    pub fn new(animated: bool, skin_name: &[u8], default_name: &[u8]) -> (r: (ImageSearch, ImageAction))
        ensures
            search_wf(r.0@),
            r.0@.animated == animated,
            r.0@.names == seq![skin_name@, default_name@],
            r.0@.stage == 0,
            r.0@.phase == ImagePhase::LookUp,
            r.0@.frames.len() == 0,
            action_view(r.1) == ImageActionView::LookUp(skin_name@),
    {
        let mut names: Vec<Vec<u8>> = Vec::new();
        names.push(slice_to_vec(skin_name, 0, skin_name.len()));
        names.push(slice_to_vec(default_name, 0, default_name.len()));
        assert(skin_name@.subrange(0, skin_name.len() as int) =~= skin_name@);
        assert(default_name@.subrange(0, default_name.len() as int) =~= default_name@);
        let s = ImageSearch { animated, names, stage: 0, phase: ImagePhase::LookUp, frames: Vec::new() };
        assert(s@.names =~= seq![skin_name@, default_name@]);
        assert(s@.frames =~= Seq::<Seq<u8>>::empty());
        let a = ImageAction::LookUp(slice_to_vec(skin_name, 0, skin_name.len()));
        (s, a)
    }

    /// Takes the answer to the last question and says what comes next (see
    /// `search_step`).
    pub fn answer(&mut self, yes: bool) -> (r: ImageAction)
        requires
            search_wf(old(self)@),
        ensures
            search_wf(final(self)@),
            (final(self)@, action_view(r)) == search_step(old(self)@, yes),
            action_view(r) matches ImageActionView::Load(_, fs, _) ==> fs.len() > 0,
    {
        assert(self@.names[self.stage as int] == self.names@[self.stage as int]@);
        let dir = if self.stage == 0 {
            ImageDir::Skin
        } else {
            ImageDir::Default
        };
        match self.phase {
            ImagePhase::LookUp => {
                if yes {
                    self.phase = ImagePhase::Done;
                    ImageAction::UseLoaded(copy_vec(&self.names[self.stage]))
                } else if self.animated {
                    self.phase = ImagePhase::Frame(0);
                    self.frames = Vec::new();
                    assert(self@.frames =~= Seq::<Seq<u8>>::empty());
                    ImageAction::Exists(dir, frame_file_bytes(self.names[self.stage].as_slice(), 0))
                } else {
                    self.phase = ImagePhase::Single;
                    ImageAction::Exists(dir, single_file_bytes(self.names[self.stage].as_slice()))
                }
            },
            ImagePhase::Frame(n) => {
                if yes && n < u64::MAX {
                    let f = frame_file_bytes(self.names[self.stage].as_slice(), n);
                    let ghost before = self@.frames;
                    self.frames.push(f);
                    assert(self@.frames =~= before.push(frame_file(self@.names[self.stage as int], n as nat)));
                    self.phase = ImagePhase::Frame(n + 1);
                    ImageAction::Exists(dir, frame_file_bytes(self.names[self.stage].as_slice(), n + 1))
                } else if yes {
                    let mut fs = copy_frames(&self.frames);
                    let ghost before = seq_views(fs@);
                    fs.push(frame_file_bytes(self.names[self.stage].as_slice(), n));
                    assert(seq_views(fs@) =~= before.push(frame_file(self@.names[self.stage as int], n as nat)));
                    self.phase = ImagePhase::Done;
                    ImageAction::Load(dir, fs, copy_vec(&self.names[self.stage]))
                } else if n > 0 {
                    let fs = copy_frames(&self.frames);
                    self.phase = ImagePhase::Done;
                    ImageAction::Load(dir, fs, copy_vec(&self.names[self.stage]))
                } else {
                    self.phase = ImagePhase::Single;
                    ImageAction::Exists(dir, single_file_bytes(self.names[self.stage].as_slice()))
                }
            },
            ImagePhase::Single => {
                if yes {
                    let mut fs: Vec<Vec<u8>> = Vec::new();
                    fs.push(single_file_bytes(self.names[self.stage].as_slice()));
                    assert(seq_views(fs@) =~= seq![single_file(self@.names[self.stage as int])]);
                    self.phase = ImagePhase::Done;
                    ImageAction::Load(dir, fs, copy_vec(&self.names[self.stage]))
                } else if self.stage == 0 {
                    self.stage = 1;
                    self.phase = ImagePhase::LookUp;
                    assert(self@.names[1] == self.names@[1]@);
                    ImageAction::LookUp(copy_vec(&self.names[1]))
                } else {
                    self.phase = ImagePhase::Done;
                    ImageAction::Missing
                }
            },
            ImagePhase::Done => ImageAction::Missing,
        }
    }
}

/// Whether an image may be an animation: all but the keys and the stage's
/// sides.
pub open spec fn is_animated(img: SkinImage) -> bool {
    !(img is Key || img is KeyDown || img is StageLeft || img is StageRight)
}

/// Whether a skin may go without an image: only the long note tails and the
/// stage's bottom.
pub open spec fn is_optional(img: SkinImage) -> bool {
    img is LongNoteTail || img is StageBottom
}

pub fn image_is_animated(img: SkinImage) -> (r: bool)
    ensures
        r == is_animated(img),
{
    match img {
        SkinImage::Key(_) | SkinImage::KeyDown(_) | SkinImage::StageLeft | SkinImage::StageRight => false,
        _ => true,
    }
}

pub fn image_is_optional(img: SkinImage) -> (r: bool)
    ensures
        r == is_optional(img),
{
    match img {
        SkinImage::LongNoteTail(_) | SkinImage::StageBottom => true,
        _ => false,
    }
}

/// The files of an image taken from what was loaded under its name: all the
/// frames for an image that may be animated, only the first otherwise.
pub fn loaded_frames<T>(animated: bool, files: Vec<T>) -> (r: Vec<T>)
    ensures
        r@ == (if animated || files@.len() <= 1 { files@ } else { files@.take(1) }),
{
    let mut files = files;
    if !animated && files.len() > 1 {
        files.truncate(1);
    }
    files
}

/// Why an osu! skin could not be read.
#[derive(Clone, Debug, PartialEq, Eq)]
pub enum SkinImageError {
    /// An image that every skin needs was found neither in the skin nor in
    /// the default skin; the default name of the image is given.
    NoDefaultTexture(Vec<u8>),
}

/// What the search for an image's files comes to: the files found; nothing,
/// for an image a skin may go without; else the error that names the image's
/// default name.
pub fn image_outcome<T>(img: SkinImage, found: Option<Vec<T>>, default_name: &[u8]) -> (r: Result<
    Option<Vec<T>>,
    SkinImageError,
>)
    ensures
        match found {
            Some(f) => r == Ok::<Option<Vec<T>>, SkinImageError>(Some(f)),
            None => if is_optional(img) {
                r == Ok::<Option<Vec<T>>, SkinImageError>(None)
            } else {
                r matches Err(SkinImageError::NoDefaultTexture(n)) && n@ == default_name@
            },
        },
{
    match found {
        Some(f) => Ok(Some(f)),
        None => if image_is_optional(img) {
            Ok(None)
        } else {
            let n = slice_to_vec(default_name, 0, default_name.len());
            assert(default_name@.subrange(0, default_name.len() as int) =~= default_name@);
            Err(SkinImageError::NoDefaultTexture(n))
        },
    }
}

/// The order images are loaded in: the judgements, the stage light and the
/// lightings, then the keys, the pressed keys, the notes and the long notes'
/// heads, bodies and tails column by column, then the rest of the stage.
pub open spec fn load_order_at(k: int) -> SkinImage {
    if k < 6 {
        image_at(k)
    } else if k == 6 {
        SkinImage::StageLight
    } else if k == 7 {
        SkinImage::LightingN
    } else if k == 8 {
        SkinImage::LightingL
    } else if k < 51 {
        image_at(k + 4)
    } else if k == 51 {
        SkinImage::StageHint
    } else if k == 52 {
        SkinImage::StageLeft
    } else if k == 53 {
        SkinImage::StageRight
    } else {
        SkinImage::StageBottom
    }
}

/// The images in the order they are loaded (see `load_order_at`).
pub fn load_order() -> (r: Vec<SkinImage>)
    ensures
        r@.len() == image_count(),
        forall|k: int| 0 <= k < image_count() ==> #[trigger] r@[k] == load_order_at(k) && image_ok(r@[k]),
{
    let mut r: Vec<SkinImage> = Vec::new();
    let mut k: usize = 0;
    while k < 55
        invariant
            k <= 55,
            r@.len() == k,
            forall|j: int| 0 <= j < k ==> #[trigger] r@[j] == load_order_at(j) && image_ok(r@[j]),
        decreases 55 - k,
    {
        let img = if k < 6 {
            image_of_slot(k)
        } else if k == 6 {
            SkinImage::StageLight
        } else if k == 7 {
            SkinImage::LightingN
        } else if k == 8 {
            SkinImage::LightingL
        } else if k < 51 {
            image_of_slot(k + 4)
        } else if k == 51 {
            SkinImage::StageHint
        } else if k == 52 {
            SkinImage::StageLeft
        } else if k == 53 {
            SkinImage::StageRight
        } else {
            SkinImage::StageBottom
        };
        r.push(img);
        k = k + 1;
    }
    r
}

} // verus!
