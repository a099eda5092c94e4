//! Reading little-endian binary records: fixed-width integers, fixed-size
//! text fields and tags.

use vstd::prelude::*;

use crate::text::{find, first_index, is_first_index, slice_to_vec};

verus! {

/// Why a binary record could not be read.
#[derive(Copy, Clone, Debug, PartialEq, Eq, Structural)]
pub enum Failure {
    /// The input ended before the record did, or a text field has no NUL
    /// byte to end it.
    Incomplete,
    /// The record does not start with the tag it should.
    Tag,
}

/// The unsigned value of the two bytes at `i`, least significant first.
pub open spec fn le16(s: Seq<u8>, i: int) -> nat {
    s[i] as nat + 256 * (s[i + 1] as nat)
}

/// The unsigned value of the four bytes at `i`, least significant first.
pub open spec fn le32(s: Seq<u8>, i: int) -> nat {
    s[i] as nat + 256 * (s[i + 1] as nat) + 65536 * (s[i + 2] as nat) + 16777216 * (s[i + 3] as nat)
}

/// Two's complement reading of a 16-bit value.
pub open spec fn as_i16(u: nat) -> int {
    if u >= 32768 {
        u - 65536
    } else {
        u as int
    }
}

/// Two's complement reading of a 32-bit value.
pub open spec fn as_i32(u: nat) -> int {
    if u >= 2147483648 {
        u - 4294967296
    } else {
        u as int
    }
}

pub fn read_u16(s: &[u8], pos: usize) -> (r: u16)
    requires
        pos + 2 <= s.len(),
    ensures
        r as nat == le16(s@, pos as int),
{
    s[pos] as u16 + (s[pos + 1] as u16) * 256
}

pub fn read_i16(s: &[u8], pos: usize) -> (r: i16)
    requires
        pos + 2 <= s.len(),
    ensures
        r as int == as_i16(le16(s@, pos as int)),
{
    let v = read_u16(s, pos);
    if v >= 32768 {
        (v as i32 - 65536) as i16
    } else {
        v as i16
    }
}

pub fn read_u32(s: &[u8], pos: usize) -> (r: u32)
    requires
        pos + 4 <= s.len(),
    ensures
        r as nat == le32(s@, pos as int),
{
    s[pos] as u32 + (s[pos + 1] as u32) * 256 + (s[pos + 2] as u32) * 65536 + (s[pos + 3] as u32)
        * 16777216
}

pub fn read_i32(s: &[u8], pos: usize) -> (r: i32)
    requires
        pos + 4 <= s.len(),
    ensures
        r as int == as_i32(le32(s@, pos as int)),
{
    let v = read_u32(s, pos);
    if v >= 2147483648 {
        (v as i64 - 4294967296) as i32
    } else {
        v as i32
    }
}

/// The text of a fixed-size field: its bytes before the first NUL byte, or
/// `None` when it has none.
pub open spec fn nul_terminated(field: Seq<u8>) -> Option<Seq<u8>> {
    match first_index(field, 0) {
        Some(k) => Some(field.take(k)),
        None => None,
    }
}

/// The text of the `n`-byte field at `pos` (see `nul_terminated`).
pub fn string_block(s: &[u8], pos: usize, n: usize) -> (r: Option<Vec<u8>>)
    requires
        pos + n <= s.len(),
    ensures
        match r {
            Some(v) => nul_terminated(s@.subrange(pos as int, pos + n)) == Some(v@),
            None => nul_terminated(s@.subrange(pos as int, pos + n)) is None,
        },
{
    let field = slice_to_vec(s, pos, pos + n);
    match find(field.as_slice(), 0) {
        Some(k) => {
            assert(is_first_index(field@, 0, k as int));
            let v = slice_to_vec(field.as_slice(), 0, k);
            assert(v@ =~= field@.take(k as int));
            Some(v)
        },
        None => None,
    }
}

/// Whether the bytes at `pos` differ from `tag` before the input ends.
pub open spec fn tag_mismatch(s: Seq<u8>, pos: int, tag: Seq<u8>) -> bool {
    exists|i: int| 0 <= i < tag.len() && pos + i < s.len() && #[trigger] s[pos + i] != tag[i]
}

/// Checks the tag at `pos`: `Tag` where a byte differs, `Incomplete` where
/// the input ends first.
pub fn check_tag(s: &[u8], pos: usize, tag: &[u8]) -> (r: Result<(), Failure>)
    requires
        pos <= s.len(),
    ensures
        match r {
            Ok(()) => pos + tag.len() <= s.len() && s@.subrange(pos as int, pos + tag.len()) == tag@,
            Err(Failure::Tag) => tag_mismatch(s@, pos as int, tag@),
            Err(Failure::Incomplete) => !tag_mismatch(s@, pos as int, tag@) && pos + tag.len() > s.len(),
        },
{
    let mut i: usize = 0;
    while i < tag.len() && pos + i < s.len()
        invariant
            i <= tag.len(),
            pos + i <= s.len(),
            pos <= s.len(),
            forall|j: int| 0 <= j < i ==> s@[pos + j] == tag@[j],
        decreases tag.len() - i,
    {
        if s[pos + i] != tag[i] {
            assert(s@[pos + i] != tag@[i as int]);
            return Err(Failure::Tag);
        }
        i = i + 1;
    }
    if i < tag.len() {
        assert forall|j: int| 0 <= j < tag.len() && pos + j < s.len() implies s@[pos + j]
            == tag@[j] by {
            assert(j < i);
        }
        return Err(Failure::Incomplete);
    }
    assert(s@.subrange(pos as int, pos + tag.len()) =~= tag@);
    Ok(())
}

} // verus!
