//! O2Jam sound file (`.ojm`) reader.
//!
//! An `.ojm` file is in one of two layouts. The OMC layout (tagged `OJM\0`
//! when plain and `OMC\0` when its WAV samples are scrambled) has a section of
//! WAV samples and one of OGG samples. The M30 layout holds OGG samples that
//! may be XOR-masked.

use vstd::prelude::*;

use crate::bytes::{
    as_i16, as_i32, check_tag, le16, le32, nul_terminated, read_i16, read_i32, string_block,
    tag_mismatch, Failure,
};
use crate::text::slice_to_vec;

verus! {

/// Header of the OMC layout.
#[derive(Copy, Clone, Debug, PartialEq, Eq, Structural)]
pub struct OmcHeader {
    pub encrypted: bool,
    pub wav_count: i16,
    pub ogg_count: i16,
    pub wav_start: i32,
    pub ogg_start: i32,
    pub filesize: i32,
}

/// How the samples of an M30 file are masked.
#[derive(Copy, Clone, Debug, PartialEq, Eq, Structural)]
pub enum M30Encryption {
    Scramble1,
    Scramble2,
    Decode,
    Decrypt,
    XorNami,
    Xor0412,
    Unknown,
}

/// The masking scheme an M30 header's code names.
pub open spec fn encryption_of(i: int) -> M30Encryption {
    if i == 1 {
        M30Encryption::Scramble1
    } else if i == 2 {
        M30Encryption::Scramble2
    } else if i == 4 {
        M30Encryption::Decode
    } else if i == 8 {
        M30Encryption::Decrypt
    } else if i == 16 {
        M30Encryption::XorNami
    } else if i == 32 {
        M30Encryption::Xor0412
    } else {
        M30Encryption::Unknown
    }
}

impl M30Encryption {
    /// The scheme named by its code.
    pub fn from_code(i: i32) -> (r: M30Encryption)
        ensures
            r == encryption_of(i as int),
    {
        match i {
            1 => M30Encryption::Scramble1,
            2 => M30Encryption::Scramble2,
            4 => M30Encryption::Decode,
            8 => M30Encryption::Decrypt,
            16 => M30Encryption::XorNami,
            32 => M30Encryption::Xor0412,
            _ => M30Encryption::Unknown,
        }
    }
}

impl From<i32> for M30Encryption {
    fn from(i: i32) -> (r: M30Encryption) {
        M30Encryption::from_code(i)
    }
}

impl vstd::std_specs::convert::FromSpecImpl<i32> for M30Encryption {
    open spec fn obeys_from_spec() -> bool {
        true
    }

    open spec fn from_spec(i: i32) -> M30Encryption {
        encryption_of(i as int)
    }
}

/// The scheme named by its code.
pub fn m30_encryption_from_i32(i: i32) -> (r: M30Encryption)
    ensures
        r == encryption_of(i as int),
{
    M30Encryption::from(i)
}

/// Header of the M30 layout.
#[derive(Copy, Clone, Debug, PartialEq, Eq, Structural)]
pub struct M30Header {
    pub file_format_version: i32,
    pub encryption_scheme: M30Encryption,
    pub samples_offset: i32,
}

/// The header of an `.ojm` file, in either layout.
#[derive(Copy, Clone, Debug, PartialEq, Eq, Structural)]
pub enum Header {
    M30(M30Header),
    Omc(OmcHeader),
}

/// `OJM\0`
pub open spec fn ojm_tag() -> Seq<u8> {
    seq![79u8, 74, 77, 0]
}

/// `OMC\0`
pub open spec fn omc_tag() -> Seq<u8> {
    seq![79u8, 77, 67, 0]
}

/// `M30\0`
pub open spec fn m30_tag() -> Seq<u8> {
    seq![77u8, 51, 48, 0]
}

pub open spec fn omc_header_of(s: Seq<u8>, encrypted: bool) -> OmcHeader {
    OmcHeader {
        encrypted: encrypted,
        wav_count: as_i16(le16(s, 4)) as i16,
        ogg_count: as_i16(le16(s, 6)) as i16,
        wav_start: as_i32(le32(s, 8)) as i32,
        ogg_start: as_i32(le32(s, 12)) as i32,
        filesize: as_i32(le32(s, 16)) as i32,
    }
}

pub open spec fn m30_header_of(s: Seq<u8>) -> M30Header {
    M30Header {
        file_format_version: as_i32(le32(s, 4)) as i32,
        encryption_scheme: encryption_of(as_i32(le32(s, 8))),
        samples_offset: as_i32(le32(s, 16)) as i32,
    }
}

/// The header at the start of `s`. The tags are tried in the order `OJM\0`,
/// `OMC\0`, `M30\0`; a tag that the input agrees with as far as it goes is
/// the one read. The OMC header is 20 bytes long, the M30 one 28.
pub open spec fn header_spec(s: Seq<u8>) -> Result<Header, Failure> {
    if !tag_mismatch(s, 0, ojm_tag()) {
        if s.len() < 20 {
            Err(Failure::Incomplete)
        } else {
            Ok(Header::Omc(omc_header_of(s, false)))
        }
    } else if !tag_mismatch(s, 0, omc_tag()) {
        if s.len() < 20 {
            Err(Failure::Incomplete)
        } else {
            Ok(Header::Omc(omc_header_of(s, true)))
        }
    } else if !tag_mismatch(s, 0, m30_tag()) {
        if s.len() < 28 {
            Err(Failure::Incomplete)
        } else {
            Ok(Header::M30(m30_header_of(s)))
        }
    } else {
        Err(Failure::Tag)
    }
}

fn omc_fields(s: &[u8], encrypted: bool) -> (r: OmcHeader)
    requires
        s.len() >= 20,
    ensures
        r == omc_header_of(s@, encrypted),
{
    OmcHeader {
        encrypted: encrypted,
        wav_count: read_i16(s, 4),
        ogg_count: read_i16(s, 6),
        wav_start: read_i32(s, 8),
        ogg_start: read_i32(s, 12),
        filesize: read_i32(s, 16),
    }
}

/// Reads the header at the start of an `.ojm` file (see `header_spec`).
pub fn header(s: &[u8]) -> (r: Result<Header, Failure>)
    ensures
        r == header_spec(s@),
{
    let ojm = [79u8, 74, 77, 0];
    let omc = [79u8, 77, 67, 0];
    let m30 = [77u8, 51, 48, 0];
    assert(ojm@ =~= ojm_tag());
    assert(omc@ =~= omc_tag());
    assert(m30@ =~= m30_tag());
    match check_tag(s, 0, &ojm) {
        Err(Failure::Incomplete) => return Err(Failure::Incomplete),
        Ok(()) => {
            if s.len() < 20 {
                return Err(Failure::Incomplete);
            }
            return Ok(Header::Omc(omc_fields(s, false)));
        },
        Err(Failure::Tag) => {},
    }
    match check_tag(s, 0, &omc) {
        Err(Failure::Incomplete) => return Err(Failure::Incomplete),
        Ok(()) => {
            if s.len() < 20 {
                return Err(Failure::Incomplete);
            }
            return Ok(Header::Omc(omc_fields(s, true)));
        },
        Err(Failure::Tag) => {},
    }
    match check_tag(s, 0, &m30) {
        Err(Failure::Incomplete) => Err(Failure::Incomplete),
        Ok(()) => {
            if s.len() < 28 {
                return Err(Failure::Incomplete);
            }
            let h = M30Header {
                file_format_version: read_i32(s, 4),
                encryption_scheme: M30Encryption::from_code(read_i32(s, 8)),
                samples_offset: read_i32(s, 16),
            };
            Ok(Header::M30(h))
        },
        Err(Failure::Tag) => Err(Failure::Tag),
    }
}

// ---------------------------------------------------------------------------
// M30 samples
// ---------------------------------------------------------------------------

/// `nami`
pub open spec fn nami() -> Seq<u8> {
    seq![110u8, 97, 109, 105]
}

/// `0412`
pub open spec fn key_0412() -> Seq<u8> {
    seq![48u8, 52, 49, 50]
}

/// The data XOR-ed with the repeated 4-byte `key`, over the whole 4-byte
/// chunks of the data (a shorter last chunk is dropped).
pub open spec fn xor_masked(data: Seq<u8>, key: Seq<u8>) -> Seq<u8> {
    Seq::new((data.len() / 4 * 4) as nat, |i: int| data[i] ^ key[i % 4])
}

/// What unmasking gives for a scheme: the two XOR schemes are undone, and
/// the data of the others is kept as it is.
pub open spec fn m30_decrypted(data: Seq<u8>, scheme: M30Encryption) -> Seq<u8> {
    match scheme {
        M30Encryption::XorNami => xor_masked(data, nami()),
        M30Encryption::Xor0412 => xor_masked(data, key_0412()),
        _ => data,
    }
}

fn xor_with(data: &[u8], key: &[u8; 4]) -> (r: Vec<u8>)
    ensures
        r@ == xor_masked(data@, key@),
{
    let n = data.len() / 4 * 4;
    let mut r: Vec<u8> = Vec::new();
    let mut i: usize = 0;
    while i < n
        invariant
            i <= n,
            n == data.len() / 4 * 4,
            n <= data.len(),
            r@.len() == i,
            forall|k: int| 0 <= k < i ==> r@[k] == data@[k] ^ key@[k % 4],
        decreases n - i,
    {
        r.push(data[i] ^ key[i % 4]);
        i = i + 1;
    }
    assert(r@ =~= xor_masked(data@, key@));
    r
}

/// Unmasks the data of an M30 sample.
pub fn m30_decrypt(data: &[u8], hdr: &M30Header) -> (r: Vec<u8>)
    ensures
        r@ == m30_decrypted(data@, hdr.encryption_scheme),
{
    match hdr.encryption_scheme {
        M30Encryption::XorNami => {
            let key = [110u8, 97, 109, 105];
            assert(key@ =~= nami());
            xor_with(data, &key)
        },
        M30Encryption::Xor0412 => {
            let key = [48u8, 52, 49, 50];
            assert(key@ =~= key_0412());
            xor_with(data, &key)
        },
        _ => slice_to_vec(data, 0, data.len()),
    }
}

/// Unmasking an M30 sample: scheme 16 XORs each byte of the whole 4-byte
/// chunks with the matching byte of `nami` (6E 61 6D 69), scheme 32 with that
/// of `0412` (30 34 31 32), a
/// last shorter chunk is dropped, and the other schemes leave the data as it is.
pub proof fn lemma_m30_unmasking(data: Seq<u8>, scheme: M30Encryption)
    ensures
        scheme == M30Encryption::XorNami || scheme == M30Encryption::Xor0412 ==> {
            let out = m30_decrypted(data, scheme);
            let key = if scheme == M30Encryption::XorNami {
                seq![0x6Eu8, 0x61, 0x6D, 0x69]
            } else {
                seq![0x30u8, 0x34, 0x31, 0x32]
            };
            &&& out.len() == data.len() - data.len() % 4
            &&& forall|i: int| 0 <= i < out.len() ==> #[trigger] out[i] == data[i] ^ key[i % 4]
        },
        !(scheme == M30Encryption::XorNami || scheme == M30Encryption::Xor0412) ==> m30_decrypted(
            data,
            scheme,
        ) == data,
        encryption_of(16) == M30Encryption::XorNami,
        encryption_of(32) == M30Encryption::Xor0412,
{
    if scheme == M30Encryption::XorNami {
        assert(nami() =~= seq![0x6Eu8, 0x61, 0x6D, 0x69]);
    } else if scheme == M30Encryption::Xor0412 {
        assert(key_0412() =~= seq![0x30u8, 0x34, 0x31, 0x32]);
    }
}

/// Unmasking an XOR-masked sample twice gives back its whole 4-byte chunks.
pub proof fn lemma_m30_xor_twice(data: Seq<u8>, scheme: M30Encryption)
    requires
        scheme == M30Encryption::XorNami || scheme == M30Encryption::Xor0412,
    ensures
        m30_decrypted(m30_decrypted(data, scheme), scheme) == data.take((data.len() / 4 * 4) as int),
{
    let key = if scheme == M30Encryption::XorNami {
        nami()
    } else {
        key_0412()
    };
    let once = xor_masked(data, key);
    let twice = xor_masked(once, key);
    assert(once.len() / 4 * 4 == once.len());
    assert forall|i: int| 0 <= i < twice.len() implies twice[i] == data[i] by {
        let a = data[i];
        let k = key[i % 4];
        assert((a ^ k) ^ k == a) by (bit_vector);
    }
    assert(twice =~= data.take((data.len() / 4 * 4) as int));
}

/// A sample of an M30 file.
#[derive(Debug, Clone)]
pub struct M30Sound {
    pub sound_name: Vec<u8>,
    pub sound_size: i32,
    pub codec_code: i16,
    pub note_ref: i16,
    pub sample_count: i32,
    /// The unmasked OGG data.
    pub ogg_data: Vec<u8>,
}

/// The size of the sample at `pos`.
pub open spec fn m30_size_at(s: Seq<u8>, pos: int) -> int {
    as_i32(le32(s, pos + 32))
}

/// The sample at `pos` lies within the input: its 52-byte header, with a NUL
/// byte in its 32-byte name, and its data.
pub open spec fn m30_sound_fits(s: Seq<u8>, pos: int) -> bool {
    &&& 0 <= pos
    &&& pos + 52 <= s.len()
    &&& nul_terminated(s.subrange(pos, pos + 32)) is Some
    &&& m30_size_at(s, pos) >= 0
    &&& pos + 52 + m30_size_at(s, pos) <= s.len()
}

pub open spec fn m30_sound_end(s: Seq<u8>, pos: int) -> int {
    pos + 52 + m30_size_at(s, pos)
}

/// `m` is the sample at `pos`, unmasked by `scheme`.
pub open spec fn is_m30_sound_at(s: Seq<u8>, pos: int, scheme: M30Encryption, m: M30Sound) -> bool {
    &&& nul_terminated(s.subrange(pos, pos + 32)) == Some(m.sound_name@)
    &&& m.sound_size == m30_size_at(s, pos)
    &&& m.codec_code == as_i16(le16(s, pos + 36))
    &&& m.note_ref == as_i16(le16(s, pos + 44))
    &&& m.sample_count == as_i32(le32(s, pos + 48))
    &&& m.ogg_data@ == m30_decrypted(s.subrange(pos + 52, m30_sound_end(s, pos)), scheme)
}

/// Reads the sample at `pos`.
pub fn m30_sound(s: &[u8], pos: usize, hdr: &M30Header) -> (r: Option<(M30Sound, usize)>)
    requires
        pos <= s.len(),
    ensures
        match r {
            Some((m, end)) => m30_sound_fits(s@, pos as int) && end == m30_sound_end(s@, pos as int)
                && is_m30_sound_at(s@, pos as int, hdr.encryption_scheme, m),
            None => !m30_sound_fits(s@, pos as int),
        },
{
    if s.len() - pos < 52 {
        return None;
    }
    let name = match string_block(s, pos, 32) {
        Some(n) => n,
        None => return None,
    };
    let size = read_i32(s, pos + 32);
    if size < 0 || ((s.len() - pos - 52) as u64) < (size as u64) {
        return None;
    }
    let end = pos + 52 + size as usize;
    let raw = slice_to_vec(s, pos + 52, end);
    let m = M30Sound {
        sound_name: name,
        sound_size: size,
        codec_code: read_i16(s, pos + 36),
        note_ref: read_i16(s, pos + 44),
        sample_count: read_i32(s, pos + 48),
        ogg_data: m30_decrypt(raw.as_slice(), hdr),
    };
    Some((m, end))
}

/// Where the samples read one after another from `pos` start: reading stops
/// at the first one that does not fit.
pub open spec fn m30_positions(s: Seq<u8>, pos: int) -> Seq<int>
    decreases s.len() - pos,
{
    if m30_sound_fits(s, pos) {
        seq![pos] + m30_positions(s, m30_sound_end(s, pos))
    } else {
        Seq::empty()
    }
}

/// Reads the samples of an M30 file, from the start of its sample section,
/// as long as they fit.
pub fn m30_sounds(s: &[u8], hdr: &M30Header) -> (r: Vec<M30Sound>)
    ensures
        r.len() == m30_positions(s@, 0).len(),
        forall|i: int|
            0 <= i < r.len() ==> #[trigger] is_m30_sound_at(
                s@,
                m30_positions(s@, 0)[i],
                hdr.encryption_scheme,
                r@[i],
            ),
{
    let mut v: Vec<M30Sound> = Vec::new();
    let mut pos: usize = 0;
    let ghost ps = m30_positions(s@, 0);
    assert(ps.skip(0) =~= ps);
    loop
        invariant
            pos <= s.len(),
            ps == m30_positions(s@, 0),
            v.len() <= ps.len(),
            ps.skip(v.len() as int) == m30_positions(s@, pos as int),
            forall|i: int|
                0 <= i < v.len() ==> #[trigger] is_m30_sound_at(s@, ps[i], hdr.encryption_scheme, v@[i]),
        decreases s.len() - pos,
    {
        match m30_sound(s, pos, hdr) {
            Some((m, end)) => {
                let ghost k = v.len() as int;
                proof {
                    let rest = m30_positions(s@, pos as int);
                    assert(rest == seq![pos as int] + m30_positions(s@, end as int));
                    assert(rest[0] == pos as int);
                    assert(ps.skip(k)[0] == ps[k]);
                    assert(ps.skip(k + 1) =~= ps.skip(k).skip(1));
                    assert(rest.skip(1) =~= m30_positions(s@, end as int));
                }
                v.push(m);
                pos = end;
            },
            None => {
                proof {
                    assert(m30_positions(s@, pos as int) =~= Seq::<int>::empty());
                    assert(ps.skip(v.len() as int).len() == 0);
                }
                return v;
            },
        }
    }
}

// ---------------------------------------------------------------------------
// Scrambled WAV samples
// ---------------------------------------------------------------------------

/// Row `m` of the table that says where each block of a scrambled WAV sample
/// goes: a sample of `n` bytes uses row `n % 17`, and block `b` of it goes to
/// block `row[b]`.
pub open spec fn rearrange_row(m: int) -> Seq<u8> {
    if m == 0 {
        seq![16u8, 14, 2, 9, 4, 0, 7, 1, 6, 8, 15, 10, 5, 12, 3, 13, 11]
    } else if m == 1 {
        seq![7u8, 2, 10, 11, 3, 5, 13, 8, 4, 0, 12, 6, 15, 14, 16, 1, 9]
    } else if m == 2 {
        seq![12u8, 13, 3, 0, 6, 9, 10, 1, 7, 8, 16, 2, 11, 14, 4, 15, 5]
    } else if m == 3 {
        seq![8u8, 3, 4, 13, 6, 5, 11, 16, 2, 12, 7, 9, 10, 15, 14, 0, 1]
    } else if m == 4 {
        seq![15u8, 2, 12, 13, 0, 4, 1, 5, 7, 3, 9, 16, 6, 11, 10, 8, 14]
    } else if m == 5 {
        seq![0u8, 4, 11, 16, 15, 13, 12, 6, 5, 7, 1, 2, 3, 8, 9, 10, 14]
    } else if m == 6 {
        seq![3u8, 16, 8, 7, 6, 9, 14, 13, 0, 10, 11, 4, 5, 12, 2, 1, 15]
    } else if m == 7 {
        seq![4u8, 14, 16, 15, 5, 8, 7, 11, 0, 1, 6, 2, 12, 9, 3, 10, 13]
    } else if m == 8 {
        seq![6u8, 13, 14, 7, 16, 10, 11, 0, 1, 12, 15, 2, 3, 8, 9, 4, 5]
    } else if m == 9 {
        seq![10u8, 12, 0, 8, 9, 13, 3, 4, 5, 16, 14, 15, 1, 2, 11, 6, 7]
    } else if m == 10 {
        seq![5u8, 6, 12, 4, 13, 15, 7, 14, 8, 1, 9, 2, 16, 10, 11, 0, 3]
    } else if m == 11 {
        seq![11u8, 15, 4, 14, 3, 1, 0, 2, 13, 12, 6, 7, 5, 16, 9, 8, 10]
    } else if m == 12 {
        seq![3u8, 2, 1, 0, 4, 12, 13, 11, 16, 5, 6, 15, 14, 7, 9, 10, 8]
    } else if m == 13 {
        seq![9u8, 10, 0, 7, 8, 6, 16, 3, 4, 1, 2, 5, 11, 14, 15, 13, 12]
    } else if m == 14 {
        seq![10u8, 6, 9, 12, 11, 16, 7, 8, 0, 15, 3, 1, 2, 5, 13, 14, 4]
    } else if m == 15 {
        seq![13u8, 0, 1, 14, 2, 3, 8, 11, 7, 12, 9, 5, 10, 15, 4, 6, 16]
    } else {
        seq![1u8, 14, 2, 3, 13, 11, 7, 0, 8, 12, 9, 6, 15, 16, 5, 10, 4]
    }
}

fn rearrange_row_of(m: usize) -> (r: [u8; 17])
    requires
        m < 17,
    ensures
        r@ == rearrange_row(m as int),
{
    let r = if m == 0 {
        [16u8, 14, 2, 9, 4, 0, 7, 1, 6, 8, 15, 10, 5, 12, 3, 13, 11]
    } else if m == 1 {
        [7u8, 2, 10, 11, 3, 5, 13, 8, 4, 0, 12, 6, 15, 14, 16, 1, 9]
    } else if m == 2 {
        [12u8, 13, 3, 0, 6, 9, 10, 1, 7, 8, 16, 2, 11, 14, 4, 15, 5]
    } else if m == 3 {
        [8u8, 3, 4, 13, 6, 5, 11, 16, 2, 12, 7, 9, 10, 15, 14, 0, 1]
    } else if m == 4 {
        [15u8, 2, 12, 13, 0, 4, 1, 5, 7, 3, 9, 16, 6, 11, 10, 8, 14]
    } else if m == 5 {
        [0u8, 4, 11, 16, 15, 13, 12, 6, 5, 7, 1, 2, 3, 8, 9, 10, 14]
    } else if m == 6 {
        [3u8, 16, 8, 7, 6, 9, 14, 13, 0, 10, 11, 4, 5, 12, 2, 1, 15]
    } else if m == 7 {
        [4u8, 14, 16, 15, 5, 8, 7, 11, 0, 1, 6, 2, 12, 9, 3, 10, 13]
    } else if m == 8 {
        [6u8, 13, 14, 7, 16, 10, 11, 0, 1, 12, 15, 2, 3, 8, 9, 4, 5]
    } else if m == 9 {
        [10u8, 12, 0, 8, 9, 13, 3, 4, 5, 16, 14, 15, 1, 2, 11, 6, 7]
    } else if m == 10 {
        [5u8, 6, 12, 4, 13, 15, 7, 14, 8, 1, 9, 2, 16, 10, 11, 0, 3]
    } else if m == 11 {
        [11u8, 15, 4, 14, 3, 1, 0, 2, 13, 12, 6, 7, 5, 16, 9, 8, 10]
    } else if m == 12 {
        [3u8, 2, 1, 0, 4, 12, 13, 11, 16, 5, 6, 15, 14, 7, 9, 10, 8]
    } else if m == 13 {
        [9u8, 10, 0, 7, 8, 6, 16, 3, 4, 1, 2, 5, 11, 14, 15, 13, 12]
    } else if m == 14 {
        [10u8, 6, 9, 12, 11, 16, 7, 8, 0, 15, 3, 1, 2, 5, 13, 14, 4]
    } else if m == 15 {
        [13u8, 0, 1, 14, 2, 3, 8, 11, 7, 12, 9, 5, 10, 15, 4, 6, 16]
    } else {
        [1u8, 14, 2, 3, 13, 11, 7, 0, 8, 12, 9, 6, 15, 16, 5, 10, 4]
    };
    assert(r@ =~= rearrange_row(m as int));
    r
}

/// The block whose bytes end up at byte `j` of an unscrambled sample: the last
/// of the first `b` blocks whose destination covers `j`.
pub open spec fn dest_block(row: Seq<u8>, bs: int, j: int, b: int) -> Option<int>
    decreases b,
{
    if b <= 0 {
        None
    } else if row[b - 1] * bs <= j < row[b - 1] * bs + bs {
        Some(b - 1)
    } else {
        dest_block(row, bs, j, b - 1)
    }
}

/// The sample after moving its first `b` blocks: the sample is cut into 17
/// blocks of `len / 17` bytes, and each goes where `rearrange_row` says. Bytes
/// no block lands on are 0.
pub open spec fn blocks_moved(data: Seq<u8>, b: int) -> Seq<u8> {
    let bs = data.len() / 17;
    let row = rearrange_row((data.len() % 17) as int);
    Seq::new(
        data.len(),
        |j: int|
            match dest_block(row, bs as int, j, b) {
                Some(k) => data[k * bs + (j - row[k] * bs)],
                None => 0u8,
            },
    )
}

/// The sample with all 17 blocks moved.
pub open spec fn rearranged(data: Seq<u8>) -> Seq<u8> {
    blocks_moved(data, 17)
}

/// The block table of the open2jam OMC reader, as it is written there: 290
/// bytes, of which a sample of `n` bytes uses the 17 starting at
/// `17 * (n % 17)`.
pub open spec fn open2jam_rearrange_table(i: u16) -> int {
    match i {
        0 => 0x10,
        1 => 0x0E,
        2 => 0x02,
        3 => 0x09,
        4 => 0x04,
        5 => 0x00,
        6 => 0x07,
        7 => 0x01,
        8 => 0x06,
        9 => 0x08,
        10 => 0x0F,
        11 => 0x0A,
        12 => 0x05,
        13 => 0x0C,
        14 => 0x03,
        15 => 0x0D,
        16 => 0x0B,
        17 => 0x07,
        18 => 0x02,
        19 => 0x0A,
        20 => 0x0B,
        21 => 0x03,
        22 => 0x05,
        23 => 0x0D,
        24 => 0x08,
        25 => 0x04,
        26 => 0x00,
        27 => 0x0C,
        28 => 0x06,
        29 => 0x0F,
        30 => 0x0E,
        31 => 0x10,
        32 => 0x01,
        33 => 0x09,
        34 => 0x0C,
        35 => 0x0D,
        36 => 0x03,
        37 => 0x00,
        38 => 0x06,
        39 => 0x09,
        40 => 0x0A,
        41 => 0x01,
        42 => 0x07,
        43 => 0x08,
        44 => 0x10,
        45 => 0x02,
        46 => 0x0B,
        47 => 0x0E,
        48 => 0x04,
        49 => 0x0F,
        50 => 0x05,
        51 => 0x08,
        52 => 0x03,
        53 => 0x04,
        54 => 0x0D,
        55 => 0x06,
        56 => 0x05,
        57 => 0x0B,
        58 => 0x10,
        59 => 0x02,
        60 => 0x0C,
        61 => 0x07,
        62 => 0x09,
        63 => 0x0A,
        64 => 0x0F,
        65 => 0x0E,
        66 => 0x00,
        67 => 0x01,
        68 => 0x0F,
        69 => 0x02,
        70 => 0x0C,
        71 => 0x0D,
        72 => 0x00,
        73 => 0x04,
        74 => 0x01,
        75 => 0x05,
        76 => 0x07,
        77 => 0x03,
        78 => 0x09,
        79 => 0x10,
        80 => 0x06,
        81 => 0x0B,
        82 => 0x0A,
        83 => 0x08,
        84 => 0x0E,
        85 => 0x00,
        86 => 0x04,
        87 => 0x0B,
        88 => 0x10,
        89 => 0x0F,
        90 => 0x0D,
        91 => 0x0C,
        92 => 0x06,
        93 => 0x05,
        94 => 0x07,
        95 => 0x01,
        96 => 0x02,
        97 => 0x03,
        98 => 0x08,
        99 => 0x09,
        100 => 0x0A,
        101 => 0x0E,
        102 => 0x03,
        103 => 0x10,
        104 => 0x08,
        105 => 0x07,
        106 => 0x06,
        107 => 0x09,
        108 => 0x0E,
        109 => 0x0D,
        110 => 0x00,
        111 => 0x0A,
        112 => 0x0B,
        113 => 0x04,
        114 => 0x05,
        115 => 0x0C,
        116 => 0x02,
        117 => 0x01,
        118 => 0x0F,
        119 => 0x04,
        120 => 0x0E,
        121 => 0x10,
        122 => 0x0F,
        123 => 0x05,
        124 => 0x08,
        125 => 0x07,
        126 => 0x0B,
        127 => 0x00,
        128 => 0x01,
        129 => 0x06,
        130 => 0x02,
        131 => 0x0C,
        132 => 0x09,
        133 => 0x03,
        134 => 0x0A,
        135 => 0x0D,
        136 => 0x06,
        137 => 0x0D,
        138 => 0x0E,
        139 => 0x07,
        140 => 0x10,
        141 => 0x0A,
        142 => 0x0B,
        143 => 0x00,
        144 => 0x01,
        145 => 0x0C,
        146 => 0x0F,
        147 => 0x02,
        148 => 0x03,
        149 => 0x08,
        150 => 0x09,
        151 => 0x04,
        152 => 0x05,
        153 => 0x0A,
        154 => 0x0C,
        155 => 0x00,
        156 => 0x08,
        157 => 0x09,
        158 => 0x0D,
        159 => 0x03,
        160 => 0x04,
        161 => 0x05,
        162 => 0x10,
        163 => 0x0E,
        164 => 0x0F,
        165 => 0x01,
        166 => 0x02,
        167 => 0x0B,
        168 => 0x06,
        169 => 0x07,
        170 => 0x05,
        171 => 0x06,
        172 => 0x0C,
        173 => 0x04,
        174 => 0x0D,
        175 => 0x0F,
        176 => 0x07,
        177 => 0x0E,
        178 => 0x08,
        179 => 0x01,
        180 => 0x09,
        181 => 0x02,
        182 => 0x10,
        183 => 0x0A,
        184 => 0x0B,
        185 => 0x00,
        186 => 0x03,
        187 => 0x0B,
        188 => 0x0F,
        189 => 0x04,
        190 => 0x0E,
        191 => 0x03,
        192 => 0x01,
        193 => 0x00,
        194 => 0x02,
        195 => 0x0D,
        196 => 0x0C,
        197 => 0x06,
        198 => 0x07,
        199 => 0x05,
        200 => 0x10,
        201 => 0x09,
        202 => 0x08,
        203 => 0x0A,
        204 => 0x03,
        205 => 0x02,
        206 => 0x01,
        207 => 0x00,
        208 => 0x04,
        209 => 0x0C,
        210 => 0x0D,
        211 => 0x0B,
        212 => 0x10,
        213 => 0x05,
        214 => 0x06,
        215 => 0x0F,
        216 => 0x0E,
        217 => 0x07,
        218 => 0x09,
        219 => 0x0A,
        220 => 0x08,
        221 => 0x09,
        222 => 0x0A,
        223 => 0x00,
        224 => 0x07,
        225 => 0x08,
        226 => 0x06,
        227 => 0x10,
        228 => 0x03,
        229 => 0x04,
        230 => 0x01,
        231 => 0x02,
        232 => 0x05,
        233 => 0x0B,
        234 => 0x0E,
        235 => 0x0F,
        236 => 0x0D,
        237 => 0x0C,
        238 => 0x0A,
        239 => 0x06,
        240 => 0x09,
        241 => 0x0C,
        242 => 0x0B,
        243 => 0x10,
        244 => 0x07,
        245 => 0x08,
        246 => 0x00,
        247 => 0x0F,
        248 => 0x03,
        249 => 0x01,
        250 => 0x02,
        251 => 0x05,
        252 => 0x0D,
        253 => 0x0E,
        254 => 0x04,
        255 => 0x0D,
        256 => 0x00,
        257 => 0x01,
        258 => 0x0E,
        259 => 0x02,
        260 => 0x03,
        261 => 0x08,
        262 => 0x0B,
        263 => 0x07,
        264 => 0x0C,
        265 => 0x09,
        266 => 0x05,
        267 => 0x0A,
        268 => 0x0F,
        269 => 0x04,
        270 => 0x06,
        271 => 0x10,
        272 => 0x01,
        273 => 0x0E,
        274 => 0x02,
        275 => 0x03,
        276 => 0x0D,
        277 => 0x0B,
        278 => 0x07,
        279 => 0x00,
        280 => 0x08,
        281 => 0x0C,
        282 => 0x09,
        283 => 0x06,
        284 => 0x0F,
        285 => 0x10,
        286 => 0x05,
        287 => 0x0A,
        288 => 0x04,
        289 => 0x00,
        _ => 0,
    }
}

/// The position of each block number in row `m` of the table.
spec fn rearrange_inverse(m: int) -> Seq<int> {
    if m == 0 {
        seq![5, 7, 2, 14, 4, 12, 8, 6, 9, 3, 11, 16, 13, 15, 1, 10, 0]
    } else if m == 1 {
        seq![9, 15, 1, 4, 8, 5, 11, 0, 7, 16, 2, 3, 10, 6, 13, 12, 14]
    } else if m == 2 {
        seq![3, 7, 11, 2, 14, 16, 4, 8, 9, 5, 6, 12, 0, 1, 13, 15, 10]
    } else if m == 3 {
        seq![15, 16, 8, 1, 2, 5, 4, 10, 0, 11, 12, 6, 9, 3, 14, 13, 7]
    } else if m == 4 {
        seq![4, 6, 1, 9, 5, 7, 12, 8, 15, 10, 14, 13, 2, 3, 16, 0, 11]
    } else if m == 5 {
        seq![0, 10, 11, 12, 1, 8, 7, 9, 13, 14, 15, 2, 6, 5, 16, 4, 3]
    } else if m == 6 {
        seq![8, 15, 14, 0, 11, 12, 4, 3, 2, 5, 9, 10, 13, 7, 6, 16, 1]
    } else if m == 7 {
        seq![8, 9, 11, 14, 0, 4, 10, 6, 5, 13, 15, 7, 12, 16, 1, 3, 2]
    } else if m == 8 {
        seq![7, 8, 11, 12, 15, 16, 0, 3, 13, 14, 5, 6, 9, 1, 2, 10, 4]
    } else if m == 9 {
        seq![2, 12, 13, 6, 7, 8, 15, 16, 3, 4, 0, 14, 1, 5, 10, 11, 9]
    } else if m == 10 {
        seq![15, 9, 11, 16, 3, 0, 1, 6, 8, 10, 13, 14, 2, 4, 7, 5, 12]
    } else if m == 11 {
        seq![6, 5, 7, 4, 2, 12, 10, 11, 15, 14, 16, 0, 9, 8, 3, 1, 13]
    } else if m == 12 {
        seq![3, 2, 1, 0, 4, 9, 10, 13, 16, 14, 15, 7, 5, 6, 12, 11, 8]
    } else if m == 13 {
        seq![2, 9, 10, 7, 8, 11, 5, 3, 4, 0, 1, 12, 16, 15, 13, 14, 6]
    } else if m == 14 {
        seq![8, 11, 12, 10, 16, 13, 1, 6, 7, 2, 0, 4, 3, 14, 15, 9, 5]
    } else if m == 15 {
        seq![1, 2, 4, 5, 14, 11, 15, 8, 6, 10, 12, 7, 9, 0, 3, 13, 16]
    } else {
        seq![7, 0, 2, 3, 16, 14, 11, 6, 8, 10, 15, 5, 9, 4, 1, 12, 13]
    }
}

proof fn lemma_row_0(b: int)
    requires
        0 <= b < 17,
    ensures
        rearrange_row(0)[b] == open2jam_rearrange_table((0 + b) as u16),
        rearrange_row(0)[b] < 17,
        rearrange_inverse(0)[rearrange_row(0)[b] as int] == b,
{
    if b == 0 {
    } else if b == 1 {
    } else if b == 2 {
    } else if b == 3 {
    } else if b == 4 {
    } else if b == 5 {
    } else if b == 6 {
    } else if b == 7 {
    } else if b == 8 {
    } else if b == 9 {
    } else if b == 10 {
    } else if b == 11 {
    } else if b == 12 {
    } else if b == 13 {
    } else if b == 14 {
    } else if b == 15 {
    } else {
    }
}

proof fn lemma_row_1(b: int)
    requires
        0 <= b < 17,
    ensures
        rearrange_row(1)[b] == open2jam_rearrange_table((17 + b) as u16),
        rearrange_row(1)[b] < 17,
        rearrange_inverse(1)[rearrange_row(1)[b] as int] == b,
{
    if b == 0 {
    } else if b == 1 {
    } else if b == 2 {
    } else if b == 3 {
    } else if b == 4 {
    } else if b == 5 {
    } else if b == 6 {
    } else if b == 7 {
    } else if b == 8 {
    } else if b == 9 {
    } else if b == 10 {
    } else if b == 11 {
    } else if b == 12 {
    } else if b == 13 {
    } else if b == 14 {
    } else if b == 15 {
    } else {
    }
}

proof fn lemma_row_2(b: int)
    requires
        0 <= b < 17,
    ensures
        rearrange_row(2)[b] == open2jam_rearrange_table((34 + b) as u16),
        rearrange_row(2)[b] < 17,
        rearrange_inverse(2)[rearrange_row(2)[b] as int] == b,
{
    if b == 0 {
    } else if b == 1 {
    } else if b == 2 {
    } else if b == 3 {
    } else if b == 4 {
    } else if b == 5 {
    } else if b == 6 {
    } else if b == 7 {
    } else if b == 8 {
    } else if b == 9 {
    } else if b == 10 {
    } else if b == 11 {
    } else if b == 12 {
    } else if b == 13 {
    } else if b == 14 {
    } else if b == 15 {
    } else {
    }
}

proof fn lemma_row_3(b: int)
    requires
        0 <= b < 17,
    ensures
        rearrange_row(3)[b] == open2jam_rearrange_table((51 + b) as u16),
        rearrange_row(3)[b] < 17,
        rearrange_inverse(3)[rearrange_row(3)[b] as int] == b,
{
    if b == 0 {
    } else if b == 1 {
    } else if b == 2 {
    } else if b == 3 {
    } else if b == 4 {
    } else if b == 5 {
    } else if b == 6 {
    } else if b == 7 {
    } else if b == 8 {
    } else if b == 9 {
    } else if b == 10 {
    } else if b == 11 {
    } else if b == 12 {
    } else if b == 13 {
    } else if b == 14 {
    } else if b == 15 {
    } else {
    }
}

proof fn lemma_row_4(b: int)
    requires
        0 <= b < 17,
    ensures
        rearrange_row(4)[b] == open2jam_rearrange_table((68 + b) as u16),
        rearrange_row(4)[b] < 17,
        rearrange_inverse(4)[rearrange_row(4)[b] as int] == b,
{
    if b == 0 {
    } else if b == 1 {
    } else if b == 2 {
    } else if b == 3 {
    } else if b == 4 {
    } else if b == 5 {
    } else if b == 6 {
    } else if b == 7 {
    } else if b == 8 {
    } else if b == 9 {
    } else if b == 10 {
    } else if b == 11 {
    } else if b == 12 {
    } else if b == 13 {
    } else if b == 14 {
    } else if b == 15 {
    } else {
    }
}

proof fn lemma_row_5(b: int)
    requires
        0 <= b < 17,
    ensures
        rearrange_row(5)[b] == open2jam_rearrange_table((85 + b) as u16),
        rearrange_row(5)[b] < 17,
        rearrange_inverse(5)[rearrange_row(5)[b] as int] == b,
{
    if b == 0 {
    } else if b == 1 {
    } else if b == 2 {
    } else if b == 3 {
    } else if b == 4 {
    } else if b == 5 {
    } else if b == 6 {
    } else if b == 7 {
    } else if b == 8 {
    } else if b == 9 {
    } else if b == 10 {
    } else if b == 11 {
    } else if b == 12 {
    } else if b == 13 {
    } else if b == 14 {
    } else if b == 15 {
    } else {
    }
}

proof fn lemma_row_6(b: int)
    requires
        0 <= b < 17,
    ensures
        rearrange_row(6)[b] == open2jam_rearrange_table((102 + b) as u16),
        rearrange_row(6)[b] < 17,
        rearrange_inverse(6)[rearrange_row(6)[b] as int] == b,
{
    if b == 0 {
    } else if b == 1 {
    } else if b == 2 {
    } else if b == 3 {
    } else if b == 4 {
    } else if b == 5 {
    } else if b == 6 {
    } else if b == 7 {
    } else if b == 8 {
    } else if b == 9 {
    } else if b == 10 {
    } else if b == 11 {
    } else if b == 12 {
    } else if b == 13 {
    } else if b == 14 {
    } else if b == 15 {
    } else {
    }
}

proof fn lemma_row_7(b: int)
    requires
        0 <= b < 17,
    ensures
        rearrange_row(7)[b] == open2jam_rearrange_table((119 + b) as u16),
        rearrange_row(7)[b] < 17,
        rearrange_inverse(7)[rearrange_row(7)[b] as int] == b,
{
    if b == 0 {
    } else if b == 1 {
    } else if b == 2 {
    } else if b == 3 {
    } else if b == 4 {
    } else if b == 5 {
    } else if b == 6 {
    } else if b == 7 {
    } else if b == 8 {
    } else if b == 9 {
    } else if b == 10 {
    } else if b == 11 {
    } else if b == 12 {
    } else if b == 13 {
    } else if b == 14 {
    } else if b == 15 {
    } else {
    }
}

proof fn lemma_row_8(b: int)
    requires
        0 <= b < 17,
    ensures
        rearrange_row(8)[b] == open2jam_rearrange_table((136 + b) as u16),
        rearrange_row(8)[b] < 17,
        rearrange_inverse(8)[rearrange_row(8)[b] as int] == b,
{
    if b == 0 {
    } else if b == 1 {
    } else if b == 2 {
    } else if b == 3 {
    } else if b == 4 {
    } else if b == 5 {
    } else if b == 6 {
    } else if b == 7 {
    } else if b == 8 {
    } else if b == 9 {
    } else if b == 10 {
    } else if b == 11 {
    } else if b == 12 {
    } else if b == 13 {
    } else if b == 14 {
    } else if b == 15 {
    } else {
    }
}

proof fn lemma_row_9(b: int)
    requires
        0 <= b < 17,
    ensures
        rearrange_row(9)[b] == open2jam_rearrange_table((153 + b) as u16),
        rearrange_row(9)[b] < 17,
        rearrange_inverse(9)[rearrange_row(9)[b] as int] == b,
{
    if b == 0 {
    } else if b == 1 {
    } else if b == 2 {
    } else if b == 3 {
    } else if b == 4 {
    } else if b == 5 {
    } else if b == 6 {
    } else if b == 7 {
    } else if b == 8 {
    } else if b == 9 {
    } else if b == 10 {
    } else if b == 11 {
    } else if b == 12 {
    } else if b == 13 {
    } else if b == 14 {
    } else if b == 15 {
    } else {
    }
}

proof fn lemma_row_10(b: int)
    requires
        0 <= b < 17,
    ensures
        rearrange_row(10)[b] == open2jam_rearrange_table((170 + b) as u16),
        rearrange_row(10)[b] < 17,
        rearrange_inverse(10)[rearrange_row(10)[b] as int] == b,
{
    if b == 0 {
    } else if b == 1 {
    } else if b == 2 {
    } else if b == 3 {
    } else if b == 4 {
    } else if b == 5 {
    } else if b == 6 {
    } else if b == 7 {
    } else if b == 8 {
    } else if b == 9 {
    } else if b == 10 {
    } else if b == 11 {
    } else if b == 12 {
    } else if b == 13 {
    } else if b == 14 {
    } else if b == 15 {
    } else {
    }
}

proof fn lemma_row_11(b: int)
    requires
        0 <= b < 17,
    ensures
        rearrange_row(11)[b] == open2jam_rearrange_table((187 + b) as u16),
        rearrange_row(11)[b] < 17,
        rearrange_inverse(11)[rearrange_row(11)[b] as int] == b,
{
    if b == 0 {
    } else if b == 1 {
    } else if b == 2 {
    } else if b == 3 {
    } else if b == 4 {
    } else if b == 5 {
    } else if b == 6 {
    } else if b == 7 {
    } else if b == 8 {
    } else if b == 9 {
    } else if b == 10 {
    } else if b == 11 {
    } else if b == 12 {
    } else if b == 13 {
    } else if b == 14 {
    } else if b == 15 {
    } else {
    }
}

proof fn lemma_row_12(b: int)
    requires
        0 <= b < 17,
    ensures
        rearrange_row(12)[b] == open2jam_rearrange_table((204 + b) as u16),
        rearrange_row(12)[b] < 17,
        rearrange_inverse(12)[rearrange_row(12)[b] as int] == b,
{
    if b == 0 {
    } else if b == 1 {
    } else if b == 2 {
    } else if b == 3 {
    } else if b == 4 {
    } else if b == 5 {
    } else if b == 6 {
    } else if b == 7 {
    } else if b == 8 {
    } else if b == 9 {
    } else if b == 10 {
    } else if b == 11 {
    } else if b == 12 {
    } else if b == 13 {
    } else if b == 14 {
    } else if b == 15 {
    } else {
    }
}

proof fn lemma_row_13(b: int)
    requires
        0 <= b < 17,
    ensures
        rearrange_row(13)[b] == open2jam_rearrange_table((221 + b) as u16),
        rearrange_row(13)[b] < 17,
        rearrange_inverse(13)[rearrange_row(13)[b] as int] == b,
{
    if b == 0 {
    } else if b == 1 {
    } else if b == 2 {
    } else if b == 3 {
    } else if b == 4 {
    } else if b == 5 {
    } else if b == 6 {
    } else if b == 7 {
    } else if b == 8 {
    } else if b == 9 {
    } else if b == 10 {
    } else if b == 11 {
    } else if b == 12 {
    } else if b == 13 {
    } else if b == 14 {
    } else if b == 15 {
    } else {
    }
}

proof fn lemma_row_14(b: int)
    requires
        0 <= b < 17,
    ensures
        rearrange_row(14)[b] == open2jam_rearrange_table((238 + b) as u16),
        rearrange_row(14)[b] < 17,
        rearrange_inverse(14)[rearrange_row(14)[b] as int] == b,
{
    if b == 0 {
    } else if b == 1 {
    } else if b == 2 {
    } else if b == 3 {
    } else if b == 4 {
    } else if b == 5 {
    } else if b == 6 {
    } else if b == 7 {
    } else if b == 8 {
    } else if b == 9 {
    } else if b == 10 {
    } else if b == 11 {
    } else if b == 12 {
    } else if b == 13 {
    } else if b == 14 {
    } else if b == 15 {
    } else {
    }
}

proof fn lemma_row_15(b: int)
    requires
        0 <= b < 17,
    ensures
        rearrange_row(15)[b] == open2jam_rearrange_table((255 + b) as u16),
        rearrange_row(15)[b] < 17,
        rearrange_inverse(15)[rearrange_row(15)[b] as int] == b,
{
    if b == 0 {
    } else if b == 1 {
    } else if b == 2 {
    } else if b == 3 {
    } else if b == 4 {
    } else if b == 5 {
    } else if b == 6 {
    } else if b == 7 {
    } else if b == 8 {
    } else if b == 9 {
    } else if b == 10 {
    } else if b == 11 {
    } else if b == 12 {
    } else if b == 13 {
    } else if b == 14 {
    } else if b == 15 {
    } else {
    }
}

proof fn lemma_row_16(b: int)
    requires
        0 <= b < 17,
    ensures
        rearrange_row(16)[b] == open2jam_rearrange_table((272 + b) as u16),
        rearrange_row(16)[b] < 17,
        rearrange_inverse(16)[rearrange_row(16)[b] as int] == b,
{
    if b == 0 {
    } else if b == 1 {
    } else if b == 2 {
    } else if b == 3 {
    } else if b == 4 {
    } else if b == 5 {
    } else if b == 6 {
    } else if b == 7 {
    } else if b == 8 {
    } else if b == 9 {
    } else if b == 10 {
    } else if b == 11 {
    } else if b == 12 {
    } else if b == 13 {
    } else if b == 14 {
    } else if b == 15 {
    } else {
    }
}

/// Row `m` of the block table matches the open2jam table, its entries are
/// block numbers, and no two blocks go to the same place.
proof fn lemma_row_facts(m: int, b: int)
    requires
        0 <= m < 17,
        0 <= b < 17,
    ensures
        rearrange_row(m)[b] == open2jam_rearrange_table((17 * m + b) as u16),
        rearrange_row(m)[b] < 17,
        rearrange_inverse(m)[rearrange_row(m)[b] as int] == b,
{
    if m == 0 {
        lemma_row_0(b);
    } else if m == 1 {
        lemma_row_1(b);
    } else if m == 2 {
        lemma_row_2(b);
    } else if m == 3 {
        lemma_row_3(b);
    } else if m == 4 {
        lemma_row_4(b);
    } else if m == 5 {
        lemma_row_5(b);
    } else if m == 6 {
        lemma_row_6(b);
    } else if m == 7 {
        lemma_row_7(b);
    } else if m == 8 {
        lemma_row_8(b);
    } else if m == 9 {
        lemma_row_9(b);
    } else if m == 10 {
        lemma_row_10(b);
    } else if m == 11 {
        lemma_row_11(b);
    } else if m == 12 {
        lemma_row_12(b);
    } else if m == 13 {
        lemma_row_13(b);
    } else if m == 14 {
        lemma_row_14(b);
    } else if m == 15 {
        lemma_row_15(b);
    } else {
        lemma_row_16(b);
    }
}
proof fn lemma_dest_block_finds(m: int, bs: int, b: int, j: int, n: int)
    requires
        0 <= m < 17,
        bs > 0,
        0 <= j < bs,
        0 <= b < n <= 17,
    ensures
        dest_block(rearrange_row(m), bs, rearrange_row(m)[b] * bs + j, n) == Some(b),
    decreases n,
{
    let row = rearrange_row(m);
    if n - 1 != b {
        lemma_row_facts(m, b);
        lemma_row_facts(m, n - 1);
        let x = row[n - 1] as int;
        let t = row[b] as int;
        assert(x != t);
        assert(!(x * bs <= t * bs + j < x * bs + bs)) by (nonlinear_arith)
            requires
                x != t,
                bs > 0,
                0 <= j < bs,
                x >= 0,
                t >= 0,
        ;
        lemma_dest_block_finds(m, bs, b, j, n - 1);
    }
}

/// Unscrambling puts block `b` of a sample of `n` bytes (blocks of `n / 17`
/// bytes) at the block the open2jam table gives at `17 * (n % 17) + b`, byte
/// for byte.
pub proof fn lemma_block_placement(data: Seq<u8>, b: int, j: int)
    requires
        data.len() >= 17,
        0 <= b < 17,
        0 <= j < data.len() / 17,
    ensures
        ({
            let bs = data.len() / 17;
            let dst = open2jam_rearrange_table((17 * (data.len() % 17) + b) as u16) * bs + j;
            &&& 0 <= dst < data.len()
            &&& 0 <= b * bs + j < data.len()
            &&& rearranged(data)[dst] == data[b * bs + j]
        }),
{
    let bs = (data.len() / 17) as int;
    let m = (data.len() % 17) as int;
    let row = rearrange_row(m);
    lemma_row_facts(m, b);
    lemma_dest_block_finds(m, bs, b, j, 17);
    let t = row[b] as int;
    let dst = t * bs + j;
    assert(17 * bs <= data.len()) by (nonlinear_arith)
        requires
            bs == data.len() / 17,
            data.len() >= 17,
    ;
    assert(0 <= dst < 17 * bs) by (nonlinear_arith)
        requires
            0 <= t < 17,
            0 <= j < bs,
            dst == t * bs + j,
    ;
    assert(0 <= b * bs + j < 17 * bs) by (nonlinear_arith)
        requires
            0 <= b < 17,
            0 <= j < bs,
    ;
    assert(rearranged(data)[dst] == data[b * bs + (dst - t * bs)]);
}

proof fn lemma_flip_each(d: Seq<u8>, st: OmcWavDecryptState, p: int)
    requires
        0 <= p < d.len(),
    ensures
        flip_all(d, st).0[p] == d[p] || flip_all(d, st).0[p] == !d[p],
    decreases d.len(),
{
    lemma_flip_len(d.drop_last(), st);
    if p < d.len() - 1 {
        lemma_flip_each(d.drop_last(), st, p);
    }
}

/// Unscrambling a WAV sample gives, at the block the open2jam table names for
/// block `b`, that block's bytes, each kept or inverted.
pub proof fn lemma_wav_block_placement(data: Seq<u8>, st: OmcWavDecryptState, b: int, j: int)
    requires
        data.len() >= 17,
        0 <= b < 17,
        0 <= j < data.len() / 17,
    ensures
        ({
            let bs = data.len() / 17;
            let dst = open2jam_rearrange_table((17 * (data.len() % 17) + b) as u16) * bs + j;
            let out = wav_decrypted(data, st).0;
            out[dst] == data[b * bs + j] || out[dst] == !data[b * bs + j]
        }),
{
    lemma_block_placement(data, b, j);
    let bs = data.len() / 17;
    let dst = open2jam_rearrange_table((17 * (data.len() % 17) + b) as u16) * bs + j;
    lemma_flip_each(rearranged(data), st, dst);
}

/// The running state of unscrambling the WAV samples of a file: a key byte
/// and a bit counter, carried from one sample to the next.
#[derive(Debug, Copy, Clone, PartialEq, Eq, Structural)]
pub struct OmcWavDecryptState {
    pub acc_counter: u32,
    pub acc_keybyte: u8,
}

impl Default for OmcWavDecryptState {
    fn default() -> (r: OmcWavDecryptState)
        ensures
            r.acc_keybyte == 0xFF,
            r.acc_counter == 0,
    {
        OmcWavDecryptState { acc_keybyte: 0xFF, acc_counter: 0 }
    }
}

/// Whether the byte read in state `st` is inverted: the key byte's bit at
/// the counter, from the top.
pub open spec fn flips(st: OmcWavDecryptState) -> bool {
    ((st.acc_keybyte << st.acc_counter) & 0x80u8) != 0u8
}

/// The state after reading the (rearranged) byte `orig`: every 8 bytes, the
/// last of them becomes the key byte.
pub open spec fn next_state(st: OmcWavDecryptState, orig: u8) -> OmcWavDecryptState {
    if st.acc_counter + 1 > 7 {
        OmcWavDecryptState { acc_counter: 0, acc_keybyte: orig }
    } else {
        OmcWavDecryptState { acc_counter: (st.acc_counter + 1) as u32, acc_keybyte: st.acc_keybyte }
    }
}

/// The bytes `d` with the inverted ones inverted, read from state `st`, and
/// the state after them.
pub open spec fn flip_all(d: Seq<u8>, st: OmcWavDecryptState) -> (Seq<u8>, OmcWavDecryptState)
    decreases d.len(),
{
    if d.len() == 0 {
        (Seq::empty(), st)
    } else {
        let (o, s1) = flip_all(d.drop_last(), st);
        let b = d.last();
        (o.push(if flips(s1) { !b } else { b }), next_state(s1, b))
    }
}

/// A scrambled WAV sample unscrambled from state `st`, and the state after it.
pub open spec fn wav_decrypted(data: Seq<u8>, st: OmcWavDecryptState) -> (Seq<u8>, OmcWavDecryptState) {
    flip_all(rearranged(data), st)
}

proof fn lemma_block_bounds(len: int, x: int)
    requires
        0 <= len,
        0 <= x <= 16,
    ensures
        x * (len / 17) + len / 17 <= len,
        0 <= x * (len / 17),
{
    assert(x * (len / 17) + len / 17 <= 17 * (len / 17)) by (nonlinear_arith)
        requires
            0 <= x <= 16,
            0 <= len,
    ;
    assert(17 * (len / 17) <= len) by (nonlinear_arith)
        requires
            0 <= len,
    ;
    assert(0 <= x * (len / 17)) by (nonlinear_arith)
        requires
            0 <= x,
            0 <= len,
    ;
}

fn rearrange(data: &[u8]) -> (r: Vec<u8>)
    ensures
        r@ == rearranged(data@),
{
    let len = data.len();
    let bs = len / 17;
    let row = rearrange_row_of(len % 17);
    let ghost d = data@;
    let mut out: Vec<u8> = vec![0u8; len];
    assert(out@ =~= blocks_moved(d, 0));
    let mut b: usize = 0;
    while b < 17
        invariant
            b <= 17,
            d == data@,
            len == data.len(),
            bs == len / 17,
            row@ == rearrange_row((len % 17) as int),
            out@ == blocks_moved(d, b as int),
        decreases 17 - b,
    {
        let x = row[b];
        proof {
            lemma_block_bounds(len as int, x as int);
            lemma_block_bounds(len as int, b as int);
        }
        let src = b * bs;
        let dst = (x as usize) * bs;
        let ghost before = out@;
        let mut t: usize = 0;
        while t < bs
            invariant
                t <= bs,
                bs == len / 17,
                len == data.len(),
                d == data@,
                src + bs <= len,
                dst + bs <= len,
                src == b * bs,
                dst == x * bs,
                out@.len() == len,
                forall|j: int|
                    0 <= j < len ==> #[trigger] out@[j] == (if dst <= j < dst + t {
                        d[src + (j - dst)]
                    } else {
                        before[j]
                    }),
            decreases bs - t,
        {
            out.set(dst + t, data[src + t]);
            t = t + 1;
        }
        proof {
            assert forall|j: int| 0 <= j < len implies #[trigger] out@[j] == blocks_moved(d, b + 1)[j] by {
                assert(row@[b as int] == x);
            }
            assert(out@ =~= blocks_moved(d, b + 1));
        }
        b = b + 1;
    }
    out
}

/// Unscrambles a WAV sample of an OMC file, carrying `state` on to the next
/// sample.
pub fn omc_wav_decrypt(data: &[u8], state: &mut OmcWavDecryptState) -> (r: Vec<u8>)
    requires
        old(state).acc_counter <= 7,
    ensures
        (r@, *final(state)) == wav_decrypted(data@, *old(state)),
        final(state).acc_counter <= 7,
        r.len() == data.len(),
{
    let decoded = rearrange(data);
    let ghost st0 = *state;
    let mut out: Vec<u8> = Vec::new();
    let mut i: usize = 0;
    while i < decoded.len()
        invariant
            i <= decoded.len(),
            decoded@ == rearranged(data@),
            state.acc_counter <= 7,
            (out@, *state) == flip_all(decoded@.take(i as int), st0),
        decreases decoded.len() - i,
    {
        let orig = decoded[i];
        let n = if ((state.acc_keybyte << state.acc_counter) & 0x80) != 0 {
            !orig
        } else {
            orig
        };
        out.push(n);
        if state.acc_counter + 1 > 7 {
            *state = OmcWavDecryptState { acc_counter: 0, acc_keybyte: orig };
        } else {
            *state = OmcWavDecryptState { acc_counter: state.acc_counter + 1, acc_keybyte: state.acc_keybyte };
        }
        assert(decoded@.take(i + 1).drop_last() =~= decoded@.take(i as int));
        i = i + 1;
    }
    assert(decoded@.take(i as int) =~= decoded@);
    proof {
        lemma_flip_len(decoded@, st0);
    }
    out
}

/// Unscrambling keeps the length of the data.
pub proof fn lemma_flip_len(d: Seq<u8>, st: OmcWavDecryptState)
    ensures
        flip_all(d, st).0.len() == d.len(),
    decreases d.len(),
{
    if d.len() > 0 {
        lemma_flip_len(d.drop_last(), st);
    }
}

// ---------------------------------------------------------------------------
// OMC samples
// ---------------------------------------------------------------------------

/// A WAV sample of an OMC file.
#[derive(Debug, Clone)]
pub struct OmcWavSound {
    pub sound_name: Vec<u8>,
    pub format: i16,
    pub num_channels: i16,
    pub sample_rate: i32,
    pub bit_rate: i32,
    pub block_align: i16,
    pub bits_per_sample: i16,
    /// The (unscrambled) sample data.
    pub wav_data: Vec<u8>,
}

pub open spec fn wav_size_at(s: Seq<u8>, pos: int) -> int {
    as_i32(le32(s, pos + 52))
}

/// The WAV sample at `pos` lies within the input: its 56-byte header, with a
/// NUL byte in its 32-byte name, and its data.
pub open spec fn wav_sound_fits(s: Seq<u8>, pos: int) -> bool {
    &&& 0 <= pos
    &&& pos + 56 <= s.len()
    &&& nul_terminated(s.subrange(pos, pos + 32)) is Some
    &&& wav_size_at(s, pos) >= 0
    &&& pos + 56 + wav_size_at(s, pos) <= s.len()
}

pub open spec fn wav_sound_end(s: Seq<u8>, pos: int) -> int {
    pos + 56 + wav_size_at(s, pos)
}

/// `w` is the WAV sample at `pos`, with the sample data `data`.
pub open spec fn is_wav_sound_at(s: Seq<u8>, pos: int, data: Seq<u8>, w: OmcWavSound) -> bool {
    &&& nul_terminated(s.subrange(pos, pos + 32)) == Some(w.sound_name@)
    &&& w.format == as_i16(le16(s, pos + 32))
    &&& w.num_channels == as_i16(le16(s, pos + 34))
    &&& w.sample_rate == as_i32(le32(s, pos + 36))
    &&& w.bit_rate == as_i32(le32(s, pos + 40))
    &&& w.block_align == as_i16(le16(s, pos + 44))
    &&& w.bits_per_sample == as_i16(le16(s, pos + 46))
    &&& w.wav_data@ == data
}

/// The data of the WAV sample at `pos` as it is stored, and what reading it
/// gives from state `st`: unscrambled when the file is scrambled.
pub open spec fn wav_data_read(s: Seq<u8>, pos: int, encrypted: bool, st: OmcWavDecryptState) -> (
    Seq<u8>,
    OmcWavDecryptState,
) {
    let raw = s.subrange(pos + 56, wav_sound_end(s, pos));
    if encrypted {
        wav_decrypted(raw, st)
    } else {
        (raw, st)
    }
}

/// Reads the WAV sample at `pos`: `None` when it does not fit, and a sample
/// only when its data is not empty.
pub fn omc_wav_sound(s: &[u8], pos: usize, hdr: &OmcHeader, state: &mut OmcWavDecryptState) -> (r:
    Option<(Option<OmcWavSound>, usize)>)
    requires
        pos <= s.len(),
        old(state).acc_counter <= 7,
    ensures
        final(state).acc_counter <= 7,
        match r {
            Some((w, end)) => {
                let (data, st2) = wav_data_read(s@, pos as int, hdr.encrypted, *old(state));
                &&& wav_sound_fits(s@, pos as int)
                &&& end == wav_sound_end(s@, pos as int)
                &&& *final(state) == st2
                &&& match w {
                    Some(w) => data.len() > 0 && is_wav_sound_at(s@, pos as int, data, w),
                    None => data.len() == 0,
                }
            },
            None => !wav_sound_fits(s@, pos as int) && *final(state) == *old(state),
        },
{
    if s.len() - pos < 56 {
        return None;
    }
    let name = match string_block(s, pos, 32) {
        Some(n) => n,
        None => return None,
    };
    let size = read_i32(s, pos + 52);
    if size < 0 || ((s.len() - pos - 56) as u64) < (size as u64) {
        return None;
    }
    let end = pos + 56 + size as usize;
    let raw = slice_to_vec(s, pos + 56, end);
    let data = if hdr.encrypted {
        omc_wav_decrypt(raw.as_slice(), state)
    } else {
        raw
    };
    if data.len() == 0 {
        return Some((None, end));
    }
    let w = OmcWavSound {
        sound_name: name,
        format: read_i16(s, pos + 32),
        num_channels: read_i16(s, pos + 34),
        sample_rate: read_i32(s, pos + 36),
        bit_rate: read_i32(s, pos + 40),
        block_align: read_i16(s, pos + 44),
        bits_per_sample: read_i16(s, pos + 46),
        wav_data: data,
    };
    Some((Some(w), end))
}

/// The WAV samples read one after another from `pos`, from state `st`, as
/// long as they fit: the position and data of each one whose data is not
/// empty.
pub open spec fn wav_sounds_from(s: Seq<u8>, pos: int, encrypted: bool, st: OmcWavDecryptState) -> Seq<
    (int, Seq<u8>),
>
    decreases s.len() - pos,
{
    if wav_sound_fits(s, pos) {
        let (data, st2) = wav_data_read(s, pos, encrypted, st);
        let rest = wav_sounds_from(s, wav_sound_end(s, pos), encrypted, st2);
        if data.len() > 0 {
            seq![(pos, data)] + rest
        } else {
            rest
        }
    } else {
        Seq::empty()
    }
}

/// Reads the WAV section of an OMC file: the samples as long as they fit,
/// leaving out those without data. Scrambled samples are unscrambled with a
/// state that starts fresh for the section.
pub fn omc_wav_sounds(s: &[u8], hdr: &OmcHeader) -> (r: Vec<OmcWavSound>)
    ensures
        ({
            let run = wav_sounds_from(s@, 0, hdr.encrypted, OmcWavDecryptState { acc_counter: 0, acc_keybyte: 0xFF });
            &&& r.len() == run.len()
            &&& forall|i: int| 0 <= i < r.len() ==> #[trigger] is_wav_sound_at(s@, run[i].0, run[i].1, r@[i])
        }),
{
    let mut state = OmcWavDecryptState::default();
    let ghost full = wav_sounds_from(s@, 0, hdr.encrypted, state);
    let ghost mut done: Seq<(int, Seq<u8>)> = Seq::empty();
    let mut v: Vec<OmcWavSound> = Vec::new();
    let mut pos: usize = 0;
    assert(full =~= done + wav_sounds_from(s@, pos as int, hdr.encrypted, state));
    loop
        invariant
            pos <= s.len(),
            state.acc_counter <= 7,
            full == wav_sounds_from(s@, 0, hdr.encrypted, OmcWavDecryptState { acc_counter: 0, acc_keybyte: 0xFF }),
            full == done + wav_sounds_from(s@, pos as int, hdr.encrypted, state),
            v.len() == done.len(),
            forall|i: int| 0 <= i < v.len() ==> #[trigger] is_wav_sound_at(s@, done[i].0, done[i].1, v@[i]),
        decreases s.len() - pos,
    {
        let ghost st = state;
        match omc_wav_sound(s, pos, hdr, &mut state) {
            Some((w, end)) => {
                let ghost rest = wav_sounds_from(s@, end as int, hdr.encrypted, state);
                match w {
                    Some(w) => {
                        proof {
                            let data = wav_data_read(s@, pos as int, hdr.encrypted, st).0;
                            assert(wav_sounds_from(s@, pos as int, hdr.encrypted, st) == seq![(pos as int, data)] + rest);
                            assert(full =~= done.push((pos as int, data)) + rest);
                            done = done.push((pos as int, data));
                        }
                        v.push(w);
                    },
                    None => {
                        assert(wav_sounds_from(s@, pos as int, hdr.encrypted, st) == rest);
                    },
                }
                pos = end;
            },
            None => {
                proof {
                    assert(full =~= done);
                }
                return v;
            },
        }
    }
}

/// An OGG sample of an OMC file.
#[derive(Debug, Clone)]
pub struct OmcOggSound {
    pub sound_name: Vec<u8>,
    pub ogg_data: Vec<u8>,
}

pub open spec fn ogg_size_at(s: Seq<u8>, pos: int) -> int {
    as_i32(le32(s, pos + 32))
}

/// The OGG sample at `pos` lies within the input: its 32-byte name with a NUL
/// byte, its length and its data.
pub open spec fn ogg_sound_fits(s: Seq<u8>, pos: int) -> bool {
    &&& 0 <= pos
    &&& pos + 36 <= s.len()
    &&& nul_terminated(s.subrange(pos, pos + 32)) is Some
    &&& ogg_size_at(s, pos) >= 0
    &&& pos + 36 + ogg_size_at(s, pos) <= s.len()
}

pub open spec fn ogg_sound_end(s: Seq<u8>, pos: int) -> int {
    pos + 36 + ogg_size_at(s, pos)
}

pub open spec fn is_ogg_sound_at(s: Seq<u8>, pos: int, o: OmcOggSound) -> bool {
    &&& nul_terminated(s.subrange(pos, pos + 32)) == Some(o.sound_name@)
    &&& o.ogg_data@ == s.subrange(pos + 36, ogg_sound_end(s, pos))
}

/// Reads the OGG sample at `pos`.
pub fn omc_ogg_sound(s: &[u8], pos: usize) -> (r: Option<(OmcOggSound, usize)>)
    requires
        pos <= s.len(),
    ensures
        match r {
            Some((o, end)) => ogg_sound_fits(s@, pos as int) && end == ogg_sound_end(s@, pos as int)
                && is_ogg_sound_at(s@, pos as int, o),
            None => !ogg_sound_fits(s@, pos as int),
        },
{
    if s.len() - pos < 36 {
        return None;
    }
    let name = match string_block(s, pos, 32) {
        Some(n) => n,
        None => return None,
    };
    let size = read_i32(s, pos + 32);
    if size < 0 || ((s.len() - pos - 36) as u64) < (size as u64) {
        return None;
    }
    let end = pos + 36 + size as usize;
    Some((OmcOggSound { sound_name: name, ogg_data: slice_to_vec(s, pos + 36, end) }, end))
}

/// Where the OGG samples read one after another from `pos` start.
pub open spec fn ogg_positions(s: Seq<u8>, pos: int) -> Seq<int>
    decreases s.len() - pos,
{
    if ogg_sound_fits(s, pos) {
        seq![pos] + ogg_positions(s, ogg_sound_end(s, pos))
    } else {
        Seq::empty()
    }
}

/// Reads the OGG section of an OMC file, as long as the samples fit.
pub fn omc_ogg_sounds(s: &[u8]) -> (r: Vec<OmcOggSound>)
    ensures
        r.len() == ogg_positions(s@, 0).len(),
        forall|i: int| 0 <= i < r.len() ==> #[trigger] is_ogg_sound_at(s@, ogg_positions(s@, 0)[i], r@[i]),
{
    let mut v: Vec<OmcOggSound> = Vec::new();
    let mut pos: usize = 0;
    let ghost ps = ogg_positions(s@, 0);
    assert(ps.skip(0) =~= ps);
    loop
        invariant
            pos <= s.len(),
            ps == ogg_positions(s@, 0),
            v.len() <= ps.len(),
            ps.skip(v.len() as int) == ogg_positions(s@, pos as int),
            forall|i: int| 0 <= i < v.len() ==> #[trigger] is_ogg_sound_at(s@, ps[i], v@[i]),
        decreases s.len() - pos,
    {
        match omc_ogg_sound(s, pos) {
            Some((o, end)) => {
                let ghost k = v.len() as int;
                proof {
                    let rest = ogg_positions(s@, pos as int);
                    assert(rest == seq![pos as int] + ogg_positions(s@, end as int));
                    assert(rest[0] == pos as int);
                    assert(ps.skip(k)[0] == ps[k]);
                    assert(ps.skip(k + 1) =~= ps.skip(k).skip(1));
                    assert(rest.skip(1) =~= ogg_positions(s@, end as int));
                }
                v.push(o);
                pos = end;
            },
            None => {
                proof {
                    assert(ogg_positions(s@, pos as int) =~= Seq::<int>::empty());
                    assert(ps.skip(v.len() as int).len() == 0);
                }
                return v;
            },
        }
    }
}

/// How a list of `count` sample names is shown: the first 4 names at most,
/// then, when more than 5 were found, a note of how many "others" there are,
/// counted as all but the names shown and one more.
pub fn sound_listing(count: usize) -> (r: (usize, Option<usize>))
    ensures
        r.0 == (if count < 4 { count } else { 4 }),
        match r.1 {
            Some(n) => count > 5 && n == count - r.0 - 1,
            None => count <= 5,
        },
{
    let shown = if count < 4 { count } else { 4 };
    if count > 5 {
        (shown, Some(count - shown - 1))
    } else {
        (shown, None)
    }
}

} // verus!
