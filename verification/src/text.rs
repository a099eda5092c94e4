//! Byte-level text handling shared by the chart and skin readers: splitting on a
//! delimiter, trimming whitespace, and reading decimal numbers.
//!
//! All text is handled as the UTF-8 bytes of a line. Delimiters are ASCII, so
//! splitting on them never cuts a multi-byte character in two.

use vstd::prelude::*;

verus! {

// ---------------------------------------------------------------------------
// Splitting
// ---------------------------------------------------------------------------

/// The contents of each byte vector of `v`.
pub open spec fn seq_views(v: Seq<Vec<u8>>) -> Seq<Seq<u8>> {
    v.map_values(|x: Vec<u8>| x@)
}

/// The pieces of `s` between occurrences of `d`, in order. There is always at
/// least one piece (`str::split` behaves the same way).
pub open spec fn split_seq(s: Seq<u8>, d: u8) -> Seq<Seq<u8>>
    decreases s.len(),
{
    if s.len() == 0 {
        seq![Seq::<u8>::empty()]
    } else {
        let r = split_seq(s.drop_last(), d);
        if s.last() == d {
            r.push(Seq::<u8>::empty())
        } else {
            r.update(r.len() - 1, r.last().push(s.last()))
        }
    }
}

pub proof fn lemma_split_nonempty(s: Seq<u8>, d: u8)
    ensures
        split_seq(s, d).len() >= 1,
    decreases s.len(),
{
    if s.len() > 0 {
        lemma_split_nonempty(s.drop_last(), d);
    }
}

/// Splits `s` at every occurrence of `d`.
pub fn split(s: &[u8], d: u8) -> (r: Vec<Vec<u8>>)
    ensures
        seq_views(r@) == split_seq(s@, d),
        r.len() >= 1,
{
    let mut pieces: Vec<Vec<u8>> = Vec::new();
    let mut cur: Vec<u8> = Vec::new();
    let mut i: usize = 0;
    while i < s.len()
        invariant
            i <= s.len(),
            seq_views(pieces@).push(cur@) == split_seq(s@.take(i as int), d),
        decreases s.len() - i,
    {
        let ghost prev = s@.take(i as int);
        assert(s@.take(i as int + 1).drop_last() == prev);
        if s[i] == d {
            let ghost old_pieces = seq_views(pieces@);
            pieces.push(cur);
            cur = Vec::new();
            assert(seq_views(pieces@) =~= old_pieces.push(split_seq(prev, d).last()));
            assert(seq_views(pieces@).push(cur@) =~= split_seq(prev, d).push(Seq::<u8>::empty()));
        } else {
            let ghost old_cur = cur@;
            cur.push(s[i]);
            assert(seq_views(pieces@).push(cur@) =~= split_seq(prev, d).update(
                split_seq(prev, d).len() - 1,
                split_seq(prev, d).last().push(s[i as int]),
            ));
        }
        i = i + 1;
    }
    assert(s@.take(s.len() as int) == s@);
    let ghost before = seq_views(pieces@);
    pieces.push(cur);
    assert(seq_views(pieces@) =~= before.push(cur@));
    proof {
        lemma_split_nonempty(s@, d);
    }
    pieces
}

/// Where `d` first occurs in `s`, if it does.
pub open spec fn is_first_index(s: Seq<u8>, d: u8, i: int) -> bool {
    &&& 0 <= i < s.len()
    &&& s[i] == d
    &&& forall|j: int| 0 <= j < i ==> s[j] != d
}

pub open spec fn first_index(s: Seq<u8>, d: u8) -> Option<int> {
    if exists|i: int| is_first_index(s, d, i) {
        Some(choose|i: int| is_first_index(s, d, i))
    } else {
        None
    }
}

pub proof fn lemma_first_index_unique(s: Seq<u8>, d: u8, i: int)
    requires
        is_first_index(s, d, i),
    ensures
        first_index(s, d) == Some(i),
{
    let k = choose|k: int| is_first_index(s, d, k);
    assert(is_first_index(s, d, k));
    if k < i {
        assert(s[k] != d);
    }
    if i < k {
        assert(s[i] != d);
    }
}

/// The position of the first `d` in `s` (`str::find` with a single-byte pattern).
pub fn find(s: &[u8], d: u8) -> (r: Option<usize>)
    ensures
        r matches Some(i) ==> first_index(s@, d) == Some(i as int),
        r is None ==> first_index(s@, d) is None,
{
    let mut i: usize = 0;
    while i < s.len()
        invariant
            i <= s.len(),
            forall|j: int| 0 <= j < i ==> s@[j] != d,
        decreases s.len() - i,
    {
        if s[i] == d {
            proof {
                lemma_first_index_unique(s@, d, i as int);
            }
            return Some(i);
        }
        i = i + 1;
    }
    assert(!exists|k: int| is_first_index(s@, d, k));
    None
}

/// The bytes of `s` from `start` to `end`.
pub fn slice_to_vec(s: &[u8], start: usize, end: usize) -> (r: Vec<u8>)
    requires
        start <= end <= s.len(),
    ensures
        r@ == s@.subrange(start as int, end as int),
{
    let mut r: Vec<u8> = Vec::new();
    let mut i = start;
    while i < end
        invariant
            start <= i <= end <= s.len(),
            r@ == s@.subrange(start as int, i as int),
        decreases end - i,
    {
        r.push(s[i]);
        i = i + 1;
        assert(r@ =~= s@.subrange(start as int, i as int));
    }
    r
}

/// Whether `s` starts with `prefix`.
pub fn starts_with(s: &[u8], prefix: &[u8]) -> (r: bool)
    ensures
        r == (prefix@.len() <= s@.len() && s@.take(prefix@.len() as int) == prefix@),
{
    if prefix.len() > s.len() {
        return false;
    }
    let mut i: usize = 0;
    while i < prefix.len()
        invariant
            i <= prefix.len() <= s.len(),
            forall|j: int| 0 <= j < i ==> s@[j] == prefix@[j],
        decreases prefix.len() - i,
    {
        if s[i] != prefix[i] {
            assert(s@.take(prefix@.len() as int)[i as int] != prefix@[i as int]);
            return false;
        }
        i = i + 1;
    }
    assert(s@.take(prefix@.len() as int) =~= prefix@);
    true
}

/// Whether two byte strings are equal.
pub fn bytes_eq(a: &[u8], b: &[u8]) -> (r: bool)
    ensures
        r == (a@ == b@),
{
    if a.len() != b.len() {
        return false;
    }
    let r = starts_with(a, b);
    assert(a@.take(b@.len() as int) =~= a@);
    r
}

// ---------------------------------------------------------------------------
// Trimming
// ---------------------------------------------------------------------------

/// Length of the UTF-8 encoding of a Unicode `White_Space` character at the
/// start of `s` (0 when `s` does not start with one). These are the characters
/// that `char::is_whitespace`, and so `str::trim`, treats as whitespace.
pub open spec fn ws_prefix_len(s: Seq<u8>) -> nat {
    if s.len() >= 1 && ((9 <= s[0] && s[0] <= 13) || s[0] == 32) {
        1
    } else if s.len() >= 2 && s[0] == 0xC2 && (s[1] == 0x85 || s[1] == 0xA0) {
        2
    } else if s.len() >= 3 && s[0] == 0xE1 && s[1] == 0x9A && s[2] == 0x80 {
        3
    } else if s.len() >= 3 && s[0] == 0xE2 && s[1] == 0x80 && ((0x80 <= s[2] && s[2] <= 0x8A)
        || s[2] == 0xA8 || s[2] == 0xA9 || s[2] == 0xAF) {
        3
    } else if s.len() >= 3 && s[0] == 0xE2 && s[1] == 0x81 && s[2] == 0x9F {
        3
    } else if s.len() >= 3 && s[0] == 0xE3 && s[1] == 0x80 && s[2] == 0x80 {
        3
    } else {
        0
    }
}

/// Length of the UTF-8 encoding of a whitespace character at the end of `s`.
pub open spec fn ws_suffix_len(s: Seq<u8>) -> nat {
    let n = s.len() as int;
    if n >= 1 && ws_prefix_len(s.subrange(n - 1, n)) == 1 {
        1
    } else if n >= 2 && ws_prefix_len(s.subrange(n - 2, n)) == 2 {
        2
    } else if n >= 3 && ws_prefix_len(s.subrange(n - 3, n)) == 3 {
        3
    } else {
        0
    }
}

pub open spec fn trim_start_seq(s: Seq<u8>) -> Seq<u8>
    decreases s.len(),
{
    if ws_prefix_len(s) > 0 {
        trim_start_seq(s.skip(ws_prefix_len(s) as int))
    } else {
        s
    }
}

pub open spec fn trim_end_seq(s: Seq<u8>) -> Seq<u8>
    decreases s.len(),
{
    if ws_suffix_len(s) > 0 {
        trim_end_seq(s.take(s.len() - ws_suffix_len(s)))
    } else {
        s
    }
}

/// `s` with leading and trailing whitespace removed, as `str::trim` does.
pub open spec fn trim_seq(s: Seq<u8>) -> Seq<u8> {
    trim_end_seq(trim_start_seq(s))
}

/// An ASCII letter or digit.
pub open spec fn is_alnum(b: u8) -> bool {
    (48 <= b <= 57) || (65 <= b <= 90) || (97 <= b <= 122)
}

/// Text that starts and ends with a letter or digit is its own trim.
pub proof fn lemma_trim_alnum_ends(s: Seq<u8>)
    requires
        s.len() > 0,
        is_alnum(s[0]),
        is_alnum(s[s.len() - 1]),
    ensures
        trim_seq(s) == s,
{
    assert(ws_prefix_len(s) == 0);
    assert(trim_start_seq(s) == s);
    let n = s.len() as int;
    assert(s.subrange(n - 1, n)[0] == s[n - 1]);
    if n >= 2 {
        assert(s.subrange(n - 2, n)[1] == s[n - 1]);
    }
    if n >= 3 {
        assert(s.subrange(n - 3, n)[2] == s[n - 1]);
    }
    assert(ws_suffix_len(s) == 0);
}

fn ws_prefix_len_in(s: &[u8], i: usize, end: usize) -> (r: usize)
    requires
        i <= end <= s.len(),
    ensures
        r == ws_prefix_len(s@.subrange(i as int, end as int)),
        r <= end - i,
{
    let n = end - i;
    if n >= 1 && ((9 <= s[i] && s[i] <= 13) || s[i] == 32) {
        1
    } else if n >= 2 && s[i] == 0xC2 && (s[i + 1] == 0x85 || s[i + 1] == 0xA0) {
        2
    } else if n >= 3 && s[i] == 0xE1 && s[i + 1] == 0x9A && s[i + 2] == 0x80 {
        3
    } else if n >= 3 && s[i] == 0xE2 && s[i + 1] == 0x80 && ((0x80 <= s[i + 2] && s[i + 2] <= 0x8A)
        || s[i + 2] == 0xA8 || s[i + 2] == 0xA9 || s[i + 2] == 0xAF) {
        3
    } else if n >= 3 && s[i] == 0xE2 && s[i + 1] == 0x81 && s[i + 2] == 0x9F {
        3
    } else if n >= 3 && s[i] == 0xE3 && s[i + 1] == 0x80 && s[i + 2] == 0x80 {
        3
    } else {
        0
    }
}

fn ws_suffix_len_in(s: &[u8], start: usize, end: usize) -> (r: usize)
    requires
        start <= end <= s.len(),
    ensures
        r == ws_suffix_len(s@.subrange(start as int, end as int)),
        r <= end - start,
{
    let ghost t = s@.subrange(start as int, end as int);
    let n = end - start;
    if n >= 1 {
        assert(t.subrange(n - 1, n as int) =~= s@.subrange(end - 1, end as int));
    }
    if n >= 2 {
        assert(t.subrange(n - 2, n as int) =~= s@.subrange(end - 2, end as int));
    }
    if n >= 3 {
        assert(t.subrange(n - 3, n as int) =~= s@.subrange(end - 3, end as int));
    }
    if n >= 1 && ws_prefix_len_in(s, end - 1, end) == 1 {
        1
    } else if n >= 2 && ws_prefix_len_in(s, end - 2, end) == 2 {
        2
    } else if n >= 3 && ws_prefix_len_in(s, end - 3, end) == 3 {
        3
    } else {
        0
    }
}

/// `s` with leading and trailing whitespace removed (`str::trim`).
pub fn trim(s: &[u8]) -> (r: Vec<u8>)
    ensures
        r@ == trim_seq(s@),
{
    let mut i: usize = 0;
    assert(s@.skip(0) =~= s@);
    loop
        invariant
            i <= s.len(),
            trim_start_seq(s@) == trim_start_seq(s@.skip(i as int)),
        ensures
            i <= s.len(),
            trim_start_seq(s@) == s@.skip(i as int),
        decreases s.len() - i,
    {
        let k = ws_prefix_len_in(s, i, s.len());
        assert(s@.subrange(i as int, s.len() as int) =~= s@.skip(i as int));
        if k == 0 {
            break;
        }
        assert(s@.skip(i as int).skip(k as int) =~= s@.skip(i + k));
        i = i + k;
    }
    let mut j: usize = s.len();
    assert(s@.skip(i as int) =~= s@.subrange(i as int, j as int));
    loop
        invariant
            i <= j <= s.len(),
            trim_end_seq(trim_start_seq(s@)) == trim_end_seq(s@.subrange(i as int, j as int)),
        ensures
            i <= j <= s.len(),
            trim_end_seq(trim_start_seq(s@)) == s@.subrange(i as int, j as int),
        decreases j - i,
    {
        let k = ws_suffix_len_in(s, i, j);
        if k == 0 {
            break;
        }
        assert(s@.subrange(i as int, j as int).take((j - i) - k) =~= s@.subrange(
            i as int,
            (j - k) as int,
        ));
        j = j - k;
    }
    slice_to_vec(s, i, j)
}

// ---------------------------------------------------------------------------
// Decimal integers
// ---------------------------------------------------------------------------

pub open spec fn is_digit(b: u8) -> bool {
    48 <= b && b <= 57
}

pub open spec fn all_digits(s: Seq<u8>) -> bool {
    forall|i: int| 0 <= i < s.len() ==> is_digit(#[trigger] s[i])
}

/// The value of a string of decimal digits.
pub open spec fn digits_value(s: Seq<u8>) -> nat
    decreases s.len(),
{
    if s.len() == 0 {
        0
    } else {
        digits_value(s.drop_last()) * 10 + (s.last() - 48) as nat
    }
}

pub open spec fn pow10(n: nat) -> nat
    decreases n,
{
    if n == 0 {
        1
    } else {
        10 * pow10((n - 1) as nat)
    }
}

pub proof fn lemma_pow10_small(n: nat)
    requires
        n <= 6,
    ensures
        pow10(n) <= 1000000,
        n < 6 ==> pow10(n) <= 100000,
        pow10(n) >= 1,
{
    reveal_with_fuel(pow10, 7);
}

pub proof fn lemma_digits_prefix_le(s: Seq<u8>, k: int)
    requires
        all_digits(s),
        0 <= k <= s.len(),
    ensures
        digits_value(s.take(k)) <= digits_value(s),
    decreases s.len(),
{
    if k < s.len() {
        lemma_digits_prefix_le(s.drop_last(), k);
        assert(s.drop_last().take(k) =~= s.take(k));
    } else {
        assert(s.take(k) =~= s);
    }
}

pub proof fn lemma_digits_step(s: Seq<u8>, i: int)
    requires
        0 <= i < s.len(),
    ensures
        digits_value(s.take(i + 1)) == digits_value(s.take(i)) * 10 + (s[i] - 48) as nat,
{
    assert(s.take(i + 1).drop_last() =~= s.take(i));
}

/// The digits of an unsigned integer literal: an optional `+` is dropped.
pub open spec fn unsigned_body(s: Seq<u8>) -> Seq<u8> {
    if s.len() > 0 && s[0] == 43 {
        s.drop_first()
    } else {
        s
    }
}

/// The value of an unsigned integer literal no larger than `max`, as
/// `u8::from_str`, `u16::from_str`, `u32::from_str` read it: an optional `+`,
/// then one or more decimal digits.
pub open spec fn parse_unsigned(s: Seq<u8>, max: nat) -> Option<nat> {
    let d = unsigned_body(s);
    if d.len() > 0 && all_digits(d) && digits_value(d) <= max {
        Some(digits_value(d))
    } else {
        None
    }
}

/// Reads the digits `s[start..]` as a number no larger than `max`.
fn digits_at_most(s: &[u8], start: usize, max: u64) -> (r: Option<u64>)
    requires
        start <= s.len(),
    ensures
        ({
            let d = s@.skip(start as int);
            match r {
                Some(v) => all_digits(d) && digits_value(d) <= max && v == digits_value(d),
                None => !(all_digits(d) && digits_value(d) <= max),
            }
        }),
{
    let ghost d = s@.skip(start as int);
    let mut v: u64 = 0;
    let mut i = start;
    assert(d.take(0) =~= Seq::<u8>::empty());
    while i < s.len()
        invariant
            start <= i <= s.len(),
            d == s@.skip(start as int),
            all_digits(d.take(i - start)),
            v == digits_value(d.take(i - start)),
            v <= max,
        decreases s.len() - i,
    {
        let b = s[i];
        if b < 48 || b > 57 {
            assert(!all_digits(d)) by {
                assert(d[i - start] == b);
            }
            return None;
        }
        let digit = (b - 48) as u64;
        proof {
            lemma_digits_step(d, i - start);
            assert(d[i - start] == b);
        }
        if digit > max || v > (max - digit) / 10 {
            proof {
                if digit <= max {
                    assert(v * 10 + digit > max) by (nonlinear_arith)
                        requires
                            v > (max - digit) / 10,
                            digit <= max,
                    ;
                }
                assert(all_digits(d.take(i - start + 1))) by {
                    assert forall|k: int| 0 <= k < d.take(i - start + 1).len() implies is_digit(
                        #[trigger] d.take(i - start + 1)[k],
                    ) by {
                        if k < i - start {
                            assert(d.take(i - start + 1)[k] == d.take(i - start)[k]);
                        }
                    }
                }
                if all_digits(d) {
                    lemma_digits_prefix_le(d, i - start + 1);
                }
            }
            return None;
        }
        assert(v * 10 + digit <= max) by (nonlinear_arith)
            requires
                v <= (max - digit) / 10,
                digit <= max,
        ;
        v = v * 10 + digit;
        i = i + 1;
        assert(all_digits(d.take(i - start))) by {
            assert forall|k: int| 0 <= k < d.take(i - start).len() implies is_digit(
                #[trigger] d.take(i - start)[k],
            ) by {
                if k < i - start - 1 {
                    assert(d.take(i - start)[k] == d.take(i - start - 1)[k]);
                }
            }
        }
    }
    assert(d.take(i - start) =~= d);
    Some(v)
}

/// Reads an unsigned integer literal no larger than `max`.
pub fn parse_unsigned_at_most(s: &[u8], max: u64) -> (r: Option<u64>)
    ensures
        match r {
            Some(v) => parse_unsigned(s@, max as nat) == Some(v as nat),
            None => parse_unsigned(s@, max as nat) is None,
        },
{
    let start: usize = if s.len() > 0 && s[0] == 43 { 1 } else { 0 };
    assert(unsigned_body(s@) =~= s@.skip(start as int));
    if start == s.len() {
        return None;
    }
    digits_at_most(s, start, max)
}

/// `u8::from_str`.
pub fn parse_u8(s: &[u8]) -> (r: Option<u8>)
    ensures
        match r {
            Some(v) => parse_unsigned(s@, 255) == Some(v as nat),
            None => parse_unsigned(s@, 255) is None,
        },
{
    match parse_unsigned_at_most(s, 255) {
        Some(v) => Some(v as u8),
        None => None,
    }
}

/// `u16::from_str`.
pub fn parse_u16(s: &[u8]) -> (r: Option<u16>)
    ensures
        match r {
            Some(v) => parse_unsigned(s@, 65535) == Some(v as nat),
            None => parse_unsigned(s@, 65535) is None,
        },
{
    match parse_unsigned_at_most(s, 65535) {
        Some(v) => Some(v as u16),
        None => None,
    }
}

/// `u32::from_str`.
pub fn parse_u32(s: &[u8]) -> (r: Option<u32>)
    ensures
        match r {
            Some(v) => parse_unsigned(s@, 4294967295) == Some(v as nat),
            None => parse_unsigned(s@, 4294967295) is None,
        },
{
    match parse_unsigned_at_most(s, 4294967295) {
        Some(v) => Some(v as u32),
        None => None,
    }
}

/// The value of an `i32` literal as `i32::from_str` reads it: an optional sign,
/// then one or more decimal digits, within the range of `i32`.
pub open spec fn parse_i32_spec(s: Seq<u8>) -> Option<int> {
    if s.len() > 0 && s[0] == 45 {
        let d = s.drop_first();
        if d.len() > 0 && all_digits(d) && digits_value(d) <= 2147483648 {
            Some(-digits_value(d))
        } else {
            None
        }
    } else {
        match parse_unsigned(s, 2147483647) {
            Some(v) => Some(v as int),
            None => None,
        }
    }
}

/// `i32::from_str`.
pub fn parse_i32(s: &[u8]) -> (r: Option<i32>)
    ensures
        match r {
            Some(v) => parse_i32_spec(s@) == Some(v as int),
            None => parse_i32_spec(s@) is None,
        },
{
    if s.len() > 0 && s[0] == 45 {
        assert(s@.drop_first() =~= s@.skip(1));
        if s.len() == 1 {
            return None;
        }
        match digits_at_most(s, 1, 2147483648) {
            Some(v) => {
                if v == 2147483648 {
                    Some(-2147483647i32 - 1)
                } else {
                    Some(-(v as i32))
                }
            },
            None => None,
        }
    } else {
        match parse_unsigned_at_most(s, 2147483647) {
            Some(v) => Some(v as i32),
            None => None,
        }
    }
}

// ---------------------------------------------------------------------------
// Decimal numbers
// ---------------------------------------------------------------------------

/// A decimal number read from a chart, held exactly to six decimal places:
/// its value is `micros / 1_000_000`, negated when `negative`. The sign is kept
/// apart so that `-0` stays distinguishable from `0`.
#[derive(Clone, Copy, Debug, PartialEq, Eq)]
pub struct Number {
    pub negative: bool,
    pub micros: u64,
}

/// The sign of a number literal and the text after it.
pub open spec fn number_sign(s: Seq<u8>) -> (bool, Seq<u8>) {
    if s.len() > 0 && s[0] == 45 {
        (true, s.drop_first())
    } else if s.len() > 0 && s[0] == 43 {
        (false, s.drop_first())
    } else {
        (false, s)
    }
}

/// The first six digits after the decimal point, in millionths; later digits
/// are dropped.
pub open spec fn frac_micros(f: Seq<u8>) -> nat {
    let t = if f.len() <= 6 { f } else { f.take(6) };
    digits_value(t) * pow10((6 - t.len()) as nat)
}

/// The number a decimal literal denotes: an optional sign, digits, and an
/// optional point followed by digits, with at least one digit in all
/// (`12`, `-3.5`, `.25`, `7.`). Fractional digits past the sixth are read but
/// dropped. `None` when the text is no such literal, or when the value does not
/// fit in `u64` millionths.
pub open spec fn parse_number_spec(s: Seq<u8>) -> Option<Number> {
    let (neg, body) = number_sign(s);
    let int_part = match first_index(body, 46) {
        Some(p) => body.take(p),
        None => body,
    };
    let frac = match first_index(body, 46) {
        Some(p) => body.skip(p + 1),
        None => Seq::<u8>::empty(),
    };
    if all_digits(int_part) && all_digits(frac) && int_part.len() + frac.len() > 0 {
        let v = digits_value(int_part) * 1000000 + frac_micros(frac);
        if v <= u64::MAX {
            Some(Number { negative: neg, micros: v as u64 })
        } else {
            None
        }
    } else {
        None
    }
}

/// Reads the fractional digits `s[start..]`: returns `None` when one is not a
/// digit.
fn frac_digits(s: &[u8], start: usize) -> (r: Option<u64>)
    requires
        start <= s.len(),
    ensures
        ({
            let f = s@.skip(start as int);
            match r {
                Some(v) => all_digits(f) && v == frac_micros(f) && v < 1000000,
                None => !all_digits(f),
            }
        }),
{
    let ghost f = s@.skip(start as int);
    let mut v: u64 = 0;
    let mut i = start;
    let mut counted: usize = 0;
    assert(f.take(0) =~= Seq::<u8>::empty());
    while i < s.len()
        invariant
            start <= i <= s.len(),
            f == s@.skip(start as int),
            all_digits(f.take(i - start)),
            counted == if i - start <= 6 { i - start } else { 6 },
            v == digits_value(f.take(counted as int)),
            v < pow10(counted as nat),
            counted <= 6,
        decreases s.len() - i,
    {
        let b = s[i];
        if b < 48 || b > 57 {
            assert(f[i - start] == b);
            return None;
        }
        if counted < 6 {
            proof {
                lemma_digits_step(f, counted as int);
                assert(f[counted as int] == b);
                lemma_pow10_small(counted as nat);
                assert(pow10((counted + 1) as nat) == 10 * pow10(counted as nat));
            }
            v = v * 10 + (b - 48) as u64;
            counted = counted + 1;
        }
        i = i + 1;
        assert(all_digits(f.take(i - start))) by {
            assert forall|k: int| 0 <= k < f.take(i - start).len() implies is_digit(
                #[trigger] f.take(i - start)[k],
            ) by {
                if k < i - start - 1 {
                    assert(f.take(i - start)[k] == f.take(i - start - 1)[k]);
                } else {
                    assert(f[k] == b);
                }
            }
        }
    }
    assert(f.take(i - start) =~= f);
    let ghost t = if f.len() <= 6 { f } else { f.take(6) };
    assert(t =~= f.take(counted as int));
    let mut pad = counted;
    let ghost mut p: nat = 1;
    while pad < 6
        invariant
            counted <= pad <= 6,
            p == pow10((pad - counted) as nat),
            v == digits_value(t) * p,
            v < pow10(pad as nat),
        decreases 6 - pad,
    {
        proof {
            lemma_pow10_small(pad as nat);
            assert(pow10((pad + 1) as nat) == 10 * pow10(pad as nat));
            assert(v * 10 == digits_value(t) * (10 * p)) by (nonlinear_arith)
                requires
                    v == digits_value(t) * p,
            ;
        }
        v = v * 10;
        proof {
            p = 10 * p;
            assert(pow10((pad + 1 - counted) as nat) == 10 * pow10((pad - counted) as nat));
        }
        pad = pad + 1;
    }
    proof {
        assert(pow10(6) == 1000000) by { reveal_with_fuel(pow10, 7); }
        assert(t.len() == counted);
    }
    Some(v)
}

/// Reads a decimal number literal (see `parse_number_spec`), to the millionth.
/// `f64::from_str` also reads exponents (`1e2`), `inf` and `NaN`; this reader
/// refuses them. osu! writes hit object fields as integers and timing point
/// values in plain decimal notation (it switches to exponents only beyond
/// `1E+15` or below `1E-05`, far outside any time or beat length), and none of
/// them can be infinite or not a number.
pub fn parse_number(s: &[u8]) -> (r: Option<Number>)
    ensures
        r == parse_number_spec(s@),
{
    let neg = s.len() > 0 && s[0] == 45;
    let start: usize = if s.len() > 0 && (s[0] == 45 || s[0] == 43) { 1 } else { 0 };
    let ghost body = number_sign(s@).1;
    assert(body =~= s@.skip(start as int));
    let rest = slice_to_vec(s, start, s.len());
    assert(rest@ =~= body);
    let dot = find(rest.as_slice(), 46);
    let (int_end, frac_start) = match dot {
        Some(p) => (p, p + 1),
        None => (rest.len(), rest.len()),
    };
    let ghost int_part = match first_index(body, 46) {
        Some(p) => body.take(p),
        None => body,
    };
    let ghost frac = match first_index(body, 46) {
        Some(p) => body.skip(p + 1),
        None => Seq::<u8>::empty(),
    };
    let int_bytes = slice_to_vec(rest.as_slice(), 0, int_end);
    assert(int_bytes@ =~= int_part);
    assert(rest@.skip(frac_start as int) =~= frac);
    if int_end == 0 && frac_start == rest.len() {
        return None;
    }
    let iv = if int_end == 0 {
        Some(0u64)
    } else {
        digits_at_most(int_bytes.as_slice(), 0, 18446744073709)
    };
    assert(int_bytes@.skip(0) =~= int_part);
    let fv = frac_digits(rest.as_slice(), frac_start);
    match (iv, fv) {
        (Some(a), Some(b)) => {
            proof {
                if int_end == 0 {
                    assert(int_part =~= Seq::<u8>::empty());
                }
            }
            let total: u128 = a as u128 * 1000000 + b as u128;
            if total > 18446744073709551615 {
                None
            } else {
                Some(Number { negative: neg, micros: total as u64 })
            }
        },
        (None, Some(_)) => {
            proof {
                if all_digits(int_part) {
                    assert(digits_value(int_part) > 18446744073709);
                    assert(digits_value(int_part) * 1000000 + frac_micros(frac) > u64::MAX);
                }
            }
            None
        },
        _ => None,
    }
}

/// A decimal literal cut into its sign, its integer digits (before the first
/// point) and its fractional digits (after it), before any digit is checked.
pub open spec fn decimal_split(s: Seq<u8>) -> (bool, Seq<u8>, Seq<u8>) {
    let (neg, body) = number_sign(s);
    match first_index(body, 46) {
        Some(p) => (neg, body.take(p), body.skip(p + 1)),
        None => (neg, body, Seq::<u8>::empty()),
    }
}

/// The parts of a decimal literal, with every digit kept: whether it is
/// negative, its integer digits and its fractional digits; `None` when the
/// text is no literal of the form `parse_number_spec` reads.
pub open spec fn decimal_parts(s: Seq<u8>) -> Option<(bool, Seq<u8>, Seq<u8>)> {
    let (neg, i, f) = decimal_split(s);
    if all_digits(i) && all_digits(f) && i.len() + f.len() > 0 {
        Some((neg, i, f))
    } else {
        None
    }
}

/// Cuts a decimal literal as `decimal_split` does.
pub fn split_decimal(s: &[u8]) -> (r: (bool, Vec<u8>, Vec<u8>))
    ensures
        (r.0, r.1@, r.2@) == decimal_split(s@),
{
    let neg = s.len() > 0 && s[0] == 45;
    let start: usize = if s.len() > 0 && (s[0] == 45 || s[0] == 43) { 1 } else { 0 };
    let ghost body = number_sign(s@).1;
    assert(body =~= s@.skip(start as int));
    let rest = slice_to_vec(s, start, s.len());
    assert(rest@ =~= body);
    match find(rest.as_slice(), 46) {
        Some(p) => {
            let i = slice_to_vec(rest.as_slice(), 0, p);
            let f = slice_to_vec(rest.as_slice(), p + 1, rest.len());
            assert(i@ =~= body.take(p as int));
            assert(f@ =~= body.skip(p + 1));
            (neg, i, f)
        },
        None => {
            assert(rest@.subrange(0, rest@.len() as int) =~= body);
            (neg, rest, Vec::new())
        },
    }
}

/// The value of digits followed by more digits.
pub proof fn lemma_digits_concat(a: Seq<u8>, b: Seq<u8>)
    ensures
        digits_value(a + b) == digits_value(a) * pow10(b.len()) + digits_value(b),
    decreases b.len(),
{
    if b.len() == 0 {
        assert(a + b =~= a);
        assert(pow10(0) == 1);
        let x = digits_value(a);
        assert(x * pow10(0) == x) by (nonlinear_arith)
            requires
                pow10(0) == 1,
        ;
    } else {
        assert((a + b).drop_last() =~= a + b.drop_last());
        assert((a + b).last() == b.last());
        lemma_digits_concat(a, b.drop_last());
        let p = pow10(b.drop_last().len());
        let x = digits_value(a);
        let y = digits_value(b.drop_last());
        let d = (b.last() - 48) as nat;
        assert(digits_value(a + b) == digits_value(a + b.drop_last()) * 10 + d);
        assert(digits_value(a + b.drop_last()) == x * p + y);
        assert(digits_value(b) == y * 10 + d);
        assert(pow10(b.len()) == 10 * p);
        assert((x * p + y) * 10 + d == x * (10 * p) + (y * 10 + d)) by (nonlinear_arith);
    }
}

/// Digits are worth less than the power of ten of their count.
pub proof fn lemma_digits_below_pow10(s: Seq<u8>)
    requires
        all_digits(s),
    ensures
        digits_value(s) < pow10(s.len()),
    decreases s.len(),
{
    if s.len() > 0 {
        lemma_digits_below_pow10(s.drop_last());
        assert(is_digit(s[s.len() - 1]));
        assert(pow10(s.len()) == 10 * pow10(s.drop_last().len()));
    }
}

/// The value of the digits, or 512 where it is larger: `None` when a byte is
/// no digit.
pub fn digits_capped_512(s: &[u8]) -> (r: Option<u64>)
    ensures
        match r {
            Some(v) => all_digits(s@) && v == (if digits_value(s@) < 512 { digits_value(s@) } else { 512 }),
            None => !all_digits(s@),
        },
{
    let mut v: u64 = 0;
    let mut i: usize = 0;
    assert(s@.take(0) =~= Seq::<u8>::empty());
    while i < s.len()
        invariant
            i <= s.len(),
            all_digits(s@.take(i as int)),
            v == (if digits_value(s@.take(i as int)) < 512 { digits_value(s@.take(i as int)) } else { 512 }),
        decreases s.len() - i,
    {
        let b = s[i];
        if b < 48 || b > 57 {
            return None;
        }
        proof {
            lemma_digits_step(s@, i as int);
        }
        let n = v * 10 + (b - 48) as u64;
        v = if n < 512 { n } else { 512 };
        i = i + 1;
        assert(all_digits(s@.take(i as int))) by {
            assert forall|k: int| 0 <= k < i implies is_digit(#[trigger] s@.take(i as int)[k]) by {
                if k < i - 1 {
                    assert(s@.take(i as int)[k] == s@.take(i - 1)[k]);
                }
            }
        }
    }
    assert(s@.take(i as int) =~= s@);
    Some(v)
}

/// `7 * value(digits) - m * 10^count` for the first `i` digits.
pub open spec fn sevenths_gap(f: Seq<u8>, m: int, i: int) -> int {
    7 * digits_value(f.take(i)) - m * pow10(i as nat)
}

/// Whether the fraction `0.f` reaches `m / 7`, that is whether
/// `7 * value(f) >= m * 10^len(f)`: `None` when a byte of `f` is no digit.
pub fn fraction_reaches_sevenths(f: &[u8], m: u64) -> (r: Option<bool>)
    requires
        1 <= m <= 512,
    ensures
        match r {
            Some(b) => all_digits(f@) && b == (7 * digits_value(f@) >= m * pow10(f@.len())),
            None => !all_digits(f@),
        },
{
    let mut e: i64 = if m >= 7 { -7 } else { -(m as i64) };
    let mut i: usize = 0;
    assert(f@.take(0) =~= Seq::<u8>::empty());
    assert(digits_value(f@.take(0)) == 0);
    assert(pow10(0) == 1);
    assert((m as int) * pow10(0) == m as int) by (nonlinear_arith)
        requires
            pow10(0) == 1,
    ;
    assert(sevenths_gap(f@, m as int, 0) == -(m as int));
    while i < f.len()
        invariant
            i <= f.len(),
            1 <= m <= 512,
            all_digits(f@.take(i as int)),
            -7 <= e <= 1,
            e == 1 <==> sevenths_gap(f@, m as int, i as int) >= 1,
            e == -7 <==> sevenths_gap(f@, m as int, i as int) <= -7,
            -7 < e < 1 ==> e == sevenths_gap(f@, m as int, i as int),
        decreases f.len() - i,
    {
        let b = f[i];
        if b < 48 || b > 57 {
            return None;
        }
        let d: i64 = (b - 48) as i64;
        proof {
            lemma_digits_step(f@, i as int);
            let v = digits_value(f@.take(i as int));
            let p = pow10(i as nat);
            assert(pow10((i + 1) as nat) == 10 * p);
            assert(m * (10 * p) == 10 * (m * p)) by (nonlinear_arith);
            assert(sevenths_gap(f@, m as int, i + 1) == 10 * sevenths_gap(f@, m as int, i as int) + 7 * d);
        }
        if e == 1 {
        } else if e == -7 {
        } else {
            let n = 10 * e + 7 * d;
            e = if n >= 1 { 1 } else if n <= -7 { -7 } else { n };
        }
        i = i + 1;
        assert(all_digits(f@.take(i as int))) by {
            assert forall|k: int| 0 <= k < i implies is_digit(#[trigger] f@.take(i as int)[k]) by {
                if k < i - 1 {
                    assert(f@.take(i as int)[k] == f@.take(i - 1)[k]);
                }
            }
        }
    }
    assert(f@.take(i as int) =~= f@);
    Some(e >= 0)
}

// ---------------------------------------------------------------------------
// Writing numbers
// ---------------------------------------------------------------------------

/// The decimal digits of `n`, as `to_string` writes them.
pub open spec fn decimal(n: nat) -> Seq<u8>
    decreases n,
{
    if n < 10 {
        seq![(48 + n) as u8]
    } else {
        decimal(n / 10).push((48 + n % 10) as u8)
    }
}

/// The decimal digits of `n`.
pub fn decimal_bytes(n: u64) -> (r: Vec<u8>)
    ensures
        r@ == decimal(n as nat),
    decreases n,
{
    if n < 10 {
        let r = vec![48 + n as u8];
        assert(r@ =~= decimal(n as nat));
        r
    } else {
        let mut r = decimal_bytes(n / 10);
        r.push(48 + (n % 10) as u8);
        r
    }
}

/// `a` followed by `b`.
pub fn concat_bytes(a: &[u8], b: &[u8]) -> (r: Vec<u8>)
    ensures
        r@ == a@ + b@,
{
    let mut r: Vec<u8> = Vec::new();
    let mut i: usize = 0;
    while i < a.len()
        invariant
            i <= a.len(),
            r@ == a@.take(i as int),
        decreases a.len() - i,
    {
        r.push(a[i]);
        assert(a@.take(i + 1) =~= a@.take(i as int).push(a@[i as int]));
        i = i + 1;
    }
    let mut j: usize = 0;
    assert(a@.take(i as int) =~= a@);
    while j < b.len()
        invariant
            j <= b.len(),
            r@ == a@ + b@.take(j as int),
        decreases b.len() - j,
    {
        r.push(b[j]);
        assert(a@ + b@.take(j + 1) =~= (a@ + b@.take(j as int)).push(b@[j as int]));
        j = j + 1;
    }
    assert(b@.take(j as int) =~= b@);
    r
}

} // verus!
