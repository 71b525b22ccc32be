//! On-card book cache: where a book's cache files live, the textual metadata
//! record that says whether a cache is still valid, and the binary records of
//! reading progress and page offsets.
use vstd::prelude::*;
use vstd::utf8::valid_utf8;
use vstd::utf8::decode_utf8;
use vstd::utf8::encode_utf8;
use vstd::string::StringSliceAdditionalSpecFns;
use crate::epub::string_from_utf8;
use crate::epub::lemma_ascii_valid_utf8;
use crate::zip::slice_range;

verus! {

/// Version written into, and demanded of, every metadata record.
pub const CACHE_VERSION: u8 = 6;
/// Directory under which every book's cache directory lives.
pub const CACHE_ROOT_DIR: &'static str = "/.cool";
pub const META_FILE_NAME: &'static str = "meta.txt";
pub const CONTENT_FILE_NAME: &'static str = "content.txt";
pub const CHAPTERS_FILE_NAME: &'static str = "chapters.idx";
pub const PAGES_FILE_NAME: &'static str = "pages.idx";
pub const PROGRESS_FILE_NAME: &'static str = "progress.bin";
/// Longest cache directory name, in bytes (an 8.3 short-name component).
pub const MAX_COMPONENT_LEN: usize = 8;
/// Longest name the sanitizer keeps before shortening.
pub const NAME_CAPACITY: usize = 64;
/// Length of an encoded offset record.
pub const OFFSET_RECORD_LEN: usize = 8;
/// Length of an encoded progress record.
pub const PROGRESS_RECORD_LEN: usize = 12;

// ---------------------------------------------------------------------------
// Little-endian integer records
// ---------------------------------------------------------------------------

/// The little-endian value of the first eight bytes of `b`.
pub open spec fn le_value_8(b: Seq<u8>) -> nat {
    b[0] as nat + b[1] as nat * 0x100 + b[2] as nat * 0x1_0000 + b[3] as nat * 0x100_0000 + b[4] as nat
        * 0x1_0000_0000 + b[5] as nat * 0x100_0000_0000 + b[6] as nat * 0x1_0000_0000_0000 + b[7] as nat
        * 0x100_0000_0000_0000
}

/// The little-endian value of the first four bytes of `b`.
pub open spec fn le_value_4(b: Seq<u8>) -> nat {
    b[0] as nat + b[1] as nat * 0x100 + b[2] as nat * 0x1_0000 + b[3] as nat * 0x100_0000
}

/// Byte `i` (from the least significant) of `x`.
pub open spec fn byte_of(x: u64, i: u64) -> u8 {
    ((x >> (8 * i)) & 0xff) as u8
}

/// The eight little-endian bytes of `x`.
pub open spec fn le_bytes_u64(x: u64) -> Seq<u8> {
    seq![byte_of(x, 0), byte_of(x, 1), byte_of(x, 2), byte_of(x, 3), byte_of(x, 4), byte_of(x, 5),
        byte_of(x, 6), byte_of(x, 7)]
}

/// The four little-endian bytes of `x`.
pub open spec fn le_bytes_u32(x: u32) -> Seq<u8> {
    seq![byte_of(x as u64, 0), byte_of(x as u64, 1), byte_of(x as u64, 2), byte_of(x as u64, 3)]
}

/// Splitting a word into bytes and joining them again gives the word back.
proof fn lemma_split_join_u64(x: u64)
    ensures
        x as nat == le_value_8(le_bytes_u64(x)),
{
    let b = le_bytes_u64(x);
    assert(x == ((x >> 0) & 0xff) as u8 as u64 + ((x >> 8) & 0xff) as u8 as u64 * 0x100 + ((x >> 16) & 0xff) as u8
        as u64 * 0x1_0000 + ((x >> 24) & 0xff) as u8 as u64 * 0x100_0000 + ((x >> 32) & 0xff) as u8 as u64
        * 0x1_0000_0000 + ((x >> 40) & 0xff) as u8 as u64 * 0x100_0000_0000 + ((x >> 48) & 0xff) as u8 as u64
        * 0x1_0000_0000_0000 + ((x >> 56) & 0xff) as u8 as u64 * 0x100_0000_0000_0000) by (bit_vector);
    assert(b[0] == ((x >> 0) & 0xff) as u8 && b[1] == ((x >> 8) & 0xff) as u8 && b[2] == ((x >> 16) & 0xff) as u8
        && b[3] == ((x >> 24) & 0xff) as u8 && b[4] == ((x >> 32) & 0xff) as u8 && b[5] == ((x >> 40) & 0xff) as u8
        && b[6] == ((x >> 48) & 0xff) as u8 && b[7] == ((x >> 56) & 0xff) as u8);
}

/// Joining bytes into a word and splitting it again gives the bytes back.
proof fn lemma_join_split_u64(b: Seq<u8>)
    requires
        b.len() == 8,
    ensures
        le_value_8(b) <= u64::MAX,
        le_bytes_u64(le_value_8(b) as u64) == b,
{
    let (b0, b1, b2, b3, b4, b5, b6, b7) = (b[0], b[1], b[2], b[3], b[4], b[5], b[6], b[7]);
    let x: u64 = le_value_8(b) as u64;
    assert(x == b0 as u64 + b1 as u64 * 0x100 + b2 as u64 * 0x1_0000 + b3 as u64 * 0x100_0000 + b4 as u64
        * 0x1_0000_0000 + b5 as u64 * 0x100_0000_0000 + b6 as u64 * 0x1_0000_0000_0000 + b7 as u64
        * 0x100_0000_0000_0000);
    assert(((x >> 0) & 0xff) as u8 == b0 && ((x >> 8) & 0xff) as u8 == b1 && ((x >> 16) & 0xff) as u8 == b2
        && ((x >> 24) & 0xff) as u8 == b3 && ((x >> 32) & 0xff) as u8 == b4 && ((x >> 40) & 0xff) as u8 == b5
        && ((x >> 48) & 0xff) as u8 == b6 && ((x >> 56) & 0xff) as u8 == b7) by (bit_vector)
        requires
            x == b0 as u64 + b1 as u64 * 0x100 + b2 as u64 * 0x1_0000 + b3 as u64 * 0x100_0000 + b4 as u64
                * 0x1_0000_0000 + b5 as u64 * 0x100_0000_0000 + b6 as u64 * 0x1_0000_0000_0000 + b7 as u64
                * 0x100_0000_0000_0000,
    ;
    assert(le_bytes_u64(x) =~= b);
}

/// Appends the `n` little-endian bytes of `x` to `out`.
fn push_le(out: &mut Vec<u8>, x: u64, n: u64)
    requires
        n <= 8,
    ensures
        final(out)@ == old(out)@ + Seq::new(n as nat, |i: int| byte_of(x, i as u64)),
{
    let mut i: u64 = 0;
    while i < n
        invariant
            i <= n <= 8,
            out@ == old(out)@ + Seq::new(i as nat, |k: int| byte_of(x, k as u64)),
        decreases n - i,
    {
        out.push(((x >> (8 * i)) & 0xff) as u8);
        i += 1;
        assert(out@ =~= old(out)@ + Seq::new(i as nat, |k: int| byte_of(x, k as u64)));
    }
}

/// The little-endian word in `bytes[at..at + 8]`.
fn le_u64_at(bytes: &[u8], at: usize) -> (r: u64)
    requires
        at + 8 <= bytes@.len(),
    ensures
        r as nat == le_value_8(bytes@.subrange(at as int, at + 8)),
{
    let ghost b = bytes@.subrange(at as int, at + 8);
    assert(b[0] == bytes@[at as int] && b[7] == bytes@[at + 7]);
    bytes[at] as u64 + bytes[at + 1] as u64 * 0x100 + bytes[at + 2] as u64 * 0x1_0000 + bytes[at + 3] as u64
        * 0x100_0000 + bytes[at + 4] as u64 * 0x1_0000_0000 + bytes[at + 5] as u64 * 0x100_0000_0000
        + bytes[at + 6] as u64 * 0x1_0000_0000_0000 + bytes[at + 7] as u64 * 0x100_0000_0000_0000
}

/// The eight little-endian bytes of `offset`, the record of one offset in an index file.
pub fn encode_offset(offset: u64) -> (r: Vec<u8>)
    ensures
        r@ == le_bytes_u64(offset),
{
    let mut out: Vec<u8> = Vec::new();
    push_le(&mut out, offset, 8);
    assert(out@ =~= le_bytes_u64(offset));
    out
}

/// The offset held by an eight-byte record, or `None` when `bytes` is not eight bytes long.
pub fn decode_offset(bytes: &[u8]) -> (r: Option<u64>)
    ensures
        r is Some <==> bytes@.len() == OFFSET_RECORD_LEN,
        r matches Some(x) ==> x as nat == le_value_8(bytes@),
{
    if bytes.len() != OFFSET_RECORD_LEN {
        return None;
    }
    let v = le_u64_at(bytes, 0);
    assert(bytes@.subrange(0, 8) =~= bytes@);
    Some(v)
}

/// Decoding an encoded offset gives the offset back.
pub proof fn law_offset_roundtrip(offset: u64)
    ensures
        le_value_8(le_bytes_u64(offset)) == offset,
{
    lemma_split_join_u64(offset);
}

/// An offset record decodes to exactly one offset, whose encoding is the record.
pub proof fn law_offset_record_canonical(bytes: Seq<u8>)
    requires
        bytes.len() == OFFSET_RECORD_LEN,
    ensures
        le_value_8(bytes) <= u64::MAX,
        le_bytes_u64(le_value_8(bytes) as u64) == bytes,
{
    lemma_join_split_u64(bytes);
}

/// Where the reader stands in a book's cached text: the byte offset of the
/// current page's start and the page number last shown there.
#[derive(Debug, Clone, Copy, PartialEq, Eq, Structural)]
pub struct ProgressState {
    pub current_byte_offset: u64,
    pub current_page_hint: u32,
}

/// The progress record: the offset's eight little-endian bytes, then the page hint's four.
pub open spec fn progress_bytes(p: ProgressState) -> Seq<u8> {
    le_bytes_u64(p.current_byte_offset) + le_bytes_u32(p.current_page_hint)
}

/// The progress state a twelve-byte record holds.
pub open spec fn progress_of(b: Seq<u8>) -> ProgressState {
    ProgressState {
        current_byte_offset: le_value_8(b) as u64,
        current_page_hint: le_value_4(b.subrange(8, 12)) as u32,
    }
}

/// Splitting a 32-bit word into bytes and joining them again gives the word back.
proof fn lemma_split_join_u32(x: u32)
    ensures
        x as nat == le_value_4(le_bytes_u32(x)),
{
    let y = x as u64;
    assert(y == ((y >> 0) & 0xff) as u8 as u64 + ((y >> 8) & 0xff) as u8 as u64 * 0x100 + ((y >> 16) & 0xff) as u8
        as u64 * 0x1_0000 + ((y >> 24) & 0xff) as u8 as u64 * 0x100_0000) by (bit_vector)
        requires
            y == x as u64,
    ;
}

/// Joining four bytes into a word and splitting it again gives the bytes back.
proof fn lemma_join_split_u32(b: Seq<u8>)
    requires
        b.len() == 4,
    ensures
        le_value_4(b) <= u32::MAX,
        le_bytes_u32(le_value_4(b) as u32) == b,
{
    let (b0, b1, b2, b3) = (b[0], b[1], b[2], b[3]);
    let x: u64 = le_value_4(b) as u64;
    assert(x == b0 as u64 + b1 as u64 * 0x100 + b2 as u64 * 0x1_0000 + b3 as u64 * 0x100_0000);
    assert(((x >> 0) & 0xff) as u8 == b0 && ((x >> 8) & 0xff) as u8 == b1 && ((x >> 16) & 0xff) as u8 == b2
        && ((x >> 24) & 0xff) as u8 == b3 && x <= 0xffff_ffff) by (bit_vector)
        requires
            x == b0 as u64 + b1 as u64 * 0x100 + b2 as u64 * 0x1_0000 + b3 as u64 * 0x100_0000,
    ;
    assert(le_bytes_u32(x as u32) =~= b);
}

/// The twelve-byte record of `progress`.
pub fn encode_progress(progress: ProgressState) -> (r: Vec<u8>)
    ensures
        r@ == progress_bytes(progress),
{
    let mut out: Vec<u8> = Vec::new();
    push_le(&mut out, progress.current_byte_offset, 8);
    push_le(&mut out, progress.current_page_hint as u64, 4);
    assert(out@ =~= progress_bytes(progress));
    out
}

/// The progress a record holds, or `None` when `bytes` is not exactly one record long.
pub fn decode_progress(bytes: &[u8]) -> (r: Option<ProgressState>)
    ensures
        r is Some <==> bytes@.len() == PROGRESS_RECORD_LEN,
        r matches Some(p) ==> p == progress_of(bytes@),
{
    if bytes.len() != PROGRESS_RECORD_LEN {
        return None;
    }
    let offset = le_u64_at(bytes, 0);
    let hint = bytes[8] as u32 + bytes[9] as u32 * 0x100 + bytes[10] as u32 * 0x1_0000 + bytes[11] as u32 * 0x100_0000;
    assert(bytes@.subrange(0, 8)[7] == bytes@[7]);
    let ghost tail = bytes@.subrange(8, 12);
    assert(tail[0] == bytes@[8] && tail[1] == bytes@[9] && tail[2] == bytes@[10] && tail[3] == bytes@[11]);
    Some(ProgressState { current_byte_offset: offset, current_page_hint: hint })
}

/// Decoding an encoded progress record gives the progress back.
pub proof fn law_progress_roundtrip(progress: ProgressState)
    ensures
        progress_bytes(progress).len() == PROGRESS_RECORD_LEN,
        progress_of(progress_bytes(progress)) == progress,
{
    let b = progress_bytes(progress);
    lemma_split_join_u64(progress.current_byte_offset);
    lemma_split_join_u32(progress.current_page_hint);
    assert(b.subrange(8, 12) =~= le_bytes_u32(progress.current_page_hint));
    assert(b[0] == le_bytes_u64(progress.current_byte_offset)[0]);
    assert(b[7] == le_bytes_u64(progress.current_byte_offset)[7]);
}

/// A progress record decodes to exactly one progress state, whose encoding is the record.
pub proof fn law_progress_record_canonical(bytes: Seq<u8>)
    requires
        bytes.len() == PROGRESS_RECORD_LEN,
    ensures
        progress_bytes(progress_of(bytes)) == bytes,
{
    lemma_join_split_u64(bytes.subrange(0, 8));
    lemma_join_split_u32(bytes.subrange(8, 12));
    let head = bytes.subrange(0, 8);
    assert(le_value_8(head) == le_value_8(bytes));
    assert(progress_bytes(progress_of(bytes)) =~= bytes.subrange(0, 8) + bytes.subrange(8, 12));
    assert(bytes.subrange(0, 8) + bytes.subrange(8, 12) =~= bytes);
}

/// Length of an encoded reading-position record.
pub const POSITION_RECORD_LEN: usize = 24;

/// The page offsets saved for a book: where the previous page, the page shown
/// and the next page start in the cached text.
#[derive(Debug, Clone, Copy, PartialEq, Eq, Structural)]
pub struct ReadingPosition {
    pub previous_page_start_offset: u64,
    pub current_page_start_offset: u64,
    pub next_page_start_offset: u64,
}

/// The reading-position record: the three offsets as little-endian words, in
/// the order previous, current, next.
pub open spec fn position_bytes(p: ReadingPosition) -> Seq<u8> {
    le_bytes_u64(p.previous_page_start_offset) + le_bytes_u64(p.current_page_start_offset) + le_bytes_u64(
        p.next_page_start_offset,
    )
}

/// The reading position a twenty-four-byte record holds.
pub open spec fn position_of(b: Seq<u8>) -> ReadingPosition {
    ReadingPosition {
        previous_page_start_offset: le_value_8(b.subrange(0, 8)) as u64,
        current_page_start_offset: le_value_8(b.subrange(8, 16)) as u64,
        next_page_start_offset: le_value_8(b.subrange(16, 24)) as u64,
    }
}

/// The twenty-four-byte record of `position`.
pub fn encode_reading_position(position: ReadingPosition) -> (r: Vec<u8>)
    ensures
        r@ == position_bytes(position),
{
    let mut out: Vec<u8> = Vec::new();
    push_le(&mut out, position.previous_page_start_offset, 8);
    push_le(&mut out, position.current_page_start_offset, 8);
    push_le(&mut out, position.next_page_start_offset, 8);
    assert(out@ =~= position_bytes(position));
    out
}

/// The reading position a record holds, or `None` when `bytes` is not exactly
/// one record long.
pub fn decode_reading_position(bytes: &[u8]) -> (r: Option<ReadingPosition>)
    ensures
        r is Some <==> bytes@.len() == POSITION_RECORD_LEN,
        r matches Some(p) ==> p == position_of(bytes@),
{
    if bytes.len() != POSITION_RECORD_LEN {
        return None;
    }
    let previous = le_u64_at(bytes, 0);
    let current = le_u64_at(bytes, 8);
    let next = le_u64_at(bytes, 16);
    Some(ReadingPosition {
        previous_page_start_offset: previous,
        current_page_start_offset: current,
        next_page_start_offset: next,
    })
}

/// Decoding an encoded reading position gives the position back.
pub proof fn law_position_roundtrip(position: ReadingPosition)
    ensures
        position_bytes(position).len() == POSITION_RECORD_LEN,
        position_of(position_bytes(position)) == position,
{
    let b = position_bytes(position);
    lemma_split_join_u64(position.previous_page_start_offset);
    lemma_split_join_u64(position.current_page_start_offset);
    lemma_split_join_u64(position.next_page_start_offset);
    assert(b.subrange(0, 8) =~= le_bytes_u64(position.previous_page_start_offset));
    assert(b.subrange(8, 16) =~= le_bytes_u64(position.current_page_start_offset));
    assert(b.subrange(16, 24) =~= le_bytes_u64(position.next_page_start_offset));
}

/// A reading-position record decodes to exactly one position, whose encoding is the record.
pub proof fn law_position_record_canonical(bytes: Seq<u8>)
    requires
        bytes.len() == POSITION_RECORD_LEN,
    ensures
        position_bytes(position_of(bytes)) == bytes,
{
    lemma_join_split_u64(bytes.subrange(0, 8));
    lemma_join_split_u64(bytes.subrange(8, 16));
    lemma_join_split_u64(bytes.subrange(16, 24));
    assert(position_bytes(position_of(bytes)) =~= bytes.subrange(0, 8) + bytes.subrange(8, 16) + bytes.subrange(16, 24));
    assert(bytes.subrange(0, 8) + bytes.subrange(8, 16) + bytes.subrange(16, 24) =~= bytes);
}

// ---------------------------------------------------------------------------
// Decimal numbers
// ---------------------------------------------------------------------------

/// Whether `b` is an ASCII decimal digit.
pub open spec fn is_digit(b: u8) -> bool {
    0x30 <= b <= 0x39
}

/// The value of a run of decimal digits, most significant first.
pub open spec fn dec_value(s: Seq<u8>) -> nat
    decreases s.len(),
{
    if s.len() == 0 {
        0
    } else {
        dec_value(s.drop_last()) * 10 + (s.last() - 0x30) as nat
    }
}

/// The decimal digits of `n`, without leading zeros (`0` is one digit).
pub open spec fn dec_digits(n: nat) -> Seq<u8>
    decreases n,
{
    if n < 10 {
        seq![(0x30 + n) as u8]
    } else {
        dec_digits(n / 10).push((0x30 + n % 10) as u8)
    }
}

/// Whether every byte of `s` is a decimal digit.
pub open spec fn all_digits(s: Seq<u8>) -> bool {
    forall|i: int| 0 <= i < s.len() ==> is_digit(#[trigger] s[i])
}

/// `s` without one leading `+`.
pub open spec fn unsigned_body(s: Seq<u8>) -> Seq<u8> {
    if s.len() > 0 && s[0] == 0x2b {
        s.subrange(1, s.len() as int)
    } else {
        s
    }
}

/// How `str::parse` reads an unsigned integer no larger than `max`: an optional
/// `+`, then one or more decimal digits whose value fits.
pub open spec fn parse_unsigned(s: Seq<u8>, max: nat) -> Option<nat> {
    let body = unsigned_body(s);
    if body.len() > 0 && all_digits(body) && dec_value(body) <= max {
        Some(dec_value(body))
    } else {
        None
    }
}

proof fn lemma_dec_digits(n: nat)
    ensures
        dec_digits(n).len() > 0,
        forall|i: int| 0 <= i < dec_digits(n).len() ==> is_digit(#[trigger] dec_digits(n)[i]),
        dec_value(dec_digits(n)) == n,
    decreases n,
{
    let d = dec_digits(n);
    if n >= 10 {
        lemma_dec_digits(n / 10);
        assert(d.drop_last() =~= dec_digits(n / 10));
        vstd::arithmetic::div_mod::lemma_fundamental_div_mod(n as int, 10);
        assert(n % 10 < 10);
        assert(d.last() == (0x30 + n % 10) as u8);
        assert(dec_value(d) == dec_value(d.drop_last()) * 10 + (d.last() - 0x30) as nat);
        assert forall|i: int| 0 <= i < d.len() implies is_digit(#[trigger] d[i]) by {
            if i < d.len() - 1 {
                assert(d[i] == dec_digits(n / 10)[i]);
            }
        }
    } else {
        assert(d.drop_last() =~= Seq::<u8>::empty());
        assert(dec_value(d) == dec_value(d.drop_last()) * 10 + (d.last() - 0x30) as nat);
    }
}

/// A prefix of a run of digits has no larger value than the whole run.
proof fn lemma_dec_prefix_le(s: Seq<u8>, j: int)
    requires
        0 <= j <= s.len(),
        forall|i: int| 0 <= i < s.len() ==> is_digit(#[trigger] s[i]),
    ensures
        dec_value(s.subrange(0, j)) <= dec_value(s),
    decreases s.len() - j,
{
    if j < s.len() {
        lemma_dec_prefix_le(s, j + 1);
        let p = s.subrange(0, j + 1);
        assert(p.drop_last() =~= s.subrange(0, j));
    } else {
        assert(s.subrange(0, j) =~= s);
    }
}

/// Appends the decimal digits of `n`.
fn push_decimal(out: &mut Vec<u8>, n: u64)
    ensures
        final(out)@ == old(out)@ + dec_digits(n as nat),
    decreases n,
{
    if n >= 10 {
        push_decimal(out, n / 10);
    }
    out.push((0x30 + n % 10) as u8);
    proof {
        if n >= 10 {
            assert(dec_digits(n as nat) == dec_digits((n / 10) as nat).push((0x30 + n % 10) as u8));
        }
    }
    assert(out@ =~= old(out)@ + dec_digits(n as nat));
}

/// The unsigned integer `s` spells, as `str::parse` reads it, when it is at most `max`.
pub fn parse_unsigned_bytes(s: &[u8], max: u64) -> (r: Option<u64>)
    ensures
        r matches Some(v) ==> parse_unsigned(s@, max as nat) == Some(v as nat),
        r is None ==> parse_unsigned(s@, max as nat) is None,
{
    let start: usize = if s.len() > 0 && s[0] == 0x2bu8 { 1 } else { 0 };
    let ghost body = unsigned_body(s@);
    assert(body =~= s@.subrange(start as int, s@.len() as int));
    if start >= s.len() {
        return None;
    }
    let mut value: u64 = 0;
    let mut i: usize = start;
    while i < s.len()
        invariant
            start <= i <= s@.len(),
            body == s@.subrange(start as int, s@.len() as int),
            body == unsigned_body(s@),
            forall|j: int| 0 <= j < i - start ==> is_digit(#[trigger] body[j]),
            value as nat == dec_value(body.subrange(0, i - start)),
            value <= max,
        decreases s@.len() - i,
    {
        let b = s[i];
        if b < 0x30u8 || b > 0x39u8 {
            proof {
                assert(!is_digit(body[i - start]));
                assert(!all_digits(body));
            }
            return None;
        }
        let next: u128 = value as u128 * 10 + (b - 0x30u8) as u128;
        let ghost p = body.subrange(0, i - start + 1);
        assert(p.drop_last() =~= body.subrange(0, i - start));
        if next > max as u128 {
            proof {
                if all_digits(body) {
                    lemma_dec_prefix_le(body, i - start + 1);
                    assert(dec_value(p) == dec_value(p.drop_last()) * 10 + (p.last() - 0x30) as nat);
                    assert(dec_value(body) > max);
                }
            }
            return None;
        }
        value = next as u64;
        i += 1;
    }
    assert(body.subrange(0, i - start) =~= body);
    Some(value)
}

// ---------------------------------------------------------------------------
// The metadata record
// ---------------------------------------------------------------------------

/// What a cache was built from and for: it is reused only while all of it
/// still matches the book and the layout.
#[derive(Debug, Clone, Copy, PartialEq, Eq, Structural)]
pub struct CacheMeta {
    pub version: u8,
    pub source_size: u32,
    pub content_length: u64,
    pub build_complete: bool,
    pub next_chapter_index: u16,
    pub layout_sig_version: u16,
    pub layout_sig_width: u16,
    pub layout_sig_height: u16,
    pub layout_sig_content_height: u16,
    pub layout_sig_font: u32,
    pub layout_sig_paginator: u32,
}

/// Number of fields in a metadata record.
pub const META_FIELDS: usize = 11;

/// The key, `=` included, that starts the line of field `k`.
pub open spec fn key_bytes(k: int) -> Seq<u8> {
    if k == 0 {
        "version=".spec_bytes()
    } else if k == 1 {
        "source_size=".spec_bytes()
    } else if k == 2 {
        "content_length=".spec_bytes()
    } else if k == 3 {
        "build_complete=".spec_bytes()
    } else if k == 4 {
        "next_chapter_index=".spec_bytes()
    } else if k == 5 {
        "layout_sig_version=".spec_bytes()
    } else if k == 6 {
        "layout_sig_width=".spec_bytes()
    } else if k == 7 {
        "layout_sig_height=".spec_bytes()
    } else if k == 8 {
        "layout_sig_content_height=".spec_bytes()
    } else if k == 9 {
        "layout_sig_font=".spec_bytes()
    } else {
        "layout_sig_paginator=".spec_bytes()
    }
}

fn meta_key(k: usize) -> (r: &'static str)
    requires
        k < META_FIELDS,
    ensures
        r.spec_bytes() == key_bytes(k as int),
{
    if k == 0 {
        "version="
    } else if k == 1 {
        "source_size="
    } else if k == 2 {
        "content_length="
    } else if k == 3 {
        "build_complete="
    } else if k == 4 {
        "next_chapter_index="
    } else if k == 5 {
        "layout_sig_version="
    } else if k == 6 {
        "layout_sig_width="
    } else if k == 7 {
        "layout_sig_height="
    } else if k == 8 {
        "layout_sig_content_height="
    } else if k == 9 {
        "layout_sig_font="
    } else {
        "layout_sig_paginator="
    }
}

/// The largest value field `k` holds.
pub open spec fn field_max(k: int) -> nat {
    if k == 0 {
        0xff
    } else if k == 2 {
        0xffff_ffff_ffff_ffff
    } else if k == 3 {
        1
    } else if k == 1 || k == 9 || k == 10 {
        0xffff_ffff
    } else {
        0xffff
    }
}

fn field_max_exec(k: usize) -> (r: u64)
    requires
        k < META_FIELDS,
    ensures
        r as nat == field_max(k as int),
{
    if k == 0 {
        0xff
    } else if k == 2 {
        0xffff_ffff_ffff_ffff
    } else if k == 3 {
        1
    } else if k == 1 || k == 9 || k == 10 {
        0xffff_ffff
    } else {
        0xffff
    }
}

/// The fields of `m` in record order, the flag as 0 or 1.
pub open spec fn meta_values(m: CacheMeta) -> Seq<nat> {
    seq![m.version as nat, m.source_size as nat, m.content_length as nat, if m.build_complete { 1nat } else { 0nat },
        m.next_chapter_index as nat, m.layout_sig_version as nat, m.layout_sig_width as nat, m.layout_sig_height as nat,
        m.layout_sig_content_height as nat, m.layout_sig_font as nat, m.layout_sig_paginator as nat]
}

fn meta_value(m: &CacheMeta, k: usize) -> (r: u64)
    requires
        k < META_FIELDS,
    ensures
        r as nat == meta_values(*m)[k as int],
{
    if k == 0 {
        m.version as u64
    } else if k == 1 {
        m.source_size as u64
    } else if k == 2 {
        m.content_length
    } else if k == 3 {
        if m.build_complete { 1 } else { 0 }
    } else if k == 4 {
        m.next_chapter_index as u64
    } else if k == 5 {
        m.layout_sig_version as u64
    } else if k == 6 {
        m.layout_sig_width as u64
    } else if k == 7 {
        m.layout_sig_height as u64
    } else if k == 8 {
        m.layout_sig_content_height as u64
    } else if k == 9 {
        m.layout_sig_font as u64
    } else {
        m.layout_sig_paginator as u64
    }
}

/// The line of field `k`: key, decimal value, newline.
pub open spec fn meta_line(k: int, v: nat) -> Seq<u8> {
    key_bytes(k) + dec_digits(v) + seq![0x0au8]
}

/// The lines of the fields from `k` on.
pub open spec fn meta_text_from(vals: Seq<nat>, k: int) -> Seq<u8>
    decreases 11 - k,
{
    if k >= 11 || k < 0 {
        Seq::empty()
    } else {
        meta_line(k, vals[k]) + meta_text_from(vals, k + 1)
    }
}

/// The text of the metadata record of `m`.
pub open spec fn meta_text(m: CacheMeta) -> Seq<u8> {
    meta_text_from(meta_values(m), 0)
}

proof fn lemma_key_valid(k: int)
    ensures
        valid_utf8(key_bytes(k)),
{
    broadcast use vstd::utf8::encode_utf8_valid_utf8;
}

proof fn lemma_meta_text_valid(vals: Seq<nat>, k: int)
    ensures
        valid_utf8(meta_text_from(vals, k)),
    decreases 11 - k,
{
    if 0 <= k < 11 {
        lemma_meta_text_valid(vals, k + 1);
        lemma_key_valid(k);
        lemma_dec_digits(vals[k]);
        let d = dec_digits(vals[k]);
        assert forall|i: int| 0 <= i < d.len() implies #[trigger] d[i] < 0x80 by {
            assert(is_digit(d[i]));
        }
        lemma_ascii_valid_utf8(d);
        let nl = seq![0x0au8];
        assert forall|i: int| 0 <= i < nl.len() implies #[trigger] nl[i] < 0x80 by {}
        lemma_ascii_valid_utf8(nl);
        vstd::utf8::valid_utf8_concat(key_bytes(k), d);
        vstd::utf8::valid_utf8_concat(key_bytes(k) + d, nl);
        vstd::utf8::valid_utf8_concat(meta_line(k, vals[k]), meta_text_from(vals, k + 1));
    } else {
        lemma_ascii_valid_utf8(Seq::<u8>::empty());
    }
}

/// The metadata record of `meta`: one `key=value` line per field, in record order.
pub fn serialize_meta(meta: &CacheMeta) -> (r: String)
    ensures
        valid_utf8(meta_text(*meta)),
        r@ == decode_utf8(meta_text(*meta)),
        encode_utf8(r@) == meta_text(*meta),
{
    let ghost vals = meta_values(*meta);
    let mut out: Vec<u8> = Vec::new();
    let mut k: usize = 0;
    while k < META_FIELDS
        invariant
            k <= META_FIELDS,
            vals == meta_values(*meta),
            out@ + meta_text_from(vals, k as int) == meta_text_from(vals, 0),
        decreases META_FIELDS - k,
    {
        let key = meta_key(k).as_bytes();
        let mut j: usize = 0;
        let ghost before = out@;
        while j < key.len()
            invariant
                j <= key@.len(),
                out@ == before + key@.subrange(0, j as int),
            decreases key@.len() - j,
        {
            out.push(key[j]);
            j += 1;
            assert(out@ =~= before + key@.subrange(0, j as int));
        }
        push_decimal(&mut out, meta_value(meta, k));
        out.push(0x0au8);
        assert(key@.subrange(0, key@.len() as int) =~= key@);
        assert(out@ =~= before + meta_line(k as int, vals[k as int]));
        assert(meta_text_from(vals, k as int) == meta_line(k as int, vals[k as int]) + meta_text_from(vals, k + 1));
        assert(out@ + meta_text_from(vals, k + 1) =~= before + meta_text_from(vals, k as int));
        k += 1;
    }
    assert(meta_text_from(vals, 11) =~= Seq::<u8>::empty());
    assert(out@ =~= meta_text(*meta));
    proof {
        lemma_meta_text_valid(vals, 0);
    }
    match string_from_utf8(out) {
        Some(text) => {
            proof {
                vstd::utf8::decode_utf8_encode_utf8(meta_text(*meta));
            }
            text
        },
        None => {
            proof {
                assert(false);
            }
            String::new()
        },
    }
}

/// Whether `line` starts with `key`.
pub open spec fn has_prefix(line: Seq<u8>, key: Seq<u8>) -> bool {
    key.len() <= line.len() && line.subrange(0, key.len() as int) == key
}

/// The first field, from `k` on, whose key starts `line`; 11 when none does.
pub open spec fn first_key(line: Seq<u8>, k: int) -> int
    decreases 11 - k,
{
    if k >= 11 || k < 0 {
        11
    } else if has_prefix(line, key_bytes(k)) {
        k
    } else {
        first_key(line, k + 1)
    }
}

/// The value of field `k` spelled by `text`: the flag is exactly `0` or `1`,
/// the others as `str::parse` reads an integer of the field's width.
pub open spec fn parse_field(k: int, text: Seq<u8>) -> Option<nat> {
    if k == 3 {
        if text == seq![0x30u8] {
            Some(0)
        } else if text == seq![0x31u8] {
            Some(1)
        } else {
            None
        }
    } else {
        parse_unsigned(text, field_max(k))
    }
}

/// A record read so far: the value of each field seen, the later line winning.
pub open spec fn empty_draft() -> Seq<Option<u64>> {
    Seq::new(11, |k: int| None)
}

/// The draft after one line: a line with a field's key sets that field (and an
/// unreadable value rejects the record); any other line is ignored.
pub open spec fn apply_line(d: Seq<Option<u64>>, line: Seq<u8>) -> Option<Seq<Option<u64>>> {
    let k = first_key(line, 0);
    if k >= 11 {
        Some(d)
    } else {
        match parse_field(k, line.subrange(key_bytes(k).len() as int, line.len() as int)) {
            Some(v) => Some(d.update(k, Some(v as u64))),
            None => None,
        }
    }
}

/// The draft after the lines of `b` from the line that starts at `ls`, whose
/// bytes before `i` hold no newline.
pub open spec fn meta_scan(b: Seq<u8>, ls: int, i: int, d: Seq<Option<u64>>) -> Option<Seq<Option<u64>>>
    decreases b.len() - i,
{
    if i < 0 || ls < 0 || ls > i || i > b.len() {
        None
    } else if i == b.len() {
        apply_line(d, b.subrange(ls, i))
    } else if b[i] == 0x0a {
        match apply_line(d, b.subrange(ls, i)) {
            Some(d2) => meta_scan(b, i + 1, i + 1, d2),
            None => None,
        }
    } else {
        meta_scan(b, ls, i + 1, d)
    }
}

/// The record a complete draft describes, when every field was seen and the
/// version is the current one.
pub open spec fn meta_of(d: Seq<Option<u64>>) -> Option<CacheMeta> {
    if d.len() == 11 && (forall|k: int| 0 <= k < 11 ==> #[trigger] d[k] is Some) && d[0] == Some(CACHE_VERSION as u64) {
        Some(CacheMeta {
            version: d[0]->0 as u8,
            source_size: d[1]->0 as u32,
            content_length: d[2]->0,
            build_complete: d[3]->0 == 1,
            next_chapter_index: d[4]->0 as u16,
            layout_sig_version: d[5]->0 as u16,
            layout_sig_width: d[6]->0 as u16,
            layout_sig_height: d[7]->0 as u16,
            layout_sig_content_height: d[8]->0 as u16,
            layout_sig_font: d[9]->0 as u32,
            layout_sig_paginator: d[10]->0 as u32,
        })
    } else {
        None
    }
}

/// The record held by the text `b`, split into lines at each newline.
pub open spec fn parse_meta_spec(b: Seq<u8>) -> Option<CacheMeta> {
    match meta_scan(b, 0, 0, empty_draft()) {
        Some(d) => meta_of(d),
        None => None,
    }
}

fn has_prefix_exec(line: &[u8], key: &[u8]) -> (r: bool)
    ensures
        r == has_prefix(line@, key@),
{
    if key.len() > line.len() {
        return false;
    }
    let mut j: usize = 0;
    while j < key.len()
        invariant
            j <= key@.len() <= line@.len(),
            forall|t: int| 0 <= t < j ==> line@[t] == key@[t],
        decreases key@.len() - j,
    {
        if line[j] != key[j] {
            assert(line@.subrange(0, key@.len() as int)[j as int] != key@[j as int]);
            return false;
        }
        j += 1;
    }
    assert(line@.subrange(0, key@.len() as int) =~= key@);
    true
}

fn first_key_exec(line: &[u8]) -> (r: usize)
    ensures
        r as int == first_key(line@, 0),
        r <= 11,
{
    let mut k: usize = 0;
    while k < META_FIELDS
        invariant
            k <= 11,
            first_key(line@, 0) == first_key(line@, k as int),
        decreases META_FIELDS - k,
    {
        if has_prefix_exec(line, meta_key(k).as_bytes()) {
            return k;
        }
        k += 1;
    }
    k
}

fn apply_line_exec(d: &mut Vec<Option<u64>>, line: &[u8]) -> (r: bool)
    requires
        old(d)@.len() == 11,
    ensures
        final(d)@.len() == 11,
        r == apply_line(old(d)@, line@) is Some,
        r ==> apply_line(old(d)@, line@) == Some(final(d)@),
{
    let k = first_key_exec(line);
    proof {
        lemma_first_key_range(line@, 0);
    }
    if k >= META_FIELDS {
        return true;
    }
    let key_len = meta_key(k).as_bytes().len();
    if key_len > line.len() {
        return false;
    }
    let text = slice_range(line, key_len, line.len());
    let value: Option<u64> = if k == 3 {
        if text.len() == 1 && text[0] == 0x30u8 {
            assert(text@ =~= seq![0x30u8]);
            Some(0)
        } else if text.len() == 1 && text[0] == 0x31u8 {
            assert(text@ =~= seq![0x31u8]);
            Some(1)
        } else {
            assert(text@ != seq![0x30u8]);
            assert(text@ != seq![0x31u8]);
            None
        }
    } else {
        parse_unsigned_bytes(text, field_max_exec(k))
    };
    match value {
        Some(v) => {
            d.set(k, Some(v));
            true
        },
        None => false,
    }
}

fn meta_of_exec(d: &Vec<Option<u64>>) -> (r: Option<CacheMeta>)
    requires
        d@.len() == 11,
        forall|k: int| 0 <= k < 11 && #[trigger] d@[k] is Some ==> d@[k]->0 <= field_max(k),
    ensures
        r == meta_of(d@),
{
    let mut k: usize = 0;
    while k < META_FIELDS
        invariant
            k <= 11,
            d@.len() == 11,
            forall|j: int| 0 <= j < k ==> #[trigger] d@[j] is Some,
        decreases META_FIELDS - k,
    {
        if d[k].is_none() {
            return None;
        }
        k += 1;
    }
    if d[0] != Some(CACHE_VERSION as u64) {
        return None;
    }
    let v = |k: usize| -> (x: u64)
        requires
            k < 11,
            d@[k as int] is Some,
        ensures
            x == d@[k as int]->0,
    {
        match d[k] {
            Some(x) => x,
            None => 0,
        }
    };
    assert(d@[3] is Some && d@[4] is Some);
    Some(CacheMeta {
        version: v(0) as u8,
        source_size: v(1) as u32,
        content_length: v(2),
        build_complete: v(3) == 1,
        next_chapter_index: v(4) as u16,
        layout_sig_version: v(5) as u16,
        layout_sig_width: v(6) as u16,
        layout_sig_height: v(7) as u16,
        layout_sig_content_height: v(8) as u16,
        layout_sig_font: v(9) as u32,
        layout_sig_paginator: v(10) as u32,
    })
}

/// The metadata record in `raw`: every field's line must be present with a
/// readable value (later lines win, other lines are ignored), and the version
/// must be the current one.
pub fn parse_meta(raw: &str) -> (r: Option<CacheMeta>)
    ensures
        r == parse_meta_spec(raw.spec_bytes()),
{
    let b = raw.as_bytes();
    let mut d: Vec<Option<u64>> = Vec::new();
    let mut k: usize = 0;
    while k < META_FIELDS
        invariant
            k <= 11,
            d@ == Seq::new(k as nat, |j: int| None::<u64>),
        decreases META_FIELDS - k,
    {
        d.push(None);
        k += 1;
        assert(d@ =~= Seq::new(k as nat, |j: int| None::<u64>));
    }
    assert(d@ =~= empty_draft());
    let mut ls: usize = 0;
    let mut i: usize = 0;
    while i < b.len()
        invariant
            b@ == raw.spec_bytes(),
            ls <= i <= b@.len(),
            d@.len() == 11,
            forall|j: int| 0 <= j < 11 && #[trigger] d@[j] is Some ==> d@[j]->0 <= field_max(j),
            meta_scan(b@, ls as int, i as int, d@) == meta_scan(b@, 0, 0, empty_draft()),
        decreases b@.len() - i,
    {
        if b[i] == 0x0au8 {
            let line = slice_range(b, ls, i);
            let ghost before = d@;
            if !apply_line_exec(&mut d, line) {
                assert(meta_scan(b@, ls as int, i as int, before) is None);
                return None;
            }
            proof { lemma_apply_line_bounded(before, line@); }
            ls = i + 1;
        }
        i += 1;
    }
    let line = slice_range(b, ls, b.len());
    let ghost before = d@;
    if !apply_line_exec(&mut d, line) {
        return None;
    }
    proof { lemma_apply_line_bounded(before, line@); }
    meta_of_exec(&d)
}

/// A record read back always has the current version.
pub proof fn lemma_parsed_meta_version(b: Seq<u8>)
    ensures
        parse_meta_spec(b) matches Some(m) ==> m.version == CACHE_VERSION,
{
}

/// A line keeps every value seen within its field's range.
proof fn lemma_apply_line_bounded(d: Seq<Option<u64>>, line: Seq<u8>)
    requires
        d.len() == 11,
        forall|j: int| 0 <= j < 11 && #[trigger] d[j] is Some ==> d[j]->0 <= field_max(j),
        apply_line(d, line) is Some,
    ensures
        ({
            let d2 = apply_line(d, line)->0;
            &&& d2.len() == 11
            &&& forall|j: int| 0 <= j < 11 && #[trigger] d2[j] is Some ==> d2[j]->0 <= field_max(j)
        }),
{
    let k = first_key(line, 0);
    lemma_first_key_range(line, 0);
    if k < 11 {
        let text = line.subrange(key_bytes(k).len() as int, line.len() as int);
        let v = parse_field(k, text)->0;
        assert(v <= field_max(k));
        assert(field_max(k) <= u64::MAX);
    }
}

proof fn lemma_first_key_range(line: Seq<u8>, k: int)
    requires
        0 <= k,
    ensures
        k <= first_key(line, k) <= 11 || first_key(line, k) == 11,
        first_key(line, k) < 11 ==> has_prefix(line, key_bytes(first_key(line, k))),
    decreases 11 - k,
{
    if k < 11 && !has_prefix(line, key_bytes(k)) {
        lemma_first_key_range(line, k + 1);
    }
}

/// The byte length of the key of field `k`.
pub open spec fn key_len(k: int) -> nat {
    if k == 0 {
        8
    } else if k == 1 {
        12
    } else if k == 2 || k == 3 {
        15
    } else if k == 4 || k == 5 {
        19
    } else if k == 6 {
        17
    } else if k == 7 {
        18
    } else if k == 8 {
        26
    } else if k == 9 {
        16
    } else {
        21
    }
}

/// The bytes of an ASCII string literal are its characters.
proof fn lemma_ascii_literal(s: &str)
    requires
        vstd::utf8::is_ascii_chars(s@),
    ensures
        s.spec_bytes() == Seq::new(s@.len(), |i: int| s@[i] as u8),
{
    vstd::utf8::is_ascii_chars_encode_utf8(s@);
    assert(s.spec_bytes() =~= Seq::new(s@.len(), |i: int| s@[i] as u8));
}

/// What the keys look like: `=` ends each key and occurs nowhere else in it, no
/// key holds a newline, and keys of equal length differ in their first byte.
proof fn lemma_key_shape(k: int)
    requires
        0 <= k < 11,
    ensures
        key_bytes(k).len() == key_len(k),
        key_bytes(k)[key_len(k) - 1] == 0x3d,
        forall|i: int| 0 <= i < key_len(k) - 1 ==> #[trigger] key_bytes(k)[i] != 0x3d,
        forall|i: int| 0 <= i < key_len(k) ==> #[trigger] key_bytes(k)[i] != 0x0a,
        key_bytes(k)[0] == (if k == 0 { 0x76u8 } else if k == 1 { 0x73u8 } else if k == 2 { 0x63u8 } else if k == 3 {
            0x62u8
        } else if k == 4 { 0x6eu8 } else { 0x6cu8 }),
{
    if k == 0 {
        reveal_strlit("version=");
        lemma_ascii_literal("version=");
    } else if k == 1 {
        reveal_strlit("source_size=");
        lemma_ascii_literal("source_size=");
    } else if k == 2 {
        reveal_strlit("content_length=");
        lemma_ascii_literal("content_length=");
    } else if k == 3 {
        reveal_strlit("build_complete=");
        lemma_ascii_literal("build_complete=");
    } else if k == 4 {
        reveal_strlit("next_chapter_index=");
        lemma_ascii_literal("next_chapter_index=");
    } else if k == 5 {
        reveal_strlit("layout_sig_version=");
        lemma_ascii_literal("layout_sig_version=");
    } else if k == 6 {
        reveal_strlit("layout_sig_width=");
        lemma_ascii_literal("layout_sig_width=");
    } else if k == 7 {
        reveal_strlit("layout_sig_height=");
        lemma_ascii_literal("layout_sig_height=");
    } else if k == 8 {
        reveal_strlit("layout_sig_content_height=");
        lemma_ascii_literal("layout_sig_content_height=");
    } else if k == 9 {
        reveal_strlit("layout_sig_font=");
        lemma_ascii_literal("layout_sig_font=");
    } else {
        reveal_strlit("layout_sig_paginator=");
        lemma_ascii_literal("layout_sig_paginator=");
    }
}

/// A line that begins with the key of field `k` is read as field `k`.
proof fn lemma_first_key_of_line(k: int, rest: Seq<u8>)
    requires
        0 <= k < 11,
    ensures
        first_key(key_bytes(k) + rest, 0) == k,
{
    let line = key_bytes(k) + rest;
    lemma_key_shape(k);
    assert(line.subrange(0, key_bytes(k).len() as int) =~= key_bytes(k));
    assert forall|j: int| 0 <= j < k implies !has_prefix(line, #[trigger] key_bytes(j)) by {
        lemma_key_shape(j);
        let lj = key_len(j) as int;
        let lk = key_len(k) as int;
        if has_prefix(line, key_bytes(j)) {
            if lj <= lk {
                assert(line[lj - 1] == key_bytes(j)[lj - 1]);
                assert(key_bytes(k)[lj - 1] == 0x3d);
                assert(lj == lk);
                assert(key_bytes(j)[0] == line[0]);
            } else {
                assert(line[lk - 1] == key_bytes(j)[lk - 1]);
            }
        }
    }
    lemma_first_key_walk(line, 0, k);
}

proof fn lemma_first_key_walk(line: Seq<u8>, j: int, k: int)
    requires
        0 <= j <= k < 11,
        has_prefix(line, key_bytes(k)),
        forall|t: int| 0 <= t < k ==> !has_prefix(line, #[trigger] key_bytes(t)),
    ensures
        first_key(line, j) == k,
    decreases k - j,
{
    if j < k {
        lemma_first_key_walk(line, j + 1, k);
    }
}

/// Bytes before a newline do not end a line.
proof fn lemma_scan_skip(b: Seq<u8>, ls: int, i: int, e: int, d: Seq<Option<u64>>)
    requires
        0 <= ls <= i <= e < b.len(),
        forall|t: int| i <= t < e ==> #[trigger] b[t] != 0x0a,
    ensures
        meta_scan(b, ls, i, d) == meta_scan(b, ls, e, d),
    decreases e - i,
{
    if i < e {
        lemma_scan_skip(b, ls, i + 1, e, d);
    }
}

/// The draft with fields `k` and later set to `vals`.
pub open spec fn set_from(d: Seq<Option<u64>>, vals: Seq<nat>, k: int) -> Seq<Option<u64>> {
    Seq::new(11, |j: int| if j >= k { Some(vals[j] as u64) } else { d[j] })
}

/// Values a record can hold: each within its field's range, the flag 0 or 1.
pub open spec fn values_fit(vals: Seq<nat>) -> bool {
    vals.len() == 11 && (forall|j: int| 0 <= j < 11 ==> #[trigger] vals[j] <= field_max(j))
}

proof fn lemma_parse_field_of_digits(k: int, v: nat)
    requires
        0 <= k < 11,
        v <= field_max(k),
    ensures
        parse_field(k, dec_digits(v)) == Some(v),
{
    lemma_dec_digits(v);
    let d = dec_digits(v);
    if k == 3 {
        if v == 0 {
            assert(d =~= seq![0x30u8]);
        } else {
            assert(d =~= seq![0x31u8]);
        }
    } else {
        assert(is_digit(d[0]));
        assert(unsigned_body(d) == d);
        assert(all_digits(d));
    }
}

/// Reading the lines of fields `k` and on sets exactly those fields.
proof fn lemma_scan_lines(b: Seq<u8>, ls: int, vals: Seq<nat>, k: int, d: Seq<Option<u64>>)
    requires
        0 <= k <= 11,
        0 <= ls <= b.len(),
        b.subrange(ls, b.len() as int) == meta_text_from(vals, k),
        values_fit(vals),
        d.len() == 11,
    ensures
        meta_scan(b, ls, ls, d) == Some(set_from(d, vals, k)),
    decreases 11 - k,
{
    if k == 11 {
        assert(b.subrange(ls, b.len() as int).len() == 0);
        assert(ls == b.len());
        let empty = b.subrange(ls, ls);
        assert forall|j: int| 0 <= j < 11 implies !has_prefix(empty, #[trigger] key_bytes(j)) by {
            lemma_key_shape(j);
        }
        lemma_first_key_none(empty, 0);
        assert(set_from(d, vals, 11) =~= d);
    } else {
        let v = vals[k];
        let key = key_bytes(k);
        let digits = dec_digits(v);
        let line = key + digits;
        let e = ls + line.len();
        lemma_key_shape(k);
        lemma_dec_digits(v);
        let text = meta_text_from(vals, k);
        assert(text == meta_line(k, v) + meta_text_from(vals, k + 1));
        assert(meta_line(k, v) =~= line.push(0x0au8));
        assert(b.subrange(ls, e) =~= line) by {
            assert forall|t: int| 0 <= t < line.len() implies b[ls + t] == line[t] by {
                assert(b.subrange(ls, b.len() as int)[t] == text[t]);
            }
        }
        assert(b[e] == 0x0a) by {
            assert(b.subrange(ls, b.len() as int)[line.len() as int] == text[line.len() as int]);
        }
        assert(b.subrange(e + 1, b.len() as int) =~= meta_text_from(vals, k + 1)) by {
            assert forall|t: int| 0 <= t < b.len() - (e + 1) implies #[trigger] b.subrange(e + 1, b.len() as int)[t]
                == meta_text_from(vals, k + 1)[t] by {
                assert(b.subrange(ls, b.len() as int)[line.len() + 1 + t] == text[line.len() + 1 + t]);
            }
        }
        assert forall|t: int| ls <= t < e implies #[trigger] b[t] != 0x0a by {
            assert(b[t] == line[t - ls]);
            if t - ls < key.len() {
                assert(line[t - ls] == key[t - ls]);
            } else {
                assert(line[t - ls] == digits[t - ls - key.len()]);
                assert(is_digit(digits[t - ls - key.len()]));
            }
        }
        lemma_scan_skip(b, ls, ls, e, d);
        lemma_first_key_of_line(k, digits);
        assert(line.subrange(key.len() as int, line.len() as int) =~= digits);
        lemma_parse_field_of_digits(k, v);
        let d2 = d.update(k, Some(v as u64));
        assert(apply_line(d, line) == Some(d2));
        lemma_scan_lines(b, e + 1, vals, k + 1, d2);
        assert(set_from(d2, vals, k + 1) =~= set_from(d, vals, k));
    }
}

proof fn lemma_first_key_none(line: Seq<u8>, j: int)
    requires
        0 <= j <= 11,
        forall|t: int| 0 <= t < 11 ==> !has_prefix(line, #[trigger] key_bytes(t)),
    ensures
        first_key(line, j) == 11,
    decreases 11 - j,
{
    if j < 11 {
        lemma_first_key_none(line, j + 1);
    }
}

/// The metadata record of a cache of the current version reads back as the
/// same metadata.
pub proof fn law_meta_roundtrip(meta: CacheMeta)
    requires
        meta.version == CACHE_VERSION,
    ensures
        parse_meta_spec(meta_text(meta)) == Some(meta),
{
    let vals = meta_values(meta);
    let t = meta_text(meta);
    assert(values_fit(vals));
    assert(t.subrange(0, t.len() as int) =~= t);
    lemma_scan_lines(t, 0, vals, 0, empty_draft());
    let d = set_from(empty_draft(), vals, 0);
    assert(d[0] == Some(CACHE_VERSION as u64));
    assert(forall|k: int| 0 <= k < 11 ==> #[trigger] d[k] is Some);
}

// ---------------------------------------------------------------------------
// Cache names and paths
// ---------------------------------------------------------------------------

/// A string holding exactly the characters that `bytes` encode.
pub fn utf8_string(bytes: Vec<u8>) -> (r: String)
    requires
        valid_utf8(bytes@),
    ensures
        r@ == decode_utf8(bytes@),
        encode_utf8(r@) == bytes@,
{
    let ghost b = bytes@;
    proof {
        vstd::utf8::decode_utf8_encode_utf8(b);
    }
    match string_from_utf8(bytes) {
        Some(text) => text,
        None => {
            proof {
                assert(false);
            }
            String::new()
        },
    }
}

/// Bytes below 0x80 are valid UTF-8 on their own.
pub proof fn lemma_ascii_bytes_valid(b: Seq<u8>)
    requires
        forall|i: int| 0 <= i < b.len() ==> #[trigger] b[i] < 0x80,
    ensures
        valid_utf8(b),
{
    lemma_ascii_valid_utf8(b);
}

/// ASCII upper case of `c`.
pub open spec fn upper(c: u8) -> u8 {
    if 0x61 <= c <= 0x7a {
        (c - 0x20) as u8
    } else {
        c
    }
}

/// Whether `c` is an ASCII letter or digit.
pub open spec fn is_alnum(c: u8) -> bool {
    is_digit(c) || (0x41 <= c <= 0x5a) || (0x61 <= c <= 0x7a)
}

/// A byte of a cache name: an upper-case letter, a digit or `_`.
pub open spec fn is_name_byte(c: u8) -> bool {
    is_digit(c) || (0x41 <= c <= 0x5a) || c == 0x5f
}

/// The cache-name byte for the input byte `c`: upper-cased, and `_` unless alphanumeric.
pub open spec fn name_byte(c: u8) -> u8 {
    if is_alnum(upper(c)) {
        upper(c)
    } else {
        0x5f
    }
}

/// One step of the 32-bit FNV-1 hash.
pub open spec fn fnv_step(h: u32, c: u8) -> u32 {
    (((h as nat * 0x0100_0193) % 0x1_0000_0000) as u32) ^ (c as u32)
}

/// The 32-bit FNV-1 hash of `s`.
pub open spec fn fnv(s: Seq<u8>) -> u32
    decreases s.len(),
{
    if s.len() == 0 {
        0x811C_9DC5
    } else {
        fnv_step(fnv(s.drop_last()), s.last())
    }
}

/// `s` without its trailing underscores.
pub open spec fn trim_underscores(s: Seq<u8>) -> Seq<u8>
    decreases s.len(),
{
    if s.len() > 0 && s.last() == 0x5f {
        trim_underscores(s.drop_last())
    } else {
        s
    }
}

/// The upper-case hexadecimal digit of `v`.
pub open spec fn hex_digit(v: u32) -> u8 {
    if v < 10 {
        (0x30 + v) as u8
    } else {
        (0x41 + v - 10) as u8
    }
}

/// `B` and the low 28 bits of `hash` as seven upper-case hexadecimal digits.
pub open spec fn short_name_bytes(hash: u32) -> Seq<u8> {
    let v = hash & 0x0FFF_FFFF;
    seq![0x42u8, hex_digit((v >> 24) & 0xf), hex_digit((v >> 20) & 0xf), hex_digit((v >> 16) & 0xf),
        hex_digit((v >> 12) & 0xf), hex_digit((v >> 8) & 0xf), hex_digit((v >> 4) & 0xf), hex_digit(v & 0xf)]
}

/// The bytes of the fallback name `COOL`.
pub open spec fn cool_bytes() -> Seq<u8> {
    seq![0x43u8, 0x4fu8, 0x4fu8, 0x4cu8]
}

/// The cache directory name for the path bytes `b`: the first 64 bytes, upper-cased,
/// non-alphanumerics as `_`, trailing `_` dropped; `COOL` when nothing is left; the
/// short hashed name when longer than one 8.3 component.
pub open spec fn sanitized_name(b: Seq<u8>) -> Seq<u8> {
    let n = if b.len() < 64 { b.len() } else { 64 };
    let taken = b.subrange(0, n as int);
    let body = trim_underscores(taken.map_values(|c: u8| name_byte(c)));
    if body.len() == 0 {
        cool_bytes()
    } else if body.len() > 8 {
        short_name_bytes(fnv(taken.map_values(|c: u8| upper(c))))
    } else {
        body
    }
}

fn upper_exec(c: u8) -> (r: u8)
    ensures
        r == upper(c),
{
    if c >= 0x61 && c <= 0x7a {
        c - 0x20
    } else {
        c
    }
}

pub fn hex_digit_exec(v: u32) -> (r: u8)
    requires
        v < 16,
    ensures
        r == hex_digit(v),
{
    if v < 10 {
        (0x30 + v) as u8
    } else {
        (0x41 + v - 10) as u8
    }
}

/// The short cache name of `hash`: `B` and seven upper-case hexadecimal digits.
pub fn short_cache_name(hash: u32) -> (r: String)
    ensures
        encode_utf8(r@) == short_name_bytes(hash),
{
    let out = short_name_vec(hash);
    proof {
        lemma_short_name_shape(hash);
        lemma_ascii_bytes_valid(out@);
    }
    utf8_string(out)
}

fn short_name_vec(hash: u32) -> (r: Vec<u8>)
    ensures
        r@ == short_name_bytes(hash),
{
    let v = hash & 0x0FFF_FFFF;
    assert(((v >> 24) & 0xf) < 16 && ((v >> 20) & 0xf) < 16 && ((v >> 16) & 0xf) < 16 && ((v >> 12) & 0xf) < 16
        && ((v >> 8) & 0xf) < 16 && ((v >> 4) & 0xf) < 16 && (v & 0xf) < 16) by (bit_vector);
    let mut out: Vec<u8> = Vec::new();
    out.push(0x42u8);
    out.push(hex_digit_exec((v >> 24) & 0xf));
    out.push(hex_digit_exec((v >> 20) & 0xf));
    out.push(hex_digit_exec((v >> 16) & 0xf));
    out.push(hex_digit_exec((v >> 12) & 0xf));
    out.push(hex_digit_exec((v >> 8) & 0xf));
    out.push(hex_digit_exec((v >> 4) & 0xf));
    out.push(hex_digit_exec(v & 0xf));
    assert(out@ =~= short_name_bytes(hash));
    out
}

/// Every byte of a short name is a name byte.
proof fn lemma_short_name_shape(hash: u32)
    ensures
        short_name_bytes(hash).len() == 8,
        forall|i: int| 0 <= i < 8 ==> is_name_byte(#[trigger] short_name_bytes(hash)[i]),
        forall|i: int| 0 <= i < 8 ==> #[trigger] short_name_bytes(hash)[i] < 0x80,
{
    let v = hash & 0x0FFF_FFFF;
    assert(((v >> 24) & 0xf) < 16 && ((v >> 20) & 0xf) < 16 && ((v >> 16) & 0xf) < 16 && ((v >> 12) & 0xf) < 16
        && ((v >> 8) & 0xf) < 16 && ((v >> 4) & 0xf) < 16 && (v & 0xf) < 16) by (bit_vector);
}

proof fn lemma_trim_shape(s: Seq<u8>)
    ensures
        trim_underscores(s).len() <= s.len(),
        trim_underscores(s) == s.subrange(0, trim_underscores(s).len() as int),
        trim_underscores(s).len() > 0 ==> trim_underscores(s).last() != 0x5f,
    decreases s.len(),
{
    if s.len() > 0 && s.last() == 0x5f {
        lemma_trim_shape(s.drop_last());
        let t = trim_underscores(s.drop_last());
        assert(s.drop_last().subrange(0, t.len() as int) =~= s.subrange(0, t.len() as int));
    } else {
        assert(s.subrange(0, s.len() as int) =~= s);
    }
}

/// The cache directory name for the path `input`: at most eight name bytes.
pub fn sanitize_cache_name(input: &str) -> (r: String)
    ensures
        encode_utf8(r@) == sanitized_name(input.spec_bytes()),
{
    let name = sanitized_bytes(input.as_bytes());
    proof {
        law_sanitized_name_is_short_component(input.spec_bytes());
        assert forall|k: int| 0 <= k < name@.len() implies #[trigger] name@[k] < 0x80 by {
            assert(is_name_byte(name@[k]));
        }
        lemma_ascii_bytes_valid(name@);
    }
    utf8_string(name)
}

fn sanitized_bytes(b: &[u8]) -> (r: Vec<u8>)
    ensures
        r@ == sanitized_name(b@),
{
    let ghost bs = b@;
    let n: usize = if b.len() < NAME_CAPACITY { b.len() } else { NAME_CAPACITY };
    let ghost taken = bs.subrange(0, n as int);
    let mut out: Vec<u8> = Vec::new();
    let mut hash: u32 = 0x811C_9DC5;
    let mut i: usize = 0;
    while i < n
        invariant
            n <= b@.len(),
            bs == b@,
            taken == bs.subrange(0, n as int),
            i <= n,
            out@ == taken.subrange(0, i as int).map_values(|c: u8| name_byte(c)),
            hash == fnv(taken.subrange(0, i as int).map_values(|c: u8| upper(c))),
        decreases n - i,
    {
        let c = upper_exec(b[i]);
        let mixed = hash.wrapping_mul(0x0100_0193) ^ (c as u32);
        let ghost prev = taken.subrange(0, i as int).map_values(|c: u8| upper(c));
        let ghost next = taken.subrange(0, i + 1).map_values(|c: u8| upper(c));
        assert(next.drop_last() =~= prev);
        assert(next.last() == c);
        hash = mixed;
        let is_alnum = (c >= 0x30 && c <= 0x39) || (c >= 0x41 && c <= 0x5a) || (c >= 0x61 && c <= 0x7a);
        out.push(if is_alnum { c } else { 0x5fu8 });
        i += 1;
        assert(out@ =~= taken.subrange(0, i as int).map_values(|c: u8| name_byte(c)));
    }
    assert(taken.subrange(0, n as int) =~= taken);
    let ghost mapped = out@;
    while out.len() > 0 && out[out.len() - 1] == 0x5fu8
        invariant
            trim_underscores(out@) == trim_underscores(mapped),
        decreases out@.len(),
    {
        let ghost before = out@;
        out.pop();
        assert(out@ =~= before.drop_last());
    }
    assert(trim_underscores(out@) == out@);
    proof {
        assert forall|k: int| 0 <= k < mapped.len() implies is_name_byte(#[trigger] mapped[k]) && mapped[k] < 0x80 by {
            let c = taken[k];
            assert(mapped[k] == name_byte(c));
        }
        lemma_trim_shape(mapped);
    }
    if out.len() == 0 {
        let mut cool: Vec<u8> = Vec::new();
        cool.push(0x43u8);
        cool.push(0x4fu8);
        cool.push(0x4fu8);
        cool.push(0x4cu8);
        assert(cool@ =~= cool_bytes());
        return cool;
    }
    if out.len() > MAX_COMPONENT_LEN {
        return short_name_vec(hash);
    }
    out
}

/// A sanitized cache name is one to eight upper-case letters, digits or underscores.
pub proof fn law_sanitized_name_is_short_component(b: Seq<u8>)
    ensures
        1 <= sanitized_name(b).len() <= MAX_COMPONENT_LEN,
        forall|i: int| 0 <= i < sanitized_name(b).len() ==> is_name_byte(#[trigger] sanitized_name(b)[i]),
{
    let n = if b.len() < 64 { b.len() } else { 64 };
    let taken = b.subrange(0, n as int);
    let mapped = taken.map_values(|c: u8| name_byte(c));
    let body = trim_underscores(mapped);
    lemma_trim_shape(mapped);
    lemma_short_name_shape(fnv(taken.map_values(|c: u8| upper(c))));
    assert forall|k: int| 0 <= k < body.len() implies is_name_byte(#[trigger] body[k]) by {
        assert(body[k] == mapped[k]);
        assert(mapped[k] == name_byte(taken[k]));
    }
}

/// The path whose name the cache directory is made from: `source` and `entry`
/// joined by `/` unless one of them already supplies it, each piece kept only
/// while the whole fits in 64 bytes.
pub open spec fn merged_name(source: Seq<u8>, entry: Seq<u8>) -> Seq<u8> {
    let a = if source.len() <= 64 { source } else { Seq::empty() };
    let slash = !(source.len() > 0 && source.last() == 0x2f) && !(entry.len() > 0 && entry[0] == 0x2f);
    let b = if slash && a.len() + 1 <= 64 { a.push(0x2fu8) } else { a };
    if b.len() + entry.len() <= 64 {
        b + entry
    } else {
        b
    }
}

/// The bytes of the cache directory of the book `entry` in the directory `source`.
pub open spec fn cache_dir_bytes(root: Seq<u8>, source: Seq<u8>, entry: Seq<u8>) -> Seq<u8> {
    root + seq![0x2fu8] + sanitized_name(merged_name(source, entry))
}

/// The bytes of the file `file` inside the directory `dir`.
pub open spec fn cache_file_bytes(dir: Seq<u8>, file: Seq<u8>) -> Seq<u8> {
    dir + seq![0x2fu8] + file
}

/// Where the cache of one book lives: its directory and the files in it.
#[derive(Debug, Clone)]
pub struct CachePaths {
    pub directory: String,
    pub meta: String,
    pub content: String,
    pub chapters: String,
    pub pages: String,
    pub progress: String,
}

fn push_bytes(out: &mut Vec<u8>, s: &[u8])
    ensures
        final(out)@ == old(out)@ + s@,
{
    let mut j: usize = 0;
    while j < s.len()
        invariant
            j <= s@.len(),
            out@ == old(out)@ + s@.subrange(0, j as int),
        decreases s@.len() - j,
    {
        out.push(s[j]);
        j += 1;
        assert(out@ =~= old(out)@ + s@.subrange(0, j as int));
    }
    assert(s@.subrange(0, s@.len() as int) =~= s@);
}

fn merged_name_exec(source: &[u8], entry: &[u8]) -> (r: Vec<u8>)
    ensures
        r@ == merged_name(source@, entry@),
{
    let mut out: Vec<u8> = Vec::new();
    if source.len() <= NAME_CAPACITY {
        push_bytes(&mut out, source);
    }
    let slash = !(source.len() > 0 && source[source.len() - 1] == 0x2fu8) && !(entry.len() > 0 && entry[0] == 0x2fu8);
    if slash && out.len() < NAME_CAPACITY {
        out.push(0x2fu8);
    }
    if entry.len() <= NAME_CAPACITY - out.len() {
        push_bytes(&mut out, entry);
    }
    proof {
        let a = if source@.len() <= 64 { source@ } else { Seq::empty() };
        assert(out@.len() <= 64);
        assert(a =~= (if source@.len() <= 64 { Seq::<u8>::empty() + source@ } else { Seq::<u8>::empty() }));
    }
    out
}

/// A string of the bytes of `dir`, `/` and `file`.
fn join_cache_file(dir: &[u8], file_name: &str) -> (r: String)
    requires
        valid_utf8(dir@),
    ensures
        encode_utf8(r@) == cache_file_bytes(dir@, file_name.spec_bytes()),
{
    let mut out: Vec<u8> = Vec::new();
    push_bytes(&mut out, dir);
    out.push(0x2fu8);
    push_bytes(&mut out, file_name.as_bytes());
    proof {
        let slash = seq![0x2fu8];
        assert forall|k: int| 0 <= k < slash.len() implies #[trigger] slash[k] < 0x80 by {}
        lemma_ascii_bytes_valid(slash);
        vstd::utf8::encode_utf8_valid_utf8(file_name@);
        vstd::utf8::valid_utf8_concat(Seq::<u8>::empty() + dir@, slash);
        vstd::utf8::valid_utf8_concat(Seq::<u8>::empty() + dir@ + slash, file_name.spec_bytes());
        assert(Seq::<u8>::empty() + dir@ =~= dir@);
        assert(out@ =~= cache_file_bytes(dir@, file_name.spec_bytes()));
    }
    utf8_string(out)
}

/// The cache paths of the book `entry_name` in the directory `source_path`, under `/.cool`.
pub fn cache_paths_for_epub(source_path: &str, entry_name: &str) -> (r: CachePaths)
    ensures
        ({
            let dir = cache_dir_bytes(CACHE_ROOT_DIR.spec_bytes(), source_path.spec_bytes(), entry_name.spec_bytes());
            &&& encode_utf8(r.directory@) == dir
            &&& encode_utf8(r.meta@) == cache_file_bytes(dir, META_FILE_NAME.spec_bytes())
            &&& encode_utf8(r.content@) == cache_file_bytes(dir, CONTENT_FILE_NAME.spec_bytes())
            &&& encode_utf8(r.chapters@) == cache_file_bytes(dir, CHAPTERS_FILE_NAME.spec_bytes())
            &&& encode_utf8(r.pages@) == cache_file_bytes(dir, PAGES_FILE_NAME.spec_bytes())
            &&& encode_utf8(r.progress@) == cache_file_bytes(dir, PROGRESS_FILE_NAME.spec_bytes())
        }),
{
    cache_paths_for_epub_with_root(source_path, entry_name, CACHE_ROOT_DIR)
}

fn cache_paths_for_epub_with_root(source_path: &str, entry_name: &str, root_dir: &str) -> (r: CachePaths)
    ensures
        ({
            let dir = cache_dir_bytes(root_dir.spec_bytes(), source_path.spec_bytes(), entry_name.spec_bytes());
            &&& encode_utf8(r.directory@) == dir
            &&& encode_utf8(r.meta@) == cache_file_bytes(dir, META_FILE_NAME.spec_bytes())
            &&& encode_utf8(r.content@) == cache_file_bytes(dir, CONTENT_FILE_NAME.spec_bytes())
            &&& encode_utf8(r.chapters@) == cache_file_bytes(dir, CHAPTERS_FILE_NAME.spec_bytes())
            &&& encode_utf8(r.pages@) == cache_file_bytes(dir, PAGES_FILE_NAME.spec_bytes())
            &&& encode_utf8(r.progress@) == cache_file_bytes(dir, PROGRESS_FILE_NAME.spec_bytes())
        }),
{
    let merged = merged_name_exec(source_path.as_bytes(), entry_name.as_bytes());
    let name = sanitized_bytes(merged.as_slice());
    let mut dir: Vec<u8> = Vec::new();
    push_bytes(&mut dir, root_dir.as_bytes());
    dir.push(0x2fu8);
    push_bytes(&mut dir, name.as_slice());
    proof {
        law_sanitized_name_is_short_component(merged@);
        assert forall|k: int| 0 <= k < name@.len() implies #[trigger] name@[k] < 0x80 by {
            assert(is_name_byte(name@[k]));
        }
        lemma_ascii_bytes_valid(name@);
        let slash = seq![0x2fu8];
        assert forall|k: int| 0 <= k < slash.len() implies #[trigger] slash[k] < 0x80 by {}
        lemma_ascii_bytes_valid(slash);
        vstd::utf8::encode_utf8_valid_utf8(root_dir@);
        vstd::utf8::valid_utf8_concat(Seq::<u8>::empty() + root_dir.spec_bytes(), slash);
        vstd::utf8::valid_utf8_concat(Seq::<u8>::empty() + root_dir.spec_bytes() + slash, name@);
        assert(Seq::<u8>::empty() + root_dir.spec_bytes() =~= root_dir.spec_bytes());
        assert(dir@ =~= cache_dir_bytes(root_dir.spec_bytes(), source_path.spec_bytes(), entry_name.spec_bytes()));
    }
    let meta = join_cache_file(dir.as_slice(), META_FILE_NAME);
    let content = join_cache_file(dir.as_slice(), CONTENT_FILE_NAME);
    let chapters = join_cache_file(dir.as_slice(), CHAPTERS_FILE_NAME);
    let pages = join_cache_file(dir.as_slice(), PAGES_FILE_NAME);
    let progress = join_cache_file(dir.as_slice(), PROGRESS_FILE_NAME);
    let directory = utf8_string(dir);
    CachePaths { directory, meta, content, chapters, pages, progress }
}

/// Every cache path lies in a directory directly under the root whose name is
/// one to eight upper-case letters, digits or underscores.
pub proof fn law_cache_dir_under_root(root: Seq<u8>, source: Seq<u8>, entry: Seq<u8>)
    ensures
        ({
            let dir = cache_dir_bytes(root, source, entry);
            let name = dir.subrange(root.len() + 1int, dir.len() as int);
            &&& dir.subrange(0, root.len() as int) == root
            &&& dir[root.len() as int] == 0x2f
            &&& 1 <= name.len() <= MAX_COMPONENT_LEN
            &&& forall|i: int| 0 <= i < name.len() ==> is_name_byte(#[trigger] name[i])
        }),
{
    let dir = cache_dir_bytes(root, source, entry);
    let n = sanitized_name(merged_name(source, entry));
    law_sanitized_name_is_short_component(merged_name(source, entry));
    assert(dir.subrange(0, root.len() as int) =~= root);
    assert(dir.subrange(root.len() + 1int, dir.len() as int) =~= n);
}

} // verus!
