//! A streaming EPUB reader: it finds the package document through
//! `META-INF/container.xml`, lists the XHTML chapters of the spine, inflates one
//! chapter at a time into a window and turns its markup into reading events.
use vstd::prelude::*;
use vstd::utf8::valid_utf8;
use vstd::utf8::decode_utf8;
use crate::zip::Error as ZipError;
use crate::zip::ZipSource;
use crate::zip::slice_range;
use crate::zip::le16;
use crate::zip::u16_at;
use crate::zip::EpubEntryMetadata;
use crate::zip::CompressionMethod;
use crate::zip::EpubArchive;
use vstd::string::StringSliceAdditionalSpecFns;
use miniz_oxide::inflate::TINFLStatus;
use miniz_oxide::MZError;
use miniz_oxide::MZFlush;
use miniz_oxide::MZStatus;

verus! {

pub const MAX_CHAPTER_DIR_BYTES: usize = 1024;
pub const MAX_ARCHIVE_ENTRIES: usize = 512;
pub const MAX_ARCHIVE_NAME_CAPACITY: usize = 16384;
pub const CHAPTER_TAIL_RESERVE: usize = 1024;

/// Errors of the EPUB reader.
#[derive(Debug, Clone, Copy, PartialEq, Eq, Structural)]
pub enum EpubError {
    Io,
    Zip,
    Utf8,
    InvalidFormat,
    Compression,
    OutOfSpace,
    Unsupported,
    Cancelled,
}

/// How a ZIP error is reported by the EPUB reader.
pub open spec fn epub_error_of_zip(error: ZipError) -> EpubError {
    match error {
        ZipError::Source => EpubError::Zip,
        ZipError::EocdNotFound => EpubError::InvalidFormat,
        ZipError::ShortRead => EpubError::Io,
        ZipError::InvalidArchive(_) => EpubError::InvalidFormat,
        ZipError::TooManyEntries => EpubError::InvalidFormat,
        ZipError::NameBufferTooSmall => EpubError::OutOfSpace,
        ZipError::ArithmeticOverflow => EpubError::InvalidFormat,
    }
}

impl From<ZipError> for EpubError {
    fn from(error: ZipError) -> (r: Self) {
        match error {
            ZipError::Source => EpubError::Zip,
            ZipError::EocdNotFound => EpubError::InvalidFormat,
            ZipError::ShortRead => EpubError::Io,
            ZipError::InvalidArchive(_) => EpubError::InvalidFormat,
            ZipError::TooManyEntries => EpubError::InvalidFormat,
            ZipError::NameBufferTooSmall => EpubError::OutOfSpace,
            ZipError::ArithmeticOverflow => EpubError::InvalidFormat,
        }
    }
}

impl vstd::std_specs::convert::FromSpecImpl<ZipError> for EpubError {
    open spec fn obeys_from_spec() -> bool {
        true
    }

    open spec fn from_spec(error: ZipError) -> EpubError {
        epub_error_of_zip(error)
    }
}

/// Maps a ZIP error to the EPUB reader's error.
pub fn zip_error(error: ZipError) -> (r: EpubError)
    ensures
        r == epub_error_of_zip(error),
{
    EpubError::from(error)
}

/// A random-access source of EPUB bytes.
pub trait EpubSource {
    /// The bytes of the source.
    spec fn bytes(&self) -> Seq<u8>;

    fn len(&self) -> (r: usize)
        ensures
            r == self.bytes().len(),
    ;

    /// The source never fails a read and copies at least one byte of a read
    /// that starts inside it.
    spec fn reads_fully(&self) -> bool;

    /// Reads bytes at an absolute offset into `buffer` and returns how many were
    /// copied, each equal to the source byte at its offset.
    fn read_at(&self, offset: u64, buffer: &mut [u8]) -> (r: Result<usize, EpubError>)
        ensures
            final(buffer)@.len() == old(buffer)@.len(),
            r matches Ok(n) ==> n <= old(buffer)@.len() && (n > 0 ==> {
                &&& offset + n <= self.bytes().len()
                &&& final(buffer)@.subrange(0, n as int) == self.bytes().subrange(offset as int, offset + n)
            }),
            self.reads_fully() && offset < self.bytes().len() && old(buffer)@.len() > 0 ==> (r matches Ok(n) && n > 0),
    ;
}

/// A book held in memory.
pub struct MemorySource {
    pub bytes: Vec<u8>,
}

impl EpubSource for MemorySource {
    open spec fn bytes(&self) -> Seq<u8> {
        self.bytes@
    }

    /// Memory is always there to read.
    open spec fn reads_fully(&self) -> bool {
        true
    }

    fn len(&self) -> (r: usize) {
        self.bytes.len()
    }

    fn read_at(&self, offset: u64, buffer: &mut [u8]) -> (r: Result<usize, EpubError>)
        ensures
            r == Ok::<usize, EpubError>(if offset >= self.bytes@.len() { 0 } else if self.bytes@.len() - offset < old(buffer)@.len() {
                (self.bytes@.len() - offset) as usize
            } else {
                old(buffer)@.len() as usize
            }),
            forall|j: int| r.unwrap() <= j < old(buffer)@.len() ==> #[trigger] final(buffer)@[j] == old(buffer)@[j],
    {
        if offset >= self.bytes.len() as u64 {
            return Ok(0);
        }
        let start = offset as usize;
        let left = self.bytes.len() - start;
        let n = if left < buffer.len() { left } else { buffer.len() };
        let mut i: usize = 0;
        while i < n
            invariant
                i <= n,
                n <= buffer@.len(),
                start + n <= self.bytes@.len(),
                start + n <= self.bytes.len(),
                start == offset,
                buffer@.len() == old(buffer)@.len(),
                forall|k: int| 0 <= k < i ==> buffer@[k] == self.bytes@[start + k],
                forall|k: int| i <= k < buffer@.len() ==> buffer@[k] == old(buffer)@[k],
            decreases n - i,
        {
            buffer[i] = self.bytes[start + i];
            i += 1;
        }
        assert(buffer@.subrange(0, n as int) =~= self.bytes@.subrange(offset as int, offset + n));
        Ok(n)
    }
}

/// An EPUB source seen by the ZIP reader; a failed read loses its cause.
pub struct ArchiveReader<'s, S: EpubSource> {
    pub source: &'s S,
}

impl<'s, S: EpubSource> ZipSource for ArchiveReader<'s, S> {
    open spec fn content(&self) -> Seq<u8> {
        self.source.bytes()
    }

    open spec fn reads_fully(&self) -> bool {
        self.source.reads_fully()
    }

    fn len(&self) -> (r: usize) {
        self.source.len()
    }

    fn read_at(&self, offset: u64, buffer: &mut [u8]) -> (r: Result<usize, ()>) {
        match self.source.read_at(offset, buffer) {
            Ok(n) => Ok(n),
            Err(_) => Err(()),
        }
    }
}

/// `b` is ASCII whitespace: space, tab, line feed, form feed or carriage return.
pub open spec fn ascii_ws(b: u8) -> bool {
    b == 0x20 || b == 0x09 || b == 0x0a || b == 0x0c || b == 0x0d
}

/// Whether `b` is ASCII whitespace.
pub fn is_ascii_ws(b: u8) -> (r: bool)
    ensures
        r == ascii_ws(b),
{
    b == 0x20 || b == 0x09 || b == 0x0a || b == 0x0c || b == 0x0d
}

/// `ch` is one of the four spaces that text collapses: space, line feed, carriage return, tab.
pub open spec fn text_space(ch: u8) -> bool {
    ch == 0x20 || ch == 0x0a || ch == 0x0d || ch == 0x09
}

/// Whether `ch` is a space that text collapses.
pub fn is_space(ch: u8) -> (r: bool)
    ensures
        r == text_space(ch),
{
    ch == 0x20u8 || ch == 0x0au8 || ch == 0x0du8 || ch == 0x09u8
}

/// The ASCII lower case of `b`.
pub open spec fn ascii_lower(b: u8) -> u8 {
    if 0x41 <= b <= 0x5a {
        (b + 32) as u8
    } else {
        b
    }
}

/// Two byte strings are equal ignoring ASCII case.
pub open spec fn eq_ascii_case_spec(a: Seq<u8>, b: Seq<u8>) -> bool {
    a.len() == b.len() && forall|i: int| 0 <= i < a.len() ==> ascii_lower(#[trigger] a[i]) == ascii_lower(b[i])
}

/// Whether `lhs` and `rhs` are equal ignoring ASCII case.
pub fn eq_ascii_case(lhs: &[u8], rhs: &[u8]) -> (r: bool)
    ensures
        r == eq_ascii_case_spec(lhs@, rhs@),
{
    if lhs.len() != rhs.len() {
        return false;
    }
    let mut i: usize = 0;
    while i < lhs.len()
        invariant
            i <= lhs@.len(),
            lhs@.len() == rhs@.len(),
            forall|j: int| 0 <= j < i ==> ascii_lower(#[trigger] lhs@[j]) == ascii_lower(rhs@[j]),
        decreases lhs@.len() - i,
    {
        let a = lhs[i];
        let b = rhs[i];
        let la = if 0x41 <= a && a <= 0x5a { a + 32 } else { a };
        let lb = if 0x41 <= b && b <= 0x5a { b + 32 } else { b };
        if la != lb {
            return false;
        }
        i += 1;
    }
    true
}

/// Whether two byte strings are equal.
pub fn attr_eq(lhs: &[u8], rhs: &[u8]) -> (r: bool)
    ensures
        r == (lhs@ == rhs@),
{
    crate::zip::bytes_eq(lhs, rhs)
}

/// The position of the last `b` in `s`, or -1.
pub open spec fn last_index_of(s: Seq<u8>, b: u8) -> int
    decreases s.len(),
{
    if s.len() == 0 {
        -1
    } else if s.last() == b {
        s.len() - 1
    } else {
        last_index_of(s.drop_last(), b)
    }
}

/// `k` is the last position of `b` in `s` (or -1 when `b` does not occur).
pub proof fn lemma_last_index_of(s: Seq<u8>, b: u8, k: int)
    requires
        -1 <= k < s.len(),
        k >= 0 ==> s[k] == b,
        forall|j: int| k < j < s.len() ==> s[j] != b,
    ensures
        last_index_of(s, b) == k,
    decreases s.len(),
{
    if s.len() > 0 && k < s.len() - 1 {
        assert(s.last() != b);
        lemma_last_index_of(s.drop_last(), b, k);
    }
}

/// The position of the last `b` in `s` before `end`, or none.
fn last_position(s: &[u8], b: u8) -> (r: Option<usize>)
    ensures
        r matches Some(k) ==> k == last_index_of(s@, b) && k < s@.len(),
        r is None ==> last_index_of(s@, b) == -1,
{
    let mut idx = s.len();
    while idx > 0
        invariant
            idx <= s@.len(),
            forall|j: int| idx <= j < s@.len() ==> s@[j] != b,
        decreases idx,
    {
        if s[idx - 1] == b {
            proof {
                lemma_last_index_of(s@, b, idx - 1);
            }
            return Some(idx - 1);
        }
        idx -= 1;
    }
    proof {
        lemma_last_index_of(s@, b, -1);
    }
    None
}

/// A name without its namespace prefix: what follows its last colon.
pub open spec fn trim_namespace_spec(name: Seq<u8>) -> Seq<u8> {
    name.subrange(last_index_of(name, 0x3a) + 1, name.len() as int)
}

proof fn lemma_last_index_bounds(s: Seq<u8>, b: u8)
    ensures
        -1 <= last_index_of(s, b) < s.len(),
        last_index_of(s, b) >= 0 ==> s[last_index_of(s, b)] == b,
    decreases s.len(),
{
    if s.len() > 0 && s.last() != b {
        lemma_last_index_bounds(s.drop_last(), b);
    }
}

/// The part of `name` after its last colon.
pub fn trim_namespace(name: &[u8]) -> (r: &[u8])
    ensures
        r@ == trim_namespace_spec(name@),
{
    proof {
        lemma_last_index_bounds(name@, 0x3a);
    }
    match last_position(name, 0x3au8) {
        Some(k) => {
            let n = name.len();
            slice_range(name, k + 1, n)
        },
        None => name,
    }
}

/// The directory part of a path: what precedes its last slash, or nothing when
/// the only slash is the first byte or there is none.
pub open spec fn path_parent_spec(path: Seq<u8>) -> Seq<u8> {
    let k = last_index_of(path, 0x2f);
    if k > 0 {
        path.subrange(0, k)
    } else {
        Seq::empty()
    }
}

/// The directory part of `path`.
pub fn path_parent(path: &[u8]) -> (r: &[u8])
    ensures
        r@ == path_parent_spec(path@),
{
    proof {
        lemma_last_index_bounds(path@, 0x2f);
    }
    match last_position(path, 0x2fu8) {
        Some(k) => {
            if k > 0 {
                slice_range(path, 0, k)
            } else {
                slice_range(path, 0, 0)
            }
        },
        None => slice_range(path, 0, 0),
    }
}

/// The value of a hexadecimal digit.
pub open spec fn hex_value(ch: u8) -> Option<u8> {
    if 0x30 <= ch <= 0x39 {
        Some((ch - 0x30) as u8)
    } else if 0x61 <= ch <= 0x66 {
        Some((ch - 0x61 + 10) as u8)
    } else if 0x41 <= ch <= 0x46 {
        Some((ch - 0x41 + 10) as u8)
    } else {
        None
    }
}

/// The value of a hexadecimal digit.
pub fn from_hex(ch: u8) -> (r: Option<u8>)
    ensures
        r == hex_value(ch),
{
    if 0x30u8 <= ch && ch <= 0x39u8 {
        Some(ch - 0x30u8)
    } else if 0x61u8 <= ch && ch <= 0x66u8 {
        Some(ch - 0x61u8 + 10)
    } else if 0x41u8 <= ch && ch <= 0x46u8 {
        Some(ch - 0x41u8 + 10)
    } else {
        None
    }
}

/// The value of a digit in `radix` (hexadecimal letters only in radix 16).
pub open spec fn digit_value(ch: u8, radix: u32) -> Option<u32> {
    if 0x30 <= ch <= 0x39 {
        Some((ch - 0x30) as u32)
    } else if radix == 16 && 0x61 <= ch <= 0x66 {
        Some((ch - 0x61 + 10) as u32)
    } else if radix == 16 && 0x41 <= ch <= 0x46 {
        Some((ch - 0x41 + 10) as u32)
    } else {
        None
    }
}

/// The number written by the digits `s` in `radix`, or none when a byte is no
/// digit or a running value leaves `u32`.
pub open spec fn parse_num_spec(s: Seq<u8>, radix: u32) -> Option<u32>
    decreases s.len(),
{
    if s.len() == 0 {
        Some(0)
    } else {
        match parse_num_spec(s.drop_last(), radix) {
            None => None,
            Some(v) => match digit_value(s.last(), radix) {
                None => None,
                Some(d) => if v * radix + d <= u32::MAX {
                    Some((v * radix + d) as u32)
                } else {
                    None
                },
            },
        }
    }
}

/// Parses the digits of `input` in `radix`.
pub fn parse_num_radix(input: &[u8], radix: u32) -> (r: Option<u32>)
    ensures
        r == parse_num_spec(input@, radix),
{
    let mut value: u32 = 0;
    let mut i: usize = 0;
    while i < input.len()
        invariant
            i <= input@.len(),
            parse_num_spec(input@.subrange(0, i as int), radix) == Some(value),
        decreases input@.len() - i,
    {
        let ch = input[i];
        proof {
            assert(input@.subrange(0, i + 1).drop_last() =~= input@.subrange(0, i as int));
            assert(input@.subrange(0, i + 1).last() == ch);
        }
        let v: u32 = if 0x30u8 <= ch && ch <= 0x39u8 {
            (ch - 0x30u8) as u32
        } else if radix == 16 && 0x61u8 <= ch && ch <= 0x66u8 {
            (ch - 0x61u8 + 10) as u32
        } else if radix == 16 && 0x41u8 <= ch && ch <= 0x46u8 {
            (ch - 0x41u8 + 10) as u32
        } else {
            proof {
                lemma_parse_num_none_extends(input@, radix, i as int + 1);
            }
            return None;
        };
        let m = match value.checked_mul(radix) {
            Some(m) => m,
            None => {
                proof {
                    assert(value * radix + v > u32::MAX) by (nonlinear_arith)
                        requires value * radix > u32::MAX, v >= 0;
                    lemma_parse_num_none_extends(input@, radix, i as int + 1);
                }
                return None;
            },
        };
        value = match m.checked_add(v) {
            Some(s) => s,
            None => {
                proof {
                    lemma_parse_num_none_extends(input@, radix, i as int + 1);
                }
                return None;
            },
        };
        i += 1;
    }
    proof {
        assert(input@.subrange(0, input@.len() as int) =~= input@);
    }
    Some(value)
}

/// Once a prefix fails to parse, so does every longer prefix.
proof fn lemma_parse_num_none_extends(s: Seq<u8>, radix: u32, k: int)
    requires
        0 <= k <= s.len(),
        parse_num_spec(s.subrange(0, k), radix) is None,
    ensures
        parse_num_spec(s, radix) is None,
    decreases s.len() - k,
{
    if k < s.len() {
        assert(s.subrange(0, k + 1).drop_last() =~= s.subrange(0, k));
        lemma_parse_num_none_extends(s, radix, k + 1);
    } else {
        assert(s.subrange(0, k) =~= s);
    }
}


/// Bytes that are all ASCII form valid UTF-8.
pub proof fn lemma_ascii_valid_utf8(b: Seq<u8>)
    requires
        forall|i: int| 0 <= i < b.len() ==> #[trigger] b[i] < 0x80,
    ensures
        valid_utf8(b),
    decreases b.len(),
{
    if b.len() > 0 {
        let rest = b.subrange(1, b.len() as int);
        assert forall|i: int| 0 <= i < rest.len() implies #[trigger] rest[i] < 0x80 by {
            assert(rest[i] == b[i + 1]);
        }
        lemma_ascii_valid_utf8(rest);
        assert(vstd::utf8::pop_first_scalar(b) =~= rest);
    }
}

/// `String::from_utf8` on owned bytes: a string exactly when the bytes are valid
/// UTF-8, holding the characters they encode.
#[verifier::external_body]
pub(crate) fn string_from_utf8(bytes: Vec<u8>) -> (r: Option<String>)
    ensures
        r is Some <==> valid_utf8(bytes@),
        r matches Some(s) ==> s@ == decode_utf8(bytes@),
{
    String::from_utf8(bytes).ok()
}

/// The text of `bytes`, or `Utf8` when they are not valid UTF-8.
pub fn text_of(bytes: &[u8]) -> (r: Result<String, EpubError>)
    ensures
        r is Ok <==> valid_utf8(bytes@),
        r matches Ok(s) ==> s@ == decode_utf8(bytes@),
        r matches Err(e) ==> e == EpubError::Utf8,
{
    let mut owned: Vec<u8> = Vec::new();
    let mut i: usize = 0;
    while i < bytes.len()
        invariant
            i <= bytes@.len(),
            owned@ == bytes@.subrange(0, i as int),
        decreases bytes@.len() - i,
    {
        owned.push(bytes[i]);
        i += 1;
    }
    assert(owned@ =~= bytes@);
    match string_from_utf8(owned) {
        Some(s) => Ok(s),
        None => Err(EpubError::Utf8),
    }
}

/// Whether `value` holds `://` somewhere.
pub open spec fn absolute_uri_spec(value: Seq<u8>) -> bool {
    exists|i: int| 0 <= i && i + 2 < value.len() && #[trigger] value[i] == 0x3a && value[i + 1] == 0x2f && value[i + 2] == 0x2f
}

/// Whether `value` names a scheme, as in `http://`.
pub fn is_absolute_uri(value: &[u8]) -> (r: bool)
    ensures
        r == absolute_uri_spec(value@),
{
    let n = value.len();
    if n < 3 {
        return false;
    }
    let mut i: usize = 0;
    while i < n - 2
        invariant
            n == value@.len(),
            n >= 3,
            i <= n - 2,
            forall|j: int| 0 <= j < i ==> !(#[trigger] value@[j] == 0x3a && value@[j + 1] == 0x2f && value@[j + 2] == 0x2f),
        decreases n - 2 - i,
    {
        if value[i] == 0x3au8 && value[i + 1] == 0x2fu8 && value[i + 2] == 0x2fu8 {
            return true;
        }
        i += 1;
    }
    false
}

/// `needle` occurs in `value` at `i`.
pub open spec fn occurs_at(value: Seq<u8>, needle: Seq<u8>, i: int) -> bool {
    0 <= i && i + needle.len() <= value.len() && value.subrange(i, i + needle.len()) == needle
}

/// Whether a nonempty `needle` occurs in `value`.
pub fn attr_contains_bytes(value: &[u8], needle: &[u8]) -> (r: bool)
    ensures
        r == (needle@.len() > 0 && exists|i: int| #[trigger] occurs_at(value@, needle@, i)),
{
    if needle.len() == 0 || needle.len() > value.len() {
        proof {
            assert forall|i: int| !#[trigger] occurs_at(value@, needle@, i) || needle@.len() == 0 by {}
        }
        return false;
    }
    let last = value.len() - needle.len();
    let mut i: usize = 0;
    while i <= last
        invariant
            last == value@.len() - needle@.len(),
            last + needle.len() == value.len(),
            needle@.len() > 0,
            i <= last + 1,
            forall|j: int| 0 <= j < i ==> !#[trigger] occurs_at(value@, needle@, j),
        decreases last + 1 - i,
    {
        let window = slice_range(value, i, i + needle.len());
        if crate::zip::bytes_eq(window, needle) {
            assert(occurs_at(value@, needle@, i as int));
            return true;
        }
        i += 1;
    }
    false
}

/// `value[i..j]` is a whitespace-separated token of `value`.
pub open spec fn token_at(value: Seq<u8>, i: int, j: int) -> bool {
    &&& 0 <= i < j <= value.len()
    &&& (i == 0 || ascii_ws(value[i - 1]))
    &&& (j == value.len() || ascii_ws(value[j]))
    &&& forall|k: int| i <= k < j ==> !ascii_ws(#[trigger] value[k])
}

/// Whether `token` is one of the whitespace-separated tokens of `value`.
/// Whether `token` is one of the whitespace-separated tokens of `value`.
pub open spec fn has_token(value: Seq<u8>, token: Seq<u8>) -> bool {
    exists|i: int, j: int| #[trigger] token_at(value, i, j) && value.subrange(i, j) == token
}

pub fn attr_contains_token(value: &[u8], token: &[u8]) -> (r: bool)
    ensures
        r == exists|i: int, j: int| #[trigger] token_at(value@, i, j) && value@.subrange(i, j) == token@,
{
    let n = value.len();
    let mut cursor: usize = 0;
    while cursor < n
        invariant
            n == value@.len(),
            cursor <= n,
            cursor == 0 || cursor == n || ascii_ws(value@[cursor as int]),
            forall|i: int, j: int| #[trigger] token_at(value@, i, j) && i < cursor ==> value@.subrange(i, j) != token@,
        decreases n - cursor,
    {
        let ghost c0 = cursor;
        while cursor < n && is_ascii_ws(value[cursor])
            invariant
                n == value@.len(),
                c0 <= cursor <= n,
                forall|k: int| c0 <= k < cursor ==> ascii_ws(#[trigger] value@[k]),
            decreases n - cursor,
        {
            cursor += 1;
        }
        let start = cursor;
        while cursor < n && !is_ascii_ws(value[cursor])
            invariant
                n == value@.len(),
                start <= cursor <= n,
                forall|k: int| start <= k < cursor ==> !ascii_ws(#[trigger] value@[k]),
            decreases n - cursor,
        {
            cursor += 1;
        }
        proof {
            if start < cursor {
                assert(start == 0 || ascii_ws(value@[start - 1])) by {
                    if start > 0 && start == c0 {
                        assert(c0 == 0 || c0 == n || ascii_ws(value@[c0 as int]));
                    }
                }
                assert(token_at(value@, start as int, cursor as int));
            }
            assert forall|i: int, j: int| #[trigger] token_at(value@, i, j) && i < cursor && i >= c0 && value@.subrange(i, j) == token@
                implies i == start && j == cursor by {
                if i < start {
                    assert(ascii_ws(value@[i]));
                } else if i > start {
                    assert(!ascii_ws(value@[i - 1]));
                } else {
                    if j < cursor {
                        assert(!ascii_ws(value@[j]));
                    } else if j > cursor {
                        assert(cursor < n);
                        assert(!ascii_ws(value@[cursor as int]));
                    }
                }
            }
        }
        if start < cursor && crate::zip::bytes_eq(slice_range(value, start, cursor), token) {
            return true;
        }
    }
    false
}


/// `cp` is a Unicode scalar value: at most 0x10FFFF and no surrogate.
pub open spec fn scalar_value(cp: u32) -> bool {
    cp < 0xD800 || (0xE000 <= cp <= 0x10FFFF)
}

/// The UTF-8 encoding of the scalar value `cp`.
pub open spec fn utf8_of(cp: u32) -> Seq<u8> {
    if cp < 0x80 {
        seq![cp as u8]
    } else if cp < 0x800 {
        seq![(0xC0 + cp / 64) as u8, (0x80 + cp % 64) as u8]
    } else if cp < 0x10000 {
        seq![(0xE0 + cp / 4096) as u8, (0x80 + (cp / 64) % 64) as u8, (0x80 + cp % 64) as u8]
    } else {
        seq![
            (0xF0 + cp / 262144) as u8,
            (0x80 + (cp / 4096) % 64) as u8,
            (0x80 + (cp / 64) % 64) as u8,
            (0x80 + cp % 64) as u8,
        ]
    }
}

proof fn lemma_width_1_bytes(cp: u32)
    by (bit_vector)
    requires
        cp < 0x80,
    ensures
        cp as u8 == (cp & 0x7F) as u8,
{
}

proof fn lemma_width_2_bytes(cp: u32)
    by (bit_vector)
    requires
        0x80 <= cp < 0x800,
    ensures
        (0xC0 + cp / 64) as u8 == 0xC0 | ((cp >> 6) & 0x1F) as u8,
        (0x80 + cp % 64) as u8 == 0x80 | (cp & 0x3F) as u8,
{
}

proof fn lemma_width_3_bytes(cp: u32)
    by (bit_vector)
    requires
        0x800 <= cp < 0x10000,
    ensures
        (0xE0 + cp / 4096) as u8 == 0xE0 | ((cp >> 12) & 0x0F) as u8,
        (0x80 + (cp / 64) % 64) as u8 == 0x80 | ((cp >> 6) & 0x3F) as u8,
        (0x80 + cp % 64) as u8 == 0x80 | (cp & 0x3F) as u8,
{
}

proof fn lemma_width_4_bytes(cp: u32)
    by (bit_vector)
    requires
        0x10000 <= cp <= 0x10FFFF,
    ensures
        (0xF0 + cp / 262144) as u8 == 0xF0 | ((cp >> 18) & 0x7) as u8,
        (0x80 + (cp / 4096) % 64) as u8 == 0x80 | ((cp >> 12) & 0x3F) as u8,
        (0x80 + (cp / 64) % 64) as u8 == 0x80 | ((cp >> 6) & 0x3F) as u8,
        (0x80 + cp % 64) as u8 == 0x80 | (cp & 0x3F) as u8,
{
}

/// The encoding of a scalar value is valid UTF-8 and decodes to that one character.
pub proof fn lemma_utf8_of_char(c: char)
    ensures
        valid_utf8(utf8_of(c as u32)),
        decode_utf8(utf8_of(c as u32)) == seq![c],
        utf8_of(c as u32) == vstd::utf8::encode_utf8(seq![c]),
{
    let cp = c as u32;
    vstd::utf8::char_is_scalar(c);
    if cp < 0x80 {
        lemma_width_1_bytes(cp);
    } else if cp < 0x800 {
        lemma_width_2_bytes(cp);
    } else if cp < 0x10000 {
        lemma_width_3_bytes(cp);
    } else {
        lemma_width_4_bytes(cp);
    }
    let one = seq![c];
    assert(one.drop_first() =~= Seq::<char>::empty());
    assert(one[0] == c);
    assert(vstd::utf8::encode_utf8(one.drop_first()) =~= Seq::<u8>::empty());
    assert(vstd::utf8::encode_utf8(one) == vstd::utf8::encode_scalar(one[0] as u32) + vstd::utf8::encode_utf8(
        one.drop_first(),
    ));
    assert(vstd::utf8::encode_utf8(one) =~= vstd::utf8::encode_scalar(cp));
    assert(utf8_of(cp) =~= vstd::utf8::encode_scalar(cp));
    vstd::utf8::encode_utf8_valid_utf8(one);
    vstd::utf8::encode_utf8_decode_utf8(one);
}

/// Encodes the scalar value `cp` as UTF-8 into a fresh buffer.
pub fn encode_scalar(cp: u32) -> (r: Vec<u8>)
    requires
        scalar_value(cp),
    ensures
        r@ == utf8_of(cp),
{
    let mut out: Vec<u8> = Vec::new();
    if cp < 0x80 {
        out.push(cp as u8);
    } else if cp < 0x800 {
        out.push((0xC0 + cp / 64) as u8);
        out.push((0x80 + cp % 64) as u8);
    } else if cp < 0x10000 {
        out.push((0xE0 + cp / 4096) as u8);
        out.push((0x80 + (cp / 64) % 64) as u8);
        out.push((0x80 + cp % 64) as u8);
    } else {
        out.push((0xF0 + cp / 262144) as u8);
        out.push((0x80 + (cp / 4096) % 64) as u8);
        out.push((0x80 + (cp / 64) % 64) as u8);
        out.push((0x80 + cp % 64) as u8);
    }
    assert(out@ =~= utf8_of(cp));
    out
}

/// What an entity body (the bytes between `&` and `;`) stands for: `None` when
/// it is not one the reader knows, `Some(None)` for a malformed number, else the
/// code point.
pub open spec fn entity_code(e: Seq<u8>) -> Option<Option<u32>> {
    if e == seq![0x6cu8, 0x74u8] {
        Some(Some(0x3Cu32))
    } else if e == seq![0x67u8, 0x74u8] {
        Some(Some(0x3Eu32))
    } else if e == seq![0x61u8, 0x6du8, 0x70u8] {
        Some(Some(0x26u32))
    } else if e == seq![0x63u8, 0x6fu8, 0x70u8, 0x79u8] {
        Some(Some(0xA9u32))
    } else if e == seq![0x71u8, 0x75u8, 0x6fu8, 0x74u8] {
        Some(Some(0x22u32))
    } else if e == seq![0x61u8, 0x70u8, 0x6fu8, 0x73u8] {
        Some(Some(0x27u32))
    } else if e == seq![0x6eu8, 0x62u8, 0x73u8, 0x70u8] {
        Some(Some(0xA0u32))
    } else if e.len() >= 2 && e[0] == 0x23 && e[1] == 0x78 {
        Some(parse_num_spec(e.subrange(2, e.len() as int), 16))
    } else if e.len() >= 1 && e[0] == 0x23 {
        Some(parse_num_spec(e.subrange(1, e.len() as int), 10))
    } else {
        None
    }
}

/// `bytes` has the shape `&...;` of an entity reference.
pub open spec fn entity_framed(bytes: Seq<u8>) -> bool {
    bytes.len() >= 3 && bytes[0] == 0x26 && bytes[bytes.len() - 1] == 0x3b
}

/// Whether the bytes of `e` equal the `k` bytes `a`.
fn bytes_are(e: &[u8], a: &[u8]) -> (r: bool)
    ensures
        r == (e@ == a@),
{
    crate::zip::bytes_eq(e, a)
}

/// The code point an entity body stands for, as `entity_code` says.
fn entity_code_of(e: &[u8]) -> (r: Option<Option<u32>>)
    ensures
        r == entity_code(e@),
{
    let lt: [u8; 2] = [0x6c, 0x74];
    let gt: [u8; 2] = [0x67, 0x74];
    let amp: [u8; 3] = [0x61, 0x6d, 0x70];
    let copy: [u8; 4] = [0x63, 0x6f, 0x70, 0x79];
    let quot: [u8; 4] = [0x71, 0x75, 0x6f, 0x74];
    let apos: [u8; 4] = [0x61, 0x70, 0x6f, 0x73];
    let nbsp: [u8; 4] = [0x6e, 0x62, 0x73, 0x70];
    assert(lt@ =~= seq![0x6cu8, 0x74u8]);
    assert(gt@ =~= seq![0x67u8, 0x74u8]);
    assert(amp@ =~= seq![0x61u8, 0x6du8, 0x70u8]);
    assert(copy@ =~= seq![0x63u8, 0x6fu8, 0x70u8, 0x79u8]);
    assert(quot@ =~= seq![0x71u8, 0x75u8, 0x6fu8, 0x74u8]);
    assert(apos@ =~= seq![0x61u8, 0x70u8, 0x6fu8, 0x73u8]);
    assert(nbsp@ =~= seq![0x6eu8, 0x62u8, 0x73u8, 0x70u8]);
    if bytes_are(e, lt.as_slice()) {
        Some(Some(0x3C))
    } else if bytes_are(e, gt.as_slice()) {
        Some(Some(0x3E))
    } else if bytes_are(e, amp.as_slice()) {
        Some(Some(0x26))
    } else if bytes_are(e, copy.as_slice()) {
        Some(Some(0xA9))
    } else if bytes_are(e, quot.as_slice()) {
        Some(Some(0x22))
    } else if bytes_are(e, apos.as_slice()) {
        Some(Some(0x27))
    } else if bytes_are(e, nbsp.as_slice()) {
        Some(Some(0xA0))
    } else if e.len() >= 2 && e[0] == 0x23u8 && e[1] == 0x78u8 {
        Some(parse_num_radix(slice_range(e, 2, e.len()), 16))
    } else if e.len() >= 1 && e[0] == 0x23u8 {
        Some(parse_num_radix(slice_range(e, 1, e.len()), 10))
    } else {
        None
    }
}

/// Decodes the entity reference `bytes` (from `&` to `;`) and appends its UTF-8
/// encoding to `out` at `out_len`. `Ok(false)` when `bytes` is no entity the
/// reader knows; `InvalidFormat` for a malformed number or a value that is no
/// scalar; `OutOfSpace` when the encoding does not fit.
pub fn decode_entity(bytes: &[u8], out: &mut [u8], out_len: &mut usize) -> (r: Result<bool, EpubError>)
    requires
        *old(out_len) <= old(out)@.len(),
    ensures
        final(out)@.len() == old(out)@.len(),
        ({
            let e = bytes@.subrange(1, bytes@.len() - 1);
            if !entity_framed(bytes@) || entity_code(e) is None {
                r == Ok::<bool, EpubError>(false) && *final(out_len) == *old(out_len) && final(out)@ == old(out)@
            } else {
                match entity_code(e)->Some_0 {
                    None => r == Err::<bool, EpubError>(EpubError::InvalidFormat),
                    Some(cp) => if !scalar_value(cp) {
                        r == Err::<bool, EpubError>(EpubError::InvalidFormat)
                    } else if *old(out_len) + utf8_of(cp).len() > old(out)@.len() {
                        r == Err::<bool, EpubError>(EpubError::OutOfSpace)
                    } else {
                        &&& r == Ok::<bool, EpubError>(true)
                        &&& *final(out_len) == *old(out_len) + utf8_of(cp).len()
                        &&& final(out)@ == old(out)@.subrange(0, *old(out_len) as int) + utf8_of(cp)
                            + old(out)@.subrange(*final(out_len) as int, old(out)@.len() as int)
                    },
                }
            }
        }),
{
    if bytes.len() < 3 || bytes[0] != 0x26u8 || bytes[bytes.len() - 1] != 0x3bu8 {
        return Ok(false);
    }
    let entity = slice_range(bytes, 1, bytes.len() - 1);
    let cp = match entity_code_of(entity) {
        None => return Ok(false),
        Some(None) => return Err(EpubError::InvalidFormat),
        Some(Some(cp)) => cp,
    };
    if !(cp < 0xD800 || (0xE000 <= cp && cp <= 0x10FFFF)) {
        return Err(EpubError::InvalidFormat);
    }
    let encoded = encode_scalar(cp);
    let start = *out_len;
    if encoded.len() > out.len() - start {
        return Err(EpubError::OutOfSpace);
    }
    let mut i: usize = 0;
    while i < encoded.len()
        invariant
            i <= encoded@.len(),
            start + encoded@.len() <= out@.len(),
            start + encoded.len() <= out.len(),
            out@.len() == old(out)@.len(),
            forall|k: int| 0 <= k < start ==> out@[k] == old(out)@[k],
            forall|k: int| start + encoded@.len() <= k < out@.len() ==> out@[k] == old(out)@[k],
            forall|k: int| 0 <= k < i ==> out@[start + k] == encoded@[k],
        decreases encoded@.len() - i,
    {
        out[start + i] = encoded[i];
        i += 1;
    }
    *out_len = start + encoded.len();
    assert(out@ =~= old(out)@.subrange(0, start as int) + encoded@ + old(out)@.subrange(
        (start + encoded@.len()) as int,
        old(out)@.len() as int,
    ));
    Ok(true)
}

/// The bytes of `s` with each `%XY` (two hexadecimal digits, not the last three
/// bytes' tail) replaced by the byte it spells.
pub open spec fn percent_decoded(s: Seq<u8>) -> Seq<u8>
    decreases s.len(),
{
    if s.len() == 0 {
        Seq::empty()
    } else if s[0] == 0x25 && 2 < s.len() && hex_value(s[1]) is Some && hex_value(s[2]) is Some {
        seq![(hex_value(s[1])->Some_0 * 16 + hex_value(s[2])->Some_0) as u8] + percent_decoded(
            s.subrange(3, s.len() as int),
        )
    } else {
        seq![s[0]] + percent_decoded(s.subrange(1, s.len() as int))
    }
}

/// Decodes the `%XY` escapes of `input` into `out`.
pub fn percent_decode(input: &[u8], out: &mut [u8]) -> (r: Result<usize, EpubError>)
    ensures
        final(out)@.len() == old(out)@.len(),
        r is Ok <==> percent_decoded(input@).len() <= old(out)@.len(),
        r matches Ok(n) ==> n == percent_decoded(input@).len() && final(out)@.subrange(0, n as int)
            == percent_decoded(input@),
        r matches Err(e) ==> e == EpubError::OutOfSpace,
{
    let n = input.len();
    let mut out_len: usize = 0;
    let mut i: usize = 0;
    assert(input@.subrange(0, n as int) =~= input@);
    assert(out@.subrange(0, 0) + percent_decoded(input@) =~= percent_decoded(input@));
    while i < n
        invariant
            n == input@.len(),
            i <= n,
            out_len <= out@.len(),
            out@.len() == old(out)@.len(),
            percent_decoded(input@) == out@.subrange(0, out_len as int) + percent_decoded(
                input@.subrange(i as int, n as int),
            ),
        decreases n - i,
    {
        let ghost rest = input@.subrange(i as int, n as int);
        let ghost before = out@.subrange(0, out_len as int);
        if input[i] == 0x25u8 && n - i > 2 {
            let high = from_hex(input[i + 1]);
            let low = from_hex(input[i + 2]);
            if high.is_some() && low.is_some() {
                let h = high.unwrap();
                let l = low.unwrap();
                if out_len >= out.len() {
                    proof {
                        assert(rest[0] == 0x25 && rest[1] == input@[i + 1] && rest[2] == input@[i + 2]);
                    }
                    return Err(EpubError::OutOfSpace);
                }
                out[out_len] = h * 16 + l;
                proof {
                    assert(rest[0] == 0x25 && rest[1] == input@[i + 1] && rest[2] == input@[i + 2]);
                    assert(rest.subrange(3, rest.len() as int) =~= input@.subrange(i + 3, n as int));
                    assert(out@.subrange(0, out_len + 1) =~= before.push((h * 16 + l) as u8));
                }
                out_len += 1;
                i += 3;
                continue;
            }
        }
        proof {
            assert(rest[0] == input@[i as int]);
            if rest[0] == 0x25 && 2 < rest.len() {
                assert(rest[1] == input@[i + 1] && rest[2] == input@[i + 2]);
            }
            assert(rest.subrange(1, rest.len() as int) =~= input@.subrange(i + 1, n as int));
        }
        if out_len >= out.len() {
            return Err(EpubError::OutOfSpace);
        }
        out[out_len] = input[i];
        proof {
            assert(out@.subrange(0, out_len + 1) =~= before.push(input@[i as int]));
        }
        out_len += 1;
        i += 1;
    }
    proof {
        assert(input@.subrange(n as int, n as int) =~= Seq::<u8>::empty());
        assert(out@.subrange(0, out_len as int) + Seq::<u8>::empty() =~= out@.subrange(0, out_len as int));
    }
    Ok(out_len)
}


/// The slash-separated segments of a path, empty ones skipped.
pub struct Segments<'a> {
    pub path: &'a [u8],
    pub idx: usize,
}

/// Splits `path` into its slash-separated segments.
pub fn split_segments(path: &[u8]) -> (r: Segments<'_>)
    ensures
        r.path@ == path@,
        r.idx == 0,
{
    Segments { path, idx: 0 }
}

impl<'a> Segments<'a> {
    /// The next nonempty run of bytes without a slash, or `None` past the end.
    pub fn next(&mut self) -> (r: Option<&'a [u8]>)
        requires
            old(self).idx <= old(self).path@.len(),
        ensures
            final(self).path@ == old(self).path@,
            old(self).idx <= final(self).idx <= final(self).path@.len(),
            r is None <==> forall|k: int| old(self).idx <= k < old(self).path@.len() ==> old(self).path@[k] == 0x2f,
            r matches Some(seg) ==> {
                let p = old(self).path@;
                let e = final(self).idx as int;
                let st = e - seg@.len();
                &&& seg@.len() > 0
                &&& old(self).idx <= st
                &&& seg@ == p.subrange(st, e)
                &&& (e == p.len() || p[e] == 0x2f)
                &&& forall|k: int| old(self).idx <= k < st ==> p[k] == 0x2f
                &&& forall|k: int| st <= k < e ==> p[k] != 0x2f
            },
    {
        let n = self.path.len();
        while self.idx < n && self.path[self.idx] == 0x2fu8
            invariant
                n == self.path@.len(),
                self.path@ == old(self).path@,
                old(self).idx <= self.idx <= n,
                forall|k: int| old(self).idx <= k < self.idx ==> self.path@[k] == 0x2f,
            decreases n - self.idx,
        {
            self.idx += 1;
        }
        if self.idx >= n {
            return None;
        }
        let start = self.idx;
        while self.idx < n && self.path[self.idx] != 0x2fu8
            invariant
                n == self.path@.len(),
                self.path@ == old(self).path@,
                start <= self.idx <= n,
                forall|k: int| start <= k < self.idx ==> self.path@[k] != 0x2f,
            decreases n - self.idx,
        {
            self.idx += 1;
        }
        let p: &'a [u8] = self.path;
        Some(slice_range(p, start, self.idx))
    }
}

/// A segment that is `.`.
pub open spec fn dot_segment(s: Seq<u8>) -> bool {
    s.len() == 1 && s[0] == 0x2e
}

/// A segment that is `..`.
pub open spec fn dot_dot_segment(s: Seq<u8>) -> bool {
    s.len() == 2 && s[0] == 0x2e && s[1] == 0x2e
}

/// Applies one path segment to the path being built in `out[..out_len]`, whose
/// segments end at `segment_end[..segment_count]`: `..` drops the last segment,
/// empty and `.` change nothing, any other segment is appended after a slash.
pub fn apply_segment(
    segment: &[u8],
    out: &mut [u8],
    out_len: &mut usize,
    segment_end: &mut [usize],
    segment_count: &mut usize,
) -> (r: Result<(), EpubError>)
    requires
        *old(out_len) <= old(out)@.len(),
        *old(segment_count) <= old(segment_end)@.len(),
        forall|k: int| 0 <= k < *old(segment_count) ==> #[trigger] old(segment_end)@[k] <= *old(out_len),
        forall|a: int, b: int| 0 <= a <= b < *old(segment_count) ==> old(segment_end)@[a] <= old(segment_end)@[b],
    ensures
        forall|a: int, b: int| 0 <= a <= b < *final(segment_count) ==> final(segment_end)@[a] <= final(segment_end)@[b],
        final(out)@.len() == old(out)@.len(),
        final(segment_end)@.len() == old(segment_end)@.len(),
        *final(out_len) <= final(out)@.len(),
        *final(segment_count) <= final(segment_end)@.len(),
        forall|k: int| 0 <= k < *final(segment_count) ==> #[trigger] final(segment_end)@[k] <= *final(out_len),
        final(out)@.subrange(0, *old(out_len) as int) == old(out)@.subrange(0, *old(out_len) as int) || *final(out_len) <= *old(out_len),
        (segment@.len() == 0 || dot_segment(segment@)) ==> r is Ok && *final(out_len) == *old(out_len)
            && *final(segment_count) == *old(segment_count) && final(out)@ == old(out)@,
        dot_dot_segment(segment@) ==> r is Ok && *final(segment_count) == (if *old(segment_count) > 0 {
            *old(segment_count) - 1
        } else {
            0
        }) && *final(out_len) == (if *old(segment_count) == 0 {
            *old(out_len)
        } else if *old(segment_count) == 1 {
            0
        } else {
            old(segment_end)@[*old(segment_count) - 2]
        }) && final(out)@ == old(out)@,
        !(segment@.len() == 0 || dot_segment(segment@) || dot_dot_segment(segment@)) ==> ({
            let sep: int = if *old(out_len) > 0 { 1 } else { 0 };
            let new_len = *old(out_len) + sep + segment@.len();
            if new_len > old(out)@.len() || *old(segment_count) >= old(segment_end)@.len() {
                r == Err::<(), EpubError>(EpubError::OutOfSpace)
            } else {
                &&& r is Ok
                &&& *final(out_len) == new_len
                &&& final(out)@.subrange(0, new_len) == old(out)@.subrange(0, *old(out_len) as int) + (if sep == 1 {
                    seq![0x2fu8]
                } else {
                    Seq::empty()
                }) + segment@
                &&& *final(segment_count) == *old(segment_count) + 1
                &&& final(segment_end)@[*old(segment_count) as int] == new_len
            }
        }),
{
    if segment.len() == 0 || (segment.len() == 1 && segment[0] == 0x2eu8) {
        return Ok(());
    }
    if segment.len() == 2 && segment[0] == 0x2eu8 && segment[1] == 0x2eu8 {
        if *segment_count > 0 {
            *segment_count = *segment_count - 1;
            *out_len = if *segment_count == 0 { 0 } else { segment_end[*segment_count - 1] };
        }
        return Ok(());
    }
    let start = *out_len;
    let sep: usize = if start > 0 { 1 } else { 0 };
    if sep > out.len() - start || segment.len() > out.len() - start - sep {
        return Err(EpubError::OutOfSpace);
    }
    if *segment_count >= segment_end.len() {
        return Err(EpubError::OutOfSpace);
    }
    if sep == 1 {
        out[start] = 0x2fu8;
    }
    let base = start + sep;
    let mut i: usize = 0;
    while i < segment.len()
        invariant
            i <= segment@.len(),
            base == start + sep,
            base + segment@.len() <= out@.len(),
            base + segment.len() <= out.len(),
            out@.len() == old(out)@.len(),
            start == *old(out_len),
            forall|k: int| 0 <= k < start ==> out@[k] == old(out)@[k],
            sep == 1 ==> out@[start as int] == 0x2f,
            forall|k: int| 0 <= k < i ==> out@[base + k] == segment@[k],
        decreases segment@.len() - i,
    {
        out[base + i] = segment[i];
        i += 1;
    }
    *out_len = base + segment.len();
    let c = *segment_count;
    segment_end[c] = *out_len;
    *segment_count = c + 1;
    assert(out@.subrange(0, *out_len as int) =~= old(out)@.subrange(0, start as int) + (if sep == 1 {
        seq![0x2fu8]
    } else {
        Seq::empty()
    }) + segment@);
    assert(out@.subrange(0, start as int) =~= old(out)@.subrange(0, start as int));
    Ok(())
}

/// A reference without its fragment or query: what precedes its first `#` or `?`.
pub open spec fn sanitized_reference(reference: Seq<u8>, k: int) -> bool {
    &&& 0 <= k <= reference.len()
    &&& (k < reference.len() ==> reference[k] == 0x23 || reference[k] == 0x3f)
    &&& forall|j: int| 0 <= j < k ==> reference[j] != 0x23 && reference[j] != 0x3f
}

/// Where the fragment or query of `reference` begins, or its length.
fn reference_cut(reference: &[u8]) -> (k: usize)
    ensures
        sanitized_reference(reference@, k as int),
{
    let mut idx: usize = 0;
    while idx < reference.len()
        invariant
            idx <= reference@.len(),
            forall|j: int| 0 <= j < idx ==> reference@[j] != 0x23 && reference@[j] != 0x3f,
        decreases reference@.len() - idx,
    {
        if reference[idx] == 0x23u8 || reference[idx] == 0x3fu8 {
            return idx;
        }
        idx += 1;
    }
    idx
}

/// Resolves `reference` (an `href` or `src`) against the directory `base` into
/// `out` and returns its length: the fragment and query are dropped; an absolute
/// URI is copied as it is; otherwise the reference is percent-decoded and its
/// segments are applied to those of `base`, `..` climbing and `.` staying.
pub fn resolve_reference(base: &[u8], reference: &[u8], out: &mut [u8]) -> (r: Result<usize, EpubError>)
    ensures
        final(out)@.len() == old(out)@.len(),
        r matches Ok(n) ==> n <= final(out)@.len(),
        forall|k: int| #[trigger] sanitized_reference(reference@, k) ==> (absolute_uri_spec(reference@.subrange(0, k)) ==> (
            if k <= old(out)@.len() {
                r == Ok::<usize, EpubError>(k as usize) && final(out)@.subrange(0, k) == reference@.subrange(0, k)
            } else {
                r == Err::<usize, EpubError>(EpubError::OutOfSpace)
            })),
{
    let cut = reference_cut(reference);
    let sanitized = slice_range(reference, 0, cut);
    proof {
        assert forall|k: int| #[trigger] sanitized_reference(reference@, k) implies k == cut by {
            if k < cut {
                assert(reference@[k] != 0x23 && reference@[k] != 0x3f);
            } else if k > cut {
                assert(reference@[cut as int] != 0x23 && reference@[cut as int] != 0x3f);
            }
        }
    }
    if is_absolute_uri(sanitized) {
        if sanitized.len() > out.len() {
            return Err(EpubError::OutOfSpace);
        }
        let mut i: usize = 0;
        while i < sanitized.len()
            invariant
                i <= sanitized@.len(),
                sanitized@.len() <= out@.len(),
                out@.len() == old(out)@.len(),
                forall|j: int| 0 <= j < i ==> out@[j] == sanitized@[j],
            decreases sanitized@.len() - i,
        {
            out[i] = sanitized[i];
            i += 1;
        }
        assert(out@.subrange(0, cut as int) =~= sanitized@);
        return Ok(sanitized.len());
    }
    let mut decoded: Vec<u8> = Vec::new();
    let mut z: usize = 0;
    while z < MAX_CHAPTER_DIR_BYTES
        invariant
            z <= MAX_CHAPTER_DIR_BYTES,
            decoded@.len() == z,
        decreases MAX_CHAPTER_DIR_BYTES - z,
    {
        decoded.push(0u8);
        z += 1;
    }
    assert(forall|k: int| #[trigger] sanitized_reference(reference@, k) ==> !absolute_uri_spec(reference@.subrange(0, k)));
    let decoded_len = match percent_decode(sanitized, decoded.as_mut_slice()) {
        Ok(n) => n,
        Err(e) => return Err(e),
    };
    let mut segment_end: Vec<usize> = Vec::new();
    let mut z2: usize = 0;
    while z2 < 24
        invariant
            z2 <= 24,
            segment_end@.len() == z2,
            forall|k: int| 0 <= k < z2 ==> segment_end@[k] == 0,
        decreases 24 - z2,
    {
        segment_end.push(0usize);
        z2 += 1;
    }
    let mut segment_count: usize = 0;
    let mut out_len: usize = 0;
    let mut segments = split_segments(base);
    loop
        invariant
            segments.idx <= segments.path@.len(),
            out_len <= out@.len(),
            out@.len() == old(out)@.len(),
            segment_end@.len() == 24,
            segment_count <= 24,
            forall|k: int| 0 <= k < segment_count ==> #[trigger] segment_end@[k] <= out_len,
            forall|a: int, b: int| 0 <= a <= b < segment_count ==> segment_end@[a] <= segment_end@[b],
            forall|k: int| #[trigger] sanitized_reference(reference@, k) ==> !absolute_uri_spec(reference@.subrange(0, k)),
        decreases segments.path@.len() - segments.idx,
    {
        let before = segments.idx;
        let segment = match segments.next() {
            Some(seg) => seg,
            None => break,
        };
        match apply_segment(segment, out, &mut out_len, segment_end.as_mut_slice(), &mut segment_count) {
            Ok(()) => {},
            Err(_) => return Err(EpubError::OutOfSpace),
        }
        assert(segments.idx > before);
    }
    let decoded_view: &[u8] = decoded.as_slice();
    let mut rel = split_segments(slice_range(decoded_view, 0, decoded_len));
    loop
        invariant
            rel.idx <= rel.path@.len(),
            out_len <= out@.len(),
            out@.len() == old(out)@.len(),
            segment_end@.len() == 24,
            segment_count <= 24,
            forall|k: int| 0 <= k < segment_count ==> #[trigger] segment_end@[k] <= out_len,
            forall|a: int, b: int| 0 <= a <= b < segment_count ==> segment_end@[a] <= segment_end@[b],
            forall|k: int| #[trigger] sanitized_reference(reference@, k) ==> !absolute_uri_spec(reference@.subrange(0, k)),
        decreases rel.path@.len() - rel.idx,
    {
        let before = rel.idx;
        let segment = match rel.next() {
            Some(seg) => seg,
            None => break,
        };
        assert(rel.idx > before);
        match apply_segment(segment, out, &mut out_len, segment_end.as_mut_slice(), &mut segment_count) {
            Ok(()) => {},
            Err(e) => return Err(e),
        }
    }
    Ok(out_len)
}


/// An XML tag found in a document: the positions of its name and of its
/// attribute text in that document.
#[derive(Debug, Clone, Copy)]
pub struct Tag {
    pub name_start: usize,
    pub name_end: usize,
    pub attrs_start: usize,
    pub attrs_end: usize,
    pub is_end: bool,
    pub is_self_closing: bool,
}

impl Tag {
    /// The positions lie inside a document of `len` bytes and the name is not empty.
    pub open spec fn wf(self, len: nat) -> bool {
        &&& self.name_start < self.name_end <= len
        &&& self.attrs_start <= self.attrs_end <= len
    }

    /// The name without its namespace prefix.
    pub open spec fn local_name(self, data: Seq<u8>) -> Seq<u8> {
        trim_namespace_spec(data.subrange(self.name_start as int, self.name_end as int))
    }

    /// Whether the local name is `expected`, ignoring ASCII case.
    pub fn name_is(&self, data: &[u8], expected: &str) -> (r: bool)
        requires
            self.wf(data@.len()),
        ensures
            r == eq_ascii_case_spec(self.local_name(data@), expected.spec_bytes()),
    {
        let name = trim_namespace(slice_range(data, self.name_start, self.name_end));
        eq_ascii_case(name, expected.as_bytes())
    }

    /// Whether the local name starts with `expected`, bytes compared exactly.
    pub fn name_starts_with(&self, data: &[u8], expected: &[u8]) -> (r: bool)
        requires
            self.wf(data@.len()),
        ensures
            r == (expected@.len() <= self.local_name(data@).len() && self.local_name(data@).subrange(
                0,
                expected@.len() as int,
            ) == expected@),
    {
        let name = trim_namespace(slice_range(data, self.name_start, self.name_end));
        if name.len() < expected.len() {
            return false;
        }
        crate::zip::bytes_eq(slice_range(name, 0, expected.len()), expected)
    }

    /// The level of an `h1` to `h6` heading tag.
    pub fn heading_level(&self, data: &[u8]) -> (r: Option<u8>)
        requires
            self.wf(data@.len()),
        ensures
            ({
                let n = self.local_name(data@);
                if n.len() == 2 && (n[0] == 0x68 || n[0] == 0x48) && 0x31 <= n[1] <= 0x36 {
                    r == Some((n[1] - 0x30) as u8)
                } else {
                    r is None
                }
            }),
    {
        let name = trim_namespace(slice_range(data, self.name_start, self.name_end));
        if name.len() != 2 || (name[0] != 0x68u8 && name[0] != 0x48u8) {
            return None;
        }
        let level = name[1].wrapping_sub(0x30u8);
        if 1 <= level && level <= 6 {
            Some(level)
        } else {
            None
        }
    }

    /// The position in the document of the value of attribute `key`, as
    /// `attr_value_from` finds it in the attribute text.
    pub open spec fn attr_spec(self, data: Seq<u8>, key: Seq<u8>) -> Option<(int, int)> {
        match attr_value_from(data.subrange(self.attrs_start as int, self.attrs_end as int), 0, key) {
            Some((a, b)) => Some((self.attrs_start + a, self.attrs_start + b)),
            None => None,
        }
    }

    /// Whether attribute `key` is present and lists `token`.
    pub open spec fn attr_has_token_spec(self, data: Seq<u8>, key: Seq<u8>, token: Seq<u8>) -> bool {
        match self.attr_spec(data, key) {
            Some((a, b)) => has_token(data.subrange(a, b), token),
            None => false,
        }
    }

    /// Whether the local name is `name`, ignoring ASCII case.
    pub open spec fn named_spec(self, data: Seq<u8>, name: &str) -> bool {
        eq_ascii_case_spec(self.local_name(data), name.spec_bytes())
    }

    /// Whether this is one of the table tags the reader does not lay out.
    pub fn is_unsupported(&self, data: &[u8]) -> (r: bool)
        requires
            self.wf(data@.len()),
        ensures
            r == (self.named_spec(data@, "table") || self.named_spec(data@, "thead") || self.named_spec(data@, "tbody")
                || self.named_spec(data@, "tfoot") || self.named_spec(data@, "tr") || self.named_spec(data@, "td")
                || self.named_spec(data@, "th")),
    {
        self.name_is(data, "table") || self.name_is(data, "thead") || self.name_is(data, "tbody")
            || self.name_is(data, "tfoot") || self.name_is(data, "tr") || self.name_is(data, "td")
            || self.name_is(data, "th")
    }

    /// The position in the document of the value of attribute `key`.
    pub fn attr(&self, data: &[u8], key: &[u8]) -> (r: Option<(usize, usize)>)
        requires
            self.wf(data@.len()),
        ensures
            r matches Some((a, b)) ==> self.attrs_start <= a <= b < self.attrs_end,
            self.attr_spec(data@, key@) == (match r {
                Some((a, b)) => Some((a as int, b as int)),
                None => None,
            }),
    {
        let attrs = slice_range(data, self.attrs_start, self.attrs_end);
        match find_attr(attrs, key) {
            Some((a, b)) => Some((self.attrs_start + a, self.attrs_start + b)),
            None => None,
        }
    }

    /// Whether attribute `key` is present and its value satisfies `pred` by tokens:
    /// one of its whitespace-separated tokens is `token`.
    pub fn attr_has_token(&self, data: &[u8], key: &[u8], token: &[u8]) -> (r: bool)
        requires
            self.wf(data@.len()),
        ensures
            r == self.attr_has_token_spec(data@, key@, token@),
    {
        match self.attr(data, key) {
            Some((a, b)) => attr_contains_token(slice_range(data, a, b), token),
            None => false,
        }
    }
}

/// The length of a tag name: up to the first whitespace, `/` or `>` in `[start, end)`.
pub fn tag_name_len(data: &[u8], start: usize, end: usize) -> (r: Result<usize, EpubError>)
    requires
        start <= end <= data@.len(),
    ensures
        r matches Ok(n) ==> start + n <= end && (start + n == end || ascii_ws(data@[start + n])
            || data@[start + n] == 0x2f || data@[start + n] == 0x3e) && forall|k: int|
            start <= k < start + n ==> !(ascii_ws(#[trigger] data@[k]) || data@[k] == 0x2f || data@[k] == 0x3e),
        r is Ok,
{
    let mut idx = start;
    while idx < end
        invariant
            start <= idx <= end,
            end <= data@.len(),
            forall|k: int| start <= k < idx ==> !(ascii_ws(#[trigger] data@[k]) || data@[k] == 0x2f || data@[k] == 0x3e),
        decreases end - idx,
    {
        let ch = data[idx];
        if is_ascii_ws(ch) || ch == 0x2fu8 || ch == 0x3eu8 {
            return Ok(idx - start);
        }
        idx += 1;
    }
    Ok(end - start)
}

/// Skips a `<!...>` construct whose `!` is at `cursor`: a comment up to its
/// `-->`, anything else up to its `>`. `InvalidFormat` when it is not closed.
pub fn skip_special(data: &[u8], cursor: &mut usize) -> (r: Result<(), EpubError>)
    requires
        *old(cursor) <= data@.len(),
    ensures
        r is Ok ==> *old(cursor) < *final(cursor) <= data@.len(),
        r is Err ==> *final(cursor) == *old(cursor),
        r matches Err(e) ==> e == EpubError::InvalidFormat,
{
    let n = data.len();
    if n - *cursor <= 2 {
        return Err(EpubError::InvalidFormat);
    }
    let c = *cursor;
    if data[c] == 0x21u8 && data[c + 1] == 0x2du8 && data[c + 2] == 0x2du8 {
        let mut at = c + 3;
        while at <= n && n - at >= 3
            invariant
                c + 3 <= at,
                at <= n,
                n == data@.len(),
                c == *old(cursor),
                *cursor == c,
            decreases n - at,
        {
            if data[at] == 0x2du8 && data[at + 1] == 0x2du8 && data[at + 2] == 0x3eu8 {
                *cursor = at + 3;
                return Ok(());
            }
            at += 1;
        }
        return Err(EpubError::InvalidFormat);
    }
    let mut at = c;
    while at < n && data[at] != 0x3eu8
        invariant
            c <= at <= n,
            n == data@.len(),
            c == *old(cursor),
            *cursor == c,
        decreases n - at,
    {
        at += 1;
    }
    if at < n {
        *cursor = at + 1;
        return Ok(());
    }
    Err(EpubError::InvalidFormat)
}

/// The end of the run of ASCII whitespace from `c`.
pub open spec fn ws_run_end(s: Seq<u8>, c: int) -> int
    decreases s.len() - c,
{
    if 0 <= c < s.len() && ascii_ws(s[c]) {
        ws_run_end(s, c + 1)
    } else {
        c
    }
}

/// The end of the attribute name from `c`: up to `=` or whitespace.
pub open spec fn attr_name_end(s: Seq<u8>, c: int) -> int
    decreases s.len() - c,
{
    if 0 <= c < s.len() && !(s[c] == 0x3d || ascii_ws(s[c])) {
        attr_name_end(s, c + 1)
    } else {
        c
    }
}

/// The first position from `c` holding `b`, or the end of `s`.
pub open spec fn byte_run_end(s: Seq<u8>, c: int, b: u8) -> int
    decreases s.len() - c,
{
    if 0 <= c < s.len() && s[c] != b {
        byte_run_end(s, c + 1, b)
    } else {
        c
    }
}

pub proof fn lemma_run_ends(s: Seq<u8>, c: int, b: u8)
    requires
        0 <= c,
    ensures
        c <= ws_run_end(s, c),
        c <= s.len() ==> ws_run_end(s, c) <= s.len(),
        c <= attr_name_end(s, c),
        c <= s.len() ==> attr_name_end(s, c) <= s.len(),
        c <= byte_run_end(s, c, b),
        c <= s.len() ==> byte_run_end(s, c, b) <= s.len(),
    decreases s.len() - c,
{
    if c < s.len() {
        lemma_run_ends(s, c + 1, b);
    }
}

/// The value range of attribute `key` in the attribute text `s`, scanning from
/// `c` as `find_attr` does: attributes are `name = "value"` or `name = 'value'`
/// (the name compared without namespace prefix and ASCII case); a name without
/// `=` is skipped to the next space; a value without a quote, an unclosed value
/// or a name at the very end ends the scan.
pub open spec fn attr_value_from(s: Seq<u8>, c: int, key: Seq<u8>) -> Option<(int, int)>
    decreases s.len() - c,
{
    if c < 0 || c >= s.len() {
        None
    } else {
        let a = ws_run_end(s, c);
        let b = attr_name_end(s, a);
        let d = ws_run_end(s, b);
        if a >= s.len() || b >= s.len() || a == b {
            None
        } else if d >= s.len() || s[d] != 0x3d {
            let e = byte_run_end(s, d, 0x20);
            proof {
                lemma_run_ends(s, c, 0x20);
                lemma_run_ends(s, a, 0x20);
                lemma_run_ends(s, b, 0x20);
                lemma_run_ends(s, d, 0x20);
            }
            attr_value_from(s, e, key)
        } else {
            let f = ws_run_end(s, d + 1);
            if f >= s.len() || (s[f] != 0x22 && s[f] != 0x27) {
                None
            } else {
                let ve = byte_run_end(s, f + 1, s[f]);
                if ve >= s.len() {
                    None
                } else if eq_ascii_case_spec(trim_namespace_spec(s.subrange(a, b)), key) {
                    Some((f + 1, ve))
                } else {
                    proof {
                        lemma_run_ends(s, c, s[f]);
                        lemma_run_ends(s, a, s[f]);
                        lemma_run_ends(s, b, s[f]);
                        lemma_run_ends(s, d + 1, s[f]);
                        lemma_run_ends(s, f + 1, s[f]);
                    }
                    attr_value_from(s, ve + 1, key)
                }
            }
        }
    }
}

/// Finds the quoted value of attribute `key` (namespace prefix ignored, ASCII
/// case ignored) in the attribute text of a tag; the range between the quotes.
pub fn find_attr(attrs: &[u8], key: &[u8]) -> (r: Option<(usize, usize)>)
    ensures
        r matches Some((a, b)) ==> 1 <= a <= b < attrs@.len() && (attrs@[a - 1] == 0x22 || attrs@[a - 1] == 0x27)
            && attrs@[b as int] == attrs@[a - 1] && forall|k: int| a <= k < b ==> #[trigger] attrs@[k] != attrs@[a - 1],
        attr_value_from(attrs@, 0, key@) == (match r {
            Some((a, b)) => Some((a as int, b as int)),
            None => None,
        }),
{
    let n = attrs.len();
    let ghost s = attrs@;
    let mut cursor: usize = 0;
    while cursor < n
        invariant
            n == attrs@.len(),
            s == attrs@,
            cursor <= n,
            attr_value_from(s, 0, key@) == attr_value_from(s, cursor as int, key@),
        decreases n - cursor,
    {
        let ghost c0 = cursor;
        while cursor < n && is_ascii_ws(attrs[cursor])
            invariant
                n == attrs@.len(),
                s == attrs@,
                c0 <= cursor <= n,
                ws_run_end(s, c0 as int) == ws_run_end(s, cursor as int),
            decreases n - cursor,
        {
            cursor += 1;
        }
        if cursor >= n {
            return None;
        }
        let name_start = cursor;
        while cursor < n && !(attrs[cursor] == 0x3du8 || is_ascii_ws(attrs[cursor]))
            invariant
                n == attrs@.len(),
                s == attrs@,
                name_start <= cursor <= n,
                attr_name_end(s, name_start as int) == attr_name_end(s, cursor as int),
            decreases n - cursor,
        {
            cursor += 1;
        }
        if cursor >= n || name_start == cursor {
            return None;
        }
        let name_end = cursor;
        while cursor < n && is_ascii_ws(attrs[cursor])
            invariant
                n == attrs@.len(),
                s == attrs@,
                name_end <= cursor <= n,
                ws_run_end(s, name_end as int) == ws_run_end(s, cursor as int),
            decreases n - cursor,
        {
            cursor += 1;
        }
        if cursor >= n || attrs[cursor] != 0x3du8 {
            let ghost d = cursor;
            while cursor < n && attrs[cursor] != 0x20u8
                invariant
                    n == attrs@.len(),
                    s == attrs@,
                    d <= cursor <= n,
                    byte_run_end(s, d as int, 0x20) == byte_run_end(s, cursor as int, 0x20),
                decreases n - cursor,
            {
                cursor += 1;
            }
            continue;
        }
        cursor += 1;
        let ghost d1 = cursor;
        while cursor < n && is_ascii_ws(attrs[cursor])
            invariant
                n == attrs@.len(),
                s == attrs@,
                name_end < d1 <= cursor <= n,
                ws_run_end(s, d1 as int) == ws_run_end(s, cursor as int),
            decreases n - cursor,
        {
            cursor += 1;
        }
        if cursor >= n {
            return None;
        }
        let quote = attrs[cursor];
        if quote != 0x22u8 && quote != 0x27u8 {
            return None;
        }
        cursor += 1;
        let value_start = cursor;
        while cursor < n && attrs[cursor] != quote
            invariant
                n == attrs@.len(),
                s == attrs@,
                1 <= value_start <= cursor <= n,
                attrs@[value_start - 1] == quote,
                forall|k: int| value_start <= k < cursor ==> #[trigger] attrs@[k] != quote,
                byte_run_end(s, value_start as int, quote) == byte_run_end(s, cursor as int, quote),
            decreases n - cursor,
        {
            cursor += 1;
        }
        if cursor >= n {
            return None;
        }
        let raw_name = slice_range(attrs, name_start, name_end);
        if eq_ascii_case(trim_namespace(raw_name), key) {
            return Some((value_start, cursor));
        }
        cursor += 1;
    }
    None
}

/// The end of a tag name from `c`: up to whitespace, `/` or `>`.
pub open spec fn tag_name_run_end(s: Seq<u8>, c: int) -> int
    decreases s.len() - c,
{
    if 0 <= c < s.len() && !(ascii_ws(s[c]) || s[c] == 0x2f || s[c] == 0x3e) {
        tag_name_run_end(s, c + 1)
    } else {
        c
    }
}

/// The position of the `>` that closes a tag, scanning from `c` and skipping
/// quoted values; the length of `s` when the tag is not closed.
pub open spec fn tag_close_from(s: Seq<u8>, c: int) -> int
    decreases s.len() - c,
{
    if c < 0 || c >= s.len() {
        s.len() as int
    } else if s[c] == 0x3e {
        c
    } else if s[c] == 0x27 || s[c] == 0x22 {
        let e = byte_run_end(s, c + 1, s[c]);
        if e >= s.len() {
            s.len() as int
        } else {
            proof {
                lemma_run_ends(s, c + 1, s[c]);
            }
            tag_close_from(s, e + 1)
        }
    } else {
        tag_close_from(s, c + 1)
    }
}

/// What `parse_xml_tag` gives for the text from `c0`: the result `r` and the
/// cursor `c1` after it.
pub open spec fn xml_tag_outcome(s: Seq<u8>, c0: int, r: Result<Option<Tag>, EpubError>, c1: int) -> bool {
    let p = ws_run_end(s, c0);
    if p >= s.len() || s[p] != 0x3c {
        r == Ok::<Option<Tag>, EpubError>(None) && c1 == p
    } else if p + 1 >= s.len() {
        r == Ok::<Option<Tag>, EpubError>(None) && c1 == c0
    } else if s[p + 1] == 0x21 {
        !(r matches Ok(Some(_)))
    } else if s[p + 1] == 0x3f {
        let e = byte_run_end(s, p + 1, 0x3e);
        r == Ok::<Option<Tag>, EpubError>(None) && c1 == (if e < s.len() { e + 1 } else { e })
    } else {
        let is_end = s[p + 1] == 0x2f;
        let ns = if is_end { p + 2 } else { p + 1 };
        let ne = tag_name_run_end(s, ns);
        if ne == ns {
            r == Err::<Option<Tag>, EpubError>(EpubError::InvalidFormat) && c1 == ne
        } else {
            let t = tag_close_from(s, ne);
            if t >= s.len() {
                r == Ok::<Option<Tag>, EpubError>(None) && c1 == c0
            } else {
                let sc = s[t - 1] == 0x2f;
                let ae = if sc { t - 1 } else { t };
                &&& c1 == t + 1
                &&& r == Ok::<Option<Tag>, EpubError>(Some(Tag {
                    name_start: ns as usize,
                    name_end: ne as usize,
                    attrs_start: if ne <= ae { ne as usize } else { 0 },
                    attrs_end: if ne <= ae { ae as usize } else { 0 },
                    is_end,
                    is_self_closing: sc,
                }))
            }
        }
    }
}

/// Parses the tag that starts at `cursor` (after optional whitespace). Comments,
/// `<!...>` and `<?...?>` constructs are skipped with `Ok(None)`; a tag that is not
/// closed before the end of `data` leaves `cursor` where it was, with `Ok(None)`;
/// a tag without a name is `InvalidFormat`.
pub fn parse_xml_tag(data: &[u8], cursor: &mut usize) -> (r: Result<Option<Tag>, EpubError>)
    requires
        *old(cursor) <= data@.len(),
    ensures
        *old(cursor) <= *final(cursor) <= data@.len(),
        r matches Ok(Some(t)) ==> {
            &&& *old(cursor) < *final(cursor)
            &&& t.name_end < *final(cursor)
            &&& t.wf(data@.len())
            &&& *old(cursor) < t.name_start
            &&& t.name_end <= t.attrs_start || t.attrs_start == t.attrs_end
            &&& t.attrs_end < *final(cursor)
            &&& data@[*final(cursor) - 1] == 0x3e
            &&& data@[t.name_start - 1] == (if t.is_end { 0x2fu8 } else { 0x3cu8 })
        },
        r matches Err(e) ==> e == EpubError::InvalidFormat,
        xml_tag_outcome(data@, *old(cursor) as int, r, *final(cursor) as int),
{
    let n = data.len();
    let tag_start = *cursor;
    let mut c = *cursor;
    while c < n && is_ascii_ws(data[c])
        invariant
            tag_start <= c <= n,
            n == data@.len(),
            *cursor == tag_start,
            tag_start <= n,
            tag_start == *old(cursor),
            ws_run_end(data@, tag_start as int) == ws_run_end(data@, c as int),
        decreases n - c,
    {
        c += 1;
    }
    let ghost p = c;
    if c >= n || data[c] != 0x3cu8 {
        *cursor = c;
        return Ok(None);
    }
    c += 1;
    if c >= n {
        return Ok(None);
    }
    if data[c] == 0x21u8 {
        *cursor = c;
        return match skip_special(data, cursor) {
            Ok(()) => Ok(None),
            Err(e) => Err(e),
        };
    }
    if data[c] == 0x3fu8 {
        while c < n && data[c] != 0x3eu8
            invariant
                tag_start < c <= n,
                n == data@.len(),
                p + 1 <= c,
                byte_run_end(data@, p + 1, 0x3e) == byte_run_end(data@, c as int, 0x3e),
            decreases n - c,
        {
            c += 1;
        }
        if c < n {
            c += 1;
        }
        *cursor = c;
        return Ok(None);
    }
    let mut is_end = false;
    if data[c] == 0x2fu8 {
        is_end = true;
        c += 1;
    }
    let name_start = c;
    while c < n && !(is_ascii_ws(data[c]) || data[c] == 0x2fu8 || data[c] == 0x3eu8)
        invariant
            name_start <= c <= n,
            n == data@.len(),
            *cursor == tag_start,
            tag_start <= n,
            tag_start == *old(cursor),
            tag_name_run_end(data@, name_start as int) == tag_name_run_end(data@, c as int),
            forall|k: int| name_start <= k < c ==> !(ascii_ws(#[trigger] data@[k]) || data@[k] == 0x2f || data@[k] == 0x3e),
        decreases n - c,
    {
        c += 1;
    }
    let ghost ne = c;
    if name_start == c {
        *cursor = c;
        return Err(EpubError::InvalidFormat);
    }
    while c < n && data[c] != 0x3eu8
        invariant
            name_start < ne <= c <= n,
            n == data@.len(),
            *cursor == tag_start,
            tag_start <= n,
            tag_start == *old(cursor),
            tag_close_from(data@, ne as int) == tag_close_from(data@, c as int),
            ws_run_end(data@, tag_start as int) == p,
            p + 1 < n,
            data@[p as int] == 0x3c,
            data@[p + 1] != 0x21 && data@[p + 1] != 0x3f,
            is_end == (data@[p + 1] == 0x2f),
            name_start == (if is_end { p + 2 } else { p + 1 }),
            tag_name_run_end(data@, name_start as int) == ne,
        decreases n - c,
    {
        if data[c] == 0x27u8 || data[c] == 0x22u8 {
            let quote = data[c];
            let ghost q0 = c;
            c += 1;
            while c < n && data[c] != quote
                invariant
                    name_start < c <= n,
                    ne <= q0 < c,
                    q0 < n,
                    quote == data@[q0 as int],
                    quote == 0x27u8 || quote == 0x22u8,
                    n == data@.len(),
                    *cursor == tag_start,
                    tag_start <= n,
                    tag_start == *old(cursor),
                    tag_close_from(data@, ne as int) == tag_close_from(data@, q0 as int),
                    byte_run_end(data@, q0 + 1, quote) == byte_run_end(data@, c as int, quote),
                    ws_run_end(data@, tag_start as int) == p,
                    p + 1 < n,
                    data@[p as int] == 0x3c,
                    data@[p + 1] != 0x21 && data@[p + 1] != 0x3f,
                    is_end == (data@[p + 1] == 0x2f),
                    name_start == (if is_end { p + 2 } else { p + 1 }),
                    tag_name_run_end(data@, name_start as int) == ne,
                decreases n - c,
            {
                c += 1;
            }
            if c >= n {
                proof {
                    assert(tag_close_from(data@, q0 as int) == n);
                    assert(ws_run_end(data@, tag_start as int) == p);
                    assert(tag_name_run_end(data@, name_start as int) == ne);
                }
                return Ok(None);
            }
            c += 1;
            continue;
        }
        c += 1;
    }
    if c >= n {
        return Ok(None);
    }
    let is_self_closing = c > name_start && data[c - 1] == 0x2fu8;
    let tag_end = c;
    *cursor = c + 1;
    let name_len = match tag_name_len(data, name_start, tag_end) {
        Ok(v) => v,
        Err(e) => return Err(e),
    };
    if name_len == 0 {
        return Err(EpubError::InvalidFormat);
    }
    let attrs_start = name_start + name_len;
    let attrs_end = if is_self_closing { tag_end - 1 } else { tag_end };
    let (a0, a1) = if attrs_start <= attrs_end { (attrs_start, attrs_end) } else { (0, 0) };
    proof {
        assert(tag_close_from(data@, c as int) == c);
        assert(ws_run_end(data@, tag_start as int) == p);
        assert(tag_name_run_end(data@, name_start as int) == ne);
        if name_len < ne - name_start {
            assert(!(ascii_ws(data@[name_start + name_len]) || data@[name_start + name_len] == 0x2f || data@[name_start + name_len] == 0x3e));
        }
        if name_len > ne - name_start {
            assert(!(ascii_ws(data@[ne as int]) || data@[ne as int] == 0x2f || data@[ne as int] == 0x3e));
        }
        assert(name_len == ne - name_start);
        assert(is_end == (data@[p + 1] == 0x2f));
        assert(name_start == (if is_end { p + 2 } else { p + 1 }));
    }
    Ok(Some(Tag { name_start, name_end: name_start + name_len, attrs_start: a0, attrs_end: a1, is_end, is_self_closing }))
}


/// Whether the `class` attribute of `tag` lists `class_name`.
pub fn tag_has_class(data: &[u8], tag: &Tag, class_name: &[u8]) -> (r: bool)
    requires
        tag.wf(data@.len()),
    ensures
        r == tag.attr_has_token_spec(data@, "class".spec_bytes(), class_name@),
{
    tag.attr_has_token(data, "class".as_bytes(), class_name)
}

/// Whether the non-empty `needle` occurs in `value`.
pub open spec fn contains_seq(value: Seq<u8>, needle: Seq<u8>) -> bool {
    needle.len() > 0 && exists|i: int| #[trigger] occurs_at(value, needle, i)
}

/// Whether the `style` attribute of `tag` contains the non-empty `needle`.
pub open spec fn style_has(data: Seq<u8>, tag: Tag, needle: Seq<u8>) -> bool {
    match tag.attr_spec(data, "style".spec_bytes()) {
        Some((a, b)) => contains_seq(data.subrange(a, b), needle),
        None => false,
    }
}

/// Whether the `style` attribute of `tag` contains `needle`.
pub fn tag_has_style(data: &[u8], tag: &Tag, needle: &[u8]) -> (r: bool)
    requires
        tag.wf(data@.len()),
    ensures
        r == style_has(data@, *tag, needle@),
{
    let key = "style".as_bytes();
    match tag.attr(data, key) {
        Some((a, b)) => {
            let value = slice_range(data, a, b);
            let found = attr_contains_bytes(value, needle);
            assert(found == contains_seq(data@.subrange(a as int, b as int), needle@));
            assert(key@ == "style".spec_bytes());
            assert(tag.attr_spec(data@, "style".spec_bytes()) == Some((a as int, b as int)));
            found
        },
        None => {
            assert(key@ == "style".spec_bytes());
            false
        },
    }
}

/// Whether `tag` lists the class `c`.
pub open spec fn has_class(data: Seq<u8>, tag: Tag, c: &str) -> bool {
    tag.attr_has_token_spec(data, "class".spec_bytes(), c.spec_bytes())
}

/// Whether the inline style of `tag` shows it as a block.
pub open spec fn shown_as_block(data: Seq<u8>, tag: Tag) -> bool {
    style_has(data, tag, "display:block".spec_bytes()) || style_has(data, tag, "display: block".spec_bytes())
}

/// The rules of `tag_is_css_hidden`, in its order.
pub open spec fn css_hidden(data: Seq<u8>, tag: Tag) -> bool {
    if style_has(data, tag, "display:none".spec_bytes()) || style_has(data, tag, "display: none".spec_bytes()) {
        true
    } else if shown_as_block(data, tag) {
        false
    } else if tag.named_spec(data, "aside") || (tag.named_spec(data, "div") && has_class(data, tag, "removeme")) || (
    tag.named_spec(data, "span") && has_class(data, tag, "secret")) || (tag.named_spec(data, "img") && has_class(
        data,
        tag,
        "suppressed",
    )) {
        true
    } else if has_class(data, tag, "hidden") || has_class(data, tag, "invisible") || has_class(data, tag, "hidden-container") {
        !(tag.named_spec(data, "p") && has_class(data, tag, "force-show"))
    } else {
        false
    }
}

/// Whether CSS or the conventions of common EPUB producers hide `tag`: an inline
/// `display: none`, an `aside`, a `removeme` div, a `secret` span, a `suppressed`
/// image, or a `hidden`/`invisible` class that no `force-show` paragraph class or
/// `display: block` overrides.
pub fn tag_is_css_hidden(data: &[u8], tag: &Tag) -> (r: bool)
    requires
        tag.wf(data@.len()),
    ensures
        r == css_hidden(data@, *tag),
{
    if tag_has_style(data, tag, "display:none".as_bytes()) || tag_has_style(data, tag, "display: none".as_bytes()) {
        return true;
    }
    if tag_has_style(data, tag, "display:block".as_bytes()) || tag_has_style(data, tag, "display: block".as_bytes()) {
        return false;
    }
    if tag.name_is(data, "aside") {
        return true;
    }
    if tag.name_is(data, "div") && tag_has_class(data, tag, "removeme".as_bytes()) {
        return true;
    }
    if tag.name_is(data, "span") && tag_has_class(data, tag, "secret".as_bytes()) {
        return true;
    }
    if tag.name_is(data, "img") && tag_has_class(data, tag, "suppressed".as_bytes()) {
        return true;
    }
    if tag_has_class(data, tag, "hidden".as_bytes()) || tag_has_class(data, tag, "invisible".as_bytes())
        || tag_has_class(data, tag, "hidden-container".as_bytes()) {
        return !((tag.name_is(data, "p") && tag_has_class(data, tag, "force-show".as_bytes())) || tag_has_style(
            data,
            tag,
            "display:block".as_bytes(),
        ) || tag_has_style(data, tag, "display: block".as_bytes()));
    }
    false
}

/// Whether `tag` opens a container that is skipped whole: a table-of-contents
/// `nav`, or a title page or cover `body`, `section` or `div`.
pub fn should_fast_skip_container(data: &[u8], tag: &Tag) -> (r: bool)
    requires
        tag.wf(data@.len()),
    ensures
        r == ((tag.named_spec(data@, "nav") && tag.attr_has_token_spec(data@, "type".spec_bytes(), "toc".spec_bytes())) || (
        (tag.named_spec(data@, "body") || tag.named_spec(data@, "section") || tag.named_spec(data@, "div")) && (
        tag.attr_has_token_spec(data@, "type".spec_bytes(), "titlepage".spec_bytes()) || tag.attr_has_token_spec(
            data@,
            "type".spec_bytes(),
            "cover".spec_bytes(),
        )))),
{
    (tag.name_is(data, "nav") && tag.attr_has_token(data, "type".as_bytes(), "toc".as_bytes())) || ((tag.name_is(
        data,
        "body",
    ) || tag.name_is(data, "section") || tag.name_is(data, "div")) && (tag.attr_has_token(
        data,
        "type".as_bytes(),
        "titlepage".as_bytes(),
    ) || tag.attr_has_token(data, "type".as_bytes(), "cover".as_bytes())))
}

/// Skips forward through `data` while inside `depth` nested `tag_name`
/// containers; returns the depth left when `data` runs out or 0 at the closing tag.
pub fn skip_container_fast(data: &[u8], cursor: &mut usize, tag_name: &[u8], depth: u16) -> (r: Result<u16, EpubError>)
    requires
        *old(cursor) <= data@.len(),
    ensures
        *old(cursor) <= *final(cursor) <= data@.len(),
        byte_run_end(data@, *old(cursor) as int, 0x3c) == data@.len() ==> r == Ok::<u16, EpubError>(depth) && *final(cursor)
            == data@.len(),
        r matches Ok(d) ==> d == 0 && depth > 0 ==> *old(cursor) < *final(cursor) && data@[*final(cursor) - 1] == 0x3e,
        r matches Err(e) ==> e == EpubError::InvalidFormat,
{
    let local_name = trim_namespace(tag_name);
    let n = data.len();
    let ghost depth0 = depth;
    let mut level = depth;
    while *cursor < n
        invariant
            n == data@.len(),
            *old(cursor) <= *cursor <= n,
            byte_run_end(data@, *old(cursor) as int, 0x3c) == n ==> *cursor == *old(cursor) && level == depth0,
            depth0 > 0 ==> level > 0,
            depth0 == depth,
        decreases n - *cursor,
    {
        let ghost c_start = *cursor;
        while *cursor < n && data[*cursor] != 0x3cu8
            invariant
                n == data@.len(),
                *old(cursor) <= c_start <= *cursor <= n,
                byte_run_end(data@, c_start as int, 0x3c) == byte_run_end(data@, *cursor as int, 0x3c),
            decreases n - *cursor,
        {
            *cursor = *cursor + 1;
        }
        if *cursor >= n {
            proof {
                assert(byte_run_end(data@, *cursor as int, 0x3c) == n);
            }
            return Ok(level);
        }
        proof {
            assert(byte_run_end(data@, *cursor as int, 0x3c) == *cursor);
        }
        let before = *cursor;
        let tag = match parse_xml_tag(data, cursor) {
            Ok(Some(t)) => t,
            Ok(None) => {
                if *cursor == before {
                    return Ok(level);
                }
                continue;
            },
            Err(e) => return Err(e),
        };
        if eq_ascii_case(trim_namespace(slice_range(data, tag.name_start, tag.name_end)), local_name) {
            if tag.is_end {
                level = if level > 0 { level - 1 } else { 0 };
                if level == 0 {
                    return Ok(0);
                }
            } else if !tag.is_self_closing {
                level = if level < u16::MAX { level + 1 } else { level };
            }
        }
    }
    Ok(level)
}

/// `cols` runs of seven dashes separated by single spaces.
pub open spec fn dash_runs(cols: nat) -> Seq<u8>
    decreases cols,
{
    if cols <= 1 {
        Seq::new(7, |i: int| 0x2du8)
    } else {
        dash_runs((cols - 1) as nat) + seq![0x20u8] + Seq::new(7, |i: int| 0x2du8)
    }
}

/// Writes `b` at `write` and returns the next position.
fn put_byte(buf: &mut [u8], write: usize, b: u8) -> (r: usize)
    requires
        write < old(buf)@.len(),
    ensures
        r == write + 1,
        final(buf)@ == old(buf)@.update(write as int, b),
{
    buf[write] = b;
    write + 1
}

/// Writes `count` copies of `b` from `write` and returns the next position.
fn put_repeat(buf: &mut [u8], write: usize, b: u8, count: usize) -> (r: usize)
    requires
        write + count <= old(buf)@.len(),
    ensures
        r == write + count,
        final(buf)@.len() == old(buf)@.len(),
        final(buf)@.subrange(0, write as int) == old(buf)@.subrange(0, write as int),
        final(buf)@.subrange(write as int, r as int) == Seq::new(count as nat, |i: int| b),
{
    let n = buf.len();
    assert(write + count <= n);
    let end = write + count;
    let mut w = write;
    while w < end
        invariant
            end == write + count,
            write <= w <= write + count,
            write + count <= buf@.len(),
            buf@.len() == old(buf)@.len(),
            buf@.subrange(0, write as int) == old(buf)@.subrange(0, write as int),
            forall|k: int| write <= k < w ==> buf@[k] == b,
        decreases write + count - w,
    {
        proof {
            assert(buf@.update(w as int, b).subrange(0, write as int) =~= buf@.subrange(0, write as int));
        }
        buf[w] = b;
        w += 1;
    }
    assert(buf@.subrange(write as int, w as int) =~= Seq::new(count as nat, |i: int| b));
    w
}

/// The separator row drawn under a table head of `cols` columns in a buffer of
/// `len` bytes: the dash runs, and a space after them when there is room.
pub open spec fn small_separator_bytes(cols: nat, len: nat) -> Seq<u8> {
    let runs = dash_runs(cols);
    if runs.len() < len {
        runs + seq![0x20u8]
    } else {
        runs
    }
}

proof fn lemma_dash_runs(cols: nat)
    requires
        cols >= 1,
    ensures
        dash_runs(cols).len() == cols * 7 + cols - 1,
        forall|i: int| 0 <= i < dash_runs(cols).len() ==> #[trigger] dash_runs(cols)[i] < 0x80,
    decreases cols,
{
    if cols > 1 {
        lemma_dash_runs((cols - 1) as nat);
    }
}

/// The separator row under a table head of `cols` columns, built in `text_buf`.
/// `InvalidFormat` for no columns; `OutOfSpace` when the row does not fit.
pub fn table_small_separator(cols: u8, text_buf: &mut [u8]) -> (r: Result<String, EpubError>)
    ensures
        final(text_buf)@.len() == old(text_buf)@.len(),
        cols == 0 ==> r == Err::<String, EpubError>(EpubError::InvalidFormat),
        cols > 0 && cols * 8 - 1 > old(text_buf)@.len() ==> r == Err::<String, EpubError>(EpubError::OutOfSpace),
        cols > 0 && cols * 8 - 1 <= old(text_buf)@.len() ==> (r matches Ok(s) && s@ == decode_utf8(
            small_separator_bytes(cols as nat, old(text_buf)@.len()),
        )),
{
    let cols = cols as usize;
    if cols == 0 {
        return Err(EpubError::InvalidFormat);
    }
    let needed = cols * 7 + (cols - 1);
    if needed > text_buf.len() {
        return Err(EpubError::OutOfSpace);
    }
    let mut write: usize = 0;
    let mut idx: usize = 0;
    while idx < cols
        invariant
            1 <= cols <= 255,
            idx <= cols,
            needed == cols * 7 + cols - 1,
            needed <= text_buf@.len(),
            text_buf@.len() == old(text_buf)@.len(),
            idx == 0 ==> write == 0,
            idx > 0 ==> write == idx * 8 - 1 && text_buf@.subrange(0, write as int) == dash_runs(idx as nat),
        decreases cols - idx,
    {
        let ghost prev = text_buf@.subrange(0, write as int);
        if idx > 0 {
            write = put_byte(text_buf, write, 0x20u8);
        }
        let w2 = put_repeat(text_buf, write, 0x2du8, 7);
        proof {
            if idx > 0 {
                assert(text_buf@.subrange(0, w2 as int) =~= prev + seq![0x20u8] + Seq::new(7, |i: int| 0x2du8));
            } else {
                assert(text_buf@.subrange(0, w2 as int) =~= Seq::new(7, |i: int| 0x2du8));
            }
        }
        write = w2;
        idx += 1;
    }
    if write < text_buf.len() {
        write = put_byte(text_buf, write, 0x20u8);
    }
    let written = slice_range(text_buf, 0, write);
    proof {
        lemma_dash_runs(cols as nat);
        assert(written@ =~= small_separator_bytes(cols as nat, old(text_buf)@.len()));
        lemma_ascii_valid_utf8(written@);
    }
    text_of(written)
}

/// The border drawn before a table body without a head, in a buffer of `len`
/// bytes: 95 dashes, a space, 664 dashes, and a space when there is room.
pub open spec fn big_border_bytes(len: nat) -> Seq<u8> {
    let border = Seq::new(95, |i: int| 0x2du8) + seq![0x20u8] + Seq::new(664, |i: int| 0x2du8);
    if border.len() < len {
        border + seq![0x20u8]
    } else {
        border
    }
}

/// The border before a table body without a head, built in `text_buf`;
/// `OutOfSpace` when it does not fit.
pub fn table_big_border(text_buf: &mut [u8]) -> (r: Result<String, EpubError>)
    ensures
        final(text_buf)@.len() == old(text_buf)@.len(),
        old(text_buf)@.len() < 760 ==> r == Err::<String, EpubError>(EpubError::OutOfSpace),
        old(text_buf)@.len() >= 760 ==> (r matches Ok(s) && s@ == decode_utf8(big_border_bytes(old(text_buf)@.len()))),
{
    if 760 > text_buf.len() {
        return Err(EpubError::OutOfSpace);
    }
    let w1 = put_repeat(text_buf, 0, 0x2du8, 95);
    let ghost a = text_buf@.subrange(0, 95);
    let w2 = put_byte(text_buf, w1, 0x20u8);
    let ghost b = text_buf@.subrange(0, 96);
    assert(b =~= a + seq![0x20u8]);
    let w3 = put_repeat(text_buf, w2, 0x2du8, 664);
    assert(text_buf@.subrange(0, 760) =~= b + Seq::new(664, |i: int| 0x2du8));
    let mut write = w3;
    if write < text_buf.len() {
        write = put_byte(text_buf, write, 0x20u8);
    }
    let written = slice_range(text_buf, 0, write);
    proof {
        assert(written@ =~= big_border_bytes(old(text_buf)@.len()));
        assert forall|i: int| 0 <= i < written@.len() implies #[trigger] written@[i] < 0x80 by {}
        lemma_ascii_valid_utf8(written@);
    }
    text_of(written)
}


/// Walks `k` length-prefixed entries of a spine catalog from `cursor`: the
/// position after them, or `None` where a length or an entry is cut short.
pub open spec fn catalog_walk(c: Seq<u8>, cursor: int, k: nat) -> Option<int>
    decreases k,
{
    if k == 0 {
        Some(cursor)
    } else if cursor + 2 > c.len() {
        None
    } else if cursor + 2 + le16(c, cursor) > c.len() {
        None
    } else {
        catalog_walk(c, cursor + 2 + le16(c, cursor), (k - 1) as nat)
    }
}

/// Where spine entry `index` of the catalog `c` lies: its start and length.
pub open spec fn spine_entry_spec(c: Seq<u8>, index: u16) -> Option<(int, int)> {
    if c.len() < 2 || index >= le16(c, 0) {
        None
    } else {
        match catalog_walk(c, 2, index as nat) {
            None => None,
            Some(p) => if p + 2 <= c.len() && p + 2 + le16(c, p) <= c.len() {
                Some((p + 2, le16(c, p) as int))
            } else {
                None
            },
        }
    }
}

/// A spine catalog that announces `count` entries, all of which can be walked.
pub open spec fn catalog_valid(c: Seq<u8>, count: u16) -> bool {
    &&& c.len() >= 2
    &&& le16(c, 0) == count
    &&& catalog_walk(c, 2, count as nat) is Some
}

/// Reads where spine entry `index` lies in the catalog built by `parse_opf`.
pub fn read_spine_entry(catalog: &[u8], index: u16) -> (r: Result<(usize, usize), EpubError>)
    ensures
        r matches Ok((s, l)) ==> s + l <= catalog.len(),
        match spine_entry_spec(catalog@, index) {
            Some((s, l)) => r == Ok::<(usize, usize), EpubError>((s as usize, l as usize)),
            None => r == Err::<(usize, usize), EpubError>(EpubError::InvalidFormat),
        },
{
    if catalog.len() < 2 {
        return Err(EpubError::InvalidFormat);
    }
    let count = u16_at(catalog, 0);
    if index >= count {
        return Err(EpubError::InvalidFormat);
    }
    let n = catalog.len();
    let mut cursor: usize = 2;
    let mut i: u16 = 0;
    while i < index
        invariant
            n == catalog@.len(),
            i <= index,
            cursor <= n,
            catalog_walk(catalog@, 2, index as nat) == catalog_walk(catalog@, cursor as int, (index - i) as nat),
        decreases index - i,
    {
        if n - cursor < 2 {
            return Err(EpubError::InvalidFormat);
        }
        let len = u16_at(catalog, cursor) as usize;
        if len > n - cursor - 2 {
            return Err(EpubError::InvalidFormat);
        }
        cursor = cursor + 2 + len;
        i += 1;
    }
    if n - cursor < 2 {
        return Err(EpubError::InvalidFormat);
    }
    let len = u16_at(catalog, cursor) as usize;
    let start = cursor + 2;
    if len > n - start {
        return Err(EpubError::InvalidFormat);
    }
    Ok((start, len))
}

/// A walk only reads the bytes between where it starts and where it ends.
pub proof fn lemma_catalog_walk_frame(c1: Seq<u8>, c2: Seq<u8>, lo: int, cursor: int, k: nat, w: int)
    requires
        catalog_walk(c1, cursor, k) matches Some(p) && p <= w,
        0 <= lo <= cursor,
        w <= c1.len(),
        w <= c2.len(),
        forall|i: int| lo <= i < w ==> c1[i] == c2[i],
    ensures
        catalog_walk(c2, cursor, k) == catalog_walk(c1, cursor, k),
    decreases k,
{
    if k > 0 {
        lemma_catalog_walk_monotone(c1, cursor + 2 + le16(c1, cursor), (k - 1) as nat);
        lemma_catalog_walk_frame(c1, c2, lo, cursor + 2 + le16(c1, cursor), (k - 1) as nat, w);
    }
}

/// A walk ends at or after where it starts.
pub proof fn lemma_catalog_walk_monotone(c: Seq<u8>, cursor: int, k: nat)
    ensures
        catalog_walk(c, cursor, k) matches Some(p) ==> p >= cursor && p <= c.len() || k == 0,
    decreases k,
{
    if k > 0 && cursor + 2 <= c.len() && cursor + 2 + le16(c, cursor) <= c.len() {
        lemma_catalog_walk_monotone(c, cursor + 2 + le16(c, cursor), (k - 1) as nat);
    }
}

/// One more entry after a walk of `k` entries.
pub proof fn lemma_catalog_walk_extend(c: Seq<u8>, cursor: int, k: nat, p: int)
    requires
        catalog_walk(c, cursor, k) == Some(p),
        p + 2 <= c.len(),
        p + 2 + le16(c, p) <= c.len(),
    ensures
        catalog_walk(c, cursor, k + 1) == Some(p + 2 + le16(c, p)),
    decreases k,
{
    if k > 0 {
        lemma_catalog_walk_extend(c, cursor + 2 + le16(c, cursor), (k - 1) as nat, p);
        assert(catalog_walk(c, cursor, k + 1) == catalog_walk(c, cursor + 2 + le16(c, cursor), k));
    } else {
        assert(catalog_walk(c, p + 2 + le16(c, p), 0) == Some(p + 2 + le16(c, p)));
        assert(catalog_walk(c, cursor, 1) == catalog_walk(c, cursor + 2 + le16(c, cursor), 0));
    }
}

/// Every spine index below the count of a valid catalog can be read back.
pub proof fn lemma_spine_entries_readable(c: Seq<u8>, count: u16, index: u16)
    requires
        catalog_valid(c, count),
        index < count,
    ensures
        spine_entry_spec(c, index) is Some,
{
    lemma_catalog_walk_prefix(c, 2, index as nat, count as nat);
}

/// A walk that completes `k` entries completes every shorter walk, with room for
/// the next entry.
proof fn lemma_catalog_walk_prefix(c: Seq<u8>, cursor: int, j: nat, k: nat)
    requires
        j < k,
        catalog_walk(c, cursor, k) is Some,
    ensures
        catalog_walk(c, cursor, j) matches Some(p) && p + 2 <= c.len() && p + 2 + le16(c, p) <= c.len(),
    decreases j,
{
    if j > 0 {
        lemma_catalog_walk_prefix(c, cursor + 2 + le16(c, cursor), (j - 1) as nat, (k - 1) as nat);
    }
}


/// A zero-filled buffer of `n` bytes.
pub fn zeroed(n: usize) -> (r: Vec<u8>)
    ensures
        r@.len() == n,
        forall|i: int| 0 <= i < n ==> r@[i] == 0,
{
    let mut v: Vec<u8> = Vec::new();
    let mut i: usize = 0;
    while i < n
        invariant
            i <= n,
            v@.len() == i,
            forall|j: int| 0 <= j < i ==> v@[j] == 0,
        decreases n - i,
    {
        v.push(0u8);
        i += 1;
    }
    v
}

/// Finds the `full-path` of the first `rootfile` element of `container.xml`:
/// its start and length. `InvalidFormat` when there is none, or when a tag is
/// left unclosed before it.
pub fn parse_container_root(container: &[u8]) -> (r: Result<(usize, usize), EpubError>)
    ensures
        r matches Ok((s, l)) ==> s + l <= container@.len(),
        r matches Err(e) ==> e == EpubError::InvalidFormat,
        r matches Ok((s, l)) ==> exists|t: Tag| #![trigger t.attr_spec(container@, "full-path".spec_bytes())] {
            &&& t.wf(container@.len())
            &&& !t.is_end
            &&& t.named_spec(container@, "rootfile")
            &&& t.attr_spec(container@, "full-path".spec_bytes()) == Some((s as int, s + l))
        },
{
    let n = container.len();
    let mut cursor: usize = 0;
    while cursor < n
        invariant
            n == container@.len(),
            cursor <= n,
        decreases n - cursor,
    {
        if container[cursor] != 0x3cu8 {
            cursor += 1;
            continue;
        }
        let before = cursor;
        match parse_xml_tag(container, &mut cursor) {
            Ok(Some(tag)) => {
                if !tag.is_end && tag.name_is(container, "rootfile") {
                    match tag.attr(container, "full-path".as_bytes()) {
                        Some((a, b)) => {
                            assert(tag.attr_spec(container@, "full-path".spec_bytes()) == Some((a as int, a + (b - a))));
                            return Ok((a, b - a));
                        },
                        None => {},
                    }
                }
            },
            Ok(None) => {
                if cursor == before {
                    return Err(EpubError::InvalidFormat);
                }
            },
            Err(e) => return Err(e),
        }
    }
    Err(EpubError::InvalidFormat)
}

/// Where a manifest item's `href` and `media-type` values lie in the package document.
#[derive(Clone, Copy)]
pub struct ManifestItem {
    pub href_len: u16,
    pub href_start: usize,
    pub media_start: usize,
    pub media_end: usize,
}

/// Finds the manifest `item` whose `id` is `idref`; an item without `href` is
/// `InvalidFormat`, as is the lack of such an item.
pub fn manifest_item_for_id(opf: &[u8], idref: &[u8]) -> (r: Result<ManifestItem, EpubError>)
    ensures
        r matches Ok(item) ==> item.href_start + item.href_len <= opf@.len() && item.media_start <= item.media_end
            <= opf@.len(),
        r matches Err(e) ==> e == EpubError::InvalidFormat || e == EpubError::OutOfSpace,
        r matches Ok(item) ==> exists|t: Tag| #![trigger t.attr_spec(opf@, "href".spec_bytes())] {
            &&& t.wf(opf@.len())
            &&& !t.is_end
            &&& t.named_spec(opf@, "item")
            &&& (t.attr_spec(opf@, "id".spec_bytes()) matches Some((a, b)) && opf@.subrange(a, b) == idref@)
            &&& t.attr_spec(opf@, "href".spec_bytes()) == Some((item.href_start as int, item.href_start + item.href_len))
            &&& (match t.attr_spec(opf@, "media-type".spec_bytes()) {
                Some((a, b)) if a != b => item.media_start == a && item.media_end == b,
                _ => item.media_start == item.href_start && item.media_end == item.href_start,
            })
        },
{
    let n = opf.len();
    let mut cursor: usize = 0;
    while cursor < n
        invariant
            n == opf@.len(),
            cursor <= n,
        decreases n - cursor,
    {
        if opf[cursor] != 0x3cu8 {
            cursor += 1;
            continue;
        }
        let before = cursor;
        match parse_xml_tag(opf, &mut cursor) {
            Ok(Some(tag)) => {
                if !tag.is_end && tag.name_is(opf, "item") {
                    match tag.attr(opf, "id".as_bytes()) {
                        Some((ia, ib)) => {
                            if attr_eq(slice_range(opf, ia, ib), idref) {
                                let (ha, hb) = match tag.attr(opf, "href".as_bytes()) {
                                    Some(h) => h,
                                    None => return Err(EpubError::InvalidFormat),
                                };
                                let (ma, mb) = match tag.attr(opf, "media-type".as_bytes()) {
                                    Some(m) => m,
                                    None => (ha, ha),
                                };
                                let (ms, me) = if ma == mb { (ha, ha) } else { (ma, mb) };
                                if hb - ha > 65535 {
                                    return Err(EpubError::OutOfSpace);
                                }
                                assert(tag.attr_spec(opf@, "href".spec_bytes()) == Some((ha as int, ha + ((hb - ha) as u16))));
                                return Ok(
                                    ManifestItem {
                                        href_len: (hb - ha) as u16,
                                        href_start: ha,
                                        media_start: ms,
                                        media_end: me,
                                    },
                                );
                            }
                        },
                        None => {},
                    }
                }
            },
            Ok(None) => {
                if cursor == before {
                    return Err(EpubError::InvalidFormat);
                }
            },
            Err(e) => return Err(e),
        }
    }
    Err(EpubError::InvalidFormat)
}

/// Writes the little-endian `u16` `v` at `at`.
fn put_u16(buf: &mut [u8], at: usize, v: u16)
    requires
        at + 2 <= old(buf)@.len(),
    ensures
        final(buf)@.len() == old(buf)@.len(),
        le16(final(buf)@, at as int) == v,
        forall|i: int| 0 <= i < old(buf)@.len() && i != at && i != at + 1 ==> final(buf)@[i] == old(buf)@[i],
{
    buf[at] = (v % 256) as u8;
    buf[at + 1] = (v / 256) as u8;
}

/// Builds the spine catalog of the package document `opf` found at `opf_path`:
/// for each linear `itemref` whose manifest item is XHTML, the item's `href`
/// resolved against the package's directory, length-prefixed, after a count.
pub fn parse_opf(opf: &[u8], opf_path: &[u8], catalog: &mut [u8]) -> (r: Result<u16, EpubError>)
    ensures
        final(catalog)@.len() == old(catalog)@.len(),
        r matches Ok(count) ==> catalog_valid(final(catalog)@, count),
        old(catalog)@.len() < 2 ==> r == Err::<u16, EpubError>(EpubError::OutOfSpace),
{
    if catalog.len() < 2 {
        return Err(EpubError::OutOfSpace);
    }
    let cn = catalog.len();
    let mut write: usize = 2;
    let mut count: u16 = 0;
    let ghost mut wp: int = 2;
    let opf_base = path_parent(opf_path);
    let n = opf.len();
    let mut cursor: usize = 0;
    let mut tmp = zeroed(MAX_CHAPTER_DIR_BYTES);
    while cursor < n
        invariant
            n == opf@.len(),
            cursor <= n,
            cn == catalog@.len(),
            catalog@.len() == old(catalog)@.len(),
            2 <= wp <= write <= cn,
            count < 65535 ==> wp == write,
            catalog_walk(catalog@, 2, count as nat) == Some(wp),
            tmp@.len() == MAX_CHAPTER_DIR_BYTES,
        decreases n - cursor,
    {
        if opf[cursor] != 0x3cu8 {
            cursor += 1;
            continue;
        }
        let before = cursor;
        let tag = match parse_xml_tag(opf, &mut cursor) {
            Ok(Some(tag)) => tag,
            Ok(None) => {
                if cursor == before {
                    return Err(EpubError::InvalidFormat);
                }
                continue;
            },
            Err(e) => return Err(e),
        };
        if tag.is_end || !tag.name_is(opf, "itemref") {
            continue;
        }
        match tag.attr(opf, "linear".as_bytes()) {
            Some((la, lb)) => {
                if attr_eq(slice_range(opf, la, lb), "no".as_bytes()) {
                    continue;
                }
            },
            None => {},
        }
        let (ia, ib) = match tag.attr(opf, "idref".as_bytes()) {
            Some(v) => v,
            None => return Err(EpubError::InvalidFormat),
        };
        let item = match manifest_item_for_id(opf, slice_range(opf, ia, ib)) {
            Ok(item) => item,
            Err(e) => return Err(e),
        };
        let media_type = slice_range(opf, item.media_start, item.media_end);
        if !attr_eq(media_type, "application/xhtml+xml".as_bytes()) {
            continue;
        }
        let href = slice_range(opf, item.href_start, item.href_start + item.href_len as usize);
        let resolved_len = match resolve_reference(opf_base, href, tmp.as_mut_slice()) {
            Ok(v) => v,
            Err(e) => return Err(e),
        };
        if resolved_len > cn - write || cn - write - resolved_len < 2 {
            return Err(EpubError::OutOfSpace);
        }
        let ghost before_write = catalog@;
        put_u16(catalog, write, resolved_len as u16);
        let mut i: usize = 0;
        while i < resolved_len
            invariant
                write + 2 + resolved_len <= cn,
                cn == catalog@.len(),
                i <= resolved_len,
                resolved_len <= tmp@.len(),
                le16(catalog@, write as int) == resolved_len,
                forall|k: int| 0 <= k < write ==> catalog@[k] == before_write[k],
            decreases resolved_len - i,
        {
            catalog[write + 2 + i] = tmp[i];
            i += 1;
        }
        proof {
            lemma_catalog_walk_monotone(before_write, 2, count as nat);
            lemma_catalog_walk_frame(before_write, catalog@, 2, 2, count as nat, write as int);
            if count < 65535 {
                lemma_catalog_walk_extend(catalog@, 2, count as nat, write as int);
                wp = write + 2 + resolved_len;
            }
        }
        write = write + 2 + resolved_len;
        if count < 65535 {
            count = count + 1;
        }
    }
    let ghost before_count = catalog@;
    put_u16(catalog, 0, count);
    proof {
        lemma_catalog_walk_frame(before_count, catalog@, 2, 2, count as nat, wp);
    }
    Ok(count)
}


/// A reading event of a chapter.
#[derive(Debug)]
pub enum EpubEvent {
    Text(String),
    ParagraphStart,
    ParagraphEnd,
    HeadingStart(u8),
    HeadingEnd,
    LineBreak,
    Image { src: String, alt: Option<String> },
    UnsupportedTag,
}

/// The reader's position in the book and in the markup of the current chapter.
#[derive(Debug)]
pub struct ParserState {
    pub catalog_ready: bool,
    pub spine_count: u16,
    pub spine_index: u16,
    pub chapter_loaded: bool,
    pub chapter_finished: bool,
    pub chapter_entry: Option<EpubEntryMetadata>,
    pub chapter_len: usize,
    pub cursor: usize,
    pub input_len: usize,
    pub input_cursor: usize,
    pub compressed_read: usize,
    pub in_paragraph: bool,
    pub in_heading: u8,
    pub in_pre: bool,
    pub chapter_is_nav_doc: bool,
    pub nav_suppress_outside: bool,
    pub nav_visible_depth: u8,
    pub prev_space: bool,
    pub last_nonspace_char: Option<u8>,
    pub ignore_depth: u8,
    pub skip_tag_depth: u16,
    pub skip_tag_name_len: u8,
    pub skip_tag_name: Vec<u8>,
    pub list_depth: u8,
    pub list_ordered: Vec<bool>,
    pub list_items: Vec<u16>,
    pub table_in_head: bool,
    pub table_has_head: bool,
    pub table_row_cols: u8,
    pub chapter_dir_len: usize,
    pub chapter_dir: Vec<u8>,
    pub done: bool,
}

impl ParserState {
    /// The fixed buffers have their sizes and the counts index into them.
    pub open spec fn wf(&self) -> bool {
        &&& self.skip_tag_name@.len() == 8
        &&& self.skip_tag_name_len <= 8
        &&& self.list_ordered@.len() == 8
        &&& self.list_items@.len() == 8
        &&& self.list_depth <= 8
        &&& self.chapter_dir@.len() == MAX_CHAPTER_DIR_BYTES
        &&& self.chapter_dir_len <= MAX_CHAPTER_DIR_BYTES
    }

    /// The state of a book not yet opened: nothing read, nothing loaded.
    pub open spec fn initial(&self) -> bool {
        &&& self.wf()
        &&& !self.catalog_ready
        &&& self.spine_count == 0
        &&& self.spine_index == 0
        &&& !self.chapter_loaded
        &&& !self.chapter_finished
        &&& self.chapter_entry is None
        &&& self.chapter_len == 0
        &&& self.cursor == 0
        &&& self.input_len == 0
        &&& self.input_cursor == 0
        &&& !self.done
    }
}

/// A vector of `n` copies of `v`.
fn filled_bools(n: usize, v: bool) -> (r: Vec<bool>)
    ensures
        r@.len() == n,
        forall|i: int| 0 <= i < n ==> r@[i] == v,
{
    let mut out: Vec<bool> = Vec::new();
    let mut i: usize = 0;
    while i < n
        invariant
            i <= n,
            out@.len() == i,
            forall|j: int| 0 <= j < i ==> out@[j] == v,
        decreases n - i,
    {
        out.push(v);
        i += 1;
    }
    out
}

/// A vector of `n` zeros.
fn zeroed_u16(n: usize) -> (r: Vec<u16>)
    ensures
        r@.len() == n,
        forall|i: int| 0 <= i < n ==> r@[i] == 0,
{
    let mut out: Vec<u16> = Vec::new();
    let mut i: usize = 0;
    while i < n
        invariant
            i <= n,
            out@.len() == i,
            forall|j: int| 0 <= j < i ==> out@[j] == 0,
        decreases n - i,
    {
        out.push(0u16);
        i += 1;
    }
    out
}

impl Default for ParserState {
    fn default() -> (r: Self)
        ensures
            r.initial(),
    {
        ParserState {
            catalog_ready: false,
            spine_count: 0,
            spine_index: 0,
            chapter_loaded: false,
            chapter_finished: false,
            chapter_entry: None,
            chapter_len: 0,
            cursor: 0,
            input_len: 0,
            input_cursor: 0,
            compressed_read: 0,
            in_paragraph: false,
            in_heading: 0,
            in_pre: false,
            chapter_is_nav_doc: false,
            nav_suppress_outside: false,
            nav_visible_depth: 0,
            prev_space: false,
            last_nonspace_char: None,
            ignore_depth: 0,
            skip_tag_depth: 0,
            skip_tag_name_len: 0,
            skip_tag_name: zeroed(8),
            list_depth: 0,
            list_ordered: filled_bools(8, false),
            list_items: zeroed_u16(8),
            table_in_head: false,
            table_has_head: false,
            table_row_cols: 0,
            chapter_dir_len: 0,
            chapter_dir: zeroed(MAX_CHAPTER_DIR_BYTES),
            done: false,
        }
    }
}

/// Whether `pat` occurs in `data` at `at`.
fn matches_at(data: &[u8], at: usize, pat: &[u8]) -> (r: bool)
    requires
        at <= data@.len(),
    ensures
        r == (at + pat@.len() <= data@.len() && data@.subrange(at as int, at + pat@.len()) == pat@),
{
    if pat.len() > data.len() - at {
        return false;
    }
    crate::zip::bytes_eq(slice_range(data, at, at + pat.len()), pat)
}

/// Whether the tail of `data` from `at` is a proper start of `pat`.
fn tail_is_prefix_of(data: &[u8], at: usize, pat: &[u8]) -> (r: bool)
    requires
        at <= data@.len(),
    ensures
        r == (data@.len() - at < pat@.len() && pat@.subrange(0, data@.len() - at) == data@.subrange(
            at as int,
            data@.len() as int,
        )),
{
    let rest = data.len() - at;
    if rest >= pat.len() {
        return false;
    }
    crate::zip::bytes_eq(slice_range(pat, 0, rest), slice_range(data, at, data.len()))
}

/// Whether `b` is an ASCII capital letter.
fn is_upper(b: u8) -> (r: bool)
    ensures
        r == (0x41 <= b <= 0x5a),
{
    0x41u8 <= b && b <= 0x5au8
}

/// Appends `b` to `out` at `*out_len`, or `OutOfSpace`.
fn push_out(out: &mut [u8], out_len: &mut usize, b: u8) -> (r: Result<(), EpubError>)
    requires
        *old(out_len) <= old(out)@.len(),
    ensures
        final(out)@.len() == old(out)@.len(),
        *final(out_len) <= final(out)@.len(),
        r is Ok <==> *old(out_len) < old(out)@.len(),
        r is Ok ==> *final(out_len) == *old(out_len) + 1 && final(out)@.subrange(0, *final(out_len) as int)
            == old(out)@.subrange(0, *old(out_len) as int).push(b),
        r matches Err(e) ==> e == EpubError::OutOfSpace,
{
    if *out_len >= out.len() {
        return Err(EpubError::OutOfSpace);
    }
    let at = *out_len;
    out[at] = b;
    *out_len = at + 1;
    assert(out@.subrange(0, at + 1) =~= old(out)@.subrange(0, at as int).push(b));
    Ok(())
}

/// The first position at or after `from` holding `b`, or the length of `data`.
fn find_byte_from(data: &[u8], from: usize, b: u8) -> (r: usize)
    requires
        from <= data@.len(),
    ensures
        from <= r <= data@.len(),
        r < data@.len() ==> data@[r as int] == b,
        forall|i: int| from <= i < r ==> data@[i] != b,
{
    let mut end = from;
    while end < data.len() && data[end] != b
        invariant
            from <= end <= data@.len(),
            forall|i: int| from <= i < end ==> data@[i] != b,
        decreases data@.len() - end,
    {
        end += 1;
    }
    end
}

/// The first position at or after `from` that is not an ASCII space byte.
fn skip_spaces_from(data: &[u8], from: usize) -> (r: usize)
    requires
        from <= data@.len(),
    ensures
        from <= r <= data@.len(),
        forall|i: int| from <= i < r ==> text_space(#[trigger] data@[i]),
        r < data@.len() ==> !text_space(data@[r as int]),
{
    let mut end = from;
    while end < data.len() && is_space(data[end])
        invariant
            from <= end <= data@.len(),
            forall|i: int| from <= i < end ==> text_space(#[trigger] data@[i]),
        decreases data@.len() - end,
    {
        end += 1;
    }
    end
}

/// Appends the first `len` bytes of `src` to the written prefix of `out`.
fn append_prefix(out: &mut [u8], out_len: &mut usize, src: &[u8], len: usize) -> (r: Result<(), EpubError>)
    requires
        *old(out_len) <= old(out)@.len(),
        len <= src@.len(),
    ensures
        final(out)@.len() == old(out)@.len(),
        r is Ok <==> *old(out_len) + len <= old(out)@.len(),
        r is Ok ==> *final(out_len) == *old(out_len) + len,
        r is Err ==> *final(out_len) == *old(out_len),
        *final(out_len) <= final(out)@.len(),
        r matches Err(e) ==> e == EpubError::OutOfSpace,
{
    if len > out.len() - *out_len {
        return Err(EpubError::OutOfSpace);
    }
    let start = *out_len;
    let mut k: usize = 0;
    while k < len
        invariant
            k <= len,
            len <= src@.len(),
            start + len <= out@.len(),
            start + len <= out.len(),
            out@.len() == old(out)@.len(),
        decreases len - k,
    {
        out[start + k] = src[k];
        k += 1;
    }
    *out_len = start + len;
    Ok(())
}

/// The text at the cursor starts with an ASCII letter and is read as text, not
/// skipped.
pub open spec fn starts_plain_text(data: Seq<u8>, state: ParserState) -> bool {
    &&& state.ignore_depth == 0
    &&& !(state.chapter_is_nav_doc && state.nav_suppress_outside && state.nav_visible_depth == 0)
    &&& state.cursor < data.len()
    &&& ((0x41 <= data[state.cursor as int] <= 0x5a) || (0x61 <= data[state.cursor as int] <= 0x7a))
}

/// Whether `b` is an ASCII letter or digit.
pub open spec fn is_word_byte(b: u8) -> bool {
    (0x30 <= b <= 0x39) || (0x41 <= b <= 0x5a) || (0x61 <= b <= 0x7a)
}

/// The text from `c` up to the next tag holds ASCII letters and digits only.
pub open spec fn plain_word_run(data: Seq<u8>, c: int) -> bool {
    forall|i: int| c <= i < byte_run_end(data, c, 0x3c) ==> is_word_byte(#[trigger] data[i])
}

/// The characters of the ASCII bytes `b`, one for each byte.
pub open spec fn ascii_chars(b: Seq<u8>) -> Seq<char> {
    b.map_values(|x: u8| x as char)
}

/// A run of bytes other than `b` ends at `b` or at the end of `s`.
proof fn lemma_run_stops(s: Seq<u8>, c: int, b: u8)
    requires
        0 <= c <= s.len(),
    ensures
        byte_run_end(s, c, b) < s.len() ==> s[byte_run_end(s, c, b)] == b,
        forall|i: int| c <= i < byte_run_end(s, c, b) ==> #[trigger] s[i] != b,
    decreases s.len() - c,
{
    if c < s.len() && s[c] != b {
        lemma_run_stops(s, c + 1, b);
    }
}

/// ASCII bytes are valid UTF-8 and decode to one character each.
proof fn lemma_ascii_decode(b: Seq<u8>)
    requires
        forall|i: int| 0 <= i < b.len() ==> #[trigger] b[i] < 0x80,
    ensures
        valid_utf8(b),
        decode_utf8(b) == ascii_chars(b),
{
    let cs = ascii_chars(b);
    assert(vstd::utf8::is_ascii_chars(cs));
    vstd::utf8::is_ascii_chars_encode_utf8(cs);
    assert forall|i: int| 0 <= i < b.len() implies vstd::utf8::encode_utf8(cs)[i] == b[i] by {
        assert(cs[i] == b[i] as char);
        assert(cs[i] as u8 == vstd::utf8::encode_utf8(cs)[i]);
    }
    assert(vstd::utf8::encode_utf8(cs) =~= b);
    vstd::utf8::encode_utf8_valid_utf8(cs);
    vstd::utf8::encode_utf8_decode_utf8(cs);
}

/// Reads the run of text at `state.cursor` up to the next tag into `out`, with
/// whitespace collapsed outside `pre`, entities decoded, `[HIDDEN]` markers
/// dropped and the space between capital initials such as `J. K.` removed.
/// Text inside an ignored container, or outside the visible `nav` of a
/// navigation document, is skipped without an event.
#[verifier::rlimit(50)]
pub fn parse_text(data: &[u8], state: &mut ParserState, out: &mut [u8]) -> (r: Result<Option<String>, EpubError>)
    requires
        old(state).cursor <= data@.len(),
        old(state).wf(),
    ensures
        final(state).chapter_len == old(state).chapter_len,
        final(state).input_len == old(state).input_len,
        final(state).input_cursor == old(state).input_cursor,
        final(state).wf(),
        old(state).cursor <= final(state).cursor <= data@.len(),
        final(out)@.len() == old(out)@.len(),
        old(state).ignore_depth > 0 ==> r matches Ok(None),
        r matches Ok(Some(t)) ==> final(state).cursor > old(state).cursor,
        final(state).ignore_depth == old(state).ignore_depth,
        final(state).in_pre == old(state).in_pre,
        final(state).in_paragraph == old(state).in_paragraph,
        final(state).list_depth == old(state).list_depth,
        final(state).skip_tag_depth == old(state).skip_tag_depth,
        old(state).ignore_depth > 0 ==> final(state).cursor == byte_run_end(data@, old(state).cursor as int, 0x3c),
        starts_plain_text(data@, *old(state)) && old(out)@.len() > 0 ==> !(r matches Ok(None)),
        starts_plain_text(data@, *old(state)) && plain_word_run(data@, old(state).cursor as int) && byte_run_end(
            data@,
            old(state).cursor as int,
            0x3c,
        ) - old(state).cursor <= old(out)@.len() ==> {
            &&& r matches Ok(Some(t))
            &&& t@ == ascii_chars(data@.subrange(old(state).cursor as int, byte_run_end(data@, old(state).cursor as int, 0x3c)))
            &&& final(state).cursor == byte_run_end(data@, old(state).cursor as int, 0x3c)
        },
{
    let n = data.len();
    let ghost start = old(state).cursor as int;
    let ghost run_end = byte_run_end(data@, start, 0x3c);
    let ghost plain = starts_plain_text(data@, *old(state)) && plain_word_run(data@, start) && run_end - start <= old(
        out,
    )@.len();
    proof {
        lemma_run_ends(data@, start, 0x3c);
        lemma_run_stops(data@, start, 0x3c);
    }
    if state.ignore_depth > 0 || (state.chapter_is_nav_doc && state.nav_suppress_outside && state.nav_visible_depth == 0) {
        while state.cursor < n && data[state.cursor] != 0x3cu8
            invariant
                n == data@.len(),
                old(state).cursor <= state.cursor <= n,
                state.wf(),
                state.ignore_depth == old(state).ignore_depth,
                state.in_pre == old(state).in_pre,
                state.in_paragraph == old(state).in_paragraph,
                state.list_depth == old(state).list_depth,
                state.skip_tag_depth == old(state).skip_tag_depth,
                state.chapter_len == old(state).chapter_len,
                state.input_len == old(state).input_len,
                state.input_cursor == old(state).input_cursor,
                old(state).ignore_depth > 0 || true,
                byte_run_end(data@, old(state).cursor as int, 0x3c) == byte_run_end(data@, state.cursor as int, 0x3c),
            decreases n - state.cursor,
        {
            state.cursor = state.cursor + 1;
        }
        return Ok(None);
    }
    let hidden: [u8; 8] = [0x5b, 0x48, 0x49, 0x44, 0x44, 0x45, 0x4e, 0x5d];
    let mut out_len: usize = 0;
    let mut did_write = false;
    while state.cursor < n
        invariant
            n == data@.len(),
            old(state).cursor <= state.cursor <= n,
            out_len <= out@.len(),
            out@.len() == old(out)@.len(),
            state.wf(),
            old(state).ignore_depth == 0,
            state.ignore_depth == old(state).ignore_depth,
            state.in_pre == old(state).in_pre,
            state.in_paragraph == old(state).in_paragraph,
            state.list_depth == old(state).list_depth,
            state.skip_tag_depth == old(state).skip_tag_depth,
            state.chapter_len == old(state).chapter_len,
            state.input_len == old(state).input_len,
            state.input_cursor == old(state).input_cursor,
            did_write ==> state.cursor > old(state).cursor,
            starts_plain_text(data@, *old(state)) && old(out)@.len() > 0 ==> did_write || state.cursor == old(state).cursor,
            hidden@.len() == 8,
            hidden@[0] == 0x5bu8,
            start == old(state).cursor,
            run_end == byte_run_end(data@, start, 0x3c),
            start <= run_end <= n,
            run_end < n ==> data@[run_end] == 0x3c,
            forall|i: int| start <= i < run_end ==> #[trigger] data@[i] != 0x3c,
            plain == (starts_plain_text(data@, *old(state)) && plain_word_run(data@, start) && run_end - start <= old(
                out,
            )@.len()),
            plain ==> state.cursor <= run_end && out_len == state.cursor - start && out@.subrange(0, out_len as int)
                == data@.subrange(start, state.cursor as int),
        ensures
            starts_plain_text(data@, *old(state)) && old(out)@.len() > 0 ==> did_write,
            plain ==> state.cursor == run_end && out_len == run_end - start && out@.subrange(0, out_len as int)
                == data@.subrange(start, run_end),
        decreases n - state.cursor,
    {
        let at = state.cursor;
        let current = data[at];
        if current == 0x3cu8 {
            break;
        }
        proof {
            if plain {
                assert(at < run_end);
                assert(is_word_byte(data@[at as int]));
            }
        }
        if tail_is_prefix_of(data, at, hidden.as_slice()) {
            proof {
                assert(hidden@.subrange(0, n - at)[0] == data@.subrange(at as int, n as int)[0]);
            }
            break;
        }
        if matches_at(data, at, hidden.as_slice()) {
            proof {
                assert(data@.subrange(at as int, at + 8)[0] == hidden@[0]);
                assert(hidden@[0] == 0x5bu8);
                assert(data@[at as int] == 0x5bu8);
            }
            state.cursor = at + 8;
            continue;
        }
        if current == 0x26u8 {
            let end = find_byte_from(data, at + 1, 0x3bu8);
            if end >= n {
                break;
            }
            let entity_bytes = slice_range(data, at, end + 1);
            let mut tmp = zeroed(4);
            let mut tmp_len: usize = 0;
            let decoded = match decode_entity(entity_bytes, tmp.as_mut_slice(), &mut tmp_len) {
                Ok(d) => d,
                Err(e) => return Err(e),
            };
            if decoded {
                match append_prefix(out, &mut out_len, tmp.as_slice(), tmp_len) {
                    Ok(()) => {},
                    Err(e) => return Err(e),
                }
                state.cursor = end + 1;
                state.prev_space = is_nbsp_entity(entity_bytes);
                did_write = true;
                continue;
            }
        }
        state.cursor = at + 1;
        let mut ch = current;
        if !state.in_pre && is_space(ch) {
            let lookahead = skip_spaces_from(data, state.cursor);
            let prev_upper = match state.last_nonspace_char {
                Some(p) => is_upper(p),
                None => false,
            };
            if prev_upper && n - lookahead >= 2 && is_upper(data[lookahead]) && data[lookahead + 1] == 0x2eu8 {
                state.cursor = lookahead;
                continue;
            }
            if state.prev_space {
                continue;
            }
            ch = 0x20u8;
            state.prev_space = true;
        } else {
            state.prev_space = false;
        }
        match push_out(out, &mut out_len, ch) {
            Ok(()) => {},
            Err(e) => return Err(e),
        }
        if !is_space(ch) {
            state.last_nonspace_char = Some(ch);
        }
        did_write = true;
    }
    if !did_write {
        return Ok(None);
    }
    let written = slice_range(out, 0, out_len);
    proof {
        if plain {
            let w = data@.subrange(start, run_end);
            assert forall|i: int| 0 <= i < w.len() implies #[trigger] w[i] < 0x80 by {
                assert(w[i] == data@[start + i]);
                assert(is_word_byte(data@[start + i]));
            }
            lemma_ascii_decode(w);
        }
    }
    match text_of(written) {
        Ok(t) => Ok(Some(t)),
        Err(e) => Err(e),
    }
}

/// Whether `bytes` is one of the spellings of the no-break space entity.
fn is_nbsp_entity(bytes: &[u8]) -> (r: bool)
    ensures
        r == (bytes@ == "&nbsp;".spec_bytes() || bytes@ == "&#160;".spec_bytes()
            || bytes@ == "&#xA0;".spec_bytes() || bytes@ == "&#xa0;".spec_bytes()
            || bytes@ == "&#x00A0;".spec_bytes() || bytes@ == "&#x00a0;".spec_bytes()),
{
    bytes_are(bytes, "&nbsp;".as_bytes()) || bytes_are(bytes, "&#160;".as_bytes()) || bytes_are(bytes, "&#xA0;".as_bytes())
        || bytes_are(bytes, "&#xa0;".as_bytes()) || bytes_are(bytes, "&#x00A0;".as_bytes()) || bytes_are(
        bytes,
        "&#x00a0;".as_bytes(),
    )
}


/// Whether the local name of `tag` is `expected`, ignoring ASCII case.
fn named(data: &[u8], tag: &Tag, expected: &str) -> (r: bool)
    requires
        tag.wf(data@.len()),
    ensures
        r == tag_named(data@, *tag, expected.spec_bytes()),
{
    tag.name_is(data, expected)
}

/// The separator row under a table head, as a text event.
fn separator_event(cols: u8, text_buf: &mut [u8]) -> (r: Result<Option<EpubEvent>, EpubError>)
    ensures
        final(text_buf)@.len() == old(text_buf)@.len(),
        r matches Ok(Some(ev)) ==> ev is Text,
        cols == 0 ==> r == Err::<Option<EpubEvent>, EpubError>(EpubError::InvalidFormat),
        cols > 0 && cols * 8 - 1 > old(text_buf)@.len() ==> r == Err::<Option<EpubEvent>, EpubError>(EpubError::OutOfSpace),
        cols > 0 && cols * 8 - 1 <= old(text_buf)@.len() ==> (r matches Ok(Some(EpubEvent::Text(s))) && s@ == decode_utf8(
            small_separator_bytes(cols as nat, old(text_buf)@.len()),
        )),
{
    match table_small_separator(cols, text_buf) {
        Ok(t) => Ok(Some(EpubEvent::Text(t))),
        Err(e) => Err(e),
    }
}

/// The border before a table body without a head, as a text event.
fn border_event(text_buf: &mut [u8]) -> (r: Result<Option<EpubEvent>, EpubError>)
    ensures
        final(text_buf)@.len() == old(text_buf)@.len(),
        r matches Ok(Some(ev)) ==> ev is Text,
        old(text_buf)@.len() < 760 ==> r == Err::<Option<EpubEvent>, EpubError>(EpubError::OutOfSpace),
        old(text_buf)@.len() >= 760 ==> (r matches Ok(Some(EpubEvent::Text(s))) && s@ == decode_utf8(
            big_border_bytes(old(text_buf)@.len()),
        )),
{
    match table_big_border(text_buf) {
        Ok(t) => Ok(Some(EpubEvent::Text(t))),
        Err(e) => Err(e),
    }
}

/// Handles a closing tag: ends the open paragraph or heading, pops a list, and
/// for tables emits the separator under a head row or the border of a body
/// without a head.
#[verifier::rlimit(60)]
pub fn match_tag_end(data: &[u8], tag: Tag, state: &mut ParserState, text_buf: &mut [u8]) -> (r: Result<
    Option<EpubEvent>,
    EpubError,
>)
    requires
        tag.wf(data@.len()),
        old(state).wf(),
    ensures
        final(state).chapter_len == old(state).chapter_len,
        final(state).input_len == old(state).input_len,
        final(state).input_cursor == old(state).input_cursor,
        final(state).wf(),
        final(state).cursor == old(state).cursor,
        final(state).skip_tag_depth == old(state).skip_tag_depth,
        final(text_buf)@.len() == old(text_buf)@.len(),
        old(state).ignore_depth > 0 ==> (r matches Ok(None) && final(state).ignore_depth == old(state).ignore_depth - 1),
        old(state).ignore_depth == 0 ==> final(state).ignore_depth == 0,
        r matches Ok(Some(EpubEvent::ParagraphEnd)) ==> old(state).in_paragraph && !final(state).in_paragraph,
        r matches Ok(Some(EpubEvent::HeadingEnd)) ==> old(state).in_heading != 0 && final(state).in_heading == 0,
{
    if state.ignore_depth > 0 {
        state.ignore_depth = state.ignore_depth - 1;
        return Ok(None);
    }
    if state.chapter_is_nav_doc && state.nav_suppress_outside {
        if named(data, &tag, "nav") && state.nav_visible_depth > 0 {
            state.nav_visible_depth = state.nav_visible_depth - 1;
            return Ok(None);
        }
        if state.nav_visible_depth == 0 {
            return Ok(None);
        }
    }
    if named(data, &tag, "ol") || named(data, &tag, "ul") {
        if state.list_depth > 0 {
            state.list_depth = state.list_depth - 1;
        }
        return Ok(None);
    }
    if named(data, &tag, "p") {
        if state.in_paragraph {
            state.in_paragraph = false;
            return Ok(Some(EpubEvent::ParagraphEnd));
        }
        return Ok(None);
    }
    if named(data, &tag, "pre") {
        state.in_pre = false;
    }
    if named(data, &tag, "tr") {
        if state.table_in_head && state.table_row_cols > 0 {
            let cols = state.table_row_cols;
            state.table_row_cols = 0;
            return separator_event(cols, text_buf);
        }
        state.table_row_cols = 0;
        return Ok(None);
    }
    if named(data, &tag, "tbody") {
        if !state.table_has_head {
            return border_event(text_buf);
        }
        return Ok(None);
    }
    if named(data, &tag, "thead") {
        state.table_in_head = false;
        return Ok(None);
    }
    if tag.name_starts_with(data, "h".as_bytes()) {
        match tag.heading_level(data) {
            Some(level) => {
                if state.in_heading == level {
                    state.in_heading = 0;
                    return Ok(Some(EpubEvent::HeadingEnd));
                }
            },
            None => {},
        }
        return Ok(None);
    }
    Ok(None)
}

/// Whether attribute `key` of `tag` lists the token `token`.
fn tag_type_has(data: &[u8], tag: &Tag, token: &str) -> (r: bool)
    requires
        tag.wf(data@.len()),
    ensures
        r == tag.attr_has_token_spec(data@, "type".spec_bytes(), token.spec_bytes()),
{
    tag.attr_has_token(data, "type".as_bytes(), token.as_bytes())
}

/// The decimal digit `d` as a character.
pub open spec fn digit_char(d: nat) -> char {
    (48 + d) as char
}

/// The decimal numeral of `n`, most significant digit first.
pub open spec fn decimal_chars(n: nat) -> Seq<char>
    decreases n,
{
    if n < 10 {
        seq![digit_char(n)]
    } else {
        decimal_chars(n / 10).push(digit_char(n % 10))
    }
}

/// The number a numeral of decimal digits stands for.
pub open spec fn numeral_value(s: Seq<char>) -> int
    decreases s.len(),
{
    if s.len() == 0 {
        0
    } else {
        10 * numeral_value(s.drop_last()) + (s.last() as int - 48)
    }
}

/// The numeral of a number reads back as that number.
pub proof fn law_decimal_numeral_reads_back(n: nat)
    ensures
        numeral_value(decimal_chars(n)) == n,
        decimal_chars(n).len() > 0,
    decreases n,
{
    if n >= 10 {
        law_decimal_numeral_reads_back(n / 10);
        let s = decimal_chars(n);
        assert(s == decimal_chars(n / 10).push(digit_char(n % 10)));
        assert(s.drop_last() =~= decimal_chars(n / 10));
        assert(s.last() == digit_char(n % 10));
        assert((digit_char(n % 10) as int) == 48 + n % 10);
        assert(numeral_value(s) == 10 * numeral_value(s.drop_last()) + (s.last() as int - 48));
        assert(10 * (n / 10) + n % 10 == n);
    } else {
        let s = seq![digit_char(n)];
        assert(decimal_chars(n) == s);
        assert((digit_char(n) as int) == 48 + n);
        assert(s.drop_last() =~= Seq::<char>::empty());
        assert(numeral_value(Seq::<char>::empty()) == 0);
        assert(numeral_value(s) == 10 * numeral_value(s.drop_last()) + (s.last() as int - 48));
    }
}

/// The marker text of item `n` of an ordered list: its numeral, a full stop and a space.
pub open spec fn list_item_marker(n: nat) -> Seq<char> {
    decimal_chars(n) + seq!['.', ' ']
}

/// Whether the local name of `tag` is `name`, ignoring ASCII case.
pub open spec fn tag_named(data: Seq<u8>, tag: Tag, name: Seq<u8>) -> bool {
    eq_ascii_case_spec(tag.local_name(data), name)
}

/// Whether opening `tag` enters a container whose content is not shown: `head`,
/// `style`, `script`, a table-of-contents `nav`, a title page or cover `body`,
/// `section` or `div`, or an element styled as hidden.
pub open spec fn opens_hidden(data: Seq<u8>, tag: Tag) -> bool {
    ||| tag_named(data, tag, "head".spec_bytes())
    ||| tag_named(data, tag, "style".spec_bytes())
    ||| tag_named(data, tag, "script".spec_bytes())
    ||| (tag_named(data, tag, "nav".spec_bytes()) && tag.attr_has_token_spec(data, "type".spec_bytes(), "toc".spec_bytes()))
    ||| ((tag_named(data, tag, "body".spec_bytes()) || tag_named(data, tag, "section".spec_bytes()) || tag_named(
        data,
        tag,
        "div".spec_bytes(),
    )) && (tag.attr_has_token_spec(data, "type".spec_bytes(), "titlepage".spec_bytes()) || tag.attr_has_token_spec(
        data,
        "type".spec_bytes(),
        "cover".spec_bytes(),
    )))
    ||| css_hidden(data, tag)
}

/// Whether `tag` opens in the visible body of an ordinary chapter: nothing
/// around it is ignored, it is not itself hidden, and the chapter is not the
/// navigation document.
pub open spec fn opens_in_body(data: Seq<u8>, tag: Tag, state: ParserState) -> bool {
    &&& state.ignore_depth == 0
    &&& !state.chapter_is_nav_doc
    &&& !opens_hidden(data, tag)
}

/// The marker of an unordered list item, `- `, as bytes.
proof fn lemma_bullet_bytes()
    ensures
        valid_utf8(seq![0x2du8, 0x20u8]),
        decode_utf8(seq![0x2du8, 0x20u8]) == seq!['-', ' '],
{
    let cs = seq!['-', ' '];
    assert(vstd::utf8::is_ascii_chars(cs));
    vstd::utf8::is_ascii_chars_encode_utf8(cs);
    assert(vstd::utf8::encode_utf8(cs) =~= seq![0x2du8, 0x20u8]);
    vstd::utf8::encode_utf8_valid_utf8(cs);
    vstd::utf8::encode_utf8_decode_utf8(cs);
}

/// A name that reads `li` reads neither `ol` nor `ul`.
proof fn lemma_item_is_not_list(name: Seq<u8>)
    requires
        eq_ascii_case_spec(name, "li".spec_bytes()),
    ensures
        !eq_ascii_case_spec(name, "ol".spec_bytes()),
        !eq_ascii_case_spec(name, "ul".spec_bytes()),
{
    lemma_block_tag_names();
    assert(ascii_lower(name[1]) == ascii_lower("li".spec_bytes()[1]));
}

/// The byte lengths of the list and paragraph tag names.
proof fn lemma_block_tag_names()
    ensures
        "p".spec_bytes().len() == 1,
        "ol".spec_bytes().len() == 2,
        "ul".spec_bytes().len() == 2,
        "li".spec_bytes().len() == 2,
        "ol".spec_bytes()[1] == 0x6c,
        "ul".spec_bytes()[1] == 0x6c,
        "li".spec_bytes()[1] == 0x69,
{
    reveal_strlit("p");
    reveal_strlit("ol");
    reveal_strlit("ul");
    reveal_strlit("li");
    vstd::utf8::is_ascii_chars_encode_utf8("p"@);
    vstd::utf8::is_ascii_chars_encode_utf8("ol"@);
    vstd::utf8::is_ascii_chars_encode_utf8("ul"@);
    vstd::utf8::is_ascii_chars_encode_utf8("li"@);
}

/// Handles an opening tag: enters ignored and hidden containers, tracks lists,
/// paragraphs, headings, `pre` and tables, and turns list items, rules, line
/// breaks and images into events.
#[verifier::rlimit(100)]
#[verifier::spinoff_prover]
pub fn parse_tag_start(data: &[u8], tag: Tag, state: &mut ParserState, chapter_dir: &[u8], text_buf: &mut [u8]) -> (r:
    Result<Option<EpubEvent>, EpubError>)
    requires
        tag.wf(data@.len()),
        old(state).wf(),
    ensures
        final(state).chapter_len == old(state).chapter_len,
        final(state).input_len == old(state).input_len,
        final(state).input_cursor == old(state).input_cursor,
        final(state).wf(),
        final(state).cursor == old(state).cursor,
        final(state).skip_tag_depth == old(state).skip_tag_depth,
        final(text_buf)@.len() == old(text_buf)@.len(),
        old(state).ignore_depth > 0 ==> (r matches Ok(None) && final(state).ignore_depth == (if tag.is_self_closing {
            old(state).ignore_depth as int
        } else {
            if old(state).ignore_depth == 255 { 255 } else { old(state).ignore_depth + 1 }
        })),
        r matches Ok(Some(EpubEvent::ParagraphStart)) ==> !old(state).in_paragraph && final(state).in_paragraph,
        r matches Ok(Some(EpubEvent::HeadingStart(l))) ==> 1 <= l <= 6 && final(state).in_heading == l,
        old(state).ignore_depth == 0 && opens_hidden(data@, tag) ==> (r matches Ok(None) && final(state).ignore_depth == 1),
        opens_in_body(data@, tag, *old(state)) && tag_named(data@, tag, "p".spec_bytes()) && !tag.is_self_closing ==> {
            &&& r == (if old(state).in_paragraph {
                Ok::<Option<EpubEvent>, EpubError>(None)
            } else {
                Ok(Some(EpubEvent::ParagraphStart))
            })
            &&& final(state).in_paragraph
        },
        opens_in_body(data@, tag, *old(state)) && (tag_named(data@, tag, "ol".spec_bytes()) || tag_named(
            data@,
            tag,
            "ul".spec_bytes(),
        )) ==> {
            &&& r matches Ok(None)
            &&& final(state).list_depth == (if old(state).list_depth < 8 {
                old(state).list_depth + 1
            } else {
                old(state).list_depth as int
            })
            &&& old(state).list_depth < 8 ==> final(state).list_items@[old(state).list_depth as int] == 0
                && final(state).list_ordered@[old(state).list_depth as int] == tag_named(data@, tag, "ol".spec_bytes())
        },
        opens_in_body(data@, tag, *old(state)) && tag_named(data@, tag, "li".spec_bytes()) && old(state).list_depth
            == 0 ==> r matches Ok(None),
        opens_in_body(data@, tag, *old(state)) && tag_named(data@, tag, "li".spec_bytes()) && old(state).list_depth > 0
            && !old(state).list_ordered@[old(state).list_depth - 1] && old(text_buf)@.len() >= 2 ==> (r matches Ok(
            Some(EpubEvent::Text(t)),
        ) && t@ == seq!['-', ' ']),
        opens_in_body(data@, tag, *old(state)) && tag_named(data@, tag, "li".spec_bytes()) && old(state).list_depth > 0
            && old(state).list_ordered@[old(state).list_depth - 1] ==> {
            &&& final(state).list_items@[old(state).list_depth - 1] == (if old(state).list_items@[old(state).list_depth
                - 1] < u16::MAX {
                old(state).list_items@[old(state).list_depth - 1] + 1
            } else {
                old(state).list_items@[old(state).list_depth - 1] as int
            })
            &&& final(state).list_depth == old(state).list_depth
        },
        opens_in_body(data@, tag, *old(state)) && tag_named(data@, tag, "li".spec_bytes()) && old(state).list_depth > 0
            && old(state).list_ordered@[old(state).list_depth - 1] && old(text_buf)@.len() >= 4
            && final(state).list_items@[old(state).list_depth - 1] < 100 ==> (r matches Ok(Some(EpubEvent::Text(t)))
            && t@ == list_item_marker(final(state).list_items@[old(state).list_depth - 1] as nat)),
{
    proof {
        lemma_block_tag_names();
        if tag_named(data@, tag, "li".spec_bytes()) {
            lemma_item_is_not_list(tag.local_name(data@));
        }
    }
    if state.ignore_depth > 0 {
        if !tag.is_self_closing {
            state.ignore_depth = if state.ignore_depth < 255 { state.ignore_depth + 1 } else { 255 };
        }
        return Ok(None);
    }
    let is_ignored_container = named(data, &tag, "head") || named(data, &tag, "style") || named(data, &tag, "script")
        || (named(data, &tag, "nav") && tag_type_has(data, &tag, "toc")) || ((named(data, &tag, "body") || tag.name_is(
        data,
        "section",
    ) || named(data, &tag, "div")) && (tag_type_has(data, &tag, "titlepage") || tag_type_has(data, &tag, "cover")));
    if is_ignored_container || tag_is_css_hidden(data, &tag) {
        state.ignore_depth = if state.ignore_depth < 255 { state.ignore_depth + 1 } else { 255 };
        return Ok(None);
    }
    if state.chapter_is_nav_doc && named(data, &tag, "body") {
        state.nav_suppress_outside = tag_type_has(data, &tag, "frontmatter");
        return Ok(None);
    }
    if state.chapter_is_nav_doc && state.nav_suppress_outside {
        if named(data, &tag, "nav") && !tag.is_self_closing {
            state.nav_visible_depth = if state.nav_visible_depth < 255 { state.nav_visible_depth + 1 } else { 255 };
            return Ok(None);
        }
        if state.nav_visible_depth == 0 {
            return Ok(None);
        }
    }
    if named(data, &tag, "ol") || named(data, &tag, "ul") {
        let depth = state.list_depth as usize;
        if depth < 8 {
            let ordered = named(data, &tag, "ol");
            state.list_ordered.set(depth, ordered);
            state.list_items.set(depth, 0);
            state.list_depth = state.list_depth + 1;
        }
        return Ok(None);
    }
    if named(data, &tag, "li") {
        if state.list_depth > 0 {
            let depth = (state.list_depth - 1) as usize;
            if state.list_ordered[depth] {
                let current = state.list_items[depth];
                let number = if current < u16::MAX { current + 1 } else { current };
                state.list_items.set(depth, number);
                let n = text_buf.len();
                let mut write: usize = 0;
                if number >= 10 {
                    if write < n {
                        text_buf[write] = (0x30 + (number / 10) % 256) as u8;
                        write += 1;
                    }
                    if write < n {
                        text_buf[write] = (0x30 + number % 10) as u8;
                        write += 1;
                    }
                } else if write < n {
                    text_buf[write] = (0x30 + number) as u8;
                    write += 1;
                }
                if write < n {
                    text_buf[write] = 0x2eu8;
                    write += 1;
                }
                if write < n {
                    text_buf[write] = 0x20u8;
                    write += 1;
                }
                proof {
                    if n >= 4 && number < 100 {
                        let w = text_buf@.subrange(0, write as int);
                        let num = number as nat;
                        if number >= 10 {
                            assert(w =~= seq![(0x30 + num / 10) as u8, (0x30 + num % 10) as u8, 0x2eu8, 0x20u8]);
                            assert(decimal_chars(num / 10) =~= seq![digit_char(num / 10)]);
                            assert(decimal_chars(num) =~= seq![digit_char(num / 10), digit_char(num % 10)]);
                        } else {
                            assert(w =~= seq![(0x30 + num) as u8, 0x2eu8, 0x20u8]);
                            assert(decimal_chars(num) =~= seq![digit_char(num)]);
                        }
                        assert forall|i: int| 0 <= i < w.len() implies #[trigger] w[i] < 0x80 by {}
                        lemma_ascii_decode(w);
                        assert(ascii_chars(w) =~= list_item_marker(num));
                    }
                }
                return match text_of(slice_range(text_buf, 0, write)) {
                    Ok(t) => Ok(Some(EpubEvent::Text(t))),
                    Err(e) => Err(e),
                };
            }
            if text_buf.len() < 2 {
                return Err(EpubError::OutOfSpace);
            }
            text_buf[0] = 0x2du8;
            text_buf[1] = 0x20u8;
            proof {
                lemma_bullet_bytes();
                assert(text_buf@.subrange(0, 2) =~= seq![0x2du8, 0x20u8]);
            }
            return match text_of(slice_range(text_buf, 0, 2)) {
                Ok(t) => Ok(Some(EpubEvent::Text(t))),
                Err(e) => Err(e),
            };
        }
        return Ok(None);
    }
    if named(data, &tag, "p") && !tag.is_self_closing {
        if !state.in_paragraph {
            state.in_paragraph = true;
            return Ok(Some(EpubEvent::ParagraphStart));
        }
        return Ok(None);
    }
    if named(data, &tag, "hr") {
        if 72 > text_buf.len() {
            return Err(EpubError::OutOfSpace);
        }
        let w = put_repeat(text_buf, 0, 0x2du8, 72);
        return match text_of(slice_range(text_buf, 0, w)) {
            Ok(t) => Ok(Some(EpubEvent::Text(t))),
            Err(e) => Err(e),
        };
    }
    if tag.name_starts_with(data, "h".as_bytes()) {
        match tag.heading_level(data) {
            Some(level) => {
                state.in_heading = level;
                return Ok(Some(EpubEvent::HeadingStart(level)));
            },
            None => {},
        }
    }
    if named(data, &tag, "pre") {
        state.in_pre = true;
        return Ok(None);
    }
    if named(data, &tag, "br") {
        return Ok(Some(EpubEvent::LineBreak));
    }
    if named(data, &tag, "img") {
        let (sa, sb) = match tag.attr(data, "src".as_bytes()) {
            Some(v) => v,
            None => return Err(EpubError::InvalidFormat),
        };
        let src_raw = slice_range(data, sa, sb);
        let alt_range = tag.attr(data, "alt".as_bytes());
        let alt_is_hline = match alt_range {
            Some((aa, ab)) => attr_eq(slice_range(data, aa, ab), "hline".as_bytes()),
            None => false,
        };
        let suffix = "hline.jpg".as_bytes();
        let ends_hline = src_raw.len() >= suffix.len() && matches_at(src_raw, src_raw.len() - suffix.len(), suffix);
        if alt_is_hline || ends_hline {
            return Ok(None);
        }
        let mut resolved = zeroed(MAX_CHAPTER_DIR_BYTES);
        let resolved_len = match resolve_reference(chapter_dir, src_raw, resolved.as_mut_slice()) {
            Ok(v) => v,
            Err(e) => return Err(e),
        };
        let src = match text_of(slice_range(resolved.as_slice(), 0, resolved_len)) {
            Ok(t) => t,
            Err(e) => return Err(e),
        };
        if resolved_len > text_buf.len() {
            return Err(EpubError::OutOfSpace);
        }
        let alt = match alt_range {
            Some((aa, ab)) => {
                let alt_raw = slice_range(data, aa, ab);
                let alt_text = match text_of(alt_raw) {
                    Ok(t) => t,
                    Err(e) => return Err(e),
                };
                if resolved_len >= text_buf.len() || alt_raw.len() > text_buf.len() - resolved_len {
                    return Err(EpubError::OutOfSpace);
                }
                Some(alt_text)
            },
            None => None,
        };
        return Ok(Some(EpubEvent::Image { src, alt }));
    }
    if named(data, &tag, "table") {
        state.table_in_head = false;
        state.table_has_head = false;
        state.table_row_cols = 0;
        return Ok(Some(EpubEvent::UnsupportedTag));
    }
    if named(data, &tag, "thead") {
        state.table_in_head = true;
        state.table_has_head = true;
        state.table_row_cols = 0;
        return Ok(None);
    }
    if named(data, &tag, "tbody") {
        state.table_in_head = false;
        if !state.table_has_head {
            return border_event(text_buf);
        }
        return Ok(None);
    }
    if named(data, &tag, "tr") {
        state.table_row_cols = 0;
        return Ok(None);
    }
    if named(data, &tag, "th") || named(data, &tag, "td") {
        state.table_row_cols = if state.table_row_cols < 255 { state.table_row_cols + 1 } else { 255 };
        return Ok(None);
    }
    if tag.is_unsupported(data) {
        return Ok(Some(EpubEvent::UnsupportedTag));
    }
    Ok(None)
}

/// Reads the next event from the chapter markup `data` at `state.cursor`;
/// `Ok(None)` when the markup runs out, or stops short of a complete tag, entity
/// or container, before an event.
pub fn parse_next_xhtml_event(data: &[u8], state: &mut ParserState, chapter_dir: &[u8], text_buf: &mut [u8]) -> (r:
    Result<Option<EpubEvent>, EpubError>)
    requires
        old(state).wf(),
        old(state).cursor <= data@.len(),
    ensures
        final(state).chapter_len == old(state).chapter_len,
        final(state).input_len == old(state).input_len,
        final(state).input_cursor == old(state).input_cursor,
        final(state).wf(),
        old(state).cursor <= final(state).cursor <= data@.len(),
        final(text_buf)@.len() == old(text_buf)@.len(),
        r matches Ok(Some(_)) ==> final(state).cursor > old(state).cursor,
        old(state).skip_tag_depth == 0 && old(state).cursor == data@.len() ==> r == Ok::<Option<EpubEvent>, EpubError>(None),
        old(state).skip_tag_depth == 0 && starts_plain_text(data@, *old(state)) && old(text_buf)@.len() > 0 ==> !(r matches Ok(
            None,
        )),
{
    let n = data.len();
    loop
        invariant
            n == data@.len(),
            state.wf(),
            old(state).cursor <= state.cursor <= n,
            state.chapter_len == old(state).chapter_len,
            state.input_len == old(state).input_len,
            state.input_cursor == old(state).input_cursor,
            text_buf@.len() == old(text_buf)@.len(),
            old(state).skip_tag_depth == 0 && old(state).cursor == n ==> *state == *old(state),
            old(state).skip_tag_depth == 0 && starts_plain_text(data@, *old(state)) && old(text_buf)@.len() > 0 ==> *state
                == *old(state),
        decreases n - state.cursor, state.skip_tag_depth,
    {
        if state.skip_tag_depth > 0 {
            let name_len = state.skip_tag_name_len as usize;
            let cursor_before = state.cursor;
            let mut c = state.cursor;
            let name = slice_range(state.skip_tag_name.as_slice(), 0, name_len);
            let depth = match skip_container_fast(data, &mut c, name, state.skip_tag_depth) {
                Ok(d) => d,
                Err(e) => {
                    state.cursor = c;
                    return Err(e);
                },
            };
            state.cursor = c;
            state.skip_tag_depth = depth;
            if depth == 0 {
                state.skip_tag_name_len = 0;
                if state.cursor == cursor_before {
                    return Ok(None);
                }
                continue;
            }
            if state.cursor == cursor_before {
                return Ok(None);
            }
            continue;
        }
        if state.cursor >= n {
            return Ok(None);
        }
        if data[state.cursor] == 0x3cu8 {
            let before = state.cursor;
            let mut c = state.cursor;
            let parsed = parse_xml_tag(data, &mut c);
            state.cursor = c;
            let tag = match parsed {
                Ok(Some(t)) => t,
                Ok(None) => {
                    if state.cursor == before {
                        return Ok(None);
                    }
                    continue;
                },
                Err(e) => return Err(e),
            };
            if tag.is_end {
                match match_tag_end(data, tag, state, text_buf) {
                    Ok(Some(ev)) => return Ok(Some(ev)),
                    Ok(None) => {},
                    Err(e) => return Err(e),
                }
                continue;
            }
            if should_fast_skip_container(data, &tag) {
                let local_name = trim_namespace(slice_range(data, tag.name_start, tag.name_end));
                if local_name.len() > 8 {
                    return Err(EpubError::OutOfSpace);
                }
                let mut k: usize = 0;
                while k < local_name.len()
                    invariant
                        k <= local_name@.len(),
                        local_name@.len() <= 8,
                        state.wf(),
                        old(state).cursor <= state.cursor <= n,
                        state.cursor > before,
                        state.skip_tag_depth == 0,
                        state.chapter_len == old(state).chapter_len,
                        state.input_len == old(state).input_len,
                        state.input_cursor == old(state).input_cursor,
                    decreases local_name@.len() - k,
                {
                    state.skip_tag_name.set(k, local_name[k]);
                    k += 1;
                }
                state.skip_tag_name_len = local_name.len() as u8;
                state.skip_tag_depth = 1;
                continue;
            }
            match parse_tag_start(data, tag, state, chapter_dir, text_buf) {
                Ok(Some(ev)) => return Ok(Some(ev)),
                Ok(None) => {},
                Err(e) => return Err(e),
            }
            continue;
        }
        let before = state.cursor;
        match parse_text(data, state, text_buf) {
            Ok(Some(t)) => return Ok(Some(EpubEvent::Text(t))),
            Ok(None) => {},
            Err(e) => return Err(e),
        }
        if state.cursor == before {
            return Ok(None);
        }
    }
}


#[verifier::external_type_specification]
#[verifier::external_body]
pub struct ExInflateState(miniz_oxide::inflate::stream::InflateState);

/// Why a one-shot inflation failed, one value per failure status of the decompressor.
#[derive(Debug, Clone, Copy, PartialEq, Eq, Structural)]
pub enum InflateFailure {
    FailedCannotMakeProgress,
    BadParam,
    Adler32Mismatch,
    Failed,
    Done,
    NeedsMoreInput,
    HasMoreOutput,
}

/// What one-shot raw-deflate inflation of `input`, into room for `capacity`
/// bytes, yields: the inflated bytes, or the failure status.
pub uninterp spec fn raw_inflate_result(input: Seq<u8>, capacity: nat) -> Result<Seq<u8>, InflateFailure>;

/// `miniz_oxide::inflate::decompress_slice_iter_to_slice` on the single raw
/// deflate stream `input` (no zlib header, no checksum): the number of bytes
/// written to `out`, which are the inflated data, or the failure status. Which
/// bytes the data are is named, not stated.
#[verifier::external_body]
fn inflate_slice(out: &mut [u8], input: &[u8]) -> (r: Result<usize, InflateFailure>)
    ensures
        final(out)@.len() == old(out)@.len(),
        match raw_inflate_result(input@, old(out)@.len() as nat) {
            Ok(bytes) => r == Ok::<usize, InflateFailure>(bytes.len() as usize) && bytes.len() <= old(out)@.len()
                && final(out)@.subrange(0, bytes.len() as int) == bytes,
            Err(e) => r == Err::<usize, InflateFailure>(e),
        },
{
    match miniz_oxide::inflate::decompress_slice_iter_to_slice(out, core::iter::once(input), false, false) {
        Ok(n) => Ok(n),
        Err(TINFLStatus::FailedCannotMakeProgress) => Err(InflateFailure::FailedCannotMakeProgress),
        Err(TINFLStatus::BadParam) => Err(InflateFailure::BadParam),
        Err(TINFLStatus::Adler32Mismatch) => Err(InflateFailure::Adler32Mismatch),
        Err(TINFLStatus::Failed) => Err(InflateFailure::Failed),
        Err(TINFLStatus::Done) => Err(InflateFailure::Done),
        Err(TINFLStatus::NeedsMoreInput) => Err(InflateFailure::NeedsMoreInput),
        Err(TINFLStatus::HasMoreOutput) => Err(InflateFailure::HasMoreOutput),
    }
}

/// The reader's error for a failed one-shot inflation.
pub fn map_inflate_error(error: InflateFailure) -> (r: EpubError)
    ensures
        r == (match error {
            InflateFailure::HasMoreOutput => EpubError::OutOfSpace,
            InflateFailure::BadParam => EpubError::InvalidFormat,
            _ => EpubError::Compression,
        }),
{
    match error {
        InflateFailure::HasMoreOutput => EpubError::OutOfSpace,
        InflateFailure::BadParam => EpubError::InvalidFormat,
        InflateFailure::Adler32Mismatch => EpubError::Compression,
        InflateFailure::FailedCannotMakeProgress | InflateFailure::Failed | InflateFailure::NeedsMoreInput => EpubError::Compression,
        _ => EpubError::Compression,
    }
}

/// The status of one streaming inflation step, one value per status of the decompressor.
#[derive(Debug, Clone, Copy, PartialEq, Eq, Structural)]
pub enum StreamStatus {
    Advanced,
    StreamEnd,
    NeedDict,
    ErrNo,
    ErrStream,
    ErrData,
    ErrMem,
    ErrBuf,
    ErrVersion,
    ErrParam,
}

/// What one streaming inflation step did.
#[derive(Debug, Clone, Copy)]
pub struct InflateStep {
    pub consumed: usize,
    pub written: usize,
    pub status: StreamStatus,
}

/// `miniz_oxide::inflate::stream::inflate`: one step of streaming inflation of
/// `input` into `output`, finishing the stream when `finish` holds. Only that it
/// consumes at most the input and writes at most the room of `output` is stated:
/// what it writes depends on the state of the stream.
#[verifier::external_body]
fn inflate_stream(
    state: &mut miniz_oxide::inflate::stream::InflateState,
    input: &[u8],
    output: &mut [u8],
    finish: bool,
) -> (r: InflateStep)
    ensures
        final(output)@.len() == old(output)@.len(),
        r.consumed <= input@.len(),
        r.written <= old(output)@.len(),
{
    let flush = if finish { MZFlush::Finish } else { MZFlush::None };
    let result = miniz_oxide::inflate::stream::inflate(state, input, output, flush);
    let status = match result.status {
        Ok(MZStatus::Ok) => StreamStatus::Advanced,
        Ok(MZStatus::StreamEnd) => StreamStatus::StreamEnd,
        Ok(MZStatus::NeedDict) => StreamStatus::NeedDict,
        Err(MZError::ErrNo) => StreamStatus::ErrNo,
        Err(MZError::Stream) => StreamStatus::ErrStream,
        Err(MZError::Data) => StreamStatus::ErrData,
        Err(MZError::Mem) => StreamStatus::ErrMem,
        Err(MZError::Buf) => StreamStatus::ErrBuf,
        Err(MZError::Version) => StreamStatus::ErrVersion,
        Err(MZError::Param) => StreamStatus::ErrParam,
    };
    InflateStep { consumed: result.bytes_consumed, written: result.bytes_written, status }
}

/// `InflateState::reset(DataFormat::Raw)`: starts a new raw deflate stream.
#[verifier::external_body]
fn reset_raw(state: &mut miniz_oxide::inflate::stream::InflateState) {
    state.reset(miniz_oxide::DataFormat::Raw)
}

/// `InflateState::new_boxed(DataFormat::Raw)`: a fresh raw deflate stream.
#[verifier::external_body]
fn new_raw_stream() -> Box<miniz_oxide::inflate::stream::InflateState> {
    miniz_oxide::inflate::stream::InflateState::new_boxed(miniz_oxide::DataFormat::Raw)
}

/// Fills `buffer` with the source bytes at `offset`; `Io` when the source fails
/// or ends first.
pub fn read_exact<S: EpubSource>(source: &S, offset: u64, buffer: &mut [u8]) -> (r: Result<(), EpubError>)
    ensures
        final(buffer)@.len() == old(buffer)@.len(),
        r is Ok ==> old(buffer)@.len() == 0 || (offset + old(buffer)@.len() <= source.bytes().len()
            && final(buffer)@ == source.bytes().subrange(offset as int, offset + old(buffer)@.len())),
        r matches Err(e) ==> e == EpubError::Io,
{
    let reader = ArchiveReader { source };
    match crate::zip::read_exact_at(&reader, offset, buffer) {
        Ok(()) => Ok(()),
        Err(_) => Err(EpubError::Io),
    }
}

/// Reads the whole of an archive entry into `output`, inflating it through the
/// `compressed` scratch when it is deflated; returns its length.
pub fn read_entry<S: EpubSource>(
    source: &S,
    entry: &EpubEntryMetadata,
    output: &mut [u8],
    compressed: &mut [u8],
) -> (r: Result<usize, EpubError>)
    ensures
        final(output)@.len() == old(output)@.len(),
        final(compressed)@.len() == old(compressed)@.len(),
        r matches Ok(n) ==> n <= old(output)@.len(),
        entry.compression is Other ==> r == Err::<usize, EpubError>(EpubError::Unsupported),
        entry.compression is Stored ==> (if entry.uncompressed_size > old(output)@.len() {
            r == Err::<usize, EpubError>(EpubError::OutOfSpace)
        } else {
            r matches Ok(n) ==> n == entry.uncompressed_size && (n == 0 || final(output)@.subrange(0, n as int)
                == source.bytes().subrange(entry.data_offset as int, entry.data_offset + n))
        }),
        entry.compression is Deflate ==> (if entry.compressed_size > old(compressed)@.len()
            || entry.uncompressed_size > old(output)@.len() {
            r == Err::<usize, EpubError>(EpubError::OutOfSpace)
        } else if entry.compressed_size == 0 {
            r == Ok::<usize, EpubError>(0)
        } else {
            r matches Ok(n) ==> entry.data_offset + entry.compressed_size <= source.bytes().len() && raw_inflate_result(
                source.bytes().subrange(entry.data_offset as int, entry.data_offset + entry.compressed_size),
                entry.uncompressed_size as nat,
            ) == Ok::<Seq<u8>, InflateFailure>(final(output)@.subrange(0, n as int))
        }),
{
    let compressed_size = entry.compressed_size as usize;
    let uncompressed_size = entry.uncompressed_size as usize;
    let data_offset = entry.data_offset as u64;
    match entry.compression {
        CompressionMethod::Stored => {
            if uncompressed_size > output.len() {
                return Err(EpubError::OutOfSpace);
            }
            let mut tmp = zeroed(uncompressed_size);
            match read_exact(source, data_offset, tmp.as_mut_slice()) {
                Ok(()) => {},
                Err(e) => return Err(e),
            }
            copy_into(output, tmp.as_slice());
            Ok(uncompressed_size)
        },
        CompressionMethod::Deflate => {
            if compressed_size > compressed.len() || uncompressed_size > output.len() {
                return Err(EpubError::OutOfSpace);
            }
            if compressed_size == 0 {
                return Ok(0);
            }
            let mut input = zeroed(compressed_size);
            match read_exact(source, data_offset, input.as_mut_slice()) {
                Ok(()) => {},
                Err(e) => return Err(e),
            }
            copy_into(compressed, input.as_slice());
            let mut out = zeroed(uncompressed_size);
            let written = match inflate_slice(out.as_mut_slice(), input.as_slice()) {
                Ok(n) => n,
                Err(e) => return Err(map_inflate_error(e)),
            };
            copy_into(output, out.as_slice());
            proof {
                assert(output@.subrange(0, written as int) =~= out@.subrange(0, written as int));
            }
            Ok(written)
        },
        CompressionMethod::Other(_) => Err(EpubError::Unsupported),
    }
}

/// Moves `dst[start..start + len]` to the front of `dst`.
fn compact(dst: &mut [u8], start: usize, len: usize)
    requires
        start + len <= old(dst)@.len(),
    ensures
        final(dst)@.len() == old(dst)@.len(),
        final(dst)@.subrange(0, len as int) == old(dst)@.subrange(start as int, start + len),
        final(dst)@.subrange(len as int, old(dst)@.len() as int) == old(dst)@.subrange(len as int, old(dst)@.len() as int),
{
    let mut k: usize = 0;
    while k < len
        invariant
            start + len <= dst@.len(),
            start + len <= dst.len(),
            dst@.len() == old(dst)@.len(),
            k <= len,
            forall|j: int| 0 <= j < k ==> #[trigger] dst@[j] == old(dst)@[start + j],
            forall|j: int| k <= j < dst@.len() ==> #[trigger] dst@[j] == old(dst)@[j],
        decreases len - k,
    {
        dst[k] = dst[start + k];
        k += 1;
    }
    assert(dst@.subrange(0, len as int) =~= old(dst)@.subrange(start as int, start + len));
    assert(dst@.subrange(len as int, old(dst)@.len() as int) =~= old(dst)@.subrange(len as int, old(dst)@.len() as int));
}

/// Copies `src` into `dst` at `at`.
fn copy_at(dst: &mut [u8], at: usize, src: &[u8], count: usize)
    requires
        at + count <= old(dst)@.len(),
        count <= src@.len(),
    ensures
        final(dst)@.len() == old(dst)@.len(),
        forall|j: int| at <= j < at + count ==> #[trigger] final(dst)@[j] == src@[j - at],
        forall|j: int| 0 <= j < old(dst)@.len() && !(at <= j < at + count) ==> #[trigger] final(dst)@[j] == old(dst)@[j],
{
    let mut k: usize = 0;
    while k < count
        invariant
            at + count <= dst@.len(),
            at + count <= dst.len(),
            count <= src@.len(),
            dst@.len() == old(dst)@.len(),
            k <= count,
            forall|j: int| at <= j < at + k ==> #[trigger] dst@[j] == src@[j - at],
            forall|j: int| 0 <= j < dst@.len() && !(at <= j < at + k) ==> #[trigger] dst@[j] == old(dst)@[j],
        decreases count - k,
    {
        dst[at + k] = src[k];
        k += 1;
    }
}

/// Copies `src` into the front of `dst`.
fn copy_into(dst: &mut [u8], src: &[u8])
    requires
        src@.len() <= old(dst)@.len(),
    ensures
        final(dst)@.len() == old(dst)@.len(),
        final(dst)@.subrange(0, src@.len() as int) == src@,
        final(dst)@.subrange(src@.len() as int, old(dst)@.len() as int) == old(dst)@.subrange(
            src@.len() as int,
            old(dst)@.len() as int,
        ),
{
    let mut i: usize = 0;
    while i < src.len()
        invariant
            i <= src@.len(),
            src@.len() <= dst@.len(),
            dst@.len() == old(dst)@.len(),
            forall|k: int| 0 <= k < i ==> dst@[k] == src@[k],
            forall|k: int| src@.len() <= k < dst@.len() ==> dst@[k] == old(dst)@[k],
        decreases src@.len() - i,
    {
        dst[i] = src[i];
        i += 1;
    }
    assert(dst@.subrange(0, src@.len() as int) =~= src@);
    assert(dst@.subrange(src@.len() as int, old(dst)@.len() as int) =~= old(dst)@.subrange(
        src@.len() as int,
        old(dst)@.len() as int,
    ));
}


/// The working memory of the reader, sized by its owner.
pub struct ReaderBuffers {
    pub zip_cd: Vec<u8>,
    pub inflate: Vec<u8>,
    pub stream_input: Vec<u8>,
    pub xml: Vec<u8>,
    pub catalog: Vec<u8>,
    pub path_buf: Vec<u8>,
    pub stream_state: Box<miniz_oxide::inflate::stream::InflateState>,
    pub archive: EpubArchive<MAX_ARCHIVE_ENTRIES, MAX_ARCHIVE_NAME_CAPACITY>,
}

impl ReaderBuffers {
    /// Zeroed buffers of the given sizes, a fresh inflation stream and an empty archive.
    pub fn new(zip_cd: usize, inflate: usize, stream_input: usize, xml: usize, catalog: usize, path_buf: usize) -> (r: Self)
        ensures
            r.zip_cd@.len() == zip_cd,
            r.inflate@.len() == inflate,
            r.stream_input@.len() == stream_input,
            r.xml@.len() == xml,
            r.catalog@.len() == catalog,
            r.path_buf@.len() == path_buf,
    {
        ReaderBuffers {
            zip_cd: zeroed(zip_cd),
            inflate: zeroed(inflate),
            stream_input: zeroed(stream_input),
            xml: zeroed(xml),
            catalog: zeroed(catalog),
            path_buf: zeroed(path_buf),
            stream_state: new_raw_stream(),
            archive: EpubArchive::new(),
        }
    }
}

/// An EPUB book being read event by event.
pub struct Epub<S: EpubSource> {
    pub source: S,
    pub state: ParserState,
}

/// Whether the path ends with `suffix`.
fn ends_with(path: &[u8], suffix: &[u8]) -> (r: bool)
    ensures
        r == (suffix@.len() <= path@.len() && path@.subrange(path@.len() - suffix@.len(), path@.len() as int) == suffix@),
{
    if suffix.len() > path.len() {
        return false;
    }
    matches_at(path, path.len() - suffix.len(), suffix)
}

impl<S: EpubSource> Epub<S> {
    /// The reader state fits the workspace: the chapter window lies in the
    /// inflation buffer and the pending input in the stream input buffer.
    pub open spec fn fits(&self, ws: &ReaderBuffers) -> bool {
        &&& self.state.wf()
        &&& self.state.cursor <= self.state.chapter_len
        &&& self.state.chapter_len <= ws.inflate@.len()
        &&& self.state.input_cursor <= self.state.input_len
        &&& self.state.input_len <= ws.stream_input@.len()
    }

    /// The workspace keeps the sizes of its buffers.
    pub open spec fn same_sizes(a: &ReaderBuffers, b: &ReaderBuffers) -> bool {
        &&& a.zip_cd@.len() == b.zip_cd@.len()
        &&& a.inflate@.len() == b.inflate@.len()
        &&& a.stream_input@.len() == b.stream_input@.len()
        &&& a.xml@.len() == b.xml@.len()
        &&& a.catalog@.len() == b.catalog@.len()
        &&& a.path_buf@.len() == b.path_buf@.len()
    }

    /// A reader at the start of `source`; nothing is read until the first event.
    pub fn open(source: S) -> (r: Result<Self, EpubError>)
        ensures
            r matches Ok(e) ==> e.state.initial(),
            r matches Ok(e) ==> e.source == source,
            r is Ok,
    {
        Ok(Epub { source, state: ParserState::default() })
    }

    /// The next reading event of the book, chapter after chapter of the spine,
    /// or `None` once the spine is exhausted (and from then on). The catalog is
    /// built on the first call; a chapter is read into the window of `inflate`
    /// piece by piece, keeping a reserve of unread markup so that tags are not cut.
    /// A construct left unclosed at the very end of a chapter is dropped.
    #[verifier::rlimit(50)]
    pub fn next_event(&mut self, workspace: &mut ReaderBuffers) -> (r: Result<Option<EpubEvent>, EpubError>)
        requires
            old(self).fits(old(workspace)),
        ensures
            final(self).fits(final(workspace)),
            Self::same_sizes(old(workspace), final(workspace)),
            old(self).state.done ==> (r matches Ok(None) && final(self).state.done),
            r matches Ok(None) ==> final(self).state.done,
            !old(self).state.done && !old(self).state.catalog_ready && old(self).source.bytes().len() < 22 ==> r == Err::<
                Option<EpubEvent>,
                EpubError,
            >(EpubError::InvalidFormat),
    {
        if self.state.done {
            return Ok(None);
        }
        if !self.state.catalog_ready {
            match self.prepare_catalog(workspace) {
                Ok(()) => {},
                Err(e) => return Err(e),
            }
            self.state.catalog_ready = true;
        }
        let mut budget: u64 = u64::MAX;
        loop
            invariant
                self.fits(workspace),
                Self::same_sizes(old(workspace), workspace),
                !old(self).state.done,
                !(!old(self).state.catalog_ready && old(self).source.bytes().len() < 22),
            decreases budget,
        {
            if budget == 0 {
                return Err(EpubError::Unsupported);
            }
            budget = budget - 1;
            if self.state.done {
                return Ok(None);
            }
            if !self.state.chapter_loaded {
                if self.state.spine_index >= self.state.spine_count {
                    self.state.done = true;
                    return Ok(None);
                }
                match self.load_current_chapter(workspace) {
                    Ok(()) => {},
                    Err(e) => return Err(e),
                }
            }
            if self.state.cursor >= self.state.chapter_len || (!self.state.chapter_finished && self.state.chapter_len
                - self.state.cursor <= CHAPTER_TAIL_RESERVE) {
                if !self.state.chapter_finished && self.state.cursor >= self.state.chapter_len {
                    let keep = if CHAPTER_TAIL_RESERVE < self.state.chapter_len {
                        CHAPTER_TAIL_RESERVE
                    } else {
                        self.state.chapter_len
                    };
                    self.state.cursor = self.state.chapter_len - keep;
                }
                match self.refill_current_chapter(workspace) {
                    Ok(()) => {},
                    Err(e) => return Err(e),
                }
            }
            if self.state.cursor >= self.state.chapter_len {
                self.state.chapter_loaded = false;
                continue;
            }
            let dir_len = self.state.chapter_dir_len;
            let mut chapter_dir = zeroed(dir_len);
            copy_into(chapter_dir.as_mut_slice(), slice_range(self.state.chapter_dir.as_slice(), 0, dir_len));
            let cursor_before = self.state.cursor;
            let chapter = slice_range(workspace.inflate.as_slice(), 0, self.state.chapter_len);
            match parse_next_xhtml_event(chapter, &mut self.state, chapter_dir.as_slice(), workspace.xml.as_mut_slice()) {
                Ok(Some(event)) => return Ok(Some(event)),
                Ok(None) => {},
                Err(e) => return Err(e),
            }
            if self.state.cursor == cursor_before {
                if !self.state.chapter_finished {
                    if self.state.cursor >= self.state.chapter_len {
                        let keep = if CHAPTER_TAIL_RESERVE < self.state.chapter_len {
                            CHAPTER_TAIL_RESERVE
                        } else {
                            self.state.chapter_len
                        };
                        self.state.cursor = self.state.chapter_len - keep;
                    }
                    match self.refill_current_chapter(workspace) {
                        Ok(()) => {},
                        Err(e) => return Err(e),
                    }
                } else {
                    self.state.cursor = self.state.chapter_len;
                }
            }
            if self.state.cursor >= self.state.chapter_len && self.state.chapter_finished {
                self.state.chapter_loaded = false;
            }
        }
    }

    /// The spine index of the chapter that the next load opens.
    pub fn next_spine_index(&self) -> (r: u16)
        ensures
            r == self.state.spine_index,
    {
        self.state.spine_index
    }

    /// How many chapters the spine lists (0 before the catalog is built).
    pub fn spine_count(&self) -> (r: u16)
        ensures
            r == self.state.spine_count,
    {
        self.state.spine_count
    }

    /// Whether every chapter has been read.
    pub fn is_complete(&self) -> (r: bool)
        ensures
            r == self.state.done,
    {
        self.state.done
    }

    /// Builds the catalog and moves to the start of chapter `spine_index`.
    pub fn resume_from_spine_index(&mut self, workspace: &mut ReaderBuffers, spine_index: u16) -> (r: Result<(), EpubError>)
        requires
            old(self).fits(old(workspace)),
        ensures
            final(self).fits(final(workspace)),
            Self::same_sizes(old(workspace), final(workspace)),
            r is Ok ==> final(self).state.spine_index == spine_index && !final(self).state.chapter_loaded,
    {
        if !self.state.catalog_ready {
            match self.prepare_catalog(workspace) {
                Ok(()) => {},
                Err(e) => return Err(e),
            }
            self.state.catalog_ready = true;
        }
        self.state.spine_index = spine_index;
        self.state.chapter_loaded = false;
        self.state.chapter_len = 0;
        self.state.cursor = 0;
        self.state.input_len = 0;
        self.state.input_cursor = 0;
        Ok(())
    }

    /// Finds the package document through `META-INF/container.xml` and builds
    /// the spine catalog.
    fn prepare_catalog(&mut self, ws: &mut ReaderBuffers) -> (r: Result<(), EpubError>)
        requires
            old(self).state.wf(),
        ensures
            final(self).state.wf(),
            Self::same_sizes(old(ws), final(ws)),
            final(self).state.cursor == old(self).state.cursor,
            final(self).state.chapter_len == old(self).state.chapter_len,
            final(self).state.input_len == old(self).state.input_len,
            final(self).state.input_cursor == old(self).state.input_cursor,
            final(self).state.done == old(self).state.done,
            r is Ok ==> catalog_valid(final(ws).catalog@, final(self).state.spine_count),
            old(self).source.bytes().len() < 22 ==> r == Err::<(), EpubError>(EpubError::InvalidFormat),
    {
        let reader = ArchiveReader { source: &self.source };
        match ws.archive.parse(&reader) {
            Ok(()) => {},
            Err(e) => return Err(zip_error(e)),
        }
        let container_entry = match ws.archive.entry_by_name(&reader, "META-INF/container.xml", ws.zip_cd.as_mut_slice()) {
            Ok(Some(e)) => e,
            Ok(None) => return Err(EpubError::InvalidFormat),
            Err(e) => return Err(zip_error(e)),
        };
        let container_len = match read_entry(&self.source, &container_entry, ws.inflate.as_mut_slice(), ws.zip_cd.as_mut_slice()) {
            Ok(n) => n,
            Err(e) => return Err(e),
        };
        let container = slice_range(ws.inflate.as_slice(), 0, container_len);
        let (opf_path_start, opf_path_len) = match parse_container_root(container) {
            Ok(v) => v,
            Err(e) => return Err(e),
        };
        if opf_path_len > 512 {
            return Err(EpubError::OutOfSpace);
        }
        let mut opf_path = zeroed(opf_path_len);
        copy_into(opf_path.as_mut_slice(), slice_range(container, opf_path_start, opf_path_start + opf_path_len));
        let opf_entry = match ws.archive.entry_by_name_bytes(&reader, opf_path.as_slice(), ws.zip_cd.as_mut_slice()) {
            Ok(Some(e)) => e,
            Ok(None) => return Err(EpubError::InvalidFormat),
            Err(e) => return Err(zip_error(e)),
        };
        let opf_len = match read_entry(&self.source, &opf_entry, ws.inflate.as_mut_slice(), ws.zip_cd.as_mut_slice()) {
            Ok(n) => n,
            Err(e) => return Err(e),
        };
        let count = match parse_opf(slice_range(ws.inflate.as_slice(), 0, opf_len), opf_path.as_slice(), ws.catalog.as_mut_slice()) {
            Ok(c) => c,
            Err(e) => return Err(e),
        };
        self.state.spine_count = count;
        Ok(())
    }

    /// Opens the chapter at the spine index: finds its entry, records its
    /// directory, resets the markup state and starts a new inflation stream.
    fn load_current_chapter(&mut self, ws: &mut ReaderBuffers) -> (r: Result<(), EpubError>)
        requires
            old(self).state.wf(),
        ensures
            final(self).state.wf(),
            Self::same_sizes(old(ws), final(ws)),
            final(self).state.done == old(self).state.done,
            r is Ok ==> final(self).state.chapter_loaded && final(self).state.chapter_len == 0 && final(self).state.cursor == 0
                && final(self).state.input_len == 0 && final(self).state.input_cursor == 0 && final(self).state.spine_index
                == (if old(self).state.spine_index < u16::MAX { old(self).state.spine_index + 1 } else { u16::MAX as int }),
            r is Err ==> final(self).state.cursor == old(self).state.cursor && final(self).state.chapter_len == old(self).state.chapter_len
                && final(self).state.input_len == old(self).state.input_len && final(self).state.input_cursor == old(self).state.input_cursor,
    {
        let index = self.state.spine_index;
        let (entry_start, entry_len) = match read_spine_entry(ws.catalog.as_slice(), index) {
            Ok(v) => v,
            Err(e) => return Err(e),
        };
        let chapter_path = slice_range(ws.catalog.as_slice(), entry_start, entry_start + entry_len);
        let reader = ArchiveReader { source: &self.source };
        let entry = match ws.archive.entry_by_name_bytes(&reader, chapter_path, ws.zip_cd.as_mut_slice()) {
            Ok(Some(e)) => e,
            Ok(None) => return Err(EpubError::InvalidFormat),
            Err(e) => return Err(zip_error(e)),
        };
        let base = path_parent(chapter_path);
        if base.len() > MAX_CHAPTER_DIR_BYTES {
            return Err(EpubError::OutOfSpace);
        }
        copy_into(self.state.chapter_dir.as_mut_slice(), base);
        self.state.chapter_dir_len = base.len();
        self.state.chapter_entry = Some(entry);
        self.state.chapter_len = 0;
        self.state.cursor = 0;
        self.state.input_len = 0;
        self.state.input_cursor = 0;
        self.state.compressed_read = 0;
        self.state.chapter_finished = match entry.compression {
            CompressionMethod::Stored => entry.uncompressed_size == 0,
            _ => false,
        };
        self.state.in_paragraph = false;
        self.state.in_heading = 0;
        self.state.in_pre = false;
        self.state.chapter_is_nav_doc = ends_with(chapter_path, "toc.xhtml".as_bytes()) || ends_with(
            chapter_path,
            "nav.xhtml".as_bytes(),
        );
        self.state.nav_suppress_outside = false;
        self.state.nav_visible_depth = 0;
        self.state.prev_space = false;
        self.state.last_nonspace_char = None;
        self.state.ignore_depth = 0;
        self.state.skip_tag_depth = 0;
        self.state.skip_tag_name_len = 0;
        self.state.skip_tag_name = zeroed(8);
        self.state.list_depth = 0;
        self.state.list_ordered = filled_bools(8, false);
        self.state.list_items = zeroed_u16(8);
        self.state.table_in_head = false;
        self.state.table_has_head = false;
        self.state.table_row_cols = 0;
        self.state.chapter_loaded = true;
        self.state.spine_index = if self.state.spine_index < u16::MAX { self.state.spine_index + 1 } else { u16::MAX };
        reset_raw(&mut *ws.stream_state);
        Ok(())
    }

    /// Moves the unread tail of the chapter window to its front and fills the
    /// room behind it with more of the chapter, read as stored or inflated.
    #[verifier::rlimit(100)]
    #[verifier::spinoff_prover]
    fn refill_current_chapter(&mut self, ws: &mut ReaderBuffers) -> (r: Result<(), EpubError>)
        requires
            old(self).fits(old(ws)),
        ensures
            final(self).fits(final(ws)),
            Self::same_sizes(old(ws), final(ws)),
            final(self).state.done == old(self).state.done,
            final(self).state.spine_index == old(self).state.spine_index,
            final(self).state.spine_count == old(self).state.spine_count,
            old(self).state.chapter_len - old(self).state.cursor == old(ws).inflate@.len() ==> r == Err::<(), EpubError>(
                EpubError::OutOfSpace,
            ),
            old(self).state.chapter_len - old(self).state.cursor < old(ws).inflate@.len() && old(self).state.chapter_entry
                is None ==> r == Err::<(), EpubError>(EpubError::InvalidFormat),
            old(self).state.chapter_entry matches Some(e) && e.compression is Other && old(self).state.chapter_len - old(
                self,
            ).state.cursor < old(ws).inflate@.len() ==> r == Err::<(), EpubError>(EpubError::Unsupported),
            r is Ok ==> {
                &&& final(self).state.cursor == 0
                &&& final(self).state.chapter_len >= old(self).state.chapter_len - old(self).state.cursor
                &&& final(ws).inflate@.subrange(0, old(self).state.chapter_len - old(self).state.cursor)
                    == old(ws).inflate@.subrange(old(self).state.cursor as int, old(self).state.chapter_len as int)
            },
            old(self).state.chapter_entry matches Some(e) && e.compression is Stored && old(self).state.chapter_len - old(
                self,
            ).state.cursor < old(ws).inflate@.len() ==> {
                &&& r is Ok || r == Err::<(), EpubError>(EpubError::Io)
                &&& r is Ok && old(self).state.compressed_read < old(self).state.chapter_entry.unwrap().uncompressed_size
                    ==> final(ws).inflate@.subrange(
                    old(self).state.chapter_len - old(self).state.cursor,
                    final(self).state.chapter_len as int,
                ) == final(self).source.bytes().subrange(
                    old(self).state.chapter_entry.unwrap().data_offset + old(self).state.compressed_read,
                    old(self).state.chapter_entry.unwrap().data_offset + old(self).state.compressed_read + final(self).state.chapter_len - (old(
                        self,
                    ).state.chapter_len - old(self).state.cursor),
                )
                &&& r is Ok && old(self).state.compressed_read < old(self).state.chapter_entry.unwrap().uncompressed_size ==> final(self).state.chapter_len
                    > old(self).state.chapter_len - old(self).state.cursor
            },
    {
        let buf_len = ws.inflate.len();
        let preserved = self.state.chapter_len - self.state.cursor;
        if preserved == buf_len {
            return Err(EpubError::OutOfSpace);
        }
        if preserved > 0 && self.state.cursor > 0 {
            compact(ws.inflate.as_mut_slice(), self.state.cursor, preserved);
        }
        self.state.chapter_len = preserved;
        self.state.cursor = 0;
        let entry = match self.state.chapter_entry {
            Some(e) => e,
            None => return Err(EpubError::InvalidFormat),
        };
        match entry.compression {
            CompressionMethod::Stored => {
                let total = entry.uncompressed_size as usize;
                if self.state.compressed_read >= total {
                    self.state.chapter_finished = true;
                    return Ok(());
                }
                let remaining = total - self.state.compressed_read;
                let room = buf_len - self.state.chapter_len;
                let to_read = if remaining < room { remaining } else { room };
                let offset = entry.data_offset as u64 + self.state.compressed_read as u64;
                let mut tmp = zeroed(to_read);
                match read_exact(&self.source, offset, tmp.as_mut_slice()) {
                    Ok(()) => {},
                    Err(e) => return Err(e),
                }
                let at = self.state.chapter_len;
                let ghost before = ws.inflate@;
                copy_at(ws.inflate.as_mut_slice(), at, tmp.as_slice(), to_read);
                proof {
                    assert(ws.inflate@.subrange(0, at as int) =~= before.subrange(0, at as int));
                    assert(ws.inflate@.subrange(at as int, at + to_read) =~= tmp@);
                }
                self.state.compressed_read = self.state.compressed_read + to_read;
                self.state.chapter_len = at + to_read;
                self.state.chapter_finished = self.state.compressed_read >= total;
                Ok(())
            },
            CompressionMethod::Deflate => self.refill_deflated(ws, entry),
            CompressionMethod::Other(_) => Err(EpubError::Unsupported),
        }
    }

    /// Inflates more of a deflated chapter into the room of the window.
    fn refill_deflated(&mut self, ws: &mut ReaderBuffers, entry: EpubEntryMetadata) -> (r: Result<(), EpubError>)
        requires
            old(self).fits(old(ws)),
        ensures
            final(self).fits(final(ws)),
            Self::same_sizes(old(ws), final(ws)),
            final(self).state.done == old(self).state.done,
            final(self).state.cursor == old(self).state.cursor,
            final(self).state.spine_index == old(self).state.spine_index,
            final(self).state.spine_count == old(self).state.spine_count,
            final(self).source == old(self).source,
            r is Ok ==> final(self).state.chapter_len >= old(self).state.chapter_len && final(ws).inflate@.subrange(
                0,
                old(self).state.chapter_len as int,
            ) == old(ws).inflate@.subrange(0, old(self).state.chapter_len as int),
    {
        let compressed_total = entry.compressed_size as usize;
        let buf_len = ws.inflate.len();
        let in_cap = ws.stream_input.len();
        if self.state.compressed_read > compressed_total {
            return Err(EpubError::InvalidFormat);
        }
        loop
            invariant
                self.fits(ws),
                Self::same_sizes(old(ws), ws),
                buf_len == ws.inflate@.len(),
                in_cap == ws.stream_input@.len(),
                self.state.compressed_read <= compressed_total,
                compressed_total == entry.compressed_size,
                self.state.done == old(self).state.done,
                self.state.cursor == old(self).state.cursor,
                self.state.spine_index == old(self).state.spine_index,
                self.state.spine_count == old(self).state.spine_count,
                self.source == old(self).source,
                self.state.chapter_len >= old(self).state.chapter_len,
                ws.inflate@.subrange(0, old(self).state.chapter_len as int) == old(ws).inflate@.subrange(
                    0,
                    old(self).state.chapter_len as int,
                ),
            decreases compressed_total - self.state.compressed_read, self.state.input_len - self.state.input_cursor,
        {
            if self.state.chapter_len >= buf_len {
                return Ok(());
            }
            let ghost read_before = self.state.compressed_read;
            let ghost in_before = self.state.input_len - self.state.input_cursor;
            let mut read_now = false;
            if self.state.input_cursor >= self.state.input_len && self.state.compressed_read < compressed_total {
                let remaining = compressed_total - self.state.compressed_read;
                let to_read = if remaining < in_cap { remaining } else { in_cap };
                if to_read == 0 {
                    return Err(EpubError::OutOfSpace);
                }
                let offset = entry.data_offset as u64 + self.state.compressed_read as u64;
                let mut tmp = zeroed(to_read);
                match read_exact(&self.source, offset, tmp.as_mut_slice()) {
                    Ok(()) => {},
                    Err(e) => return Err(e),
                }
                copy_into(ws.stream_input.as_mut_slice(), tmp.as_slice());
                self.state.compressed_read = self.state.compressed_read + to_read;
                self.state.input_len = to_read;
                self.state.input_cursor = 0;
                read_now = true;
            }
            let finish = self.state.compressed_read >= compressed_total;
            let at = self.state.chapter_len;
            let mut room = zeroed(buf_len - at);
            let step = inflate_stream(
                &mut *ws.stream_state,
                slice_range(ws.stream_input.as_slice(), self.state.input_cursor, self.state.input_len),
                room.as_mut_slice(),
                finish,
            );
            let ghost before = ws.inflate@;
            copy_at(ws.inflate.as_mut_slice(), at, room.as_slice(), step.written);
            proof {
                assert(ws.inflate@.subrange(0, old(self).state.chapter_len as int) =~= before.subrange(
                    0,
                    old(self).state.chapter_len as int,
                ));
            }
            self.state.input_cursor = self.state.input_cursor + step.consumed;
            self.state.chapter_len = at + step.written;
            let exhausted = self.state.input_cursor >= self.state.input_len;
            let more = self.state.compressed_read < compressed_total;
            match step.status {
                StreamStatus::Advanced => {
                    if step.written > 0 {
                        return Ok(());
                    }
                    if exhausted && !more {
                        return Err(EpubError::Compression);
                    }
                    if !read_now && step.consumed == 0 {
                        return Err(EpubError::Compression);
                    }
                },
                StreamStatus::StreamEnd => {
                    self.state.chapter_finished = true;
                    return Ok(());
                },
                StreamStatus::NeedDict => return Err(EpubError::Unsupported),
                StreamStatus::ErrBuf => {
                    if step.written > 0 || self.state.chapter_len >= buf_len {
                        return Ok(());
                    }
                    if !(exhausted && more) {
                        return Err(EpubError::OutOfSpace);
                    }
                },
                StreamStatus::ErrData => return Err(EpubError::Compression),
                StreamStatus::ErrStream | StreamStatus::ErrParam => return Err(EpubError::InvalidFormat),
                _ => return Err(EpubError::Compression),
            }
        }
    }
}

} // verus!
