//! A ZIP central-directory reader over random-access byte sources, sized for
//! fixed memory: nothing is owned but small scratch buffers.
use vstd::prelude::*;
use vstd::string::StringSliceAdditionalSpecFns;

verus! {

pub const EOCD_SIGNATURE: u32 = 0x0605_4B50;
pub const CENTRAL_DIRECTORY_SIGNATURE: u32 = 0x0201_4B50;
pub const LOCAL_FILE_HEADER_SIGNATURE: u32 = 0x0403_4B50;

pub const EOCD_FIXED_SIZE: usize = 22;
pub const CENTRAL_DIR_FILE_HEADER_SIZE: usize = 46;
pub const LOCAL_FILE_HEADER_SIZE: usize = 30;
pub const MAX_EOCD_LOOKBACK: usize = 65557;
pub const EOCD_SCAN_CHUNK: usize = 1024;
pub const EOCD_SIGNATURE_LEN: usize = 4;

/// A random-access byte source. `read_at` may return fewer bytes than asked for.
pub trait ZipSource {
    /// The bytes of the source.
    spec fn content(&self) -> Seq<u8>;

    fn len(&self) -> (r: usize)
        ensures
            r == self.content().len(),
    ;

    /// The source never fails a read and copies at least one byte of a read
    /// that starts inside it.
    spec fn reads_fully(&self) -> bool;

    /// Reads bytes at an absolute offset into `buffer` and returns how many were
    /// copied, each equal to the source byte at its offset.
    fn read_at(&self, offset: u64, buffer: &mut [u8]) -> (r: Result<usize, ()>)
        ensures
            final(buffer)@.len() == old(buffer)@.len(),
            r matches Ok(n) ==> n <= old(buffer)@.len() && (n > 0 ==> {
                &&& offset + n <= self.content().len()
                &&& final(buffer)@.subrange(0, n as int) == self.content().subrange(
                    offset as int,
                    offset + n,
                )
            }),
            self.reads_fully() && offset < self.content().len() && old(buffer)@.len() > 0 ==> (r matches Ok(n) && n > 0),
    ;
}

/// A source over a byte slice in memory.
#[derive(Clone, Copy)]
pub struct MemorySource<'a> {
    data: &'a [u8],
}

impl<'a> MemorySource<'a> {
    pub fn new(data: &'a [u8]) -> (r: Self)
        ensures
            r.content() == data@,
    {
        Self { data }
    }
}

impl<'a> ZipSource for MemorySource<'a> {
    closed spec fn content(&self) -> Seq<u8> {
        self.data@
    }

    /// Memory is always there to read.
    open spec fn reads_fully(&self) -> bool {
        true
    }

    fn len(&self) -> (r: usize) {
        self.data.len()
    }

    /// Copies as many bytes as fit, or none at or past the end of the data.
    fn read_at(&self, offset: u64, buffer: &mut [u8]) -> (r: Result<usize, ()>)
        ensures
            r == Ok::<usize, ()>(if offset >= self.content().len() { 0 } else if self.content().len() - offset < old(buffer)@.len() {
                (self.content().len() - offset) as usize
            } else {
                old(buffer)@.len() as usize
            }),
            forall|j: int| r.unwrap() <= j < old(buffer)@.len() ==> #[trigger] final(buffer)@[j] == old(buffer)@[j],
    {
        if offset >= self.data.len() as u64 || buffer.len() == 0 {
            return Ok(0);
        }
        let start = offset as usize;
        assert(start < self.data@.len());
        let available = self.data.len() - start;
        let to_copy = if available < buffer.len() { available } else { buffer.len() };
        let mut i: usize = 0;
        while i < to_copy
            invariant
                i <= to_copy,
                to_copy <= buffer@.len(),
                start + to_copy <= self.data.len(),
                buffer@.len() == old(buffer)@.len(),
                forall|j: int| 0 <= j < i ==> buffer@[j] == self.data@[start + j],
                forall|j: int| i <= j < buffer@.len() ==> buffer@[j] == old(buffer)@[j],
            decreases to_copy - i,
        {
            buffer[i] = self.data[start + i];
            i += 1;
        }
        assert(buffer@.subrange(0, to_copy as int) =~= self.data@.subrange(
            start as int,
            start + to_copy,
        ));
        Ok(to_copy)
    }
}

/// Errors of the ZIP reader.
#[derive(Debug)]
pub enum Error {
    /// A read from the backing source failed.
    Source,
    /// The EOCD record could not be found in the searchable trailer window.
    EocdNotFound,
    /// The source ended before the parser could satisfy a read request.
    ShortRead,
    /// The ZIP data is structurally invalid or unsupported for this parser.
    InvalidArchive(&'static str),
    /// The file used more records than the fixed capacity permits.
    TooManyEntries,
    /// The scratch buffer is too small for a record.
    NameBufferTooSmall,
    /// Arithmetic overflow was detected while calculating offsets.
    ArithmeticOverflow,
}

/// How an entry is stored.
#[derive(Debug, Clone, Copy, PartialEq, Eq, Structural)]
pub enum CompressionMethod {
    Stored,
    Deflate,
    Other(u16),
}

/// The compression method for a raw method number.
pub open spec fn compression_of(raw: u16) -> CompressionMethod {
    if raw == 0 {
        CompressionMethod::Stored
    } else if raw == 8 {
        CompressionMethod::Deflate
    } else {
        CompressionMethod::Other(raw)
    }
}

impl CompressionMethod {
    pub fn from_u16(raw: u16) -> (r: Self)
        ensures
            r == compression_of(raw),
    {
        match raw {
            0 => Self::Stored,
            8 => Self::Deflate,
            other => Self::Other(other),
        }
    }
}

/// The end-of-central-directory record.
#[derive(Debug, Clone, Copy, PartialEq, Eq, Structural)]
pub struct EndOfCentralDirectory {
    pub disk_number: u16,
    pub cd_entries_on_disk: u16,
    pub cd_entries_total: u16,
    pub cd_size: u32,
    pub cd_offset: u32,
    pub comment_length: u16,
}

impl EndOfCentralDirectory {
    pub fn empty() -> (r: Self)
        ensures
            r == (EndOfCentralDirectory {
                disk_number: 0,
                cd_entries_on_disk: 0,
                cd_entries_total: 0,
                cd_size: 0,
                cd_offset: 0,
                comment_length: 0,
            }),
    {
        Self {
            disk_number: 0,
            cd_entries_on_disk: 0,
            cd_entries_total: 0,
            cd_size: 0,
            cd_offset: 0,
            comment_length: 0,
        }
    }
}

/// Where and how an entry's data is stored.
#[derive(Debug, Clone, Copy, PartialEq, Eq, Structural)]
pub struct EpubEntryMetadata {
    pub compression: CompressionMethod,
    pub crc32: u32,
    pub compressed_size: u32,
    pub uncompressed_size: u32,
    pub local_header_offset: u32,
    pub data_offset: u32,
}

/// Little-endian `u16` at `p`.
pub open spec fn le16(s: Seq<u8>, p: int) -> u16 {
    (s[p] as int + s[p + 1] as int * 256) as u16
}

/// Little-endian `u32` at `p`.
pub open spec fn le32(s: Seq<u8>, p: int) -> u32 {
    (s[p] as int + s[p + 1] as int * 256 + s[p + 2] as int * 65536 + s[p + 3] as int
        * 16777216) as u32
}

/// Reads a little-endian `u16` at `p`.
pub fn u16_at(data: &[u8], p: usize) -> (r: u16)
    requires
        p + 2 <= data@.len(),
    ensures
        r == le16(data@, p as int),
{
    data[p] as u16 + (data[p + 1] as u16) * 256
}

/// Reads a little-endian `u32` at `p`.
pub fn u32_at(data: &[u8], p: usize) -> (r: u32)
    requires
        p + 4 <= data@.len(),
    ensures
        r == le32(data@, p as int),
{
    data[p] as u32 + (data[p + 1] as u32) * 256 + (data[p + 2] as u32) * 65536 + (data[p + 3] as u32)
        * 16777216
}

/// Little-endian `u16` from the first two bytes of `data`.
pub fn u16_from(data: &[u8]) -> (r: u16)
    requires
        2 <= data@.len(),
    ensures
        r == le16(data@, 0),
{
    u16_at(data, 0)
}

/// Little-endian `u32` from the first four bytes of `data`.
pub fn u32_from(data: &[u8]) -> (r: u32)
    requires
        4 <= data@.len(),
    ensures
        r == le32(data@, 0),
{
    u32_at(data, 0)
}

/// The fields of a central-directory file header.
#[derive(Debug, Clone, Copy, PartialEq, Eq, Structural)]
pub struct ParsedCentralDirectoryEntry {
    pub compression: CompressionMethod,
    pub crc32: u32,
    pub compressed_size: u32,
    pub uncompressed_size: u32,
    pub name_len: u16,
    pub extra_length: u16,
    pub comment_length: u16,
    pub local_header_offset: u32,
}

/// The header fields decoded from the 46 header bytes at `p`.
pub open spec fn cd_header_at(s: Seq<u8>, p: int) -> ParsedCentralDirectoryEntry {
    ParsedCentralDirectoryEntry {
        compression: compression_of(le16(s, p + 10)),
        crc32: le32(s, p + 16),
        compressed_size: le32(s, p + 20),
        uncompressed_size: le32(s, p + 24),
        name_len: le16(s, p + 28),
        extra_length: le16(s, p + 30),
        comment_length: le16(s, p + 32),
        local_header_offset: le32(s, p + 42),
    }
}

/// Whether a central-directory header signature starts at `p`.
pub open spec fn cd_signature_at(s: Seq<u8>, p: int) -> bool {
    le32(s, p) == CENTRAL_DIRECTORY_SIGNATURE
}

/// The full length of the central-directory record at `p`.
pub open spec fn cd_record_len(s: Seq<u8>, p: int) -> int {
    46 + le16(s, p + 28) + le16(s, p + 30) + le16(s, p + 32)
}

/// Decodes a central-directory file header.
pub fn parse_central_directory_entry_header(header: &[u8]) -> (r: Result<
    ParsedCentralDirectoryEntry,
    Error,
>)
    requires
        header@.len() >= 46,
    ensures
        r is Ok <==> cd_signature_at(header@, 0),
        r matches Ok(e) ==> e == cd_header_at(header@, 0),
        r matches Err(e) ==> e is InvalidArchive,
{
    if u32_at(header, 0) != CENTRAL_DIRECTORY_SIGNATURE {
        return Err(Error::InvalidArchive("invalid central directory signature"));
    }
    Ok(ParsedCentralDirectoryEntry {
        compression: CompressionMethod::from_u16(u16_at(header, 10)),
        crc32: u32_at(header, 16),
        compressed_size: u32_at(header, 20),
        uncompressed_size: u32_at(header, 24),
        name_len: u16_at(header, 28),
        extra_length: u16_at(header, 30),
        comment_length: u16_at(header, 32),
        local_header_offset: u32_at(header, 42),
    })
}

/// Decodes the central-directory header at `cursor` of an in-memory directory.
pub fn parse_central_directory_entry_from_slice(cd: &[u8], cursor: usize) -> (r: Result<
    ParsedCentralDirectoryEntry,
    Error,
>)
    ensures
        r is Ok <==> cursor + 46 <= cd@.len() && cd_signature_at(cd@, cursor as int),
        r matches Ok(e) ==> e == cd_header_at(cd@, cursor as int),
        r matches Err(e) ==> (if cursor + 46 > cd@.len() { e is ShortRead } else {
            e is InvalidArchive
        }),
{
    if cursor > cd.len() || cd.len() - cursor < CENTRAL_DIR_FILE_HEADER_SIZE {
        return Err(Error::ShortRead);
    }
    let header = slice_range(cd, cursor, cursor + CENTRAL_DIR_FILE_HEADER_SIZE);
    let r = parse_central_directory_entry_header(header);
    proof {
        assert(le32(header@, 0) == le32(cd@, cursor as int));
        assert(cd_header_at(header@, 0) == cd_header_at(cd@, cursor as int));
    }
    r
}

/// The subslice `data[start..end]`.
pub fn slice_range<'a>(data: &'a [u8], start: usize, end: usize) -> (r: &'a [u8])
    requires
        start <= end <= data@.len(),
    ensures
        r@ == data@.subrange(start as int, end as int),
{
    &data[start..end]
}

/// Fills `buffer` with the source bytes at `offset`, reading until it is full.
pub fn read_exact_at<S: ZipSource>(source: &S, offset: u64, buffer: &mut [u8]) -> (r: Result<(), Error>)
    ensures
        final(buffer)@.len() == old(buffer)@.len(),
        r is Ok ==> old(buffer)@.len() == 0 || (offset + old(buffer)@.len() <= source.content().len()
            && final(buffer)@ == source.content().subrange(offset as int, offset + old(buffer)@.len())),
        r matches Err(e) ==> e is Source || e is ShortRead,
        old(buffer)@.len() == 0 ==> r is Ok,
        source.reads_fully() && offset + old(buffer)@.len() <= source.content().len() && source.content().len()
            <= u64::MAX ==> r is Ok,
{
    let total = buffer.len();
    let mut consumed: usize = 0;
    while consumed < total
        invariant
            consumed <= total,
            total == buffer@.len(),
            buffer@.len() == old(buffer)@.len(),
            consumed > 0 ==> offset + consumed <= source.content().len(),
            forall|j: int| 0 <= j < consumed ==> buffer@[j] == source.content()[offset + j],
        decreases total - consumed,
    {
        let mut tmp: Vec<u8> = Vec::new();
        let mut k: usize = consumed;
        while k < total
            invariant
                consumed <= k <= total,
                tmp@.len() == k - consumed,
            decreases total - k,
        {
            tmp.push(0u8);
            k += 1;
        }
        if offset > u64::MAX - (consumed as u64) {
            return Err(Error::ShortRead);
        }
        let n = match source.read_at(offset + consumed as u64, tmp.as_mut_slice()) {
            Ok(n) => n,
            Err(_) => return Err(Error::Source),
        };
        if n == 0 {
            return Err(Error::ShortRead);
        }
        let ghost before = buffer@;
        let mut i: usize = 0;
        while i < n
            invariant
                i <= n,
                n <= tmp@.len(),
                consumed + tmp@.len() == total,
                total == buffer@.len(),
                offset + consumed + n <= source.content().len(),
                tmp@.subrange(0, n as int) == source.content().subrange(
                    offset + consumed,
                    offset + consumed + n,
                ),
                forall|j: int| 0 <= j < consumed ==> buffer@[j] == source.content()[offset + j],
                forall|j: int| consumed <= j < consumed + i ==> buffer@[j] == source.content()[offset + j],
            decreases n - i,
        {
            assert(tmp@[i as int] == tmp@.subrange(0, n as int)[i as int]);
            buffer[consumed + i] = tmp[i];
            i += 1;
        }
        consumed = consumed + n;
    }
    proof {
        if total > 0 {
            assert(offset + total <= source.content().len());
            assert(buffer@ =~= source.content().subrange(offset as int, offset + total));
        }
    }
    Ok(())
}


/// Whether a complete EOCD record whose comment ends the data starts at `p`.
pub open spec fn eocd_valid_at(c: Seq<u8>, p: int) -> bool {
    &&& 0 <= p
    &&& p + 22 <= c.len()
    &&& le32(c, p) == EOCD_SIGNATURE
    &&& p + 22 + le16(c, p + 20) == c.len()
}

/// Where the trailer search starts: at most 22 + 0xFFFF bytes before the end.
pub open spec fn eocd_scan_start(size: int) -> int {
    if size > 65557 { size - 65557 } else { 0 }
}

/// The record positions that the chunked trailer scan examines: those inside the
/// search window, except for the 18 positions before the last three bytes of each
/// full 1024-byte chunk, which no scan window holds whole.
pub open spec fn eocd_examined(size: int, p: int) -> bool {
    let s = eocd_scan_start(size);
    &&& s <= p
    &&& p + 22 <= size
    &&& !(1003 <= (p - s) % 1024 <= 1020)
}

/// `p` is the first examined position that holds a valid EOCD record.
pub open spec fn eocd_first_at(c: Seq<u8>, p: int) -> bool {
    &&& eocd_examined(c.len() as int, p)
    &&& eocd_valid_at(c, p)
    &&& forall|q: int| #![trigger eocd_valid_at(c, q)] eocd_examined(c.len() as int, q) && q < p ==> !eocd_valid_at(c, q)
}

/// The record decoded from the EOCD bytes at `p`.
pub open spec fn eocd_decoded(c: Seq<u8>, p: int) -> EndOfCentralDirectory {
    EndOfCentralDirectory {
        disk_number: le16(c, p + 4),
        cd_entries_on_disk: le16(c, p + 8),
        cd_entries_total: le16(c, p + 10),
        cd_size: le32(c, p + 12),
        cd_offset: le32(c, p + 16),
        comment_length: le16(c, p + 20),
    }
}

proof fn lemma_mod_offset(x: int, k: int, t: int)
    requires
        x == 1024 * k + t,
        0 <= t < 1024,
    ensures
        x % 1024 == t,
{
    vstd::arithmetic::div_mod::lemma_fundamental_div_mod_converse(x, 1024, k, t);
}

/// Every position of a scan window is examined.
proof fn lemma_examined_in_window(size: int, s: int, k: int, pos: int, q: int, carry_len: int, window_len: int)
    requires
        s == eocd_scan_start(size),
        k >= 0,
        carry_len == (if k == 0 { 0int } else { 3int }),
        q == s + 1024 * k - carry_len + pos,
        0 <= pos,
        pos + 22 <= window_len,
        window_len <= carry_len + 1024,
        q + 22 <= size,
    ensures
        eocd_examined(size, q),
{
    if k == 0 {
        lemma_mod_offset(q - s, 0, q - s);
    } else if pos < 3 {
        lemma_mod_offset(q - s, k - 1, 1021 + pos);
    } else {
        lemma_mod_offset(q - s, k, pos - 3);
    }
}

/// The positions between the last complete record of one scan window and the
/// carried bytes of the next are not examined.
proof fn lemma_unexamined_tail(size: int, s: int, k: int, q: int, next: int, read_size: int)
    requires
        s == eocd_scan_start(size),
        k >= 0,
        next == s + 1024 * k + read_size,
        next <= size,
        read_size <= 1024,
        next < size ==> read_size == 1024,
        next - 22 < q < next - 3,
    ensures
        !eocd_examined(size, q),
{
    if next < size {
        lemma_mod_offset(q - s, k, q - s - 1024 * k);
    }
}

/// Scans the trailer for the end-of-central-directory record in 1024-byte chunks,
/// carrying three bytes between chunks.
pub fn find_eocd<S: ZipSource>(source: &S, file_size: u64) -> (r: Result<EndOfCentralDirectory, Error>)
    requires
        file_size == source.content().len(),
    ensures
        r matches Ok(e) ==> exists|p: int| #![trigger eocd_first_at(source.content(), p)] eocd_first_at(source.content(), p) && e == eocd_decoded(
            source.content(),
            p,
        ),
        r matches Err(e) ==> (e is EocdNotFound && forall|q: int| #![trigger eocd_valid_at(source.content(), q)]
            eocd_examined(file_size as int, q) ==> !eocd_valid_at(source.content(), q)) || e is Source
            || e is ShortRead,
        file_size < 22 ==> r matches Err(Error::EocdNotFound),
        source.reads_fully() ==> r is Ok || r matches Err(Error::EocdNotFound),
{
    let ghost c = source.content();
    if file_size < EOCD_FIXED_SIZE as u64 {
        return Err(Error::EocdNotFound);
    }
    let search_size: u64 = if file_size > MAX_EOCD_LOOKBACK as u64 {
        MAX_EOCD_LOOKBACK as u64
    } else {
        file_size
    };
    let scan_start = file_size - search_size;
    assert(scan_start == eocd_scan_start(file_size as int));
    let mut carry: Vec<u8> = Vec::new();
    let mut cursor = scan_start;
    let ghost mut k: int = 0;

    while cursor < file_size
        invariant
            file_size == c.len(),
            c == source.content(),
            scan_start == eocd_scan_start(file_size as int),
            scan_start + 22 <= file_size,
            scan_start <= cursor <= file_size,
            cursor == scan_start + 1024 * k || cursor == file_size,
            k >= 0,
            carry@.len() == (if k == 0 { 0int } else { 3int }),
            k > 0 ==> cursor >= scan_start + 3,
            k > 0 ==> carry@ == c.subrange(cursor - 3, cursor as int),
            forall|q: int| #![trigger eocd_valid_at(c, q)] eocd_examined(file_size as int, q) && q < cursor - carry@.len() ==> !eocd_valid_at(c, q),
        decreases file_size - cursor,
    {
        let remaining = file_size - cursor;
        let read_size: usize = if remaining < EOCD_SCAN_CHUNK as u64 {
            remaining as usize
        } else {
            EOCD_SCAN_CHUNK
        };
        let mut chunk: Vec<u8> = Vec::new();
        let mut i: usize = 0;
        while i < read_size
            invariant
                i <= read_size,
                chunk@.len() == i,
            decreases read_size - i,
        {
            chunk.push(0u8);
            i += 1;
        }
        match read_exact_at(source, cursor, chunk.as_mut_slice()) {
            Ok(()) => {},
            Err(e) => return Err(e),
        }
        let carry_len = carry.len();
        let mut window: Vec<u8> = Vec::new();
        let mut j: usize = 0;
        while j < carry_len
            invariant
                j <= carry_len,
                carry_len == carry@.len(),
                window@ == carry@.subrange(0, j as int),
            decreases carry_len - j,
        {
            window.push(carry[j]);
            j += 1;
        }
        let mut j: usize = 0;
        while j < read_size
            invariant
                j <= read_size,
                read_size == chunk@.len(),
                window@ == carry@ + chunk@.subrange(0, j as int),
            decreases read_size - j,
        {
            window.push(chunk[j]);
            j += 1;
        }
        let window_len = window.len();
        let window_base: u64 = cursor - carry_len as u64;
        proof {
            assert(chunk@ == c.subrange(cursor as int, cursor + read_size));
            assert(chunk@.subrange(0, read_size as int) == chunk@);
            assert(window@ =~= c.subrange(window_base as int, cursor + read_size));
            if k == 0 {
                assert(read_size >= 22);
            }
        }
        let mut pos: usize = 0;
        if window_len >= EOCD_FIXED_SIZE {
            while pos < window_len - 21
                invariant
                    window_len >= 22,
                    c == source.content(),
                    pos <= window_len - 21,
                    window_len == window@.len(),
                    window@ == c.subrange(window_base as int, window_base + window_len),
                    window_base + window_len == cursor + read_size,
                    cursor + read_size <= file_size,
                    file_size == c.len(),
                    window_base == cursor - carry_len,
                    carry_len == (if k == 0 { 0int } else { 3int }),
                    cursor == scan_start + 1024 * k,
                    k >= 0,
                    read_size <= 1024,
                    scan_start == eocd_scan_start(file_size as int),
                    forall|q: int| #![trigger eocd_valid_at(c, q)] eocd_examined(file_size as int, q) && q < window_base ==> !eocd_valid_at(c, q),
                    forall|q: int| #![trigger eocd_valid_at(c, q)] window_base <= q < window_base + pos ==> !eocd_valid_at(c, q),
                decreases window_len - pos,
            {
                let sig = u32_at(window.as_slice(), pos);
                let comment_len = u16_at(window.as_slice(), pos + 20);
                let absolute = window_base + pos as u64;
                proof {
                    assert(le32(window@, pos as int) == le32(c, absolute as int));
                    assert(le16(window@, pos + 20) == le16(c, absolute + 20));
                }
                let end = absolute.checked_add(EOCD_FIXED_SIZE as u64 + comment_len as u64);
                if sig == EOCD_SIGNATURE && end == Some(file_size) {
                    let w = window.as_slice();
                    let e = EndOfCentralDirectory {
                        disk_number: u16_at(w, pos + 4),
                        cd_entries_on_disk: u16_at(w, pos + 8),
                        cd_entries_total: u16_at(w, pos + 10),
                        cd_size: u32_at(w, pos + 12),
                        cd_offset: u32_at(w, pos + 16),
                        comment_length: comment_len,
                    };
                    proof {
                        assert(le16(window@, pos + 4) == le16(c, absolute + 4));
                        assert(le16(window@, pos + 8) == le16(c, absolute + 8));
                        assert(le16(window@, pos + 10) == le16(c, absolute + 10));
                        assert(le32(window@, pos + 12) == le32(c, absolute + 12));
                        assert(le32(window@, pos + 16) == le32(c, absolute + 16));
                        assert(eocd_valid_at(c, absolute as int));
                        lemma_examined_in_window(file_size as int, scan_start as int, k, pos as int,
                            absolute as int, carry_len as int, window_len as int);
                        assert(eocd_first_at(c, absolute as int));
                        assert(e == eocd_decoded(c, absolute as int));
                        assert(eocd_first_at(source.content(), absolute as int));
                    }
                    return Ok(e);
                }
                pos += 1;
            }
        }
        let ghost next_cursor = cursor + read_size;
        proof {
            assert forall|q: int| #![trigger eocd_valid_at(c, q)] eocd_examined(file_size as int, q) && q < next_cursor - 3 implies !eocd_valid_at(c, q) by {
                if q >= window_base && q < window_base + pos {
                } else if q >= window_base {
                    lemma_unexamined_tail(file_size as int, scan_start as int, k, q, next_cursor, read_size as int);
                }
            }
        }
        let new_carry_start = window_len - 3;
        let mut nc: Vec<u8> = Vec::new();
        let mut j: usize = new_carry_start;
        while j < window_len
            invariant
                new_carry_start <= j <= window_len,
                window_len == window@.len(),
                nc@ == window@.subrange(new_carry_start as int, j as int),
            decreases window_len - j,
        {
            nc.push(window[j]);
            j += 1;
        }
        proof {
            assert(nc@ =~= c.subrange(next_cursor - 3, next_cursor));
        }
        carry = nc;
        cursor = cursor + read_size as u64;
        proof {
            k = k + 1;
        }
    }
    Err(Error::EocdNotFound)
}


/// The offset of an entry's data: after the 30-byte local header, its name and extra field.
pub open spec fn local_data_offset_spec(c: Seq<u8>, lo: int) -> int {
    lo + 30 + le16(c, lo + 26) + le16(c, lo + 28)
}

/// Reads the local file header at `local_offset` and returns where the entry's data starts.
pub fn compute_local_data_offset<S: ZipSource>(source: &S, local_offset: u64) -> (r: Result<u32, Error>)
    requires
        local_offset <= u32::MAX,
    ensures
        r matches Ok(v) ==> local_offset + 30 <= source.content().len() && le32(
            source.content(),
            local_offset as int,
        ) == LOCAL_FILE_HEADER_SIGNATURE && v == local_data_offset_spec(
            source.content(),
            local_offset as int,
        ),
        r matches Err(e) ==> e is Source || e is ShortRead || (e is InvalidArchive && local_offset
            + 30 <= source.content().len() && le32(source.content(), local_offset as int)
            != LOCAL_FILE_HEADER_SIGNATURE) || (e is ArithmeticOverflow && local_offset + 30
            <= source.content().len() && local_data_offset_spec(source.content(), local_offset as int)
            > u32::MAX),
{
    let mut header: Vec<u8> = Vec::new();
    let mut i: usize = 0;
    while i < LOCAL_FILE_HEADER_SIZE
        invariant
            i <= LOCAL_FILE_HEADER_SIZE,
            header@.len() == i,
        decreases LOCAL_FILE_HEADER_SIZE - i,
    {
        header.push(0u8);
        i += 1;
    }
    match read_exact_at(source, local_offset, header.as_mut_slice()) {
        Ok(()) => {},
        Err(e) => return Err(e),
    }
    let ghost c = source.content();
    proof {
        assert(le32(header@, 0) == le32(c, local_offset as int));
        assert(le16(header@, 26) == le16(c, local_offset + 26));
        assert(le16(header@, 28) == le16(c, local_offset + 28));
    }
    if u32_at(header.as_slice(), 0) != LOCAL_FILE_HEADER_SIGNATURE {
        return Err(Error::InvalidArchive("invalid local header signature"));
    }
    let name_len = u16_at(header.as_slice(), 26);
    let extra_len = u16_at(header.as_slice(), 28);
    let total: u64 = local_offset + 30 + name_len as u64 + extra_len as u64;
    if total > u32::MAX as u64 {
        return Err(Error::ArithmeticOverflow);
    }
    Ok(total as u32)
}

/// Reads and decodes the central-directory header at `cursor` of the source.
pub fn parse_central_directory_entry<S: ZipSource>(source: &S, cursor: u64) -> (r: Result<
    ParsedCentralDirectoryEntry,
    Error,
>)
    ensures
        r matches Ok(e) ==> cursor + 46 <= source.content().len() && cd_signature_at(
            source.content(),
            cursor as int,
        ) && e == cd_header_at(source.content(), cursor as int),
        r matches Err(e) ==> e is Source || e is ShortRead || (e is InvalidArchive && cursor + 46
            <= source.content().len() && !cd_signature_at(source.content(), cursor as int)),
        source.reads_fully() && cursor + 46 <= source.content().len() && source.content().len() <= u64::MAX
            && cd_signature_at(source.content(), cursor as int) ==> r is Ok,
{
    let mut header: Vec<u8> = Vec::new();
    let mut i: usize = 0;
    while i < CENTRAL_DIR_FILE_HEADER_SIZE
        invariant
            i <= CENTRAL_DIR_FILE_HEADER_SIZE,
            header@.len() == i,
        decreases CENTRAL_DIR_FILE_HEADER_SIZE - i,
    {
        header.push(0u8);
        i += 1;
    }
    match read_exact_at(source, cursor, header.as_mut_slice()) {
        Ok(()) => {},
        Err(e) => return Err(e),
    }
    let ghost c = source.content();
    proof {
        assert(le32(header@, 0) == le32(c, cursor as int));
        assert(cd_header_at(header@, 0) == cd_header_at(c, cursor as int));
    }
    parse_central_directory_entry_header(header.as_slice())
}

/// Whether two byte slices hold the same bytes.
pub fn bytes_eq(lhs: &[u8], rhs: &[u8]) -> (r: bool)
    ensures
        r == (lhs@ == rhs@),
{
    if lhs.len() != rhs.len() {
        return false;
    }
    let mut i: usize = 0;
    while i < lhs.len()
        invariant
            i <= lhs@.len(),
            lhs@.len() == rhs@.len(),
            forall|j: int| 0 <= j < i ==> lhs@[j] == rhs@[j],
        decreases lhs@.len() - i,
    {
        if lhs[i] != rhs[i] {
            return false;
        }
        i += 1;
    }
    assert(lhs@ =~= rhs@);
    true
}

/// Walks `n` central-directory records from `cursor`; the position after them,
/// or `None` where a record is cut short or lacks its signature.
pub open spec fn cd_walk(c: Seq<u8>, cursor: int, n: nat) -> Option<int>
    decreases n,
{
    if n == 0 {
        Some(cursor)
    } else if cursor + 46 <= c.len() && cd_signature_at(c, cursor) {
        cd_walk(c, cursor + cd_record_len(c, cursor), (n - 1) as nat)
    } else {
        None
    }
}

/// The name bytes of the record at `p`.
pub open spec fn cd_name_at(c: Seq<u8>, p: int) -> Seq<u8> {
    c.subrange(p + 46, p + 46 + le16(c, p + 28))
}

/// Whether the record at `cursor` has its signature and lies, name included,
/// inside `[cursor, end)`.
pub open spec fn cd_record_fits(c: Seq<u8>, cursor: int, end: int) -> bool {
    &&& 0 <= cursor
    &&& cursor + 46 <= end
    &&& end <= c.len()
    &&& cd_signature_at(c, cursor)
    &&& cursor + 46 + le16(c, cursor + 28) <= end
}

/// The first record at or after `cursor`, before `end`, whose name is `needle`,
/// walking record by record; `None` when the walk reaches `end` or meets a record
/// that does not fit first.
pub open spec fn cd_first_match(c: Seq<u8>, cursor: int, end: int, needle: Seq<u8>) -> Option<int>
    decreases (if cursor < end { end - cursor } else { 0 }),
{
    if cursor >= end || !cd_record_fits(c, cursor, end) {
        None
    } else if cd_name_at(c, cursor) == needle {
        Some(cursor)
    } else {
        cd_first_match(c, cursor + cd_record_len(c, cursor), end, needle)
    }
}

/// Walking a directory held apart from the archive finds the same record, shifted.
pub proof fn lemma_first_match_shift(c: Seq<u8>, s: int, e: int, x: int, needle: Seq<u8>)
    requires
        0 <= s <= e <= c.len(),
        0 <= x,
    ensures
        cd_first_match(c.subrange(s, e), x, e - s, needle) == (match cd_first_match(c, s + x, e, needle) {
            Some(q) => Some(q - s),
            None => None,
        }),
    decreases (if x < e - s { e - s - x } else { 0 }),
{
    let d = c.subrange(s, e);
    if x < e - s && x + 46 <= e - s {
        assert(le32(d, x) == le32(c, s + x));
        assert(le16(d, x + 28) == le16(c, s + x + 28));
        assert(le16(d, x + 30) == le16(c, s + x + 30));
        assert(le16(d, x + 32) == le16(c, s + x + 32));
        if cd_record_fits(d, x, e - s) {
            assert(cd_name_at(d, x) =~= cd_name_at(c, s + x));
            lemma_first_match_shift(c, s, e, x + cd_record_len(d, x), needle);
        }
    }
}

/// The metadata of the record at `p` with its data at `data_offset`.
pub open spec fn entry_meta_spec(c: Seq<u8>, p: int, data_offset: u32) -> EpubEntryMetadata {
    let h = cd_header_at(c, p);
    EpubEntryMetadata {
        compression: h.compression,
        crc32: h.crc32,
        compressed_size: h.compressed_size,
        uncompressed_size: h.uncompressed_size,
        local_header_offset: h.local_header_offset,
        data_offset,
    }
}

/// A lookup result that belongs to the record at `p` of the directory `cd`,
/// its data offset read from the local header in `c`.
pub open spec fn meta_of_record(cd: Seq<u8>, p: int, m: EpubEntryMetadata, c: Seq<u8>) -> bool {
    &&& m == entry_meta_spec(cd, p, m.data_offset)
    &&& m.local_header_offset + 30 <= c.len()
    &&& le32(c, m.local_header_offset as int) == LOCAL_FILE_HEADER_SIGNATURE
    &&& m.data_offset == local_data_offset_spec(c, m.local_header_offset as int)
}

/// A record named `needle` starts at `q` of the archive `c`.
pub open spec fn record_named(c: Seq<u8>, q: int, needle: Seq<u8>) -> bool {
    &&& 0 <= q
    &&& q + 46 <= c.len()
    &&& cd_signature_at(c, q)
    &&& q + 46 + le16(c, q + 28) <= c.len()
    &&& cd_name_at(c, q) == needle
}

/// The abstract state of an archive: its EOCD record and how many entries it lists.
pub struct ArchiveView {
    pub eocd: EndOfCentralDirectory,
    pub entry_count: nat,
}

/// The parsed directory of a ZIP archive that lists at most `MAX_ENTRIES` entries.
#[derive(Debug)]
pub struct EpubArchive<const MAX_ENTRIES: usize, const NAME_CAPACITY: usize> {
    eocd: EndOfCentralDirectory,
    entry_count: usize,
}

impl<const MAX_ENTRIES: usize, const NAME_CAPACITY: usize> View for EpubArchive<MAX_ENTRIES, NAME_CAPACITY> {
    type V = ArchiveView;

    closed spec fn view(&self) -> ArchiveView {
        ArchiveView { eocd: self.eocd, entry_count: self.entry_count as nat }
    }
}

/// Whether the archive state describes the central directory of `c`.
pub open spec fn archive_parsed(c: Seq<u8>, v: ArchiveView, max_entries: nat) -> bool {
    let e = v.eocd;
    &&& exists|p: int| #![trigger eocd_first_at(c, p)] eocd_first_at(c, p) && e == eocd_decoded(c, p)
    &&& e.disk_number == 0
    &&& e.cd_entries_on_disk == e.cd_entries_total
    &&& e.cd_entries_total <= max_entries
    &&& e.cd_offset + e.cd_size <= c.len()
    &&& cd_walk(c, e.cd_offset as int, e.cd_entries_total as nat) == Some(e.cd_offset + e.cd_size)
    &&& v.entry_count == e.cd_entries_total
}

/// The trailer `e` describes a single-disk central directory of at most
/// `max_entries` records that lies in `c` and that its records fill exactly.
pub open spec fn trailer_ok(c: Seq<u8>, e: EndOfCentralDirectory, max_entries: nat) -> bool {
    &&& e.disk_number == 0
    &&& e.cd_entries_on_disk == e.cd_entries_total
    &&& e.cd_entries_total <= max_entries
    &&& e.cd_offset + e.cd_size <= c.len()
    &&& cd_walk(c, e.cd_offset as int, e.cd_entries_total as nat) == Some(e.cd_offset + e.cd_size)
}

/// `c` is a ZIP archive that the reader accepts: the first trailer the search
/// examines is valid and describes its central directory.
pub open spec fn archive_well_formed(c: Seq<u8>, max_entries: nat) -> bool {
    exists|p: int| #![trigger eocd_first_at(c, p)] eocd_first_at(c, p) && trailer_ok(c, eocd_decoded(c, p), max_entries)
}

/// There is one first trailer.
proof fn lemma_first_trailer_unique(c: Seq<u8>, p: int, q: int)
    requires
        eocd_first_at(c, p),
        eocd_first_at(c, q),
    ensures
        p == q,
{
    if p < q {
        assert(eocd_valid_at(c, p));
    } else if q < p {
        assert(eocd_valid_at(c, q));
    }
}

/// Walking records only moves forward.
proof fn lemma_walk_forward(c: Seq<u8>, cursor: int, n: nat)
    requires
        cd_walk(c, cursor, n) is Some,
    ensures
        cursor <= cd_walk(c, cursor, n).unwrap(),
    decreases n,
{
    if n > 0 {
        lemma_walk_forward(c, cursor + cd_record_len(c, cursor), (n - 1) as nat);
    }
}

/// Copies the `len` source bytes at `offset` into the front of `scratch`.
fn read_into_prefix<S: ZipSource>(source: &S, offset: u64, scratch: &mut [u8], len: usize) -> (r: Result<(), Error>)
    requires
        len <= old(scratch)@.len(),
    ensures
        final(scratch)@.len() == old(scratch)@.len(),
        r is Ok ==> len == 0 || (offset + len <= source.content().len() && final(scratch)@.subrange(0, len as int)
            == source.content().subrange(offset as int, offset + len)),
        r matches Err(e) ==> e is Source || e is ShortRead,
        len == 0 ==> r is Ok,
{
    let mut tmp: Vec<u8> = Vec::new();
    let mut i: usize = 0;
    while i < len
        invariant
            i <= len,
            tmp@.len() == i,
        decreases len - i,
    {
        tmp.push(0u8);
        i += 1;
    }
    match read_exact_at(source, offset, tmp.as_mut_slice()) {
        Ok(()) => {},
        Err(e) => return Err(e),
    }
    let mut j: usize = 0;
    while j < len
        invariant
            j <= len,
            len == tmp@.len(),
            len <= scratch@.len(),
            scratch@.len() == old(scratch)@.len(),
            forall|k: int| 0 <= k < j ==> scratch@[k] == tmp@[k],
        decreases len - j,
    {
        scratch[j] = tmp[j];
        j += 1;
    }
    proof {
        if len > 0 {
            assert(scratch@.subrange(0, len as int) =~= tmp@);
        }
    }
    Ok(())
}

impl<const MAX_ENTRIES: usize, const NAME_CAPACITY: usize> EpubArchive<MAX_ENTRIES, NAME_CAPACITY> {
    /// An archive with no entries.
    pub fn new() -> (r: Self)
        ensures
            r@ == (ArchiveView { eocd: EndOfCentralDirectory::empty_spec(), entry_count: 0 }),
    {
        Self { eocd: EndOfCentralDirectory::empty(), entry_count: 0 }
    }

    /// How many entries were counted.
    pub fn len(&self) -> (r: usize)
        ensures
            r == self@.entry_count,
    {
        self.entry_count
    }

    /// The EOCD record.
    pub fn eocd(&self) -> (r: &EndOfCentralDirectory)
        ensures
            *r == self@.eocd,
    {
        &self.eocd
    }

    /// The size of the central directory in bytes.
    pub fn central_directory_size(&self) -> (r: usize)
        ensures
            r == self@.eocd.cd_size,
    {
        self.eocd.cd_size as usize
    }

    /// Forgets the counted entries.
    pub fn clear(&mut self)
        ensures
            final(self)@ == (ArchiveView { entry_count: 0, ..old(self)@ }),
    {
        self.entry_count = 0;
    }

    /// Locates the EOCD record and checks that the central directory is one
    /// contiguous run of exactly the announced number of records.
    #[verifier::rlimit(80)]
    pub fn parse<S: ZipSource>(&mut self, source: &S) -> (r: Result<(), Error>)
        ensures
            r is Ok ==> archive_parsed(source.content(), final(self)@, MAX_ENTRIES as nat),
            r is Err ==> final(self)@.eocd == old(self)@.eocd,
            r matches Err(e) ==> match e {
                Error::TooManyEntries => exists|p: int| #![trigger eocd_first_at(source.content(), p)] eocd_first_at(source.content(), p)
                    && eocd_decoded(source.content(), p).cd_entries_total > MAX_ENTRIES,
                Error::EocdNotFound => forall|q: int| #![trigger eocd_valid_at(source.content(), q)]
                    eocd_examined(source.content().len() as int, q) ==> !eocd_valid_at(source.content(), q),
                Error::InvalidArchive(_) => true,
                Error::Source => true,
                Error::ShortRead => true,
                Error::ArithmeticOverflow => true,
                _ => false,
            },
            source.content().len() < 22 ==> r matches Err(Error::EocdNotFound),
            r matches Err(e) && !(e is InvalidArchive || e is Source || e is ShortRead || e is ArithmeticOverflow)
                ==> final(self)@.entry_count == 0,
            r matches Err(Error::InvalidArchive(_)) ==> exists|p: int| #![trigger eocd_first_at(source.content(), p)]
                eocd_first_at(source.content(), p),
            source.reads_fully() && archive_well_formed(source.content(), MAX_ENTRIES as nat) ==> r is Ok,
    {
        self.clear();
        let file_size = source.len() as u64;
        let eocd = match find_eocd(source, file_size) {
            Ok(e) => e,
            Err(e) => return Err(e),
        };
        assert(file_size >= 22);
        let ghost ok = source.reads_fully() && archive_well_formed(source.content(), MAX_ENTRIES as nat);
        proof {
            if ok {
                let p = choose|p: int| #![trigger eocd_first_at(source.content(), p)] eocd_first_at(source.content(), p)
                    && trailer_ok(source.content(), eocd_decoded(source.content(), p), MAX_ENTRIES as nat);
                let q = choose|q: int| #![trigger eocd_first_at(source.content(), q)] eocd_first_at(source.content(), q)
                    && eocd == eocd_decoded(source.content(), q);
                lemma_first_trailer_unique(source.content(), p, q);
                assert(trailer_ok(source.content(), eocd, MAX_ENTRIES as nat));
            }
        }
        if eocd.disk_number != 0 || eocd.cd_entries_on_disk != eocd.cd_entries_total {
            return Err(Error::InvalidArchive("multi-disk archives are not supported"));
        }
        let entry_count = eocd.cd_entries_total as usize;
        if entry_count > MAX_ENTRIES {
            return Err(Error::TooManyEntries);
        }
        let cd_start = eocd.cd_offset as u64;
        let cd_end = cd_start + eocd.cd_size as u64;
        if cd_end > file_size {
            return Err(Error::InvalidArchive("central directory exceeds source length"));
        }
        let ghost c = source.content();
        let mut cursor = cd_start;
        let mut idx: usize = 0;
        while idx < entry_count
            invariant
                idx <= entry_count,
                c == source.content(),
                self@.eocd == old(self)@.eocd,
                self.entry_count == idx,
                cd_walk(c, cd_start as int, entry_count as nat) == cd_walk(c, cursor as int, (entry_count - idx) as nat),
                cursor <= c.len(),
                c.len() <= usize::MAX,
                file_size == c.len(),
                c.len() >= 22,
                exists|p: int| #![trigger eocd_first_at(c, p)] eocd_first_at(c, p),
                ok == (source.reads_fully() && archive_well_formed(c, MAX_ENTRIES as nat)),
                ok ==> cd_walk(c, cursor as int, (entry_count - idx) as nat) == Some(cd_end as int),
                cd_end <= file_size,
            decreases entry_count - idx,
        {
            proof {
                if ok {
                    assert(cd_walk(c, cursor as int, (entry_count - idx) as nat) == cd_walk(c, cursor + cd_record_len(c, cursor as int), (entry_count - idx - 1) as nat));
                    lemma_walk_forward(c, cursor + cd_record_len(c, cursor as int), (entry_count - idx - 1) as nat);
                }
            }
            let entry = match parse_central_directory_entry(source, cursor) {
                Ok(e) => e,
                Err(e) => return Err(e),
            };
            self.entry_count = self.entry_count + 1;
            let step = CENTRAL_DIR_FILE_HEADER_SIZE as u64 + entry.name_len as u64
                + entry.extra_length as u64 + entry.comment_length as u64;
            let next = match cursor.checked_add(step) {
                Some(v) => v,
                None => return Err(Error::ArithmeticOverflow),
            };
            proof {
                assert(next == cursor + cd_record_len(c, cursor as int));
            }
            if next > file_size {
                return Err(Error::InvalidArchive("central directory size did not match parsed entry headers"));
            }
            cursor = next;
            idx += 1;
        }
        if cursor != cd_end {
            return Err(Error::InvalidArchive("central directory size did not match parsed entry headers"));
        }
        self.eocd = eocd;
        Ok(())
    }
}

/// Builds the metadata of a matched record.
fn metadata_for<S: ZipSource>(source: &S, entry: ParsedCentralDirectoryEntry) -> (r: Result<EpubEntryMetadata, Error>)
    ensures
        r matches Ok(m) ==> m.compression == entry.compression && m.crc32 == entry.crc32
            && m.compressed_size == entry.compressed_size && m.uncompressed_size
            == entry.uncompressed_size && m.local_header_offset == entry.local_header_offset
            && m.local_header_offset + 30 <= source.content().len() && le32(source.content(), m.local_header_offset as int)
            == LOCAL_FILE_HEADER_SIGNATURE && m.data_offset == local_data_offset_spec(source.content(), m.local_header_offset as int),
        r matches Err(e) ==> e is Source || e is ShortRead || e is InvalidArchive || e is ArithmeticOverflow,
{
    let data_offset = match compute_local_data_offset(source, entry.local_header_offset as u64) {
        Ok(v) => v,
        Err(e) => return Err(e),
    };
    Ok(EpubEntryMetadata {
        compression: entry.compression,
        crc32: entry.crc32,
        compressed_size: entry.compressed_size,
        uncompressed_size: entry.uncompressed_size,
        local_header_offset: entry.local_header_offset,
        data_offset,
    })
}

impl<const MAX_ENTRIES: usize, const NAME_CAPACITY: usize> EpubArchive<MAX_ENTRIES, NAME_CAPACITY> {
    /// Finds the first entry named `needle` in a central directory held in memory.
    pub fn entry_by_name_bytes_in_cd<S: ZipSource>(
        &self,
        source: &S,
        needle: &[u8],
        cd: &[u8],
    ) -> (r: Result<Option<EpubEntryMetadata>, Error>)
        ensures
            r matches Ok(Some(m)) ==> cd_first_match(cd@, 0, cd@.len() as int, needle@) matches Some(q)
                && meta_of_record(cd@, q, m, source.content()),
            r matches Ok(None) ==> cd_first_match(cd@, 0, cd@.len() as int, needle@) is None,
            r matches Err(e) ==> e is Source || e is ShortRead || e is InvalidArchive || e is ArithmeticOverflow,
    {
        let ghost d = cd@;
        let mut cursor: usize = 0;
        while cursor < cd.len()
            invariant
                d == cd@,
                cd_first_match(d, 0, d.len() as int, needle@) == cd_first_match(d, cursor as int, d.len() as int, needle@),
            decreases (if cursor <= cd@.len() { cd@.len() - cursor } else { 0 }),
        {
            let entry = match parse_central_directory_entry_from_slice(cd, cursor) {
                Ok(e) => e,
                Err(e) => return Err(e),
            };
            let name_start = cursor + CENTRAL_DIR_FILE_HEADER_SIZE;
            if entry.name_len as usize > cd.len() - name_start {
                return Err(Error::InvalidArchive("entry name exceeds central directory"));
            }
            let name_end = name_start + entry.name_len as usize;
            let name = slice_range(cd, name_start, name_end);
            if bytes_eq(name, needle) {
                let m = match metadata_for(source, entry) {
                    Ok(m) => m,
                    Err(e) => return Err(e),
                };
                return Ok(Some(m));
            }
            let step = CENTRAL_DIR_FILE_HEADER_SIZE + entry.name_len as usize + entry.extra_length as usize
                + entry.comment_length as usize;
            cursor = match cursor.checked_add(step) {
                Some(v) => v,
                None => return Err(Error::ArithmeticOverflow),
            };
        }
        Ok(None)
    }

    /// Reads the central directory into the front of `scratch` when it fits.
    pub fn load_central_directory<'a, S: ZipSource>(&self, source: &S, scratch: &'a mut [u8]) -> (r: Result<
        Option<&'a [u8]>,
        Error,
    >)
        ensures
            r matches Ok(None) ==> self@.eocd.cd_size > old(scratch)@.len(),
            r matches Ok(Some(cd)) ==> self@.eocd.cd_size <= old(scratch)@.len() && cd@.len() == self@.eocd.cd_size
                && (cd@.len() == 0 || (self@.eocd.cd_offset + self@.eocd.cd_size <= source.content().len()
                && cd@ == source.content().subrange(
                self@.eocd.cd_offset as int,
                self@.eocd.cd_offset + self@.eocd.cd_size,
            ))),
            r matches Err(e) ==> e is Source || e is ShortRead,
    {
        let cd_size = self.central_directory_size();
        if cd_size > scratch.len() {
            return Ok(None);
        }
        match read_into_prefix(source, self.eocd.cd_offset as u64, scratch, cd_size) {
            Ok(()) => {},
            Err(e) => return Err(e),
        }
        let view: &'a [u8] = scratch;
        Ok(Some(slice_range(view, 0, cd_size)))
    }
}

/// The record and name bytes of a directory copy agree with the archive's.
pub proof fn lemma_record_shift(c: Seq<u8>, s: int, e: int, q: int, needle: Seq<u8>)
    requires
        0 <= s <= e <= c.len(),
        cd_record_fits(c.subrange(s, e), q, e - s),
    ensures
        cd_header_at(c.subrange(s, e), q) == cd_header_at(c, s + q),
        cd_name_at(c.subrange(s, e), q) == cd_name_at(c, s + q),
        cd_record_fits(c, s + q, e),
{
    let d = c.subrange(s, e);
    assert(le16(d, q + 10) == le16(c, s + q + 10));
    assert(le32(d, q + 16) == le32(c, s + q + 16));
    assert(le32(d, q + 20) == le32(c, s + q + 20));
    assert(le32(d, q + 24) == le32(c, s + q + 24));
    assert(le16(d, q + 28) == le16(c, s + q + 28));
    assert(le16(d, q + 30) == le16(c, s + q + 30));
    assert(le16(d, q + 32) == le16(c, s + q + 32));
    assert(le32(d, q + 42) == le32(c, s + q + 42));
    assert(le32(d, q) == le32(c, s + q));
    assert(cd_name_at(d, q) =~= cd_name_at(c, s + q));
}

/// A matched record is one that fits and carries the name.
pub proof fn lemma_first_match_named(c: Seq<u8>, cursor: int, end: int, needle: Seq<u8>)
    ensures
        cd_first_match(c, cursor, end, needle) matches Some(q) ==> cursor <= q < end && cd_record_fits(c, q, end)
            && cd_name_at(c, q) == needle,
    decreases (if cursor < end { end - cursor } else { 0 }),
{
    if cursor < end && cd_record_fits(c, cursor, end) && cd_name_at(c, cursor) != needle {
        lemma_first_match_named(c, cursor + cd_record_len(c, cursor), end, needle);
    }
}

/// Scans the records that lie wholly inside one chunk of the central directory,
/// the chunk holding the archive bytes from `cursor`. Returns the matched
/// metadata, or how far the records that fit reach.
#[verifier::rlimit(50)]
fn scan_chunk<S: ZipSource>(
    source: &S,
    needle: &[u8],
    chunk: &[u8],
    scratch_len: usize,
    cursor: u64,
    cd_end: u64,
) -> (r: Result<(Option<EpubEntryMetadata>, usize), Error>)
    requires
        cursor + chunk@.len() <= cd_end,
        chunk@.len() == 0 || (cursor + chunk@.len() <= source.content().len() && chunk@ == source.content().subrange(
            cursor as int,
            cursor + chunk@.len(),
        )),
    ensures
        r matches Ok((None, local)) ==> local <= chunk@.len() && (local > 0 ==> cd_end <= source.content().len()
            || cursor + local <= source.content().len()) && (cd_end <= source.content().len() ==> cd_first_match(
            source.content(),
            cursor as int,
            cd_end as int,
            needle@,
        ) == cd_first_match(source.content(), cursor + local, cd_end as int, needle@)),
        r matches Ok((Some(m), _)) ==> exists|q: int| #![trigger record_named(source.content(), q, needle@)] {
            &&& cursor <= q < cd_end
            &&& record_named(source.content(), q, needle@)
            &&& meta_of_record(source.content(), q, m, source.content())
            &&& cd_end <= source.content().len() ==> cd_first_match(source.content(), cursor as int, cd_end as int, needle@)
                == Some(q)
        },
        r matches Err(e) ==> e is Source || e is ShortRead || e is InvalidArchive || e is ArithmeticOverflow,
        r matches Ok((None, local)) ==> chunk@.len() - local < 46 || cd_record_len(chunk@, local as int) > scratch_len
            || local + cd_record_len(chunk@, local as int) > chunk@.len(),
{
    let ghost c = source.content();
    let read_len = chunk.len();
    let mut local: usize = 0;
    while local < read_len
        invariant
            c == source.content(),
            local <= read_len,
            read_len == chunk@.len(),
            cursor + read_len <= cd_end,
            read_len == 0 || (cursor + read_len <= c.len() && chunk@ == c.subrange(cursor as int, cursor + read_len)),
            cd_end <= c.len() ==> cd_first_match(c, cursor as int, cd_end as int, needle@) == cd_first_match(
                c,
                cursor + local,
                cd_end as int,
                needle@,
            ),
        ensures
            read_len - local < 46 || cd_record_len(chunk@, local as int) > scratch_len || local + cd_record_len(
                chunk@,
                local as int,
            ) > read_len,
        decreases read_len - local,
    {
        if read_len - local < CENTRAL_DIR_FILE_HEADER_SIZE {
            break;
        }
        let entry = match parse_central_directory_entry_from_slice(chunk, local) {
            Ok(e) => e,
            Err(e) => return Err(e),
        };
        let total_len = CENTRAL_DIR_FILE_HEADER_SIZE + entry.name_len as usize + entry.extra_length as usize
            + entry.comment_length as usize;
        assert(total_len == cd_record_len(chunk@, local as int));
        if total_len > scratch_len {
            break;
        }
        if total_len > read_len - local {
            break;
        }
        let name_start = local + CENTRAL_DIR_FILE_HEADER_SIZE;
        let name_end = name_start + entry.name_len as usize;
        let name = slice_range(chunk, name_start, name_end);
        proof {
            let p = cursor + local;
            assert(cd_record_fits(chunk@, local as int, read_len as int));
            lemma_record_shift(c, cursor as int, cursor + read_len, local as int, needle@);
            assert(name@ =~= cd_name_at(chunk@, local as int));
            assert(cd_record_len(c, p) == total_len);
        }
        if bytes_eq(name, needle) {
            let m = match metadata_for(source, entry) {
                Ok(m) => m,
                Err(e) => return Err(e),
            };
            proof {
                assert(record_named(c, cursor + local, needle@));
            }
            return Ok((Some(m), local));
        }
        local = local + total_len;
    }
    Ok((None, local))
}

impl<const MAX_ENTRIES: usize, const NAME_CAPACITY: usize> EpubArchive<MAX_ENTRIES, NAME_CAPACITY> {
    /// Scans the central directory chunk by chunk through `scratch`, stopping at the
    /// first record that does not fit in a chunk.
    fn entry_by_name_bytes_chunked<S: ZipSource>(
        &self,
        source: &S,
        needle: &[u8],
        scratch: &mut [u8],
    ) -> (r: Result<Option<EpubEntryMetadata>, Error>)
        ensures
            final(scratch)@.len() == old(scratch)@.len(),
            r matches Ok(Some(m)) ==> exists|q: int| #![trigger record_named(source.content(), q, needle@)] {
                &&& self@.eocd.cd_offset <= q < self@.eocd.cd_offset + self@.eocd.cd_size
                &&& record_named(source.content(), q, needle@)
                &&& meta_of_record(source.content(), q, m, source.content())
            },
            r matches Err(e) ==> e is Source || e is ShortRead || e is InvalidArchive || e is ArithmeticOverflow,
            self@.eocd.cd_size == 0 ==> r matches Ok(None),
            r matches Ok(Some(m)) ==> (cd_first_match(source.content(), self@.eocd.cd_offset as int, self@.eocd.cd_offset + self@.eocd.cd_size, needle@) matches Some(q) ==> meta_of_record(
                source.content(),
                q,
                m,
                source.content(),
            )),
    {
        let cd_start = self.eocd.cd_offset as u64;
        let cd_end = cd_start + self.eocd.cd_size as u64;
        let mut cursor = cd_start;
        while cursor < cd_end
            invariant
                cd_start == self@.eocd.cd_offset,
                cd_end == self@.eocd.cd_offset + self@.eocd.cd_size,
                cd_start <= cursor,
                scratch@.len() == old(scratch)@.len(),
                cd_end <= source.content().len() ==> cd_first_match(source.content(), cd_start as int, cd_end as int, needle@)
                    == cd_first_match(source.content(), cursor as int, cd_end as int, needle@),
            decreases cd_end - cursor,
        {
            let left = cd_end - cursor;
            let read_len: usize = if left < scratch.len() as u64 { left as usize } else { scratch.len() };
            match read_into_prefix(source, cursor, scratch, read_len) {
                Ok(()) => {},
                Err(e) => return Err(e),
            }
            let view: &[u8] = scratch;
            let chunk = slice_range(view, 0, read_len);
            let local = match scan_chunk(source, needle, chunk, view.len(), cursor, cd_end) {
                Ok((Some(m), _)) => return Ok(Some(m)),
                Ok((None, local)) => local,
                Err(e) => return Err(e),
            };
            if local == 0 {
                break;
            }
            cursor = cursor + local as u64;
        }
        Ok(None)
    }

    /// Walks the central directory record by record, reading each name into `scratch`.
    fn entry_by_name_bytes_walk<S: ZipSource>(
        &self,
        source: &S,
        needle: &[u8],
        scratch: &mut [u8],
    ) -> (r: Result<Option<EpubEntryMetadata>, Error>)
        ensures
            final(scratch)@.len() == old(scratch)@.len(),
            r matches Ok(Some(m)) ==> exists|q: int| #![trigger record_named(source.content(), q, needle@)]
                self@.eocd.cd_offset <= q < self@.eocd.cd_offset + self@.eocd.cd_size
                && record_named(source.content(), q, needle@) && meta_of_record(source.content(), q, m, source.content()),
            r matches Ok(None) ==> cd_first_match(source.content(), self@.eocd.cd_offset as int,
                self@.eocd.cd_offset + self@.eocd.cd_size, needle@) is None,
            r matches Err(e) ==> e is Source || e is ShortRead || e is InvalidArchive || e is ArithmeticOverflow
                || e is NameBufferTooSmall,
            r matches Ok(Some(m)) ==> (cd_first_match(source.content(), self@.eocd.cd_offset as int, self@.eocd.cd_offset + self@.eocd.cd_size, needle@) matches Some(q) ==> meta_of_record(
                source.content(),
                q,
                m,
                source.content(),
            )),
    {
        let ghost c = source.content();
        let cd_start = self.eocd.cd_offset as u64;
        let cd_end = cd_start + self.eocd.cd_size as u64;
        let ghost gs = cd_start as int;
        let ghost ge = cd_end as int;
        let mut cursor = cd_start;
        while cursor < cd_end
            invariant
                c == source.content(),
                gs == cd_start,
                ge == cd_end,
                cd_start == self@.eocd.cd_offset,
                cd_end == self@.eocd.cd_offset + self@.eocd.cd_size,
                cd_start <= cursor,
                scratch@.len() == old(scratch)@.len(),
                cd_first_match(c, gs, ge, needle@) is None || cd_first_match(c, gs, ge, needle@)
                    == cd_first_match(c, cursor as int, ge, needle@),
            decreases (if cursor <= cd_end { cd_end - cursor } else { 0 }),
        {
            let entry = match parse_central_directory_entry(source, cursor) {
                Ok(e) => e,
                Err(e) => return Err(e),
            };
            let name_len = entry.name_len as usize;
            if name_len > scratch.len() {
                return Err(Error::NameBufferTooSmall);
            }
            let name_at = cursor + CENTRAL_DIR_FILE_HEADER_SIZE as u64;
            match read_into_prefix(source, name_at, scratch, name_len) {
                Ok(()) => {},
                Err(e) => return Err(e),
            }
            let view: &[u8] = scratch;
            let name = slice_range(view, 0, name_len);
            proof {
                assert(name@ =~= cd_name_at(c, cursor as int));
            }
            if bytes_eq(name, needle) {
                let m = match metadata_for(source, entry) {
                    Ok(m) => m,
                    Err(e) => return Err(e),
                };
                proof {
                    assert(record_named(c, cursor as int, needle@));
                    if cd_first_match(c, gs, ge, needle@) is Some {
                        assert(cd_first_match(c, cursor as int, ge, needle@) == Some(cursor as int));
                    }
                }
                return Ok(Some(m));
            }
            let step = CENTRAL_DIR_FILE_HEADER_SIZE as u64 + entry.name_len as u64 + entry.extra_length as u64
                + entry.comment_length as u64;
            cursor = match cursor.checked_add(step) {
                Some(v) => v,
                None => return Err(Error::ArithmeticOverflow),
            };
        }
        Ok(None)
    }

    /// Finds the first entry named `needle`: in one piece when the central
    /// directory fits in `scratch`, else chunk by chunk and then record by record.
    pub fn entry_by_name_bytes<S: ZipSource>(
        &self,
        source: &S,
        needle: &[u8],
        scratch: &mut [u8],
    ) -> (r: Result<Option<EpubEntryMetadata>, Error>)
        ensures
            final(scratch)@.len() == old(scratch)@.len(),
            r matches Ok(Some(m)) ==> exists|q: int| #![trigger record_named(source.content(), q, needle@)]
                self@.eocd.cd_offset <= q < self@.eocd.cd_offset + self@.eocd.cd_size
                && record_named(source.content(), q, needle@) && meta_of_record(source.content(), q, m, source.content()),
            r matches Ok(None) ==> self@.eocd.cd_offset + self@.eocd.cd_size > source.content().len()
                || cd_first_match(source.content(), self@.eocd.cd_offset as int,
                self@.eocd.cd_offset + self@.eocd.cd_size, needle@) is None,
            self@.eocd.cd_size <= old(scratch)@.len() ==> (r matches Ok(Some(m)) ==> (cd_first_match(
                source.content(),
                self@.eocd.cd_offset as int,
                self@.eocd.cd_offset + self@.eocd.cd_size,
                needle@,
            ) matches Some(q) && meta_of_record(source.content(), q, m, source.content()))),
            r matches Err(e) ==> e is Source || e is ShortRead || e is InvalidArchive || e is ArithmeticOverflow
                || e is NameBufferTooSmall,
            r matches Ok(Some(m)) ==> (cd_first_match(source.content(), self@.eocd.cd_offset as int, self@.eocd.cd_offset + self@.eocd.cd_size, needle@) matches Some(q) ==> meta_of_record(
                source.content(),
                q,
                m,
                source.content(),
            )),
    {
        let ghost c = source.content();
        let cd_size = self.central_directory_size();
        let cd_start = self.eocd.cd_offset as u64;
        let cd_end = cd_start + self.eocd.cd_size as u64;
        let ghost gs = cd_start as int;
        let ghost ge = cd_end as int;
        if cd_size <= scratch.len() {
            match read_into_prefix(source, cd_start, scratch, cd_size) {
                Ok(()) => {},
                Err(e) => return Err(e),
            }
            let view: &[u8] = scratch;
            let cd = slice_range(view, 0, cd_size);
            let r = self.entry_by_name_bytes_in_cd(source, needle, cd);
            proof {
                if cd_size == 0 {
                    assert(cd_first_match(cd@, 0, 0, needle@) is None);
                    assert(cd_first_match(c, gs, ge, needle@) is None);
                } else {
                    lemma_first_match_shift(c, gs, ge, 0, needle@);
                    assert(cd@ == c.subrange(gs, ge));
                    if let Ok(Some(m)) = r {
                        let q = cd_first_match(cd@, 0, cd@.len() as int, needle@)->Some_0;
                        lemma_first_match_named(cd@, 0, cd@.len() as int, needle@);
                        lemma_record_shift(c, gs, ge, q, needle@);
                        assert(record_named(c, gs + q, needle@));
                    }
                }
            }
            return r;
        }
        match self.entry_by_name_bytes_chunked(source, needle, scratch) {
            Ok(Some(found)) => {
                return Ok(Some(found));
            },
            Ok(None) => {},
            Err(e) => return Err(e),
        }
        self.entry_by_name_bytes_walk(source, needle, scratch)
    }

    /// Finds the first entry named `name`.
    pub fn entry_by_name<S: ZipSource>(&self, source: &S, name: &str, scratch: &mut [u8]) -> (r: Result<
        Option<EpubEntryMetadata>,
        Error,
    >)
        ensures
            final(scratch)@.len() == old(scratch)@.len(),
            r matches Ok(Some(m)) ==> exists|q: int| #![trigger record_named(source.content(), q, name.spec_bytes())]
                self@.eocd.cd_offset <= q < self@.eocd.cd_offset + self@.eocd.cd_size
                && record_named(source.content(), q, name.spec_bytes()) && meta_of_record(source.content(), q, m, source.content()),
            r matches Ok(None) ==> self@.eocd.cd_offset + self@.eocd.cd_size > source.content().len()
                || cd_first_match(source.content(), self@.eocd.cd_offset as int,
                self@.eocd.cd_offset + self@.eocd.cd_size, name.spec_bytes()) is None,
            r matches Err(e) ==> e is Source || e is ShortRead || e is InvalidArchive || e is ArithmeticOverflow
                || e is NameBufferTooSmall,
    {
        let needle = name.as_bytes();
        self.entry_by_name_bytes(source, needle, scratch)
    }
}

/// A receiver of central-directory entries, called once per record in order.
pub trait EntryVisitor {
    /// Receives one entry's name bytes and metadata; an error stops the walk.
    fn visit(&mut self, name: &[u8], meta: EpubEntryMetadata) -> Result<(), Error>;
}

/// Hands every record of an in-memory central directory to `visitor`.
fn for_each_entry_in_cd<S: ZipSource, V: EntryVisitor>(source: &S, cd: &[u8], visitor: &mut V) -> (r: Result<
    (),
    Error,
>)
    ensures
        cd@.len() == 0 ==> r is Ok,
        cd@.len() > 0 && (cd@.len() < 46 || !cd_signature_at(cd@, 0)) ==> (r matches Err(e) && (e is ShortRead
            || e is InvalidArchive)),
{
    let mut cursor: usize = 0;
    while cursor < cd.len()
        invariant
            cursor == 0 || (cd@.len() >= 46 && cd_signature_at(cd@, 0)),
        decreases (if cursor <= cd@.len() { cd@.len() - cursor } else { 0 }),
    {
        let entry = match parse_central_directory_entry_from_slice(cd, cursor) {
            Ok(e) => e,
            Err(e) => return Err(e),
        };
        let name_start = cursor + CENTRAL_DIR_FILE_HEADER_SIZE;
        if entry.name_len as usize > cd.len() - name_start {
            return Err(Error::InvalidArchive("entry name exceeds central directory"));
        }
        let name_end = name_start + entry.name_len as usize;
        let m = match metadata_for(source, entry) {
            Ok(m) => m,
            Err(e) => return Err(e),
        };
        match visitor.visit(slice_range(cd, name_start, name_end), m) {
            Ok(()) => {},
            Err(e) => return Err(e),
        }
        let step = CENTRAL_DIR_FILE_HEADER_SIZE + entry.name_len as usize + entry.extra_length as usize
            + entry.comment_length as usize;
        cursor = match cursor.checked_add(step) {
            Some(v) => v,
            None => return Err(Error::ArithmeticOverflow),
        };
    }
    Ok(())
}

/// Hands the records of one chunk that fit wholly inside it to `visitor`; returns
/// how far they reach.
fn visit_chunk<S: ZipSource, V: EntryVisitor>(
    source: &S,
    chunk: &[u8],
    scratch_len: usize,
    visitor: &mut V,
) -> (r: Result<usize, Error>)
    ensures
        r matches Ok(local) ==> local <= chunk@.len(),
        r matches Ok(local) ==> chunk@.len() - local < 46 || cd_record_len(chunk@, local as int) > scratch_len || local
            + cd_record_len(chunk@, local as int) > chunk@.len(),
        chunk@.len() < 46 ==> r == Ok::<usize, Error>(0),
{
    let read_len = chunk.len();
    let mut local: usize = 0;
    while local < read_len
        invariant
            local <= read_len,
            read_len == chunk@.len(),
            read_len < 46 ==> local == 0,
        ensures
            read_len - local < 46 || cd_record_len(chunk@, local as int) > scratch_len || local + cd_record_len(
                chunk@,
                local as int,
            ) > read_len,
            read_len < 46 ==> local == 0,
        decreases read_len - local,
    {
        if read_len - local < CENTRAL_DIR_FILE_HEADER_SIZE {
            break;
        }
        let entry = match parse_central_directory_entry_from_slice(chunk, local) {
            Ok(e) => e,
            Err(e) => return Err(e),
        };
        let total_len = CENTRAL_DIR_FILE_HEADER_SIZE + entry.name_len as usize + entry.extra_length as usize
            + entry.comment_length as usize;
        if total_len > scratch_len || total_len > read_len - local {
            break;
        }
        let name_start = local + CENTRAL_DIR_FILE_HEADER_SIZE;
        let name_end = name_start + entry.name_len as usize;
        let m = match metadata_for(source, entry) {
            Ok(m) => m,
            Err(e) => return Err(e),
        };
        match visitor.visit(slice_range(chunk, name_start, name_end), m) {
            Ok(()) => {},
            Err(e) => return Err(e),
        }
        local = local + total_len;
    }
    Ok(local)
}

impl<const MAX_ENTRIES: usize, const NAME_CAPACITY: usize> EpubArchive<MAX_ENTRIES, NAME_CAPACITY> {
    /// Hands every central-directory record, in order, to `visitor`: in one piece
    /// when the directory fits in `scratch`, else chunk by chunk; a record larger
    /// than `scratch` is `NameBufferTooSmall`.
    pub fn for_each_entry<S: ZipSource, V: EntryVisitor>(&self, source: &S, scratch: &mut [u8], visitor: &mut V) -> (r:
        Result<(), Error>)
        ensures
            final(scratch)@.len() == old(scratch)@.len(),
            self@.eocd.cd_size == 0 ==> r is Ok,
    {
        let cd_size = self.central_directory_size();
        let cd_start = self.eocd.cd_offset as u64;
        if cd_size <= scratch.len() {
            match read_into_prefix(source, cd_start, scratch, cd_size) {
                Ok(()) => {},
                Err(e) => return Err(e),
            }
            let view: &[u8] = scratch;
            return for_each_entry_in_cd(source, slice_range(view, 0, cd_size), visitor);
        }
        let cd_end = cd_start + self.eocd.cd_size as u64;
        let mut cursor = cd_start;
        while cursor < cd_end
            invariant
                scratch@.len() == old(scratch)@.len(),
                cd_size == self@.eocd.cd_size,
                cd_size > scratch@.len(),
            decreases cd_end - cursor,
        {
            let left = cd_end - cursor;
            let read_len: usize = if left < scratch.len() as u64 { left as usize } else { scratch.len() };
            match read_into_prefix(source, cursor, scratch, read_len) {
                Ok(()) => {},
                Err(e) => return Err(e),
            }
            let view: &[u8] = scratch;
            let local = match visit_chunk(source, slice_range(view, 0, read_len), view.len(), visitor) {
                Ok(l) => l,
                Err(e) => return Err(e),
            };
            if local == 0 {
                return Err(Error::NameBufferTooSmall);
            }
            cursor = cursor + local as u64;
        }
        Ok(())
    }
}

/// A walk never moves backwards.
pub proof fn lemma_cd_walk_monotone(c: Seq<u8>, cursor: int, n: nat)
    ensures
        cd_walk(c, cursor, n) matches Some(e) ==> e >= cursor,
    decreases n,
{
    if n > 0 && cursor + 46 <= c.len() && cd_signature_at(c, cursor) {
        lemma_cd_walk_monotone(c, cursor + cd_record_len(c, cursor), (n - 1) as nat);
    }
}

impl EndOfCentralDirectory {
    /// The record with every field zero.
    pub open spec fn empty_spec() -> EndOfCentralDirectory {
        EndOfCentralDirectory {
            disk_number: 0,
            cd_entries_on_disk: 0,
            cd_entries_total: 0,
            cd_size: 0,
            cd_offset: 0,
            comment_length: 0,
        }
    }
}

} // verus!
