//! Opening a book from the card: building its text cache on first open,
//! reusing it while its metadata still matches, rendering pages from it, and
//! keeping the reading position.
use vstd::prelude::*;
use vstd::string::StringSliceAdditionalSpecFns;
use crate::book::CacheTextSink;
use crate::book::ChapterHooks;
use crate::cache::CACHE_VERSION;
use crate::cache::CacheMeta;
use crate::cache::CachePaths;
use crate::cache::ReadingPosition;
use crate::cache::cache_paths_for_epub;
use crate::cache::decode_reading_position;
use crate::cache::encode_offset;
use crate::cache::encode_reading_position;
use crate::cache::parse_meta;
use crate::cache::serialize_meta;
use crate::cached::CachedTextReader;
use crate::cached::CancelCheck;
use crate::cached::NeverCancel;
use crate::epub::EpubError;
use crate::epub::EpubSource;
use crate::framebuffer::DISPLAY_HEIGHT;
use crate::framebuffer::DISPLAY_WIDTH;
use crate::framebuffer::Framebuffer;
use crate::fs::DirectoryPageInfo;
use crate::fs::FsError;
use crate::fs::ListedEntry;
use crate::fs::join_child_path;
use crate::render::FontSet;
use crate::render::reader_content_height;

verus! {

/// Size of the buffer that gathers cached text before it is written.
pub const CACHED_TEXT_WRITE_BUFFER: usize = 1024;
/// Layout signature: format of the layout, font set and paginator behind a cache.
pub const LAYOUT_SIG_VERSION: u16 = 1;
pub const LAYOUT_SIG_FONT: u32 = 1;
pub const LAYOUT_SIG_PAGINATOR: u32 = 2;

/// An open file on the card.
pub trait SdFsFile {
    /// Its length in bytes.
    fn len(&self) -> usize;

    /// Moves to byte `offset`.
    fn seek_from_start(&mut self, offset: u32) -> Result<(), FsError>;

    /// Reads from the current position into `buffer`; 0 at the end.
    fn read(&mut self, buffer: &mut [u8]) -> (r: Result<usize, FsError>)
        ensures
            final(buffer)@.len() == old(buffer)@.len(),
            r matches Ok(n) ==> n <= old(buffer)@.len(),
    ;

    /// Writes a prefix of `buffer` and says how much.
    fn write(&mut self, buffer: &[u8]) -> (r: Result<usize, FsError>)
        ensures
            r matches Ok(n) ==> n <= buffer@.len(),
    ;

    /// Makes what was written durable.
    fn flush(&mut self) -> Result<(), FsError>;
}

/// The card's filesystem, as the reader uses it.
pub trait SdFilesystem {
    type Source: EpubSource;
    type File: SdFsFile;

    /// Replaces `entries` with up to `page_size` entries of the directory `path`
    /// from entry `page_start` on.
    fn list_directory_page(
        &self,
        path: &str,
        page_start: usize,
        page_size: usize,
        entries: &mut Vec<ListedEntry>,
    ) -> Result<DirectoryPageInfo, FsError>;

    /// Opens a book file for reading.
    fn open_epub_source(&self, path: &str) -> Result<Self::Source, FsError>;

    /// Opens a cache file for reading.
    fn open_cache_file_read(&self, path: &str) -> Result<Self::File, FsError>;

    /// Opens a cache file for writing, emptied.
    fn open_cache_file_write(&self, path: &str) -> Result<Self::File, FsError>;

    /// Creates the directory `path` and its missing parents.
    fn ensure_directory(&self, path: &str) -> Result<(), FsError>;
}

/// Up to `page_size` entries of the directory `current_path` from entry
/// `page_start` on, with where the page lies, as the card lists them.
pub fn load_directory_page<S: SdFilesystem>(fs: &S, current_path: &str, page_start: usize, page_size: usize) -> (r:
    Result<crate::session::DirectoryPage, FsError>) {
    let mut entries: Vec<ListedEntry> = Vec::new();
    match fs.list_directory_page(current_path, page_start, page_size, &mut entries) {
        Ok(info) => Ok(crate::session::DirectoryPage { entries, info }),
        Err(e) => Err(e),
    }
}

/// How the display should refresh after a book page was drawn.
#[derive(Debug, Clone, Copy, PartialEq, Eq, Structural)]
pub enum EpubRefreshMode {
    Full,
    Fast,
}

/// A book page drawn: its number, the refresh it wants and the progress shown.
#[derive(Debug, Clone, Copy, PartialEq, Eq, Structural)]
pub struct EpubRenderResult {
    pub rendered_page: usize,
    pub refresh: EpubRefreshMode,
    pub progress_percent: u8,
}

/// Reading progress in percent from a page's start offset: 0 on the first page
/// or an empty cache, 100 once the next page would start at the end, else the
/// share of the cache before the page, at most 99.
pub open spec fn progress_percent_spec(current: u64, next: u64, content_length: u64) -> u8 {
    if content_length == 0 || current == 0 {
        0
    } else if next >= content_length {
        100
    } else {
        let raw = (if current * 100 > u64::MAX { u64::MAX as int } else { current * 100 }) / content_length as int;
        if raw > 99 { 99 } else { raw as u8 }
    }
}

/// Reading progress in percent; see `progress_percent_spec`.
pub fn compute_progress_percent(current_offset: u64, next_page_offset: u64, content_length: u64) -> (r: u8)
    ensures
        r == progress_percent_spec(current_offset, next_page_offset, content_length),
        r <= 100,
{
    if content_length == 0 {
        return 0;
    }
    if current_offset == 0 {
        return 0;
    }
    if next_page_offset >= content_length {
        return 100;
    }
    let scaled: u64 = match current_offset.checked_mul(100) {
        Some(v) => v,
        None => u64::MAX,
    };
    let raw = scaled / content_length;
    if raw > 99 {
        99
    } else {
        raw as u8
    }
}

/// Text bound for a cache file, gathered into blocks before it is written.
pub struct CacheWriteBuffer {
    bytes: Vec<u8>,
    len: usize,
    total_written: usize,
}

impl CacheWriteBuffer {
    /// The block holds its full size and its pending bytes fit in it.
    pub closed spec fn wf(&self) -> bool {
        self.bytes@.len() == CACHED_TEXT_WRITE_BUFFER && self.len <= CACHED_TEXT_WRITE_BUFFER
    }

    /// Bytes written to the file so far.
    pub closed spec fn written(&self) -> nat {
        self.total_written as nat
    }

    /// Bytes gathered and not yet written.
    pub closed spec fn pending(&self) -> nat {
        self.len as nat
    }

    /// An empty buffer.
    pub fn new() -> (r: Self)
        ensures
            r.wf(),
            r.written() == 0,
            r.pending() == 0,
    {
        let mut bytes: Vec<u8> = Vec::new();
        let mut i: usize = 0;
        while i < CACHED_TEXT_WRITE_BUFFER
            invariant
                i <= CACHED_TEXT_WRITE_BUFFER,
                bytes@.len() == i,
            decreases CACHED_TEXT_WRITE_BUFFER - i,
        {
            bytes.push(0);
            i += 1;
        }
        CacheWriteBuffer { bytes, len: 0, total_written: 0 }
    }

    /// Whether the buffer is well formed.
    pub fn is_wf(&self) -> (r: bool)
        ensures
            r == self.wf(),
    {
        self.bytes.len() == CACHED_TEXT_WRITE_BUFFER && self.len <= CACHED_TEXT_WRITE_BUFFER
    }

    /// Bytes written to the file so far.
    pub fn total_written(&self) -> (r: usize)
        ensures
            r == self.written(),
    {
        self.total_written
    }

    /// Adds `chunk`, writing out each block that fills; every byte of `chunk` is
    /// either written or pending afterwards.
    pub fn push<F: SdFsFile>(&mut self, file: &mut F, chunk: &[u8]) -> (r: Result<(), EpubError>)
        requires
            old(self).wf(),
        ensures
            final(self).wf(),
            r is Ok && old(self).written() + old(self).pending() + chunk@.len() <= usize::MAX ==> final(self).written() + final(self).pending() == old(self).written() + old(self).pending() + chunk@.len(),
            r matches Err(e) ==> e == EpubError::Io,
    {
        let mut pos: usize = 0;
        while pos < chunk.len()
            invariant
                self.wf(),
                pos <= chunk@.len(),
                old(self).written() + old(self).pending() + chunk@.len() <= usize::MAX ==> self.written()
                    + self.pending() == old(self).written() + old(self).pending() + pos,
            decreases chunk@.len() - pos,
        {
            if self.len == CACHED_TEXT_WRITE_BUFFER {
                match self.flush(file) {
                    Ok(()) => {},
                    Err(e) => return Err(e),
                }
            }
            let capacity = CACHED_TEXT_WRITE_BUFFER - self.len;
            let remaining = chunk.len() - pos;
            let copy_len = if capacity < remaining { capacity } else { remaining };
            let mut k: usize = 0;
            let ghost len_before = self.len;
            let ghost written_before = self.total_written;
            while k < copy_len
                invariant
                    self.wf(),
                    k <= copy_len,
                    self.len == len_before,
                    self.total_written == written_before,
                    self.len + copy_len <= CACHED_TEXT_WRITE_BUFFER,
                    pos + copy_len <= chunk@.len(),
                    pos + copy_len <= chunk.len(),
                decreases copy_len - k,
            {
                self.bytes.set(self.len + k, chunk[pos + k]);
                k += 1;
            }
            self.len = self.len + copy_len;
            pos = pos + copy_len;
        }
        Ok(())
    }

    /// Writes out the pending bytes.
    pub fn flush<F: SdFsFile>(&mut self, file: &mut F) -> (r: Result<(), EpubError>)
        requires
            old(self).wf(),
        ensures
            final(self).wf(),
            r is Ok ==> final(self).pending() == 0,
            r is Ok && old(self).written() + old(self).pending() <= usize::MAX ==> final(self).written() == old(self).written() + old(self).pending(),
            r matches Err(e) ==> e == EpubError::Io,
    {
        if self.len == 0 {
            return Ok(());
        }
        let mut written: usize = 0;
        while written < self.len
            invariant
                self.wf(),
                self.len == old(self).len,
                self.total_written == old(self).total_written,
                written <= self.len,
            decreases self.len - written,
        {
            let part = crate::zip::slice_range(self.bytes.as_slice(), written, self.len);
            let count = match file.write(part) {
                Ok(c) => c,
                Err(_) => return Err(EpubError::Io),
            };
            if count == 0 {
                return Err(EpubError::Io);
            }
            written = written + count;
        }
        self.total_written = self.total_written.saturating_add(self.len);
        self.len = 0;
        Ok(())
    }
}

/// Reads the cached text from an open cache file.
pub struct FileTextReader<'a, F: SdFsFile> {
    pub file: &'a mut F,
}

impl<'a, F: SdFsFile> CachedTextReader for FileTextReader<'a, F> {
    fn read(&mut self, buf: &mut [u8]) -> (r: Result<usize, EpubError>) {
        match self.file.read(buf) {
            Ok(n) => Ok(n),
            Err(_) => Err(EpubError::Io),
        }
    }
}

/// Writes a book's cached text while it is laid out.
pub struct CacheFileSink<F: SdFsFile> {
    pub content: F,
    pub buffer: CacheWriteBuffer,
}

impl<F: SdFsFile> CacheTextSink for CacheFileSink<F> {
    /// A write to the card may fail.
    open spec fn accepts_all(&self) -> bool {
        false
    }

    fn on_text_chunk(&mut self, chunk: &str) -> Result<(), EpubError> {
        if !self.buffer.is_wf() {
            return Err(EpubError::Io);
        }
        if chunk.as_bytes().len() == 0 {
            return Ok(());
        }
        self.buffer.push(&mut self.content, chunk.as_bytes())
    }
}

/// The offsets of chapter starts, written to the chapter index as they come.
pub struct ChapterOffsetHooks<'a, F: SdFsFile> {
    pub chapters: &'a mut F,
}

impl<'a, F: SdFsFile> ChapterHooks for ChapterOffsetHooks<'a, F> {
    fn on_chapter_start(&mut self, index: u16, offset: usize) -> Result<(), EpubError> {
        write_offset_bytes(self.chapters, offset as u64)
    }

    fn chapter_title(&mut self, index: u16) -> Option<String> {
        None
    }
}

/// Writes all of `data` to `file`.
fn write_all<F: SdFsFile>(file: &mut F, data: &[u8]) -> (r: Result<(), EpubError>)
    ensures
        r matches Err(e) ==> e == EpubError::Io,
        data@.len() == 0 ==> r is Ok,
{
    let mut written: usize = 0;
    while written < data.len()
        invariant
            written <= data@.len(),
        decreases data@.len() - written,
    {
        let part = crate::zip::slice_range(data, written, data.len());
        let count = match file.write(part) {
            Ok(c) => c,
            Err(_) => return Err(EpubError::Io),
        };
        if count == 0 {
            return Err(EpubError::Io);
        }
        written = written + count;
    }
    Ok(())
}

/// Appends the eight-byte record of `offset` to an index file.
fn write_offset_bytes<F: SdFsFile>(file: &mut F, offset: u64) -> (r: Result<(), EpubError>)
    ensures
        r matches Err(e) ==> e == EpubError::Io,
{
    let raw = encode_offset(offset);
    write_all(file, raw.as_slice())
}

/// Replaces the file `path` with `data`.
fn write_bytes<S: SdFilesystem>(fs: &S, path: &str, data: &[u8]) -> (r: Result<(), EpubError>)
    ensures
        r matches Err(e) ==> e == EpubError::Io,
{
    let mut file = match fs.open_cache_file_write(path) {
        Ok(f) => f,
        Err(_) => return Err(EpubError::Io),
    };
    match write_all(&mut file, data) {
        Ok(()) => {},
        Err(e) => return Err(e),
    }
    match file.flush() {
        Ok(()) => Ok(()),
        Err(_) => Err(EpubError::Io),
    }
}

/// Reads the start of the file `path`, at most `limit` bytes; `None` when it
/// cannot be read, or when it reaches `limit` and `must_fit` is set.
fn read_prefix<S: SdFilesystem>(fs: &S, path: &str, limit: usize, must_fit: bool) -> (r: Option<Vec<u8>>)
    ensures
        r matches Some(v) ==> v@.len() <= limit,
{
    let mut file = match fs.open_cache_file_read(path) {
        Ok(f) => f,
        Err(_) => return None,
    };
    let mut out: Vec<u8> = Vec::new();
    let mut chunk = crate::epub::zeroed(64);
    while out.len() < limit
        invariant
            out@.len() <= limit,
            chunk@.len() == 64,
        decreases limit - out@.len(),
    {
        let n = match file.read(chunk.as_mut_slice()) {
            Ok(n) => n,
            Err(_) => return None,
        };
        if n == 0 {
            break;
        } else {
            let room = limit - out.len();
            let take = if n < room { n } else { room };
            let mut k: usize = 0;
            let base = out.len();
            while k < take
                invariant
                    k <= take,
                    take <= 64,
                    chunk@.len() == 64,
                    base + take <= limit,
                    out@.len() == base + k,
                decreases take - k,
            {
                out.push(chunk[k]);
                k += 1;
            }
        }
    }
    if must_fit && out.len() >= limit {
        return None;
    }
    Some(out)
}

/// The saved reading position of a book, when its record can be read.
fn read_cached_progress<S: SdFilesystem>(fs: &S, path: &str) -> (r: Option<ReadingPosition>) {
    match read_prefix(fs, path, 24, false) {
        Some(raw) => decode_reading_position(raw.as_slice()),
        None => None,
    }
}

/// The metadata record of a cache, when it can be read and parsed.
fn read_cache_meta<S: SdFilesystem>(fs: &S, path: &str) -> (r: Result<CacheMeta, EpubError>)
    ensures
        r matches Ok(m) ==> m.version == CACHE_VERSION,
{
    let raw = match read_prefix(fs, path, 384, true) {
        Some(raw) => raw,
        None => return Err(EpubError::Io),
    };
    let text = match crate::epub::text_of(raw.as_slice()) {
        Ok(t) => t,
        Err(e) => return Err(e),
    };
    let raw_text = text.as_str();
    match parse_meta(raw_text) {
        Some(meta) => {
            proof {
                crate::cache::lemma_parsed_meta_version(raw_text.spec_bytes());
            }
            Ok(meta)
        },
        None => Err(EpubError::InvalidFormat),
    }
}

/// Whether the metadata describes a cache built from a source of `source_size`
/// bytes for this layout.
pub open spec fn meta_matches(meta: CacheMeta, source_size: u32, content_height: u16) -> bool {
    &&& meta.version == CACHE_VERSION
    &&& meta.source_size == source_size
    &&& meta.layout_sig_version == LAYOUT_SIG_VERSION
    &&& meta.layout_sig_width == DISPLAY_WIDTH
    &&& meta.layout_sig_height == DISPLAY_HEIGHT
    &&& meta.layout_sig_content_height == content_height
    &&& meta.layout_sig_font == LAYOUT_SIG_FONT
    &&& meta.layout_sig_paginator == LAYOUT_SIG_PAGINATOR
}

/// The metadata to write for a cache built from `source_size` bytes.
pub open spec fn fresh_meta(
    source_size: u32,
    content_length: u64,
    complete: bool,
    next_chapter: u16,
    content_height: u16,
) -> CacheMeta {
    CacheMeta {
        version: CACHE_VERSION,
        source_size,
        content_length,
        build_complete: complete,
        next_chapter_index: next_chapter,
        layout_sig_version: LAYOUT_SIG_VERSION,
        layout_sig_width: DISPLAY_WIDTH,
        layout_sig_height: DISPLAY_HEIGHT,
        layout_sig_content_height: content_height,
        layout_sig_font: LAYOUT_SIG_FONT,
        layout_sig_paginator: LAYOUT_SIG_PAGINATOR,
    }
}

/// The cache metadata, when it matches the source and the layout and the
/// content file has the recorded length.
fn read_cache_meta_if_valid<S: SdFilesystem>(fs: &S, paths: &CachePaths, source_size: u32, fonts: &FontSet) -> (r:
    Result<CacheMeta, EpubError>)
    ensures
        r matches Ok(m) ==> meta_matches(m, source_size, m.layout_sig_content_height),
{
    let meta = match read_cache_meta(fs, paths.meta.as_str()) {
        Ok(m) => m,
        Err(e) => return Err(e),
    };
    if meta.version != CACHE_VERSION || meta.source_size != source_size {
        return Err(EpubError::InvalidFormat);
    }
    if meta.layout_sig_version != LAYOUT_SIG_VERSION || meta.layout_sig_width != DISPLAY_WIDTH
        || meta.layout_sig_height != DISPLAY_HEIGHT || meta.layout_sig_content_height != reader_content_height(fonts)
        || meta.layout_sig_font != LAYOUT_SIG_FONT || meta.layout_sig_paginator != LAYOUT_SIG_PAGINATOR {
        return Err(EpubError::InvalidFormat);
    }
    let content = match fs.open_cache_file_read(paths.content.as_str()) {
        Ok(f) => f,
        Err(_) => return Err(EpubError::Io),
    };
    if content.len() as u64 != meta.content_length {
        return Err(EpubError::InvalidFormat);
    }
    Ok(meta)
}

/// Renders the page of the cached text that starts at byte `page_start_offset`
/// and gives that offset and the next page's.
fn render_cached_page_at_offset<S: SdFilesystem, C: CancelCheck>(
    fs: &S,
    display: &mut Framebuffer,
    fonts: &FontSet,
    content_path: &str,
    page_start_offset: u64,
    should_cancel: &mut C,
) -> (r: Result<(u64, u64), EpubError>)
    requires
        old(display).wf(),
        fonts.wf(),
    ensures
        final(display).wf(),
        r matches Ok((start, next)) ==> start == page_start_offset && next >= page_start_offset,
{
    let mut file = match fs.open_cache_file_read(content_path) {
        Ok(f) => f,
        Err(_) => return Err(EpubError::Io),
    };
    if page_start_offset > u32::MAX as u64 {
        return Err(EpubError::OutOfSpace);
    }
    match file.seek_from_start(page_start_offset as u32) {
        Ok(()) => {},
        Err(_) => return Err(EpubError::Io),
    }
    let mut reader = FileTextReader { file: &mut file };
    let rendered = match display.render_cached_text_page_from_offset_with_progress(fonts, &mut reader, 0, should_cancel) {
        Ok(res) => res,
        Err(e) => return Err(e),
    };
    let next = page_start_offset.saturating_add(rendered.next_page_start_byte as u64);
    Ok((page_start_offset, next))
}

/// Where the page after the one at `page_start_offset` starts.
fn next_page_offset_for_offset<S: SdFilesystem, C: CancelCheck>(
    fs: &S,
    fonts: &FontSet,
    content_path: &str,
    page_start_offset: u64,
    should_cancel: &mut C,
) -> (r: Result<u64, EpubError>)
    requires
        fonts.wf(),
    ensures
        r matches Ok(next) ==> next >= page_start_offset,
{
    let mut scratch = Framebuffer::new();
    match render_cached_page_at_offset(fs, &mut scratch, fonts, content_path, page_start_offset, should_cancel) {
        Ok((_, next)) => Ok(next),
        Err(e) => Err(e),
    }
}

/// The number of the page that starts at `target_offset`, counting pages from
/// the start of the cached text.
fn count_pages_before_offset<S: SdFilesystem, C: CancelCheck>(
    fs: &S,
    fonts: &FontSet,
    content_path: &str,
    target_offset: u64,
    should_cancel: &mut C,
) -> (r: Result<usize, EpubError>)
    requires
        fonts.wf(),
    ensures
        r matches Ok(n) ==> (target_offset == 0 <==> n == 0),
        target_offset == 0 ==> r == Ok::<usize, EpubError>(0),
{
    if target_offset == 0 {
        return Ok(0);
    }
    let mut page: usize = 0;
    let mut offset: u64 = 0;
    loop
        invariant
            fonts.wf(),
            offset < target_offset,
        decreases target_offset - offset,
    {
        let next = match next_page_offset_for_offset(fs, fonts, content_path, offset, should_cancel) {
            Ok(n) => n,
            Err(e) => return Err(e),
        };
        if next <= offset || next >= target_offset {
            return Ok(page.saturating_add(1));
        }
        page = page.saturating_add(1);
        offset = next;
    }
}

/// Where page `target_page` of the cached text starts, counted from its start:
/// 0 for the first page, else found by laying the pages out off screen.
fn page_start_offset_for_page<S: SdFilesystem, C: CancelCheck>(
    fs: &S,
    fonts: &FontSet,
    content_path: &str,
    target_page: usize,
    should_cancel: &mut C,
) -> (r: Result<u64, EpubError>)
    requires
        fonts.wf(),
    ensures
        target_page == 0 ==> r == Ok::<u64, EpubError>(0),
{
    if target_page == 0 {
        return Ok(0);
    }
    let mut scratch = Framebuffer::new();
    match render_cached_page(fs, &mut scratch, fonts, content_path, target_page, should_cancel) {
        Ok((_, offset, _)) => Ok(offset),
        Err(e) => Err(e),
    }
}

/// Renders page `target_page` of the cached text, counted from its start, on
/// `display`, or the last page when the text ends before it; gives its number,
/// its start offset and the next page's.
fn render_cached_page<S: SdFilesystem, C: CancelCheck>(
    fs: &S,
    display: &mut Framebuffer,
    fonts: &FontSet,
    content_path: &str,
    target_page: usize,
    should_cancel: &mut C,
) -> (r: Result<(usize, u64, u64), EpubError>)
    requires
        old(display).wf(),
        fonts.wf(),
    ensures
        final(display).wf(),
        r matches Ok((page, start, next)) ==> page <= target_page && (page == 0 ==> start == 0),
{
    let mut page: usize = 0;
    let mut offset: u64 = 0;
    let mut scratch = Framebuffer::new();
    loop
        invariant
            display.wf(),
            scratch.wf(),
            fonts.wf(),
            page <= target_page,
            page == 0 ==> offset == 0,
        decreases u64::MAX - offset,
    {
        let step = if page >= target_page {
            render_cached_page_at_offset(fs, display, fonts, content_path, offset, should_cancel)
        } else {
            render_cached_page_at_offset(fs, &mut scratch, fonts, content_path, offset, should_cancel)
        };
        let next = match step {
            Ok((_, n)) => n,
            Err(e) => return Err(e),
        };
        if page >= target_page || next <= offset {
            return Ok((page, offset, next));
        }
        page = page + 1;
        offset = next;
    }
}

/// What building a book's text cache produced.
pub struct BuildResult {
    pub content_length: usize,
    pub complete: bool,
    pub next_chapter_index: u16,
}

/// Lays out the book from `source`, writing its text to the cache files and
/// drawing page `page_index`.
fn build_content_cache<S: SdFilesystem, C: CancelCheck>(
    fs: &S,
    display: &mut Framebuffer,
    fonts: &FontSet,
    source: S::Source,
    paths: &CachePaths,
    page_index: usize,
    should_cancel: &mut C,
) -> (r: Result<BuildResult, EpubError>)
    requires
        old(display).wf(),
        fonts.wf(),
    ensures
        final(display).wf(),
{
    match fs.ensure_directory(paths.directory.as_str()) {
        Ok(()) => {},
        Err(_) => return Err(EpubError::Io),
    }
    let content = match fs.open_cache_file_write(paths.content.as_str()) {
        Ok(f) => f,
        Err(_) => return Err(EpubError::Io),
    };
    let mut chapters = match fs.open_cache_file_write(paths.chapters.as_str()) {
        Ok(f) => f,
        Err(_) => return Err(EpubError::Io),
    };
    let mut sink = CacheFileSink { content, buffer: CacheWriteBuffer::new() };
    let mut hooks = ChapterOffsetHooks { chapters: &mut chapters };
    let build = match display.build_epub_cache_prefix_with_callbacks_and_cancel(
        fonts,
        source,
        page_index,
        &mut sink,
        &mut hooks,
        should_cancel,
    ) {
        Ok(b) => b,
        Err(e) => return Err(e),
    };
    if !sink.buffer.is_wf() {
        return Err(EpubError::Io);
    }
    match sink.buffer.flush(&mut sink.content) {
        Ok(()) => {},
        Err(e) => return Err(e),
    }
    match sink.content.flush() {
        Ok(()) => {},
        Err(_) => return Err(EpubError::Io),
    }
    match chapters.flush() {
        Ok(()) => {},
        Err(_) => return Err(EpubError::Io),
    }
    Ok(BuildResult {
        content_length: sink.buffer.total_written(),
        complete: build.complete,
        next_chapter_index: build.next_spine_index,
    })
}

/// Opens the book `entry` in the directory `current_path` at page `page_index`:
/// the text cache is rebuilt when its metadata no longer matches the source and
/// layout, a page whose start equals the saved position is shown from there on
/// a full refresh, and the position reached is saved.
fn render_epub_page_from_entry_with_source_and_cancel<S: SdFilesystem, C: CancelCheck>(
    fs: &S,
    display: &mut Framebuffer,
    fonts: &FontSet,
    current_path: &str,
    entry: &ListedEntry,
    source_size: u32,
    source_for_build: Option<S::Source>,
    page_index: usize,
    fast_refresh: bool,
    should_cancel: &mut C,
) -> (r: Result<EpubRenderResult, EpubError>)
    requires
        old(display).wf(),
        fonts.wf(),
    ensures
        final(display).wf(),
        r matches Ok(res) ==> res.refresh == (if fast_refresh { EpubRefreshMode::Fast } else {
            EpubRefreshMode::Full
        }) && res.progress_percent <= 100,
{
    let source_path = match join_child_path(current_path, entry.fs_name.as_str()) {
        Ok(p) => p,
        Err(_) => return Err(EpubError::Io),
    };
    let cache_paths = cache_paths_for_epub(current_path, entry.fs_name.as_str());
    let meta: CacheMeta = match read_cache_meta_if_valid(fs, &cache_paths, source_size, fonts) {
        Ok(m) => m,
        Err(_) => {
            let source = match source_for_build {
                Some(s) => s,
                None => match fs.open_epub_source(source_path.as_str()) {
                    Ok(s) => s,
                    Err(_) => return Err(EpubError::Io),
                },
            };
            let build = match build_content_cache(fs, display, fonts, source, &cache_paths, page_index, should_cancel) {
                Ok(b) => b,
                Err(e) => return Err(e),
            };
            let new_meta = CacheMeta {
                version: CACHE_VERSION,
                source_size,
                content_length: build.content_length as u64,
                build_complete: build.complete,
                next_chapter_index: build.next_chapter_index,
                layout_sig_version: LAYOUT_SIG_VERSION,
                layout_sig_width: DISPLAY_WIDTH,
                layout_sig_height: DISPLAY_HEIGHT,
                layout_sig_content_height: reader_content_height(fonts),
                layout_sig_font: LAYOUT_SIG_FONT,
                layout_sig_paginator: LAYOUT_SIG_PAGINATOR,
            };
            let text = serialize_meta(&new_meta);
            match write_bytes(fs, cache_paths.meta.as_str(), text.as_str().as_bytes()) {
                Ok(()) => {},
                Err(e) => return Err(e),
            }
            new_meta
        },
    };
    let saved = read_cached_progress(fs, cache_paths.progress.as_str());
    let saved_offset: u64 = match saved {
        Some(p) => if p.current_page_start_offset <= meta.content_length { p.current_page_start_offset } else { 0 },
        None => 0,
    };
    let requested_offset = page_index as u64;
    let use_saved_offset = !fast_refresh && requested_offset == saved_offset;
    let content_path = cache_paths.content.as_str();
    let (rendered_page, page_start_offset, next_page_offset, previous_page_offset) = if use_saved_offset {
        let rendered_page = match count_pages_before_offset(fs, fonts, content_path, saved_offset, should_cancel) {
            Ok(n) => n,
            Err(e) => return Err(e),
        };
        let next = match render_cached_page_at_offset(fs, display, fonts, content_path, saved_offset, should_cancel) {
            Ok((_, n)) => n,
            Err(e) => return Err(e),
        };
        let previous = match saved {
            Some(p) => if p.previous_page_start_offset <= saved_offset { p.previous_page_start_offset } else { 0 },
            None => 0,
        };
        (rendered_page, saved_offset, next, previous)
    } else {
        let (rendered_page, start, next) = match render_cached_page(fs, display, fonts, content_path, page_index, should_cancel) {
            Ok(t) => t,
            Err(e) => return Err(e),
        };
        let previous = match page_start_offset_for_page(fs, fonts, content_path, rendered_page.saturating_sub(1), should_cancel) {
            Ok(o) => o,
            Err(e) => return Err(e),
        };
        (rendered_page, start, next, previous)
    };
    let progress_percent = compute_progress_percent(page_start_offset, next_page_offset, meta.content_length);
    let record = encode_reading_position(
        ReadingPosition {
            previous_page_start_offset: previous_page_offset,
            current_page_start_offset: page_start_offset,
            next_page_start_offset: next_page_offset,
        },
    );
    match write_bytes(fs, cache_paths.progress.as_str(), record.as_slice()) {
        Ok(()) => {},
        Err(e) => return Err(e),
    }
    Ok(EpubRenderResult {
        rendered_page,
        refresh: if fast_refresh { EpubRefreshMode::Fast } else { EpubRefreshMode::Full },
        progress_percent,
    })
}

/// Opens the book `entry` where its reading position was saved.
pub fn render_epub_from_entry<S: SdFilesystem>(
    fs: &S,
    display: &mut Framebuffer,
    fonts: &FontSet,
    current_path: &str,
    entry: &ListedEntry,
) -> (r: Result<EpubRenderResult, EpubError>)
    requires
        old(display).wf(),
        fonts.wf(),
    ensures
        final(display).wf(),
        r matches Ok(res) ==> res.refresh == EpubRefreshMode::Full && res.progress_percent <= 100,
{
    render_epub_from_entry_with_cancel(fs, display, fonts, current_path, entry, &mut NeverCancel)
}

/// Opens the book `entry` where its reading position was saved, unless cancelled.
pub fn render_epub_from_entry_with_cancel<S: SdFilesystem, C: CancelCheck>(
    fs: &S,
    display: &mut Framebuffer,
    fonts: &FontSet,
    current_path: &str,
    entry: &ListedEntry,
    should_cancel: &mut C,
) -> (r: Result<EpubRenderResult, EpubError>)
    requires
        old(display).wf(),
        fonts.wf(),
    ensures
        final(display).wf(),
        r matches Ok(res) ==> res.refresh == EpubRefreshMode::Full && res.progress_percent <= 100,
{
    let source_path = match join_child_path(current_path, entry.fs_name.as_str()) {
        Ok(p) => p,
        Err(_) => return Err(EpubError::Io),
    };
    let source = match fs.open_epub_source(source_path.as_str()) {
        Ok(s) => s,
        Err(_) => return Err(EpubError::Io),
    };
    let len = source.len();
    if len > u32::MAX as usize {
        return Err(EpubError::OutOfSpace);
    }
    let cache_paths = cache_paths_for_epub(current_path, entry.fs_name.as_str());
    let saved = read_cached_progress(fs, cache_paths.progress.as_str());
    let page_index: usize = match saved {
        Some(p) => if p.current_page_start_offset <= usize::MAX as u64 { p.current_page_start_offset as usize } else { 0 },
        None => 0,
    };
    render_epub_page_from_entry_with_source_and_cancel(
        fs,
        display,
        fonts,
        current_path,
        entry,
        len as u32,
        Some(source),
        page_index,
        false,
        should_cancel,
    )
}

/// Shows page `page_index` of the book `entry`.
pub fn render_epub_page_from_entry<S: SdFilesystem>(
    fs: &S,
    display: &mut Framebuffer,
    fonts: &FontSet,
    current_path: &str,
    entry: &ListedEntry,
    page_index: usize,
    fast_refresh: bool,
) -> (r: Result<EpubRenderResult, EpubError>)
    requires
        old(display).wf(),
        fonts.wf(),
    ensures
        final(display).wf(),
        r matches Ok(res) ==> res.refresh == (if fast_refresh { EpubRefreshMode::Fast } else {
            EpubRefreshMode::Full
        }) && res.progress_percent <= 100,
{
    let source_path = match join_child_path(current_path, entry.fs_name.as_str()) {
        Ok(p) => p,
        Err(_) => return Err(EpubError::Io),
    };
    let len = match fs.open_epub_source(source_path.as_str()) {
        Ok(s) => s.len(),
        Err(_) => return Err(EpubError::Io),
    };
    if len > u32::MAX as usize {
        return Err(EpubError::OutOfSpace);
    }
    render_epub_page_from_entry_with_source_and_cancel(
        fs,
        display,
        fonts,
        current_path,
        entry,
        len as u32,
        None,
        page_index,
        fast_refresh,
        &mut NeverCancel,
    )
}

/// Shows page `page_index` of the book `entry` of `source_size` bytes, unless cancelled.
pub fn render_epub_page_from_entry_with_cancel<S: SdFilesystem, C: CancelCheck>(
    fs: &S,
    display: &mut Framebuffer,
    fonts: &FontSet,
    current_path: &str,
    entry: &ListedEntry,
    source_size: u32,
    page_index: usize,
    fast_refresh: bool,
    should_cancel: &mut C,
) -> (r: Result<EpubRenderResult, EpubError>)
    requires
        old(display).wf(),
        fonts.wf(),
    ensures
        final(display).wf(),
        r matches Ok(res) ==> res.refresh == (if fast_refresh { EpubRefreshMode::Fast } else {
            EpubRefreshMode::Full
        }) && res.progress_percent <= 100,
{
    render_epub_page_from_entry_with_source_and_cancel(
        fs,
        display,
        fonts,
        current_path,
        entry,
        source_size,
        None,
        page_index,
        fast_refresh,
        should_cancel,
    )
}

} // verus!
