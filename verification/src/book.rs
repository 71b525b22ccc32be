//! Rendering a page of an EPUB book straight from the archive, while writing
//! the layout stream that later renders pages from the cache.
use vstd::prelude::*;
use vstd::string::StringSliceAdditionalSpecFns;
use crate::cached::CACHE_LAYOUT_STREAM_MARKER;
use crate::cached::CACHE_LINE_BREAK_MARKER;
use crate::cached::CACHE_PAGE_BREAK_MARKER;
use crate::cached::CACHE_PARAGRAPH_BREAK_MARKER;
use crate::cached::CancelCheck;
use crate::cached::NeverCancel;
use crate::epub::Epub;
use crate::epub::EpubError;
use crate::epub::EpubEvent;
use crate::epub::EpubSource;
use crate::epub::ReaderBuffers;
use crate::font::MAX_SHAPED_CHARS;
use crate::framebuffer::Framebuffer;
use crate::paginator::PaginationConfig;
use crate::paginator::PaginationEvent;
use crate::paginator::PaginationObserver;
use crate::paginator::PaginationProgress;
use crate::paginator::PaginatorState;
use crate::render::FontSet;
use crate::render::PageRenderer;
use crate::paginator::PaginationRenderer;
use crate::paginator::StyleChange;
use crate::title::BufferedChapterEvent;
use crate::title::DuplicateTitleProbe;

verus! {

pub const EPUB_WORKSPACE_ZIP_CD: usize = 8192;
pub const EPUB_WORKSPACE_INFLATE: usize = 40960;
pub const EPUB_WORKSPACE_STREAM_INPUT: usize = 2048;
pub const EPUB_WORKSPACE_XML: usize = 16384;
pub const EPUB_WORKSPACE_CATALOG: usize = 8192;
pub const EPUB_WORKSPACE_PATH_BUF: usize = 256;
pub const TEXT_LEN: usize = 2048;

/// What building a book's layout produced: the page drawn, how far the cache
/// reaches, where to resume, and progress percentages.
#[derive(Debug, Clone, Copy, PartialEq, Eq, Structural)]
pub struct CacheBuildResult {
    pub rendered_page: usize,
    pub rendered_progress_percent: u8,
    pub cached_pages: usize,
    pub cached_progress_percent: u8,
    pub next_spine_index: u16,
    pub spine_count: u16,
    pub resume_page: usize,
    pub resume_cursor_y: u16,
    pub progress_percent: u8,
    pub complete: bool,
}

/// How far to lay out the book and which pages to draw.
#[derive(Clone, Copy, Debug, PartialEq, Eq, Structural)]
pub enum RenderMode {
    TargetPageOnly,
    FullBook,
    FullBookPreserveTargetPage,
    ThroughChapterBoundaryAfterTarget,
    LayoutOnlyThroughChapterBoundaryAfterTarget,
}

/// Whether `mode` draws pages at all around `current_page`.
pub fn mode_draws_page(mode: RenderMode, current_page: usize, target_page: usize) -> (r: bool)
    ensures
        r == (match mode {
            RenderMode::TargetPageOnly | RenderMode::FullBook | RenderMode::ThroughChapterBoundaryAfterTarget => true,
            RenderMode::FullBookPreserveTargetPage => current_page <= target_page,
            RenderMode::LayoutOnlyThroughChapterBoundaryAfterTarget => false,
        }),
{
    match mode {
        RenderMode::TargetPageOnly | RenderMode::FullBook | RenderMode::ThroughChapterBoundaryAfterTarget => true,
        RenderMode::FullBookPreserveTargetPage => current_page <= target_page,
        RenderMode::LayoutOnlyThroughChapterBoundaryAfterTarget => false,
    }
}

/// Whether `mode` keeps the target page in the frame after it is drawn.
pub fn mode_preserves_target_framebuffer(mode: RenderMode) -> (r: bool)
    ensures
        r == (mode is FullBookPreserveTargetPage || mode is ThroughChapterBoundaryAfterTarget
            || mode is LayoutOnlyThroughChapterBoundaryAfterTarget),
{
    match mode {
        RenderMode::FullBookPreserveTargetPage | RenderMode::ThroughChapterBoundaryAfterTarget
        | RenderMode::LayoutOnlyThroughChapterBoundaryAfterTarget => true,
        _ => false,
    }
}

/// Whether `mode` keeps only the target page, laying out the rest unseen.
pub fn mode_preserves_target_page_only(mode: RenderMode) -> (r: bool)
    ensures
        r == (mode is FullBookPreserveTargetPage),
{
    match mode {
        RenderMode::FullBookPreserveTargetPage => true,
        _ => false,
    }
}

/// Whether the page being laid out is drawn.
pub fn should_draw_current_page(mode: RenderMode, current_page: usize, target_page: usize) -> (r: bool)
    ensures
        r == (!(mode is FullBookPreserveTargetPage && current_page > target_page) && match mode {
            RenderMode::TargetPageOnly | RenderMode::FullBook | RenderMode::ThroughChapterBoundaryAfterTarget => true,
            RenderMode::FullBookPreserveTargetPage => current_page <= target_page,
            RenderMode::LayoutOnlyThroughChapterBoundaryAfterTarget => false,
        }),
{
    if mode_preserves_target_page_only(mode) && current_page > target_page {
        return false;
    }
    mode_draws_page(mode, current_page, target_page)
}

/// The progress through `total_pages` pages at page `rendered_page`, from 1 to 100.
pub fn percent_from_pages(rendered_page: usize, total_pages: usize) -> (r: u8)
    ensures
        total_pages == 0 ==> r == 0,
        total_pages > 0 ==> r == clamp_percent(
            (crate::paginator::sat_add_usize(rendered_page, 1) * 100) / (total_pages as int),
            1,
            100,
        ),
{
    if total_pages == 0 {
        return 0;
    }
    let next = rendered_page.saturating_add(1) as u128;
    let progress = (next * 100) / (total_pages as u128);
    if progress < 1 {
        1
    } else if progress > 100 {
        100
    } else {
        progress as u8
    }
}

/// `v` held between `lo` and `hi`.
pub open spec fn clamp_percent(v: int, lo: int, hi: int) -> u8 {
    (if v < lo { lo } else if v > hi { hi } else { v }) as u8
}

/// The progress of the rendered bytes through the cached bytes, scaled to the
/// cache's own percentage and held between 1 and it.
pub fn percent_from_cached_prefix_bytes(rendered_text_bytes: usize, cached_text_bytes: usize, cached_progress_percent: u8) -> (r: u8)
    ensures
        cached_text_bytes == 0 ==> r == 0,
        cached_text_bytes > 0 ==> r == clamp_percent(
            ((if rendered_text_bytes < cached_text_bytes { rendered_text_bytes } else { cached_text_bytes }) as int
                * cached_progress_percent) / (cached_text_bytes as int),
            1,
            if cached_progress_percent > 1 { cached_progress_percent as int } else { 1 },
        ),
{
    if cached_text_bytes == 0 {
        return 0;
    }
    let shown = if rendered_text_bytes < cached_text_bytes { rendered_text_bytes } else { cached_text_bytes };
    assert((shown as u128) * (cached_progress_percent as u128) <= u128::MAX) by (nonlinear_arith)
        requires
            shown <= usize::MAX,
            usize::MAX <= 0xFFFF_FFFF_FFFF_FFFFu128,
            cached_progress_percent <= 255,
    ;
    let progress = ((shown as u128) * (cached_progress_percent as u128)) / (cached_text_bytes as u128);
    let hi: u128 = if cached_progress_percent > 1 { cached_progress_percent as u128 } else { 1 };
    proof {
        assert((shown as int) * cached_progress_percent <= (cached_text_bytes as int) * cached_progress_percent) by (nonlinear_arith)
            requires shown <= cached_text_bytes;
    }
    if progress < 1 {
        1
    } else if progress > hi {
        hi as u8
    } else {
        progress as u8
    }
}

/// The progress through the book's bytes, from 1 to 99 until the book is
/// complete, then up to 100.
pub fn percent_from_book_bytes(consumed_book_bytes: usize, total_book_bytes: usize, complete: bool) -> (r: u8)
    ensures
        total_book_bytes == 0 ==> r == 0,
        total_book_bytes > 0 ==> r == clamp_percent(
            ((if consumed_book_bytes < total_book_bytes { consumed_book_bytes } else { total_book_bytes }) as int * 100)
                / (total_book_bytes as int),
            1,
            if complete { 100 } else { 99 },
        ),
{
    if total_book_bytes == 0 {
        return 0;
    }
    let max: u128 = if complete { 100 } else { 99 };
    let shown = if consumed_book_bytes < total_book_bytes { consumed_book_bytes } else { total_book_bytes };
    let progress = ((shown as u128) * 100) / (total_book_bytes as u128);
    if progress < 1 {
        1
    } else if progress > max {
        max as u8
    } else {
        progress as u8
    }
}

/// Receives the layout stream as it is produced.
pub trait CacheTextSink {
    /// The sink takes every chunk.
    spec fn accepts_all(&self) -> bool;

    fn on_text_chunk(&mut self, chunk: &str) -> (r: Result<(), EpubError>)
        ensures
            final(self).accepts_all() == old(self).accepts_all(),
            old(self).accepts_all() ==> r is Ok,
    ;
}

/// Receives the start of each chapter and supplies chapter titles.
pub trait ChapterHooks {
    /// Chapter `index` starts at byte `offset` of the layout stream.
    fn on_chapter_start(&mut self, index: u16, offset: usize) -> Result<(), EpubError>;

    /// The title to set above chapter `index`, if any.
    fn chapter_title(&mut self, index: u16) -> Option<String>;
}

/// Discards the layout stream.
pub struct NoTextSink;

impl CacheTextSink for NoTextSink {
    open spec fn accepts_all(&self) -> bool {
        true
    }

    fn on_text_chunk(&mut self, chunk: &str) -> Result<(), EpubError> {
        Ok(())
    }
}

/// Ignores chapter starts and supplies no titles.
pub struct NoChapterHooks;

impl ChapterHooks for NoChapterHooks {
    fn on_chapter_start(&mut self, index: u16, offset: usize) -> Result<(), EpubError> {
        Ok(())
    }

    fn chapter_title(&mut self, index: u16) -> Option<String> {
        None
    }
}

/// Writes what pagination lays out as the layout stream: text as it is,
/// breaks as their markers, counting the bytes written.
pub struct CacheTextObserver<'a, F: CacheTextSink> {
    pub sink: &'a mut F,
    pub emitted: usize,
}

/// The UTF-8 text of one marker character.
fn marker_text(marker: char) -> (r: Result<String, EpubError>)
    ensures
        (marker as u32) < 0x80 ==> (r matches Ok(s) && s@ == seq![marker]),
        r matches Ok(s) ==> s@ == vstd::utf8::decode_utf8(crate::epub::utf8_of(marker as u32)),
{
    proof {
        vstd::utf8::char_is_scalar(marker);
    }
    let encoded = crate::epub::encode_scalar(marker as u32);
    proof {
        if (marker as u32) < 0x80 {
            let cs = seq![marker];
            assert(vstd::utf8::is_ascii_chars(cs));
            vstd::utf8::is_ascii_chars_encode_utf8(cs);
            vstd::utf8::encode_utf8_valid_utf8(cs);
            vstd::utf8::encode_utf8_decode_utf8(cs);
            assert(encoded@ =~= vstd::utf8::encode_utf8(cs));
        }
    }
    crate::epub::text_of(encoded.as_slice())
}

impl<'a, F: CacheTextSink> CacheTextObserver<'a, F> {
    /// Writes `chunk` to the stream.
    pub fn emit_cache_chunk(&mut self, chunk: &str) -> (r: Result<(), EpubError>)
        ensures
            final(self).emitted == crate::paginator::sat_add_usize(old(self).emitted, chunk.spec_bytes().len() as usize)
                || chunk.spec_bytes().len() > usize::MAX,
            final(self).sink.accepts_all() == old(self).sink.accepts_all(),
            old(self).sink.accepts_all() ==> r is Ok,
    {
        let n = chunk.len();
        self.emitted = self.emitted.saturating_add(n);
        self.sink.on_text_chunk(chunk)
    }

    /// Writes a marker to the stream.
    fn emit_marker(&mut self, marker: char) -> (r: Result<(), EpubError>)
        ensures
            (marker as u32) < 0x80 ==> final(self).emitted == crate::paginator::sat_add_usize(old(self).emitted, 1),
            final(self).sink.accepts_all() == old(self).sink.accepts_all(),
            (marker as u32) < 0x80 && old(self).sink.accepts_all() ==> r is Ok,
    {
        match marker_text(marker) {
            Ok(t) => {
                let chunk = t.as_str();
                proof {
                    if (marker as u32) < 0x80 {
                        assert(vstd::utf8::is_ascii_chars(chunk@));
                        vstd::utf8::is_ascii_chars_encode_utf8(chunk@);
                    }
                }
                self.emit_cache_chunk(chunk)
            },
            Err(e) => Err(e),
        }
    }

    /// The bytes written so far.
    pub fn emitted_cache_bytes(&self) -> (r: usize)
        ensures
            r == self.emitted,
    {
        self.emitted
    }
}

impl<'a, F: CacheTextSink> PaginationObserver for CacheTextObserver<'a, F> {
    /// The observer never fails when its sink takes every chunk.
    open spec fn never_fails(&self) -> bool {
        self.sink.accepts_all()
    }

    fn on_text(&mut self, text: &str) -> Result<(), EpubError> {
        self.emit_cache_chunk(text)
    }

    fn on_line_break(&mut self) -> Result<(), EpubError> {
        self.emit_marker(CACHE_LINE_BREAK_MARKER)
    }

    fn on_paragraph_break(&mut self) -> Result<(), EpubError> {
        self.emit_marker(CACHE_PARAGRAPH_BREAK_MARKER)
    }

    fn on_page_break(&mut self) -> Result<(), EpubError> {
        self.emit_marker(CACHE_PAGE_BREAK_MARKER)
    }

    fn on_style_marker(&mut self, change: StyleChange) -> Result<(), EpubError> {
        self.emit_marker(crate::paginator::style_marker(change))
    }
}

/// Reports the start of every chapter from `*reported` up to `current` at `offset`.
pub fn report_chapter_starts<G: ChapterHooks>(
    reported: &mut u16,
    current: u16,
    offset: usize,
    hooks: &mut G,
) -> (r: Result<(), EpubError>)
    ensures
        r is Ok ==> *final(reported) == (if current > *old(reported) { current } else { *old(reported) }),
        r is Err ==> *final(reported) == *old(reported),
        current <= *old(reported) ==> r is Ok,
{
    if current <= *reported {
        return Ok(());
    }
    let mut index = *reported;
    while index < current
        invariant
            index <= current,
            *reported == *old(reported),
            *old(reported) < current,
        decreases current - index,
    {
        match hooks.on_chapter_start(index, offset) {
            Ok(()) => {},
            Err(e) => return Err(e),
        }
        index += 1;
    }
    *reported = current;
    Ok(())
}

/// Where a layout resumes: the page, the position on it and the chapter.
#[derive(Clone, Copy, Debug)]
pub struct ResumeCheckpoint {
    pub page: usize,
    pub cursor_y: u16,
    pub spine_index: u16,
}

/// The configuration for the page being laid out.
fn page_config(mode: RenderMode, current_page: usize, target_page: usize, start_page: usize, start_cursor_y: u16) -> (r:
    PaginationConfig)
    ensures
        r == (PaginationConfig {
            target_page,
            draw_target_page: !(mode is FullBookPreserveTargetPage && current_page > target_page) && match mode {
                RenderMode::TargetPageOnly | RenderMode::FullBook | RenderMode::ThroughChapterBoundaryAfterTarget => true,
                RenderMode::FullBookPreserveTargetPage => current_page <= target_page,
                RenderMode::LayoutOnlyThroughChapterBoundaryAfterTarget => false,
            },
            stop_after_target_page: mode is TargetPageOnly,
            preserve_target_page_framebuffer: mode is FullBookPreserveTargetPage || mode is ThroughChapterBoundaryAfterTarget
                || mode is LayoutOnlyThroughChapterBoundaryAfterTarget,
            start_page,
            start_cursor_y,
        }),
{
    PaginationConfig {
        target_page,
        draw_target_page: should_draw_current_page(mode, current_page, target_page),
        stop_after_target_page: mode_is_target_only(mode),
        preserve_target_page_framebuffer: mode_preserves_target_framebuffer(mode),
        start_page,
        start_cursor_y,
    }
}

/// Whether `mode` lays out without drawing.
fn mode_is_layout_only(mode: RenderMode) -> (r: bool)
    ensures
        r == (mode is LayoutOnlyThroughChapterBoundaryAfterTarget),
{
    match mode {
        RenderMode::LayoutOnlyThroughChapterBoundaryAfterTarget => true,
        _ => false,
    }
}

/// Whether `mode` stops at the target page.
fn mode_is_target_only(mode: RenderMode) -> (r: bool)
    ensures
        r == (mode is TargetPageOnly),
{
    match mode {
        RenderMode::TargetPageOnly => true,
        _ => false,
    }
}

/// How a completed target page changes the walk: stop (true) in target-only
/// mode; in the through-chapter modes, switch to layout only and stop after the
/// current chapter.
fn on_target_complete(mode: &mut RenderMode, stop_after: &mut Option<u16>, next_spine_index: u16) -> (r: bool)
    ensures
        r == (*old(mode) is TargetPageOnly),
{
    match *mode {
        RenderMode::TargetPageOnly => true,
        RenderMode::ThroughChapterBoundaryAfterTarget => {
            *mode = RenderMode::LayoutOnlyThroughChapterBoundaryAfterTarget;
            if stop_after.is_none() {
                *stop_after = Some(next_spine_index);
            }
            false
        },
        RenderMode::LayoutOnlyThroughChapterBoundaryAfterTarget => {
            if stop_after.is_none() {
                *stop_after = Some(next_spine_index);
            }
            false
        },
        _ => false,
    }
}

impl Framebuffer {
    /// Lays out the book of `source` page by page, drawing as `mode` says and
    /// writing the layout stream to `sink`: a chapter starts a new page, a title
    /// from `hooks` heads it, paragraphs end with a paragraph break, images show
    /// their alternative text, and the walk ends with the book, at the target page
    /// in target-only mode, or at the chapter boundary after the target page in the
    /// through-chapter modes.
    pub fn render_epub_with_mode<S: EpubSource, F: CacheTextSink, G: ChapterHooks, C: CancelCheck>(
        &mut self,
        fonts: &FontSet,
        source: S,
        target_page: usize,
        sink: &mut F,
        hooks: &mut G,
        mode: RenderMode,
        resume: Option<ResumeCheckpoint>,
        should_cancel: &mut C,
    ) -> (r: Result<CacheBuildResult, EpubError>)
        requires
            old(self).wf(),
            fonts.wf(),
        ensures
            final(self).wf(),
            r matches Ok(res) ==> res.rendered_page <= target_page && res.rendered_progress_percent <= 100
                && res.cached_progress_percent <= 100 && res.progress_percent == res.rendered_progress_percent,
            resume is None && source.bytes().len() < 22 && old(sink).accepts_all() && old(should_cancel).never_cancels() ==> r
                == Err::<CacheBuildResult, EpubError>(EpubError::InvalidFormat),
            resume is None && source.bytes().len() < 22 && old(sink).accepts_all() && old(should_cancel).never_cancels()
                && !(mode is LayoutOnlyThroughChapterBoundaryAfterTarget) ==> final(self)@ == crate::cached::all_white(),
    {
        let mut mode = mode;
        let mut workspace = ReaderBuffers::new(
            EPUB_WORKSPACE_ZIP_CD,
            EPUB_WORKSPACE_INFLATE,
            EPUB_WORKSPACE_STREAM_INPUT,
            EPUB_WORKSPACE_XML,
            EPUB_WORKSPACE_CATALOG,
            EPUB_WORKSPACE_PATH_BUF,
        );
        let mut epub = match Epub::open(source) {
            Ok(e) => e,
            Err(e) => return Err(e),
        };
        let (start_page, start_cursor_y) = match resume {
            Some(c) => (c.page, c.cursor_y),
            None => (0, 0),
        };
        let mut frame = Framebuffer::new();
        core::mem::swap(self, &mut frame);
        let mut renderer = crate::render::page_renderer_for(frame, fonts);
        let line_height = fonts.body.line_height_px();
        let mut paginator = PaginatorState::new(
            page_config(mode, start_page, target_page, start_page, start_cursor_y),
            TEXT_LEN,
            line_height,
        );
        let result = run_layout(
            &mut renderer,
            &mut epub,
            &mut workspace,
            &mut paginator,
            sink,
            hooks,
            &mut mode,
            resume,
            target_page,
            should_cancel,
        );
        *self = renderer.frame;
        result
    }

    /// Renders page `target_page` of the book, laying out through the chapter
    /// boundary after it.
    pub fn render_epub_page_with_progress<S: EpubSource>(&mut self, fonts: &FontSet, source: S, target_page: usize) -> (r: Result<
        CacheBuildResult,
        EpubError,
    >)
        requires
            old(self).wf(),
            fonts.wf(),
        ensures
            final(self).wf(),
    {
        self.render_epub_with_mode(
            fonts,
            source,
            target_page,
            &mut NoTextSink,
            &mut NoChapterHooks,
            RenderMode::ThroughChapterBoundaryAfterTarget,
            None,
            &mut NeverCancel,
        )
    }

    /// Renders page `target_page` of the book; the page rendered.
    pub fn render_epub_page<S: EpubSource>(&mut self, fonts: &FontSet, source: S, target_page: usize) -> (r: Result<usize, EpubError>)
        requires
            old(self).wf(),
            fonts.wf(),
        ensures
            final(self).wf(),
            r matches Ok(p) ==> p <= target_page,
            source.bytes().len() < 22 ==> r == Err::<usize, EpubError>(EpubError::InvalidFormat) && final(self)@
                == crate::cached::all_white(),
    {
        self.render_epub_page_with_text_sink_and_cancel(fonts, source, target_page, &mut NoTextSink, false, &mut NeverCancel)
    }

    /// Renders page `target_page`, writing the layout stream, over the whole
    /// book when `parse_full_book` holds; the page rendered.
    pub fn render_epub_page_with_text_sink_and_cancel<S: EpubSource, F: CacheTextSink, C: CancelCheck>(
        &mut self,
        fonts: &FontSet,
        source: S,
        target_page: usize,
        on_text_chunk: &mut F,
        parse_full_book: bool,
        should_cancel: &mut C,
    ) -> (r: Result<usize, EpubError>)
        requires
            old(self).wf(),
            fonts.wf(),
        ensures
            final(self).wf(),
            r matches Ok(p) ==> p <= target_page,
            source.bytes().len() < 22 && old(on_text_chunk).accepts_all() && old(should_cancel).never_cancels() ==> r == Err::<
                usize,
                EpubError,
            >(EpubError::InvalidFormat) && final(self)@ == crate::cached::all_white(),
    {
        let mode = if parse_full_book { RenderMode::FullBook } else { RenderMode::TargetPageOnly };
        match self.render_epub_with_mode(fonts, source, target_page, on_text_chunk, &mut NoChapterHooks, mode, None, should_cancel) {
            Ok(res) => Ok(res.rendered_page),
            Err(e) => Err(e),
        }
    }

    /// Lays out the whole book into the layout stream, keeping page `target_page` drawn.
    pub fn build_epub_cache_prefix_with_text_sink_and_cancel<S: EpubSource, F: CacheTextSink, C: CancelCheck>(
        &mut self,
        fonts: &FontSet,
        source: S,
        target_page: usize,
        on_text_chunk: &mut F,
        should_cancel: &mut C,
    ) -> (r: Result<CacheBuildResult, EpubError>)
        requires
            old(self).wf(),
            fonts.wf(),
        ensures
            final(self).wf(),
    {
        self.build_epub_cache_prefix_with_callbacks_and_cancel(fonts, source, target_page, on_text_chunk, &mut NoChapterHooks, should_cancel)
    }

    /// Lays out the whole book into the layout stream with chapter hooks,
    /// keeping page `target_page` drawn.
    pub fn build_epub_cache_prefix_with_callbacks_and_cancel<S: EpubSource, F: CacheTextSink, G: ChapterHooks, C: CancelCheck>(
        &mut self,
        fonts: &FontSet,
        source: S,
        target_page: usize,
        on_text_chunk: &mut F,
        hooks: &mut G,
        should_cancel: &mut C,
    ) -> (r: Result<CacheBuildResult, EpubError>)
        requires
            old(self).wf(),
            fonts.wf(),
        ensures
            final(self).wf(),
    {
        self.render_epub_with_mode(
            fonts,
            source,
            target_page,
            on_text_chunk,
            hooks,
            RenderMode::FullBookPreserveTargetPage,
            None,
            should_cancel,
        )
    }

    /// Continues a layout from a checkpoint, without drawing, through the
    /// chapter boundary after page `target_page`.
    pub fn extend_epub_cache_prefix_with_text_sink_and_cancel<S: EpubSource, F: CacheTextSink, C: CancelCheck>(
        &mut self,
        fonts: &FontSet,
        source: S,
        target_page: usize,
        resume_page: usize,
        resume_cursor_y: u16,
        resume_spine_index: u16,
        on_text_chunk: &mut F,
        should_cancel: &mut C,
    ) -> (r: Result<CacheBuildResult, EpubError>)
        requires
            old(self).wf(),
            fonts.wf(),
        ensures
            final(self).wf(),
    {
        self.render_epub_with_mode(
            fonts,
            source,
            target_page,
            on_text_chunk,
            &mut NoChapterHooks,
            RenderMode::LayoutOnlyThroughChapterBoundaryAfterTarget,
            Some(ResumeCheckpoint { page: resume_page, cursor_y: resume_cursor_y, spine_index: resume_spine_index }),
            should_cancel,
        )
    }
}

/// Feeds one event; whether the target completed.
fn feed_one<F: CacheTextSink>(
    renderer: &mut PageRenderer,
    paginator: &mut PaginatorState,
    observer: &mut CacheTextObserver<F>,
    config: PaginationConfig,
    event: PaginationEvent,
) -> (r: Result<PaginationProgress, EpubError>)
    requires
        old(renderer).ready(),
    ensures
        final(renderer).ready(),
{
    paginator.feed(renderer, observer, config, event)
}

/// Feeds held-back chapter events to the paginator, stopping after one that
/// completes the target page; the progress after the last one fed.
fn feed_buffered_chapter_events<F: CacheTextSink>(
    renderer: &mut PageRenderer,
    paginator: &mut PaginatorState,
    observer: &mut CacheTextObserver<F>,
    config: PaginationConfig,
    buffered: Vec<BufferedChapterEvent>,
) -> (r: Result<Option<PaginationProgress>, EpubError>)
    requires
        old(renderer).ready(),
    ensures
        final(renderer).ready(),
        r matches Ok(None) ==> buffered@.len() == 0,
        buffered@.len() == 0 ==> r == Ok::<Option<PaginationProgress>, EpubError>(None),
{
    let mut last: Option<PaginationProgress> = None;
    let mut i: usize = 0;
    while i < buffered.len()
        invariant
            renderer.ready(),
            i <= buffered@.len(),
            i > 0 ==> last is Some,
            i == 0 ==> last is None,
        decreases buffered@.len() - i,
    {
        let progress = match &buffered[i] {
            BufferedChapterEvent::Text(text) => feed_one(renderer, paginator, observer, config, PaginationEvent::Text(text.as_str())),
            BufferedChapterEvent::LineBreak => feed_one(renderer, paginator, observer, config, PaginationEvent::LineBreak),
            BufferedChapterEvent::ParagraphBreak => feed_one(renderer, paginator, observer, config, PaginationEvent::ParagraphBreak),
        };
        let progress = match progress {
            Ok(p) => p,
            Err(e) => return Err(e),
        };
        let target_complete = progress.target_complete;
        last = Some(progress);
        if target_complete {
            return Ok(last);
        }
        i += 1;
    }
    Ok(last)
}

/// Whether the title probe holds `event` back while it listens.
fn probe_holds(event: &EpubEvent) -> (r: bool)
    ensures
        r == (event is Text || event is LineBreak || event is ParagraphEnd || event is HeadingEnd),
{
    match event {
        EpubEvent::Text(_) | EpubEvent::LineBreak | EpubEvent::ParagraphEnd | EpubEvent::HeadingEnd => true,
        _ => false,
    }
}

/// The walk of `render_epub_with_mode` over the events of the book.
#[verifier::rlimit(60)]
fn run_layout<S: EpubSource, F: CacheTextSink, G: ChapterHooks, C: CancelCheck>(
    renderer: &mut PageRenderer,
    epub: &mut Epub<S>,
    workspace: &mut ReaderBuffers,
    paginator: &mut PaginatorState,
    sink: &mut F,
    hooks: &mut G,
    mode: &mut RenderMode,
    resume: Option<ResumeCheckpoint>,
    target_page: usize,
    should_cancel: &mut C,
) -> (r: Result<CacheBuildResult, EpubError>)
    requires
        old(renderer).ready(),
        old(epub).fits(old(workspace)),
    ensures
        final(renderer).ready(),
        r matches Ok(res) ==> res.rendered_page <= target_page && res.rendered_progress_percent <= 100
            && res.cached_progress_percent <= 100 && res.progress_percent == res.rendered_progress_percent,
        resume is None && !old(epub).state.done && !old(epub).state.catalog_ready && old(epub).source.bytes().len() < 22
            && old(sink).accepts_all() && old(should_cancel).never_cancels() ==> r == Err::<CacheBuildResult, EpubError>(EpubError::InvalidFormat),
        resume is None && !old(epub).state.done && !old(epub).state.catalog_ready && old(epub).source.bytes().len() < 22
            && old(sink).accepts_all() && old(should_cancel).never_cancels() && !(*old(mode) is LayoutOnlyThroughChapterBoundaryAfterTarget)
            ==> final(renderer).frame@ == crate::cached::all_white(),
{
    let ghost no_archive = resume is None && !old(epub).state.done && !old(epub).state.catalog_ready && old(epub).source.bytes().len() < 22
            && old(sink).accepts_all() && old(should_cancel).never_cancels();
    let mut observer = CacheTextObserver { sink, emitted: 0 };
    if resume.is_none() {
        match observer.emit_marker(CACHE_LAYOUT_STREAM_MARKER) {
            Ok(()) => {},
            Err(e) => return Err(e),
        }
    }
    let mut stop_after: Option<u16> = None;
    let mut chapter_end_override: Option<(usize, u16)> = None;
    let mut rendered_prefix_bytes: Option<usize> = None;
    let mut reported: u16 = 0;
    let mut probe: Option<DuplicateTitleProbe> = None;
    if !mode_is_layout_only(*mode) {
        renderer.frame.clear(0xFF);
    }
    match resume {
        Some(checkpoint) => {
            match epub.resume_from_spine_index(workspace, checkpoint.spine_index) {
                Ok(()) => {},
                Err(e) => return Err(e),
            }
            reported = checkpoint.spine_index;
        },
        None => {},
    }
    let mut budget: u64 = u64::MAX;
    loop
        invariant
            renderer.ready(),
            epub.fits(workspace),
            no_archive == (resume is None && !old(epub).state.done && !old(epub).state.catalog_ready
                && old(epub).source.bytes().len() < 22 && old(sink).accepts_all() && old(should_cancel).never_cancels()),
            no_archive ==> epub.state == old(epub).state && epub.source == old(epub).source && should_cancel.never_cancels()
                && budget == u64::MAX,
            no_archive && !(*old(mode) is LayoutOnlyThroughChapterBoundaryAfterTarget) ==> renderer.frame@
                == crate::cached::all_white(),
        ensures
            !no_archive,
        decreases budget,
    {
        if budget == 0 {
            return Err(EpubError::Cancelled);
        }
        budget = budget - 1;
        if should_cancel.should_cancel() {
            return Err(EpubError::Cancelled);
        }
        let event = match epub.next_event(workspace) {
            Ok(Some(ev)) => ev,
            Ok(None) => break,
            Err(e) => return Err(e),
        };
        assert(!no_archive);
        let next_spine_index = epub.next_spine_index();
        let page_before_event = paginator.current_page();
        let cursor_before_event = paginator.cursor_y();
        let config = page_config(*mode, paginator.current_page(), target_page, 0, 0);
        if next_spine_index > reported {
            let title_index = reported;
            if paginator.state.page_has_content() || !paginator.text.is_empty() {
                let chapter_break = match feed_one(renderer, paginator, &mut observer, config, PaginationEvent::ExplicitPageBreak) {
                    Ok(p) => p,
                    Err(e) => return Err(e),
                };
                if chapter_break.target_complete {
                    if rendered_prefix_bytes.is_none() {
                        rendered_prefix_bytes = Some(observer.emitted_cache_bytes());
                    }
                    if on_target_complete(mode, &mut stop_after, next_spine_index) {
                        break;
                    }
                }
            }
            let chapter_start = observer.emitted_cache_bytes().saturating_add(paginator.text.len());
            match report_chapter_starts(&mut reported, next_spine_index, chapter_start, hooks) {
                Ok(()) => {},
                Err(e) => return Err(e),
            }
            match hooks.chapter_title(title_index) {
                Some(title) => {
                    if title.as_str().len() > 0 {
                        match feed_one(renderer, paginator, &mut observer, config, PaginationEvent::Style(StyleChange::HeadingStart)) {
                            Ok(_) => {},
                            Err(e) => return Err(e),
                        };
                        let title_text = match feed_one(renderer, paginator, &mut observer, config, PaginationEvent::Text(title.as_str())) {
                            Ok(p) => p,
                            Err(e) => return Err(e),
                        };
                        let title_end = match feed_one(renderer, paginator, &mut observer, config, PaginationEvent::Style(StyleChange::HeadingEnd)) {
                            Ok(p) => p,
                            Err(e) => return Err(e),
                        };
                        let title_progress = PaginationProgress {
                            current_page: title_end.current_page,
                            cursor_y: title_end.cursor_y,
                            target_complete: title_text.target_complete || title_end.target_complete,
                        };
                        if title_progress.target_complete {
                            if rendered_prefix_bytes.is_none() {
                                rendered_prefix_bytes = Some(observer.emitted_cache_bytes());
                            }
                            if on_target_complete(mode, &mut stop_after, next_spine_index) {
                                break;
                            }
                        } else {
                            let mut spacing: usize = 0;
                            while spacing < 2
                                invariant
                                    renderer.ready(),
                                    !no_archive,
                                    no_archive == (resume is None && !old(epub).state.done && !old(epub).state.catalog_ready
                                        && old(epub).source.bytes().len() < 22 && old(sink).accepts_all()
                                        && old(should_cancel).never_cancels()),
                                decreases 2 - spacing,
                            {
                                let spacing_progress = match feed_one(renderer, paginator, &mut observer, config, PaginationEvent::LineBreak) {
                                    Ok(p) => p,
                                    Err(e) => return Err(e),
                                };
                                if spacing_progress.target_complete {
                                    if rendered_prefix_bytes.is_none() {
                                        rendered_prefix_bytes = Some(observer.emitted_cache_bytes());
                                    }
                                    let _ = on_target_complete(mode, &mut stop_after, next_spine_index);
                                }
                                spacing += 1;
                            }
                        }
                        probe = Some(DuplicateTitleProbe::new(title.as_str()));
                    }
                },
                None => {},
            }
        }
        let listening = probe;
        probe = None;
        match listening {
            Some(mut p) => {
                let heard = match &event {
                    EpubEvent::Text(chunk) => Some((p.push_text(chunk.as_str()), false)),
                    EpubEvent::LineBreak => Some((p.push_break(false), false)),
                    EpubEvent::ParagraphEnd | EpubEvent::HeadingEnd => {
                        let still = p.push_break(true);
                        Some((still, p.is_complete()))
                    },
                    EpubEvent::Image { .. } | EpubEvent::UnsupportedTag => Some((p.is_empty(), false)),
                    _ => None,
                };
                match heard {
                    Some((matches_prefix, complete)) => {
                        if complete {
                            continue;
                        }
                        if !matches_prefix {
                            let buffered = p.take_buffered();
                            let replay = match feed_buffered_chapter_events(
                                renderer,
                                paginator,
                                &mut observer,
                                config,
                                buffered,
                            ) {
                                Ok(v) => v,
                                Err(e) => return Err(e),
                            };
                            match replay {
                                Some(replayed) => {
                                    if replayed.target_complete {
                                        if rendered_prefix_bytes.is_none() {
                                            rendered_prefix_bytes = Some(observer.emitted_cache_bytes());
                                        }
                                        if on_target_complete(mode, &mut stop_after, next_spine_index) {
                                            break;
                                        }
                                        continue;
                                    }
                                },
                                None => {},
                            }
                            if probe_holds(&event) {
                                continue;
                            }
                        } else {
                            probe = Some(p);
                            if probe_holds(&event) {
                                continue;
                            }
                        }
                    },
                    None => {
                        probe = Some(p);
                    },
                }
            },
            None => {},
        }
        let progress = match event {
            EpubEvent::Text(chunk) => match feed_one(renderer, paginator, &mut observer, config, PaginationEvent::Text(chunk.as_str())) {
                Ok(p) => Some(p),
                Err(e) => return Err(e),
            },
            EpubEvent::LineBreak => match feed_one(renderer, paginator, &mut observer, config, PaginationEvent::LineBreak) {
                Ok(p) => Some(p),
                Err(e) => return Err(e),
            },
            EpubEvent::ParagraphEnd => match feed_one(
                renderer,
                paginator,
                &mut observer,
                config,
                PaginationEvent::ParagraphBreak,
            ) {
                Ok(p) => Some(p),
                Err(e) => return Err(e),
            },
            EpubEvent::HeadingStart(_) => match feed_one(
                renderer,
                paginator,
                &mut observer,
                config,
                PaginationEvent::Style(StyleChange::HeadingStart),
            ) {
                Ok(p) => Some(p),
                Err(e) => return Err(e),
            },
            EpubEvent::HeadingEnd => {
                let ended = match feed_one(renderer, paginator, &mut observer, config, PaginationEvent::Style(StyleChange::HeadingEnd)) {
                    Ok(p) => p,
                    Err(e) => return Err(e),
                };
                if ended.target_complete {
                    Some(ended)
                } else {
                    match feed_one(renderer, paginator, &mut observer, config, PaginationEvent::ParagraphBreak) {
                        Ok(p) => Some(p),
                        Err(e) => return Err(e),
                    }
                }
            },
            EpubEvent::Image { src: _, alt } => match alt {
                Some(alt_text) => {
                    let p = match feed_one(renderer, paginator, &mut observer, config, PaginationEvent::Text(alt_text.as_str())) {
                        Ok(p) => p,
                        Err(e) => return Err(e),
                    };
                    if p.target_complete {
                        Some(p)
                    } else {
                        match feed_one(renderer, paginator, &mut observer, config, PaginationEvent::LineBreak) {
                            Ok(p2) => Some(p2),
                            Err(e) => return Err(e),
                        }
                    }
                },
                None => None,
            },
            _ => None,
        };
        match progress {
            Some(p) => {
                if p.target_complete {
                    if rendered_prefix_bytes.is_none() {
                        rendered_prefix_bytes = Some(observer.emitted_cache_bytes());
                    }
                    if on_target_complete(mode, &mut stop_after, next_spine_index) {
                        break;
                    }
                }
            },
            None => {},
        }
        let past_stop = match stop_after {
            Some(stop) => next_spine_index > stop,
            None => false,
        };
        if mode_is_layout_only(*mode) && past_stop {
            chapter_end_override = Some((page_before_event, cursor_before_event));
            break;
        }
    }
    let chapter_start = observer.emitted_cache_bytes().saturating_add(paginator.text.len());
    match report_chapter_starts(&mut reported, epub.next_spine_index(), chapter_start, hooks) {
        Ok(()) => {},
        Err(e) => return Err(e),
    }
    let finish_config = page_config(*mode, paginator.current_page(), target_page, 0, 0);
    let finish = match feed_one(renderer, paginator, &mut observer, finish_config, PaginationEvent::End) {
        Ok(p) => p,
        Err(e) => return Err(e),
    };
    let rendered_page = if finish.current_page < target_page { finish.current_page } else { target_page };
    let (current_page, cursor_y) = match chapter_end_override {
        Some(v) => v,
        None => (paginator.current_page(), paginator.cursor_y()),
    };
    let complete = epub.is_complete();
    let cached_pages = if complete || cursor_y > 0 {
        current_page.saturating_add(1)
    } else if current_page > 1 {
        current_page
    } else {
        1
    };
    let cached_progress_percent = percent_from_book_bytes(epub.next_spine_index() as usize, epub.spine_count() as usize, complete);
    let rendered_progress_percent = if complete {
        percent_from_pages(rendered_page, cached_pages)
    } else {
        let shown = match rendered_prefix_bytes {
            Some(b) => b,
            None => observer.emitted_cache_bytes(),
        };
        percent_from_cached_prefix_bytes(shown, observer.emitted_cache_bytes(), cached_progress_percent)
    };
    Ok(CacheBuildResult {
        rendered_page,
        rendered_progress_percent,
        cached_pages,
        cached_progress_percent,
        next_spine_index: epub.next_spine_index(),
        spine_count: epub.spine_count(),
        resume_page: current_page,
        resume_cursor_y: cursor_y,
        progress_percent: rendered_progress_percent,
        complete,
    })
}

} // verus!
