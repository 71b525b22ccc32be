//! Rendering a page of a book from its cached layout stream: the text of the
//! book with control characters that mark breaks, read back chunk by chunk.
use vstd::prelude::*;
use crate::epub::EpubError;
use crate::framebuffer::Framebuffer;
use crate::framebuffer::PIXEL_COUNT;
use crate::framebuffer::SHADE_WHITE;
use crate::paginator::NoopPaginationObserver;
use crate::paginator::PaginationObserver;
use crate::paginator::PaginationConfig;
use crate::paginator::PaginationEvent;
use crate::paginator::PaginationRenderer;
use crate::paginator::PaginatorState;
use crate::paginator::StyleChange;
use crate::render::FontSet;
use crate::render::PageRenderer;

verus! {

pub const CACHED_TEXT_CHUNK: usize = 1024;
pub const CACHED_LINE_LEN: usize = 1024;
pub const CACHE_LINE_BREAK_MARKER: char = '\u{001E}';
pub const CACHE_PARAGRAPH_BREAK_MARKER: char = '\u{001F}';
pub const CACHE_PAGE_BREAK_MARKER: char = '\u{001D}';
pub const CACHE_LAYOUT_STREAM_MARKER: char = '\u{001C}';
pub const CACHE_HEADING_START_MARKER: char = '\u{0001}';
pub const CACHE_HEADING_END_MARKER: char = '\u{0002}';
pub const CACHE_BOLD_START_MARKER: char = '\u{0003}';
pub const CACHE_BOLD_END_MARKER: char = '\u{0004}';
pub const CACHE_ITALIC_START_MARKER: char = '\u{0005}';
pub const CACHE_ITALIC_END_MARKER: char = '\u{0006}';
pub const CACHE_QUOTE_START_MARKER: char = '\u{0007}';
pub const CACHE_QUOTE_END_MARKER: char = '\u{0008}';

/// The page rendered from a cached stream and how many bytes were laid out.
#[derive(Debug, Clone, Copy, PartialEq, Eq, Structural)]
pub struct CachedPageRenderResult {
    pub rendered_page: usize,
    pub consumed_bytes: usize,
}

/// A page rendered from an offset of a cached stream: where it starts, where
/// the next one starts, its number and how many bytes were laid out.
#[derive(Debug, Clone, Copy, PartialEq, Eq, Structural)]
pub struct CachedPageRenderFromOffsetResult {
    pub page_start_byte: usize,
    pub next_page_start_byte: usize,
    pub rendered_page: usize,
    pub consumed_bytes: usize,
}

/// How far a replay got: whether the target page completed and the bytes laid out.
#[derive(Debug, Clone, Copy)]
pub struct ReplayProgress {
    pub target_complete: bool,
    pub consumed_bytes: usize,
}

/// A source of the cached stream, read front to back.
pub trait CachedTextReader {
    /// Reads the next bytes of the stream into `buf`; 0 at its end.
    fn read(&mut self, buf: &mut [u8]) -> (r: Result<usize, EpubError>)
        ensures
            final(buf)@.len() == old(buf)@.len(),
            r matches Ok(n) ==> n <= old(buf)@.len(),
    ;
}

/// Asked between chunks whether to give up.
pub trait CancelCheck {
    /// The next check is known to ask to give up.
    spec fn cancels_now(&self) -> bool;

    /// No check ever asks to give up.
    spec fn never_cancels(&self) -> bool;

    fn should_cancel(&mut self) -> (r: bool)
        ensures
            old(self).cancels_now() ==> r,
            old(self).never_cancels() ==> !r && final(self).never_cancels(),
    ;
}

/// Never gives up.
pub struct NeverCancel;

impl CancelCheck for NeverCancel {
    open spec fn cancels_now(&self) -> bool {
        false
    }

    open spec fn never_cancels(&self) -> bool {
        true
    }

    fn should_cancel(&mut self) -> (r: bool) {
        false
    }
}

/// Every pixel white.
pub open spec fn all_white() -> Seq<u8> {
    Seq::new(PIXEL_COUNT as nat, |i: int| SHADE_WHITE)
}

/// A cached stream held in memory, read in order.
pub struct SliceTextReader {
    pub data: Vec<u8>,
    pub position: usize,
}

impl CachedTextReader for SliceTextReader {
    /// Copies the next unread bytes, as many as fit, and moves past them.
    fn read(&mut self, buf: &mut [u8]) -> (r: Result<usize, EpubError>)
        ensures
            r == Ok::<usize, EpubError>(if old(self).position >= old(self).data@.len() { 0 } else if old(self).data@.len()
                - old(self).position < old(buf)@.len() {
                (old(self).data@.len() - old(self).position) as usize
            } else {
                old(buf)@.len() as usize
            }),
            final(self).data@ == old(self).data@,
            final(self).position == old(self).position + r.unwrap(),
            r.unwrap() > 0 ==> final(buf)@.subrange(0, r.unwrap() as int) == old(self).data@.subrange(
                old(self).position as int,
                old(self).position + r.unwrap(),
            ),
    {
        if self.position >= self.data.len() {
            return Ok(0);
        }
        let left = self.data.len() - self.position;
        let n = if left < buf.len() { left } else { buf.len() };
        let mut i: usize = 0;
        while i < n
            invariant
                i <= n,
                n <= buf@.len(),
                self.position + n <= self.data@.len(),
                self.position + n <= self.data.len(),
                buf@.len() == old(buf)@.len(),
                self.data@ == old(self).data@,
                self.position == old(self).position,
                forall|k: int| 0 <= k < i ==> buf@[k] == self.data@[self.position + k],
            decreases n - i,
        {
            buf[i] = self.data[self.position + i];
            i += 1;
        }
        assert(buf@.subrange(0, n as int) =~= self.data@.subrange(self.position as int, self.position + n));
        self.position = self.position + n;
        Ok(n)
    }
}

/// Whether `b` continues a UTF-8 sequence.
pub open spec fn continuation(b: u8) -> bool {
    0x80 <= b <= 0xBF
}

/// The length of the well-formed UTF-8 sequence that starts `b` (0 when it is
/// not one): one ASCII byte, or a lead byte and its continuations, excluding
/// overlong forms, surrogates and values past U+10FFFF.
pub open spec fn utf8_seq_len(b: Seq<u8>) -> int {
    if b.len() == 0 {
        0
    } else if b[0] < 0x80 {
        1
    } else if 0xC2 <= b[0] <= 0xDF {
        if b.len() >= 2 && continuation(b[1]) { 2 } else { 0 }
    } else if 0xE0 <= b[0] <= 0xEF {
        let lo: u8 = if b[0] == 0xE0 { 0xA0 } else { 0x80 };
        let hi: u8 = if b[0] == 0xED { 0x9F } else { 0xBF };
        if b.len() >= 3 && lo <= b[1] <= hi && continuation(b[2]) { 3 } else { 0 }
    } else if 0xF0 <= b[0] <= 0xF4 {
        let lo: u8 = if b[0] == 0xF0 { 0x90 } else { 0x80 };
        let hi: u8 = if b[0] == 0xF4 { 0x8F } else { 0xBF };
        if b.len() >= 4 && lo <= b[1] <= hi && continuation(b[2]) && continuation(b[3]) { 4 } else { 0 }
    } else {
        0
    }
}

/// The length of the well-formed UTF-8 sequence at `i` of `b`.
fn seq_len_at(b: &[u8], i: usize) -> (r: usize)
    requires
        i <= b@.len(),
    ensures
        r == utf8_seq_len(b@.subrange(i as int, b@.len() as int)),
        r <= 4,
        r <= b@.len() - i,
{
    let n = b.len() - i;
    let ghost s = b@.subrange(i as int, b@.len() as int);
    if n == 0 {
        return 0;
    }
    let b0 = b[i];
    assert(s[0] == b0);
    if b0 < 0x80 {
        return 1;
    }
    if 0xC2 <= b0 && b0 <= 0xDF {
        if n >= 2 && 0x80 <= b[i + 1] && b[i + 1] <= 0xBF {
            assert(s[1] == b[i + 1]);
            return 2;
        }
        if n >= 2 {
            assert(s[1] == b[i + 1]);
        }
        return 0;
    }
    if 0xE0 <= b0 && b0 <= 0xEF {
        let lo: u8 = if b0 == 0xE0 { 0xA0 } else { 0x80 };
        let hi: u8 = if b0 == 0xED { 0x9F } else { 0xBF };
        if n >= 3 {
            assert(s[1] == b[i + 1] && s[2] == b[i + 2]);
            if lo <= b[i + 1] && b[i + 1] <= hi && 0x80 <= b[i + 2] && b[i + 2] <= 0xBF {
                return 3;
            }
        }
        return 0;
    }
    if 0xF0 <= b0 && b0 <= 0xF4 {
        let lo: u8 = if b0 == 0xF0 { 0x90 } else { 0x80 };
        let hi: u8 = if b0 == 0xF4 { 0x8F } else { 0xBF };
        if n >= 4 {
            assert(s[1] == b[i + 1] && s[2] == b[i + 2] && s[3] == b[i + 3]);
            if lo <= b[i + 1] && b[i + 1] <= hi && 0x80 <= b[i + 2] && b[i + 2] <= 0xBF && 0x80 <= b[i + 3] && b[i + 3]
                <= 0xBF {
                return 4;
            }
        }
        return 0;
    }
    0
}

/// How a chunk of the stream decodes: the length of its well-formed prefix and,
/// after it, the length of a malformed sequence to skip, or none when the chunk
/// ends inside a sequence that later bytes may complete.
pub fn scan_utf8(b: &[u8]) -> (r: (usize, Option<usize>))
    ensures
        r.0 <= b@.len(),
        r.1 matches Some(k) ==> 1 <= k && r.0 + k <= b@.len(),
        r.1 is None ==> r.0 == b@.len() || (b@.len() - r.0 < 4 && utf8_seq_len(b@.subrange(r.0 as int, b@.len() as int)) == 0),
{
    let n = b.len();
    let mut i: usize = 0;
    while i < n
        invariant
            i <= n,
            n == b@.len(),
        decreases n - i,
    {
        let k = seq_len_at(b, i);
        if k == 0 {
            if n - i < 4 && maybe_incomplete(b, i) {
                return (i, None);
            }
            return (i, Some(invalid_len(b, i)));
        }
        i = i + k;
    }
    (n, None)
}

/// The length of the sequence that the lead byte `b0` starts; 0 when it is no lead byte.
pub open spec fn lead_need(b0: u8) -> int {
    if 0xC2 <= b0 <= 0xDF {
        2
    } else if 0xE0 <= b0 <= 0xEF {
        3
    } else if 0xF0 <= b0 <= 0xF4 {
        4
    } else {
        0
    }
}

/// Whether `b1` may follow the lead byte `b0`.
pub open spec fn second_ok(b0: u8, b1: u8) -> bool {
    let lo: u8 = if b0 == 0xE0 { 0xA0 } else if b0 == 0xF0 { 0x90 } else { 0x80 };
    let hi: u8 = if b0 == 0xED { 0x9F } else if b0 == 0xF4 { 0x8F } else { 0xBF };
    lo <= b1 <= hi
}

/// Whether the bytes from `i` to the end could start a well-formed sequence.
fn maybe_incomplete(b: &[u8], i: usize) -> (r: bool)
    requires
        i < b@.len(),
    ensures
        r == (lead_need(b@[i as int]) > 0 && b@.len() - i < lead_need(b@[i as int]) && (b@.len() - i >= 2 ==> second_ok(
            b@[i as int],
            b@[i + 1],
        )) && (b@.len() - i >= 3 ==> continuation(b@[i + 2]))),
{
    let b0 = b[i];
    let need: usize = if 0xC2 <= b0 && b0 <= 0xDF {
        2
    } else if 0xE0 <= b0 && b0 <= 0xEF {
        3
    } else if 0xF0 <= b0 && b0 <= 0xF4 {
        4
    } else {
        return false;
    };
    let avail = b.len() - i;
    if avail >= need {
        return false;
    }
    if avail >= 2 {
        let lo: u8 = if b0 == 0xE0 { 0xA0 } else if b0 == 0xF0 { 0x90 } else { 0x80 };
        let hi: u8 = if b0 == 0xED { 0x9F } else if b0 == 0xF4 { 0x8F } else { 0xBF };
        if !(lo <= b[i + 1] && b[i + 1] <= hi) {
            return false;
        }
    }
    if avail >= 3 {
        if !(0x80 <= b[i + 2] && b[i + 2] <= 0xBF) {
            return false;
        }
    }
    true
}

/// The length of the malformed sequence at `i`: its lead byte and the
/// continuations that were still acceptable.
fn invalid_len(b: &[u8], i: usize) -> (r: usize)
    requires
        i < b@.len(),
    ensures
        1 <= r <= 3,
        i + r <= b@.len(),
        r == (if lead_need(b@[i as int]) == 0 || b@.len() - i < 2 || !second_ok(b@[i as int], b@[i + 1]) {
            1usize
        } else if lead_need(b@[i as int]) == 2 || b@.len() - i < 3 || !continuation(b@[i + 2]) {
            2
        } else {
            3
        }),
{
    let b0 = b[i];
    let avail = b.len() - i;
    let need: usize = if 0xC2 <= b0 && b0 <= 0xDF {
        2
    } else if 0xE0 <= b0 && b0 <= 0xEF {
        3
    } else if 0xF0 <= b0 && b0 <= 0xF4 {
        4
    } else {
        return 1;
    };
    if avail < 2 {
        return 1;
    }
    let lo: u8 = if b0 == 0xE0 { 0xA0 } else if b0 == 0xF0 { 0x90 } else { 0x80 };
    let hi: u8 = if b0 == 0xED { 0x9F } else if b0 == 0xF4 { 0x8F } else { 0xBF };
    if !(lo <= b[i + 1] && b[i + 1] <= hi) {
        return 1;
    }
    if need == 2 || avail < 3 {
        return if avail < 2 { 1 } else { 2 };
    }
    if !(0x80 <= b[i + 2] && b[i + 2] <= 0xBF) {
        return 2;
    }
    3
}

/// The configuration of a cached-page render of `target_page`.
pub open spec fn cached_config(target_page: usize) -> PaginationConfig {
    PaginationConfig {
        target_page,
        draw_target_page: true,
        stop_after_target_page: true,
        preserve_target_page_framebuffer: false,
        start_page: 0,
        start_cursor_y: 0,
    }
}

/// The configuration of a cached-page render of `target_page`.
fn make_cached_config(target_page: usize) -> (r: PaginationConfig)
    ensures
        r == cached_config(target_page),
{
    PaginationConfig {
        target_page,
        draw_target_page: true,
        stop_after_target_page: true,
        preserve_target_page_framebuffer: false,
        start_page: 0,
        start_cursor_y: 0,
    }
}

/// Replays the characters `cs` of the stream into the paginator: the layout
/// marker enables explicit page breaks, the page, line and paragraph markers
/// and line feeds break, style markers switch the style and any other character is
/// text. Stops after the character that completes the target page.
pub fn replay_cached_events<R: PaginationRenderer>(
    renderer: &mut R,
    state: &mut PaginatorState,
    target_page: usize,
    cs: &[char],
) -> (r: Result<ReplayProgress, EpubError>)
    requires
        old(renderer).ready(),
        4 * cs@.len() <= usize::MAX,
    ensures
        final(renderer).ready(),
        final(state).text.capacity == old(state).text.capacity,
        r matches Ok(p) ==> p.consumed_bytes <= crate::text::utf8_len_of(cs@),
        r matches Ok(p) ==> !p.target_complete ==> p.consumed_bytes == crate::text::utf8_len_of(cs@),
        r matches Err(e) ==> e == EpubError::OutOfSpace,
        r matches Ok(p) ==> (p.target_complete ==> final(state).state.current_page >= target_page && p.consumed_bytes > 0),
        cs@.len() == 0 ==> r == Ok::<ReplayProgress, EpubError>(ReplayProgress { target_complete: false, consumed_bytes: 0 }),
        old(state).state.current_page <= target_page ==> final(state).state.current_page <= target_page,
        r matches Ok(p) ==> (!p.target_complete ==> final(state).style == crate::paginator::style_after(old(state).style, cs@)),
{
    let mut observer = NoopPaginationObserver;
    let config = make_cached_config(target_page);
    let n = cs.len();
    let mut i: usize = 0;
    while i < n
        invariant
            renderer.ready(),
            i <= n,
            n == cs@.len(),
            4 * n <= usize::MAX,
            state.text.capacity == old(state).text.capacity,
            observer.never_fails(),
            config == cached_config(target_page),
            old(state).state.current_page <= target_page ==> state.state.current_page <= target_page,
            state.style == crate::paginator::style_after(old(state).style, cs@.subrange(0, i as int)),
        decreases n - i,
    {
        let ch = cs[i];
        proof {
            assert(cs@.subrange(0, i + 1).drop_last() =~= cs@.subrange(0, i as int));
            assert(cs@.subrange(0, i + 1).last() == ch);
        }
        let event = if ch == CACHE_LAYOUT_STREAM_MARKER {
            Some(PaginationEvent::EnableExplicitBreaks)
        } else if ch == CACHE_PAGE_BREAK_MARKER {
            Some(PaginationEvent::ExplicitPageBreak)
        } else if ch == CACHE_LINE_BREAK_MARKER || ch == '\n' {
            Some(PaginationEvent::LineBreak)
        } else if ch == CACHE_PARAGRAPH_BREAK_MARKER {
            Some(PaginationEvent::ParagraphBreak)
        } else if ch == CACHE_HEADING_START_MARKER {
            Some(PaginationEvent::Style(StyleChange::HeadingStart))
        } else if ch == CACHE_HEADING_END_MARKER {
            Some(PaginationEvent::Style(StyleChange::HeadingEnd))
        } else if ch == CACHE_BOLD_START_MARKER {
            Some(PaginationEvent::Style(StyleChange::BoldStart))
        } else if ch == CACHE_BOLD_END_MARKER {
            Some(PaginationEvent::Style(StyleChange::BoldEnd))
        } else if ch == CACHE_ITALIC_START_MARKER {
            Some(PaginationEvent::Style(StyleChange::ItalicStart))
        } else if ch == CACHE_ITALIC_END_MARKER {
            Some(PaginationEvent::Style(StyleChange::ItalicEnd))
        } else if ch == CACHE_QUOTE_START_MARKER {
            Some(PaginationEvent::Style(StyleChange::QuoteStart))
        } else if ch == CACHE_QUOTE_END_MARKER {
            Some(PaginationEvent::Style(StyleChange::QuoteEnd))
        } else {
            Some(PaginationEvent::End)
        };
        let progress = match event {
            None => None,
            Some(PaginationEvent::End) => {
                proof {
                    vstd::utf8::char_is_scalar(ch);
                    crate::epub::lemma_utf8_of_char(ch);
                }
                let encoded = crate::epub::encode_scalar(ch as u32);
                let piece = match crate::epub::text_of(encoded.as_slice()) {
                    Ok(t) => t,
                    Err(e) => return Err(e),
                };
                match state.feed(renderer, &mut observer, config, PaginationEvent::Text(piece.as_str())) {
                    Ok(p) => Some(p),
                    Err(e) => return Err(e),
                }
            },
            Some(ev) => match state.feed(renderer, &mut observer, config, ev) {
                Ok(p) => Some(p),
                Err(e) => return Err(e),
            },
        };
        match progress {
            Some(p) => {
                if p.target_complete {
                    let consumed = crate::text::utf8_prefix_len(cs, i + 1);
                    proof {
                        lemma_prefix_len_le(cs@, i + 1);
                        let pre = cs@.subrange(0, i + 1);
                        assert(pre.drop_last() =~= cs@.subrange(0, i as int));
                        assert(crate::text::utf8_len_of(pre) == crate::text::utf8_len_of(pre.drop_last())
                            + crate::text::char_utf8_len(pre.last()));
                        assert(config.target_page == target_page);
                    }
                    return Ok(ReplayProgress { target_complete: true, consumed_bytes: consumed });
                }
            },
            None => {},
        }
        i += 1;
    }
    let total = crate::text::utf8_prefix_len(cs, n);
    proof {
        assert(cs@.subrange(0, n as int) =~= cs@);
    }
    Ok(ReplayProgress { target_complete: false, consumed_bytes: total })
}

/// A prefix encodes to no more bytes than the whole.
proof fn lemma_prefix_len_le(cs: Seq<char>, k: int)
    requires
        0 <= k <= cs.len(),
    ensures
        crate::text::utf8_len_of(cs.subrange(0, k)) <= crate::text::utf8_len_of(cs),
    decreases cs.len() - k,
{
    if k < cs.len() {
        lemma_prefix_len_le(cs, k + 1);
        assert(cs.subrange(0, k + 1).drop_last() =~= cs.subrange(0, k));
    } else {
        assert(cs.subrange(0, k) =~= cs);
    }
}

/// The result of a cached render that laid out `consumed_bytes` from `page_start_byte`.
fn offset_result(page_start_byte: usize, consumed_bytes: usize, rendered_page: usize) -> (r: CachedPageRenderFromOffsetResult)
    ensures
        r.page_start_byte == page_start_byte,
        r.next_page_start_byte == crate::paginator::sat_add_usize(page_start_byte, consumed_bytes),
        r.rendered_page == rendered_page,
        r.consumed_bytes == consumed_bytes,
{
    CachedPageRenderFromOffsetResult {
        page_start_byte,
        next_page_start_byte: page_start_byte.saturating_add(consumed_bytes),
        rendered_page,
        consumed_bytes,
    }
}

/// Replays a chunk of decoded text; `Some` with the result when the target completed.
fn replay_chunk(
    renderer: &mut PageRenderer,
    state: &mut PaginatorState,
    target_page: usize,
    bytes: &[u8],
    page_start_byte: usize,
    consumed_bytes: &mut usize,
) -> (r: Result<Option<CachedPageRenderFromOffsetResult>, EpubError>)
    requires
        old(renderer).ready(),
    ensures
        final(renderer).ready(),
        final(state).text.capacity == old(state).text.capacity,
        *final(consumed_bytes) >= *old(consumed_bytes),
        r matches Ok(Some(res)) ==> res.page_start_byte == page_start_byte && res.consumed_bytes == *final(consumed_bytes)
            && res.next_page_start_byte == crate::paginator::sat_add_usize(page_start_byte, *final(consumed_bytes)),
        r matches Ok(Some(res)) ==> res.consumed_bytes > 0 && res.rendered_page >= target_page,
        old(state).state.current_page <= target_page ==> final(state).state.current_page <= target_page,
        r matches Ok(Some(res)) ==> res.rendered_page == final(state).state.current_page,
        !vstd::utf8::valid_utf8(bytes@) ==> r == Ok::<Option<CachedPageRenderFromOffsetResult>, EpubError>(None)
            && *final(consumed_bytes) == *old(consumed_bytes) && *final(state) == *old(state),
        r matches Err(e) ==> e == EpubError::OutOfSpace,
{
    let text = match crate::epub::text_of(bytes) {
        Ok(t) => t,
        Err(_) => return Ok(None),
    };
    let cs = crate::font::chars_of(text.as_str());
    if cs.len() > usize::MAX / 4 {
        return Err(EpubError::OutOfSpace);
    }
    let progress = match replay_cached_events(renderer, state, target_page, cs.as_slice()) {
        Ok(p) => p,
        Err(e) => return Err(e),
    };
    *consumed_bytes = consumed_bytes.saturating_add(progress.consumed_bytes);
    if progress.target_complete {
        return Ok(Some(offset_result(page_start_byte, *consumed_bytes, state.current_page())));
    }
    Ok(None)
}

/// Renders page `target_page` of the stream read by `read_text`, counted from
/// `page_start_byte`: skips that many bytes, decodes the rest chunk by chunk
/// (a sequence cut by a chunk's end is carried over, a malformed one skipped)
/// and replays it until the target page is complete or the stream ends.
pub fn render_cached_text_page_with_offset_from_reader<T: CachedTextReader, C: CancelCheck>(
    renderer: &mut PageRenderer,
    read_text: &mut T,
    page_start_byte: usize,
    target_page: usize,
    should_cancel: &mut C,
) -> (r: Result<CachedPageRenderFromOffsetResult, EpubError>)
    requires
        old(renderer).ready(),
    ensures
        final(renderer).ready(),
        r matches Ok(res) ==> res.page_start_byte == page_start_byte,
        r matches Ok(res) ==> res.next_page_start_byte == page_start_byte || res.next_page_start_byte
            == crate::paginator::sat_add_usize(page_start_byte, res.consumed_bytes),
        r matches Ok(res) ==> res.rendered_page <= target_page,
        old(should_cancel).cancels_now() ==> r == Err::<CachedPageRenderFromOffsetResult, EpubError>(EpubError::Cancelled)
            && final(renderer).frame@ == all_white() && *final(read_text) == *old(read_text),
{
    let line_height = renderer.font.line_height_px();
    let mut state = PaginatorState::new(make_cached_config(target_page), CACHED_LINE_LEN, line_height);
    let mut read_buffer = crate::epub::zeroed(CACHED_TEXT_CHUNK);
    let mut carry: Vec<u8> = Vec::new();
    let mut consumed_bytes: usize = 0;
    let mut skip_remaining = page_start_byte;
    renderer.frame.clear(0xFF);
    let mut budget: u64 = u64::MAX;
    loop
        invariant
            renderer.ready(),
            read_buffer@.len() == CACHED_TEXT_CHUNK,
            carry@.len() <= 4,
            state.text.capacity == CACHED_LINE_LEN,
            state.state.current_page <= target_page,
            old(should_cancel).cancels_now() ==> budget == u64::MAX && *should_cancel == *old(should_cancel)
                && renderer.frame@ == all_white() && *read_text == *old(read_text),
        ensures
            !old(should_cancel).cancels_now(),
        decreases budget,
    {
        if budget == 0 {
            return Err(EpubError::Cancelled);
        }
        budget = budget - 1;
        if should_cancel.should_cancel() {
            return Err(EpubError::Cancelled);
        }
        let read_len = match read_text.read(read_buffer.as_mut_slice()) {
            Ok(n) => n,
            Err(e) => return Err(e),
        };
        if read_len == 0 {
            break;
        }
        let mut start: usize = 0;
        if skip_remaining > 0 {
            let skip_len = if skip_remaining < read_len { skip_remaining } else { read_len };
            skip_remaining = skip_remaining - skip_len;
            start = skip_len;
            if start == read_len {
                continue;
            }
        }
        let mut chunk: Vec<u8> = Vec::new();
        let mut k: usize = 0;
        while k < carry.len()
            invariant
                k <= carry@.len(),
                chunk@.len() == k,
            decreases carry@.len() - k,
        {
            chunk.push(carry[k]);
            k += 1;
        }
        let mut j = start;
        while j < read_len
            invariant
                start <= j <= read_len,
                read_len <= read_buffer@.len(),
                chunk@.len() == carry@.len() + (j - start),
                carry@.len() <= 4,
                read_buffer@.len() == CACHED_TEXT_CHUNK,
            decreases read_len - j,
        {
            chunk.push(read_buffer[j]);
            j += 1;
        }
        carry = Vec::new();
        let mut source_start: usize = 0;
        while source_start < chunk.len()
            invariant
                renderer.ready(),
                !old(should_cancel).cancels_now(),
                source_start <= chunk@.len(),
                carry@.len() <= 4,
                state.text.capacity == CACHED_LINE_LEN,
                state.state.current_page <= target_page,
            decreases chunk@.len() - source_start,
        {
            let rest = crate::zip::slice_range(chunk.as_slice(), source_start, chunk.len());
            let (valid, error) = scan_utf8(rest);
            if valid > 0 {
                match replay_chunk(
                    renderer,
                    &mut state,
                    target_page,
                    crate::zip::slice_range(rest, 0, valid),
                    page_start_byte,
                    &mut consumed_bytes,
                ) {
                    Ok(Some(res)) => return Ok(res),
                    Ok(None) => {},
                    Err(e) => return Err(e),
                }
            }
            match error {
                None => {
                    let mut c: usize = source_start + valid;
                    while c < chunk.len() && carry.len() < 4
                        invariant
                            carry@.len() <= 4,
                            c <= chunk@.len(),
                        decreases chunk@.len() - c,
                    {
                        carry.push(chunk[c]);
                        c += 1;
                    }
                    break;
                },
                Some(bad) => {
                    source_start = source_start + valid + bad;
                },
            }
        }
    }
    if carry.len() > 0 {
        match replay_chunk(renderer, &mut state, target_page, carry.as_slice(), page_start_byte, &mut consumed_bytes) {
            Ok(Some(res)) => return Ok(res),
            Ok(None) => {},
            Err(e) => return Err(e),
        }
    }
    let mut observer = NoopPaginationObserver;
    let _ = state.feed(renderer, &mut observer, make_cached_config(target_page), PaginationEvent::End);
    if skip_remaining == 0 {
        Ok(offset_result(page_start_byte, consumed_bytes, state.current_page()))
    } else {
        Ok(CachedPageRenderFromOffsetResult {
            page_start_byte,
            next_page_start_byte: page_start_byte,
            rendered_page: state.current_page(),
            consumed_bytes,
        })
    }
}

/// A page renderer over `frame` with the body face of `fonts`.
fn page_renderer(frame: Framebuffer, fonts: &FontSet) -> (r: PageRenderer)
    requires
        frame.wf(),
        fonts.wf(),
    ensures
        r.ready(),
{
    crate::render::page_renderer_for(frame, fonts)
}

impl Framebuffer {
    /// Renders from a cached stream into this frame.
    fn render_cached_with<T: CachedTextReader, C: CancelCheck>(
        &mut self,
        fonts: &FontSet,
        read_text: &mut T,
        page_start_byte: usize,
        target_page: usize,
        should_cancel: &mut C,
    ) -> (r: Result<CachedPageRenderFromOffsetResult, EpubError>)
        requires
            old(self).wf(),
            fonts.wf(),
        ensures
            r matches Ok(res) ==> res.rendered_page <= target_page,
            final(self).wf(),
            r matches Ok(res) ==> res.page_start_byte == page_start_byte,
            r matches Ok(res) ==> res.next_page_start_byte == page_start_byte || res.next_page_start_byte
                == crate::paginator::sat_add_usize(page_start_byte, res.consumed_bytes),
            old(should_cancel).cancels_now() ==> r == Err::<CachedPageRenderFromOffsetResult, EpubError>(EpubError::Cancelled) && final(self)@ == all_white()
                && *final(read_text) == *old(read_text),
    {
        let mut frame = Framebuffer::new();
        core::mem::swap(self, &mut frame);
        let mut renderer = page_renderer(frame, fonts);
        let r = render_cached_text_page_with_offset_from_reader(
            &mut renderer,
            read_text,
            page_start_byte,
            target_page,
            should_cancel,
        );
        *self = renderer.frame;
        r
    }

    /// Renders page `target_page` of a cached stream; the page rendered.
    pub fn render_cached_text_page<T: CachedTextReader>(&mut self, fonts: &FontSet, read_text: &mut T, target_page: usize) -> (r:
        Result<usize, EpubError>)
        requires
            old(self).wf(),
            fonts.wf(),
        ensures
            r matches Ok(p) ==> p <= target_page,
            final(self).wf(),
    {
        match self.render_cached_text_page_with_progress(fonts, read_text, target_page, &mut NeverCancel) {
            Ok(res) => Ok(res.rendered_page),
            Err(e) => Err(e),
        }
    }

    /// Renders page `target_page` of a cached stream unless cancelled; the page rendered.
    pub fn render_cached_text_page_with_cancel<T: CachedTextReader, C: CancelCheck>(
        &mut self,
        fonts: &FontSet,
        read_text: &mut T,
        target_page: usize,
        should_cancel: &mut C,
    ) -> (r: Result<usize, EpubError>)
        requires
            old(self).wf(),
            fonts.wf(),
        ensures
            r matches Ok(p) ==> p <= target_page,
            final(self).wf(),
            old(should_cancel).cancels_now() ==> r == Err::<usize, EpubError>(EpubError::Cancelled) && final(self)@ == all_white()
                && *final(read_text) == *old(read_text),
    {
        match self.render_cached_text_page_with_progress(fonts, read_text, target_page, should_cancel) {
            Ok(res) => Ok(res.rendered_page),
            Err(e) => Err(e),
        }
    }

    /// Renders page `target_page` of a cached stream unless cancelled; the page
    /// rendered and the bytes laid out.
    pub fn render_cached_text_page_with_progress<T: CachedTextReader, C: CancelCheck>(
        &mut self,
        fonts: &FontSet,
        read_text: &mut T,
        target_page: usize,
        should_cancel: &mut C,
    ) -> (r: Result<CachedPageRenderResult, EpubError>)
        requires
            old(self).wf(),
            fonts.wf(),
        ensures
            r matches Ok(res) ==> res.rendered_page <= target_page,
            final(self).wf(),
            old(should_cancel).cancels_now() ==> r == Err::<CachedPageRenderResult, EpubError>(EpubError::Cancelled) && final(self)@ == all_white()
                && *final(read_text) == *old(read_text),
    {
        match self.render_cached_with(fonts, read_text, 0, target_page, should_cancel) {
            Ok(res) => Ok(CachedPageRenderResult { rendered_page: res.rendered_page, consumed_bytes: res.consumed_bytes }),
            Err(e) => Err(e),
        }
    }

    /// Renders the page that starts at byte `page_start_byte` of a cached stream.
    pub fn render_cached_text_page_from_offset<T: CachedTextReader>(
        &mut self,
        fonts: &FontSet,
        read_text: &mut T,
        page_start_byte: usize,
    ) -> (r: Result<CachedPageRenderFromOffsetResult, EpubError>)
        requires
            old(self).wf(),
            fonts.wf(),
        ensures
            r matches Ok(res) ==> res.rendered_page == 0,
            final(self).wf(),
            r matches Ok(res) ==> res.page_start_byte == page_start_byte,
            r matches Ok(res) ==> res.next_page_start_byte == page_start_byte || res.next_page_start_byte
                == crate::paginator::sat_add_usize(page_start_byte, res.consumed_bytes),
    {
        self.render_cached_text_page_from_offset_with_progress(fonts, read_text, page_start_byte, &mut NeverCancel)
    }

    /// Renders the page that starts at byte `page_start_byte` unless cancelled.
    pub fn render_cached_text_page_from_offset_with_progress<T: CachedTextReader, C: CancelCheck>(
        &mut self,
        fonts: &FontSet,
        read_text: &mut T,
        page_start_byte: usize,
        should_cancel: &mut C,
    ) -> (r: Result<CachedPageRenderFromOffsetResult, EpubError>)
        requires
            old(self).wf(),
            fonts.wf(),
        ensures
            r matches Ok(res) ==> res.rendered_page == 0,
            final(self).wf(),
            r matches Ok(res) ==> res.page_start_byte == page_start_byte,
            r matches Ok(res) ==> res.next_page_start_byte == page_start_byte || res.next_page_start_byte
                == crate::paginator::sat_add_usize(page_start_byte, res.consumed_bytes),
            old(should_cancel).cancels_now() ==> r == Err::<CachedPageRenderFromOffsetResult, EpubError>(EpubError::Cancelled) && final(self)@ == all_white()
                && *final(read_text) == *old(read_text),
    {
        self.render_cached_with(fonts, read_text, page_start_byte, 0, should_cancel)
    }

    /// Renders page `target_page` counted from byte `page_start_byte`.
    pub fn render_cached_text_page_from_offset_for_page<T: CachedTextReader>(
        &mut self,
        fonts: &FontSet,
        read_text: &mut T,
        page_start_byte: usize,
        target_page: usize,
    ) -> (r: Result<CachedPageRenderFromOffsetResult, EpubError>)
        requires
            old(self).wf(),
            fonts.wf(),
        ensures
            r matches Ok(res) ==> res.rendered_page <= target_page,
            final(self).wf(),
            r matches Ok(res) ==> res.page_start_byte == page_start_byte,
            r matches Ok(res) ==> res.next_page_start_byte == page_start_byte || res.next_page_start_byte
                == crate::paginator::sat_add_usize(page_start_byte, res.consumed_bytes),
    {
        self.render_cached_text_page_from_offset_for_page_with_progress(fonts, read_text, page_start_byte, target_page, &mut NeverCancel)
    }

    /// Renders page `target_page` counted from byte `page_start_byte` unless cancelled.
    pub fn render_cached_text_page_from_offset_for_page_with_progress<T: CachedTextReader, C: CancelCheck>(
        &mut self,
        fonts: &FontSet,
        read_text: &mut T,
        page_start_byte: usize,
        target_page: usize,
        should_cancel: &mut C,
    ) -> (r: Result<CachedPageRenderFromOffsetResult, EpubError>)
        requires
            old(self).wf(),
            fonts.wf(),
        ensures
            r matches Ok(res) ==> res.rendered_page <= target_page,
            final(self).wf(),
            r matches Ok(res) ==> res.page_start_byte == page_start_byte,
            r matches Ok(res) ==> res.next_page_start_byte == page_start_byte || res.next_page_start_byte
                == crate::paginator::sat_add_usize(page_start_byte, res.consumed_bytes),
            old(should_cancel).cancels_now() ==> r == Err::<CachedPageRenderFromOffsetResult, EpubError>(EpubError::Cancelled) && final(self)@ == all_white()
                && *final(read_text) == *old(read_text),
    {
        self.render_cached_with(fonts, read_text, page_start_byte, target_page, should_cancel)
    }
}

} // verus!
