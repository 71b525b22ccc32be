//! Pagination of a stream of text and break events into pages: text is buffered,
//! wrapped onto the current page, and pages turn when it is full or on an
//! explicit break, until the target page is complete.
use vstd::prelude::*;
use vstd::string::StringSliceAdditionalSpecFns;
use crate::epub::EpubError;
use crate::text::WrappedTextLayoutResult;

verus! {

/// Draws and measures wrapped text on a page.
pub trait PaginationRenderer {
    /// The renderer can draw.
    spec fn ready(&self) -> bool;

    fn clear_to_white(&mut self)
        requires
            old(self).ready(),
        ensures
            final(self).ready(),
    ;

    /// Lays out and draws `text` in `style` from `(x, y)` above `max_y`.
    fn draw_wrapped_text_block(&mut self, x: u16, y: u16, text: &str, max_y: u16, style: TextStyle) -> (r: WrappedTextLayoutResult)
        requires
            old(self).ready(),
        ensures
            final(self).ready(),
            r.consumed <= text.spec_bytes().len(),
    ;

    /// Lays out `text` in `style` from `(x, y)` above `max_y` without drawing.
    fn measure_wrapped_text_block(&mut self, x: u16, y: u16, text: &str, max_y: u16, style: TextStyle) -> (r: WrappedTextLayoutResult)
        requires
            old(self).ready(),
        ensures
            final(self).ready(),
            r.consumed <= text.spec_bytes().len(),
    ;

    fn display_height(&self) -> u16;

    fn line_height(&self) -> u16;
}

/// Hears what pagination lays out: text, breaks and page turns.
pub trait PaginationObserver {
    /// The observer accepts everything it hears.
    spec fn never_fails(&self) -> bool;

    fn on_text(&mut self, text: &str) -> (r: Result<(), EpubError>)
        ensures
            final(self).never_fails() == old(self).never_fails(),
            old(self).never_fails() ==> r is Ok,
    ;

    fn on_line_break(&mut self) -> (r: Result<(), EpubError>)
        ensures
            final(self).never_fails() == old(self).never_fails(),
            old(self).never_fails() ==> r is Ok,
    ;

    fn on_paragraph_break(&mut self) -> (r: Result<(), EpubError>)
        ensures
            final(self).never_fails() == old(self).never_fails(),
            old(self).never_fails() ==> r is Ok,
    ;

    fn on_page_break(&mut self) -> (r: Result<(), EpubError>)
        ensures
            final(self).never_fails() == old(self).never_fails(),
            old(self).never_fails() ==> r is Ok,
    ;

    /// A style marker of the stream: heading, bold, italic or quote starts or ends.
    fn on_style_marker(&mut self, change: StyleChange) -> (r: Result<(), EpubError>)
        ensures
            final(self).never_fails() == old(self).never_fails(),
            old(self).never_fails() ==> r is Ok,
    ;
}

/// An observer that ignores everything.
pub struct NoopPaginationObserver;

impl PaginationObserver for NoopPaginationObserver {
    open spec fn never_fails(&self) -> bool {
        true
    }

    fn on_text(&mut self, text: &str) -> Result<(), EpubError> {
        Ok(())
    }

    fn on_line_break(&mut self) -> Result<(), EpubError> {
        Ok(())
    }

    fn on_paragraph_break(&mut self) -> Result<(), EpubError> {
        Ok(())
    }

    fn on_page_break(&mut self) -> Result<(), EpubError> {
        Ok(())
    }

    fn on_style_marker(&mut self, change: StyleChange) -> Result<(), EpubError> {
        Ok(())
    }
}

/// How text is set: in the heading face, bold, italic, or as an indented quote.
#[derive(Clone, Copy, Debug, PartialEq, Eq, Structural)]
pub struct TextStyle {
    pub heading: bool,
    pub bold: bool,
    pub italic: bool,
    pub quote: bool,
}

impl TextStyle {
    /// Body text: no heading, emphasis or quote.
    pub fn plain() -> (r: Self)
        ensures
            r == (TextStyle { heading: false, bold: false, italic: false, quote: false }),
    {
        TextStyle { heading: false, bold: false, italic: false, quote: false }
    }
}

/// A style change of the stream.
#[derive(Clone, Copy, Debug, PartialEq, Eq, Structural)]
pub enum StyleChange {
    HeadingStart,
    HeadingEnd,
    BoldStart,
    BoldEnd,
    ItalicStart,
    ItalicEnd,
    QuoteStart,
    QuoteEnd,
}

/// The style after `change`.
pub open spec fn restyled(style: TextStyle, change: StyleChange) -> TextStyle {
    match change {
        StyleChange::HeadingStart => TextStyle { heading: true, ..style },
        StyleChange::HeadingEnd => TextStyle { heading: false, ..style },
        StyleChange::BoldStart => TextStyle { bold: true, ..style },
        StyleChange::BoldEnd => TextStyle { bold: false, ..style },
        StyleChange::ItalicStart => TextStyle { italic: true, ..style },
        StyleChange::ItalicEnd => TextStyle { italic: false, ..style },
        StyleChange::QuoteStart => TextStyle { quote: true, ..style },
        StyleChange::QuoteEnd => TextStyle { quote: false, ..style },
    }
}

/// Whether `change` opens a run (a start marker) rather than closing one.
pub open spec fn opens_run(change: StyleChange) -> bool {
    change is HeadingStart || change is BoldStart || change is ItalicStart || change is QuoteStart
}

/// The flag of `style` that `change` is about.
pub open spec fn flag_of(style: TextStyle, change: StyleChange) -> bool {
    if change is HeadingStart || change is HeadingEnd {
        style.heading
    } else if change is BoldStart || change is BoldEnd {
        style.bold
    } else if change is ItalicStart || change is ItalicEnd {
        style.italic
    } else {
        style.quote
    }
}

/// `after` is `before` with the flag of `change` set when it opens a run and
/// cleared when it closes one, every other flag kept.
pub open spec fn style_applied(before: TextStyle, change: StyleChange, after: TextStyle) -> bool {
    &&& flag_of(after, change) == opens_run(change)
    &&& (change is HeadingStart || change is HeadingEnd || after.heading == before.heading)
    &&& (change is BoldStart || change is BoldEnd || after.bold == before.bold)
    &&& (change is ItalicStart || change is ItalicEnd || after.italic == before.italic)
    &&& (change is QuoteStart || change is QuoteEnd || after.quote == before.quote)
}

/// A style change sets its own flag when it opens a run, clears it when it
/// closes one, and leaves the other flags alone.
pub proof fn law_style_change_sets_only_its_flag(style: TextStyle, change: StyleChange)
    ensures
        style_applied(style, change, restyled(style, change)),
{
}

/// Closing a run undoes opening it: text after a start marker and its end
/// marker is styled as before the start, when the run was not already open.
pub proof fn law_end_marker_undoes_start(style: TextStyle)
    ensures
        !style.bold ==> restyled(restyled(style, StyleChange::BoldStart), StyleChange::BoldEnd) == style,
        !style.italic ==> restyled(restyled(style, StyleChange::ItalicStart), StyleChange::ItalicEnd) == style,
        !style.heading ==> restyled(restyled(style, StyleChange::HeadingStart), StyleChange::HeadingEnd) == style,
        !style.quote ==> restyled(restyled(style, StyleChange::QuoteStart), StyleChange::QuoteEnd) == style,
        !restyled(style, StyleChange::BoldEnd).bold,
        !restyled(style, StyleChange::ItalicEnd).italic,
        !restyled(style, StyleChange::HeadingEnd).heading,
        !restyled(style, StyleChange::QuoteEnd).quote,
{
}

/// The layout-stream marker of `change`.
pub open spec fn style_marker_spec(change: StyleChange) -> char {
    match change {
        StyleChange::HeadingStart => '\u{0001}',
        StyleChange::HeadingEnd => '\u{0002}',
        StyleChange::BoldStart => '\u{0003}',
        StyleChange::BoldEnd => '\u{0004}',
        StyleChange::ItalicStart => '\u{0005}',
        StyleChange::ItalicEnd => '\u{0006}',
        StyleChange::QuoteStart => '\u{0007}',
        StyleChange::QuoteEnd => '\u{0008}',
    }
}

/// The style change that the layout-stream character `ch` marks, if any: the
/// control characters 1 to 8 open and close heading, bold, italic and quote runs.
pub open spec fn marker_change(ch: char) -> Option<StyleChange> {
    let u = ch as u32;
    if u == 1 {
        Some(StyleChange::HeadingStart)
    } else if u == 2 {
        Some(StyleChange::HeadingEnd)
    } else if u == 3 {
        Some(StyleChange::BoldStart)
    } else if u == 4 {
        Some(StyleChange::BoldEnd)
    } else if u == 5 {
        Some(StyleChange::ItalicStart)
    } else if u == 6 {
        Some(StyleChange::ItalicEnd)
    } else if u == 7 {
        Some(StyleChange::QuoteStart)
    } else if u == 8 {
        Some(StyleChange::QuoteEnd)
    } else {
        None
    }
}

/// The style that text has after the markers of `cs`, starting from `style`.
pub open spec fn style_after(style: TextStyle, cs: Seq<char>) -> TextStyle
    decreases cs.len(),
{
    if cs.len() == 0 {
        style
    } else {
        let before = style_after(style, cs.drop_last());
        match marker_change(cs.last()) {
            Some(c) => restyled(before, c),
            None => before,
        }
    }
}

/// Each style change is written as the marker that reads back as that change.
pub proof fn law_style_marker_reads_back(change: StyleChange)
    ensures
        marker_change(style_marker_spec(change)) == Some(change),
{
}

/// The layout-stream marker of `change`.
pub fn style_marker(change: StyleChange) -> (r: char)
    ensures
        r == style_marker_spec(change),
{
    match change {
        StyleChange::HeadingStart => '\u{0001}',
        StyleChange::HeadingEnd => '\u{0002}',
        StyleChange::BoldStart => '\u{0003}',
        StyleChange::BoldEnd => '\u{0004}',
        StyleChange::ItalicStart => '\u{0005}',
        StyleChange::ItalicEnd => '\u{0006}',
        StyleChange::QuoteStart => '\u{0007}',
        StyleChange::QuoteEnd => '\u{0008}',
    }
}

/// An event of the stream being paginated.
#[derive(Clone, Copy, Debug)]
pub enum PaginationEvent<'a> {
    Text(&'a str),
    LineBreak,
    ParagraphBreak,
    ExplicitPageBreak,
    EnableExplicitBreaks,
    Style(StyleChange),
    End,
}

/// The vertical space owed before the next text.
#[derive(Clone, Copy, Debug, PartialEq, Eq, Structural)]
pub enum PendingAction {
    Nothing,
    LineBreak,
    ParagraphBreak,
}

/// Which page to render and how.
#[derive(Clone, Copy, Debug, PartialEq, Eq, Structural)]
pub struct PaginationConfig {
    pub target_page: usize,
    pub draw_target_page: bool,
    pub stop_after_target_page: bool,
    pub preserve_target_page_framebuffer: bool,
    pub start_page: usize,
    pub start_cursor_y: u16,
}

/// Where pagination stands after an event.
#[derive(Clone, Copy, Debug, PartialEq, Eq, Structural)]
pub struct PaginationProgress {
    pub current_page: usize,
    pub cursor_y: u16,
    pub target_complete: bool,
}

/// What turning a page did.
#[derive(Clone, Copy, Debug, PartialEq, Eq, Structural)]
pub struct PaginationAdvanceOutcome {
    pub target_complete: bool,
    pub clear_framebuffer: bool,
}

/// The page, the vertical position on it and the break owed.
#[derive(Clone, Copy, Debug, PartialEq, Eq, Structural)]
pub struct PaginationState {
    pub current_page: usize,
    pub cursor_y: u16,
    pub page_has_content: bool,
    pub pending_action: PendingAction,
    pub explicit_page_breaks: bool,
    pub line_height: u16,
}

impl PaginationState {
    /// The state at the start of `config`, with lines `line_height` high.
    pub fn new(config: PaginationConfig, line_height: u16) -> (r: Self)
        ensures
            r == (PaginationState {
                current_page: config.start_page,
                cursor_y: config.start_cursor_y,
                page_has_content: config.start_cursor_y > 0,
                pending_action: PendingAction::Nothing,
                explicit_page_breaks: false,
                line_height,
            }),
    {
        PaginationState {
            current_page: config.start_page,
            cursor_y: config.start_cursor_y,
            page_has_content: config.start_cursor_y > 0,
            pending_action: PendingAction::Nothing,
            explicit_page_breaks: false,
            line_height,
        }
    }

    pub fn current_page(&self) -> (r: usize)
        ensures
            r == self.current_page,
    {
        self.current_page
    }

    pub fn cursor_y(&self) -> (r: u16)
        ensures
            r == self.cursor_y,
    {
        self.cursor_y
    }

    pub fn page_has_content(&self) -> (r: bool)
        ensures
            r == self.page_has_content,
    {
        self.page_has_content
    }

    pub fn enable_explicit_page_breaks(&mut self)
        ensures
            *final(self) == (PaginationState { explicit_page_breaks: true, ..*old(self) }),
    {
        self.explicit_page_breaks = true;
    }

    pub fn set_pending_action(&mut self, pending_action: PendingAction)
        ensures
            *final(self) == (PaginationState { pending_action, ..*old(self) }),
    {
        self.pending_action = pending_action;
    }

    pub fn pending_action(&self) -> (r: PendingAction)
        ensures
            r == self.pending_action,
    {
        self.pending_action
    }

    pub fn clear_pending_action(&mut self)
        ensures
            *final(self) == (PaginationState { pending_action: PendingAction::Nothing, ..*old(self) }),
    {
        self.pending_action = PendingAction::Nothing;
    }

    /// Moves down one line.
    pub fn advance_line_break(&mut self)
        ensures
            *final(self) == (PaginationState { cursor_y: sat_add16(old(self).cursor_y, old(self).line_height), ..*old(self) }),
    {
        self.cursor_y = self.cursor_y.saturating_add(self.line_height);
    }

    /// Moves down half a line.
    pub fn advance_paragraph_break(&mut self)
        ensures
            *final(self) == (PaginationState {
                cursor_y: sat_add16(old(self).cursor_y, (old(self).line_height / 2) as u16),
                ..*old(self)
            }),
    {
        self.cursor_y = self.cursor_y.saturating_add(self.line_height / 2);
    }

    pub fn set_cursor_y(&mut self, cursor_y: u16)
        ensures
            *final(self) == (PaginationState { cursor_y, ..*old(self) }),
    {
        self.cursor_y = cursor_y;
    }

    pub fn mark_page_has_content(&mut self)
        ensures
            *final(self) == (PaginationState { page_has_content: true, ..*old(self) }),
    {
        self.page_has_content = true;
    }

    pub fn current_page_is_target_or_later(&self, config: &PaginationConfig) -> (r: bool)
        ensures
            r == (self.current_page >= config.target_page),
    {
        self.current_page >= config.target_page
    }

    /// A page must turn for height: breaks are not explicit and the page is full.
    pub fn should_advance_for_height(&self, renderer_height: u16) -> (r: bool)
        ensures
            r == (!self.explicit_page_breaks && self.cursor_y >= renderer_height),
    {
        !self.explicit_page_breaks && self.cursor_y >= renderer_height
    }

    /// Turns the page. At or past the target, the target is complete: with
    /// `stop_after_target_page` nothing moves; otherwise the page turns and the
    /// frame is cleared unless the target page is to be kept. Before the target
    /// the page turns and the frame is cleared.
    pub fn advance_page(&mut self, config: PaginationConfig) -> (r: PaginationAdvanceOutcome)
        ensures
            old(self).current_page >= config.target_page && config.stop_after_target_page ==> r
                == (PaginationAdvanceOutcome { target_complete: true, clear_framebuffer: false }) && *final(self) == *old(self),
            !(old(self).current_page >= config.target_page && config.stop_after_target_page) ==> {
                &&& final(self).current_page == sat_add_usize(old(self).current_page, 1)
                &&& final(self).cursor_y == 0
                &&& !final(self).page_has_content
                &&& final(self).pending_action == old(self).pending_action
                &&& final(self).explicit_page_breaks == old(self).explicit_page_breaks
                &&& final(self).line_height == old(self).line_height
                &&& r.target_complete == (old(self).current_page >= config.target_page)
                &&& r.clear_framebuffer == (old(self).current_page < config.target_page
                    || !config.preserve_target_page_framebuffer)
            },
    {
        if self.current_page >= config.target_page {
            if config.stop_after_target_page {
                return PaginationAdvanceOutcome { target_complete: true, clear_framebuffer: false };
            }
            self.current_page = self.current_page.saturating_add(1);
            self.cursor_y = 0;
            self.page_has_content = false;
            return PaginationAdvanceOutcome {
                target_complete: true,
                clear_framebuffer: !config.preserve_target_page_framebuffer,
            };
        }
        self.current_page = self.current_page.saturating_add(1);
        self.cursor_y = 0;
        self.page_has_content = false;
        PaginationAdvanceOutcome { target_complete: false, clear_framebuffer: true }
    }

    /// Applies the owed break on a page with content; on an empty page it is dropped.
    pub fn apply_pending_action(&mut self)
        ensures
            final(self).pending_action == PendingAction::Nothing,
            final(self).current_page == old(self).current_page,
            final(self).page_has_content == old(self).page_has_content,
            final(self).explicit_page_breaks == old(self).explicit_page_breaks,
            final(self).line_height == old(self).line_height,
            final(self).cursor_y == (if !old(self).page_has_content {
                old(self).cursor_y
            } else {
                match old(self).pending_action {
                    PendingAction::Nothing => old(self).cursor_y,
                    PendingAction::LineBreak => sat_add16(old(self).cursor_y, old(self).line_height),
                    PendingAction::ParagraphBreak => sat_add16(old(self).cursor_y, (old(self).line_height / 2) as u16),
                }
            }),
    {
        if !self.page_has_content {
            self.clear_pending_action();
            return;
        }
        match self.pending_action {
            PendingAction::Nothing => {},
            PendingAction::LineBreak => self.advance_line_break(),
            PendingAction::ParagraphBreak => self.advance_paragraph_break(),
        }
        self.clear_pending_action();
    }
}

/// `a + b`, or `u16::MAX` when that is larger.
pub open spec fn sat_add16(a: u16, b: u16) -> u16 {
    if a + b > u16::MAX { u16::MAX } else { (a + b) as u16 }
}

/// `a + b`, or `usize::MAX` when that is larger.
pub open spec fn sat_add_usize(a: usize, b: usize) -> usize {
    if a + b > usize::MAX { usize::MAX } else { (a + b) as usize }
}

/// A bounded buffer of text bytes.
pub struct TextBuffer {
    pub buf: Vec<u8>,
    pub capacity: usize,
}

impl TextBuffer {
    /// An empty buffer of `capacity` bytes.
    pub fn new(capacity: usize) -> (r: Self)
        ensures
            r.buf@.len() == 0,
            r.capacity == capacity,
    {
        TextBuffer { buf: Vec::new(), capacity }
    }

    pub fn is_empty(&self) -> (r: bool)
        ensures
            r == (self.buf@.len() == 0),
    {
        self.buf.len() == 0
    }

    pub fn len(&self) -> (r: usize)
        ensures
            r == self.buf@.len(),
    {
        self.buf.len()
    }

    pub fn clear(&mut self)
        ensures
            final(self).buf@.len() == 0,
            final(self).capacity == old(self).capacity,
    {
        self.buf.clear();
    }

    /// Appends as many bytes of `text` as there is room for.
    pub fn push_exact(&mut self, text: &str)
        ensures
            final(self).capacity == old(self).capacity,
            final(self).buf@ == old(self).buf@ + text.spec_bytes().subrange(
                0,
                if old(self).buf@.len() >= old(self).capacity {
                    0
                } else if text.spec_bytes().len() <= old(self).capacity - old(self).buf@.len() {
                    text.spec_bytes().len() as int
                } else {
                    old(self).capacity - old(self).buf@.len()
                },
            ),
    {
        let bytes = text.as_bytes();
        let room = if self.buf.len() >= self.capacity { 0 } else { self.capacity - self.buf.len() };
        let take = if bytes.len() <= room { bytes.len() } else { room };
        let ghost before = self.buf@;
        let mut i: usize = 0;
        while i < take
            invariant
                i <= take,
                take <= bytes@.len(),
                bytes@ == text.spec_bytes(),
                self.buf@ == before + bytes@.subrange(0, i as int),
                self.capacity == old(self).capacity,
            decreases take - i,
        {
            self.buf.push(bytes[i]);
            proof {
                assert(before + bytes@.subrange(0, i + 1) =~= (before + bytes@.subrange(0, i as int)).push(bytes@[i as int]));
            }
            i += 1;
        }
    }

    /// The buffered text, or nothing when its bytes are not valid UTF-8.
    pub fn as_string(&self) -> (r: String)
        ensures
            vstd::utf8::valid_utf8(self.buf@) ==> r@ == vstd::utf8::decode_utf8(self.buf@),
    {
        match crate::epub::text_of(self.buf.as_slice()) {
            Ok(s) => s,
            Err(_) => String::new(),
        }
    }

    /// Drops the first `count` bytes.
    pub fn advance(&mut self, count: usize)
        ensures
            final(self).capacity == old(self).capacity,
            final(self).buf@ == (if count >= old(self).buf@.len() {
                Seq::empty()
            } else {
                old(self).buf@.subrange(count as int, old(self).buf@.len() as int)
            }),
    {
        if count == 0 {
            assert(self.buf@.subrange(0, self.buf@.len() as int) =~= self.buf@);
            return;
        }
        if count >= self.buf.len() {
            self.clear();
            return;
        }
        let mut rest: Vec<u8> = Vec::new();
        let mut i = count;
        while i < self.buf.len()
            invariant
                count <= i <= self.buf@.len(),
                rest@ == self.buf@.subrange(count as int, i as int),
                self.buf@ == old(self).buf@,
                self.capacity == old(self).capacity,
            decreases self.buf@.len() - i,
        {
            rest.push(self.buf[i]);
            i += 1;
        }
        self.buf = rest;
    }
}

/// Text buffered for pagination and the pagination state.
pub struct PaginatorState {
    pub text: TextBuffer,
    pub state: PaginationState,
    pub style: TextStyle,
}

impl PaginatorState {
    /// An empty paginator at the start of `config`, holding at most `capacity`
    /// bytes of text between layouts.
    pub fn new(config: PaginationConfig, capacity: usize, line_height: u16) -> (r: Self)
        ensures
            r.text.buf@.len() == 0,
            r.text.capacity == capacity,
            r.state == PaginationState::new_spec(config, line_height),
            r.style == (TextStyle { heading: false, bold: false, italic: false, quote: false }),
    {
        PaginatorState {
            text: TextBuffer::new(capacity),
            state: PaginationState::new(config, line_height),
            style: TextStyle::plain(),
        }
    }

    pub fn current_page(&self) -> (r: usize)
        ensures
            r == self.state.current_page,
    {
        self.state.current_page()
    }

    pub fn cursor_y(&self) -> (r: u16)
        ensures
            r == self.state.cursor_y,
    {
        self.state.cursor_y()
    }

    /// Turns the page for the renderer: stops at the target when asked to,
    /// else turns it and clears the frame unless the target page is kept.
    fn advance_page<R: PaginationRenderer, O: PaginationObserver>(
        &mut self,
        renderer: &mut R,
        observer: &mut O,
        config: PaginationConfig,
    ) -> (r: Result<bool, EpubError>)
        requires
            old(renderer).ready(),
        ensures
            final(renderer).ready(),
            final(self).text == old(self).text,
            final(self).style == old(self).style,
            r matches Ok(false) ==> final(self).state.cursor_y == 0,
            final(observer).never_fails() == old(observer).never_fails(),
            old(observer).never_fails() ==> r is Ok,
            r is Err ==> final(self).state == old(self).state,
            old(self).state.current_page >= config.target_page && config.stop_after_target_page ==> r == Ok::<bool, EpubError>(true)
                && final(self).state == old(self).state,
            !(old(self).state.current_page >= config.target_page && config.stop_after_target_page) && r is Ok ==> {
                &&& r == Ok::<bool, EpubError>(old(self).state.current_page >= config.target_page)
                &&& final(self).state.current_page == sat_add_usize(old(self).state.current_page, 1)
                &&& final(self).state.cursor_y == 0
                &&& !final(self).state.page_has_content
                &&& final(self).state.pending_action == old(self).state.pending_action
                &&& final(self).state.explicit_page_breaks == old(self).state.explicit_page_breaks
            },
            r matches Ok(true) ==> final(self).state.current_page >= config.target_page,
            config.stop_after_target_page && old(self).state.current_page <= config.target_page ==> final(self).state.current_page
                <= config.target_page,
    {
        if self.state.current_page_is_target_or_later(&config) {
            if config.stop_after_target_page {
                return Ok(true);
            }
            match observer.on_page_break() {
                Ok(()) => {},
                Err(e) => return Err(e),
            }
            let outcome = self.state.advance_page(config);
            if !config.preserve_target_page_framebuffer {
                renderer.clear_to_white();
            }
            return Ok(outcome.target_complete);
        }
        match observer.on_page_break() {
            Ok(()) => {},
            Err(e) => return Err(e),
        }
        let outcome = self.state.advance_page(config);
        renderer.clear_to_white();
        Ok(outcome.target_complete)
    }

    /// When the whole buffer fits on the page in more than one line, places its
    /// finished lines and keeps the last one buffered (true); else changes
    /// nothing (false).
    fn place_finished_lines<R: PaginationRenderer, O: PaginationObserver>(
        &mut self,
        renderer: &mut R,
        observer: &mut O,
        config: PaginationConfig,
    ) -> (r: Result<bool, EpubError>)
        requires
            old(renderer).ready(),
        ensures
            final(renderer).ready(),
            final(self).text.capacity == old(self).text.capacity,
            final(self).style == old(self).style,
            r matches Ok(true) ==> final(self).text.buf@.len() < old(self).text.buf@.len(),
            r matches Ok(false) ==> final(self).text == old(self).text && final(self).state == old(self).state,
            final(observer).never_fails() == old(observer).never_fails(),
            old(observer).never_fails() ==> r is Ok,
            old(self).text.buf@.len() == 0 ==> r == Ok::<bool, EpubError>(false),
            final(self).state.current_page == old(self).state.current_page,
    {
        let current = self.text.as_string();
        let cursor_before = self.state.cursor_y();
        let height = renderer.display_height();
        let probe = renderer.measure_wrapped_text_block(0, cursor_before, current.as_str(), height, self.style);
        if self.text.is_empty() || probe.consumed < self.text.len() || probe.next_y <= cursor_before {
            return Ok(false);
        }
        let limit = probe.next_y - 1;
        let result = if self.state.current_page() >= config.target_page && config.draw_target_page {
            renderer.draw_wrapped_text_block(0, cursor_before, current.as_str(), limit, self.style)
        } else {
            renderer.measure_wrapped_text_block(0, cursor_before, current.as_str(), limit, self.style)
        };
        let consumed = if result.consumed <= self.text.len() { result.consumed } else { self.text.len() };
        if consumed == 0 {
            return Ok(false);
        }
        let piece = crate::epub::text_of(crate::zip::slice_range(self.text.buf.as_slice(), 0, consumed));
        match piece {
            Ok(t) => match observer.on_text(t.as_str()) {
                Ok(()) => {},
                Err(e) => return Err(e),
            },
            Err(_) => {},
        }
        self.text.advance(consumed);
        self.state.set_cursor_y(result.next_y);
        if self.state.cursor_y() > cursor_before {
            self.state.mark_page_has_content();
        }
        Ok(true)
    }

    /// Lays out the buffered text page after page until it is all placed or
    /// the target is complete (true). With `hold_partial_line`, more text is
    /// still to come: when the buffer fits on the page in more than one line,
    /// only its finished lines are placed and the last line stays buffered, so
    /// that it goes on with the text that follows.
    fn flush_text<R: PaginationRenderer, O: PaginationObserver>(
        &mut self,
        renderer: &mut R,
        observer: &mut O,
        config: PaginationConfig,
        hold_partial_line: bool,
    ) -> (r: Result<bool, EpubError>)
        requires
            old(renderer).ready(),
        ensures
            final(renderer).ready(),
            final(self).text.capacity == old(self).text.capacity,
            final(self).style == old(self).style,
            r matches Ok(false) ==> final(self).text.buf@.len() == 0 || (hold_partial_line
                && final(self).text.buf@.len() < old(self).text.buf@.len()),
            final(observer).never_fails() == old(observer).never_fails(),
            r matches Err(e) ==> e == EpubError::OutOfSpace || !old(observer).never_fails(),
            old(self).text.buf@.len() == 0 ==> r == Ok::<bool, EpubError>(false) && *final(self) == *old(self),
            r matches Ok(true) ==> final(self).state.current_page >= config.target_page,
            config.stop_after_target_page && old(self).state.current_page <= config.target_page ==> final(self).state.current_page
                <= config.target_page,
    {
        while !self.text.is_empty()
            invariant
                renderer.ready(),
                self.text.capacity == old(self).text.capacity,
                self.style == old(self).style,
                self.text.buf@.len() <= old(self).text.buf@.len(),
                observer.never_fails() == old(observer).never_fails(),
                config.stop_after_target_page && old(self).state.current_page <= config.target_page ==> self.state.current_page
                    <= config.target_page,
                old(self).text.buf@.len() == 0 ==> *self == *old(self),
            decreases self.text.buf@.len(), (if self.state.cursor_y == 0 { 0int } else { 1int }),
        {
            if hold_partial_line {
                match self.place_finished_lines(renderer, observer, config) {
                    Ok(true) => return Ok(false),
                    Ok(false) => {},
                    Err(e) => return Err(e),
                }
            }
            let current = self.text.as_string();
            let cursor_before = self.state.cursor_y();
            let height = renderer.display_height();
            let result = if self.state.current_page() >= config.target_page && config.draw_target_page {
                renderer.draw_wrapped_text_block(0, self.state.cursor_y(), current.as_str(), height, self.style)
            } else {
                renderer.measure_wrapped_text_block(0, self.state.cursor_y(), current.as_str(), height, self.style)
            };
            let consumed = if result.consumed <= self.text.len() { result.consumed } else { self.text.len() };
            if consumed > 0 {
                let piece = crate::epub::text_of(crate::zip::slice_range(self.text.buf.as_slice(), 0, consumed));
                match piece {
                    Ok(t) => match observer.on_text(t.as_str()) {
                        Ok(()) => {},
                        Err(e) => return Err(e),
                    },
                    Err(_) => {},
                }
            }
            let len_before = self.text.len();
            self.text.advance(consumed);
            self.state.set_cursor_y(result.next_y);
            if self.state.cursor_y() > cursor_before {
                self.state.mark_page_has_content();
            }
            if !self.text.is_empty() {
                if consumed == 0 && cursor_before == 0 {
                    return Err(EpubError::OutOfSpace);
                }
                match self.advance_page(renderer, observer, config) {
                    Ok(true) => return Ok(true),
                    Ok(false) => {},
                    Err(e) => return Err(e),
                }
            } else if self.state.should_advance_for_height(renderer.display_height()) {
                match self.advance_page(renderer, observer, config) {
                    Ok(true) => return Ok(true),
                    Ok(false) => {},
                    Err(e) => return Err(e),
                }
            }
        }
        Ok(false)
    }

    /// Applies the owed break and turns the page when that fills it.
    fn apply_pending_action<R: PaginationRenderer, O: PaginationObserver>(
        &mut self,
        renderer: &mut R,
        observer: &mut O,
        config: PaginationConfig,
    ) -> (r: Result<bool, EpubError>)
        requires
            old(renderer).ready(),
        ensures
            final(renderer).ready(),
            final(self).text == old(self).text,
            final(self).style == old(self).style,
            final(observer).never_fails() == old(observer).never_fails(),
            old(observer).never_fails() ==> r is Ok,
            !old(self).state.page_has_content ==> r == Ok::<bool, EpubError>(false) && final(self).state == (PaginationState {
                pending_action: PendingAction::Nothing,
                ..old(self).state
            }),
            r matches Ok(true) ==> final(self).state.current_page >= config.target_page,
            config.stop_after_target_page && old(self).state.current_page <= config.target_page ==> final(self).state.current_page
                <= config.target_page,
    {
        if !self.state.page_has_content() {
            self.state.clear_pending_action();
            return Ok(false);
        }
        match self.state.pending_action() {
            PendingAction::Nothing => {},
            PendingAction::LineBreak => {
                match observer.on_line_break() {
                    Ok(()) => {},
                    Err(e) => return Err(e),
                }
            },
            PendingAction::ParagraphBreak => {
                match observer.on_paragraph_break() {
                    Ok(()) => {},
                    Err(e) => return Err(e),
                }
            },
        }
        self.state.apply_pending_action();
        if self.state.should_advance_for_height(renderer.display_height()) {
            return self.advance_page(renderer, observer, config);
        }
        Ok(false)
    }

    /// Buffers `text`, laying out the buffer whenever it is full; a piece
    /// that would cut a character in two is dropped.
    fn push_text<R: PaginationRenderer, O: PaginationObserver>(
        &mut self,
        renderer: &mut R,
        observer: &mut O,
        config: PaginationConfig,
        text: &str,
    ) -> (r: Result<bool, EpubError>)
        requires
            old(renderer).ready(),
        ensures
            final(renderer).ready(),
            final(self).text.capacity == old(self).text.capacity,
            final(self).style == old(self).style,
            final(observer).never_fails() == old(observer).never_fails(),
            r matches Err(e) ==> e == EpubError::OutOfSpace || !old(observer).never_fails(),
            text.spec_bytes().len() == 0 ==> r == Ok::<bool, EpubError>(false) && *final(self) == *old(self),
            r matches Ok(true) ==> final(self).state.current_page >= config.target_page,
            config.stop_after_target_page && old(self).state.current_page <= config.target_page ==> final(self).state.current_page
                <= config.target_page,
    {
        let bytes = text.as_bytes();
        let n = bytes.len();
        let mut start: usize = 0;
        while start < n
            invariant
                renderer.ready(),
                start <= n,
                n == bytes@.len(),
                self.text.capacity == old(self).text.capacity,
                self.style == old(self).style,
                observer.never_fails() == old(observer).never_fails(),
                config.stop_after_target_page && old(self).state.current_page <= config.target_page ==> self.state.current_page
                    <= config.target_page,
                n == 0 ==> *self == *old(self),
                bytes@ == text.spec_bytes(),
            decreases n - start, self.text.buf@.len(),
        {
            let remaining = if self.text.len() >= self.text.capacity { 0 } else { self.text.capacity - self.text.len() };
            if remaining == 0 {
                if self.text.capacity == 0 {
                    return Err(EpubError::OutOfSpace);
                }
                match self.flush_text(renderer, observer, config, true) {
                    Ok(true) => return Ok(true),
                    Ok(false) => {},
                    Err(e) => return Err(e),
                }
                continue;
            }
            let take = if remaining < n - start { remaining } else { n - start };
            match crate::epub::text_of(crate::zip::slice_range(bytes, start, start + take)) {
                Ok(piece) => self.text.push_exact(piece.as_str()),
                Err(_) => {},
            }
            start = start + take;
        }
        Ok(false)
    }

    /// Feeds one event: text is buffered; a line or paragraph break flushes
    /// the text and owes its space unless a page turn absorbed it; an explicit
    /// page break flushes and turns the page; the end flushes and applies what
    /// is owed.
    pub fn feed<R: PaginationRenderer, O: PaginationObserver>(
        &mut self,
        renderer: &mut R,
        observer: &mut O,
        config: PaginationConfig,
        event: PaginationEvent,
    ) -> (r: Result<PaginationProgress, EpubError>)
        requires
            old(renderer).ready(),
        ensures
            final(renderer).ready(),
            final(self).text.capacity == old(self).text.capacity,
            !(event is Style) ==> final(self).style == old(self).style,
            event matches PaginationEvent::Style(c) ==> (r is Ok ==> final(self).style == restyled(old(self).style, c)),
            event matches PaginationEvent::Style(c) ==> (r is Ok ==> style_applied(old(self).style, c, final(self).style)),
            r matches Ok(p) ==> p.current_page == final(self).state.current_page && p.cursor_y == final(self).state.cursor_y,
            final(observer).never_fails() == old(observer).never_fails(),
            r matches Err(e) ==> e == EpubError::OutOfSpace || !old(observer).never_fails(),
            event is EnableExplicitBreaks ==> (r matches Ok(p) && !p.target_complete && final(self).state == (PaginationState {
                explicit_page_breaks: true,
                ..old(self).state
            })),
            r matches Ok(p) ==> (p.target_complete ==> p.current_page >= config.target_page),
            config.stop_after_target_page && old(self).state.current_page <= config.target_page ==> final(self).state.current_page
                <= config.target_page,
    {
        let mut target_complete = false;
        match event {
            PaginationEvent::EnableExplicitBreaks => {
                self.state.enable_explicit_page_breaks();
            },
            PaginationEvent::Text(text) => {
                target_complete = match self.push_text(renderer, observer, config, text) {
                    Ok(v) => v,
                    Err(e) => return Err(e),
                };
            },
            PaginationEvent::LineBreak | PaginationEvent::ParagraphBreak => {
                let page_before_flush = self.state.current_page();
                target_complete = match self.flush_text(renderer, observer, config, false) {
                    Ok(v) => v,
                    Err(e) => return Err(e),
                };
                let absorbed = self.state.current_page() != page_before_flush && self.state.cursor_y() == 0;
                if !target_complete && !absorbed {
                    let action = match event {
                        PaginationEvent::LineBreak => PendingAction::LineBreak,
                        _ => PendingAction::ParagraphBreak,
                    };
                    self.state.set_pending_action(action);
                    target_complete = match self.apply_pending_action(renderer, observer, config) {
                        Ok(v) => v,
                        Err(e) => return Err(e),
                    };
                }
            },
            PaginationEvent::ExplicitPageBreak => {
                target_complete = match self.flush_text(renderer, observer, config, false) {
                    Ok(v) => v,
                    Err(e) => return Err(e),
                };
                if !target_complete {
                    self.state.enable_explicit_page_breaks();
                    target_complete = match self.advance_page(renderer, observer, config) {
                        Ok(v) => v,
                        Err(e) => return Err(e),
                    };
                }
            },
            PaginationEvent::Style(change) => {
                target_complete = match self.flush_text(renderer, observer, config, false) {
                    Ok(v) => v,
                    Err(e) => return Err(e),
                };
                match observer.on_style_marker(change) {
                    Ok(()) => {},
                    Err(e) => return Err(e),
                }
                self.style = match change {
                    StyleChange::HeadingStart => TextStyle { heading: true, ..self.style },
                    StyleChange::HeadingEnd => TextStyle { heading: false, ..self.style },
                    StyleChange::BoldStart => TextStyle { bold: true, ..self.style },
                    StyleChange::BoldEnd => TextStyle { bold: false, ..self.style },
                    StyleChange::ItalicStart => TextStyle { italic: true, ..self.style },
                    StyleChange::ItalicEnd => TextStyle { italic: false, ..self.style },
                    StyleChange::QuoteStart => TextStyle { quote: true, ..self.style },
                    StyleChange::QuoteEnd => TextStyle { quote: false, ..self.style },
                };
            },
            PaginationEvent::End => {
                target_complete = match self.flush_text(renderer, observer, config, false) {
                    Ok(v) => v,
                    Err(e) => return Err(e),
                };
                if !target_complete {
                    target_complete = match self.apply_pending_action(renderer, observer, config) {
                        Ok(v) => v,
                        Err(e) => return Err(e),
                    };
                }
            },
        }
        Ok(PaginationProgress {
            current_page: self.state.current_page(),
            cursor_y: self.state.cursor_y(),
            target_complete,
        })
    }
}

impl PaginationState {
    /// The state `new` builds.
    pub open spec fn new_spec(config: PaginationConfig, line_height: u16) -> PaginationState {
        PaginationState {
            current_page: config.start_page,
            cursor_y: config.start_cursor_y,
            page_has_content: config.start_cursor_y > 0,
            pending_action: PendingAction::Nothing,
            explicit_page_breaks: false,
            line_height,
        }
    }
}

} // verus!
