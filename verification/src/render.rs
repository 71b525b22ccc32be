//! Reader pages: the fonts of the reader, its footer, drawing text in them and
//! the renderer that pagination draws through.
use vstd::prelude::*;
use vstd::string::StringSliceAdditionalSpecFns;
use crate::font::Font;
use crate::font::MAX_SHAPED_CHARS;
use crate::framebuffer::Framebuffer;
use crate::framebuffer::DISPLAY_HEIGHT;
use crate::framebuffer::DISPLAY_WIDTH;
use crate::framebuffer::no_lighter;
use crate::framebuffer::one_line;
use crate::framebuffer::shows_line;
use crate::paginator::PaginationRenderer;
use crate::paginator::TextStyle;
use crate::text::WrappedTextLayoutResult;
use crate::text::layout_wrapped_text_page;

verus! {

pub const READER_FOOTER_HORIZONTAL_PADDING: u16 = 4;
pub const QUOTE_INDENT_PX: u16 = 24;
pub const LINE_BUF_LEN: usize = 512;

/// The faces the reader draws with.
#[derive(Debug, Clone)]
pub struct FontSet {
    pub body: Font,
    pub heading: Font,
    pub footer: Font,
    pub body_italic: Font,
    pub heading_italic: Font,
    pub has_real_italic: bool,
}

impl FontSet {
    /// Every face is consistent.
    pub open spec fn wf(&self) -> bool {
        &&& self.body.wf()
        &&& self.heading.wf()
        &&& self.footer.wf()
        &&& self.body_italic.wf()
        &&& self.heading_italic.wf()
    }

    /// Checks that every face is consistent.
    pub fn is_wf(&self) -> (r: bool)
        ensures
            r == self.wf(),
    {
        self.body.is_wf() && self.heading.is_wf() && self.footer.is_wf() && self.body_italic.is_wf()
            && self.heading_italic.is_wf()
    }
}

/// The height of a body line.
pub fn body_line_height_px(fonts: &FontSet) -> (r: u16)
    ensures
        r == fonts.body.line_height,
{
    fonts.body.line_height_px()
}

/// The height of a heading line.
pub fn heading_line_height_px(fonts: &FontSet) -> (r: u16)
    ensures
        r == fonts.heading.line_height,
{
    fonts.heading.line_height_px()
}

/// The height of a footer line.
pub fn footer_line_height_px(fonts: &FontSet) -> (r: u16)
    ensures
        r == fonts.footer.line_height,
{
    fonts.footer.line_height_px()
}

/// The height of the footer: a footer line and 8 pixels.
pub fn reader_footer_height(fonts: &FontSet) -> (r: u16)
    ensures
        r == crate::paginator::sat_add16(fonts.footer.line_height, 8),
{
    footer_line_height_px(fonts).saturating_add(8)
}

/// The height left for the page above the footer.
pub fn reader_content_height(fonts: &FontSet) -> (r: u16)
    ensures
        r == (if DISPLAY_HEIGHT >= crate::paginator::sat_add16(fonts.footer.line_height, 8) {
            DISPLAY_HEIGHT - crate::paginator::sat_add16(fonts.footer.line_height, 8)
        } else {
            0
        }),
{
    DISPLAY_HEIGHT.saturating_sub(reader_footer_height(fonts))
}

/// A width as the reader measures it: negative or too wide counts as `u16::MAX`.
pub open spec fn clamp_width(w: int) -> u16 {
    if 0 <= w <= u16::MAX { w as u16 } else { u16::MAX }
}

/// The width of the characters `cs` in `font`.
pub fn chars_width_with_font(cs: &[char], font: &Font) -> (r: u16)
    requires
        font.wf(),
        cs@.len() <= MAX_SHAPED_CHARS,
    ensures
        r == clamp_width(font.shaped_width(cs@)),
{
    let w = crate::text::measure_chars(font, cs);
    if 0 <= w && w <= 65535 {
        w as u16
    } else {
        u16::MAX
    }
}

/// The width of `text` in `font`; `u16::MAX` for a text too long to shape.
pub fn text_width_with_font(text: &str, font: &Font) -> (r: u16)
    requires
        font.wf(),
    ensures
        text@.len() <= MAX_SHAPED_CHARS ==> r == clamp_width(font.shaped_width(text@)),
        text@.len() > MAX_SHAPED_CHARS ==> r == u16::MAX,
{
    let cs = crate::font::chars_of(text);
    if cs.len() > MAX_SHAPED_CHARS {
        return u16::MAX;
    }
    chars_width_with_font(cs.as_slice(), font)
}

/// The width of `text` in the body face.
pub fn text_width(fonts: &FontSet, text: &str) -> (r: u16)
    requires
        fonts.wf(),
        text@.len() <= MAX_SHAPED_CHARS,
    ensures
        r == clamp_width(fonts.body.shaped_width(text@)),
{
    text_width_with_font(text, &fonts.body)
}

/// The width of `text` in the footer face.
pub fn footer_text_width(fonts: &FontSet, text: &str) -> (r: u16)
    requires
        fonts.wf(),
        text@.len() <= MAX_SHAPED_CHARS,
    ensures
        r == clamp_width(fonts.footer.shaped_width(text@)),
{
    text_width_with_font(text, &fonts.footer)
}

/// The longest start of `text` whose every prefix fits in `max_width`, walking
/// a character at a time and stopping at the first prefix that does not fit:
/// the whole text when it fits; nothing for no room or no text.
pub fn fitted_text_prefix_with_font<'a>(text: &'a str, max_width: u16, font: &Font) -> (r: Option<&'a str>)
    requires
        font.wf(),
        text@.len() <= MAX_SHAPED_CHARS,
    ensures
        max_width == 0 || text@.len() == 0 ==> r is None,
        max_width > 0 && text@.len() > 0 && clamp_width(font.shaped_width(text@)) <= max_width ==> r == Some(text),
        r matches Some(p) ==> p.spec_bytes().len() > 0 && p.spec_bytes() == text.spec_bytes().subrange(0, p.spec_bytes().len() as int),
        r matches Some(p) ==> 0 < p@.len() <= text@.len() && p@ == text@.subrange(0, p@.len() as int) && clamp_width(
            font.shaped_width(p@),
        ) <= max_width,
        r matches Some(p) ==> (p@.len() < text@.len() ==> clamp_width(font.shaped_width(text@.subrange(0, p@.len() + 1 as int)))
            > max_width),
        max_width > 0 && text@.len() > 0 && clamp_width(font.shaped_width(text@.subrange(0, 1))) <= max_width ==> r is Some,
{
    let cs = crate::font::chars_of(text);
    if max_width == 0 || cs.len() == 0 {
        return None;
    }
    if chars_width_with_font(cs.as_slice(), font) <= max_width {
        proof {
            assert(text@.subrange(0, text@.len() as int) =~= text@);
            assert(text.spec_bytes().subrange(0, text.spec_bytes().len() as int) =~= text.spec_bytes());
            crate::text::lemma_str_len(text);
            lemma_utf8_len_positive(text@);
        }
        return Some(text);
    }
    let n = cs.len();
    let mut end: usize = 0;
    let mut i: usize = 0;
    while i < n
        invariant
            n == cs@.len(),
            cs@ == text@,
            n <= MAX_SHAPED_CHARS,
            font.wf(),
            end <= i <= n,
            end == i,
            end > 0 ==> clamp_width(font.shaped_width(text@.subrange(0, end as int))) <= max_width,
        ensures
            end <= n,
            end > 0 ==> clamp_width(font.shaped_width(text@.subrange(0, end as int))) <= max_width,
            end < n ==> clamp_width(font.shaped_width(text@.subrange(0, end + 1))) > max_width,
        decreases n - i,
    {
        let w = chars_width_with_font(crate::text::char_range(cs.as_slice(), 0, i + 1), font);
        if w > max_width {
            break;
        }
        end = i + 1;
        i += 1;
    }
    if end == 0 {
        return None;
    }
    let mid = crate::text::utf8_prefix_len(cs.as_slice(), end);
    proof {
        let prefix = text@.subrange(0, end as int);
        lemma_utf8_len_positive(prefix);
        crate::text::lemma_str_len(text);
        crate::text::lemma_utf8_len_prefix(text@, end as int);
        crate::text::lemma_encode_prefix(text@, end as int);
        assert(prefix + text@.subrange(end as int, text@.len() as int) =~= text@);
        lemma_boundary_after(prefix, text@.subrange(end as int, text@.len() as int));
        crate::text::lemma_utf8_len_matches(prefix);
        assert(mid > 0);
        assert(mid <= text.spec_bytes().len());
        assert(text.spec_bytes() == vstd::utf8::encode_utf8(prefix + text@.subrange(end as int, text@.len() as int)));
        assert(vstd::utf8::is_char_boundary(text.spec_bytes(), mid as int));
    }
    let byte_len = text.as_bytes().len();
    if mid == 0 || mid > byte_len || !text.is_char_boundary(mid) {
        return None;
    }
    let (head, _) = text.split_at(mid);
    proof {
        let prefix = text@.subrange(0, end as int);
        crate::text::lemma_encode_prefix(text@, end as int);
        assert(head.spec_bytes() == vstd::utf8::encode_utf8(prefix));
        vstd::utf8::encode_utf8_decode_utf8(head@);
        vstd::utf8::encode_utf8_decode_utf8(prefix);
        assert(head@ == prefix);
    }
    Some(head)
}

/// The end of the encoding of `a` is a character boundary of the encoding of `a + b`.
proof fn lemma_boundary_after(a: Seq<char>, b: Seq<char>)
    ensures
        vstd::utf8::is_char_boundary(vstd::utf8::encode_utf8(a + b), vstd::utf8::encode_utf8(a).len() as int),
    decreases a.len(),
{
    broadcast use vstd::utf8::encode_utf8_valid_utf8;

    if a.len() > 0 {
        let ab = a + b;
        vstd::utf8::encode_utf8_first_scalar(ab);
        vstd::utf8::encode_utf8_first_scalar(a);
        assert(vstd::utf8::pop_first_scalar(vstd::utf8::encode_utf8(ab)) =~= vstd::utf8::encode_utf8(ab.drop_first()));
        assert(vstd::utf8::pop_first_scalar(vstd::utf8::encode_utf8(a)) =~= vstd::utf8::encode_utf8(a.drop_first()));
        assert(ab.drop_first() =~= a.drop_first() + b);
        assert(ab[0] == a[0]);
        lemma_boundary_after(a.drop_first(), b);
    }
}

/// A nonempty run of characters encodes to at least one byte.
proof fn lemma_utf8_len_positive(cs: Seq<char>)
    requires
        cs.len() > 0,
    ensures
        crate::text::utf8_len_of(cs) > 0,
{
    assert(crate::text::utf8_len_of(cs) == crate::text::utf8_len_of(cs.drop_last()) + crate::text::char_utf8_len(cs.last()));
}

/// Where the footer's texts go: the left text clipped so a space separates it
/// from the right text, the middle text clipped to what remains.
#[derive(Debug)]
pub struct ReaderFooterLayout<'a> {
    pub left_x: u16,
    pub left_text: Option<&'a str>,
    pub middle_x: u16,
    pub middle_text: Option<&'a str>,
    pub right_x: u16,
    pub right_text: &'a str,
}

/// The width of a space in the footer face.
pub open spec fn footer_space_width(fonts: &FontSet) -> u16 {
    clamp_width(fonts.footer.shaped_width(seq![' ']))
}

/// Lays out the footer: the right text against the right padding, the left
/// text from the left padding clipped to end a space before it, and the middle
/// text a space after the left text, clipped likewise.
pub fn layout_reader_footer<'a>(
    fonts: &FontSet,
    left_text: Option<&'a str>,
    middle_text: Option<&'a str>,
    right_text: &'a str,
) -> (r: ReaderFooterLayout<'a>)
    requires
        fonts.wf(),
        right_text@.len() <= MAX_SHAPED_CHARS,
        left_text matches Some(t) ==> t@.len() <= MAX_SHAPED_CHARS,
        middle_text matches Some(t) ==> t@.len() <= MAX_SHAPED_CHARS,
    ensures
        r.left_x == READER_FOOTER_HORIZONTAL_PADDING,
        r.right_text == right_text,
        r.right_x == (if DISPLAY_WIDTH - READER_FOOTER_HORIZONTAL_PADDING >= clamp_width(fonts.footer.shaped_width(right_text@)) {
            DISPLAY_WIDTH - READER_FOOTER_HORIZONTAL_PADDING - clamp_width(fonts.footer.shaped_width(right_text@))
        } else {
            0
        }),
        r.left_text matches Some(p) ==> (left_text matches Some(t) && p.spec_bytes() == t.spec_bytes().subrange(0, p.spec_bytes().len() as int)),
        r.middle_text matches Some(p) ==> (middle_text matches Some(t) && p.spec_bytes() == t.spec_bytes().subrange(0, p.spec_bytes().len() as int)),
        left_text is None ==> r.left_text is None && r.middle_x == r.left_x,
        r.left_text matches Some(p) ==> r.left_x + clamp_width(fonts.footer.shaped_width(p@)) + footer_space_width(fonts)
            <= r.right_x,
        r.left_text matches Some(p) ==> (left_text matches Some(t) && (p@.len() < t@.len() ==> r.left_x + clamp_width(
            fonts.footer.shaped_width(t@.subrange(0, p@.len() + 1 as int)),
        ) + footer_space_width(fonts) > r.right_x)),
        left_text matches Some(t) ==> (t@.len() > 0 && r.left_x + footer_space_width(fonts) < r.right_x && r.left_x
            + clamp_width(fonts.footer.shaped_width(t@)) + footer_space_width(fonts) <= r.right_x ==> r.left_text == Some(t)),
        left_text matches Some(t) ==> (t@.len() > 0 && r.left_x + clamp_width(fonts.footer.shaped_width(t@.subrange(0, 1)))
            + footer_space_width(fonts) <= r.right_x && r.left_x + footer_space_width(fonts) < r.right_x ==> r.left_text is Some),
{
    let left_x = READER_FOOTER_HORIZONTAL_PADDING;
    let right_width = footer_text_width(fonts, right_text);
    let right_x = (DISPLAY_WIDTH - READER_FOOTER_HORIZONTAL_PADDING).saturating_sub(right_width);
    let space: [char; 1] = [' '];
    let space_width = chars_width_with_font(space.as_slice(), &fonts.footer);
    assert(space@ =~= seq![' ']);
    let left_limit = right_x.saturating_sub(space_width);
    let fitted_left = match left_text {
        Some(t) => fitted_text_prefix_with_font(t, left_limit.saturating_sub(left_x), &fonts.footer),
        None => None,
    };
    let middle_x = match fitted_left {
        Some(t) => {
            let left_width = text_width_with_font(t, &fonts.footer);
            left_x.saturating_add(left_width).saturating_add(space_width)
        },
        None => left_x,
    };
    let middle_limit = right_x.saturating_sub(space_width);
    let available_middle_width = middle_limit.saturating_sub(middle_x);
    let fitted_middle = match middle_text {
        Some(t) => fitted_text_prefix_with_font(t, available_middle_width, &fonts.footer),
        None => None,
    };
    ReaderFooterLayout { left_x, left_text: fitted_left, middle_x, middle_text: fitted_middle, right_x, right_text }
}

impl Framebuffer {
    /// Draws `text` in the body face from `(x, y)`.
    pub fn draw_text(&mut self, fonts: &FontSet, x: u16, y: u16, text: &str)
        requires
            old(self).wf(),
            fonts.wf(),
            text@.len() <= MAX_SHAPED_CHARS,
        ensures
            final(self).wf(),
            no_lighter(old(self)@, final(self)@),
            one_line(text@) ==> shows_line(final(self)@, fonts.body, text@, x as int, y as int, false),
    {
        self.draw_text_with_font(&fonts.body, x, y, text, false, false);
    }

    /// Draws `text` in the heading face, emboldened, from `(x, y)`.
    pub fn draw_heading_text(&mut self, fonts: &FontSet, x: u16, y: u16, text: &str)
        requires
            old(self).wf(),
            fonts.wf(),
            text@.len() <= MAX_SHAPED_CHARS,
        ensures
            final(self).wf(),
            no_lighter(old(self)@, final(self)@),
            one_line(text@) ==> shows_line(final(self)@, fonts.heading, text@, x as int, y as int, false),
    {
        self.draw_text_with_font(&fonts.heading, x, y, text, true, false);
    }

    /// Draws `text` in the footer face from `(x, y)`.
    pub fn draw_footer_text(&mut self, fonts: &FontSet, x: u16, y: u16, text: &str)
        requires
            old(self).wf(),
            fonts.wf(),
            text@.len() <= MAX_SHAPED_CHARS,
        ensures
            final(self).wf(),
            no_lighter(old(self)@, final(self)@),
            one_line(text@) ==> shows_line(final(self)@, fonts.footer, text@, x as int, y as int, false),
    {
        self.draw_text_with_font(&fonts.footer, x, y, text, false, false);
    }

    /// Wraps `text` in `font` from `(x, y)` above `max_y`, drawing the lines when
    /// `draw` holds; the layout of the lines.
    pub fn layout_wrapped_text_page_result(
        &mut self,
        font: &Font,
        x: u16,
        y: u16,
        text: &str,
        max_y: u16,
        draw: bool,
        synthetic_bold: bool,
        synthetic_italic: bool,
    ) -> (r: WrappedTextLayoutResult)
        requires
            old(self).wf(),
            font.wf(),
            text@.len() <= MAX_SHAPED_CHARS,
        ensures
            final(self).wf(),
            no_lighter(old(self)@, final(self)@),
            !draw ==> final(self)@ == old(self)@,
            r.consumed <= text.spec_bytes().len(),
            r.next_y == crate::text::sat16(y + r.lines@.len() * font.line_height),
            crate::text::lines_placed(r.lines@, x, y, font.line_height, max_y),
            r.consumed == crate::text::utf8_len_of(text@) || crate::text::sat16(r.next_y + font.line_height) > max_y,
            text@.len() <= LINE_BUF_LEN ==> exists|k: int|
                #![trigger text@.subrange(0, k)]
                {
                    &&& 0 <= k <= text@.len()
                    &&& r.consumed == crate::text::utf8_len_of(text@.subrange(0, k))
                    &&& crate::text::visible_chars(crate::text::lines_chars(r.lines@)) == crate::text::visible_chars(
                        text@.subrange(0, k),
                    )
                    &&& (k == text@.len() || crate::text::sat16(r.next_y + font.line_height) > max_y)
                },
    {
        let result = layout_wrapped_text_page(font, LINE_BUF_LEN, x, y, text, max_y);
        if draw {
            let ghost start = self@;
            proof {
                self.lemma_view_len();
            }
            let mut k: usize = 0;
            while k < result.lines.len()
                invariant
                    self.wf(),
                    font.wf(),
                    no_lighter(start, self@),
                    start.len() == crate::framebuffer::PIXEL_COUNT,
                decreases result.lines@.len() - k,
            {
                let line = &result.lines[k];
                if line.chars.len() <= MAX_SHAPED_CHARS {
                    let ghost b = self@;
                    self.draw_chars_with_font(font, line.x, line.y, line.chars.as_slice(), synthetic_bold, synthetic_italic);
                    proof {
                        assert forall|i: int| 0 <= i < start.len() implies #[trigger] self@[i] >= start[i] by {
                            assert(self@[i] >= b[i]);
                        }
                    }
                }
                k += 1;
            }
        }
        result
    }

    /// Wraps and draws `text` in the body face; where the next line would start.
    pub fn draw_wrapped_text(&mut self, fonts: &FontSet, x: u16, y: u16, text: &str, max_y: u16) -> (r: u16)
        requires
            old(self).wf(),
            fonts.wf(),
            text@.len() <= MAX_SHAPED_CHARS,
        ensures
            final(self).wf(),
            no_lighter(old(self)@, final(self)@),
            r >= y,
            r == y || r <= max_y,
            text@.len() <= LINE_BUF_LEN ==> exists|lines: Seq<crate::text::DrawnLine>, k: int|
                #![trigger crate::text::lines_chars(lines), text@.subrange(0, k)]
                {
                    &&& 0 <= k <= text@.len()
                    &&& crate::text::lines_placed(lines, x, y, fonts.body.line_height, max_y)
                    &&& r == crate::text::sat16(y + lines.len() * fonts.body.line_height)
                    &&& crate::text::visible_chars(crate::text::lines_chars(lines)) == crate::text::visible_chars(
                        text@.subrange(0, k),
                    )
                    &&& (k == text@.len() || crate::text::sat16(r + fonts.body.line_height) > max_y)
                },
    {
        let result = self.layout_wrapped_text_page_result(&fonts.body, x, y, text, max_y, true, false, false);
        proof {
            let n = result.lines@.len();
            if n > 0 {
                let last = result.lines@[n - 1];
                assert(result.lines@[n - 1].x == x);
                assert(last.y == crate::text::sat16(y + (n - 1) * fonts.body.line_height));
                assert(crate::text::sat16(last.y + fonts.body.line_height) <= max_y);
                assert(y + (n - 1) * fonts.body.line_height + fonts.body.line_height == y + n * fonts.body.line_height)
                    by (nonlinear_arith);
                assert(result.next_y <= crate::text::sat16(last.y + fonts.body.line_height));
            } else {
                assert(n * fonts.body.line_height == 0) by (nonlinear_arith)
                    requires n == 0;
            }
            assert(result.next_y == crate::text::sat16(y + n * fonts.body.line_height));
            assert(n * fonts.body.line_height >= 0) by (nonlinear_arith)
                requires n >= 0, fonts.body.line_height >= 0;
        }
        result.next_y
    }
}

/// A page being rendered: the frame, the faces (body, heading and their italics)
/// and the height of the page.
pub struct PageRenderer {
    pub frame: Framebuffer,
    pub font: Font,
    pub heading: Font,
    pub body_italic: Font,
    pub heading_italic: Font,
    pub has_real_italic: bool,
    pub content_height: u16,
}

/// The faces of `fonts`, copied, over `frame`, with pages `fonts`' reading height.
pub fn page_renderer_for(frame: Framebuffer, fonts: &FontSet) -> (r: PageRenderer)
    requires
        frame.wf(),
        fonts.wf(),
    ensures
        r.ready(),
        r.frame == frame,
        r.has_real_italic == fonts.has_real_italic,
        r.font.line_height == fonts.body.line_height,
        r.heading.line_height == fonts.heading.line_height,
{
    PageRenderer {
        frame,
        font: fonts.body.duplicate(),
        heading: fonts.heading.duplicate(),
        body_italic: fonts.body_italic.duplicate(),
        heading_italic: fonts.heading_italic.duplicate(),
        has_real_italic: fonts.has_real_italic,
        content_height: reader_content_height(fonts),
    }
}

impl PaginationRenderer for PageRenderer {
    open spec fn ready(&self) -> bool {
        &&& self.frame.wf()
        &&& self.font.wf()
        &&& self.heading.wf()
        &&& self.body_italic.wf()
        &&& self.heading_italic.wf()
    }

    fn clear_to_white(&mut self) {
        self.frame.clear(0xFF);
    }

    fn draw_wrapped_text_block(&mut self, x: u16, y: u16, text: &str, max_y: u16, style: TextStyle) -> (r: WrappedTextLayoutResult) {
        self.layout_block(x, y, text, max_y, true, style)
    }

    fn measure_wrapped_text_block(&mut self, x: u16, y: u16, text: &str, max_y: u16, style: TextStyle) -> (r: WrappedTextLayoutResult) {
        self.layout_block(x, y, text, max_y, false, style)
    }

    fn display_height(&self) -> u16 {
        self.content_height
    }

    fn line_height(&self) -> u16 {
        self.font.line_height_px()
    }
}

impl PageRenderer {
    /// The face text in `style` is set in: the heading face for a heading, the
    /// italic faces for italic text and quotes, else the body face.
    pub open spec fn style_face(self, style: TextStyle) -> Font {
        if style.heading && (style.italic || style.quote) {
            self.heading_italic
        } else if style.heading {
            self.heading
        } else if style.italic || style.quote {
            self.body_italic
        } else {
            self.font
        }
    }

    /// Lays out `text` on the page in `style`: in its face, emboldened for
    /// headings and bold text, slanted for italics and quotes when the italic
    /// face is not a real one, and a quote indented by `QUOTE_INDENT_PX`.
    fn layout_block(&mut self, x: u16, y: u16, text: &str, max_y: u16, draw: bool, style: TextStyle) -> (r: WrappedTextLayoutResult)
        requires
            old(self).ready(),
        ensures
            final(self).ready(),
            final(self).font == old(self).font,
            final(self).heading == old(self).heading,
            final(self).body_italic == old(self).body_italic,
            final(self).heading_italic == old(self).heading_italic,
            final(self).has_real_italic == old(self).has_real_italic,
            r.consumed <= text.spec_bytes().len(),
            final(self).content_height == old(self).content_height,
            no_lighter(old(self).frame@, final(self).frame@),
            !draw ==> final(self).frame@ == old(self).frame@,
            text@.len() <= MAX_SHAPED_CHARS ==> r.next_y == crate::text::sat16(
                y + r.lines@.len() * old(self).style_face(style).line_height,
            ) && crate::text::lines_placed(
                r.lines@,
                if style.quote { crate::text::sat16(x + QUOTE_INDENT_PX) as u16 } else { x },
                y,
                old(self).style_face(style).line_height,
                max_y,
            ),
            text@.len() > MAX_SHAPED_CHARS ==> r.next_y == y && r.consumed == 0 && r.lines@.len() == 0 && final(self).frame@
                == old(self).frame@,
    {
        let cs = crate::font::chars_of(text);
        if cs.len() > MAX_SHAPED_CHARS {
            return WrappedTextLayoutResult { next_y: y, consumed: 0, lines: Vec::new() };
        }
        let slanted = style.italic || style.quote;
        let bold = style.heading || style.bold;
        let synthetic_italic = slanted && !self.has_real_italic;
        let left = if style.quote { x.saturating_add(QUOTE_INDENT_PX) } else { x };
        if style.heading && slanted {
            self.frame.layout_wrapped_text_page_result(&self.heading_italic, left, y, text, max_y, draw, bold, synthetic_italic)
        } else if style.heading {
            self.frame.layout_wrapped_text_page_result(&self.heading, left, y, text, max_y, draw, bold, synthetic_italic)
        } else if slanted {
            self.frame.layout_wrapped_text_page_result(&self.body_italic, left, y, text, max_y, draw, bold, synthetic_italic)
        } else {
            self.frame.layout_wrapped_text_page_result(&self.font, left, y, text, max_y, draw, bold, synthetic_italic)
        }
    }
}

} // verus!
