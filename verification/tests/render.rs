use xteink::cached::{CachedTextReader, NeverCancel, SliceTextReader};
use xteink::epub::{EpubError, MemorySource};
use xteink::font::{Font, Glyph, Interval};
use xteink::framebuffer::{Framebuffer, DISPLAY_HEIGHT, DISPLAY_WIDTH};
use xteink::render::{
    footer_text_width, layout_reader_footer, reader_content_height, FontSet, QUOTE_INDENT_PX,
};
use xteink::text::layout_wrapped_text_page;

const ADVANCE: u16 = 10;
const LINE_HEIGHT: u16 = 16;

fn block_font(fill: u8) -> Font {
    let mut glyphs = Vec::new();
    let mut bitmap = Vec::new();
    for codepoint in 32u32..=127 {
        let (width, height) = if codepoint == 32 { (0u8, 0u8) } else { (8u8, 12u8) };
        let length = u32::from(height) * ((u32::from(width) + 3) / 4);
        glyphs.push(Glyph {
            codepoint,
            width,
            height,
            advance_x: ADVANCE,
            layout_advance_x: ADVANCE,
            left: 1,
            top: 2,
            data_offset: bitmap.len() as u32,
            data_length: length,
        });
        bitmap.extend(std::iter::repeat(fill).take(length as usize));
    }
    Font {
        bitmap,
        glyphs,
        intervals: vec![Interval {
            first: 32,
            last: 126,
            offset: 0,
        }],
        pair_positioning: Vec::new(),
        ascender: 12,
        descender: -4,
        line_height: LINE_HEIGHT,
        replacement_index: 95,
    }
}

fn test_fonts() -> FontSet {
    FontSet {
        body: block_font(0xFF),
        heading: block_font(0xFF),
        footer: block_font(0xFF),
        body_italic: block_font(0x55),
        heading_italic: block_font(0x55),
        has_real_italic: true,
    }
}

fn reader_of(text: &str) -> SliceTextReader {
    SliceTextReader {
        data: text.as_bytes().to_vec(),
        position: 0,
    }
}

#[test]
fn wrapped_text_page_result_preserves_unconsumed_tail() {
    let fonts = test_fonts();
    let mut framebuffer = Framebuffer::new();
    let text = "alpha beta gamma delta epsilon zeta eta theta iota kappa lambda mu ".repeat(200);

    let first =
        framebuffer.layout_wrapped_text_page_result(&fonts.body, 0, 0, &text, DISPLAY_HEIGHT, false, false, false);
    assert!(first.consumed > 0);
    assert!(first.consumed < text.len());

    let second = framebuffer.layout_wrapped_text_page_result(
        &fonts.body,
        0,
        0,
        &text[first.consumed..],
        DISPLAY_HEIGHT,
        false, false, false
    );
    assert!(second.consumed > 0);
}

#[test]
fn cached_render_does_not_drop_long_plain_text_runs() {
    let fonts = test_fonts();
    let text = "word ".repeat(2000);
    let target_page = 1usize;

    let mut direct = Framebuffer::new();
    let first = direct.layout_wrapped_text_page_result(
        &fonts.body,
        0,
        0,
        &text,
        reader_content_height(&fonts),
        false, false, false
    );
    assert!(first.consumed > 0);
    let remaining = &text[first.consumed..];
    direct.clear(0xFF);
    let _ = direct.layout_wrapped_text_page_result(
        &fonts.body,
        0,
        0,
        remaining,
        reader_content_height(&fonts),
        true, false, false
    );

    let mut cached = Framebuffer::new();
    let cached_result = cached.render_cached_text_page(&fonts, &mut reader_of(&text), target_page);
    assert_eq!(
        cached_result.expect("cached render should succeed"),
        target_page
    );
    assert_eq!(cached.bytes(), direct.bytes());
}

#[test]
fn wrapped_text_does_not_consume_undrawn_line_when_page_is_full() {
    let fonts = test_fonts();
    let text = "alpha beta gamma delta epsilon zeta eta theta iota kappa lambda mu nu xi omicron pi rho sigma tau";
    let result = layout_wrapped_text_page(&fonts.body, 512, 0, 0, text, fonts.body.line_height_px());
    let drawn: Vec<String> = result
        .lines
        .iter()
        .map(|line| line.chars.iter().collect::<String>())
        .collect();

    assert_eq!(drawn.len(), 1, "test should fill exactly one drawn line");
    assert!(
        result.consumed < text.len(),
        "test should leave text for next page"
    );
    assert_eq!(
        text[..result.consumed].trim_end(),
        drawn[0].trim_end(),
        "consumed text must match what was actually drawn on the page"
    );
}

#[test]
fn footer_layout_clips_left_text_before_right_progress() {
    let fonts = test_fonts();
    let title = "An Extremely Long Chapter Title That Must Be Clipped";
    let layout = layout_reader_footer(&fonts, Some(title), None, "100%");

    let clipped = layout.left_text.expect("left text should still render");
    assert!(clipped.len() < title.len());
    let space_width = footer_text_width(&fonts, " ");
    assert!(
        layout
            .left_x
            .saturating_add(footer_text_width(&fonts, clipped))
            .saturating_add(space_width)
            <= layout.right_x,
        "left text must leave room for a separating space before progress"
    );
}

#[test]
fn italic_style_renders_differently_from_body_text() {
    let fonts = test_fonts();
    let mut body = Framebuffer::new();
    let _ = body.layout_wrapped_text_page_result(&fonts.body, 0, 0, "Italic", DISPLAY_HEIGHT, true, false, false);

    let mut italic = Framebuffer::new();
    let _ = italic.layout_wrapped_text_page_result(
        &fonts.body_italic,
        0,
        0,
        "Italic",
        DISPLAY_HEIGHT,
        true, false, false
    );

    assert_ne!(italic.bytes(), body.bytes());
}

#[test]
fn real_italic_font_is_available_when_italic_asset_is_present() {
    assert!(test_fonts().has_real_italic);
}

#[test]
fn draw_text_uses_bookerly_glyphs_and_changes_expected_pixels() {
    let fonts = test_fonts();
    let mut framebuffer = Framebuffer::new();

    assert!(fonts.body.line_height_px() > 0);

    framebuffer.draw_text(&fonts, 4, 4, "Hi");

    assert!(framebuffer.bytes().iter().any(|byte| *byte != 0xFF));
}

#[test]
fn wrapped_text_advances_to_multiple_lines_when_width_is_tight() {
    let fonts = test_fonts();
    let mut framebuffer = Framebuffer::new();
    let start_y = 4;

    let end_y = framebuffer.draw_wrapped_text(&fonts, 400, start_y, "alpha beta gamma", 200);

    assert!(end_y > start_y + fonts.body.line_height_px());
}

#[test]
fn cached_text_pagination_advances_to_requested_page() {
    let fonts = test_fonts();
    let mut framebuffer = Framebuffer::new();
    let paragraph = "alpha beta gamma delta epsilon zeta eta theta iota kappa lambda mu\n";
    let text = paragraph.repeat(80);

    let rendered_page = framebuffer
        .render_cached_text_page(&fonts, &mut reader_of(&text), 1)
        .expect("cached render should succeed");

    assert_eq!(rendered_page, 1);
    assert!(framebuffer.bytes().iter().any(|byte| *byte != 0xFF));
    assert!(fonts.body.line_height_px() > 0);
}

#[test]
fn cached_render_from_offset_matches_page_api() {
    let fonts = test_fonts();
    let paragraph = "alpha beta gamma delta epsilon zeta eta theta iota kappa lambda mu ";
    let text = paragraph.repeat(180);

    let mut direct0 = Framebuffer::new();
    let direct0_rendered = direct0
        .render_cached_text_page(&fonts, &mut reader_of(&text), 0)
        .expect("direct cached render should succeed");
    assert_eq!(direct0_rendered, 0);

    let mut direct1 = Framebuffer::new();
    let direct1_rendered = direct1
        .render_cached_text_page(&fonts, &mut reader_of(&text), 1)
        .expect("direct cached page 1 render should succeed");
    assert_eq!(direct1_rendered, 1);

    let mut framebuffer0 = Framebuffer::new();
    let page0 = framebuffer0
        .render_cached_text_page_from_offset_with_progress(
            &fonts,
            &mut reader_of(&text),
            0usize,
            &mut NeverCancel,
        )
        .expect("offset cached render should succeed");
    assert_eq!(page0.rendered_page, 0);
    assert!(page0.next_page_start_byte > 0);
    assert!(page0.consumed_bytes > 0);
    assert_eq!(framebuffer0.bytes(), direct0.bytes());

    let mut second_page = Framebuffer::new();
    let page1 = second_page
        .render_cached_text_page_from_offset_with_progress(
            &fonts,
            &mut reader_of(&text),
            page0.next_page_start_byte,
            &mut NeverCancel,
        )
        .expect("second page from offset should succeed");
    assert_eq!(page1.rendered_page, 0);
    assert!(page1.next_page_start_byte > page0.next_page_start_byte);
    assert!(
        second_page.bytes().iter().any(|byte| *byte != 0xFF),
        "offset render should produce visible content"
    );
}

#[test]
fn epub_render_api_returns_error_for_invalid_empty_source() {
    let fonts = test_fonts();
    let mut framebuffer = Framebuffer::new();

    let result = framebuffer.render_epub_page(&fonts, MemorySource { bytes: Vec::new() }, 0);

    assert!(matches!(result, Err(EpubError::InvalidFormat)));
}

struct ChunkedReader<'a> {
    text: &'a [u8],
    offset: usize,
    chunk_size: usize,
}

impl CachedTextReader for ChunkedReader<'_> {
    fn read(&mut self, buffer: &mut [u8]) -> Result<usize, EpubError> {
        if self.offset >= self.text.len() {
            return Ok(0);
        }
        let end = (self.offset + self.chunk_size)
            .min(self.offset + buffer.len())
            .min(self.text.len());
        let chunk = &self.text[self.offset..end];
        buffer[..chunk.len()].copy_from_slice(chunk);
        self.offset = end;
        Ok(chunk.len())
    }
}

fn render_cached_text_page_with_chunk_size(
    fonts: &FontSet,
    text: &[u8],
    target_page: usize,
    chunk_size: usize,
) -> (Framebuffer, usize) {
    let mut framebuffer = Framebuffer::new();
    let mut reader = ChunkedReader {
        text,
        offset: 0,
        chunk_size,
    };
    let rendered_page = framebuffer
        .render_cached_text_page(fonts, &mut reader, target_page)
        .expect("cached render should succeed");
    (framebuffer, rendered_page)
}

#[test]
fn cached_text_pagination_is_stable_across_input_chunk_boundaries_at_page_breaks() {
    let fonts = test_fonts();
    let line_height = usize::from(fonts.body.line_height_px());
    let lines_per_page = usize::from(DISPLAY_HEIGHT) / line_height;
    let page_text = "café\n".repeat(lines_per_page);
    let text = format!(
        "\u{001c}{page_text}\u{001d}{page_text}",
        page_text = page_text
    );
    let bytes = text.as_bytes();

    let (chunked, chunked_page) = render_cached_text_page_with_chunk_size(&fonts, bytes, 1, 1);
    let (bulk, bulk_page) = render_cached_text_page_with_chunk_size(&fonts, bytes, 1, bytes.len());

    assert_eq!(chunked_page, 1);
    assert_eq!(bulk_page, 1);
    assert_eq!(
        chunked.bytes(),
        bulk.bytes(),
        "page output should not change when the reader splits text differently",
    );
}

#[test]
fn footer_without_title_keeps_only_the_progress() {
    let fonts = test_fonts();
    let layout = layout_reader_footer(&fonts, None, None, "42%");
    assert!(layout.left_text.is_none());
    assert_eq!(layout.right_text, "42%");
    assert_eq!(layout.right_x, DISPLAY_WIDTH - 4 - 3 * ADVANCE);
}

#[test]
fn cached_heading_markers_render_heading_run_with_body_following() {
    let fonts = test_fonts();
    let text = format!(
        "{layout}{heading_start}Chapter{heading_end}{line}{line}Body",
        layout = '\u{001C}',
        heading_start = '\u{0001}',
        heading_end = '\u{0002}',
        line = '\u{001E}',
    );
    let mut cached = Framebuffer::new();
    let result = cached.render_cached_text_page(&fonts, &mut reader_of(&text), 0);
    assert_eq!(result.expect("cached render should succeed"), 0);

    let mut direct = Framebuffer::new();
    direct.clear(0xFF);
    direct.draw_heading_text(&fonts, 0, 0, "Chapter");
    let body_y = fonts
        .heading
        .line_height_px()
        .saturating_add(fonts.body.line_height_px() * 2);
    direct.draw_text(&fonts, 0, body_y, "Body");

    assert_eq!(cached.bytes(), direct.bytes());
}

#[test]
fn cached_quote_markers_indent_visible_text() {
    let fonts = test_fonts();
    let text = format!(
        "{layout}{quote_start}Quote{quote_end}",
        layout = '\u{001C}',
        quote_start = '\u{0007}',
        quote_end = '\u{0008}',
    );
    let mut cached = Framebuffer::new();
    let result = cached.render_cached_text_page(&fonts, &mut reader_of(&text), 0);
    assert_eq!(result.expect("cached render should succeed"), 0);

    let mut min_ink_x = DISPLAY_WIDTH;
    for y in 0..DISPLAY_HEIGHT {
        for x in 0..DISPLAY_WIDTH {
            if cached.shade_at(x, y) != 0 {
                min_ink_x = min_ink_x.min(x);
            }
        }
    }

    assert!(
        min_ink_x >= QUOTE_INDENT_PX,
        "expected quote text to start at or after indent, got {}",
        min_ink_x
    );
}

#[test]
fn cached_bold_marker_draws_emboldened_text() {
    let fonts = test_fonts();
    let plain_text = format!("{}Bold", '\u{001C}');
    let bold_text = format!("{}{}Bold{}", '\u{001C}', '\u{0003}', '\u{0004}');
    let mut plain = Framebuffer::new();
    let mut bold = Framebuffer::new();
    plain.render_cached_text_page(&fonts, &mut reader_of(&plain_text), 0).expect("plain render");
    bold.render_cached_text_page(&fonts, &mut reader_of(&bold_text), 0).expect("bold render");
    assert_ne!(plain.bytes(), bold.bytes());
}

#[test]
fn cached_render_cancelled_at_once_leaves_a_white_page_and_reads_nothing() {
    struct CancelAtOnce;
    impl xteink::cached::CancelCheck for CancelAtOnce {
        fn cancels_now(&self) -> bool {
            true
        }
        fn never_cancels(&self) -> bool {
            false
        }
        fn should_cancel(&mut self) -> bool {
            true
        }
    }
    let fonts = test_fonts();
    let mut frame = Framebuffer::new();
    frame.set_shade(3, 3, 3);
    let mut reader = reader_of("alpha beta");
    let result = frame.render_cached_text_page_with_cancel(&fonts, &mut reader, 0, &mut CancelAtOnce);
    assert!(matches!(result, Err(EpubError::Cancelled)));
    assert_eq!(reader.position, 0);
    assert!(frame.bytes().iter().all(|b| *b == 0xFF));
}

#[test]
fn wrapped_text_lays_out_everything_unless_the_page_is_full() {
    let fonts = test_fonts();
    let line_height = fonts.body.line_height_px();
    let short = "alpha beta gamma";
    let all = layout_wrapped_text_page(&fonts.body, 512, 0, 0, short, 10 * line_height);
    assert_eq!(all.consumed, short.len());
    assert_eq!(all.lines.len(), 1);
    assert_eq!(all.next_y, line_height);

    let long = "alpha beta gamma delta epsilon zeta eta theta iota kappa lambda mu ".repeat(20);
    let max_y = 3 * line_height;
    let part = layout_wrapped_text_page(&fonts.body, 512, 0, 0, &long, max_y);
    assert!(part.consumed < long.len());
    assert_eq!(part.lines.len(), 3);
    assert!(part.next_y + line_height > max_y);
}

#[test]
fn wrapped_lines_hold_exactly_the_visible_text_laid_out() {
    let fonts = test_fonts();
    let text = "alpha  beta\ngamma delta epsilon zeta eta theta iota kappa lambda mu nu xi";
    let result = layout_wrapped_text_page(&fonts.body, 512, 0, 0, text, DISPLAY_HEIGHT);
    assert_eq!(result.consumed, text.len());
    let drawn: String = result.lines.iter().flat_map(|line| line.chars.iter()).filter(|c| !c.is_whitespace()).collect();
    let source: String = text.chars().filter(|c| !c.is_whitespace()).collect();
    assert_eq!(drawn, source);
    assert!(result.lines.len() >= 2);
}
