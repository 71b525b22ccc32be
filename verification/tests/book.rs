use xteink::book::{CacheTextSink, ChapterHooks, RenderMode};
use xteink::cached::NeverCancel;
use xteink::epub::{EpubError, MemorySource};
use xteink::font::{Font, Glyph, Interval};
use xteink::framebuffer::Framebuffer;
use xteink::render::FontSet;

fn block_font() -> Font {
    let mut glyphs = Vec::new();
    let mut bitmap = Vec::new();
    for codepoint in 32u32..=127 {
        let (width, height) = if codepoint == 32 { (0u8, 0u8) } else { (8u8, 12u8) };
        let length = u32::from(height) * ((u32::from(width) + 3) / 4);
        glyphs.push(Glyph {
            codepoint,
            width,
            height,
            advance_x: 10,
            layout_advance_x: 10,
            left: 1,
            top: 2,
            data_offset: bitmap.len() as u32,
            data_length: length,
        });
        bitmap.extend(std::iter::repeat(0xFFu8).take(length as usize));
    }
    Font {
        bitmap,
        glyphs,
        intervals: vec![Interval {
            first: 32,
            last: 126,
            offset: 0,
        }],
        pair_positioning: Vec::new(),
        ascender: 12,
        descender: -4,
        line_height: 16,
        replacement_index: 95,
    }
}

fn test_fonts() -> FontSet {
    FontSet {
        body: block_font(),
        heading: block_font(),
        footer: block_font(),
        body_italic: block_font(),
        heading_italic: block_font(),
        has_real_italic: false,
    }
}

fn push_u16(out: &mut Vec<u8>, v: u16) {
    out.extend_from_slice(&v.to_le_bytes());
}

fn push_u32(out: &mut Vec<u8>, v: u32) {
    out.extend_from_slice(&v.to_le_bytes());
}

fn crc32(data: &[u8]) -> u32 {
    let mut crc = 0xFFFF_FFFFu32;
    for byte in data {
        crc ^= u32::from(*byte);
        for _ in 0..8 {
            crc = if crc & 1 != 0 { (crc >> 1) ^ 0xEDB8_8320 } else { crc >> 1 };
        }
    }
    !crc
}

/// A ZIP archive of stored (uncompressed) files.
fn stored_zip(files: &[(&str, &str)]) -> Vec<u8> {
    let mut out = Vec::new();
    let mut central = Vec::new();
    for (name, content) in files {
        let offset = out.len() as u32;
        let data = content.as_bytes();
        let crc = crc32(data);
        push_u32(&mut out, 0x0403_4b50);
        push_u16(&mut out, 20);
        push_u16(&mut out, 0);
        push_u16(&mut out, 0);
        push_u16(&mut out, 0);
        push_u16(&mut out, 0);
        push_u32(&mut out, crc);
        push_u32(&mut out, data.len() as u32);
        push_u32(&mut out, data.len() as u32);
        push_u16(&mut out, name.len() as u16);
        push_u16(&mut out, 0);
        out.extend_from_slice(name.as_bytes());
        out.extend_from_slice(data);

        push_u32(&mut central, 0x0201_4b50);
        push_u16(&mut central, 20);
        push_u16(&mut central, 20);
        push_u16(&mut central, 0);
        push_u16(&mut central, 0);
        push_u16(&mut central, 0);
        push_u16(&mut central, 0);
        push_u32(&mut central, crc);
        push_u32(&mut central, data.len() as u32);
        push_u32(&mut central, data.len() as u32);
        push_u16(&mut central, name.len() as u16);
        push_u16(&mut central, 0);
        push_u16(&mut central, 0);
        push_u16(&mut central, 0);
        push_u16(&mut central, 0);
        push_u32(&mut central, 0);
        push_u32(&mut central, offset);
        central.extend_from_slice(name.as_bytes());
    }
    let cd_offset = out.len() as u32;
    let cd_size = central.len() as u32;
    out.extend_from_slice(&central);
    push_u32(&mut out, 0x0605_4b50);
    push_u16(&mut out, 0);
    push_u16(&mut out, 0);
    push_u16(&mut out, files.len() as u16);
    push_u16(&mut out, files.len() as u16);
    push_u32(&mut out, cd_size);
    push_u32(&mut out, cd_offset);
    push_u16(&mut out, 0);
    out
}

const CONTAINER: &str = r#"<?xml version="1.0"?>
<container version="1.0" xmlns="urn:oasis:names:tc:opendocument:xmlns:container">
<rootfiles><rootfile full-path="OEBPS/content.opf" media-type="application/oebps-package+xml"/></rootfiles>
</container>"#;

const OPF: &str = r#"<?xml version="1.0"?>
<package xmlns="http://www.idpf.org/2007/opf" version="3.0">
<metadata><title>Test</title></metadata>
<manifest>
<item id="c1" href="ch1.xhtml" media-type="application/xhtml+xml"/>
<item id="c2" href="ch2.xhtml" media-type="application/xhtml+xml"/>
</manifest>
<spine><itemref idref="c1"/><itemref idref="c2"/></spine>
</package>"#;

fn book(chapter_one: &str, chapter_two: &str) -> Vec<u8> {
    stored_zip(&[
        ("mimetype", "application/epub+zip"),
        ("META-INF/container.xml", CONTAINER),
        ("OEBPS/content.opf", OPF),
        ("OEBPS/ch1.xhtml", chapter_one),
        ("OEBPS/ch2.xhtml", chapter_two),
    ])
}

#[derive(Default)]
struct StreamSink {
    text: String,
}

impl CacheTextSink for StreamSink {
    fn accepts_all(&self) -> bool {
        true
    }

    fn on_text_chunk(&mut self, chunk: &str) -> Result<(), EpubError> {
        self.text.push_str(chunk);
        Ok(())
    }
}

struct TitleHooks {
    titles: Vec<&'static str>,
    starts: Vec<(u16, usize)>,
}

impl ChapterHooks for TitleHooks {
    fn on_chapter_start(&mut self, index: u16, offset: usize) -> Result<(), EpubError> {
        self.starts.push((index, offset));
        Ok(())
    }

    fn chapter_title(&mut self, index: u16) -> Option<String> {
        self.titles.get(usize::from(index)).map(|t| t.to_string())
    }
}

fn layout_stream(bytes: Vec<u8>, titles: Vec<&'static str>) -> (String, Vec<(u16, usize)>, bool) {
    let fonts = test_fonts();
    let mut frame = Framebuffer::new();
    let mut sink = StreamSink::default();
    let mut hooks = TitleHooks { titles, starts: Vec::new() };
    let result = frame
        .render_epub_with_mode(
            &fonts,
            MemorySource { bytes },
            0,
            &mut sink,
            &mut hooks,
            RenderMode::FullBook,
            None,
            &mut NeverCancel,
        )
        .expect("layout should succeed");
    (sink.text, hooks.starts, result.complete)
}

#[test]
fn a_small_book_renders_its_first_page() {
    let bytes = book(
        "<html><body><p>It was a bright cold day in April.</p></body></html>",
        "<html><body><p>Another chapter begins here.</p></body></html>",
    );
    let fonts = test_fonts();
    let mut frame = Framebuffer::new();

    let page = frame.render_epub_page(&fonts, MemorySource { bytes }, 0).expect("render");

    assert_eq!(page, 0);
    assert!(frame.bytes().iter().any(|byte| *byte != 0xFF));
}

#[test]
fn full_layout_writes_both_chapters_and_reports_their_starts() {
    let bytes = book(
        "<html><body><p>It was a bright cold day.</p></body></html>",
        "<html><body><p>Another chapter begins here.</p></body></html>",
    );

    let (stream, starts, complete) = layout_stream(bytes, Vec::new());

    assert!(complete);
    assert!(stream.contains("It was a bright cold day."));
    assert!(stream.contains("Another chapter begins here."));
    assert_eq!(starts.len(), 2);
    assert_eq!(starts[0].0, 0);
    assert_eq!(starts[1].0, 1);
    assert!(starts[1].1 > starts[0].1);
}

#[test]
fn a_heading_that_repeats_the_chapter_title_is_not_written_twice() {
    let bytes = book(
        "<html><body><h1>Chapter One</h1><p>It was a bright cold day.</p></body></html>",
        "<html><body><p>Chapter Two is not its heading.</p></body></html>",
    );

    let (stream, _, _) = layout_stream(bytes, vec!["Chapter One", "Chapter Two"]);

    assert_eq!(stream.matches("Chapter One").count(), 1);
    assert!(stream.contains("It was a bright cold day."));
    assert_eq!(stream.matches("Chapter Two").count(), 2);
    assert!(stream.contains("is not its heading."));
}

#[test]
fn an_empty_source_is_not_a_book() {
    let fonts = test_fonts();
    let mut frame = Framebuffer::new();
    let result = frame.render_epub_page(&fonts, MemorySource { bytes: vec![1, 2, 3] }, 0);
    assert!(result.is_err());
}
