use xteink::epub::{Epub, EpubError, EpubEvent, MemorySource, ReaderBuffers};

fn push_u16(out: &mut Vec<u8>, v: u16) {
    out.extend_from_slice(&v.to_le_bytes());
}

fn push_u32(out: &mut Vec<u8>, v: u32) {
    out.extend_from_slice(&v.to_le_bytes());
}

fn crc32(data: &[u8]) -> u32 {
    let mut crc = 0xFFFF_FFFFu32;
    for byte in data {
        crc ^= u32::from(*byte);
        for _ in 0..8 {
            crc = if crc & 1 != 0 { (crc >> 1) ^ 0xEDB8_8320 } else { crc >> 1 };
        }
    }
    !crc
}

/// A ZIP archive of stored (uncompressed) files.
fn stored_zip(files: &[(&str, String)]) -> Vec<u8> {
    let mut out = Vec::new();
    let mut central = Vec::new();
    for (name, content) in files {
        let offset = out.len() as u32;
        let data = content.as_bytes();
        let crc = crc32(data);
        push_u32(&mut out, 0x0403_4b50);
        for v in [20u16, 0, 0, 0, 0] {
            push_u16(&mut out, v);
        }
        push_u32(&mut out, crc);
        push_u32(&mut out, data.len() as u32);
        push_u32(&mut out, data.len() as u32);
        push_u16(&mut out, name.len() as u16);
        push_u16(&mut out, 0);
        out.extend_from_slice(name.as_bytes());
        out.extend_from_slice(data);

        push_u32(&mut central, 0x0201_4b50);
        for v in [20u16, 20, 0, 0, 0, 0] {
            push_u16(&mut central, v);
        }
        push_u32(&mut central, crc);
        push_u32(&mut central, data.len() as u32);
        push_u32(&mut central, data.len() as u32);
        push_u16(&mut central, name.len() as u16);
        for v in [0u16, 0, 0, 0] {
            push_u16(&mut central, v);
        }
        push_u32(&mut central, 0);
        push_u32(&mut central, offset);
        central.extend_from_slice(name.as_bytes());
    }
    let cd_offset = out.len() as u32;
    let cd_size = central.len() as u32;
    out.extend_from_slice(&central);
    push_u32(&mut out, 0x0605_4b50);
    push_u16(&mut out, 0);
    push_u16(&mut out, 0);
    push_u16(&mut out, files.len() as u16);
    push_u16(&mut out, files.len() as u16);
    push_u32(&mut out, cd_size);
    push_u32(&mut out, cd_offset);
    push_u16(&mut out, 0);
    out
}

const CONTAINER: &str = r#"<?xml version="1.0"?>
<container version="1.0" xmlns="urn:oasis:names:tc:opendocument:xmlns:container">
<rootfiles><rootfile full-path="OEBPS/content.opf" media-type="application/oebps-package+xml"/></rootfiles>
</container>"#;

const OPF: &str = r#"<?xml version="1.0"?>
<package xmlns="http://www.idpf.org/2007/opf" version="3.0">
<metadata><title>Test</title></metadata>
<manifest>
<item id="c1" href="ch1.xhtml" media-type="application/xhtml+xml"/>
<item id="c2" href="ch2.xhtml" media-type="application/xhtml+xml"/>
</manifest>
<spine><itemref idref="c1"/><itemref idref="c2"/></spine>
</package>"#;

fn chapter(body: &str) -> String {
    format!(
        "<?xml version=\"1.0\"?><html xmlns=\"http://www.w3.org/1999/xhtml\"><head><title>t</title></head><body>{}</body></html>",
        body
    )
}

fn book(chapter_one: &str, chapter_two: &str) -> Vec<u8> {
    stored_zip(&[
        ("mimetype", String::from("application/epub+zip")),
        ("META-INF/container.xml", String::from(CONTAINER)),
        ("OEBPS/content.opf", String::from(OPF)),
        ("OEBPS/ch1.xhtml", chapter(chapter_one)),
        ("OEBPS/ch2.xhtml", chapter(chapter_two)),
    ])
}

/// A two-chapter book with headings, a line break inside the first heading,
/// body text with an entity, an image and a table.
fn sample_book() -> Vec<u8> {
    book(
        "<h1>Chapter 1<br/>The Typographer</h1><p>AVERY WATT always wanted to be a typographer.</p>\
         <p>Watt &amp; Yardley, Fine Typography</p><p><img src=\"images/png_format.png\" alt=\"PNG format test\"/></p>",
        "<h1>Chapter 2</h1><p>More text.</p><table><tr><td>a</td><td>b</td></tr></table>",
    )
}

fn default_buffers() -> ReaderBuffers {
    ReaderBuffers::new(16 * 1024, 48 * 1024, 2048, 32 * 1024, 8192, 256)
}

fn tiny_buffers() -> ReaderBuffers {
    ReaderBuffers::new(64, 64, 32, 64, 8, 32)
}

fn collect_events(data: Vec<u8>, buffers: &mut ReaderBuffers) -> Result<Vec<EpubEvent>, EpubError> {
    let mut epub = Epub::open(MemorySource { bytes: data })?;
    let mut out = Vec::new();
    loop {
        match epub.next_event(buffers)? {
            Some(event) => out.push(event),
            None => break,
        }
    }
    Ok(out)
}

fn collect_level1_headings(events: &[EpubEvent]) -> Vec<String> {
    let mut headings = Vec::new();
    let mut inside_heading = false;
    let mut heading_level = 0u8;
    let mut current = String::new();
    for event in events {
        match event {
            EpubEvent::HeadingStart(level) => {
                heading_level = *level;
                inside_heading = true;
                current.clear();
            }
            EpubEvent::Text(text) if inside_heading => current.push_str(text),
            EpubEvent::LineBreak if inside_heading => current.push(' '),
            EpubEvent::HeadingEnd if inside_heading => {
                if heading_level == 1 {
                    headings.push(current.trim().to_string());
                }
                inside_heading = false;
                heading_level = 0;
                current.clear();
            }
            _ => {}
        }
    }
    headings
}

fn assert_contains_all(haystack: &str, needles: &[&str]) {
    for needle in needles {
        assert!(haystack.contains(needle), "expected `{}` to contain `{}`", haystack, needle);
    }
}

fn replace_all_exact(src: &mut [u8], pattern: &[u8], replacement: &[u8]) {
    assert_eq!(pattern.len(), replacement.len(), "mutated book keeps length constant");
    let mut i = 0usize;
    while i + pattern.len() <= src.len() {
        if &src[i..i + pattern.len()] == pattern {
            src[i..i + pattern.len()].copy_from_slice(replacement);
            i += pattern.len();
        } else {
            i += 1;
        }
    }
}

#[test]
fn container_discovery_and_opf_parsing_respect_sample_ordering() {
    let mut buffers = default_buffers();
    let events = collect_events(sample_book(), &mut buffers).unwrap();
    let headings = collect_level1_headings(&events);
    assert!(headings.len() >= 2, "expected at least two level-1 headings");
    let first = headings.iter().position(|h| h.contains("Chapter 1")).expect("Chapter 1 heading");
    let second = headings.iter().position(|h| h.contains("Chapter 2")).expect("Chapter 2 heading");
    assert!(first < second);
}

#[test]
fn heading_markup_and_line_breaks_are_preserved() {
    let mut buffers = default_buffers();
    let events = collect_events(sample_book(), &mut buffers).unwrap();
    let headings = collect_level1_headings(&events);
    let chapter_one = headings.iter().find(|h| h.contains("Chapter 1")).expect("expected Chapter 1 heading");
    assert_contains_all(chapter_one, &["Chapter 1", "Typographer"]);
    let saw_line_break_in_title = events.iter().take(30).any(|event| matches!(event, EpubEvent::LineBreak));
    assert!(saw_line_break_in_title, "expected <br/> in first chapter title to become LineBreak");
}

#[test]
fn chapter_text_is_extracted_from_real_fixture_content() {
    let mut buffers = default_buffers();
    let events = collect_events(sample_book(), &mut buffers).unwrap();
    let full_text = events
        .iter()
        .filter_map(|event| match event {
            EpubEvent::Text(text) => Some(text.as_str()),
            _ => None,
        })
        .collect::<Vec<_>>()
        .join(" ");
    assert_contains_all(
        &full_text,
        &[
            "Chapter 1",
            "The Typographer",
            "AVERY WATT always wanted to be a typographer.",
            "Watt & Yardley, Fine Typography",
        ],
    );
}

#[test]
fn image_events_include_src_and_alt() {
    let mut buffers = default_buffers();
    let events = collect_events(sample_book(), &mut buffers).unwrap();
    assert!(events.iter().any(|event| match event {
        EpubEvent::Image { src, alt } => {
            src.ends_with("images/png_format.png") && alt.as_deref() == Some("PNG format test")
        }
        _ => false,
    }));
}

#[test]
fn table_markup_yields_unsupported_tag_events() {
    let mut buffers = default_buffers();
    let events = collect_events(sample_book(), &mut buffers).unwrap();
    assert!(
        events.iter().any(|event| matches!(event, EpubEvent::UnsupportedTag)),
        "expected tables to generate UnsupportedTag events"
    );
}

#[test]
fn malformed_or_missing_epub_inputs_are_rejected() {
    let mut buffers = default_buffers();
    assert!(
        collect_events(vec![0x50, 0x4B, 0x03], &mut buffers).is_err(),
        "short/non-ZIP payload should be rejected"
    );

    let mut truncated = sample_book();
    truncated.truncate(truncated.len() / 8);
    let mut buffers = default_buffers();
    assert!(collect_events(truncated, &mut buffers).is_err(), "truncated payload should be rejected");

    let mut missing_container = sample_book();
    replace_all_exact(&mut missing_container, b"META-INF/container.xml", b"META-INF/container.bad");
    let mut buffers = default_buffers();
    assert!(collect_events(missing_container, &mut buffers).is_err());

    let mut missing_content = sample_book();
    replace_all_exact(&mut missing_content, b"\"OEBPS/content.opf\"", b"\"OEBPS/content.bad\"");
    let mut buffers = default_buffers();
    assert!(collect_events(missing_content, &mut buffers).is_err());
}

#[test]
fn out_of_space_is_reported() {
    let mut tiny = tiny_buffers();
    let result = collect_events(sample_book(), &mut tiny);
    assert!(matches!(result, Err(EpubError::OutOfSpace)), "expected tiny buffers to cause OutOfSpace");
}

#[test]
fn resume_from_spine_index_allows_continued_parsing() {
    let mut resumed = Epub::open(MemorySource { bytes: sample_book() }).expect("book should reopen");
    let mut buffers = default_buffers();
    resumed
        .resume_from_spine_index(&mut buffers, 1)
        .expect("resume should prepare parser at a later spine entry");
    let mut actual = Vec::new();
    loop {
        match resumed.next_event(&mut buffers).expect("resumed parse should succeed") {
            Some(event) => actual.push(event),
            None => break,
        }
    }
    assert!(!actual.is_empty(), "resume should still yield events");
}
