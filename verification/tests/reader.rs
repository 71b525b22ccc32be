use std::cell::RefCell;
use std::collections::HashMap;
use std::rc::Rc;
use xteink::epub::MemorySource;
use xteink::font::{Font, Glyph, Interval};
use xteink::framebuffer::Framebuffer;
use xteink::fs::{listed_entry_from_parts, DirectoryPageInfo, FsError, ListedEntry};
use xteink::reader::{
    load_directory_page, render_epub_from_entry, render_epub_page_from_entry, EpubRefreshMode, SdFilesystem, SdFsFile,
};
use xteink::render::FontSet;

fn block_font() -> Font {
    let mut glyphs = Vec::new();
    let mut bitmap = Vec::new();
    for codepoint in 32u32..=127 {
        let (width, height) = if codepoint == 32 { (0u8, 0u8) } else { (8u8, 12u8) };
        let length = u32::from(height) * ((u32::from(width) + 3) / 4);
        glyphs.push(Glyph {
            codepoint,
            width,
            height,
            advance_x: 10,
            layout_advance_x: 10,
            left: 1,
            top: 2,
            data_offset: bitmap.len() as u32,
            data_length: length,
        });
        bitmap.extend(std::iter::repeat(0xFFu8).take(length as usize));
    }
    Font {
        bitmap,
        glyphs,
        intervals: vec![Interval {
            first: 32,
            last: 126,
            offset: 0,
        }],
        pair_positioning: Vec::new(),
        ascender: 12,
        descender: -4,
        line_height: 16,
        replacement_index: 95,
    }
}

fn test_fonts() -> FontSet {
    FontSet {
        body: block_font(),
        heading: block_font(),
        footer: block_font(),
        body_italic: block_font(),
        heading_italic: block_font(),
        has_real_italic: false,
    }
}

fn push_u16(out: &mut Vec<u8>, v: u16) {
    out.extend_from_slice(&v.to_le_bytes());
}

fn push_u32(out: &mut Vec<u8>, v: u32) {
    out.extend_from_slice(&v.to_le_bytes());
}

fn crc32(data: &[u8]) -> u32 {
    let mut crc = 0xFFFF_FFFFu32;
    for byte in data {
        crc ^= u32::from(*byte);
        for _ in 0..8 {
            crc = if crc & 1 != 0 { (crc >> 1) ^ 0xEDB8_8320 } else { crc >> 1 };
        }
    }
    !crc
}

/// A ZIP archive of stored (uncompressed) files.
fn stored_zip(files: &[(&str, &str)]) -> Vec<u8> {
    let mut out = Vec::new();
    let mut central = Vec::new();
    for (name, content) in files {
        let offset = out.len() as u32;
        let data = content.as_bytes();
        let crc = crc32(data);
        push_u32(&mut out, 0x0403_4b50);
        push_u16(&mut out, 20);
        push_u16(&mut out, 0);
        push_u16(&mut out, 0);
        push_u16(&mut out, 0);
        push_u16(&mut out, 0);
        push_u32(&mut out, crc);
        push_u32(&mut out, data.len() as u32);
        push_u32(&mut out, data.len() as u32);
        push_u16(&mut out, name.len() as u16);
        push_u16(&mut out, 0);
        out.extend_from_slice(name.as_bytes());
        out.extend_from_slice(data);

        push_u32(&mut central, 0x0201_4b50);
        push_u16(&mut central, 20);
        push_u16(&mut central, 20);
        push_u16(&mut central, 0);
        push_u16(&mut central, 0);
        push_u16(&mut central, 0);
        push_u16(&mut central, 0);
        push_u32(&mut central, crc);
        push_u32(&mut central, data.len() as u32);
        push_u32(&mut central, data.len() as u32);
        push_u16(&mut central, name.len() as u16);
        push_u16(&mut central, 0);
        push_u16(&mut central, 0);
        push_u16(&mut central, 0);
        push_u16(&mut central, 0);
        push_u32(&mut central, 0);
        push_u32(&mut central, offset);
        central.extend_from_slice(name.as_bytes());
    }
    let cd_offset = out.len() as u32;
    let cd_size = central.len() as u32;
    out.extend_from_slice(&central);
    push_u32(&mut out, 0x0605_4b50);
    push_u16(&mut out, 0);
    push_u16(&mut out, 0);
    push_u16(&mut out, files.len() as u16);
    push_u16(&mut out, files.len() as u16);
    push_u32(&mut out, cd_size);
    push_u32(&mut out, cd_offset);
    push_u16(&mut out, 0);
    out
}

const CONTAINER: &str = r#"<?xml version="1.0"?>
<container version="1.0" xmlns="urn:oasis:names:tc:opendocument:xmlns:container">
<rootfiles><rootfile full-path="OEBPS/content.opf" media-type="application/oebps-package+xml"/></rootfiles>
</container>"#;

const OPF: &str = r#"<?xml version="1.0"?>
<package xmlns="http://www.idpf.org/2007/opf" version="3.0">
<metadata><title>Test</title></metadata>
<manifest>
<item id="c1" href="ch1.xhtml" media-type="application/xhtml+xml"/>
<item id="c2" href="ch2.xhtml" media-type="application/xhtml+xml"/>
</manifest>
<spine><itemref idref="c1"/><itemref idref="c2"/></spine>
</package>"#;

fn book(chapter_one: &str, chapter_two: &str) -> Vec<u8> {
    stored_zip(&[
        ("mimetype", "application/epub+zip"),
        ("META-INF/container.xml", CONTAINER),
        ("OEBPS/content.opf", OPF),
        ("OEBPS/ch1.xhtml", chapter_one),
        ("OEBPS/ch2.xhtml", chapter_two),
    ])
}


type Files = Rc<RefCell<HashMap<String, Vec<u8>>>>;

#[derive(Default)]
struct MemFs {
    files: Files,
    dirs: RefCell<Vec<String>>,
}

struct MemFile {
    files: Files,
    path: String,
    position: usize,
}

impl SdFsFile for MemFile {
    fn len(&self) -> usize {
        self.files.borrow().get(&self.path).map(|b| b.len()).unwrap_or(0)
    }

    fn seek_from_start(&mut self, offset: u32) -> Result<(), FsError> {
        self.position = offset as usize;
        Ok(())
    }

    fn read(&mut self, buffer: &mut [u8]) -> Result<usize, FsError> {
        let files = self.files.borrow();
        let data = files.get(&self.path).ok_or(FsError::InvalidUtf8)?;
        if self.position >= data.len() {
            return Ok(0);
        }
        let n = buffer.len().min(data.len() - self.position);
        buffer[..n].copy_from_slice(&data[self.position..self.position + n]);
        self.position += n;
        Ok(n)
    }

    fn write(&mut self, buffer: &[u8]) -> Result<usize, FsError> {
        let mut files = self.files.borrow_mut();
        let data = files.entry(self.path.clone()).or_default();
        data.truncate(self.position);
        data.extend_from_slice(buffer);
        self.position += buffer.len();
        Ok(buffer.len())
    }

    fn flush(&mut self) -> Result<(), FsError> {
        Ok(())
    }
}

impl SdFilesystem for MemFs {
    type Source = MemorySource;
    type File = MemFile;

    fn list_directory_page(
        &self,
        path: &str,
        page_start: usize,
        page_size: usize,
        entries: &mut Vec<ListedEntry>,
    ) -> Result<DirectoryPageInfo, FsError> {
        entries.clear();
        let prefix = if path.ends_with('/') { path.to_string() } else { format!("{path}/") };
        let mut names: Vec<String> = self
            .files
            .borrow()
            .keys()
            .filter_map(|k| k.strip_prefix(&prefix).map(|rest| rest.to_string()))
            .filter(|rest| !rest.contains('/'))
            .collect();
        names.sort();
        let total = names.len();
        for name in names.iter().skip(page_start).take(page_size) {
            entries.push(listed_entry_from_parts(name, name, false)?);
        }
        Ok(DirectoryPageInfo {
            page_start,
            has_prev: page_start > 0,
            has_next: page_start + page_size < total,
        })
    }

    fn open_epub_source(&self, path: &str) -> Result<MemorySource, FsError> {
        let bytes = self.files.borrow().get(path).cloned().ok_or(FsError::OpenFailed(path.to_string()))?;
        Ok(MemorySource { bytes })
    }

    fn open_cache_file_read(&self, path: &str) -> Result<MemFile, FsError> {
        if !self.files.borrow().contains_key(path) {
            return Err(FsError::OpenFailed(path.to_string()));
        }
        Ok(MemFile {
            files: Rc::clone(&self.files),
            path: path.to_string(),
            position: 0,
        })
    }

    fn open_cache_file_write(&self, path: &str) -> Result<MemFile, FsError> {
        self.files.borrow_mut().insert(path.to_string(), Vec::new());
        Ok(MemFile {
            files: Rc::clone(&self.files),
            path: path.to_string(),
            position: 0,
        })
    }

    fn ensure_directory(&self, path: &str) -> Result<(), FsError> {
        self.dirs.borrow_mut().push(path.to_string());
        Ok(())
    }
}

fn long_book() -> Vec<u8> {
    let paragraph = "<p>It was a bright cold day in April, and the clocks were striking thirteen.</p>";
    let chapter_one = format!("<html><body>{}</body></html>", paragraph.repeat(60));
    let chapter_two = format!("<html><body>{}</body></html>", paragraph.repeat(60));
    book(&chapter_one, &chapter_two)
}

fn card_with_book() -> MemFs {
    let fs = MemFs::default();
    fs.files.borrow_mut().insert("/BOOK.EPU".to_string(), long_book());
    fs
}

fn entry() -> ListedEntry {
    listed_entry_from_parts("book.epub", "BOOK.EPU", false).unwrap()
}

#[test]
fn opening_a_book_draws_its_first_page_and_writes_the_cache() {
    let fs = card_with_book();
    let fonts = test_fonts();
    let mut frame = Framebuffer::new();

    let result = render_epub_from_entry(&fs, &mut frame, &fonts, "/", &entry()).expect("open");

    assert_eq!(result.rendered_page, 0);
    assert_eq!(result.refresh, EpubRefreshMode::Full);
    assert_eq!(result.progress_percent, 0);
    assert!(frame.bytes().iter().any(|b| *b != 0xFF));
    let files = fs.files.borrow();
    let cached: Vec<&String> = files.keys().filter(|k| k.as_str() != "/BOOK.EPU").collect();
    assert!(cached.len() >= 3, "cache files: {cached:?}");
    assert!(files.iter().any(|(k, v)| k.ends_with("meta.txt") && String::from_utf8_lossy(v).contains("version=")));
}

#[test]
fn a_later_page_comes_from_the_cache_and_moves_the_progress() {
    let fs = card_with_book();
    let fonts = test_fonts();
    let mut frame = Framebuffer::new();
    render_epub_from_entry(&fs, &mut frame, &fonts, "/", &entry()).expect("open");

    let mut second = Framebuffer::new();
    let result = render_epub_page_from_entry(&fs, &mut second, &fonts, "/", &entry(), 1, true).expect("page 1");

    assert_eq!(result.rendered_page, 1);
    assert_eq!(result.refresh, EpubRefreshMode::Fast);
    assert!(result.progress_percent > 0);
    assert!(result.progress_percent < 100);
    assert!(second.bytes().iter().any(|b| *b != 0xFF));
    assert_ne!(second.bytes(), frame.bytes());
}

#[test]
fn a_missing_book_is_an_io_error() {
    let fs = MemFs::default();
    let fonts = test_fonts();
    let mut frame = Framebuffer::new();
    let result = render_epub_from_entry(&fs, &mut frame, &fonts, "/", &entry());
    assert_eq!(result.unwrap_err(), xteink::epub::EpubError::Io);
}

#[test]
fn directory_pages_come_from_the_card() {
    let fs = card_with_book();
    fs.files.borrow_mut().insert("/OTHER.TXT".to_string(), Vec::new());
    let page = load_directory_page(&fs, "/", 0, 8).expect("list");
    assert_eq!(page.entries.len(), 2);
    assert_eq!(page.entries[0].label, "BOOK.EPU");
    assert!(!page.info.has_prev);
    assert!(!page.info.has_next);
}
