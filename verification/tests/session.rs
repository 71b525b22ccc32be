use std::cell::RefCell;
use xteink::browser::EntryKind;
use xteink::buttons::Button;
use xteink::controller::{ScreenMode, UiEntry};
use xteink::font::{Font, Glyph, Interval};
use xteink::framebuffer::Framebuffer;
use xteink::fs::{DirectoryPageInfo, ListedEntry};
use xteink::render::FontSet;
use xteink::session::{
    menu_line, percent_text, AppRenderer, AppStorage, DirectoryPage, EpubRenderResult,
    ScreenRenderer, Session, SessionUi,
};

fn block_font() -> Font {
    let mut glyphs = Vec::new();
    let mut bitmap = Vec::new();
    for codepoint in 32u32..=127 {
        let (width, height) = if codepoint == 32 { (0u8, 0u8) } else { (8u8, 12u8) };
        let length = u32::from(height) * ((u32::from(width) + 3) / 4);
        glyphs.push(Glyph {
            codepoint,
            width,
            height,
            advance_x: 10,
            layout_advance_x: 10,
            left: 1,
            top: 2,
            data_offset: bitmap.len() as u32,
            data_length: length,
        });
        bitmap.extend(std::iter::repeat(0xFFu8).take(length as usize));
    }
    Font {
        bitmap,
        glyphs,
        intervals: vec![Interval {
            first: 32,
            last: 126,
            offset: 0,
        }],
        pair_positioning: Vec::new(),
        ascender: 12,
        descender: -4,
        line_height: 16,
        replacement_index: 95,
    }
}

fn test_fonts() -> FontSet {
    FontSet {
        body: block_font(),
        heading: block_font(),
        footer: block_font(),
        body_italic: block_font(),
        heading_italic: block_font(),
        has_real_italic: false,
    }
}

fn screen() -> ScreenRenderer {
    ScreenRenderer {
        frame: Framebuffer::new(),
        fonts: test_fonts(),
    }
}

fn page_of(entries: Vec<ListedEntry>) -> DirectoryPage {
    DirectoryPage {
        entries,
        info: DirectoryPageInfo {
            page_start: 0,
            has_prev: false,
            has_next: false,
        },
    }
}

fn result(rendered_page: usize, progress_percent: u8, chapter_number: Option<usize>) -> EpubRenderResult {
    EpubRenderResult {
        rendered_page,
        progress_percent,
        chapter_number,
        chapter_title: None,
    }
}

struct FakeStorage;

impl AppStorage<ScreenRenderer> for FakeStorage {
    type Error = ();

    fn list_directory_page(&self, _path: &str, _page_start: usize, _page_size: usize) -> Result<DirectoryPage, ()> {
        Ok(page_of(vec![ListedEntry::epub("book.epub")]))
    }

    fn render_epub_from_entry(&self, _r: &mut ScreenRenderer, _path: &str, _entry: &ListedEntry) -> Result<EpubRenderResult, ()> {
        Ok(result(0, 25, None))
    }

    fn render_epub_page_from_entry(
        &self,
        _r: &mut ScreenRenderer,
        _path: &str,
        _entry: &ListedEntry,
        target_page: usize,
    ) -> Result<EpubRenderResult, ()> {
        Ok(result(target_page, 25, None))
    }

    fn render_epub_next_page_from_entry(
        &self,
        r: &mut ScreenRenderer,
        path: &str,
        entry: &ListedEntry,
        target_page: usize,
    ) -> Result<EpubRenderResult, ()> {
        self.render_epub_page_from_entry(r, path, entry, target_page)
    }

    fn render_epub_previous_page_from_entry(
        &self,
        r: &mut ScreenRenderer,
        path: &str,
        entry: &ListedEntry,
        target_page: usize,
    ) -> Result<EpubRenderResult, ()> {
        self.render_epub_page_from_entry(r, path, entry, target_page)
    }

    fn list_epub_chapter_page(
        &self,
        _path: &str,
        _entry: &ListedEntry,
        _page_start: usize,
        _page_size: usize,
    ) -> Result<DirectoryPage, ()> {
        Ok(page_of(vec![ListedEntry::epub("Cover"), ListedEntry::epub("Introduction")]))
    }

    fn render_epub_chapter_from_entry(
        &self,
        _r: &mut ScreenRenderer,
        _path: &str,
        _entry: &ListedEntry,
        chapter_index: usize,
    ) -> Result<EpubRenderResult, ()> {
        Ok(result(chapter_index.saturating_mul(10), 25, Some(chapter_index.saturating_add(1))))
    }
}

struct MultiStorage;

impl AppStorage<ScreenRenderer> for MultiStorage {
    type Error = ();

    fn list_directory_page(&self, path: &str, _page_start: usize, page_size: usize) -> Result<DirectoryPage, ()> {
        let entries = if path == "/" {
            vec![
                ListedEntry::directory("Books"),
                ListedEntry::epub("a.epub"),
                ListedEntry::epub("b.epub"),
            ]
        } else {
            vec![
                ListedEntry::epub("inside.epub"),
                ListedEntry::epub("tail.epub"),
                ListedEntry::epub("extra.epub"),
            ]
        };
        Ok(page_of(entries.into_iter().take(page_size).collect()))
    }

    fn render_epub_from_entry(&self, r: &mut ScreenRenderer, _path: &str, _entry: &ListedEntry) -> Result<EpubRenderResult, ()> {
        r.draw_text(4, 4, "epub");
        Ok(result(0, 33, None))
    }

    fn render_epub_page_from_entry(
        &self,
        _r: &mut ScreenRenderer,
        _path: &str,
        _entry: &ListedEntry,
        target_page: usize,
    ) -> Result<EpubRenderResult, ()> {
        Ok(result(target_page, 33, None))
    }

    fn render_epub_next_page_from_entry(
        &self,
        r: &mut ScreenRenderer,
        path: &str,
        entry: &ListedEntry,
        target_page: usize,
    ) -> Result<EpubRenderResult, ()> {
        self.render_epub_page_from_entry(r, path, entry, target_page)
    }

    fn render_epub_previous_page_from_entry(
        &self,
        r: &mut ScreenRenderer,
        path: &str,
        entry: &ListedEntry,
        target_page: usize,
    ) -> Result<EpubRenderResult, ()> {
        self.render_epub_page_from_entry(r, path, entry, target_page)
    }

    fn list_epub_chapter_page(
        &self,
        _path: &str,
        _entry: &ListedEntry,
        _page_start: usize,
        page_size: usize,
    ) -> Result<DirectoryPage, ()> {
        let entries = vec![
            ListedEntry::epub("Cover"),
            ListedEntry::epub("Introduction"),
            ListedEntry::epub("First chapter"),
        ];
        Ok(page_of(entries.into_iter().take(page_size).collect()))
    }

    fn render_epub_chapter_from_entry(
        &self,
        r: &mut ScreenRenderer,
        _path: &str,
        _entry: &ListedEntry,
        chapter_index: usize,
    ) -> Result<EpubRenderResult, ()> {
        r.draw_text(4, 24, "chapter jump");
        Ok(result(chapter_index.saturating_mul(10), 33, Some(chapter_index.saturating_add(1))))
    }
}

#[derive(Default)]
struct PagingStorage {
    full_page_calls: RefCell<Vec<usize>>,
    next_calls: RefCell<Vec<usize>>,
    previous_calls: RefCell<Vec<usize>>,
}

impl AppStorage<ScreenRenderer> for PagingStorage {
    type Error = ();

    fn list_directory_page(&self, _path: &str, _page_start: usize, _page_size: usize) -> Result<DirectoryPage, ()> {
        Ok(page_of(vec![ListedEntry::epub("book.epub")]))
    }

    fn render_epub_from_entry(&self, _r: &mut ScreenRenderer, _path: &str, _entry: &ListedEntry) -> Result<EpubRenderResult, ()> {
        Ok(result(0, 0, None))
    }

    fn render_epub_page_from_entry(
        &self,
        _r: &mut ScreenRenderer,
        _path: &str,
        _entry: &ListedEntry,
        target_page: usize,
    ) -> Result<EpubRenderResult, ()> {
        self.full_page_calls.borrow_mut().push(target_page);
        Ok(result(target_page, 0, None))
    }

    fn render_epub_next_page_from_entry(
        &self,
        _r: &mut ScreenRenderer,
        _path: &str,
        _entry: &ListedEntry,
        target_page: usize,
    ) -> Result<EpubRenderResult, ()> {
        self.next_calls.borrow_mut().push(target_page);
        Ok(result(target_page, 0, None))
    }

    fn render_epub_previous_page_from_entry(
        &self,
        _r: &mut ScreenRenderer,
        _path: &str,
        _entry: &ListedEntry,
        target_page: usize,
    ) -> Result<EpubRenderResult, ()> {
        self.previous_calls.borrow_mut().push(target_page);
        Ok(result(target_page, 0, None))
    }

    fn list_epub_chapter_page(
        &self,
        _path: &str,
        _entry: &ListedEntry,
        _page_start: usize,
        _page_size: usize,
    ) -> Result<DirectoryPage, ()> {
        Ok(page_of(Vec::new()))
    }

    fn render_epub_chapter_from_entry(
        &self,
        _r: &mut ScreenRenderer,
        _path: &str,
        _entry: &ListedEntry,
        chapter_index: usize,
    ) -> Result<EpubRenderResult, ()> {
        Ok(result(chapter_index, 0, None))
    }
}

#[derive(Default)]
struct RecordingRenderer {
    clears: Vec<u8>,
    fills: Vec<(u16, u16, u16, u16, u8)>,
    texts: Vec<(u16, u16, String)>,
    heading_texts: Vec<(u16, u16, String)>,
    footer_texts: Vec<(u16, u16, String)>,
    fonts: Option<FontSet>,
}

impl RecordingRenderer {
    fn with_fonts() -> Self {
        RecordingRenderer {
            fonts: Some(test_fonts()),
            ..RecordingRenderer::default()
        }
    }
}

impl AppRenderer for RecordingRenderer {
    fn ready(&self) -> bool {
        self.fonts.is_some()
    }

    fn clear(&mut self, color: u8) {
        self.clears.push(color);
    }

    fn draw_text(&mut self, x: u16, y: u16, text: &str) {
        self.texts.push((x, y, text.to_string()));
    }

    fn draw_heading_text(&mut self, x: u16, y: u16, text: &str) {
        self.heading_texts.push((x, y, text.to_string()));
    }

    fn fill_rect(&mut self, x: u16, y: u16, width: u16, height: u16, color: u8) {
        self.fills.push((x, y, width, height, color));
    }

    fn draw_footer_text(&mut self, x: u16, y: u16, text: &str) {
        self.footer_texts.push((x, y, text.to_string()));
    }

    fn fonts(&self) -> &FontSet {
        self.fonts.as_ref().expect("fonts")
    }
}

fn non_white(session_bytes: &[u8]) -> usize {
    session_bytes.iter().filter(|byte| **byte != 0xFF).count()
}

#[test]
fn opening_an_epub_from_loaded_directory_transitions_to_reader_page_zero() {
    let mut session = Session::new(FakeStorage, screen(), 8);
    session.bootstrap().expect("bootstrap should work");

    session.handle_button(Button::Back).expect("open should work");

    assert_eq!(session.screen_mode(), ScreenMode::Reading);
    assert_eq!(session.reader_page(), 0);
    assert!(session.renderer().frame.bytes().iter().any(|byte| *byte != 0xFF));
    assert_eq!(session.current_entries()[0].kind, EntryKind::Epub);
}

#[test]
fn opening_an_epub_draws_reader_progress_footer() {
    let mut session = Session::new(FakeStorage, screen(), 8);
    session.bootstrap().expect("bootstrap should work");

    session.handle_button(Button::Back).expect("open should work");

    assert!(non_white(&session.renderer().frame.bytes()) > 0);
}

#[test]
fn bootstrap_uses_configured_page_size_instead_of_single_entry() {
    let mut session = Session::new(MultiStorage, screen(), 8);

    session.bootstrap().expect("bootstrap should work");

    assert_eq!(session.current_entries().len(), 3);
}

#[test]
fn opening_directory_updates_current_path_and_loads_child_entries() {
    let mut session = Session::new(MultiStorage, screen(), 8);
    session.bootstrap().expect("bootstrap should work");

    session.handle_button(Button::Back).expect("directory open should work");

    assert_eq!(session.current_path(), "/Books");
    assert_eq!(session.current_entries()[0].label.as_str(), "inside.epub");
}

#[test]
fn confirm_in_reader_opens_toc_entries() {
    let mut session = Session::new(FakeStorage, screen(), 8);
    session.bootstrap().expect("bootstrap should work");
    session.handle_button(Button::Back).expect("open should work");

    session.handle_button(Button::Confirm).expect("toc should open");

    assert_eq!(session.screen_mode(), ScreenMode::Toc);
    assert_eq!(session.current_entries()[0].label.as_str(), "Cover");
    assert_eq!(session.current_entries()[1].label.as_str(), "Introduction");
}

#[test]
fn confirm_in_toc_jumps_to_selected_chapter_and_returns_to_reader() {
    let mut session = Session::new(FakeStorage, screen(), 8);
    session.bootstrap().expect("bootstrap should work");
    session.handle_button(Button::Back).expect("open should work");
    session.handle_button(Button::Confirm).expect("toc should open");

    session.handle_button(Button::Right).expect("toc selection should move");
    session.handle_button(Button::Confirm).expect("toc confirm should jump");

    assert_eq!(session.screen_mode(), ScreenMode::Reading);
    assert_eq!(session.reader_page(), 10);
}

#[test]
fn down_in_reader_uses_next_page_storage_path() {
    let storage = PagingStorage::default();
    let mut session = Session::new(storage, screen(), 8);
    session.bootstrap().expect("bootstrap should work");
    session.handle_button(Button::Back).expect("open should work");

    session.handle_button(Button::Down).expect("next page should render");

    assert_eq!(session.reader_page(), 1);
    assert_eq!(session.storage().next_calls.borrow().as_slice(), &[1]);
    assert!(session.storage().full_page_calls.borrow().is_empty());
}

#[test]
fn opening_an_epub_draws_footer_with_footer_variant() {
    let mut session = Session::new(FakeStorage, screen(), 8);
    session.bootstrap().expect("bootstrap should work");

    session.handle_button(Button::Back).expect("open should work");

    assert!(session.renderer().frame.bytes().iter().any(|byte| *byte != 0xFF));
}

#[test]
fn entry_conversion_uses_fs_name_for_controller_entries() {
    let ui = SessionUi::new();
    let entry = ListedEntry {
        label: "Book".to_string(),
        fs_name: "book.epub".to_string(),
        kind: EntryKind::Epub,
    };

    let converted = ui.listed_entry_to_ui(&entry);

    assert_eq!(converted.name.as_str(), "book.epub");
    assert_eq!(converted.kind, EntryKind::Epub);
}

#[test]
fn render_browser_draws_selection_marker_and_entry_label() {
    let ui = SessionUi::new();
    let mut renderer = RecordingRenderer::with_fonts();
    let entries = [ListedEntry::directory("Books"), ListedEntry::epub("book.epub")];

    ui.render_browser(&mut renderer, "/", &entries, Some(1));

    assert_eq!(renderer.clears, vec![0xFF]);
    assert!(renderer.heading_texts.iter().any(|(_, _, text)| text.as_str() == "/"));
    assert!(renderer.texts.iter().any(|(_, _, text)| text.as_str().contains("[D] Books")));
    assert!(renderer.texts.iter().any(|(_, _, text)| text.as_str().contains("> [E] book.epub")));
}

#[test]
fn render_reader_footer_draws_title_and_progress() {
    let ui = SessionUi::new();
    let mut renderer = RecordingRenderer::with_fonts();

    ui.render_reader_footer(&mut renderer, Some(12), Some("A Very Long Chapter Title For Footer Layout"), 42);

    assert_eq!(renderer.fills.len(), 1);
    assert!(renderer.footer_texts.iter().any(|(_, _, text)| text.as_str() == "42%"));
    let left = renderer
        .footer_texts
        .iter()
        .find(|(_, _, text)| text.as_str().starts_with("A Very Long"))
        .expect("left chapter title");
    let right = renderer
        .footer_texts
        .iter()
        .find(|(_, _, text)| text.as_str() == "42%")
        .expect("right progress");

    assert_eq!(left.0, 4);
    assert!(right.0 > left.0);
}

#[test]
fn render_reader_footer_renders_title_when_progress_leaves_room() {
    let ui = SessionUi::new();
    let mut renderer = RecordingRenderer::with_fonts();

    ui.render_reader_footer(&mut renderer, Some(123_456_789), Some("Introduction"), 100);

    assert!(renderer.footer_texts.iter().any(|(_, _, text)| text.as_str() == "100%"));
    assert!(renderer.footer_texts.iter().any(|(_, _, text)| text.as_str() == "Introduction"));
}

#[test]
fn render_toc_draws_header_and_selected_chapter_title() {
    let ui = SessionUi::new();
    let mut renderer = RecordingRenderer::with_fonts();
    let entries = [ListedEntry::epub("Cover"), ListedEntry::epub("Introduction")];

    ui.render_toc(&mut renderer, &entries, Some(1));

    assert!(renderer.heading_texts.iter().any(|(_, _, text)| text.as_str() == "Table of contents"));
    assert!(renderer.texts.iter().any(|(_, _, text)| text.as_str() == "> Introduction"));
}

#[test]
fn percent_text_writes_digits_and_sign() {
    assert_eq!(percent_text(0), "0%");
    assert_eq!(percent_text(7), "7%");
    assert_eq!(percent_text(42), "42%");
    assert_eq!(percent_text(100), "100%");
    assert_eq!(percent_text(255), "255%");
}

#[test]
fn menu_line_marks_selection_and_kind() {
    let other = ListedEntry {
        label: "notes.txt".to_string(),
        fs_name: "NOTES.TXT".to_string(),
        kind: EntryKind::Other,
    };
    assert_eq!(menu_line(false, true, &other), "  [ ] notes.txt");
    assert_eq!(menu_line(true, false, &other), "> notes.txt");
    assert_eq!(menu_line(true, true, &ListedEntry::directory("Books")), "> [D] Books");
}

#[test]
fn menu_line_drops_a_label_that_would_overflow_the_line() {
    let long = "x".repeat(95);
    let entry = ListedEntry::epub(&long);
    assert_eq!(menu_line(false, false, &entry), "  ");
    let fits = ListedEntry::epub(&"x".repeat(94));
    assert_eq!(menu_line(false, false, &fits), format!("  {}", "x".repeat(94)));
}

#[test]
fn overlong_entry_names_are_left_empty() {
    let long = "y".repeat(97);
    let entry = ListedEntry::epub(&long);
    assert_eq!(entry.label, "");
    assert_eq!(entry.fs_name, "");
    let fits = ListedEntry::directory(&"z".repeat(96));
    assert_eq!(fits.label.len(), 96);
    assert_eq!(fits.kind, EntryKind::Directory);
}

#[test]
fn ui_entry_conversion_keeps_name_and_kind() {
    let ui = SessionUi::new();
    let listed = ui.ui_entry_to_listed(&UiEntry {
        name: "story.epub".to_string(),
        kind: EntryKind::Epub,
    });
    assert_eq!(listed.label, "story.epub");
    assert_eq!(listed.fs_name, "story.epub");
    assert_eq!(listed.kind, EntryKind::Epub);
}

#[test]
fn up_in_reader_after_a_page_turn_uses_previous_page_path() {
    let mut session = Session::new(PagingStorage::default(), screen(), 8);
    session.bootstrap().expect("bootstrap");
    session.handle_button(Button::Back).expect("open");
    session.handle_button(Button::Down).expect("next");

    session.handle_button(Button::Up).expect("previous");

    assert_eq!(session.reader_page(), 0);
    assert_eq!(session.storage().previous_calls.borrow().as_slice(), &[0]);
    assert!(session.storage().full_page_calls.borrow().is_empty());
}

#[test]
fn up_on_the_first_page_renders_the_full_page() {
    let mut session = Session::new(PagingStorage::default(), screen(), 8);
    session.bootstrap().expect("bootstrap");
    session.handle_button(Button::Back).expect("open");

    session.handle_button(Button::Up).expect("stay");

    assert_eq!(session.reader_page(), 0);
    assert_eq!(session.storage().full_page_calls.borrow().as_slice(), &[0]);
}

#[test]
fn back_from_contents_returns_to_the_same_reader_page() {
    let mut session = Session::new(FakeStorage, screen(), 8);
    session.bootstrap().expect("bootstrap");
    session.handle_button(Button::Back).expect("open");
    session.handle_button(Button::Confirm).expect("toc");

    let refresh = session.handle_button(Button::Back).expect("back");

    assert!(refresh.is_some());
    assert_eq!(session.screen_mode(), ScreenMode::Reading);
    assert_eq!(session.reader_page(), 0);
    assert_eq!(session.current_entries()[0].label.as_str(), "book.epub");
}

#[test]
fn back_in_reader_returns_to_the_listing() {
    let mut session = Session::new(FakeStorage, screen(), 8);
    session.bootstrap().expect("bootstrap");
    session.handle_button(Button::Back).expect("open");

    session.handle_button(Button::Back).expect("browse");

    assert_eq!(session.screen_mode(), ScreenMode::Browse);
    assert_eq!(session.current_path(), "/");
}
