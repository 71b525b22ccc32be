//! A reading session: the controller, the directory or contents page shown,
//! the storage that lists and renders, and the menus drawn between them.
use vstd::prelude::*;
use vstd::string::StrSliceExecFns;
use vstd::string::StringExecFns;
use crate::browser::EntryKind;
use crate::buttons::Button;
use crate::controller::AppController;
use crate::controller::BrowserRefresh;
use crate::controller::ControllerCommand;
use crate::controller::ENTRY_NAME_CAPACITY;
use crate::controller::ScreenMode;
use crate::controller::CommandView;
use crate::controller::ControllerView;
use crate::controller::controller_step;
use crate::browser::clamped_selection;
use crate::controller::UiEntry;
use crate::framebuffer::DISPLAY_HEIGHT;
use crate::framebuffer::Framebuffer;
use crate::framebuffer::rect_fill;
use crate::framebuffer::no_lighter;
use crate::framebuffer::one_line;
use crate::framebuffer::shows_line;
use crate::framebuffer::SHADE_BLACK;
use crate::framebuffer::SHADE_WHITE;
use crate::fs::DirectoryPageInfo;
use crate::fs::LABEL_CAPACITY;
use crate::fs::ListedEntry;
use crate::fs::lemma_slash_literal;
use crate::fs::utf8_len;
use crate::render::FontSet;

verus! {

/// A page of listed entries and where it lies in its listing.
#[derive(Debug, Clone)]
pub struct DirectoryPage {
    pub entries: Vec<ListedEntry>,
    pub info: DirectoryPageInfo,
}

/// What a session draws on.
pub trait AppRenderer {
    /// The renderer can draw.
    spec fn ready(&self) -> bool;

    /// Fills the screen: black for 0, white otherwise.
    fn clear(&mut self, color: u8)
        requires
            old(self).ready(),
        ensures
            final(self).ready(),
    ;

    /// Draws body text with its top left at `(x, y)`.
    fn draw_text(&mut self, x: u16, y: u16, text: &str)
        requires
            old(self).ready(),
        ensures
            final(self).ready(),
    ;

    /// Draws heading text with its top left at `(x, y)`.
    fn draw_heading_text(&mut self, x: u16, y: u16, text: &str)
        requires
            old(self).ready(),
        ensures
            final(self).ready(),
    ;

    /// Fills a rectangle: black for color 0, white otherwise.
    fn fill_rect(&mut self, x: u16, y: u16, width: u16, height: u16, color: u8)
        requires
            old(self).ready(),
        ensures
            final(self).ready(),
    ;

    /// Draws footer text with its top left at `(x, y)`.
    fn draw_footer_text(&mut self, x: u16, y: u16, text: &str)
        requires
            old(self).ready(),
        ensures
            final(self).ready(),
    ;

    /// The faces the renderer draws with.
    fn fonts(&self) -> (r: &FontSet)
        requires
            self.ready(),
        ensures
            r.wf(),
    ;
}

/// What showing a page of a book gave: the page shown, the progress through
/// the book, and the chapter it lies in where that is known.
#[derive(Debug, Clone)]
pub struct EpubRenderResult {
    pub rendered_page: usize,
    pub progress_percent: u8,
    pub chapter_number: Option<usize>,
    pub chapter_title: Option<String>,
}

/// What a session lists and renders books from.
pub trait AppStorage<R: AppRenderer> {
    type Error;

    /// Up to `page_size` entries of the directory `path` from entry `page_start` on.
    fn list_directory_page(&self, path: &str, page_start: usize, page_size: usize) -> Result<DirectoryPage, Self::Error>;

    /// Opens the book `entry` where it was last read.
    fn render_epub_from_entry(&self, renderer: &mut R, current_path: &str, entry: &ListedEntry) -> (r: Result<
        EpubRenderResult,
        Self::Error,
    >)
        requires
            old(renderer).ready(),
        ensures
            final(renderer).ready(),
    ;

    /// Shows page `target_page` of the book `entry`.
    fn render_epub_page_from_entry(
        &self,
        renderer: &mut R,
        current_path: &str,
        entry: &ListedEntry,
        target_page: usize,
    ) -> (r: Result<EpubRenderResult, Self::Error>)
        requires
            old(renderer).ready(),
        ensures
            final(renderer).ready(),
    ;

    /// Shows page `target_page` of the book `entry`, the page after the one shown.
    fn render_epub_next_page_from_entry(
        &self,
        renderer: &mut R,
        current_path: &str,
        entry: &ListedEntry,
        target_page: usize,
    ) -> (r: Result<EpubRenderResult, Self::Error>)
        requires
            old(renderer).ready(),
        ensures
            final(renderer).ready(),
    ;

    /// Shows page `target_page` of the book `entry`, the page before the one shown.
    fn render_epub_previous_page_from_entry(
        &self,
        renderer: &mut R,
        current_path: &str,
        entry: &ListedEntry,
        target_page: usize,
    ) -> (r: Result<EpubRenderResult, Self::Error>)
        requires
            old(renderer).ready(),
        ensures
            final(renderer).ready(),
    ;

    /// Up to `page_size` chapters of the book `entry` from chapter `page_start` on.
    fn list_epub_chapter_page(&self, current_path: &str, entry: &ListedEntry, page_start: usize, page_size: usize) -> Result<
        DirectoryPage,
        Self::Error,
    >;

    /// Shows the start of chapter `chapter_index` of the book `entry`.
    fn render_epub_chapter_from_entry(
        &self,
        renderer: &mut R,
        current_path: &str,
        entry: &ListedEntry,
        chapter_index: usize,
    ) -> (r: Result<EpubRenderResult, Self::Error>)
        requires
            old(renderer).ready(),
        ensures
            final(renderer).ready(),
    ;
}

/// A frame with the faces to draw text in.
pub struct ScreenRenderer {
    pub frame: Framebuffer,
    pub fonts: FontSet,
}

impl AppRenderer for ScreenRenderer {
    open spec fn ready(&self) -> bool {
        self.frame.wf() && self.fonts.wf()
    }

    fn clear(&mut self, color: u8) {
        self.frame.clear(color);
    }

    fn draw_text(&mut self, x: u16, y: u16, text: &str)
        ensures
            final(self).fonts == old(self).fonts,
            no_lighter(old(self).frame@, final(self).frame@),
            text@.len() <= crate::font::MAX_SHAPED_CHARS && one_line(text@) ==> shows_line(
                final(self).frame@,
                old(self).fonts.body,
                text@,
                x as int,
                y as int,
                false,
            ),
    {
        if text.unicode_len() <= crate::font::MAX_SHAPED_CHARS {
            self.frame.draw_text(&self.fonts, x, y, text);
        }
    }

    fn draw_heading_text(&mut self, x: u16, y: u16, text: &str)
        ensures
            final(self).fonts == old(self).fonts,
            no_lighter(old(self).frame@, final(self).frame@),
            text@.len() <= crate::font::MAX_SHAPED_CHARS && one_line(text@) ==> shows_line(
                final(self).frame@,
                old(self).fonts.heading,
                text@,
                x as int,
                y as int,
                false,
            ),
    {
        if text.unicode_len() <= crate::font::MAX_SHAPED_CHARS {
            self.frame.draw_heading_text(&self.fonts, x, y, text);
        }
    }

    /// Fills the rectangle black for color 0, else white, clipped to the panel.
    fn fill_rect(&mut self, x: u16, y: u16, width: u16, height: u16, color: u8)
        ensures
            final(self).fonts == old(self).fonts,
            ({
                let ex = if x + width > u16::MAX { u16::MAX as int } else { x + width };
                let ey = if y + height > u16::MAX { u16::MAX as int } else { y + height };
                let ex = if ex < 480 { ex } else { 480 };
                let ey = if ey < 800 { ey } else { 800 };
                final(self).frame@ == rect_fill(
                    old(self).frame@,
                    x as int,
                    ex,
                    y as int,
                    ey,
                    if color == 0 { SHADE_BLACK } else { SHADE_WHITE },
                )
            }),
    {
        self.frame.fill_rect(x, y, width, height, color);
    }

    fn draw_footer_text(&mut self, x: u16, y: u16, text: &str)
        ensures
            final(self).fonts == old(self).fonts,
            no_lighter(old(self).frame@, final(self).frame@),
            text@.len() <= crate::font::MAX_SHAPED_CHARS && one_line(text@) ==> shows_line(
                final(self).frame@,
                old(self).fonts.footer,
                text@,
                x as int,
                y as int,
                false,
            ),
    {
        if text.unicode_len() <= crate::font::MAX_SHAPED_CHARS {
            self.frame.draw_footer_text(&self.fonts, x, y, text);
        }
    }

    fn fonts(&self) -> (r: &FontSet) {
        &self.fonts
    }
}

/// One line of a menu: where it is drawn and its text.
#[derive(Debug, Clone)]
pub struct MenuLine {
    pub y: u16,
    pub text: String,
}

/// The tag shown before an entry of the given kind.
pub open spec fn kind_tag(kind: EntryKind) -> Seq<char> {
    match kind {
        EntryKind::Directory => seq!['[', 'D', ']', ' '],
        EntryKind::Epub => seq!['[', 'E', ']', ' '],
        EntryKind::Other => seq!['[', ' ', ']', ' '],
    }
}

/// The text of a menu line: the selection marker, a space, the kind tag when
/// shown, and the label unless the line would outgrow its 96 bytes.
pub open spec fn menu_line_text(selected: bool, show_kind: bool, kind: EntryKind, label: Seq<char>) -> Seq<char> {
    let prefix = seq![if selected { '>' } else { ' ' }, ' '] + (if show_kind { kind_tag(kind) } else { Seq::empty() });
    if utf8_len(prefix) + utf8_len(label) <= LABEL_CAPACITY {
        prefix + label
    } else {
        prefix
    }
}

/// `a + b` capped at `u16::MAX`.
pub open spec fn sat_u16(a: int) -> u16 {
    if a > u16::MAX { u16::MAX } else { a as u16 }
}

/// The position of menu line `k` below a heading line.
pub open spec fn menu_line_y(heading_height: u16, line_height: u16, k: nat) -> int {
    sat_u16(4 + heading_height + line_height) + k * line_height
}

fn push_ascii(out: &mut String, c: char)
    requires
        c == '>' || c == ' ' || c == '[' || c == ']' || c == 'D' || c == 'E',
    ensures
        final(out)@ == old(out)@.push(c),
{
    if c == '>' {
        proof { reveal_strlit(">"); }
        out.append(">");
    } else if c == ' ' {
        proof { reveal_strlit(" "); }
        out.append(" ");
    } else if c == '[' {
        proof { reveal_strlit("["); }
        out.append("[");
    } else if c == ']' {
        proof { reveal_strlit("]"); }
        out.append("]");
    } else if c == 'D' {
        proof { reveal_strlit("D"); }
        out.append("D");
    } else {
        proof { reveal_strlit("E"); }
        out.append("E");
    }
    assert(out@ =~= old(out)@.push(c));
}

/// The text of one menu line.
pub fn menu_line(selected: bool, show_kind: bool, entry: &ListedEntry) -> (r: String)
    ensures
        r@ == menu_line_text(selected, show_kind, entry.kind, entry.label@),
{
    let mut line = String::new();
    push_ascii(&mut line, if selected { '>' } else { ' ' });
    push_ascii(&mut line, ' ');
    if show_kind {
        push_ascii(&mut line, '[');
        match entry.kind {
            EntryKind::Directory => push_ascii(&mut line, 'D'),
            EntryKind::Epub => push_ascii(&mut line, 'E'),
            EntryKind::Other => push_ascii(&mut line, ' '),
        }
        push_ascii(&mut line, ']');
        push_ascii(&mut line, ' ');
    }
    let ghost prefix = line@;
    assert(prefix =~= seq![if selected { '>' } else { ' ' }, ' '] + (if show_kind { kind_tag(entry.kind) } else {
        Seq::empty()
    }));
    let used = line.as_str().as_bytes().len();
    let label = entry.label.as_str();
    if used <= LABEL_CAPACITY && label.as_bytes().len() <= LABEL_CAPACITY - used {
        line.append(label);
    }
    line
}

/// The lines of a menu of `entries` under a heading: one per entry while it
/// fits above the bottom of the display, `line_height` apart.
pub fn menu_lines(
    entries: &[ListedEntry],
    selected_index: Option<usize>,
    show_kind: bool,
    heading_height: u16,
    line_height: u16,
) -> (r: Vec<MenuLine>)
    ensures
        r@.len() <= entries@.len(),
        forall|k: int| 0 <= k < r@.len() ==> {
            &&& #[trigger] r@[k].y == menu_line_y(heading_height, line_height, k as nat)
            &&& r@[k].y + line_height <= DISPLAY_HEIGHT
            &&& r@[k].text@ == menu_line_text(
                selected_index == Some(k as usize),
                show_kind,
                entries@[k].kind,
                entries@[k].label@,
            )
        },
        r@.len() < entries@.len() ==> menu_line_y(heading_height, line_height, r@.len()) + line_height > DISPLAY_HEIGHT,
{
    let mut out: Vec<MenuLine> = Vec::new();
    let mut cursor_y: u16 = 4u16.saturating_add(heading_height).saturating_add(line_height);
    assert(cursor_y == sat_u16(4 + heading_height + line_height));
    let mut index: usize = 0;
    while index < entries.len()
        invariant
            index <= entries@.len(),
            out@.len() == index,
            cursor_y == menu_line_y(heading_height, line_height, index as nat),
            forall|k: int| 0 <= k < out@.len() ==> {
                &&& #[trigger] out@[k].y == menu_line_y(heading_height, line_height, k as nat)
                &&& out@[k].y + line_height <= DISPLAY_HEIGHT
                &&& out@[k].text@ == menu_line_text(
                    selected_index == Some(k as usize),
                    show_kind,
                    entries@[k].kind,
                    entries@[k].label@,
                )
            },
        decreases entries@.len() - index,
    {
        if cursor_y as u32 + line_height as u32 > DISPLAY_HEIGHT as u32 {
            return out;
        }
        let selected = match selected_index {
            Some(s) => s == index,
            None => false,
        };
        let text = menu_line(selected, show_kind, &entries[index]);
        assert(selected == (selected_index == Some(index)));
        let ghost before = out@;
        out.push(MenuLine { y: cursor_y, text });
        proof {
            assert forall|k: int| 0 <= k < out@.len() implies {
                &&& #[trigger] out@[k].y == menu_line_y(heading_height, line_height, k as nat)
                &&& out@[k].y + line_height <= DISPLAY_HEIGHT
                &&& out@[k].text@ == menu_line_text(
                    selected_index == Some(k as usize),
                    show_kind,
                    entries@[k].kind,
                    entries@[k].label@,
                )
            } by {
                if k < index {
                    assert(out@[k] == before[k]);
                } else {
                    assert(k == index);
                    assert(k as usize == index);
                }
            }
            assert(menu_line_y(heading_height, line_height, (index + 1) as nat) == menu_line_y(
                heading_height,
                line_height,
                index as nat,
            ) + line_height) by (nonlinear_arith);
        }
        cursor_y = cursor_y + line_height;
        index += 1;
    }
    out
}

/// The character of the decimal digit `d`.
pub open spec fn digit_char(d: nat) -> char {
    if d == 0 { '0' } else if d == 1 { '1' } else if d == 2 { '2' } else if d == 3 { '3' } else if d == 4 { '4' }
    else if d == 5 { '5' } else if d == 6 { '6' } else if d == 7 { '7' } else if d == 8 { '8' } else { '9' }
}

/// The decimal digits of `n`, most significant first, without leading zeros.
pub open spec fn decimal_chars(n: nat) -> Seq<char>
    decreases n,
{
    if n < 10 {
        seq![digit_char(n)]
    } else {
        decimal_chars(n / 10).push(digit_char(n % 10))
    }
}

fn push_digit(out: &mut String, d: u8)
    requires
        d < 10,
    ensures
        final(out)@ == old(out)@.push(digit_char(d as nat)),
{
    let text = if d == 0 {
        proof { reveal_strlit("0"); }
        "0"
    } else if d == 1 {
        proof { reveal_strlit("1"); }
        "1"
    } else if d == 2 {
        proof { reveal_strlit("2"); }
        "2"
    } else if d == 3 {
        proof { reveal_strlit("3"); }
        "3"
    } else if d == 4 {
        proof { reveal_strlit("4"); }
        "4"
    } else if d == 5 {
        proof { reveal_strlit("5"); }
        "5"
    } else if d == 6 {
        proof { reveal_strlit("6"); }
        "6"
    } else if d == 7 {
        proof { reveal_strlit("7"); }
        "7"
    } else if d == 8 {
        proof { reveal_strlit("8"); }
        "8"
    } else {
        proof { reveal_strlit("9"); }
        "9"
    };
    assert(text@ =~= seq![digit_char(d as nat)]);
    out.append(text);
    assert(out@ =~= old(out)@.push(digit_char(d as nat)));
}

fn push_decimal_chars(out: &mut String, n: u8)
    ensures
        final(out)@ == old(out)@ + decimal_chars(n as nat),
    decreases n,
{
    if n >= 10 {
        push_decimal_chars(out, n / 10);
    }
    push_digit(out, n % 10);
    assert(out@ =~= old(out)@ + decimal_chars(n as nat));
}

/// The footer's progress text: the percentage followed by `%`.
pub fn percent_text(progress_percent: u8) -> (r: String)
    ensures
        r@ == decimal_chars(progress_percent as nat).push('%'),
{
    let mut out = String::new();
    push_decimal_chars(&mut out, progress_percent);
    proof { reveal_strlit("%"); }
    out.append("%");
    assert(out@ =~= decimal_chars(progress_percent as nat).push('%'));
    out
}

/// Draws the menus and the footer of a session and converts its entries.
pub struct SessionUi;

impl SessionUi {
    pub fn new() -> (r: Self) {
        SessionUi
    }

    /// Draws the directory listing: the path as heading, each entry with its kind.
    pub fn render_browser<R: AppRenderer>(
        &self,
        renderer: &mut R,
        current_path: &str,
        entries: &[ListedEntry],
        selected_index: Option<usize>,
    )
        requires
            old(renderer).ready(),
        ensures
            final(renderer).ready(),
    {
        self.render_menu(renderer, current_path, entries, selected_index, true);
    }

    /// Draws the table of contents.
    pub fn render_toc<R: AppRenderer>(&self, renderer: &mut R, entries: &[ListedEntry], selected_index: Option<usize>)
        requires
            old(renderer).ready(),
        ensures
            final(renderer).ready(),
    {
        self.render_menu(renderer, "Table of contents", entries, selected_index, false);
    }

    /// Draws the reading footer over a white band below the page: the chapter
    /// title on the left, clipped to leave room, and the progress on the right.
    pub fn render_reader_footer<R: AppRenderer>(
        &self,
        renderer: &mut R,
        chapter_number: Option<usize>,
        chapter_title: Option<&str>,
        progress_percent: u8,
    )
        requires
            old(renderer).ready(),
        ensures
            final(renderer).ready(),
    {
        let footer_height = crate::render::reader_footer_height(renderer.fonts());
        let footer_y = crate::render::reader_content_height(renderer.fonts());
        let right = percent_text(progress_percent);
        proof {
            reveal_with_fuel(decimal_chars, 3);
            assert(decimal_chars(progress_percent as nat).len() <= 3);
        }
        let title = match chapter_title {
            Some(t) => if t.unicode_len() <= crate::font::MAX_SHAPED_CHARS { Some(t) } else { None },
            None => None,
        };
        let layout = crate::render::layout_reader_footer(renderer.fonts(), title, None, right.as_str());
        let left_x = layout.left_x;
        let left_text = layout.left_text;
        let right_x = layout.right_x;
        renderer.fill_rect(0, footer_y, crate::framebuffer::DISPLAY_WIDTH, footer_height, 0xFF);
        match left_text {
            Some(t) => renderer.draw_footer_text(left_x, footer_y.saturating_add(4), t),
            None => {},
        }
        renderer.draw_footer_text(right_x, footer_y.saturating_add(4), right.as_str());
    }

    fn render_menu<R: AppRenderer>(
        &self,
        renderer: &mut R,
        title: &str,
        entries: &[ListedEntry],
        selected_index: Option<usize>,
        show_kind: bool,
    )
        requires
            old(renderer).ready(),
        ensures
            final(renderer).ready(),
    {
        renderer.clear(0xFF);
        renderer.draw_heading_text(4, 4, title);
        let lines = menu_lines(
            entries,
            selected_index,
            show_kind,
            renderer.fonts().heading.line_height,
            renderer.fonts().body.line_height,
        );
        let mut k: usize = 0;
        while k < lines.len()
            invariant
                renderer.ready(),
            decreases lines@.len() - k,
        {
            renderer.draw_text(4, lines[k].y, lines[k].text.as_str());
            k += 1;
        }
    }

    /// The listed entry for a controller entry: its name as label and card name,
    /// both empty when the name is longer than an entry holds.
    pub fn ui_entry_to_listed(&self, entry: &UiEntry) -> (r: ListedEntry)
        ensures
            r.kind == entry.kind,
            r.label@ == (if utf8_len(entry.name@) <= LABEL_CAPACITY { entry.name@ } else { Seq::empty() }),
            r.fs_name@ == r.label@,
    {
        let fits = entry.name.as_str().as_bytes().len() <= LABEL_CAPACITY;
        let label = if fits { entry.name.clone() } else { String::new() };
        let fs_name = if fits { entry.name.clone() } else { String::new() };
        ListedEntry { label, fs_name, kind: entry.kind }
    }

    /// The controller entry for a listed entry: its card name, empty when longer
    /// than a controller entry holds.
    pub fn listed_entry_to_ui(&self, entry: &ListedEntry) -> (r: UiEntry)
        ensures
            r.kind == entry.kind,
            r.name@ == (if utf8_len(entry.fs_name@) <= ENTRY_NAME_CAPACITY { entry.fs_name@ } else { Seq::empty() }),
    {
        let name = if entry.fs_name.as_str().as_bytes().len() <= ENTRY_NAME_CAPACITY {
            entry.fs_name.clone()
        } else {
            String::new()
        };
        UiEntry { name, kind: entry.kind }
    }
}

/// A listed entry as the controller sees it: its card name, or nothing when
/// that is longer than a controller entry holds, and its kind.
pub open spec fn ui_entry_view(entry: ListedEntry) -> (Seq<char>, EntryKind) {
    (if utf8_len(entry.fs_name@) <= ENTRY_NAME_CAPACITY { entry.fs_name@ } else { Seq::empty() }, entry.kind)
}

/// A reading session: storage to list and render from, a renderer, the
/// controller, and the directory and contents pages last loaded.
pub struct Session<S, R> {
    storage: S,
    renderer: R,
    ui: SessionUi,
    controller: AppController,
    current_path: String,
    page: DirectoryPage,
    toc_page: DirectoryPage,
    page_size: usize,
}

impl<S: AppStorage<R>, R: AppRenderer> Session<S, R> {
    /// The renderer can draw and the controller pages as the session does.
    pub closed spec fn wf(&self) -> bool {
        &&& self.renderer.ready()
        &&& self.controller@.page_size == self.page_size as nat
    }

    /// The controller's state.
    pub closed spec fn controller_view(&self) -> ControllerView {
        self.controller@
    }

    /// The directory being listed.
    pub closed spec fn path_view(&self) -> Seq<char> {
        self.current_path@
    }

    /// The directory page last loaded.
    pub closed spec fn directory_page(&self) -> DirectoryPage {
        self.page
    }

    /// The contents page last loaded.
    pub closed spec fn contents_page(&self) -> DirectoryPage {
        self.toc_page
    }

    /// The storage.
    pub closed spec fn storage_view(&self) -> S {
        self.storage
    }

    /// The renderer.
    pub closed spec fn renderer_view(&self) -> R {
        self.renderer
    }

    /// The page the buttons act on: the contents page on the contents screen,
    /// else the directory page.
    pub open spec fn shown_page(&self) -> DirectoryPage {
        if self.controller_view().screen_mode == ScreenMode::Toc {
            self.contents_page()
        } else {
            self.directory_page()
        }
    }

    /// The directory entry under the cursor, as the controller sees it.
    pub open spec fn selected_ui_entry(&self) -> Option<(Seq<char>, EntryKind)> {
        match clamped_selection(self.controller_view().browser.selected, self.directory_page().entries@.len()) {
            Some(i) => Some(ui_entry_view(self.directory_page().entries@[i as int])),
            None => None,
        }
    }

    /// The controller's answer to `button` on the page shown.
    pub open spec fn step(&self, button: Button) -> (ControllerView, CommandView) {
        controller_step(
            self.controller_view(),
            button,
            self.shown_page().entries@.len(),
            self.shown_page().info,
            self.selected_ui_entry(),
        )
    }

    /// A session at the root directory, nothing loaded yet.
    pub fn new(storage: S, renderer: R, page_size: usize) -> (r: Self)
        requires
            renderer.ready(),
        ensures
            r.wf(),
            r.storage_view() == storage,
            r.renderer_view() == renderer,
            r.path_view() == seq!['/'],
            r.controller_view().screen_mode == ScreenMode::Browse,
            r.controller_view().page_size == page_size as nat,
            r.directory_page().entries@.len() == 0,
            r.contents_page().entries@.len() == 0,
    {
        proof {
            lemma_slash_literal();
        }
        let info = DirectoryPageInfo { page_start: 0, has_prev: false, has_next: false };
        Session {
            storage,
            renderer,
            ui: SessionUi::new(),
            controller: AppController::new(page_size),
            current_path: "/".to_owned(),
            page: DirectoryPage { entries: Vec::new(), info },
            toc_page: DirectoryPage { entries: Vec::new(), info },
            page_size,
        }
    }

    /// Loads and shows the first page of the root directory.
    pub fn bootstrap(&mut self) -> (r: Result<BrowserRefresh, S::Error>)
        requires
            old(self).wf(),
        ensures
            final(self).wf(),
            final(self).path_view() == old(self).path_view(),
            r matches Ok(x) ==> x == BrowserRefresh::Fast,
    {
        match self.load_directory(0, 0) {
            Ok(()) => Ok(BrowserRefresh::Fast),
            Err(e) => Err(e),
        }
    }

    /// Handles one button press: the controller decides, the storage lists or
    /// renders what it asks for, and the screen is redrawn. A page turn by one
    /// goes through the storage's next or previous page path, other page
    /// changes through the full page path.
    pub fn handle_button(&mut self, button: Button) -> (r: Result<Option<BrowserRefresh>, S::Error>)
        requires
            old(self).wf(),
            old(self).controller_view().page_size > 0 || !(old(self).controller_view().screen_mode == ScreenMode::Reading
                && button == Button::Confirm && old(self).controller_view().reader_entry is Some),
        ensures
            final(self).wf(),
            ({
                let (c, cmd) = old(self).step(button);
                &&& cmd is Nothing ==> ((r matches Ok(None)) && final(self).controller_view() == c
                    && final(self).directory_page() == old(self).directory_page()
                    && final(self).contents_page() == old(self).contents_page())
                &&& cmd matches CommandView::RenderBrowser { refresh } ==> ((r matches Ok(Some(x)) && x == refresh)
                    && final(self).controller_view() == c)
                &&& cmd matches CommandView::RenderToc { refresh } ==> ((r matches Ok(Some(x)) && x == refresh)
                    && final(self).controller_view() == c)
                &&& cmd matches CommandView::LoadDirectory { path, refresh, .. } ==> (final(self).path_view() == path
                    && (r matches Ok(x) ==> x == Some(refresh)))
                &&& cmd is OpenEpub ==> (r matches Ok(x) ==> (x == Some(BrowserRefresh::Fast)
                    && final(self).controller_view().screen_mode == ScreenMode::Reading))
                &&& cmd matches CommandView::RenderReaderPage { fast, .. } ==> (r matches Ok(x) ==> (x == Some(
                    if fast { BrowserRefresh::Fast } else { BrowserRefresh::Full },
                ) && final(self).controller_view().screen_mode == ScreenMode::Reading))
                &&& cmd matches CommandView::LoadToc { refresh, .. } ==> (r matches Ok(x) ==> (x == Some(refresh)
                    && final(self).controller_view().screen_mode == ScreenMode::Toc))
                &&& cmd matches CommandView::JumpToChapter { chapter_index, .. } ==> (r matches Ok(x) ==> (x == Some(
                    BrowserRefresh::Full,
                ) && final(self).controller_view().screen_mode == ScreenMode::Reading
                    && final(self).controller_view().reader_chapter_index == chapter_index))
            }),
    {
        let page_before = self.controller.reader_page();
        let in_toc = self.controller.screen_mode() == ScreenMode::Toc;
        let selected_entry = match self.controller.browser().selected_index(self.page.entries.len()) {
            Some(i) => Some(self.ui.listed_entry_to_ui(&self.page.entries[i])),
            None => None,
        };
        let page_len = if in_toc { self.toc_page.entries.len() } else { self.page.entries.len() };
        let info = if in_toc { self.toc_page.info } else { self.page.info };
        let command = self.controller.handle_button_with_selected_entry(button, page_len, info, selected_entry);
        match command {
            ControllerCommand::Nothing => Ok(None),
            ControllerCommand::RenderBrowser { refresh } => {
                self.draw_browser();
                Ok(Some(refresh))
            },
            ControllerCommand::RenderToc { refresh } => {
                self.draw_toc();
                Ok(Some(refresh))
            },
            ControllerCommand::LoadDirectory { path, page_start, selected, refresh } => {
                self.current_path = path;
                match self.load_directory(page_start, selected) {
                    Ok(()) => Ok(Some(refresh)),
                    Err(e) => Err(e),
                }
            },
            ControllerCommand::OpenEpub { entry, .. } => {
                let listed = self.ui.ui_entry_to_listed(&entry);
                let result = match self.storage.render_epub_from_entry(
                    &mut self.renderer,
                    self.current_path.as_str(),
                    &listed,
                ) {
                    Ok(x) => x,
                    Err(e) => return Err(e),
                };
                self.controller.apply_epub_opened(result.rendered_page);
                self.draw_footer(&result);
                Ok(Some(BrowserRefresh::Fast))
            },
            ControllerCommand::RenderReaderPage { entry, target_page, fast, .. } => {
                let listed = self.ui.ui_entry_to_listed(&entry);
                let path = self.current_path.as_str();
                let rendered = if page_before < usize::MAX && target_page == page_before + 1 {
                    self.storage.render_epub_next_page_from_entry(&mut self.renderer, path, &listed, target_page)
                } else if target_page < usize::MAX && target_page + 1 == page_before {
                    self.storage.render_epub_previous_page_from_entry(&mut self.renderer, path, &listed, target_page)
                } else {
                    self.storage.render_epub_page_from_entry(&mut self.renderer, path, &listed, target_page)
                };
                let result = match rendered {
                    Ok(x) => x,
                    Err(e) => return Err(e),
                };
                self.controller.apply_reader_page_rendered(result.rendered_page);
                self.draw_footer(&result);
                Ok(Some(if fast { BrowserRefresh::Fast } else { BrowserRefresh::Full }))
            },
            ControllerCommand::LoadToc { entry, page_start, selected, refresh, .. } => {
                let listed = self.ui.ui_entry_to_listed(&entry);
                let loaded = match self.storage.list_epub_chapter_page(
                    self.current_path.as_str(),
                    &listed,
                    page_start,
                    self.page_size,
                ) {
                    Ok(p) => p,
                    Err(e) => return Err(e),
                };
                self.controller.apply_toc_loaded(loaded.info.page_start, loaded.entries.len(), selected);
                self.toc_page = loaded;
                self.draw_toc();
                Ok(Some(refresh))
            },
            ControllerCommand::JumpToChapter { entry, chapter_index, .. } => {
                let listed = self.ui.ui_entry_to_listed(&entry);
                let result = match self.storage.render_epub_chapter_from_entry(
                    &mut self.renderer,
                    self.current_path.as_str(),
                    &listed,
                    chapter_index,
                ) {
                    Ok(x) => x,
                    Err(e) => return Err(e),
                };
                self.controller.apply_reader_page_rendered(result.rendered_page);
                self.draw_footer(&result);
                Ok(Some(BrowserRefresh::Full))
            },
        }
    }

    /// The storage.
    pub fn storage(&self) -> (r: &S)
        ensures
            *r == self.storage_view(),
    {
        &self.storage
    }

    /// The renderer.
    pub fn renderer(&self) -> (r: &R)
        ensures
            *r == self.renderer_view(),
    {
        &self.renderer
    }

    /// The renderer, to draw on.
    pub fn renderer_mut(&mut self) -> (r: &mut R)
        ensures
            *r == old(self).renderer_view(),
            final(self).renderer_view() == *final(r),
            final(self).controller_view() == old(self).controller_view(),
            final(self).path_view() == old(self).path_view(),
            final(self).directory_page() == old(self).directory_page(),
            final(self).contents_page() == old(self).contents_page(),
    {
        &mut self.renderer
    }

    /// The screen shown.
    pub fn screen_mode(&self) -> (r: ScreenMode)
        ensures
            r == self.controller_view().screen_mode,
    {
        self.controller.screen_mode()
    }

    /// The page of the open book being shown.
    pub fn reader_page(&self) -> (r: usize)
        ensures
            r == self.controller_view().reader_page,
    {
        self.controller.reader_page()
    }

    /// The entries of the page shown: the chapters on the contents screen,
    /// else the directory entries.
    pub fn current_entries(&self) -> (r: &[ListedEntry])
        ensures
            r@ == self.shown_page().entries@,
    {
        if self.controller.screen_mode() == ScreenMode::Toc {
            self.toc_page.entries.as_slice()
        } else {
            self.page.entries.as_slice()
        }
    }

    /// The directory being listed.
    pub fn current_path(&self) -> (r: &str)
        ensures
            r@ == self.path_view(),
    {
        self.current_path.as_str()
    }

    /// Loads page `page_start` of the current directory, puts the cursor on
    /// `selected`, and draws the listing.
    fn load_directory(&mut self, page_start: usize, selected: usize) -> (r: Result<(), S::Error>)
        requires
            old(self).wf(),
        ensures
            final(self).wf(),
            final(self).path_view() == old(self).path_view(),
            final(self).controller_view().screen_mode == old(self).controller_view().screen_mode,
            final(self).contents_page() == old(self).contents_page(),
    {
        let loaded = match self.storage.list_directory_page(self.current_path.as_str(), page_start, self.page_size) {
            Ok(p) => p,
            Err(e) => return Err(e),
        };
        self.controller.apply_directory_loaded(loaded.info.page_start, loaded.entries.len(), selected);
        self.page = loaded;
        self.draw_browser();
        Ok(())
    }

    fn draw_browser(&mut self)
        requires
            old(self).wf(),
        ensures
            final(self).wf(),
            final(self).controller_view() == old(self).controller_view(),
            final(self).path_view() == old(self).path_view(),
            final(self).directory_page() == old(self).directory_page(),
            final(self).contents_page() == old(self).contents_page(),
    {
        let selected = self.controller.browser().selected_index(self.page.entries.len());
        self.ui.render_browser(&mut self.renderer, self.current_path.as_str(), self.page.entries.as_slice(), selected);
    }

    fn draw_toc(&mut self)
        requires
            old(self).wf(),
        ensures
            final(self).wf(),
            final(self).controller_view() == old(self).controller_view(),
            final(self).path_view() == old(self).path_view(),
            final(self).directory_page() == old(self).directory_page(),
            final(self).contents_page() == old(self).contents_page(),
    {
        let selected = self.controller.toc_browser().selected_index(self.toc_page.entries.len());
        self.ui.render_toc(&mut self.renderer, self.toc_page.entries.as_slice(), selected);
    }

    fn draw_footer(&mut self, result: &EpubRenderResult)
        requires
            old(self).wf(),
        ensures
            final(self).wf(),
            final(self).controller_view() == old(self).controller_view(),
            final(self).path_view() == old(self).path_view(),
            final(self).directory_page() == old(self).directory_page(),
            final(self).contents_page() == old(self).contents_page(),
    {
        let title = match &result.chapter_title {
            Some(t) => Some(t.as_str()),
            None => None,
        };
        self.ui.render_reader_footer(&mut self.renderer, result.chapter_number, title, result.progress_percent);
    }
}

} // verus!
