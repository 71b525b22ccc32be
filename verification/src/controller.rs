//! The reader's screen logic: which screen is shown, where the browser
//! stands, and which command each button press asks of the storage and
//! display layer.
use vstd::prelude::*;
use vstd::string::StrSliceExecFns;
use vstd::string::StringExecFns;
use crate::browser::EntryKind;
use crate::browser::Input as BrowserInput;
use crate::browser::PagedAction;
use crate::browser::PagedBrowser;
use crate::browser::PagedBrowserView;
use crate::browser::clamped_selection;
use crate::browser::paged_handle;
use crate::browser::sat_add_usize;
use crate::browser::sat_sub;
use crate::buttons::Button as RawButton;
use crate::fs::DirectoryPageInfo;
use crate::fs::PATH_CAPACITY;
use crate::fs::last_slash_before;
use crate::fs::lemma_slash_literal;
use crate::fs::trim_end_slashes;
use crate::fs::trim_end_slashes_str;
use crate::fs::trim_start_slashes;
use crate::fs::trim_start_slashes_str;
use crate::fs::utf8_len;

verus! {

/// Longest entry name, in UTF-8 bytes.
pub const ENTRY_NAME_CAPACITY: usize = 96;

/// A listed entry as the controller sees it: a name and a kind.
#[derive(Debug, PartialEq, Eq)]
pub struct UiEntry {
    pub name: String,
    pub kind: EntryKind,
}

impl View for UiEntry {
    type V = (Seq<char>, EntryKind);

    open spec fn view(&self) -> (Seq<char>, EntryKind) {
        (self.name@, self.kind)
    }
}

impl Clone for UiEntry {
    fn clone(&self) -> (r: Self)
        ensures
            r@ == self@,
    {
        UiEntry { name: self.name.clone(), kind: self.kind }
    }
}

/// The screen shown.
#[derive(Debug, Clone, Copy, PartialEq, Eq, Structural)]
pub enum ScreenMode {
    Browse,
    Reading,
    Toc,
}

/// How the browser screen is refreshed.
#[derive(Debug, Clone, Copy, PartialEq, Eq, Structural)]
pub enum BrowserRefresh {
    Full,
    Fast,
}

/// What the controller asks the storage and display layer to do.
#[derive(Debug, Clone, PartialEq, Eq)]
pub enum ControllerCommand {
    Nothing,
    RenderBrowser { refresh: BrowserRefresh },
    LoadDirectory { path: String, page_start: usize, selected: usize, refresh: BrowserRefresh },
    OpenEpub { path: String, entry: UiEntry },
    RenderReaderPage { path: String, entry: UiEntry, target_page: usize, fast: bool },
    LoadToc { path: String, entry: UiEntry, page_start: usize, selected: usize, refresh: BrowserRefresh },
    RenderToc { refresh: BrowserRefresh },
    JumpToChapter { path: String, entry: UiEntry, chapter_index: usize },
}

/// A command with its strings and entries taken by their views.
pub enum CommandView {
    Nothing,
    RenderBrowser { refresh: BrowserRefresh },
    LoadDirectory { path: Seq<char>, page_start: nat, selected: nat, refresh: BrowserRefresh },
    OpenEpub { path: Seq<char>, entry: (Seq<char>, EntryKind) },
    RenderReaderPage { path: Seq<char>, entry: (Seq<char>, EntryKind), target_page: nat, fast: bool },
    LoadToc {
        path: Seq<char>,
        entry: (Seq<char>, EntryKind),
        page_start: nat,
        selected: nat,
        refresh: BrowserRefresh,
    },
    RenderToc { refresh: BrowserRefresh },
    JumpToChapter { path: Seq<char>, entry: (Seq<char>, EntryKind), chapter_index: nat },
}

impl View for ControllerCommand {
    type V = CommandView;

    open spec fn view(&self) -> CommandView {
        match self {
            ControllerCommand::Nothing => CommandView::Nothing,
            ControllerCommand::RenderBrowser { refresh } => CommandView::RenderBrowser { refresh: *refresh },
            ControllerCommand::LoadDirectory { path, page_start, selected, refresh } => CommandView::LoadDirectory {
                path: path@,
                page_start: *page_start as nat,
                selected: *selected as nat,
                refresh: *refresh,
            },
            ControllerCommand::OpenEpub { path, entry } => CommandView::OpenEpub { path: path@, entry: entry@ },
            ControllerCommand::RenderReaderPage { path, entry, target_page, fast } => CommandView::RenderReaderPage {
                path: path@,
                entry: entry@,
                target_page: *target_page as nat,
                fast: *fast,
            },
            ControllerCommand::LoadToc { path, entry, page_start, selected, refresh } => CommandView::LoadToc {
                path: path@,
                entry: entry@,
                page_start: *page_start as nat,
                selected: *selected as nat,
                refresh: *refresh,
            },
            ControllerCommand::RenderToc { refresh } => CommandView::RenderToc { refresh: *refresh },
            ControllerCommand::JumpToChapter { path, entry, chapter_index } => CommandView::JumpToChapter {
                path: path@,
                entry: entry@,
                chapter_index: *chapter_index as nat,
            },
        }
    }
}

/// The abstract state of the controller.
pub struct ControllerView {
    pub page_size: nat,
    pub browser: PagedBrowserView,
    pub current_path: Seq<char>,
    pub screen_mode: ScreenMode,
    pub reader_entry: Option<(Seq<char>, EntryKind)>,
    pub reader_page: nat,
    pub reader_chapter_index: nat,
    pub toc_browser: PagedBrowserView,
}

/// Screen, browsing and reading state, driven by button presses.
#[derive(Debug, Clone)]
pub struct AppController {
    page_size: usize,
    browser: PagedBrowser,
    current_path: String,
    screen_mode: ScreenMode,
    reader_entry: Option<UiEntry>,
    reader_page: usize,
    reader_chapter_index: usize,
    toc_browser: PagedBrowser,
}

impl View for AppController {
    type V = ControllerView;

    closed spec fn view(&self) -> ControllerView {
        ControllerView {
            page_size: self.page_size as nat,
            browser: self.browser@,
            current_path: self.current_path@,
            screen_mode: self.screen_mode,
            reader_entry: match self.reader_entry {
                Some(e) => Some(e@),
                None => None,
            },
            reader_page: self.reader_page as nat,
            reader_chapter_index: self.reader_chapter_index as nat,
            toc_browser: self.toc_browser@,
        }
    }
}

/// `child` inside `parent`, joined by one `/`; `None` once it would exceed the path capacity.
pub open spec fn child_path(parent: Seq<char>, child: Seq<char>) -> Option<Seq<char>> {
    let pt = trim_end_slashes(parent);
    let base = if pt.len() == 0 {
        Some(seq!['/'])
    } else if utf8_len(pt) > PATH_CAPACITY || utf8_len(pt) + 1 > PATH_CAPACITY {
        None
    } else {
        Some(pt.push('/'))
    };
    match base {
        Some(b) => {
            let ct = trim_start_slashes(child);
            if utf8_len(b) + utf8_len(ct) > PATH_CAPACITY {
                None
            } else {
                Some(b + ct)
            }
        },
        None => None,
    }
}

/// The directory above `path`: what precedes its last `/`, or `/`; `None` at the
/// root or for a path without `/` (an overlong prefix is dropped to empty).
pub open spec fn parent_path_spec(path: Seq<char>) -> Option<Seq<char>> {
    if path == seq!['/'] {
        None
    } else {
        let k = last_slash_before(path, path.len() as int);
        if k < 0 {
            None
        } else if k == 0 {
            Some(seq!['/'])
        } else if utf8_len(path.subrange(0, k)) > PATH_CAPACITY {
            Some(Seq::empty())
        } else {
            Some(path.subrange(0, k))
        }
    }
}

/// The entry reopened when no book is recorded: an unnamed EPUB.
pub open spec fn unnamed_epub() -> (Seq<char>, EntryKind) {
    (Seq::empty(), EntryKind::Epub)
}

/// The command for a browser action on the directory listing.
pub open spec fn browse_command(v: ControllerView, act: PagedAction) -> CommandView {
    match act {
        PagedAction::Nothing => CommandView::Nothing,
        PagedAction::Redraw => CommandView::RenderBrowser { refresh: BrowserRefresh::Fast },
        PagedAction::LoadPage { page_start, selected } => CommandView::LoadDirectory {
            path: v.current_path,
            page_start: page_start as nat,
            selected: selected as nat,
            refresh: BrowserRefresh::Fast,
        },
        PagedAction::OpenSelected(_) => CommandView::Nothing,
    }
}

/// The state and command for a browser action on the contents listing.
pub open spec fn toc_step(v: ControllerView, act: PagedAction) -> (ControllerView, CommandView) {
    match act {
        PagedAction::Nothing => (v, CommandView::Nothing),
        PagedAction::Redraw => (v, CommandView::RenderToc { refresh: BrowserRefresh::Fast }),
        PagedAction::LoadPage { page_start, selected } => (v, CommandView::LoadToc {
            path: v.current_path,
            entry: match v.reader_entry {
                Some(e) => e,
                None => unnamed_epub(),
            },
            page_start: page_start as nat,
            selected: selected as nat,
            refresh: BrowserRefresh::Fast,
        }),
        PagedAction::OpenSelected(index) => match v.reader_entry {
            Some(e) => (
                ControllerView { screen_mode: ScreenMode::Reading, reader_chapter_index: index as nat, ..v },
                CommandView::JumpToChapter { path: v.current_path, entry: e, chapter_index: index as nat },
            ),
            None => (v, CommandView::Nothing),
        },
    }
}

/// A fresh browser of the controller's page size.
pub open spec fn fresh_browser(v: ControllerView) -> PagedBrowserView {
    PagedBrowserView { page_start: 0, selected: 0, page_size: v.page_size }
}

/// One button press: the next state and the command asked for.
pub open spec fn controller_step(
    v: ControllerView,
    button: RawButton,
    page_len: nat,
    info: DirectoryPageInfo,
    selected: Option<(Seq<char>, EntryKind)>,
) -> (ControllerView, CommandView) {
    let left = button == RawButton::Left || button == RawButton::Up;
    let right = button == RawButton::Right || button == RawButton::Down;
    match v.screen_mode {
        ScreenMode::Browse => if left || right {
            let (b, act) = paged_handle(
                v.browser,
                if left { BrowserInput::Left } else { BrowserInput::Right },
                page_len,
                info.has_prev,
                info.has_next,
            );
            let w = ControllerView { browser: b, ..v };
            (w, browse_command(w, act))
        } else if button == RawButton::Back {
            match selected {
                None => (v, CommandView::Nothing),
                Some(e) => match e.1 {
                    EntryKind::Directory => match child_path(v.current_path, e.0) {
                        Some(p) => (
                            ControllerView { current_path: p, browser: fresh_browser(v), ..v },
                            CommandView::LoadDirectory {
                                path: p,
                                page_start: 0,
                                selected: 0,
                                refresh: BrowserRefresh::Fast,
                            },
                        ),
                        None => (v, CommandView::Nothing),
                    },
                    EntryKind::Epub => (
                        ControllerView { reader_entry: Some(e), ..v },
                        CommandView::OpenEpub { path: v.current_path, entry: e },
                    ),
                    EntryKind::Other => (v, CommandView::Nothing),
                },
            }
        } else if button == RawButton::Confirm {
            match parent_path_spec(v.current_path) {
                Some(p) => (
                    ControllerView { current_path: p, browser: fresh_browser(v), ..v },
                    CommandView::LoadDirectory { path: p, page_start: 0, selected: 0, refresh: BrowserRefresh::Fast },
                ),
                None => (v, CommandView::Nothing),
            }
        } else {
            (v, CommandView::Nothing)
        },
        ScreenMode::Reading => if left || right {
            match v.reader_entry {
                Some(e) => {
                    let page = if right { sat_add_usize(v.reader_page, 1) } else { sat_sub(v.reader_page, 1) };
                    (
                        ControllerView { reader_page: page, ..v },
                        CommandView::RenderReaderPage { path: v.current_path, entry: e, target_page: page, fast: true },
                    )
                },
                None => (v, CommandView::Nothing),
            }
        } else if button == RawButton::Back {
            (
                ControllerView { screen_mode: ScreenMode::Browse, ..v },
                CommandView::RenderBrowser { refresh: BrowserRefresh::Fast },
            )
        } else if button == RawButton::Confirm {
            match v.reader_entry {
                Some(e) => (
                    ControllerView { screen_mode: ScreenMode::Toc, ..v },
                    CommandView::LoadToc {
                        path: v.current_path,
                        entry: e,
                        page_start: (v.reader_chapter_index / v.page_size) * v.page_size,
                        selected: v.reader_chapter_index % v.page_size,
                        refresh: BrowserRefresh::Fast,
                    },
                ),
                None => (v, CommandView::Nothing),
            }
        } else {
            (v, CommandView::Nothing)
        },
        ScreenMode::Toc => if left || right {
            let (b, act) = paged_handle(
                v.toc_browser,
                if left { BrowserInput::Left } else { BrowserInput::Right },
                page_len,
                info.has_prev,
                info.has_next,
            );
            toc_step(ControllerView { toc_browser: b, ..v }, act)
        } else if button == RawButton::Back {
            (
                ControllerView { screen_mode: ScreenMode::Reading, ..v },
                CommandView::RenderReaderPage {
                    path: v.current_path,
                    entry: match v.reader_entry {
                        Some(e) => e,
                        None => unnamed_epub(),
                    },
                    target_page: v.reader_page,
                    fast: true,
                },
            )
        } else if button == RawButton::Confirm {
            match v.reader_entry {
                Some(e) => match clamped_selection(v.toc_browser.selected, page_len) {
                    Some(s) => {
                        let chapter = sat_add_usize(info.page_start as nat, s);
                        (
                            ControllerView { screen_mode: ScreenMode::Reading, reader_chapter_index: chapter, ..v },
                            CommandView::JumpToChapter { path: v.current_path, entry: e, chapter_index: chapter },
                        )
                    },
                    None => (v, CommandView::Nothing),
                },
                None => (v, CommandView::Nothing),
            }
        } else {
            (v, CommandView::Nothing)
        },
    }
}

impl AppController {
    /// A controller browsing the root directory, `page_size` entries per page.
    pub fn new(page_size: usize) -> (r: Self)
        ensures
            r@ == (ControllerView {
                page_size: page_size as nat,
                browser: PagedBrowserView { page_start: 0, selected: 0, page_size: page_size as nat },
                current_path: seq!['/'],
                screen_mode: ScreenMode::Browse,
                reader_entry: None,
                reader_page: 0,
                reader_chapter_index: 0,
                toc_browser: PagedBrowserView { page_start: 0, selected: 0, page_size: page_size as nat },
            }),
    {
        proof {
            lemma_slash_literal();
        }
        AppController {
            page_size,
            browser: PagedBrowser::new(page_size),
            current_path: "/".to_owned(),
            screen_mode: ScreenMode::Browse,
            reader_entry: None,
            reader_page: 0,
            reader_chapter_index: 0,
            toc_browser: PagedBrowser::new(page_size),
        }
    }

    /// The directory being browsed.
    pub fn current_path(&self) -> (r: &str)
        ensures
            r@ == self@.current_path,
    {
        self.current_path.as_str()
    }

    /// The screen shown.
    pub fn screen_mode(&self) -> (r: ScreenMode)
        ensures
            r == self@.screen_mode,
    {
        self.screen_mode
    }

    /// The directory browser.
    pub fn browser(&self) -> (r: &PagedBrowser)
        ensures
            r@ == self@.browser,
    {
        &self.browser
    }

    /// The contents browser.
    pub fn toc_browser(&self) -> (r: &PagedBrowser)
        ensures
            r@ == self@.toc_browser,
    {
        &self.toc_browser
    }

    /// The page of the open book being shown.
    pub fn reader_page(&self) -> (r: usize)
        ensures
            r == self@.reader_page,
    {
        self.reader_page
    }

    /// The book asked for has opened on `rendered_page`: the reading screen shows.
    pub fn apply_epub_opened(&mut self, rendered_page: usize)
        ensures
            final(self)@ == (ControllerView {
                screen_mode: ScreenMode::Reading,
                reader_page: rendered_page as nat,
                ..old(self)@
            }),
    {
        self.screen_mode = ScreenMode::Reading;
        self.reader_page = rendered_page;
    }

    /// The open book has moved to chapter `chapter_index`.
    pub fn apply_reader_chapter_changed(&mut self, chapter_index: usize)
        ensures
            final(self)@ == (ControllerView { reader_chapter_index: chapter_index as nat, ..old(self)@ }),
    {
        self.reader_chapter_index = chapter_index;
    }

    /// A page of the contents has been loaded.
    pub fn apply_toc_loaded(&mut self, page_start: usize, page_len: usize, selected: usize)
        ensures
            final(self)@ == (ControllerView {
                toc_browser: PagedBrowserView {
                    page_start: page_start as nat,
                    selected: if selected as nat <= sat_sub(page_len as nat, 1) { selected as nat } else {
                        sat_sub(page_len as nat, 1) },
                    page_size: old(self)@.toc_browser.page_size,
                },
                ..old(self)@
            }),
    {
        self.toc_browser.set_page(page_start, page_len, selected);
    }

    /// A page of the directory has been loaded.
    pub fn apply_directory_loaded(&mut self, page_start: usize, page_len: usize, selected: usize)
        ensures
            final(self)@ == (ControllerView {
                browser: PagedBrowserView {
                    page_start: page_start as nat,
                    selected: if selected as nat <= sat_sub(page_len as nat, 1) { selected as nat } else {
                        sat_sub(page_len as nat, 1) },
                    page_size: old(self)@.browser.page_size,
                },
                ..old(self)@
            }),
    {
        self.browser.set_page(page_start, page_len, selected);
    }

    /// The open book now shows `rendered_page`.
    pub fn apply_reader_page_rendered(&mut self, rendered_page: usize)
        ensures
            final(self)@ == (ControllerView { reader_page: rendered_page as nat, ..old(self)@ }),
    {
        self.reader_page = rendered_page;
    }

    /// One button press on a listing whose shown page holds `page_entries`: the
    /// entry under the cursor is the one acted on.
    pub fn handle_button(&mut self, button: RawButton, page_entries: &[UiEntry], page_info: DirectoryPageInfo) -> (r:
        ControllerCommand)
        requires
            old(self)@.page_size > 0 || !(old(self)@.screen_mode == ScreenMode::Reading && button
                == RawButton::Confirm && old(self)@.reader_entry is Some),
        ensures
            ({
                let sel = match clamped_selection(old(self)@.browser.selected, page_entries@.len()) {
                    Some(i) => Some(page_entries@[i as int]@),
                    None => None,
                };
                (final(self)@, r@) == controller_step(old(self)@, button, page_entries@.len(), page_info, sel)
            }),
    {
        let selected_entry = match self.browser.selected_index(page_entries.len()) {
            Some(index) => Some(page_entries[index].clone()),
            None => None,
        };
        self.handle_button_with_selected_entry(button, page_entries.len(), page_info, selected_entry)
    }

    /// One button press, with the entry under the directory cursor given.
    pub fn handle_button_with_selected_entry(
        &mut self,
        button: RawButton,
        page_len: usize,
        page_info: DirectoryPageInfo,
        selected_entry: Option<UiEntry>,
    ) -> (r: ControllerCommand)
        requires
            old(self)@.page_size > 0 || !(old(self)@.screen_mode == ScreenMode::Reading && button
                == RawButton::Confirm && old(self)@.reader_entry is Some),
        ensures
            (final(self)@, r@) == controller_step(
                old(self)@,
                button,
                page_len as nat,
                page_info,
                match selected_entry {
                    Some(e) => Some(e@),
                    None => None,
                },
            ),
    {
        let left = button == RawButton::Left || button == RawButton::Up;
        let right = button == RawButton::Right || button == RawButton::Down;
        match self.screen_mode {
            ScreenMode::Browse => {
                if left || right {
                    let input = if left { BrowserInput::Left } else { BrowserInput::Right };
                    self.handle_browse_navigation(input, page_len, page_info)
                } else if button == RawButton::Back {
                    let entry = match selected_entry {
                        Some(e) => e,
                        None => return ControllerCommand::Nothing,
                    };
                    match entry.kind {
                        EntryKind::Directory => {
                            let next_path = match join_child(self.current_path.as_str(), entry.name.as_str()) {
                                Some(p) => p,
                                None => return ControllerCommand::Nothing,
                            };
                            self.current_path = next_path.clone();
                            self.browser = PagedBrowser::new(self.page_size);
                            ControllerCommand::LoadDirectory {
                                path: next_path,
                                page_start: 0,
                                selected: 0,
                                refresh: BrowserRefresh::Fast,
                            }
                        },
                        EntryKind::Epub => {
                            self.reader_entry = Some(entry.clone());
                            ControllerCommand::OpenEpub { path: self.current_path.clone(), entry }
                        },
                        EntryKind::Other => ControllerCommand::Nothing,
                    }
                } else if button == RawButton::Confirm {
                    let parent = match parent_of(self.current_path.as_str()) {
                        Some(p) => p,
                        None => return ControllerCommand::Nothing,
                    };
                    self.current_path = parent.clone();
                    self.browser = PagedBrowser::new(self.page_size);
                    ControllerCommand::LoadDirectory {
                        path: parent,
                        page_start: 0,
                        selected: 0,
                        refresh: BrowserRefresh::Fast,
                    }
                } else {
                    ControllerCommand::Nothing
                }
            },
            ScreenMode::Reading => {
                if left || right {
                    let entry = match &self.reader_entry {
                        Some(e) => e.clone(),
                        None => return ControllerCommand::Nothing,
                    };
                    self.reader_page = if right {
                        self.reader_page.saturating_add(1)
                    } else {
                        self.reader_page.saturating_sub(1)
                    };
                    ControllerCommand::RenderReaderPage {
                        path: self.current_path.clone(),
                        entry,
                        target_page: self.reader_page,
                        fast: true,
                    }
                } else if button == RawButton::Back {
                    self.screen_mode = ScreenMode::Browse;
                    ControllerCommand::RenderBrowser { refresh: BrowserRefresh::Fast }
                } else if button == RawButton::Confirm {
                    let entry = match &self.reader_entry {
                        Some(e) => e.clone(),
                        None => return ControllerCommand::Nothing,
                    };
                    self.screen_mode = ScreenMode::Toc;
                    let chapter = self.reader_chapter_index;
                    let size = self.page_size;
                    assert((chapter / size) * size <= chapter) by (nonlinear_arith)
                        requires
                            size > 0,
                    ;
                    let page_start = (chapter / size) * size;
                    ControllerCommand::LoadToc {
                        path: self.current_path.clone(),
                        entry,
                        page_start,
                        selected: self.reader_chapter_index % self.page_size,
                        refresh: BrowserRefresh::Fast,
                    }
                } else {
                    ControllerCommand::Nothing
                }
            },
            ScreenMode::Toc => {
                if left || right {
                    let input = if left { BrowserInput::Left } else { BrowserInput::Right };
                    self.handle_toc_navigation(input, page_len, page_info)
                } else if button == RawButton::Back {
                    self.screen_mode = ScreenMode::Reading;
                    ControllerCommand::RenderReaderPage {
                        path: self.current_path.clone(),
                        entry: self.reader_entry_or_unnamed(),
                        target_page: self.reader_page,
                        fast: true,
                    }
                } else if button == RawButton::Confirm {
                    let entry = match &self.reader_entry {
                        Some(e) => e.clone(),
                        None => return ControllerCommand::Nothing,
                    };
                    let selected = match self.toc_browser.selected_index(page_len) {
                        Some(s) => s,
                        None => return ControllerCommand::Nothing,
                    };
                    self.screen_mode = ScreenMode::Reading;
                    self.reader_chapter_index = page_info.page_start.saturating_add(selected);
                    ControllerCommand::JumpToChapter {
                        path: self.current_path.clone(),
                        entry,
                        chapter_index: self.reader_chapter_index,
                    }
                } else {
                    ControllerCommand::Nothing
                }
            },
        }
    }

    /// The book being read, or an unnamed EPUB when none is.
    fn reader_entry_or_unnamed(&self) -> (r: UiEntry)
        ensures
            r@ == (match self@.reader_entry {
                Some(e) => e,
                None => unnamed_epub(),
            }),
    {
        match &self.reader_entry {
            Some(e) => e.clone(),
            None => UiEntry { name: String::new(), kind: EntryKind::Epub },
        }
    }

    fn handle_browse_navigation(&mut self, input: BrowserInput, page_len: usize, page_info: DirectoryPageInfo) -> (r:
        ControllerCommand)
        requires
            input == BrowserInput::Left || input == BrowserInput::Right,
        ensures
            ({
                let (b, act) = paged_handle(old(self)@.browser, input, page_len as nat, page_info.has_prev, page_info.has_next);
                let w = ControllerView { browser: b, ..old(self)@ };
                final(self)@ == w && r@ == browse_command(w, act)
            }),
    {
        match self.browser.handle(input, page_len, page_info.has_prev, page_info.has_next) {
            PagedAction::Nothing => ControllerCommand::Nothing,
            PagedAction::Redraw => ControllerCommand::RenderBrowser { refresh: BrowserRefresh::Fast },
            PagedAction::LoadPage { page_start, selected } => ControllerCommand::LoadDirectory {
                path: self.current_path.clone(),
                page_start,
                selected,
                refresh: BrowserRefresh::Fast,
            },
            PagedAction::OpenSelected(_) => ControllerCommand::Nothing,
        }
    }

    fn handle_toc_navigation(&mut self, input: BrowserInput, page_len: usize, page_info: DirectoryPageInfo) -> (r:
        ControllerCommand)
        requires
            input == BrowserInput::Left || input == BrowserInput::Right,
        ensures
            ({
                let (b, act) = paged_handle(old(self)@.toc_browser, input, page_len as nat, page_info.has_prev, page_info.has_next);
                (final(self)@, r@) == toc_step(ControllerView { toc_browser: b, ..old(self)@ }, act)
            }),
    {
        match self.toc_browser.handle(input, page_len, page_info.has_prev, page_info.has_next) {
            PagedAction::Nothing => ControllerCommand::Nothing,
            PagedAction::Redraw => ControllerCommand::RenderToc { refresh: BrowserRefresh::Fast },
            PagedAction::LoadPage { page_start, selected } => ControllerCommand::LoadToc {
                path: self.current_path.clone(),
                entry: self.reader_entry_or_unnamed(),
                page_start,
                selected,
                refresh: BrowserRefresh::Fast,
            },
            PagedAction::OpenSelected(index) => {
                let entry = match &self.reader_entry {
                    Some(e) => e.clone(),
                    None => return ControllerCommand::Nothing,
                };
                self.screen_mode = ScreenMode::Reading;
                self.reader_chapter_index = index;
                ControllerCommand::JumpToChapter { path: self.current_path.clone(), entry, chapter_index: index }
            },
        }
    }
}

/// Entering a subdirectory and then going up returns to the directory: for a
/// path without a trailing `/` (or the root) and a name without `/`.
pub proof fn law_enter_then_parent(p: Seq<char>, name: Seq<char>)
    requires
        p == seq!['/'] || (p.len() > 0 && p.last() != '/'),
        name.len() > 0,
        forall|i: int| 0 <= i < name.len() ==> name[i] != '/',
        child_path(p, name) is Some,
    ensures
        parent_path_spec(child_path(p, name)->0) == Some(p),
{
    let pt = trim_end_slashes(p);
    if p == seq!['/'] {
        assert(p.drop_last() =~= Seq::<char>::empty());
        assert(trim_end_slashes(Seq::<char>::empty()) == Seq::<char>::empty());
        assert(pt =~= Seq::<char>::empty());
    } else {
        assert(pt == p);
    }
    let base = if pt.len() == 0 { seq!['/'] } else { pt.push('/') };
    assert(trim_start_slashes(name) == name);
    let c = child_path(p, name)->0;
    assert(c =~= base + name);
    lemma_last_slash_after(base, name, c.len() as int);
    assert(last_slash_before(c, c.len() as int) == base.len() - 1);
    assert(c != seq!['/']) by {
        assert(c.len() >= 2);
    }
    if pt.len() > 0 {
        assert(c.subrange(0, base.len() - 1) =~= p);
    }
}

proof fn lemma_last_slash_after(base: Seq<char>, name: Seq<char>, j: int)
    requires
        base.len() > 0,
        base.last() == '/',
        forall|i: int| 0 <= i < name.len() ==> name[i] != '/',
        base.len() <= j <= base.len() + name.len(),
    ensures
        last_slash_before(base + name, j) == base.len() - 1,
    decreases j,
{
    let c = base + name;
    if j > base.len() {
        assert(c[j - 1] == name[j - 1 - base.len()]);
        lemma_last_slash_after(base, name, j - 1);
    } else {
        assert(c[j - 1] == base.last());
    }
}

/// Turning a page forward and then back shows the same page again, below the
/// largest page number.
pub proof fn law_next_then_previous_page(v: ControllerView, info: DirectoryPageInfo, page_len: nat)
    requires
        v.screen_mode == ScreenMode::Reading,
        v.reader_entry is Some,
        v.reader_page < usize::MAX,
    ensures
        ({
            let (w, _) = controller_step(v, RawButton::Right, page_len, info, None);
            let (x, _) = controller_step(w, RawButton::Left, page_len, info, None);
            x == v
        }),
{
}

/// Leaving the reader for the browser keeps the book and its page, and the
/// contents screen returns to the same page.
pub proof fn law_reader_state_survives_other_screens(v: ControllerView, info: DirectoryPageInfo, page_len: nat)
    requires
        v.screen_mode == ScreenMode::Reading,
        v.reader_entry is Some,
        v.page_size > 0,
    ensures
        ({
            let (w, _) = controller_step(v, RawButton::Back, page_len, info, None);
            &&& w.reader_entry == v.reader_entry
            &&& w.reader_page == v.reader_page
            &&& w.screen_mode == ScreenMode::Browse
        }),
        ({
            let (t, _) = controller_step(v, RawButton::Confirm, page_len, info, None);
            let (u, cmd) = controller_step(t, RawButton::Back, page_len, info, None);
            &&& u == v
            &&& cmd == CommandView::RenderReaderPage {
                path: v.current_path,
                entry: v.reader_entry->0,
                target_page: v.reader_page,
                fast: true,
            }
        }),
{
}

/// `child` inside `parent`, joined by one `/`.
fn join_child(parent: &str, child: &str) -> (r: Option<String>)
    ensures
        match r {
            Some(s) => child_path(parent@, child@) == Some(s@),
            None => child_path(parent@, child@) is None,
        },
{
    proof {
        lemma_slash_literal();
    }
    let pt = trim_end_slashes_str(parent);
    let mut path: String;
    if pt.unicode_len() == 0 {
        path = "/".to_owned();
    } else {
        let n = pt.as_bytes().len();
        if n > PATH_CAPACITY || n + 1 > PATH_CAPACITY {
            return None;
        }
        path = pt.to_owned();
        path.append("/");
        assert(path@ =~= pt@.push('/'));
    }
    let ct = trim_start_slashes_str(child);
    let used = path.as_str().as_bytes().len();
    if used > PATH_CAPACITY || ct.as_bytes().len() > PATH_CAPACITY - used {
        return None;
    }
    let ghost base = path@;
    path.append(ct);
    assert(path@ =~= base + ct@);
    Some(path)
}

/// The directory above `path`.
fn parent_of(path: &str) -> (r: Option<String>)
    ensures
        match r {
            Some(s) => parent_path_spec(path@) == Some(s@),
            None => parent_path_spec(path@) is None,
        },
{
    proof {
        lemma_slash_literal();
    }
    if path.unicode_len() == 1 && path.get_char(0) == '/' {
        assert(path@ =~= seq!['/']);
        return None;
    }
    let n = path.unicode_len();
    let mut j = n;
    while j > 0 && path.get_char(j - 1) != '/'
        invariant
            j <= n,
            n == path@.len(),
            last_slash_before(path@, n as int) == last_slash_before(path@, j as int),
        decreases j,
    {
        j -= 1;
    }
    assert(path@ != seq!['/']);
    if j == 0 {
        return None;
    }
    let k = j - 1;
    if k == 0 {
        return Some("/".to_owned());
    }
    let prefix = path.substring_char(0, k);
    if prefix.as_bytes().len() > PATH_CAPACITY {
        return Some(String::new());
    }
    Some(prefix.to_owned())
}

} // verus!
