use xteink::browser::EntryKind;
use xteink::buttons::Button as RawButton;
use xteink::controller::{AppController, BrowserRefresh, ControllerCommand, ScreenMode, UiEntry};
use xteink::fs::DirectoryPageInfo;

fn entry(name: &str, kind: EntryKind) -> UiEntry {
    UiEntry {
        name: name.to_string(),
        kind,
    }
}

fn directory_entry(name: &str) -> UiEntry {
    entry(name, EntryKind::Directory)
}

fn epub_entry(name: &str) -> UiEntry {
    entry(name, EntryKind::Epub)
}

fn first_page() -> DirectoryPageInfo {
    DirectoryPageInfo {
        page_start: 0,
        has_prev: false,
        has_next: false,
    }
}

#[test]
fn browse_back_button_on_directory_requests_full_reload_for_child_path() {
    let mut controller = AppController::new(7);
    let entries = [directory_entry("books")];

    let command = controller.handle_button(RawButton::Back, &entries, first_page());

    assert_eq!(
        command,
        ControllerCommand::LoadDirectory {
            path: "/books".to_string(),
            page_start: 0,
            selected: 0,
            refresh: BrowserRefresh::Fast,
        }
    );
    assert_eq!(controller.current_path(), "/books");
    assert_eq!(controller.screen_mode(), ScreenMode::Browse);
    assert_eq!(controller.browser().page_start(), 0);
    assert_eq!(controller.browser().selected_index(1), Some(0));
}

#[test]
fn confirm_button_moves_to_parent_directory_with_full_reload() {
    let mut controller = AppController::new(7);
    controller.handle_button(RawButton::Back, &[directory_entry("books")], first_page());
    controller.handle_button(RawButton::Back, &[directory_entry("fiction")], first_page());
    assert_eq!(controller.current_path(), "/books/fiction");

    let command = controller.handle_button(RawButton::Confirm, &[], first_page());

    assert_eq!(
        command,
        ControllerCommand::LoadDirectory {
            path: "/books".to_string(),
            page_start: 0,
            selected: 0,
            refresh: BrowserRefresh::Fast,
        }
    );
    assert_eq!(controller.current_path(), "/books");
}

#[test]
fn back_button_on_epub_requests_open_epub_and_preserves_browse_mode_until_result() {
    let mut controller = AppController::new(7);
    let entries = [epub_entry("novel.epub")];

    let command = controller.handle_button(RawButton::Back, &entries, first_page());

    assert_eq!(
        command,
        ControllerCommand::OpenEpub {
            path: "/".to_string(),
            entry: epub_entry("novel.epub"),
        }
    );
    assert_eq!(controller.screen_mode(), ScreenMode::Browse);
}

#[test]
fn apply_epub_opened_switches_to_reading_and_tracks_rendered_page() {
    let mut controller = AppController::new(7);
    let entries = [epub_entry("novel.epub")];
    let _ = controller.handle_button(RawButton::Back, &entries, first_page());

    controller.apply_epub_opened(3);

    assert_eq!(controller.screen_mode(), ScreenMode::Reading);
    assert_eq!(controller.reader_page(), 3);
}

#[test]
fn reading_right_requests_next_page_render() {
    let mut controller = AppController::new(7);
    let entries = [epub_entry("novel.epub")];
    let _ = controller.handle_button(RawButton::Back, &entries, first_page());
    controller.apply_epub_opened(3);

    let command = controller.handle_button(RawButton::Right, &[], first_page());

    assert_eq!(
        command,
        ControllerCommand::RenderReaderPage {
            path: "/".to_string(),
            entry: epub_entry("novel.epub"),
            target_page: 4,
            fast: true,
        }
    );
    assert_eq!(controller.reader_page(), 4);
}

#[test]
fn reading_back_returns_to_browser_with_full_refresh() {
    let mut controller = AppController::new(7);
    let entries = [epub_entry("novel.epub")];
    let _ = controller.handle_button(RawButton::Back, &entries, first_page());
    controller.apply_epub_opened(1);

    let command = controller.handle_button(RawButton::Back, &[], first_page());

    assert_eq!(
        command,
        ControllerCommand::RenderBrowser {
            refresh: BrowserRefresh::Fast,
        }
    );
    assert_eq!(controller.screen_mode(), ScreenMode::Browse);
}

#[test]
fn browse_right_moves_selection_and_requests_fast_render() {
    let mut controller = AppController::new(3);
    let entries = [directory_entry("books"), epub_entry("novel.epub")];

    let command = controller.handle_button(RawButton::Right, &entries, first_page());

    assert_eq!(
        command,
        ControllerCommand::RenderBrowser {
            refresh: BrowserRefresh::Fast,
        }
    );
    assert_eq!(controller.browser().selected_index(entries.len()), Some(1));
}

#[test]
fn browse_right_at_page_end_requests_next_page_load() {
    let mut controller = AppController::new(3);
    let entries = [
        directory_entry("books"),
        epub_entry("novel.epub"),
        directory_entry("notes"),
    ];
    let more = DirectoryPageInfo {
        page_start: 0,
        has_prev: false,
        has_next: true,
    };
    let _ = controller.handle_button(RawButton::Right, &entries, more);
    let _ = controller.handle_button(RawButton::Right, &entries, more);

    let command = controller.handle_button(RawButton::Right, &entries, more);

    assert_eq!(
        command,
        ControllerCommand::LoadDirectory {
            path: "/".to_string(),
            page_start: 3,
            selected: 0,
            refresh: BrowserRefresh::Fast,
        }
    );
}

#[test]
fn reading_confirm_opens_toc_at_current_chapter() {
    let mut controller = AppController::new(3);
    let entries = [epub_entry("novel.epub")];
    let _ = controller.handle_button(RawButton::Back, &entries, first_page());
    controller.apply_epub_opened(5);
    controller.apply_reader_chapter_changed(4);

    let command = controller.handle_button(RawButton::Confirm, &[], first_page());

    assert_eq!(
        command,
        ControllerCommand::LoadToc {
            path: "/".to_string(),
            entry: epub_entry("novel.epub"),
            page_start: 3,
            selected: 1,
            refresh: BrowserRefresh::Fast,
        }
    );
    assert_eq!(controller.screen_mode(), ScreenMode::Toc);
}

#[test]
fn toc_confirm_jumps_to_selected_chapter_and_returns_to_reader() {
    let mut controller = AppController::new(3);
    let entries = [epub_entry("novel.epub")];
    let _ = controller.handle_button(RawButton::Back, &entries, first_page());
    controller.apply_epub_opened(0);
    controller.apply_reader_chapter_changed(0);
    let _ = controller.handle_button(RawButton::Confirm, &[], first_page());
    controller.apply_toc_loaded(0, 3, 0);
    let chapters = [
        epub_entry("Cover"),
        epub_entry("Introduction"),
        epub_entry("One"),
    ];

    let command = controller.handle_button(RawButton::Right, &chapters, first_page());

    assert_eq!(
        command,
        ControllerCommand::RenderToc {
            refresh: BrowserRefresh::Fast,
        }
    );

    let command = controller.handle_button(RawButton::Confirm, &chapters, first_page());

    assert_eq!(
        command,
        ControllerCommand::JumpToChapter {
            path: "/".to_string(),
            entry: epub_entry("novel.epub"),
            chapter_index: 1,
        }
    );
    assert_eq!(controller.screen_mode(), ScreenMode::Reading);
}

#[test]
fn root_has_no_parent_and_other_entries_do_nothing() {
    let mut controller = AppController::new(4);
    assert_eq!(
        controller.handle_button(RawButton::Confirm, &[], first_page()),
        ControllerCommand::Nothing
    );
    assert_eq!(
        controller.handle_button(RawButton::Back, &[entry("notes.txt", EntryKind::Other)], first_page()),
        ControllerCommand::Nothing
    );
    assert_eq!(
        controller.handle_button(RawButton::Power, &[], first_page()),
        ControllerCommand::Nothing
    );
    assert_eq!(controller.current_path(), "/");
}

#[test]
fn toc_back_returns_to_the_same_reader_page() {
    let mut controller = AppController::new(3);
    let _ = controller.handle_button(RawButton::Back, &[epub_entry("novel.epub")], first_page());
    controller.apply_epub_opened(2);
    let _ = controller.handle_button(RawButton::Confirm, &[], first_page());
    let command = controller.handle_button(RawButton::Back, &[], first_page());
    assert_eq!(
        command,
        ControllerCommand::RenderReaderPage {
            path: "/".to_string(),
            entry: epub_entry("novel.epub"),
            target_page: 2,
            fast: true,
        }
    );
    assert_eq!(controller.screen_mode(), ScreenMode::Reading);
}
