use xteink::browser::{Action, Browser, Entry, EntryKind, Input, PagedAction, PagedBrowser};

const ENTRIES: &[Entry<'_>] = &[
    Entry {
        name: "books",
        kind: EntryKind::Directory,
    },
    Entry {
        name: "novel.epub",
        kind: EntryKind::Epub,
    },
    Entry {
        name: "notes.txt",
        kind: EntryKind::Other,
    },
];

#[test]
fn left_and_right_stay_within_bounds() {
    let mut browser = Browser::new();

    assert_eq!(browser.selected_index(ENTRIES.len()), Some(0));
    assert_eq!(browser.handle(Input::Left, ENTRIES.len()), Action::Nothing);
    assert_eq!(browser.selected_index(ENTRIES.len()), Some(0));

    assert_eq!(browser.handle(Input::Right, ENTRIES.len()), Action::Nothing);
    assert_eq!(browser.selected_index(ENTRIES.len()), Some(1));
    assert_eq!(browser.handle(Input::Right, ENTRIES.len()), Action::Nothing);
    assert_eq!(browser.selected_index(ENTRIES.len()), Some(2));
    assert_eq!(browser.handle(Input::Right, ENTRIES.len()), Action::Nothing);
    assert_eq!(browser.selected_index(ENTRIES.len()), Some(2));
}

#[test]
fn down_returns_the_selected_entry() {
    let mut browser = Browser::new();

    assert_eq!(browser.handle(Input::Down, ENTRIES.len()), Action::Selected(0));
    assert_eq!(browser.handle(Input::Right, ENTRIES.len()), Action::Nothing);
    assert_eq!(browser.handle(Input::Down, ENTRIES.len()), Action::Selected(1));
}

#[test]
fn empty_entries_are_safe() {
    let mut browser = Browser::new();

    assert_eq!(browser.selected_index(0), None);
    assert_eq!(browser.selected_entry(&[]), None);
    assert_eq!(browser.handle(Input::Left, 0), Action::Nothing);
    assert_eq!(browser.handle(Input::Right, 0), Action::Nothing);
    assert_eq!(browser.handle(Input::Down, 0), Action::Nothing);
}

#[test]
fn paged_browser_moves_within_page_and_pages_when_needed() {
    let mut browser = PagedBrowser::new(3);
    browser.set_page(0, 3, 0);

    assert_eq!(browser.handle(Input::Right, 3, false, true), PagedAction::Redraw);
    assert_eq!(browser.selected_index(3), Some(1));
    assert_eq!(browser.handle(Input::Right, 3, false, true), PagedAction::Redraw);
    assert_eq!(browser.selected_index(3), Some(2));
    assert_eq!(
        browser.handle(Input::Right, 3, false, true),
        PagedAction::LoadPage {
            page_start: 3,
            selected: 0
        }
    );
}

#[test]
fn paged_browser_pages_back_when_moving_left_from_top() {
    let mut browser = PagedBrowser::new(3);
    browser.set_page(3, 3, 0);

    assert_eq!(
        browser.handle(Input::Left, 3, true, true),
        PagedAction::LoadPage {
            page_start: 0,
            selected: 2
        }
    );
}

#[test]
fn paged_browser_pages_up_with_up_button() {
    let mut browser = PagedBrowser::new(3);
    browser.set_page(3, 3, 1);

    assert_eq!(
        browser.handle(Input::Up, 3, true, true),
        PagedAction::LoadPage {
            page_start: 0,
            selected: 2
        }
    );
}

#[test]
fn paged_browser_opens_selected_global_index() {
    let mut browser = PagedBrowser::new(3);
    browser.set_page(6, 3, 1);

    assert_eq!(browser.handle(Input::Down, 3, true, true), PagedAction::OpenSelected(7));
}

#[test]
fn entry_kinds_are_distinguishable() {
    assert_eq!(ENTRIES[0].kind, EntryKind::Directory);
    assert_eq!(ENTRIES[1].kind, EntryKind::Epub);
    assert_eq!(ENTRIES[2].kind, EntryKind::Other);
}

#[test]
fn selected_entry_follows_the_cursor() {
    let mut browser = Browser::new();
    assert_eq!(browser.selected_entry(ENTRIES), Some(&ENTRIES[0]));
    browser.handle(Input::Right, ENTRIES.len());
    assert_eq!(browser.selected_entry(ENTRIES), Some(&ENTRIES[1]));
}

#[test]
fn paged_browser_edges_without_neighbouring_pages_do_nothing() {
    let mut browser = PagedBrowser::new(3);
    browser.set_page(0, 2, 0);
    assert_eq!(browser.handle(Input::Left, 2, false, false), PagedAction::Nothing);
    assert_eq!(browser.handle(Input::Right, 2, false, false), PagedAction::Redraw);
    assert_eq!(browser.handle(Input::Right, 2, false, false), PagedAction::Nothing);
    assert_eq!(browser.selected_index(2), Some(1));
    assert_eq!(browser.page_start(), 0);
    assert_eq!(browser.handle(Input::Down, 0, false, false), PagedAction::Nothing);
}
