use xteink::browser::EntryKind;
use xteink::fs::{
    is_epub_label, join_child_path, listed_entry_from_parts, normalize_path, FsError, PathError,
};

#[test]
fn recognizes_epub_labels_case_insensitively() {
    assert!(is_epub_label("BOOK.EPUB"));
    assert!(is_epub_label("book.EpUb"));
    assert!(!is_epub_label("book.txt"));
}

#[test]
fn path_joins_root_children() {
    assert_eq!(join_child_path("/", "books").unwrap().as_str(), "/books");
}

#[test]
fn path_joins_nested_children() {
    assert_eq!(
        join_child_path("/books", "chapter.epub").unwrap().as_str(),
        "/books/chapter.epub"
    );
}

#[test]
fn path_strips_duplicate_slashes() {
    assert_eq!(
        join_child_path("/books/", "/chapter.epub").unwrap().as_str(),
        "/books/chapter.epub"
    );
}

#[test]
fn normalizes_current_directory_segments() {
    assert_eq!(
        normalize_path("/MYBOOKS/./WHEN_I~1.EPU").unwrap().as_str(),
        "/MYBOOKS/WHEN_I~1.EPU"
    );
}

#[test]
fn normalizes_parent_directory_segments() {
    assert_eq!(
        normalize_path("/MYBOOKS/CH1/../WHEN_I~1.EPU").unwrap().as_str(),
        "/MYBOOKS/WHEN_I~1.EPU"
    );
}

#[test]
fn normalizes_current_directory_segments_before_opening() {
    let normalized = normalize_path("/MYBOOKS/./WHEN_I~1.EPU").unwrap();

    assert_eq!(normalized.as_str(), "/MYBOOKS/WHEN_I~1.EPU");
}

#[test]
fn classifies_directories_from_name_and_flag() {
    let listed = listed_entry_from_parts("BOOKS", "BOOKS", true).unwrap();

    assert_eq!(listed.kind, EntryKind::Directory);
    assert_eq!(listed.label.as_str(), "BOOKS");
    assert_eq!(listed.fs_name.as_str(), "BOOKS");
}

#[test]
fn classifies_epubs_by_extension() {
    let listed = listed_entry_from_parts("story.epub", "STORY.EPUB", false).unwrap();

    assert_eq!(listed.kind, EntryKind::Epub);
    assert_eq!(listed.label.as_str(), "story.epub");
    assert_eq!(listed.fs_name.as_str(), "STORY.EPUB");
}

#[test]
fn normalization_stays_at_the_root_and_handles_relative_paths() {
    assert_eq!(normalize_path("/../..").unwrap(), "/");
    assert_eq!(normalize_path("").unwrap(), "/");
    assert_eq!(normalize_path("//a//b/").unwrap(), "/a/b");
    assert_eq!(normalize_path("a/b/..").unwrap(), "a");
    assert_eq!(normalize_path("/a/..").unwrap(), "/");
}

#[test]
fn long_paths_are_refused() {
    let long = "x".repeat(300);
    assert_eq!(normalize_path(&long), Err(PathError::TooLong));
    assert_eq!(join_child_path("/", &long), Err(PathError::TooLong));
    let exact = "y".repeat(255);
    assert_eq!(join_child_path("/", &exact).unwrap().len(), 256);
    assert_eq!(join_child_path("books", "a").unwrap(), "/books/a");
}

#[test]
fn entries_classify_by_either_name_and_refuse_long_names() {
    let listed = listed_entry_from_parts("My Book", "MYBOOK~1.EPUB", false).unwrap();
    assert_eq!(listed.kind, EntryKind::Epub);
    let other = listed_entry_from_parts("notes.txt", "NOTES.TXT", false).unwrap();
    assert_eq!(other.kind, EntryKind::Other);
    assert!(!is_epub_label("epub"));
    assert!(!is_epub_label("a.epub.txt"));
    assert!(is_epub_label(".epub"));
    let long = "z".repeat(97);
    assert_eq!(
        listed_entry_from_parts(&long, "Z", false).err(),
        Some(FsError::TooManyEntries)
    );
}
