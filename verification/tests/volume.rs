use xteink::browser::EntryKind;
use xteink::fs::{listed_entry_from_parts, DirectoryPageInfo, FsError};
use xteink::volume::{
    listed_entry_from_dir_entry, path_components, push_listed_entry, short_file_name_to_string,
    split_parent_path, DirectoryPager,
};

#[test]
fn push_listed_entry_truncates_when_full() {
    let mut entries = Vec::new();
    let first = listed_entry_from_parts("one", "ONE", false).unwrap();
    let second = listed_entry_from_parts("two", "TWO", false).unwrap();

    assert!(push_listed_entry(&mut entries, 1, first).is_some());
    assert!(push_listed_entry(&mut entries, 1, second).is_none());
    assert_eq!(entries.len(), 1);
    assert_eq!(entries[0].label.as_str(), "one");
    assert_eq!(entries[0].fs_name.as_str(), "ONE");
}

#[test]
fn path_components_ignore_current_directory_segments() {
    let components = path_components("/MYBOOKS/./WHEN_I~1.EPU");

    assert_eq!(components.as_slice(), &["MYBOOKS", "WHEN_I~1.EPU"]);
}

#[test]
fn path_components_of_the_root_are_empty() {
    assert!(path_components("/").is_empty());
    assert!(path_components("").is_empty());
    assert_eq!(path_components("a//b/"), vec!["a", "b"]);
    assert_eq!(path_components("../x"), vec!["..", "x"]);
}

#[test]
fn file_paths_split_into_directory_and_name() {
    assert_eq!(split_parent_path("/BOOKS/A.EPU").unwrap(), ("/BOOKS", "A.EPU"));
    assert_eq!(split_parent_path("/A.EPU").unwrap(), ("/", "A.EPU"));
    assert_eq!(split_parent_path("/BOOKS/A.EPU//").unwrap(), ("/BOOKS", "A.EPU"));
    assert!(matches!(split_parent_path("A.EPU"), Err(FsError::OpenFailed(m)) if m == "missing path component"));
    assert!(matches!(split_parent_path("/"), Err(FsError::OpenFailed(_))));
}

#[test]
fn short_names_join_base_and_extension() {
    assert_eq!(short_file_name_to_string(b"STORY", b"EPU").unwrap(), "STORY.EPU");
    assert_eq!(short_file_name_to_string(b"BOOKS", b"").unwrap(), "BOOKS");
    assert_eq!(short_file_name_to_string(&[0xFF], b"TXT"), Err(FsError::InvalidUtf8));
}

#[test]
fn directory_entries_prefer_their_long_names() {
    let entry = listed_entry_from_dir_entry(b"STORY~1", b"EPU", Some("story.epub"), false).unwrap();
    assert_eq!(entry.label, "story.epub");
    assert_eq!(entry.fs_name, "STORY~1.EPU");
    assert_eq!(entry.kind, EntryKind::Epub);

    let dir = listed_entry_from_dir_entry(b"BOOKS", b"", None, true).unwrap();
    assert_eq!(dir.label, "BOOKS");
    assert_eq!(dir.kind, EntryKind::Directory);

    let long = "x".repeat(97);
    assert_eq!(
        listed_entry_from_dir_entry(b"X", b"", Some(&long), false).unwrap_err(),
        FsError::TooManyEntries
    );
}

#[test]
fn pager_skips_collects_and_notices_more() {
    let mut pager = DirectoryPager::new(2, 2);
    let visits = [
        (true, true),
        (false, true),
        (false, true),
        (false, true),
        (false, false),
        (false, true),
        (false, true),
    ];
    let taken: Vec<bool> = visits.iter().map(|(lfn, ok)| pager.visit(*lfn, *ok)).collect();
    assert_eq!(taken, vec![false, false, false, true, false, true, false]);
    assert_eq!(
        pager.info(),
        DirectoryPageInfo {
            page_start: 2,
            has_prev: true,
            has_next: true,
        }
    );
}

#[test]
fn pager_holds_the_page_size_in_range() {
    assert_eq!(DirectoryPager::new(0, 0).page_size, 1);
    assert_eq!(DirectoryPager::new(0, 1000).page_size, 64);
    let mut pager = DirectoryPager::new(0, 8);
    assert!(pager.visit(false, true));
    assert!(!pager.info().has_prev);
    assert!(!pager.info().has_next);
}
