use xteink::fs::PathError;
use xteink::sd_path::join_child_path;

#[test]
fn sd_path_joins_root_children() {
    assert_eq!(join_child_path("/", "books").unwrap().as_str(), "/books");
}

#[test]
fn sd_path_joins_nested_children() {
    assert_eq!(
        join_child_path("/books", "chapter.epub").unwrap().as_str(),
        "/books/chapter.epub"
    );
}

#[test]
fn sd_path_strips_duplicate_slashes() {
    assert_eq!(
        join_child_path("/books/", "/chapter.epub").unwrap().as_str(),
        "/books/chapter.epub"
    );
}

#[test]
fn sd_path_makes_relative_parents_absolute_without_normalizing() {
    assert_eq!(join_child_path("books", "a.epub").unwrap(), "/books/a.epub");
    assert_eq!(join_child_path("/books/./x", "..").unwrap(), "/books/./x/..");
    assert_eq!(join_child_path("", "a").unwrap(), "//a");
}

#[test]
fn sd_path_refuses_paths_beyond_the_capacity() {
    let long = "n".repeat(300);
    assert_eq!(join_child_path("/", &long), Err(PathError::TooLong));
}
