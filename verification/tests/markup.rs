use xteink::epub::{parse_tag_start, parse_text, EpubEvent, ParserState, Tag};

fn open_tag(name_start: usize, name_end: usize) -> Tag {
    Tag {
        name_start,
        name_end,
        attrs_start: name_end,
        attrs_end: name_end,
        is_end: false,
        is_self_closing: false,
    }
}

#[test]
fn plain_word_run_is_read_up_to_the_next_tag() {
    let data = b"Hello<b>";
    let mut state = ParserState::default();
    let mut out = [0u8; 16];
    let result = parse_text(data, &mut state, &mut out);
    assert_eq!(result, Ok(Some(String::from("Hello"))));
    assert_eq!(state.cursor, 5);
}

#[test]
fn paragraph_tag_starts_a_paragraph_once() {
    let data = b"<p>";
    let mut state = ParserState::default();
    let mut text_buf = [0u8; 80];
    let first = parse_tag_start(data, open_tag(1, 2), &mut state, b"", &mut text_buf);
    assert!(matches!(first, Ok(Some(EpubEvent::ParagraphStart))));
    assert!(state.in_paragraph);
    let second = parse_tag_start(data, open_tag(1, 2), &mut state, b"", &mut text_buf);
    assert!(matches!(second, Ok(None)));
}

#[test]
fn unordered_list_item_is_a_bullet() {
    let data = b"<ul><li>";
    let mut state = ParserState::default();
    let mut text_buf = [0u8; 80];
    assert!(matches!(parse_tag_start(data, open_tag(1, 3), &mut state, b"", &mut text_buf), Ok(None)));
    assert_eq!(state.list_depth, 1);
    let item = parse_tag_start(data, open_tag(5, 7), &mut state, b"", &mut text_buf);
    match item {
        Ok(Some(EpubEvent::Text(t))) => assert_eq!(t, "- "),
        other => panic!("unexpected {:?}", other),
    }
}

#[test]
fn head_is_ignored_with_its_content() {
    let data = b"<head>";
    let mut state = ParserState::default();
    let mut text_buf = [0u8; 80];
    assert!(matches!(parse_tag_start(data, open_tag(1, 5), &mut state, b"", &mut text_buf), Ok(None)));
    assert_eq!(state.ignore_depth, 1);
}
