use xteink::title::{append_normalized_title_text, BufferedChapterEvent, DuplicateTitleProbe};

fn normalized(text: &str) -> String {
    let mut out = Vec::new();
    append_normalized_title_text(&mut out, text);
    out.into_iter().collect()
}

#[test]
fn normalizing_lowercases_and_collapses_separators() {
    assert_eq!(normalized("Chapter One: The Beginning"), "chapter one the beginning");
    assert_eq!(normalized("  --Part  II--  "), "part ii");
    assert_eq!(normalized("Élan vital"), "Élan vital");
    assert_eq!(normalized("***"), "");
}

#[test]
fn normalizing_stops_at_the_title_capacity() {
    let long = "ab ".repeat(60);
    let out = normalized(&long);
    assert!(out.len() <= 96);
    assert!(out.starts_with("ab ab"));
}

#[test]
fn repeated_title_is_recognised_when_its_paragraph_ends() {
    let mut probe = DuplicateTitleProbe::new("Chapter 1: Beginnings");
    assert!(probe.is_empty());
    assert!(probe.push_text("CHAPTER 1"));
    assert!(!probe.is_complete());
    assert!(probe.push_text(" — Beginnings"));
    assert!(probe.push_break(true));
    assert!(probe.is_complete());
    assert_eq!(probe.buffered.len(), 3);
}

#[test]
fn departing_text_stops_matching_and_keeps_the_events() {
    let mut probe = DuplicateTitleProbe::new("Prologue");
    assert!(probe.push_text("Pro"));
    assert!(!probe.push_text("mise me"));
    let held = probe.take_buffered();
    assert_eq!(held.len(), 2);
    assert!(matches!(&held[0], BufferedChapterEvent::Text(t) if t == "Pro"));
    assert!(matches!(&held[1], BufferedChapterEvent::Text(t) if t == "mise me"));
    assert!(probe.buffered.is_empty());
}

#[test]
fn a_line_break_separates_words() {
    let mut probe = DuplicateTitleProbe::new("Part Two");
    assert!(probe.push_text("Part"));
    assert!(probe.push_break(false));
    assert!(probe.push_text("Two"));
    assert!(probe.push_break(true));
    assert!(probe.is_complete());
    assert!(matches!(probe.buffered[1], BufferedChapterEvent::LineBreak));
    assert!(matches!(probe.buffered[3], BufferedChapterEvent::ParagraphBreak));
}

#[test]
fn at_most_twelve_events_are_held_and_long_chunks_are_held_empty() {
    let mut probe = DuplicateTitleProbe::new("a b c d e f g h i j k l m n");
    for word in ["a", "b", "c", "d", "e", "f", "g", "h", "i", "j", "k", "l", "m"] {
        probe.push_text(word);
        probe.push_break(false);
    }
    assert_eq!(probe.buffered.len(), 12);

    let mut long = DuplicateTitleProbe::new("x");
    long.push_text(&"y".repeat(97));
    assert!(matches!(&long.buffered[0], BufferedChapterEvent::Text(t) if t.is_empty()));
}
