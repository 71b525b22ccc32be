use xteink::host::{
    display_label, listed_before, page_window, short_component_name, shown_in_listing, stable_name_hash,
};

fn fnv1a(bytes: &[u8]) -> u32 {
    let mut hash = 0x811C_9DC5u32;
    for b in bytes {
        hash ^= u32::from(*b);
        hash = hash.wrapping_mul(0x0100_0193);
    }
    hash
}

#[test]
fn name_hash_is_fnv1a() {
    assert_eq!(stable_name_hash(""), 0x811C_9DC5);
    assert_eq!(stable_name_hash("a"), 0xE40C_292C);
    assert_eq!(stable_name_hash("Books"), fnv1a(b"Books"));
}

#[test]
fn short_names_carry_hash_digits_and_extension() {
    let h = fnv1a(b"story.epub") & 0x0FFF_FFFF;
    assert_eq!(short_component_name("story.epub", false), format!("F{h:07X}.EPUB"));
    let d = fnv1a(b"My Books") & 0x0FFF_FFFF;
    assert_eq!(short_component_name("My Books", true), format!("D{d:07X}"));
    let n = fnv1a(b"README") & 0x0FFF_FFFF;
    assert_eq!(short_component_name("README", false), format!("F{n:07X}"));
    let x = fnv1a(b"a.b-c_defghijkl") & 0x0FFF_FFFF;
    assert_eq!(short_component_name("a.b-c_defghijkl", false), format!("F{x:07X}.BCDEFGHI"));
    let y = fnv1a(b"odd.--") & 0x0FFF_FFFF;
    assert_eq!(short_component_name("odd.--", false), format!("F{y:07X}"));
}

#[test]
fn labels_keep_the_characters_that_fit() {
    assert_eq!(display_label(&"a".repeat(100)), "a".repeat(96));
    assert_eq!(display_label(&"é".repeat(50)), "é".repeat(48));
    assert_eq!(display_label("short.epub"), "short.epub");
}

#[test]
fn directories_come_first_then_names_in_byte_order() {
    assert!(listed_before(true, b"z", false, b"a"));
    assert!(!listed_before(false, b"a", true, b"z"));
    assert!(listed_before(false, b"a", false, b"b"));
    assert!(listed_before(false, b"a", false, b"ab"));
    assert!(!listed_before(false, b"ab", false, b"ab"));
    assert!(!listed_before(false, b"b", false, b"a"));
}

#[test]
fn hidden_names_are_left_out() {
    assert!(!shown_in_listing(".hidden"));
    assert!(shown_in_listing("visible"));
}

#[test]
fn page_windows_are_clamped() {
    assert_eq!(page_window(10, 4, 3), (4, 7));
    assert_eq!(page_window(10, 20, 3), (10, 10));
    assert_eq!(page_window(5, 0, 100), (0, 5));
    assert_eq!(page_window(100, 0, 100), (0, 24));
    assert_eq!(page_window(5, 1, 0), (1, 2));
}
