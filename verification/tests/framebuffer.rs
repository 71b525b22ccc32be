use xteink::framebuffer::{
    Framebuffer, DISPLAY_HEIGHT, DISPLAY_WIDTH, GRAY_LEVELS, SHADE_BLACK, SHADE_BUFFER_SIZE,
    SHADE_DARK, SHADE_LIGHT, SHADE_WHITE,
};

#[test]
fn framebuffer_starts_white_and_reports_shades() {
    let framebuffer = Framebuffer::new();

    assert_eq!(framebuffer.shade_storage().len(), SHADE_BUFFER_SIZE);
    assert!(
        framebuffer.shade_storage().iter().all(|byte| *byte == 0),
        "packed 2-bit white pixels should initialize to zero"
    );
    assert_eq!(framebuffer.shade_at(0, 0), SHADE_WHITE);
    assert_eq!(
        framebuffer.shade_at(DISPLAY_WIDTH - 1, DISPLAY_HEIGHT - 1),
        SHADE_WHITE
    );
}

#[test]
fn framebuffer_sets_and_reads_individual_shades() {
    let mut framebuffer = Framebuffer::new();

    framebuffer.set_shade(0, 0, 1);
    framebuffer.set_shade(1, 0, 2);
    framebuffer.set_shade(2, 0, SHADE_BLACK);
    framebuffer.set_shade(DISPLAY_WIDTH - 1, DISPLAY_HEIGHT - 1, 1);

    assert_eq!(framebuffer.shade_at(0, 0), 1);
    assert_eq!(framebuffer.shade_at(1, 0), 2);
    assert_eq!(framebuffer.shade_at(2, 0), SHADE_BLACK);
    assert_eq!(
        framebuffer.shade_at(DISPLAY_WIDTH - 1, DISPLAY_HEIGHT - 1),
        1
    );
}

#[test]
fn framebuffer_clear_and_binary_compatibility_use_grayscale_endpoints() {
    let mut framebuffer = Framebuffer::new();

    framebuffer.clear(0x00);
    assert_eq!(framebuffer.shade_at(0, 0), SHADE_BLACK);
    assert_eq!(
        framebuffer.shade_at(DISPLAY_WIDTH - 1, DISPLAY_HEIGHT - 1),
        SHADE_BLACK
    );

    framebuffer.clear(0xFF);
    assert_eq!(framebuffer.shade_at(0, 0), SHADE_WHITE);

    framebuffer.set_pixel(5, 7, true);
    framebuffer.set_pixel(6, 7, false);
    assert_eq!(framebuffer.shade_at(5, 7), SHADE_BLACK);
    assert_eq!(framebuffer.shade_at(6, 7), SHADE_WHITE);
}

#[test]
fn framebuffer_clamps_out_of_range_shade_values() {
    let mut framebuffer = Framebuffer::new();

    framebuffer.set_shade(0, 0, GRAY_LEVELS + 4);

    assert_eq!(framebuffer.shade_at(0, 0), SHADE_BLACK);
}

#[test]
fn off_panel_writes_are_ignored_and_read_white() {
    let mut framebuffer = Framebuffer::new();
    framebuffer.set_shade(DISPLAY_WIDTH, 0, SHADE_BLACK);
    framebuffer.set_pixel(0, DISPLAY_HEIGHT, true);
    assert!(framebuffer.shade_storage().iter().all(|byte| *byte == 0));
    assert_eq!(framebuffer.shade_at(DISPLAY_WIDTH, DISPLAY_HEIGHT), SHADE_WHITE);
}

#[test]
fn shades_pack_four_pixels_per_byte_from_the_top_bits() {
    let mut framebuffer = Framebuffer::new();
    framebuffer.set_shade(0, 0, SHADE_BLACK);
    framebuffer.set_shade(3, 0, SHADE_LIGHT);
    assert_eq!(framebuffer.shade_storage()[0], 0b1100_0001);
    assert!(framebuffer.has_intermediate_shades());
    framebuffer.fill_shade(SHADE_DARK);
    assert!(framebuffer.shade_storage().iter().all(|byte| *byte == 0b1010_1010));
    framebuffer.fill_shade(SHADE_WHITE);
    assert!(!framebuffer.has_intermediate_shades());
}

#[test]
fn fill_rect_clips_to_the_panel() {
    let mut framebuffer = Framebuffer::new();
    framebuffer.fill_rect(DISPLAY_WIDTH - 2, DISPLAY_HEIGHT - 2, 10, 10, 0);
    assert_eq!(framebuffer.shade_at(DISPLAY_WIDTH - 1, DISPLAY_HEIGHT - 1), SHADE_BLACK);
    assert_eq!(framebuffer.shade_at(DISPLAY_WIDTH - 2, DISPLAY_HEIGHT - 2), SHADE_BLACK);
    assert_eq!(framebuffer.shade_at(DISPLAY_WIDTH - 3, DISPLAY_HEIGHT - 2), SHADE_WHITE);
}
