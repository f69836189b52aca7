use raycasting::framebuffer::{Framebuffer, BACKGROUND_COLOR, DEFAULT_DRAW_COLOR};
use raycasting::shapes::{draw_rect_outline, draw_scaled_pixel, fill_rect, fill_screen};
use raycasting::text::{draw_char, draw_text, glyph, text_width};

fn pixel(framebuffer: &Framebuffer, x: usize, y: usize) -> u32 {
    framebuffer.buffer[y * framebuffer.width + x]
}

#[test]
fn new_framebuffer_is_cleared_with_white_pen() {
    let framebuffer = Framebuffer::new(4, 3);

    assert_eq!(framebuffer.buffer.len(), 12);
    assert!(framebuffer.buffer.iter().all(|&color| color == BACKGROUND_COLOR));
    assert_eq!(framebuffer.current_color, DEFAULT_DRAW_COLOR);
}

#[test]
fn point_paints_only_inside_pixels() {
    let mut framebuffer = Framebuffer::new(4, 3);
    framebuffer.set_current_color(0x123456);

    framebuffer.point(2, 1);
    framebuffer.point(-1, 1);
    framebuffer.point(4, 0);
    framebuffer.point(0, 3);

    assert_eq!(pixel(&framebuffer, 2, 1), 0x123456);
    assert_eq!(framebuffer.buffer.iter().filter(|&&color| color == 0x123456).count(), 1);

    framebuffer.clear();
    assert!(framebuffer.buffer.iter().all(|&color| color == BACKGROUND_COLOR));
    assert_eq!(framebuffer.current_color, 0x123456);
}

#[test]
fn rectangles_are_clipped_to_the_framebuffer() {
    let mut framebuffer = Framebuffer::new(5, 5);

    fill_rect(&mut framebuffer, -2, 3, 4, 10, 0xabcdef);

    assert_eq!(pixel(&framebuffer, 0, 3), 0xabcdef);
    assert_eq!(pixel(&framebuffer, 1, 4), 0xabcdef);
    assert_eq!(pixel(&framebuffer, 2, 3), BACKGROUND_COLOR);
    assert_eq!(pixel(&framebuffer, 0, 2), BACKGROUND_COLOR);
    assert_eq!(framebuffer.current_color, 0xabcdef);

    fill_rect(&mut framebuffer, 1, 1, 0, 3, 0x111111);
    assert_eq!(framebuffer.current_color, 0xabcdef);
}

#[test]
fn outline_leaves_the_inside_untouched() {
    let mut framebuffer = Framebuffer::new(6, 6);

    draw_rect_outline(&mut framebuffer, 1, 1, 4, 4, 0x00ff00);

    assert_eq!(pixel(&framebuffer, 1, 1), 0x00ff00);
    assert_eq!(pixel(&framebuffer, 4, 4), 0x00ff00);
    assert_eq!(pixel(&framebuffer, 4, 2), 0x00ff00);
    assert_eq!(pixel(&framebuffer, 2, 2), BACKGROUND_COLOR);
    assert_eq!(pixel(&framebuffer, 5, 5), BACKGROUND_COLOR);
}

#[test]
fn screen_fill_and_scaled_pixels() {
    let mut framebuffer = Framebuffer::new(4, 4);

    fill_screen(&mut framebuffer, 0x202020);
    assert!(framebuffer.buffer.iter().all(|&color| color == 0x202020));

    framebuffer.set_current_color(0xff0000);
    draw_scaled_pixel(&mut framebuffer, 2, 2, 2);
    assert_eq!(pixel(&framebuffer, 3, 3), 0xff0000);
    assert_eq!(pixel(&framebuffer, 1, 1), 0x202020);
}

#[test]
fn text_width_counts_glyphs_spaces_and_gaps() {
    assert_eq!(text_width("AB", 2), 22);
    assert_eq!(text_width("A B", 1), 14);
    assert_eq!(text_width("", 3), 0);
}

#[test]
fn glyphs_cover_letters_digits_and_colon() {
    assert_eq!(glyph('A'), Some([0b01110, 0b10001, 0b10001, 0b11111, 0b10001, 0b10001, 0b10001]));
    assert!(glyph('7').is_some());
    assert!(glyph(':').is_some());
    assert!(glyph('a').is_none());
}

#[test]
fn drawn_text_uses_the_glyph_bits() {
    let mut framebuffer = Framebuffer::new(20, 10);

    draw_text(&mut framebuffer, "A", 1, 1, 1, 0x00ffff);

    assert_eq!(framebuffer.current_color, 0x00ffff);
    assert_eq!(pixel(&framebuffer, 1, 1), BACKGROUND_COLOR);
    assert_eq!(pixel(&framebuffer, 2, 1), 0x00ffff);
    assert_eq!(pixel(&framebuffer, 1, 4), 0x00ffff);
    assert_eq!(pixel(&framebuffer, 3, 5), BACKGROUND_COLOR);
}

#[test]
fn unknown_characters_draw_nothing() {
    let mut framebuffer = Framebuffer::new(10, 10);
    framebuffer.set_current_color(0xffffff);

    draw_char(&mut framebuffer, '~', 0, 0, 1);

    assert!(framebuffer.buffer.iter().all(|&color| color == BACKGROUND_COLOR));
}
