use raycasting::framebuffer::Framebuffer;
use raycasting::line::line_with_shader;

fn pixel_is_set(framebuffer: &Framebuffer, x: usize, y: usize) -> bool {
    framebuffer.buffer[y * framebuffer.width + x] == framebuffer.current_color
}

fn pixel_color(framebuffer: &Framebuffer, x: usize, y: usize) -> u32 {
    framebuffer.buffer[y * framebuffer.width + x]
}

fn set_pixels(framebuffer: &Framebuffer) -> Vec<(usize, usize)> {
    let mut pixels = Vec::new();
    for y in 0..framebuffer.height {
        for x in 0..framebuffer.width {
            if pixel_is_set(framebuffer, x, y) {
                pixels.push((x, y));
            }
        }
    }
    pixels
}

#[test]
fn draws_horizontal_vertical_and_single_point_lines() {
    let mut framebuffer = Framebuffer::new(8, 8);

    raycasting::line::line(&mut framebuffer, 1, 3, 5, 3);
    for x in 1..=5 {
        assert!(pixel_is_set(&framebuffer, x, 3));
    }

    framebuffer.clear();
    raycasting::line::line(&mut framebuffer, 4, 6, 4, 2);
    for y in 2..=6 {
        assert!(pixel_is_set(&framebuffer, 4, y));
    }

    framebuffer.clear();
    raycasting::line::line(&mut framebuffer, 2, 2, 2, 2);
    assert!(pixel_is_set(&framebuffer, 2, 2));
}

#[test]
fn draws_diagonal_lines_in_both_directions() {
    let mut framebuffer = Framebuffer::new(8, 8);

    raycasting::line::line(&mut framebuffer, 1, 1, 5, 5);
    for point in [(1, 1), (2, 2), (3, 3), (4, 4), (5, 5)] {
        assert!(pixel_is_set(&framebuffer, point.0, point.1));
    }

    framebuffer.clear();
    raycasting::line::line(&mut framebuffer, 5, 1, 1, 5);
    for point in [(5, 1), (4, 2), (3, 3), (2, 4), (1, 5)] {
        assert!(pixel_is_set(&framebuffer, point.0, point.1));
    }
}

#[test]
fn clipped_lines_do_not_panic_and_draw_visible_pixels() {
    let mut framebuffer = Framebuffer::new(5, 5);

    raycasting::line::line(&mut framebuffer, -3, 2, 3, 2);

    for x in 0..=3 {
        assert!(pixel_is_set(&framebuffer, x, 2));
    }
}

#[test]
fn line_with_shader_draws_horizontal_gradient() {
    let mut framebuffer = Framebuffer::new(8, 8);

    line_with_shader(&mut framebuffer, 1, 3, 5, 3, |x, _| x as u32);

    assert_eq!(pixel_color(&framebuffer, 1, 3), 1);
    assert_eq!(pixel_color(&framebuffer, 3, 3), 3);
    assert_eq!(pixel_color(&framebuffer, 5, 3), 5);
}

#[test]
fn line_with_shader_shades_vertical_stake_pixels() {
    let mut framebuffer = Framebuffer::new(10, 10);

    line_with_shader(&mut framebuffer, 5, 2, 5, 8, |_, y| 0x010000 + y as u32);

    assert_eq!(pixel_color(&framebuffer, 5, 2), 0x010002);
    assert_eq!(pixel_color(&framebuffer, 5, 5), 0x010005);
    assert_eq!(pixel_color(&framebuffer, 5, 8), 0x010008);
}

#[test]
fn line_with_shader_handles_reverse_vertical_stake() {
    let mut framebuffer = Framebuffer::new(10, 10);

    line_with_shader(&mut framebuffer, 5, 8, 5, 2, |_, y| 0x020000 + y as u32);

    assert_eq!(pixel_color(&framebuffer, 5, 8), 0x020008);
    assert_eq!(pixel_color(&framebuffer, 5, 5), 0x020005);
    assert_eq!(pixel_color(&framebuffer, 5, 2), 0x020002);
}

#[test]
fn line_with_shader_clips_like_line() {
    let mut framebuffer = Framebuffer::new(5, 5);

    line_with_shader(&mut framebuffer, -3, 2, 3, 2, |x, y| {
        0x030000 + (x.max(0) as u32) + (y as u32)
    });

    for x in 0..=3 {
        assert_eq!(pixel_color(&framebuffer, x, 2), 0x030002 + x as u32);
    }
}

#[test]
fn shallow_line_rounds_to_nearest_rows() {
    let mut framebuffer = Framebuffer::new(8, 4);

    raycasting::line::line(&mut framebuffer, 0, 0, 4, 1);

    assert_eq!(set_pixels(&framebuffer), vec![(0, 0), (1, 0), (2, 1), (3, 1), (4, 1)]);
}

#[test]
fn steep_line_touches_both_ends_without_gaps() {
    let mut framebuffer = Framebuffer::new(6, 8);

    raycasting::line::line(&mut framebuffer, 4, 7, 1, 0);

    let pixels = set_pixels(&framebuffer);
    assert_eq!(pixels.len(), 8);
    assert!(pixels.contains(&(4, 7)));
    assert!(pixels.contains(&(1, 0)));
    for y in 0..8 {
        assert_eq!(pixels.iter().filter(|p| p.1 == y).count(), 1);
    }
}

#[test]
fn line_with_shader_calls_the_shader_off_screen_too() {
    let mut framebuffer = Framebuffer::new(4, 4);
    let calls = std::cell::Cell::new(0);

    line_with_shader(&mut framebuffer, -2, 1, 5, 1, |_, _| {
        calls.set(calls.get() + 1);
        7
    });

    assert_eq!(calls.get(), 8);
    assert_eq!(framebuffer.current_color, 7);
    for x in 0..4 {
        assert_eq!(pixel_color(&framebuffer, x, 1), 7);
    }
}
