use raycasting::caster::NUM_RAYS_2D;
use raycasting::framebuffer::Framebuffer;
use raycasting::maze::Maze;
use raycasting::render::{
    glyph, maze_offset, minimap_content_offset, minimap_dimensions, render_fps_overlay,
    render_maze, render_minimap_panel, render_pause_menu, render_victory_screen,
    render_welcome_screen, scale_color, wall_color, FPS_OVERLAY_BACKGROUND_COLOR,
    FPS_OVERLAY_TEXT_COLOR, GOAL_WALL_COLOR, MINIMAP_BACKGROUND_COLOR, MINIMAP_BORDER_COLOR,
    MINIMAP_GOAL_COLOR, MINIMAP_PATH_COLOR, MINIMAP_WALL_COLOR, PATH_COLOR, VICTORY_ACCENT_COLOR,
    VICTORY_TEXT_COLOR, WALL_AMPERSAND_COLOR, WALL_AT_COLOR, WALL_COLOR, WALL_PERCENT_COLOR,
    WALL_PLUS_COLOR,
};

fn render_test_maze() -> Maze {
    vec![
        "#####".chars().collect(),
        "#   +".chars().collect(),
        "# p +".chars().collect(),
        "#   +".chars().collect(),
        "#####".chars().collect(),
    ]
}

fn framebuffer_contains(framebuffer: &Framebuffer, color: u32) -> bool {
    framebuffer.buffer.contains(&color)
}

fn pixel(framebuffer: &Framebuffer, x: usize, y: usize) -> u32 {
    framebuffer.buffer[y * framebuffer.width + x]
}

#[test]
fn cast_fov_uses_expected_number_of_rays() {
    assert_eq!(NUM_RAYS_2D, 60);
}

#[test]
fn wall_characters_have_distinct_colors() {
    assert_eq!(wall_color('#'), WALL_COLOR);
    assert_eq!(wall_color('+'), WALL_PLUS_COLOR);
    assert_eq!(wall_color('%'), WALL_PERCENT_COLOR);
    assert_eq!(wall_color('@'), WALL_AT_COLOR);
    assert_eq!(wall_color('&'), WALL_AMPERSAND_COLOR);
    assert_eq!(wall_color('!'), GOAL_WALL_COLOR);
    assert_ne!(wall_color('#'), wall_color('+'));
    assert_ne!(wall_color('+'), wall_color('%'));
    assert_ne!(wall_color('%'), wall_color('@'));
    assert_ne!(wall_color('@'), wall_color('&'));
    assert_ne!(wall_color('&'), wall_color('!'));
}

#[test]
fn minimap_offset_stays_in_top_right_corner() {
    let framebuffer = Framebuffer::new(800, 600);

    assert_eq!(minimap_content_offset(&framebuffer, 114, 78), (672, 14));
}

#[test]
fn minimap_offset_does_not_underflow_on_small_framebuffer() {
    let framebuffer = Framebuffer::new(40, 30);

    assert_eq!(minimap_content_offset(&framebuffer, 114, 78), (4, 4));
}

#[test]
fn welcome_screen_draws_title_and_level_motif() {
    let maze = render_test_maze();
    let mut framebuffer = Framebuffer::new(800, 600);

    render_welcome_screen(&mut framebuffer, &maze, 1, 3, 0);

    assert!(framebuffer_contains(&framebuffer, VICTORY_TEXT_COLOR));
    assert!(framebuffer_contains(
        &framebuffer,
        scale_color(wall_color('#'), 2, 3)
    ));
    assert!(glyph('V').is_some());
    assert!(glyph('Y').is_some());
}

#[test]
fn victory_screen_uses_same_menu_background_as_welcome() {
    let maze = render_test_maze();
    let mut welcome = Framebuffer::new(800, 600);
    let mut victory = Framebuffer::new(800, 600);

    render_welcome_screen(&mut welcome, &maze, 0, 3, 0);
    render_victory_screen(&mut victory, &maze, 0, 3, 0);

    assert_eq!(welcome.buffer[0], victory.buffer[0]);
    assert!(framebuffer_contains(&victory, VICTORY_ACCENT_COLOR));
}

#[test]
fn victory_screen_can_render_without_next_level_option() {
    let maze = render_test_maze();
    let mut framebuffer = Framebuffer::new(800, 600);

    render_victory_screen(&mut framebuffer, &maze, 2, 3, 0);

    assert!(framebuffer_contains(&framebuffer, VICTORY_ACCENT_COLOR));
    assert!(glyph('M').is_some());
    assert!(glyph('U').is_some());
}

#[test]
fn pause_menu_draws_all_requested_options() {
    let maze = render_test_maze();
    let mut framebuffer = Framebuffer::new(800, 600);

    render_pause_menu(&mut framebuffer, &maze, 1, 3, 0);

    assert!(framebuffer_contains(&framebuffer, VICTORY_ACCENT_COLOR));
    assert!(glyph('O').is_some());
}

#[test]
fn minimap_dimensions_use_six_pixel_cells() {
    let maze = render_test_maze();
    assert_eq!(minimap_dimensions(&maze), (30, 30));
    let ragged: Maze = vec!["##".chars().collect(), "#####".chars().collect()];
    assert_eq!(minimap_dimensions(&ragged), (30, 12));
}

#[test]
fn minimap_panel_draws_border_background_and_cells() {
    let maze = render_test_maze();
    let mut framebuffer = Framebuffer::new(100, 80);

    let offset = render_minimap_panel(&mut framebuffer, &maze, 40);

    assert_eq!(offset, Some((56, 14)));
    assert_eq!(pixel(&framebuffer, 52, 10), MINIMAP_BORDER_COLOR);
    assert_eq!(pixel(&framebuffer, 53, 11), MINIMAP_BACKGROUND_COLOR);
    assert_eq!(pixel(&framebuffer, 56, 14), MINIMAP_WALL_COLOR);
    assert_eq!(pixel(&framebuffer, 62, 20), MINIMAP_PATH_COLOR);
    assert_eq!(pixel(&framebuffer, 0, 0), 0);
}

#[test]
fn minimap_panel_skips_empty_mazes_and_block_sizes() {
    let mut framebuffer = Framebuffer::new(100, 80);
    assert_eq!(render_minimap_panel(&mut framebuffer, &Vec::new(), 40), None);
    assert_eq!(render_minimap_panel(&mut framebuffer, &render_test_maze(), 0), None);
    assert!(framebuffer.buffer.iter().all(|&color| color == 0));
    let goal: Maze = vec!["g".chars().collect()];
    assert_eq!(render_minimap_panel(&mut framebuffer, &goal, 40), Some((80, 14)));
    assert_eq!(pixel(&framebuffer, 80, 14), MINIMAP_GOAL_COLOR);
}

#[test]
fn maze_is_centered_and_drawn_cell_by_cell() {
    let maze = render_test_maze();
    let mut framebuffer = Framebuffer::new(100, 60);

    assert_eq!(maze_offset(&framebuffer, &maze, 10), (25, 5));
    render_maze(&mut framebuffer, &maze, 10);

    assert_eq!(pixel(&framebuffer, 25, 5), WALL_COLOR);
    assert_eq!(pixel(&framebuffer, 73, 25), WALL_PLUS_COLOR);
    assert_eq!(pixel(&framebuffer, 40, 20), PATH_COLOR);
}

#[test]
fn fps_overlay_draws_box_and_text() {
    let mut framebuffer = Framebuffer::new(200, 60);

    render_fps_overlay(&mut framebuffer, 60);

    assert_eq!(pixel(&framebuffer, 4, 4), FPS_OVERLAY_BACKGROUND_COLOR);
    assert!(framebuffer_contains(&framebuffer, FPS_OVERLAY_TEXT_COLOR));
    assert_eq!(framebuffer.current_color, FPS_OVERLAY_TEXT_COLOR);
}

#[test]
fn scaled_colors_scale_each_channel() {
    assert_eq!(scale_color(0x0a141e, 1, 2), 0x050a0f);
    assert_eq!(scale_color(0x123456, 3, 0), 0x123456);
}

#[test]
fn menu_screens_repaint_whatever_was_drawn_before() {
    let maze = render_test_maze();
    let mut clean = Framebuffer::new(200, 150);
    let mut dirty = Framebuffer::new(200, 150);
    for (i, pixel) in dirty.buffer.iter_mut().enumerate() {
        *pixel = i as u32;
    }

    render_pause_menu(&mut clean, &maze, 0, 3, 1);
    render_pause_menu(&mut dirty, &maze, 0, 3, 1);

    assert_eq!(clean.buffer, dirty.buffer);
    assert_eq!(pixel(&clean, 24, 24), VICTORY_ACCENT_COLOR);
    assert_eq!(pixel(&clean, 175, 24), VICTORY_ACCENT_COLOR);
}
