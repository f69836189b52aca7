use raycasting::caster::cell_at_grid_position;
use raycasting::maze::{parse_maze, count_char, find_char, has_wall_borders, is_wall, is_walkable_cell, validate_maze, Maze};

fn maze_from_text(text: &str) -> Maze {
    text.lines().map(|line| line.chars().collect()).collect()
}

#[test]
fn validation_rejects_non_rectangular_and_missing_markers() {
    let non_rectangular = maze_from_text("###\n#p#\n####");
    assert!(!validate_maze(&non_rectangular));

    let missing_goal = maze_from_text("###\n#p#\n###");
    assert!(!validate_maze(&missing_goal));

    let missing_player = maze_from_text("###\n#g#\n###");
    assert!(!validate_maze(&missing_player));
}

#[test]
fn validation_accepts_walled_maze_with_one_start_and_goal() {
    let maze = maze_from_text("#####\n#p g#\n#####");
    assert!(validate_maze(&maze));
    assert_eq!(find_char(&maze, 'p'), Some((1, 1)));
    assert_eq!(find_char(&maze, 'g'), Some((3, 1)));
}

#[test]
fn validation_rejects_open_border_duplicates_and_empty_mazes() {
    assert!(!validate_maze(&maze_from_text("#####\n p g#\n#####")));
    assert!(!validate_maze(&maze_from_text("#####\n#ppg#\n#####")));
    assert!(!validate_maze(&Vec::new()));
    assert!(!validate_maze(&vec![Vec::new()]));
}

#[test]
fn find_char_reports_first_match_in_reading_order() {
    let maze = maze_from_text("#g#\n#gg\n###");
    assert_eq!(find_char(&maze, 'g'), Some((1, 0)));
    assert_eq!(find_char(&maze, 'p'), None);
}

#[test]
fn counts_cells_and_checks_borders() {
    let maze = maze_from_text("#+%\n@ &\n!##");
    assert_eq!(count_char(&maze, '#'), 3);
    assert_eq!(count_char(&maze, ' '), 1);
    assert!(has_wall_borders(&maze));
    assert!(!has_wall_borders(&maze_from_text("###\n# #\n# #")));
}

#[test]
fn classifies_wall_and_walkable_cells() {
    for wall in ['#', '+', '%', '@', '&', '!'] {
        assert!(is_wall(wall));
        assert!(!is_walkable_cell(wall));
    }
    for floor in [' ', 'p', 'g'] {
        assert!(is_walkable_cell(floor));
        assert!(!is_wall(floor));
    }
    assert!(!is_wall('x'));
    assert!(!is_walkable_cell('x'));
}

#[test]
fn grid_lookup_rejects_positions_outside_the_maze() {
    let maze = maze_from_text("#####\n#p g#\n#####");
    assert_eq!(cell_at_grid_position(&maze, 3, 1), Some('g'));
    assert_eq!(cell_at_grid_position(&maze, -1, 1), None);
    assert_eq!(cell_at_grid_position(&maze, 5, 1), None);
    assert_eq!(cell_at_grid_position(&maze, 0, 3), None);
}

#[test]
fn parses_one_row_per_line() {
    assert_eq!(parse_maze("#p#\n#g#\n"), vec![vec!['#', 'p', '#'], vec!['#', 'g', '#']]);
    assert_eq!(parse_maze("##\r\n# \r\n##"), vec![vec!['#', '#'], vec!['#', ' '], vec!['#', '#']]);
    assert_eq!(parse_maze("#\n\n#"), vec![vec!['#'], vec![], vec!['#']]);
    assert_eq!(parse_maze("ab\r"), vec![vec!['a', 'b', '\r']]);
    assert!(parse_maze("").is_empty());
    assert_eq!(parse_maze("\n"), vec![Vec::<char>::new()]);
}

#[test]
fn parsed_maze_files_validate() {
    let maze = parse_maze("#####\n#p g#\n#####\n");
    assert!(validate_maze(&maze));
}
