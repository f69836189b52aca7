use raycasting::game::{FrameInput, GameState, Session};
use raycasting::maze::{playable_start_and_goal, Maze};
use raycasting::menu::{RenderMode, WelcomeMenuOption};

fn input() -> FrameInput {
    FrameInput::default()
}

#[test]
fn welcome_menu_starts_the_selected_level() {
    let mut session = Session::new();
    assert_eq!(session.state, GameState::Welcome);

    let moved = session.step(FrameInput { level_next: true, ..input() }, 3);
    assert!(moved.reset_level && !moved.exit && !moved.play);
    assert_eq!(session.selected_level, 1);

    let started = session.step(FrameInput { confirm: true, ..input() }, 3);
    assert!(started.reset_level);
    assert_eq!(session.state, GameState::Playing);
    assert_eq!(session.selected_level, 1);
}

#[test]
fn welcome_menu_wraps_and_exits() {
    let mut session = Session::new();

    session.step(FrameInput { menu_up: true, ..input() }, 3);
    assert_eq!(session.welcome_option, WelcomeMenuOption::Exit);

    let outcome = session.step(FrameInput { confirm: true, ..input() }, 3);
    assert!(outcome.exit);
    assert_eq!(session.state, GameState::Welcome);

    session.step(FrameInput { level_previous: true, ..input() }, 3);
    assert_eq!(session.selected_level, 2);
}

#[test]
fn change_level_entry_selects_the_next_level() {
    let mut session = Session::new();
    session.step(FrameInput { menu_down: true, ..input() }, 3);
    assert_eq!(session.welcome_option, WelcomeMenuOption::ChangeLevel);

    let outcome = session.step(FrameInput { confirm: true, ..input() }, 3);
    assert!(outcome.reset_level);
    assert_eq!(session.selected_level, 1);
    assert_eq!(session.state, GameState::Welcome);
}

#[test]
fn playing_frames_are_played_until_paused() {
    let mut session = Session::new();
    session.step(FrameInput { confirm: true, ..input() }, 3);

    let frame = session.step(input(), 3);
    assert!(frame.play);
    session.finish_play(false, false, true);
    assert_eq!(session.render_mode, RenderMode::Mode2D);

    let paused = session.step(FrameInput { pause: true, ..input() }, 3);
    assert!(!paused.play);
    assert_eq!(session.state, GameState::Paused);
    assert_eq!(session.pause_index, 0);

    session.step(FrameInput { pause: true, ..input() }, 3);
    assert_eq!(session.state, GameState::Playing);
    assert_eq!(session.render_mode, RenderMode::Mode2D);
}

#[test]
fn pause_menu_changes_level() {
    let mut session = Session::new();
    session.step(FrameInput { confirm: true, ..input() }, 3);
    session.step(FrameInput { pause: true, ..input() }, 3);

    session.step(FrameInput { menu_down: true, level_previous: true, ..input() }, 3);
    assert_eq!(session.pause_level, 2);
    assert_eq!(session.selected_level, 0);

    let outcome = session.step(FrameInput { confirm: true, ..input() }, 3);
    assert!(outcome.reset_level);
    assert_eq!(session.selected_level, 2);
    assert_eq!(session.state, GameState::Playing);
    assert_eq!(session.render_mode, RenderMode::Mode3D);
}

#[test]
fn winning_offers_the_next_level_except_on_the_last() {
    let mut session = Session::new();
    session.step(FrameInput { confirm: true, ..input() }, 2);
    session.step(input(), 2);
    session.finish_play(false, true, false);
    assert_eq!(session.state, GameState::Won);
    assert_eq!(session.victory_index, 0);

    session.step(FrameInput { menu_down: true, ..input() }, 2);
    let outcome = session.step(FrameInput { confirm: true, ..input() }, 2);
    assert!(outcome.reset_level);
    assert_eq!(session.selected_level, 1);
    assert_eq!(session.state, GameState::Playing);

    session.step(input(), 2);
    session.finish_play(false, true, false);
    session.step(FrameInput { menu_down: true, ..input() }, 2);
    session.step(FrameInput { confirm: true, ..input() }, 2);
    assert_eq!(session.state, GameState::Welcome);
    assert_eq!(session.selected_level, 1);
}

#[test]
fn caught_players_restart_the_level() {
    let mut session = Session::new();
    session.step(FrameInput { confirm: true, ..input() }, 3);
    session.step(input(), 3);
    session.finish_play(true, true, true);
    assert_eq!(session.state, GameState::Lost);

    let idle = session.step(input(), 3);
    assert!(!idle.reset_level);
    assert_eq!(session.state, GameState::Lost);

    let outcome = session.step(FrameInput { restart: true, ..input() }, 3);
    assert!(outcome.reset_level);
    assert_eq!(session.state, GameState::Playing);
}

fn maze_from_text(text: &str) -> Maze {
    text.lines().map(|line| line.chars().collect()).collect()
}

#[test]
fn playable_mazes_report_start_and_goal() {
    let maze = maze_from_text("#####\n#p  #\n#  g#\n#####");
    assert_eq!(playable_start_and_goal(&maze), Some(((1, 1), (3, 2))));
    assert_eq!(playable_start_and_goal(&maze_from_text("###\n#p#\n###")), None);
}
