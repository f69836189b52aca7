use raycasting::menu::{
    has_next_level, next_level_index, next_menu_index, previous_level_index, previous_menu_index,
    victory_option_at, victory_option_count, PauseMenuOption, RenderMode, VictoryMenuOption,
    WelcomeMenuOption,
};

#[test]
fn next_level_index_wraps_to_first_level() {
    assert_eq!(next_level_index(0, 3), 1);
    assert_eq!(next_level_index(2, 3), 0);
}

#[test]
fn previous_level_index_wraps_to_last_level() {
    assert_eq!(previous_level_index(2, 3), 1);
    assert_eq!(previous_level_index(0, 3), 2);
}

#[test]
fn level_index_helpers_accept_empty_level_lists() {
    assert_eq!(next_level_index(0, 0), 0);
    assert_eq!(previous_level_index(0, 0), 0);
}

#[test]
fn menu_index_helpers_wrap_selection() {
    assert_eq!(next_menu_index(0, 2), 1);
    assert_eq!(next_menu_index(1, 2), 0);
    assert_eq!(previous_menu_index(1, 2), 0);
    assert_eq!(previous_menu_index(0, 2), 1);
}

#[test]
fn victory_menu_hides_next_level_on_last_level() {
    assert_eq!(victory_option_count(0, 3), 3);
    assert_eq!(victory_option_count(2, 3), 2);
    assert_eq!(victory_option_at(1, 0, 3), VictoryMenuOption::NextLevel);
    assert_eq!(victory_option_at(1, 2, 3), VictoryMenuOption::MainMenu);
}

#[test]
fn pause_menu_options_keep_fixed_order() {
    assert_eq!(PauseMenuOption::at(0), PauseMenuOption::Continue);
    assert_eq!(PauseMenuOption::at(1), PauseMenuOption::ChangeLevel);
    assert_eq!(PauseMenuOption::at(2), PauseMenuOption::MainMenu);
}

#[test]
fn menu_moves_down_then_up_return_to_start() {
    for count in 1..5 {
        for current in 0..count {
            assert_eq!(previous_menu_index(next_menu_index(current, count), count), current);
            assert_eq!(next_level_index(previous_level_index(current, count), count), current);
        }
    }
}

#[test]
fn welcome_options_round_trip_through_their_positions() {
    for option in [WelcomeMenuOption::Start, WelcomeMenuOption::ChangeLevel, WelcomeMenuOption::Exit] {
        assert_eq!(WelcomeMenuOption::from_index(option.index()), option);
    }
    assert_eq!(WelcomeMenuOption::from_index(4), WelcomeMenuOption::ChangeLevel);
    assert_eq!(PauseMenuOption::at(5), PauseMenuOption::MainMenu);
}

#[test]
fn victory_menu_restart_first_and_main_menu_last() {
    assert_eq!(victory_option_at(0, 0, 3), VictoryMenuOption::Restart);
    assert_eq!(victory_option_at(2, 0, 3), VictoryMenuOption::MainMenu);
    assert_eq!(victory_option_at(0, 2, 3), VictoryMenuOption::Restart);
    assert!(has_next_level(1, 3));
    assert!(!has_next_level(2, 3));
}

#[test]
fn render_mode_toggles_between_views() {
    assert_eq!(RenderMode::Mode2D.toggle(), RenderMode::Mode3D);
    assert_eq!(RenderMode::Mode3D.toggle(), RenderMode::Mode2D);
}
