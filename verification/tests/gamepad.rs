use raycasting::gamepad::{button_pressed, GamepadAction, GamepadButtons};

#[test]
fn button_pressed_reports_only_rising_edge() {
    let previous_buttons = GamepadButtons::default();
    let buttons = GamepadButtons {
        south: true,
        ..GamepadButtons::default()
    };

    assert!(button_pressed(&buttons, &previous_buttons, GamepadAction::Confirm));

    let held_previous = buttons;
    let held_buttons = buttons;

    assert!(!button_pressed(&held_buttons, &held_previous, GamepadAction::Confirm));
}

#[test]
fn actions_follow_their_button_bindings() {
    let start = GamepadButtons { start: true, ..GamepadButtons::default() };
    let none = GamepadButtons::default();

    assert!(button_pressed(&start, &none, GamepadAction::Confirm));
    assert!(button_pressed(&start, &none, GamepadAction::Restart));
    assert!(!button_pressed(&start, &none, GamepadAction::Jump));

    let thumb = GamepadButtons { right_thumb: true, ..GamepadButtons::default() };
    assert!(button_pressed(&thumb, &none, GamepadAction::ToggleView));

    let trigger = GamepadButtons { left_trigger: true, ..GamepadButtons::default() };
    assert!(button_pressed(&trigger, &none, GamepadAction::PreviousLevel));
    assert!(!button_pressed(&trigger, &none, GamepadAction::NextLevel));

    let east = GamepadButtons { east: true, ..GamepadButtons::default() };
    assert!(button_pressed(&east, &none, GamepadAction::NextLevel));

    let up = GamepadButtons { dpad_up: true, ..GamepadButtons::default() };
    assert!(button_pressed(&up, &none, GamepadAction::MenuUp));
    assert!(!button_pressed(&up, &none, GamepadAction::MenuDown));
}

#[test]
fn switching_to_another_bound_button_does_not_fire_again() {
    let south = GamepadButtons { south: true, ..GamepadButtons::default() };
    let start = GamepadButtons { start: true, ..GamepadButtons::default() };

    assert!(!button_pressed(&start, &south, GamepadAction::Confirm));
    assert!(button_pressed(&start, &south, GamepadAction::Restart) == false);
    assert!(!button_pressed(&GamepadButtons::default(), &south, GamepadAction::Confirm));
}
