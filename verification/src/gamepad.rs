//! Gamepad buttons and the actions they trigger: an action fires on the
//! snapshot where one of its buttons goes down, not while it is held.
use vstd::prelude::*;

verus! {

/// Which gamepad buttons are held in one snapshot.
#[derive(Debug, Clone, Copy, Default)]
pub struct GamepadButtons {
    pub south: bool,
    pub east: bool,
    pub north: bool,
    pub west: bool,
    pub select: bool,
    pub start: bool,
    pub dpad_left: bool,
    pub dpad_right: bool,
    pub dpad_up: bool,
    pub dpad_down: bool,
    pub left_trigger: bool,
    pub right_trigger: bool,
    pub right_thumb: bool,
}

/// What the buttons of a gamepad can ask for.
#[derive(Debug, Clone, Copy, PartialEq, Eq, Structural)]
pub enum GamepadAction {
    Jump,
    Confirm,
    Restart,
    ToggleView,
    PreviousLevel,
    NextLevel,
    MenuUp,
    MenuDown,
}

impl GamepadButtons {
    /// Whether a button bound to `action` is held: south jumps; south or
    /// start confirms and restarts; north, select or the right stick's
    /// button toggle the view; left on the pad, west or the left trigger go
    /// to the previous level, their right-hand counterparts to the next;
    /// up and down on the pad move through menus.
    pub open spec fn bound_held(self, action: GamepadAction) -> bool {
        match action {
            GamepadAction::Jump => self.south,
            GamepadAction::Confirm => self.south || self.start,
            GamepadAction::Restart => self.south || self.start,
            GamepadAction::ToggleView => self.north || self.select || self.right_thumb,
            GamepadAction::PreviousLevel => self.dpad_left || self.west || self.left_trigger,
            GamepadAction::NextLevel => self.dpad_right || self.east || self.right_trigger,
            GamepadAction::MenuUp => self.dpad_up,
            GamepadAction::MenuDown => self.dpad_down,
        }
    }

    /// Whether a button bound to `action` is held.
    pub fn holds(&self, action: GamepadAction) -> (held: bool)
        ensures
            held == self.bound_held(action),
    {
        match action {
            GamepadAction::Jump => self.south,
            GamepadAction::Confirm => self.south || self.start,
            GamepadAction::Restart => self.south || self.start,
            GamepadAction::ToggleView => self.north || self.select || self.right_thumb,
            GamepadAction::PreviousLevel => self.dpad_left || self.west || self.left_trigger,
            GamepadAction::NextLevel => self.dpad_right || self.east || self.right_trigger,
            GamepadAction::MenuUp => self.dpad_up,
            GamepadAction::MenuDown => self.dpad_down,
        }
    }
}

/// `action` fires between two snapshots: one of its buttons is held now and
/// none was held before.
pub open spec fn fires(buttons: GamepadButtons, previous: GamepadButtons, action: GamepadAction) -> bool {
    buttons.bound_held(action) && !previous.bound_held(action)
}

/// Whether `action` fires between the `previous` snapshot and `buttons`.
pub fn button_pressed(buttons: &GamepadButtons, previous: &GamepadButtons, action: GamepadAction) -> (pressed:
    bool)
    ensures
        pressed == fires(*buttons, *previous, action),
{
    buttons.holds(action) && !previous.holds(action)
}

/// Holding the buttons does not fire an action again: once it fired, the
/// next snapshot with the same buttons held does not fire it.
pub proof fn lemma_held_buttons_fire_once(
    buttons: GamepadButtons,
    previous: GamepadButtons,
    action: GamepadAction,
)
    requires
        fires(buttons, previous, action),
    ensures
        !fires(buttons, buttons, action),
{
}

/// Each action fires exactly when one of its buttons is held now and none of
/// them was held in the previous snapshot: south jumps; south or start
/// confirm and restart; north, select or the right stick's button toggle the
/// view; left on the pad, west or the left trigger go to the previous level,
/// right on the pad, east or the right trigger to the next; up and down on
/// the pad move through menus.
pub proof fn lemma_action_buttons(buttons: GamepadButtons, previous: GamepadButtons)
    ensures
        fires(buttons, previous, GamepadAction::Jump) == (buttons.south && !previous.south),
        fires(buttons, previous, GamepadAction::Confirm) == ((buttons.south || buttons.start) && !(
        previous.south || previous.start)),
        fires(buttons, previous, GamepadAction::Restart) == ((buttons.south || buttons.start) && !(
        previous.south || previous.start)),
        fires(buttons, previous, GamepadAction::ToggleView) == ((buttons.north || buttons.select
            || buttons.right_thumb) && !(previous.north || previous.select || previous.right_thumb)),
        fires(buttons, previous, GamepadAction::PreviousLevel) == ((buttons.dpad_left || buttons.west
            || buttons.left_trigger) && !(previous.dpad_left || previous.west
            || previous.left_trigger)),
        fires(buttons, previous, GamepadAction::NextLevel) == ((buttons.dpad_right || buttons.east
            || buttons.right_trigger) && !(previous.dpad_right || previous.east
            || previous.right_trigger)),
        fires(buttons, previous, GamepadAction::MenuUp) == (buttons.dpad_up && !previous.dpad_up),
        fires(buttons, previous, GamepadAction::MenuDown) == (buttons.dpad_down && !previous.dpad_down),
{
}

} // verus!
