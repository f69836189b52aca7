//! Level selection and the menus of the welcome, victory and pause screens.
use vstd::prelude::*;

verus! {

/// How the level is shown while playing.
#[derive(Clone, Copy, Debug, PartialEq, Eq)]
pub enum RenderMode {
    Mode2D,
    Mode3D,
}

impl RenderMode {
    /// The other view.
    pub fn toggle(self) -> (other: RenderMode)
        ensures
            other != self,
    {
        match self {
            RenderMode::Mode2D => RenderMode::Mode3D,
            RenderMode::Mode3D => RenderMode::Mode2D,
        }
    }
}

/// Entries of the welcome screen's menu, top to bottom.
#[derive(Clone, Copy, Debug, PartialEq, Eq)]
pub enum WelcomeMenuOption {
    Start,
    ChangeLevel,
    Exit,
}

/// Number of entries of the welcome menu.
pub const WELCOME_OPTION_COUNT: usize = 3;

/// Position of an entry in the welcome menu.
pub open spec fn welcome_position(option: WelcomeMenuOption) -> int {
    match option {
        WelcomeMenuOption::Start => 0,
        WelcomeMenuOption::ChangeLevel => 1,
        WelcomeMenuOption::Exit => 2,
    }
}

impl WelcomeMenuOption {
    /// Position of this entry in the menu.
    pub fn index(self) -> (i: usize)
        ensures
            i == welcome_position(self),
    {
        match self {
            WelcomeMenuOption::Start => 0,
            WelcomeMenuOption::ChangeLevel => 1,
            WelcomeMenuOption::Exit => 2,
        }
    }

    /// The entry at position `index`, counting around the menu.
    pub fn from_index(index: usize) -> (option: WelcomeMenuOption)
        ensures
            welcome_position(option) == index % 3,
    {
        match index % 3 {
            0 => WelcomeMenuOption::Start,
            1 => WelcomeMenuOption::ChangeLevel,
            _ => WelcomeMenuOption::Exit,
        }
    }
}

/// Entries of the victory screen's menu; the next-level entry is offered
/// only when a level follows.
#[derive(Clone, Copy, Debug, PartialEq, Eq)]
pub enum VictoryMenuOption {
    Restart,
    NextLevel,
    MainMenu,
}

/// Entries of the pause menu, top to bottom.
#[derive(Clone, Copy, Debug, PartialEq, Eq)]
pub enum PauseMenuOption {
    Continue,
    ChangeLevel,
    MainMenu,
}

/// Number of entries of the pause menu.
pub const PAUSE_OPTION_COUNT: usize = 3;

/// Position of an entry in the pause menu.
pub open spec fn pause_position(option: PauseMenuOption) -> int {
    match option {
        PauseMenuOption::Continue => 0,
        PauseMenuOption::ChangeLevel => 1,
        PauseMenuOption::MainMenu => 2,
    }
}

impl PauseMenuOption {
    /// The entry at position `index`, counting around the menu.
    pub fn at(index: usize) -> (option: PauseMenuOption)
        ensures
            pause_position(option) == index % 3,
    {
        match index % 3 {
            0 => PauseMenuOption::Continue,
            1 => PauseMenuOption::ChangeLevel,
            _ => PauseMenuOption::MainMenu,
        }
    }
}

/// The position after `current` in a cyclic list of `count` entries (0 for
/// an empty list).
pub open spec fn cyclic_next(current: int, count: int) -> int {
    if count == 0 {
        0
    } else {
        (current + 1) % count
    }
}

/// The position before `current` in a cyclic list of `count` entries (0 for
/// an empty list).
pub open spec fn cyclic_previous(current: int, count: int) -> int {
    if count == 0 {
        0
    } else {
        (current + count - 1) % count
    }
}

/// The level after `current`, wrapping from the last to the first.
pub fn next_level_index(current: usize, level_count: usize) -> (next: usize)
    requires
        level_count == 0 || current < usize::MAX,
    ensures
        next == cyclic_next(current as int, level_count as int),
{
    if level_count == 0 {
        0
    } else {
        (current + 1) % level_count
    }
}

/// The level before `current`, wrapping from the first to the last.
pub fn previous_level_index(current: usize, level_count: usize) -> (previous: usize)
    requires
        level_count == 0 || current + level_count <= usize::MAX,
    ensures
        previous == cyclic_previous(current as int, level_count as int),
{
    if level_count == 0 {
        0
    } else {
        (current + level_count - 1) % level_count
    }
}

/// The menu entry below `current`, wrapping from the last to the first.
pub fn next_menu_index(current: usize, option_count: usize) -> (next: usize)
    requires
        option_count == 0 || current < usize::MAX,
    ensures
        next == cyclic_next(current as int, option_count as int),
{
    if option_count == 0 {
        0
    } else {
        (current + 1) % option_count
    }
}

/// The menu entry above `current`, wrapping from the first to the last.
pub fn previous_menu_index(current: usize, option_count: usize) -> (previous: usize)
    requires
        option_count == 0 || current + option_count <= usize::MAX,
    ensures
        previous == cyclic_previous(current as int, option_count as int),
{
    if option_count == 0 {
        0
    } else {
        (current + option_count - 1) % option_count
    }
}

/// Whether a level follows `current`.
pub fn has_next_level(current: usize, level_count: usize) -> (has_next: bool)
    requires
        current < usize::MAX,
    ensures
        has_next == (current + 1 < level_count),
{
    current + 1 < level_count
}

/// Number of entries of the victory menu: three when a level follows,
/// two on the last level.
pub fn victory_option_count(current_level: usize, level_count: usize) -> (count: usize)
    requires
        current_level < usize::MAX,
    ensures
        count == (if current_level + 1 < level_count {
            3int
        } else {
            2int
        }),
{
    if has_next_level(current_level, level_count) {
        3
    } else {
        2
    }
}

/// The victory-menu entry at position `index`: restart first, then the next
/// level when there is one, and the main menu for every other position.
pub open spec fn victory_option(index: int, has_next: bool) -> VictoryMenuOption {
    if index == 0 {
        VictoryMenuOption::Restart
    } else if index == 1 && has_next {
        VictoryMenuOption::NextLevel
    } else {
        VictoryMenuOption::MainMenu
    }
}

/// The victory-menu entry at position `index`.
pub fn victory_option_at(index: usize, current_level: usize, level_count: usize) -> (option:
    VictoryMenuOption)
    requires
        current_level < usize::MAX,
    ensures
        option == victory_option(index as int, current_level + 1 < level_count),
{
    let has_next = has_next_level(current_level, level_count);
    if index == 0 {
        VictoryMenuOption::Restart
    } else if index == 1 && has_next {
        VictoryMenuOption::NextLevel
    } else {
        VictoryMenuOption::MainMenu
    }
}

/// Moving down and then up a non-empty cyclic list, or up and then down,
/// comes back to the start; every move stays inside the list.
pub proof fn lemma_cyclic_moves_invert(current: int, count: int)
    requires
        0 <= current < count,
    ensures
        0 <= cyclic_next(current, count) < count,
        0 <= cyclic_previous(current, count) < count,
        cyclic_previous(cyclic_next(current, count), count) == current,
        cyclic_next(cyclic_previous(current, count), count) == current,
{
    if current + 1 < count {
        assert((current + 1) % count == current + 1) by (nonlinear_arith)
            requires
                0 <= current + 1 < count,
        ;
    } else {
        assert((current + 1) % count == 0) by (nonlinear_arith)
            requires
                current + 1 == count,
                count > 0,
        ;
    }
    if current > 0 {
        assert((current + count - 1) % count == current - 1) by (nonlinear_arith)
            requires
                0 < current < count,
        {
            assert(current + count - 1 == 1 * count + (current - 1));
            vstd::arithmetic::div_mod::lemma_fundamental_div_mod_converse(
                current + count - 1,
                count,
                1,
                current - 1,
            );
        }
    } else {
        assert((current + count - 1) % count == count - 1) by (nonlinear_arith)
            requires
                current == 0,
                count > 0,
        ;
    }
    let n = cyclic_next(current, count);
    let p = cyclic_previous(current, count);
    if n > 0 {
        assert((n + count - 1) % count == n - 1) by (nonlinear_arith)
            requires
                0 < n < count,
        {
            vstd::arithmetic::div_mod::lemma_fundamental_div_mod_converse(
                n + count - 1,
                count,
                1,
                n - 1,
            );
        }
    } else {
        assert((n + count - 1) % count == count - 1) by (nonlinear_arith)
            requires
                n == 0,
                count > 0,
        ;
    }
    if p + 1 < count {
        assert((p + 1) % count == p + 1) by (nonlinear_arith)
            requires
                0 <= p + 1 < count,
        ;
    } else {
        assert((p + 1) % count == 0) by (nonlinear_arith)
            requires
                p + 1 == count,
                count > 0,
        ;
    }
}

/// Positions identify welcome-menu entries and lie inside the menu, so the
/// entry `from_index` gives for an entry's `index` is that entry.
pub proof fn lemma_welcome_position_identifies(first: WelcomeMenuOption, second: WelcomeMenuOption)
    ensures
        0 <= welcome_position(first) < WELCOME_OPTION_COUNT,
        welcome_position(first) % 3 == welcome_position(first),
        welcome_position(first) == welcome_position(second) ==> first == second,
{
}

/// Positions identify pause-menu entries and lie inside the menu.
pub proof fn lemma_pause_position_identifies(first: PauseMenuOption, second: PauseMenuOption)
    ensures
        0 <= pause_position(first) < PAUSE_OPTION_COUNT,
        pause_position(first) == pause_position(second) ==> first == second,
{
}

/// The victory menu lists restart, then next level (only when a level
/// follows), then main menu, each exactly once.
pub proof fn lemma_victory_menu_entries(has_next: bool)
    ensures
        victory_option(0, has_next) == VictoryMenuOption::Restart,
        has_next ==> victory_option(1, has_next) == VictoryMenuOption::NextLevel,
        has_next ==> victory_option(2, has_next) == VictoryMenuOption::MainMenu,
        !has_next ==> victory_option(1, has_next) == VictoryMenuOption::MainMenu,
        forall|i: int|
            0 <= i < (if has_next {
                3int
            } else {
                2int
            }) ==> (#[trigger] victory_option(i, has_next) == VictoryMenuOption::NextLevel
                <==> has_next && i == 1),
{
}

} // verus!
