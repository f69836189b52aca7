//! The screens the game moves between, and how the player's input moves it
//! from one to the next.
use vstd::prelude::*;

use crate::menu::{
    lemma_pause_position_identifies, lemma_welcome_position_identifies, next_level_index, next_menu_index, previous_level_index, previous_menu_index,
    victory_option, victory_option_at, victory_option_count, welcome_position, PauseMenuOption,
    RenderMode, VictoryMenuOption, WelcomeMenuOption, PAUSE_OPTION_COUNT, WELCOME_OPTION_COUNT,
};

verus! {

/// The screen being shown: the welcome menu, the level being played, the
/// pause menu, the victory screen, or the screen shown when a ghost caught
/// the player.
#[derive(Clone, Copy, Debug, PartialEq, Eq, Structural)]
pub enum GameState {
    Welcome,
    Playing,
    Won,
    Paused,
    Lost,
}

/// What the player asked for during one frame, keyboard and gamepad taken
/// together.
#[derive(Clone, Copy, Debug, Default)]
pub struct FrameInput {
    /// Up in a menu.
    pub menu_up: bool,
    /// Down in a menu.
    pub menu_down: bool,
    /// The previous level.
    pub level_previous: bool,
    /// The next level.
    pub level_next: bool,
    /// Choose the highlighted entry.
    pub confirm: bool,
    /// Pause, or resume from the pause menu.
    pub pause: bool,
    /// The restart key.
    pub restart: bool,
    /// Switch between the 2D and the 3D view.
    pub toggle_view: bool,
}

/// Where the game is: the screen, the highlighted entry of each menu, the
/// level being played, the level chosen in the pause menu, and the view.
#[derive(Clone, Copy, Debug)]
pub struct Session {
    pub state: GameState,
    pub welcome_option: WelcomeMenuOption,
    pub selected_level: usize,
    pub pause_index: usize,
    pub pause_level: usize,
    pub victory_index: usize,
    pub render_mode: RenderMode,
}

/// What the game loop does after a step besides showing the new screen.
#[derive(Clone, Copy, Debug, PartialEq, Eq, Structural)]
pub struct StepOutcome {
    /// Put the player back at the start of the selected level and reset its
    /// sprites.
    pub reset_level: bool,
    /// Close the game.
    pub exit: bool,
    /// Move the player and the ghosts for this frame, then call
    /// `Session::finish_play` with what happened.
    pub play: bool,
}

/// The largest number of levels the menus handle: moving back through the
/// levels adds a level index to the level count.
pub const MAX_LEVELS: usize = usize::MAX / 2;

/// A step that only shows the new screen.
pub open spec fn quiet() -> StepOutcome {
    StepOutcome { reset_level: false, exit: false, play: false }
}

/// A step that resets the selected level.
pub open spec fn resets() -> StepOutcome {
    StepOutcome { reset_level: true, exit: false, play: false }
}

/// The welcome menu's entry one up (`up`) or down from `option`, cyclically.
pub open spec fn welcome_moved(option: WelcomeMenuOption, up: bool) -> WelcomeMenuOption {
    let count = WELCOME_OPTION_COUNT as int;
    let position = welcome_position(option);
    let target = if up {
        (position + count - 1) % count
    } else {
        (position + 1) % count
    };
    if target == 0 {
        WelcomeMenuOption::Start
    } else if target == 1 {
        WelcomeMenuOption::ChangeLevel
    } else {
        WelcomeMenuOption::Exit
    }
}

/// `index` moved one up and/or one down in a cyclic list of `count`.
pub open spec fn moved_index(index: int, count: int, up: bool, down: bool) -> int {
    let after_up = if up {
        (index + count - 1) % count
    } else {
        index
    };
    if down {
        (after_up + 1) % count
    } else {
        after_up
    }
}

/// The pause-menu entry at `index`.
pub open spec fn pause_option(index: int) -> PauseMenuOption {
    if index % 3 == 0 {
        PauseMenuOption::Continue
    } else if index % 3 == 1 {
        PauseMenuOption::ChangeLevel
    } else {
        PauseMenuOption::MainMenu
    }
}

impl Session {
    /// The session at launch: the welcome menu on its first entry, the
    /// first level selected, the 3D view.
    pub open spec fn initial() -> Session {
        Session {
            state: GameState::Welcome,
            welcome_option: WelcomeMenuOption::Start,
            selected_level: 0,
            pause_index: 0,
            pause_level: 0,
            victory_index: 0,
            render_mode: RenderMode::Mode3D,
        }
    }

    /// The levels and menu positions are in range for `level_count` levels.
    pub open spec fn wf(self, level_count: usize) -> bool {
        &&& 0 < level_count <= MAX_LEVELS
        &&& self.selected_level < level_count
        &&& self.pause_level < level_count
        &&& self.pause_index < PAUSE_OPTION_COUNT
        &&& self.victory_index < 3
    }

    /// The session at launch.
    pub fn new() -> (session: Session)
        ensures
            session == Session::initial(),
    {
        Session {
            state: GameState::Welcome,
            welcome_option: WelcomeMenuOption::Start,
            selected_level: 0,
            pause_index: 0,
            pause_level: 0,
            victory_index: 0,
            render_mode: RenderMode::Mode3D,
        }
    }

    /// The welcome menu: up and down move through its entries, the level
    /// keys change the selected level (resetting it and going back to the 3D
    /// view), and confirming starts the level, selects the next level, or
    /// exits.
    pub open spec fn welcome_step(self, input: FrameInput, level_count: usize) -> (Session, StepOutcome) {
        let count = level_count as int;
        let option0 = if input.menu_up {
            welcome_moved(self.welcome_option, true)
        } else {
            self.welcome_option
        };
        let option = if input.menu_down {
            welcome_moved(option0, false)
        } else {
            option0
        };
        let level0 = if input.level_previous {
            (self.selected_level + count - 1) % count
        } else {
            self.selected_level as int
        };
        let level = if input.level_next {
            (level0 + 1) % count
        } else {
            level0
        };
        let changed = level != self.selected_level;
        let mode = if changed {
            RenderMode::Mode3D
        } else {
            self.render_mode
        };
        let moved = Session {
            welcome_option: option,
            selected_level: level as usize,
            render_mode: mode,
            ..self
        };
        if input.confirm && option == WelcomeMenuOption::Start {
            (Session { state: GameState::Playing, ..moved }, resets())
        } else if input.confirm && option == WelcomeMenuOption::ChangeLevel {
            (Session { selected_level: ((level + 1) % count) as usize, ..moved }, resets())
        } else if input.confirm {
            (moved, StepOutcome { reset_level: changed, exit: true, play: false })
        } else {
            (moved, StepOutcome { reset_level: changed, exit: false, play: false })
        }
    }

    /// Playing: the pause key opens the pause menu on its first entry with
    /// the current level chosen; otherwise the frame is played.
    pub open spec fn playing_step(self) -> (Session, StepOutcome) {
        (self, StepOutcome { reset_level: false, exit: false, play: true })
    }

    /// The pause menu: the pause key resumes; up and down move through its
    /// entries; on "change level" the level keys choose the level; confirming
    /// resumes, plays the chosen level, or goes to the welcome menu (the last
    /// two reset the level and go back to the 3D view).
    pub open spec fn paused_step(self, input: FrameInput, level_count: usize) -> (Session, StepOutcome) {
        let count = level_count as int;
        if input.pause {
            (Session { state: GameState::Playing, ..self }, quiet())
        } else {
            let index = moved_index(self.pause_index as int, 3, input.menu_up, input.menu_down);
            let option = pause_option(index);
            let chosen = if option == PauseMenuOption::ChangeLevel {
                moved_index(self.pause_level as int, count, input.level_previous, input.level_next)
            } else {
                self.pause_level as int
            };
            let moved = Session { pause_index: index as usize, pause_level: chosen as usize, ..self };
            if !input.confirm {
                (moved, quiet())
            } else if option == PauseMenuOption::Continue {
                (Session { state: GameState::Playing, ..moved }, quiet())
            } else if option == PauseMenuOption::ChangeLevel {
                (
                    Session {
                        state: GameState::Playing,
                        selected_level: chosen as usize,
                        render_mode: RenderMode::Mode3D,
                        ..moved
                    },
                    resets(),
                )
            } else {
                (
                    Session { state: GameState::Welcome, render_mode: RenderMode::Mode3D, ..moved },
                    resets(),
                )
            }
        }
    }

    /// The victory screen: up and down move through its entries (two or
    /// three, as the level is the last or not); the restart key plays the
    /// level again; confirming restarts, plays the next level, or goes to
    /// the welcome menu, each resetting the level (the last two going back
    /// to the 3D view).
    pub open spec fn won_step(self, input: FrameInput, level_count: usize) -> (Session, StepOutcome) {
        let has_next = self.selected_level + 1 < level_count;
        let options = if has_next {
            3int
        } else {
            2int
        };
        let index = moved_index(self.victory_index as int, options, input.menu_up, input.menu_down);
        let moved = Session { victory_index: index as usize, ..self };
        let restarted = if input.restart {
            Session { state: GameState::Playing, ..moved }
        } else {
            moved
        };
        if !input.confirm {
            (restarted, if input.restart { resets() } else { quiet() })
        } else {
            let option = victory_option(index, has_next);
            if option == VictoryMenuOption::Restart {
                (Session { state: GameState::Playing, ..restarted }, resets())
            } else if option == VictoryMenuOption::NextLevel {
                (
                    Session {
                        state: GameState::Playing,
                        selected_level: (self.selected_level + 1) as usize,
                        render_mode: RenderMode::Mode3D,
                        ..restarted
                    },
                    resets(),
                )
            } else {
                (
                    Session {
                        state: GameState::Welcome,
                        render_mode: RenderMode::Mode3D,
                        ..restarted
                    },
                    resets(),
                )
            }
        }
    }

    /// Caught by a ghost: the restart key or confirming plays the level
    /// again from its start, in the 3D view.
    pub open spec fn lost_step(self, input: FrameInput) -> (Session, StepOutcome) {
        if input.restart || input.confirm {
            (
                Session { state: GameState::Playing, render_mode: RenderMode::Mode3D, ..self },
                resets(),
            )
        } else {
            (self, quiet())
        }
    }

    /// The effect of one frame's input on the session, by screen. While
    /// playing, the pause key opens the pause menu on its first entry with
    /// the current level chosen.
    pub open spec fn step_spec(self, input: FrameInput, level_count: usize) -> (Session, StepOutcome) {
        match self.state {
            GameState::Welcome => self.welcome_step(input, level_count),
            GameState::Playing => if input.pause {
                (
                    Session {
                        state: GameState::Paused,
                        pause_index: 0,
                        pause_level: self.selected_level,
                        ..self
                    },
                    quiet(),
                )
            } else {
                self.playing_step()
            },
            GameState::Paused => self.paused_step(input, level_count),
            GameState::Won => self.won_step(input, level_count),
            GameState::Lost => self.lost_step(input),
        }
    }
    /// What the frame's play did: a ghost caught the player (the level is
    /// lost), the player reached the goal (the level is won, the victory menu
    /// on its first entry), or else the view key switches the view.
    pub open spec fn finish_spec(self, caught: bool, reached_goal: bool, toggle_view: bool) -> Session {
        if caught {
            Session { state: GameState::Lost, ..self }
        } else if reached_goal {
            Session { state: GameState::Won, victory_index: 0, ..self }
        } else if toggle_view {
            Session {
                render_mode: match self.render_mode {
                    RenderMode::Mode2D => RenderMode::Mode3D,
                    RenderMode::Mode3D => RenderMode::Mode2D,
                },
                ..self
            }
        } else {
            self
        }
    }

    /// Applies one frame's input: the new session and what the game loop
    /// does besides showing it.
    pub fn step(&mut self, input: FrameInput, level_count: usize) -> (outcome: StepOutcome)
        requires
            old(self).wf(level_count),
        ensures
            (*final(self), outcome) == old(self).step_spec(input, level_count),
            final(self).wf(level_count),
    {
        match self.state {
            GameState::Welcome => self.welcome(input, level_count),
            GameState::Playing => {
                if input.pause {
                    self.pause_index = 0;
                    self.pause_level = self.selected_level;
                    self.state = GameState::Paused;
                    StepOutcome { reset_level: false, exit: false, play: false }
                } else {
                    StepOutcome { reset_level: false, exit: false, play: true }
                }
            },
            GameState::Paused => self.paused(input, level_count),
            GameState::Won => self.won(input, level_count),
            GameState::Lost => {
                if input.restart || input.confirm {
                    self.render_mode = RenderMode::Mode3D;
                    self.state = GameState::Playing;
                    StepOutcome { reset_level: true, exit: false, play: false }
                } else {
                    StepOutcome { reset_level: false, exit: false, play: false }
                }
            },
        }
    }

    fn welcome(&mut self, input: FrameInput, level_count: usize) -> (outcome: StepOutcome)
        requires
            old(self).wf(level_count),
            old(self).state == GameState::Welcome,
        ensures
            (*final(self), outcome) == old(self).welcome_step(input, level_count),
            final(self).wf(level_count),
    {
        let ghost start = *self;
        let previous = self.selected_level;
        if input.menu_up {
            let index = previous_menu_index(self.welcome_option.index(), WELCOME_OPTION_COUNT);
            let option = WelcomeMenuOption::from_index(index);
            proof {
                lemma_welcome_position_identifies(option, welcome_moved(start.welcome_option, true));
            }
            self.welcome_option = option;
        }
        let ghost after_up = self.welcome_option;
        if input.menu_down {
            let index = next_menu_index(self.welcome_option.index(), WELCOME_OPTION_COUNT);
            let option = WelcomeMenuOption::from_index(index);
            proof {
                lemma_welcome_position_identifies(option, welcome_moved(after_up, false));
            }
            self.welcome_option = option;
        }
        if input.level_previous {
            self.selected_level = previous_level_index(self.selected_level, level_count);
        }
        if input.level_next {
            self.selected_level = next_level_index(self.selected_level, level_count);
        }
        let changed = self.selected_level != previous;
        if changed {
            self.render_mode = RenderMode::Mode3D;
        }
        if input.confirm {
            match self.welcome_option {
                WelcomeMenuOption::Start => {
                    self.state = GameState::Playing;
                    return StepOutcome { reset_level: true, exit: false, play: false };
                },
                WelcomeMenuOption::ChangeLevel => {
                    self.selected_level = next_level_index(self.selected_level, level_count);
                    return StepOutcome { reset_level: true, exit: false, play: false };
                },
                WelcomeMenuOption::Exit => {
                    return StepOutcome { reset_level: changed, exit: true, play: false };
                },
            }
        }
        StepOutcome { reset_level: changed, exit: false, play: false }
    }

    fn paused(&mut self, input: FrameInput, level_count: usize) -> (outcome: StepOutcome)
        requires
            old(self).wf(level_count),
            old(self).state == GameState::Paused,
        ensures
            (*final(self), outcome) == old(self).paused_step(input, level_count),
            final(self).wf(level_count),
    {
        if input.pause {
            self.state = GameState::Playing;
            return StepOutcome { reset_level: false, exit: false, play: false };
        }
        if input.menu_up {
            self.pause_index = previous_menu_index(self.pause_index, PAUSE_OPTION_COUNT);
        }
        if input.menu_down {
            self.pause_index = next_menu_index(self.pause_index, PAUSE_OPTION_COUNT);
        }
        let option = PauseMenuOption::at(self.pause_index);
        proof {
            lemma_pause_position_identifies(option, pause_option(self.pause_index as int));
        }
        match option {
            PauseMenuOption::ChangeLevel => {
                if input.level_previous {
                    self.pause_level = previous_level_index(self.pause_level, level_count);
                }
                if input.level_next {
                    self.pause_level = next_level_index(self.pause_level, level_count);
                }
            },
            _ => {},
        }
        if !input.confirm {
            return StepOutcome { reset_level: false, exit: false, play: false };
        }
        match option {
            PauseMenuOption::Continue => {
                self.state = GameState::Playing;
                StepOutcome { reset_level: false, exit: false, play: false }
            },
            PauseMenuOption::ChangeLevel => {
                self.selected_level = self.pause_level;
                self.render_mode = RenderMode::Mode3D;
                self.state = GameState::Playing;
                StepOutcome { reset_level: true, exit: false, play: false }
            },
            PauseMenuOption::MainMenu => {
                self.render_mode = RenderMode::Mode3D;
                self.state = GameState::Welcome;
                StepOutcome { reset_level: true, exit: false, play: false }
            },
        }
    }

    fn won(&mut self, input: FrameInput, level_count: usize) -> (outcome: StepOutcome)
        requires
            old(self).wf(level_count),
            old(self).state == GameState::Won,
        ensures
            (*final(self), outcome) == old(self).won_step(input, level_count),
            final(self).wf(level_count),
    {
        let option_count = victory_option_count(self.selected_level, level_count);
        if input.menu_up {
            self.victory_index = previous_menu_index(self.victory_index, option_count);
        }
        if input.menu_down {
            self.victory_index = next_menu_index(self.victory_index, option_count);
        }
        let mut outcome = StepOutcome { reset_level: false, exit: false, play: false };
        if input.restart {
            self.state = GameState::Playing;
            outcome = StepOutcome { reset_level: true, exit: false, play: false };
        }
        if input.confirm {
            match victory_option_at(self.victory_index, self.selected_level, level_count) {
                VictoryMenuOption::Restart => {
                    self.state = GameState::Playing;
                },
                VictoryMenuOption::NextLevel => {
                    self.selected_level = self.selected_level + 1;
                    self.render_mode = RenderMode::Mode3D;
                    self.state = GameState::Playing;
                },
                VictoryMenuOption::MainMenu => {
                    self.render_mode = RenderMode::Mode3D;
                    self.state = GameState::Welcome;
                },
            }
            outcome = StepOutcome { reset_level: true, exit: false, play: false };
        }
        outcome
    }

    /// Ends a frame of play with what happened in it.
    pub fn finish_play(&mut self, caught: bool, reached_goal: bool, toggle_view: bool)
        requires
            old(self).state == GameState::Playing,
        ensures
            *final(self) == old(self).finish_spec(caught, reached_goal, toggle_view),
    {
        if caught {
            self.state = GameState::Lost;
        } else if reached_goal {
            self.state = GameState::Won;
            self.victory_index = 0;
        } else if toggle_view {
            self.render_mode = self.render_mode.toggle();
        }
    }
}

/// Pausing and then pressing the pause key again goes back to the same
/// level, in the same view, with nothing reset.
pub proof fn lemma_pause_round_trip(session: Session, pause: FrameInput, resume: FrameInput, level_count: usize)
    requires
        session.state == GameState::Playing,
        pause.pause,
        resume.pause,
    ensures
        ({
            let (paused, first) = session.step_spec(pause, level_count);
            let (back, second) = paused.step_spec(resume, level_count);
            &&& paused.state == GameState::Paused
            &&& back.state == GameState::Playing
            &&& back.selected_level == session.selected_level
            &&& back.render_mode == session.render_mode
            &&& !first.reset_level && !second.reset_level
        }),
{
}

/// A lost level is played again from its start once the player restarts
/// or confirms.
pub proof fn lemma_lost_level_restarts(session: Session, input: FrameInput, level_count: usize)
    requires
        session.state == GameState::Lost,
        input.restart || input.confirm,
    ensures
        session.step_spec(input, level_count).0.state == GameState::Playing,
        session.step_spec(input, level_count).0.selected_level == session.selected_level,
        session.step_spec(input, level_count).1.reset_level,
{
}

/// Confirming an entry of the pause menu, without moving through the menu
/// or pressing the pause key: "continue" resumes the same level where it
/// was, with nothing reset and the view kept; "change level" plays the
/// level chosen in the menu from its start in the 3D view; "main menu"
/// goes to the welcome screen with the level reset and the 3D view.
pub proof fn lemma_pause_menu_choices(session: Session, input: FrameInput, level_count: usize)
    requires
        session.wf(level_count),
        session.state == GameState::Paused,
        input.confirm,
        !input.pause,
        !input.menu_up,
        !input.menu_down,
        !input.level_previous,
        !input.level_next,
    ensures
        ({
            let (after, outcome) = session.step_spec(input, level_count);
            &&& !outcome.exit && !outcome.play
            &&& after.welcome_option == session.welcome_option
            &&& after.pause_index == session.pause_index
            &&& after.pause_level == session.pause_level
            &&& after.victory_index == session.victory_index
            &&& session.pause_index == 0 ==> {
                &&& after.state == GameState::Playing
                &&& !outcome.reset_level
                &&& after.selected_level == session.selected_level
                &&& after.render_mode == session.render_mode
            }
            &&& session.pause_index == 1 ==> {
                &&& after.state == GameState::Playing
                &&& outcome.reset_level
                &&& after.selected_level == session.pause_level
                &&& after.render_mode == RenderMode::Mode3D
            }
            &&& session.pause_index == 2 ==> {
                &&& after.state == GameState::Welcome
                &&& outcome.reset_level
                &&& after.selected_level == session.selected_level
                &&& after.render_mode == RenderMode::Mode3D
            }
        }),
{
}

/// Confirming an entry of the welcome menu without moving through it or
/// changing the level: "start" plays the selected level from its start,
/// "change level" selects the next level (wrapping to the first) and stays
/// on the menu, "exit" closes the game with nothing reset.
pub proof fn lemma_welcome_menu_choices(session: Session, input: FrameInput, level_count: usize)
    requires
        session.wf(level_count),
        session.state == GameState::Welcome,
        input.confirm,
        !input.menu_up,
        !input.menu_down,
        !input.level_previous,
        !input.level_next,
    ensures
        ({
            let (after, outcome) = session.step_spec(input, level_count);
            &&& !outcome.play
            &&& after.welcome_option == session.welcome_option
            &&& after.render_mode == session.render_mode
            &&& session.welcome_option == WelcomeMenuOption::Start ==> {
                &&& after.state == GameState::Playing
                &&& outcome.reset_level && !outcome.exit
                &&& after.selected_level == session.selected_level
            }
            &&& session.welcome_option == WelcomeMenuOption::ChangeLevel ==> {
                &&& after.state == GameState::Welcome
                &&& outcome.reset_level && !outcome.exit
                &&& (session.selected_level + 1 < level_count ==> after.selected_level
                    == session.selected_level + 1)
                &&& (session.selected_level + 1 == level_count ==> after.selected_level == 0)
            }
            &&& session.welcome_option == WelcomeMenuOption::Exit ==> {
                &&& after.state == GameState::Welcome
                &&& !outcome.reset_level && outcome.exit
                &&& after.selected_level == session.selected_level
            }
        }),
{
    let s = session.selected_level as int;
    let n = level_count as int;
    if s + 1 < n {
        vstd::arithmetic::div_mod::lemma_small_mod((s + 1) as nat, n as nat);
    } else {
        vstd::arithmetic::div_mod::lemma_mod_self_0(n);
    }
}

/// Moving through the welcome menu or the levels on the welcome screen,
/// without confirming: up and down wrap round the three entries, the level
/// keys wrap round the levels, and a level change resets the level and goes
/// back to the 3D view.
pub proof fn lemma_welcome_menu_moves(session: Session, input: FrameInput, level_count: usize)
    requires
        session.wf(level_count),
        session.state == GameState::Welcome,
        !input.confirm,
    ensures
        ({
            let (after, outcome) = session.step_spec(input, level_count);
            &&& after.state == GameState::Welcome
            &&& !outcome.exit && !outcome.play
            &&& (input.menu_up && !input.menu_down ==> welcome_position(after.welcome_option) == (
            welcome_position(session.welcome_option) + 2) % 3)
            &&& (input.menu_down && !input.menu_up ==> welcome_position(after.welcome_option) == (
            welcome_position(session.welcome_option) + 1) % 3)
            &&& (!input.menu_up && !input.menu_down ==> after.welcome_option == session.welcome_option)
            &&& (input.level_next && !input.level_previous ==> after.selected_level == (
            session.selected_level + 1) % (level_count as int))
            &&& (input.level_previous && !input.level_next ==> after.selected_level == (
            session.selected_level + level_count - 1) % (level_count as int))
            &&& (outcome.reset_level <==> after.selected_level != session.selected_level)
            &&& (outcome.reset_level ==> after.render_mode == RenderMode::Mode3D)
            &&& (!outcome.reset_level ==> after.render_mode == session.render_mode)
        }),
{
}

/// Confirming an entry of the victory menu without moving through it:
/// "restart" plays the same level again, "next level" plays the following
/// level (offered only when there is one), "main menu" goes to the welcome
/// screen; each resets the level.
pub proof fn lemma_victory_menu_choices(session: Session, input: FrameInput, level_count: usize)
    requires
        session.wf(level_count),
        session.state == GameState::Won,
        input.confirm,
        !input.menu_up,
        !input.menu_down,
    ensures
        ({
            let (after, outcome) = session.step_spec(input, level_count);
            let last = session.selected_level + 1 == level_count;
            &&& outcome.reset_level && !outcome.exit && !outcome.play
            &&& session.victory_index == 0 ==> after.state == GameState::Playing
                && after.selected_level == session.selected_level
            &&& (session.victory_index == 1 && !last) ==> after.state == GameState::Playing
                && after.selected_level == session.selected_level + 1 && after.render_mode
                == RenderMode::Mode3D
            &&& (session.victory_index == 1 && last) ==> after.state == GameState::Welcome
                && after.selected_level == session.selected_level
            &&& session.victory_index == 2 ==> after.state == GameState::Welcome
                && after.selected_level == session.selected_level && after.render_mode
                == RenderMode::Mode3D
        }),
{
}

/// Pressing pause while playing opens the pause menu on its first entry,
/// with the level being played chosen and nothing reset.
pub proof fn lemma_pause_opens_menu(session: Session, input: FrameInput, level_count: usize)
    requires
        session.state == GameState::Playing,
        input.pause,
    ensures
        ({
            let (after, outcome) = session.step_spec(input, level_count);
            &&& after.state == GameState::Paused
            &&& after.pause_index == 0
            &&& after.pause_level == session.selected_level
            &&& after.selected_level == session.selected_level
            &&& after.render_mode == session.render_mode
            &&& !outcome.reset_level && !outcome.exit && !outcome.play
        }),
{
}

/// The end of a frame of play: being caught loses the level even on the
/// goal; reaching the goal wins it with the first victory entry highlighted;
/// otherwise the view key switches between the 2D and the 3D view and
/// nothing else changes. The level never changes.
pub proof fn lemma_finish_play_outcomes(session: Session, caught: bool, reached_goal: bool, toggle_view: bool)
    requires
        session.state == GameState::Playing,
    ensures
        ({
            let after = session.finish_spec(caught, reached_goal, toggle_view);
            &&& after.selected_level == session.selected_level
            &&& caught ==> after.state == GameState::Lost && after.render_mode == session.render_mode
            &&& (!caught && reached_goal) ==> after.state == GameState::Won && after.victory_index == 0
                && after.render_mode == session.render_mode
            &&& (!caught && !reached_goal) ==> after.state == GameState::Playing && (toggle_view
                <==> after.render_mode != session.render_mode)
        }),
{
}

} // verus!
