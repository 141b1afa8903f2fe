//! One play session: an introduction screen, then a puzzle. The session
//! decides what each input of the player does; showing the screen and reading
//! the inputs is left to whoever owns it.

use vstd::prelude::*;
use crate::board::{
    after_reset, after_try_move, after_undo, status_of, Cell, GameStatus,
};
use crate::engine::{PuzzleEngine, DEFAULT_SIZE};

verus! {

/// What the player sees.
#[derive(Clone, Copy, Debug, PartialEq, Eq, Structural)]
pub enum Screen {
    /// The introduction, before the first input.
    Intro,
    /// The board, with arrows to move.
    Playing,
    /// The board in its solved configuration.
    Solved,
    /// The board with no move left.
    GameOver,
}

/// What the player did.
#[derive(Clone, Copy, Debug, PartialEq, Eq, Structural)]
pub enum Input {
    /// A click on the cell with the given position.
    Click(usize),
    /// The key that starts over.
    ResetKey,
    /// The key that takes a move back.
    UndoKey,
    /// Anything else.
    Other,
}

/// The screen for a session that has or has not left the introduction and
/// whose board in play is `b`.
pub open spec fn screen_of(started: bool, b: Seq<Cell>) -> Screen {
    if !started {
        Screen::Intro
    } else {
        match status_of(b) {
            GameStatus::Playing => Screen::Playing,
            GameStatus::Solved => Screen::Solved,
            GameStatus::Stuck => Screen::GameOver,
        }
    }
}

/// Whether the session has left the introduction after `input`: a click or
/// the reset key leaves it, nothing brings it back.
pub open spec fn started_after(started: bool, input: Input) -> bool {
    match input {
        Input::Click(_) => true,
        Input::ResetKey => true,
        _ => started,
    }
}

/// The history of a puzzle of size `n` after `input`. A click on the
/// introduction only leaves it. A click on a board in play tries the move; on
/// a solved or stuck board it starts over. The reset key always starts over.
/// The undo key takes a move back while the board is in play.
pub open spec fn history_after(started: bool, h: Seq<Seq<Cell>>, n: nat, input: Input) -> Seq<
    Seq<Cell>,
> {
    match input {
        Input::Click(i) => match screen_of(started, h.last()) {
            Screen::Intro => h,
            Screen::Playing => after_try_move(h, i as int),
            _ => after_reset(n),
        },
        Input::ResetKey => after_reset(n),
        Input::UndoKey => if screen_of(started, h.last()) == Screen::Playing {
            after_undo(h)
        } else {
            h
        },
        Input::Other => h,
    }
}

/// A play session.
pub struct Session {
    /// Whether the introduction has been left.
    pub started: bool,
    /// The puzzle.
    pub engine: PuzzleEngine,
}

impl Session {
    /// The puzzle's history is valid.
    pub open spec fn wf(&self) -> bool {
        self.engine.wf()
    }

    /// The screen this session shows.
    pub open spec fn spec_screen(&self) -> Screen {
        screen_of(self.started, self.engine.current())
    }

    /// A session at its introduction, with a puzzle of the classic size behind
    /// it.
    pub fn new() -> (session: Self)
        ensures
            session.wf(),
            !session.started,
            session.engine@ == after_reset(DEFAULT_SIZE as nat),
            session.engine.spec_size() == DEFAULT_SIZE,
            session.spec_screen() == Screen::Intro,
    {
        Session { started: false, engine: PuzzleEngine::new() }
    }

    /// The screen to show.
    pub fn screen(&self) -> (screen: Screen)
        requires
            self.wf(),
        ensures
            screen == self.spec_screen(),
    {
        if !self.started {
            Screen::Intro
        } else {
            match self.engine.status() {
                GameStatus::Playing => Screen::Playing,
                GameStatus::Solved => Screen::Solved,
                GameStatus::Stuck => Screen::GameOver,
            }
        }
    }

    /// Takes one input of the player and returns the screen to show after it.
    pub fn handle(&mut self, input: Input) -> (screen: Screen)
        requires
            old(self).wf(),
        ensures
            final(self).wf(),
            final(self).engine.spec_size() == old(self).engine.spec_size(),
            final(self).started == started_after(old(self).started, input),
            final(self).engine@ == history_after(
                old(self).started,
                old(self).engine@,
                old(self).engine.spec_size(),
                input,
            ),
            screen == final(self).spec_screen(),
    {
        let before = self.screen();
        match input {
            Input::Click(index) => {
                match before {
                    Screen::Intro => {},
                    Screen::Playing => {
                        self.engine.try_move(index);
                    },
                    _ => {
                        self.engine.reset();
                    },
                }
                self.started = true;
            },
            Input::ResetKey => {
                self.engine.reset();
                self.started = true;
            },
            Input::UndoKey => {
                if before == Screen::Playing {
                    self.engine.undo();
                }
            },
            Input::Other => {},
        }
        self.screen()
    }
}

} // verus!
