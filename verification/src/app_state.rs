use crate::board::{empty_row, BOARD_HEIGHT};
use crate::game_state::{
    add_clamped, game_handle_rel, game_wf, tick_cues, tick_rel, GameState, GameV, Input,
};
use crate::piece_bag::fresh_bag;
use crate::sound_queue::{enq_all, SoundQueue};
use vstd::prelude::*;

verus! {

/// The outermost mode switch: menu, play, or the loss screen.
#[derive(Clone, Copy, Debug, PartialEq, Eq, Structural)]
pub enum Mode {
    Menu,
    Playing,
    Lost,
}

/// Mathematical image of a session: the mode, the game, and the score
/// bookkeeping.
#[verifier::ext_equal]
pub ghost struct AppV {
    pub mode: Mode,
    pub game: GameV,
    pub score: int,
    pub high_score: int,
}

/// A well-formed session: sound game, scores in machine range.
pub open spec fn app_wf(a: AppV) -> bool {
    &&& game_wf(a.game)
    &&& 0 <= a.score <= u64::MAX
    &&& 0 <= a.high_score <= u64::MAX
}

/// A freshly reset game: empty board, no piece, counters at zero, fresh
/// supply.
pub open spec fn fresh_game(g: GameV) -> bool {
    &&& game_wf(g)
    &&& g.turns == 0
    &&& g.cleared == 0
    &&& g.active is None
    &&& fresh_bag(g.bag)
    &&& forall|j: int| 0 <= j < BOARD_HEIGHT ==> g.board[j] == empty_row()
}

/// A start (or restart) into play: a fresh game with the score reset; the
/// high score survives.
pub open spec fn restarted(pre: AppV, post: AppV) -> bool {
    &&& post.mode == Mode::Playing
    &&& post.score == 0
    &&& post.high_score == pre.high_score
    &&& fresh_game(post.game)
}

/// How one input event transforms the session. Quit and escape end the
/// program and change nothing. The pause control starts play on a fresh
/// game, with the score reset, from the menu or the loss screen, and pauses
/// back to the menu from play (pause, not abandon: the game survives the
/// menu, but starting play always begins afresh). Confirm starts or
/// restarts likewise, but while playing it is forwarded to the game. Every
/// other event is forwarded to the game only while playing.
pub open spec fn app_handle_rel(pre: AppV, post: AppV, input: Input, r: bool) -> bool {
    match input {
        Input::Quit | Input::Escape => r == false && post == pre,
        Input::Pause => r == true && (match pre.mode {
            Mode::Playing => post == (AppV { mode: Mode::Menu, ..pre }),
            Mode::Menu | Mode::Lost => restarted(pre, post),
        }),
        Input::Confirm => r == true && (match pre.mode {
            Mode::Playing => {
                &&& post.mode == Mode::Playing
                &&& post.score == pre.score
                &&& post.high_score == pre.high_score
                &&& game_handle_rel(pre.game, post.game, Input::Confirm)
            },
            Mode::Menu | Mode::Lost => restarted(pre, post),
        }),
        _ => r == true && (match pre.mode {
            Mode::Playing => {
                &&& post.mode == Mode::Playing
                &&& post.score == pre.score
                &&& post.high_score == pre.high_score
                &&& game_handle_rel(pre.game, post.game, input)
            },
            _ => post == pre,
        }),
    }
}

/// How one frame tick transforms the session: nothing happens outside play;
/// in play the game ticks, the score absorbs the tick's delta, and a
/// terminal tick switches to the loss screen, promoting the score to the
/// high score if it beats it.
pub open spec fn app_update_rel(pre: AppV, post: AppV) -> bool {
    match pre.mode {
        Mode::Menu | Mode::Lost => post == pre,
        Mode::Playing => exists|r: Option<u64>|
            #[trigger] tick_rel(pre.game, post.game, r) && (match r {
                Some(s) => {
                    &&& post.mode == Mode::Playing
                    &&& post.score == add_clamped(pre.score, s as int)
                    &&& post.high_score == pre.high_score
                },
                None => {
                    &&& post.mode == Mode::Lost
                    &&& post.score == pre.score
                    &&& post.high_score == (if pre.score > pre.high_score {
                        pre.score
                    } else {
                        pre.high_score
                    })
                },
            }),
    }
}

/// The outermost state: mode switch, the game, and score bookkeeping.
pub struct AppState {
    mode: Mode,
    game_state: GameState,
    score: u64,
    high_score: u64,
}

impl View for AppState {
    type V = AppV;

    closed spec fn view(&self) -> AppV {
        AppV {
            mode: self.mode,
            game: self.game_state@,
            score: self.score as int,
            high_score: self.high_score as int,
        }
    }
}

impl AppState {
    pub open spec fn wf(&self) -> bool {
        app_wf(self@)
    }

    /// The view reads the fields one for one.
    proof fn view_bridge(&self)
        ensures
            self@.mode == self.mode,
            self@.game == self.game_state@,
            self@.score == self.score as int,
            self@.high_score == self.high_score as int,
    {
    }

    /// A fresh session: at the menu, scores at zero, fresh game behind it.
    pub fn new() -> (a: AppState)
        ensures
            a.wf(),
            a@.mode == Mode::Menu,
            a@.score == 0,
            a@.high_score == 0,
            fresh_game(a@.game),
    {
        let a = AppState {
            mode: Mode::Menu,
            game_state: GameState::new(),
            score: 0,
            high_score: 0,
        };
        proof {
            a.view_bridge();
        }
        a
    }

    /// The current mode, for the rendering collaborator.
    pub fn mode(&self) -> (m: Mode)
        ensures
            m == self@.mode,
    {
        proof {
            self.view_bridge();
        }
        self.mode
    }

    /// Read access to the game, for the rendering collaborator.
    pub fn game(&self) -> (g: &GameState)
        ensures
            g@ == self@.game,
    {
        proof {
            self.view_bridge();
        }
        &self.game_state
    }

    /// The session score.
    pub fn score(&self) -> (s: u64)
        ensures
            s as int == self@.score,
    {
        proof {
            self.view_bridge();
        }
        self.score
    }

    /// The best score of any session so far.
    pub fn high_score(&self) -> (s: u64)
        ensures
            s as int == self@.high_score,
    {
        proof {
            self.view_bridge();
        }
        self.high_score
    }

    /// Dispatch one input event through the mode switch. Returns whether the
    /// program should keep running.
    pub fn handle(&mut self, input: Input) -> (r: bool)
        requires
            old(self).wf(),
        ensures
            final(self).wf(),
            app_handle_rel(old(self)@, final(self)@, input, r),
    {
        proof {
            self.view_bridge();
        }
        match input {
            Input::Quit | Input::Escape => false,
            Input::Pause => {
                match self.mode {
                    Mode::Playing => {
                        self.mode = Mode::Menu;
                        proof {
                            self.view_bridge();
                            assert(self@ =~~= (AppV { mode: Mode::Menu, ..old(self)@ }));
                        }
                    },
                    Mode::Menu | Mode::Lost => {
                        self.game_state = GameState::new();
                        self.score = 0;
                        self.mode = Mode::Playing;
                        proof {
                            self.view_bridge();
                        }
                    },
                }
                true
            },
            Input::Confirm => {
                match self.mode {
                    Mode::Playing => {
                        let r = self.game_state.handle(Input::Confirm);
                        proof {
                            self.view_bridge();
                        }
                        r
                    },
                    Mode::Menu | Mode::Lost => {
                        self.game_state = GameState::new();
                        self.score = 0;
                        self.mode = Mode::Playing;
                        proof {
                            self.view_bridge();
                        }
                        true
                    },
                }
            },
            _ => {
                if self.mode == Mode::Playing {
                    let r = self.game_state.handle(input);
                    proof {
                        self.view_bridge();
                    }
                    r
                } else {
                    proof {
                        assert(self@ =~~= old(self)@);
                    }
                    true
                }
            },
        }
    }

    /// Run one frame tick through the mode switch: the game advances only
    /// while playing; a terminal tick moves to the loss screen and updates
    /// the high score.
    pub fn update(&mut self, sounds: &mut SoundQueue)
        requires
            old(self).wf(),
        ensures
            final(self).wf(),
            app_update_rel(old(self)@, final(self)@),
            final(sounds)@ == (if old(self)@.mode is Playing {
                enq_all(old(sounds)@, tick_cues(old(self)@.game))
            } else {
                old(sounds)@
            }),
    {
        proof {
            self.view_bridge();
        }
        match self.mode {
            Mode::Menu | Mode::Lost => {
                proof {
                    assert(self@ =~~= old(self)@);
                }
            },
            Mode::Playing => {
                let delta = self.game_state.update(sounds);
                match delta {
                    Some(s) => {
                        if s <= u64::MAX - self.score {
                            self.score = self.score + s;
                        } else {
                            self.score = u64::MAX;
                        }
                        proof {
                            self.view_bridge();
                            assert(tick_rel(old(self)@.game, self@.game, Some(s)));
                        }
                    },
                    None => {
                        self.mode = Mode::Lost;
                        if self.score > self.high_score {
                            self.high_score = self.score;
                        }
                        proof {
                            self.view_bridge();
                            assert(tick_rel(old(self)@.game, self@.game, None::<u64>));
                        }
                    },
                }
            },
        }
    }
}

} // verus!
