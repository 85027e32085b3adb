use crate::board::{
    board_wf, clear_full, compact_pass, full_count, lemma_clear_rows_eq_clear_full,
    lemma_full_rows_upto_bounds, Board, BOARD_HEIGHT, BOARD_WIDTH,
};
use crate::piece_bag::{bag_next_rel, bag_swap_rel, bag_wf, fresh_bag, spec_peek, BagView, PieceBag};
use crate::player_piece::{
    lemma_legal_piece_wf, lemma_stationary_preserves, moved, piece_cell, piece_in_bounds, piece_wf,
    spec_go_left, spec_go_right, spec_legal, spec_rotate, with_stationary, PieceView, PlayerPiece,
};
use crate::sound_queue::{enq_all, lemma_enq_all_snoc, Sound, SoundQueue};
use vstd::prelude::*;

verus! {

/// One discrete input event, already mapped from the input device to its
/// meaning: a key action or a mouse action on a board cell.
#[derive(Clone, Copy, Debug, PartialEq, Eq, Structural)]
pub enum Input {
    /// End the program.
    Quit,
    /// End the program.
    Escape,
    /// Pause or resume; from the menu or the loss screen, start playing.
    Pause,
    /// Confirm; while playing this doubles as a rotation key.
    Confirm,
    /// Move the falling piece one cell left.
    Left,
    /// Move the falling piece one cell right.
    Right,
    /// Drop the falling piece straight down to its resting position.
    Down,
    /// Rotate the falling piece.
    Rotate,
    /// Exchange the falling piece through the supply (hold).
    Swap,
    /// Toggle the occupancy of one board cell.
    ToggleCell { x: usize, y: usize },
    /// Set one board cell occupied (mouse drag painting).
    PaintCell { x: usize, y: usize },
}

/// Mathematical image of the whole game: the board, the tick counter, the
/// optional falling piece, the supply and the count of cleared lines.
#[verifier::ext_equal]
pub ghost struct GameV {
    pub board: Seq<Seq<bool>>,
    pub turns: int,
    pub active: Option<PieceView>,
    pub bag: BagView,
    pub cleared: int,
}

/// A well-formed game: sound board and supply, counters in machine range,
/// and a falling piece (when present) that is sound and inside the field.
pub open spec fn game_wf(g: GameV) -> bool {
    &&& board_wf(g.board)
    &&& bag_wf(g.bag)
    &&& 0 <= g.turns <= u64::MAX
    &&& 0 <= g.cleared <= u64::MAX
    &&& (g.active matches Some(p) ==> piece_wf(p) && piece_in_bounds(p))
}

/// How many ticks pass between simulation steps: the game speeds up as lines
/// are cleared, but never below one tick.
pub open spec fn cadence(cleared: int) -> int {
    if cleared / 3 >= 29 {
        1
    } else {
        30 - cleared / 3
    }
}

/// Whether the simulation acts on this tick.
pub open spec fn eligible(g: GameV) -> bool {
    g.turns % cadence(g.cleared) == 0
}

/// Whether any cell in the top four rows is occupied: the game-over
/// condition.
pub open spec fn top_blocked(b: Seq<Seq<bool>>) -> bool {
    exists|x: int, y: int| 0 <= x < BOARD_WIDTH as int && 0 <= y < 4 && b[y][x]
}

/// The board with the piece's tiles written in as occupied cells.
pub open spec fn lock_board(b: Seq<Seq<bool>>, p: PieceView) -> Seq<Seq<bool>> {
    Seq::new(
        b.len(),
        |j: int| Seq::new(b[j].len(), |x: int| b[j][x] || piece_cell(p, x, j)),
    )
}

/// The tick counter after one update: it always advances, wrapping at the
/// machine limit.
pub open spec fn next_turn(t: int) -> int {
    if t == u64::MAX {
        0
    } else {
        t + 1
    }
}

/// The cleared-lines counter absorbs `k` more lines, saturating at the
/// machine limit.
pub open spec fn add_clamped(c: int, k: int) -> int {
    if c + k > u64::MAX {
        u64::MAX as int
    } else {
        c + k
    }
}

/// The points one tick awards for clearing `k` rows at once:
/// `1 + 2 + ... + k`, that is `k * (k + 1) / 2`.
pub open spec fn score_of(k: int) -> int {
    k * (k + 1) / 2
}

/// Whether this tick's piece step locks the falling piece into the board:
/// it cannot move down and its grace tick is already spent.
pub open spec fn piece_locks(g: GameV) -> bool {
    match g.active {
        Some(p) => !spec_legal(moved(p, 0, 1), g.board) && p.stationary,
        None => false,
    }
}

/// The board after the piece step of one eligible tick: unchanged unless the
/// piece locks, in which case its tiles are written in.
pub open spec fn board_after_piece_step(g: GameV) -> Seq<Seq<bool>> {
    match g.active {
        Some(p) => if !spec_legal(moved(p, 0, 1), g.board) && p.stationary {
            lock_board(g.board, p)
        } else {
            g.board
        },
        None => g.board,
    }
}

/// The falling piece after the piece step of one eligible tick: a spawned
/// piece when there was none; one cell lower (grace cleared) when gravity
/// succeeds; absent after a lock; otherwise the same piece with its grace
/// tick spent.
pub open spec fn active_after_piece_step(g: GameV) -> Option<PieceView> {
    match g.active {
        None => Some(spec_peek(g.bag)),
        Some(p) => if spec_legal(moved(p, 0, 1), g.board) {
            Some(with_stationary(moved(p, 0, 1), false))
        } else if p.stationary {
            None
        } else {
            Some(with_stationary(p, true))
        },
    }
}

/// How the supply changes over one eligible tick: one draw when a piece
/// spawns, untouched otherwise.
pub open spec fn bag_after_rel(g: GameV, post_bag: BagView) -> bool {
    match g.active {
        None => bag_next_rel(g.bag, post_bag, spec_peek(g.bag)),
        Some(p) => post_bag == g.bag,
    }
}

/// A run of `n` row-clear cues.
pub open spec fn clear_cues(n: nat) -> Seq<Sound> {
    Seq::new(n, |i: int| Sound::Clear)
}

/// The cues the piece step emits: one `Ground` cue when the piece locks.
pub open spec fn ground_cues(g: GameV) -> Seq<Sound> {
    if piece_locks(g) {
        seq![Sound::Ground]
    } else {
        Seq::empty()
    }
}

/// The sound cues one update emits, in order: `End` on game over; `Ground`
/// when the piece locks, then one `Clear` per full row.
pub open spec fn tick_cues(g: GameV) -> Seq<Sound> {
    if !eligible(g) {
        Seq::empty()
    } else if top_blocked(g.board) {
        seq![Sound::End]
    } else {
        ground_cues(g) + clear_cues(full_count(board_after_piece_step(g)) as nat)
    }
}

/// How one update call transforms the game. On an ineligible tick only the
/// counter advances and the score delta is zero. On an eligible tick with
/// the top four rows blocked, the game reports the terminal outcome and
/// leaves everything but the counter untouched. Otherwise the piece step
/// runs (spawn, fall, grace, or lock), every full row is wiped and scored,
/// and the gravity pass compacts the board.
pub open spec fn tick_rel(pre: GameV, post: GameV, r: Option<u64>) -> bool {
    if !eligible(pre) {
        &&& post == (GameV { turns: next_turn(pre.turns), ..pre })
        &&& r == Some(0u64)
    } else if top_blocked(pre.board) {
        &&& post == (GameV { turns: next_turn(pre.turns), ..pre })
        &&& r is None
    } else {
        let mid_board = board_after_piece_step(pre);
        let k = full_count(mid_board);
        &&& post.board == compact_pass(clear_full(mid_board))
        &&& post.active == active_after_piece_step(pre)
        &&& bag_after_rel(pre, post.bag)
        &&& post.cleared == add_clamped(pre.cleared, k)
        &&& post.turns == next_turn(pre.turns)
        &&& r == Some(score_of(k) as u64)
    }
}

/// The board with one cell replaced.
pub open spec fn board_with_cell(b: Seq<Seq<bool>>, x: int, y: int, v: bool) -> Seq<Seq<bool>> {
    b.update(y, b[y].update(x, v))
}

/// How one input event transforms the game; side controls act immediately
/// and are not gated by the cadence. An illegal move or rotation leaves the
/// state untouched; a hold exchange is refused when the incoming piece would
/// overlap the board.
pub open spec fn game_handle_rel(pre: GameV, post: GameV, input: Input) -> bool {
    match input {
        Input::Left => match pre.active {
            Some(p) => match spec_go_left(p, pre.board) {
                Some(q) => post == (GameV { active: Some(q), ..pre }),
                None => post == pre,
            },
            None => post == pre,
        },
        Input::Right => match pre.active {
            Some(p) => match spec_go_right(p, pre.board) {
                Some(q) => post == (GameV { active: Some(q), ..pre }),
                None => post == pre,
            },
            None => post == pre,
        },
        Input::Down => match pre.active {
            Some(p) => {
                &&& post.board == pre.board
                &&& post.bag == pre.bag
                &&& post.turns == pre.turns
                &&& post.cleared == pre.cleared
                &&& exists|k: int|
                    #![trigger moved(p, 0, k)]
                    0 <= k && post.active == Some(moved(p, 0, k)) && !spec_legal(
                        moved(p, 0, k + 1),
                        pre.board,
                    ) && (forall|j: int| 1 <= j <= k ==> spec_legal(moved(p, 0, j), pre.board))
            },
            None => post == pre,
        },
        Input::Rotate | Input::Confirm => match pre.active {
            Some(p) => match spec_rotate(p, pre.board) {
                Some(q) => post == (GameV { active: Some(q), ..pre }),
                None => post == pre,
            },
            None => post == pre,
        },
        Input::Swap => match pre.active {
            Some(p) => if spec_legal(spec_peek(pre.bag), pre.board) {
                &&& post.board == pre.board
                &&& post.turns == pre.turns
                &&& post.cleared == pre.cleared
                &&& post.active == Some(spec_peek(pre.bag))
                &&& bag_swap_rel(pre.bag, post.bag, p, spec_peek(pre.bag))
            } else {
                post == pre
            },
            None => post == pre,
        },
        Input::ToggleCell { x, y } => if x < BOARD_WIDTH && y < BOARD_HEIGHT {
            post == (GameV {
                board: board_with_cell(
                    pre.board,
                    x as int,
                    y as int,
                    !pre.board[y as int][x as int],
                ),
                ..pre
            })
        } else {
            post == pre
        },
        Input::PaintCell { x, y } => if x < BOARD_WIDTH && y < BOARD_HEIGHT {
            post == (GameV {
                board: board_with_cell(pre.board, x as int, y as int, true),
                ..pre
            })
        } else {
            post == pre
        },
        Input::Quit | Input::Escape | Input::Pause => post == pre,
    }
}

/// The orchestrator: owns the board, the optional falling piece, the piece
/// supply, the tick counter and the cleared-lines counter, and drives the
/// per-tick state machine.
pub struct GameState {
    board: Board,
    turns: u64,
    active: Option<PlayerPiece>,
    bag: PieceBag,
    cleared: u64,
}

impl View for GameState {
    type V = GameV;

    closed spec fn view(&self) -> GameV {
        GameV {
            board: self.board@,
            turns: self.turns as int,
            active: match self.active {
                Some(p) => Some(p@),
                None => None,
            },
            bag: self.bag@,
            cleared: self.cleared as int,
        }
    }
}

impl GameState {
    pub open spec fn wf(&self) -> bool {
        game_wf(self@)
    }

    /// The view reads the fields one for one.
    proof fn view_bridge(&self)
        ensures
            self@.board == self.board@,
            self@.turns == self.turns as int,
            self@.cleared == self.cleared as int,
            self@.bag == self.bag@,
            (match self.active {
                Some(p) => self@.active == Some(p@),
                None => self@.active is None,
            }),
    {
    }

    /// A fresh game: empty board, no falling piece, fresh supply, counters
    /// at zero.
    pub fn new() -> (g: GameState)
        ensures
            g.wf(),
            g@.turns == 0,
            g@.cleared == 0,
            g@.active is None,
            fresh_bag(g@.bag),
            forall|j: int|
                0 <= j < BOARD_HEIGHT ==> g@.board[j] == crate::board::empty_row(),
    {
        let g = GameState {
            board: Board::new(),
            turns: 0,
            active: None,
            bag: PieceBag::new(),
            cleared: 0,
        };
        proof {
            g.view_bridge();
        }
        g
    }

    /// Read access to the board, for the rendering collaborator.
    pub fn board(&self) -> (b: &Board)
        ensures
            b@ == self@.board,
    {
        proof {
            self.view_bridge();
        }
        &self.board
    }

    /// Read access to the falling piece, for the rendering collaborator.
    pub fn active(&self) -> (a: &Option<PlayerPiece>)
        ensures
            (match a {
                Some(p) => self@.active == Some(p@),
                None => self@.active is None,
            }),
    {
        proof {
            self.view_bridge();
        }
        &self.active
    }

    /// Read access to the piece supply, for the next-piece preview.
    pub fn bag(&self) -> (b: &PieceBag)
        ensures
            b@ == self@.bag,
    {
        proof {
            self.view_bridge();
        }
        &self.bag
    }

    /// Advance the tick counter, wrapping at the machine limit.
    fn advance_turn(&mut self)
        ensures
            final(self)@ == (GameV { turns: next_turn(old(self)@.turns), ..old(self)@ }),
    {
        proof {
            self.view_bridge();
        }
        if self.turns == u64::MAX {
            self.turns = 0;
        } else {
            self.turns = self.turns + 1;
        }
        proof {
            self.view_bridge();
            assert(self@ =~~= (GameV { turns: next_turn(old(self)@.turns), ..old(self)@ }));
        }
    }

    /// Dispatch one input event: left/right step, instant drop, rotation,
    /// hold exchange, or a mouse edit of one cell. Returns whether the
    /// program should keep running (always true at this level).
    pub fn handle(&mut self, input: Input) -> (r: bool)
        requires
            old(self).wf(),
        ensures
            final(self).wf(),
            game_handle_rel(old(self)@, final(self)@, input),
            r == true,
    {
        proof {
            self.view_bridge();
        }
        match input {
            Input::Left => {
                match &self.active {
                    Some(piece) => {
                        let stepped = piece.go_left(&self.board);
                        if let Some(q) = stepped {
                            proof {
                                lemma_legal_piece_wf(q@, self.board@);
                            }
                            self.active = Some(q);
                            proof {
                                self.view_bridge();
                                assert(self@ =~~= (GameV {
                                    active: self@.active,
                                    ..old(self)@
                                }));
                            }
                        }
                    },
                    None => {},
                }
            },
            Input::Right => {
                match &self.active {
                    Some(piece) => {
                        let stepped = piece.go_right(&self.board);
                        if let Some(q) = stepped {
                            proof {
                                lemma_legal_piece_wf(q@, self.board@);
                            }
                            self.active = Some(q);
                            proof {
                                self.view_bridge();
                                assert(self@ =~~= (GameV {
                                    active: self@.active,
                                    ..old(self)@
                                }));
                            }
                        }
                    },
                    None => {},
                }
            },
            Input::Down => {
                match &self.active {
                    Some(piece) => {
                        let rested = piece.lowest_possible_position(&self.board);
                        proof {
                            let k = choose|k: int|
                                #![trigger moved(piece@, 0, k)]
                                0 <= k && rested@ == moved(piece@, 0, k) && !spec_legal(
                                    moved(piece@, 0, k + 1),
                                    self.board@,
                                ) && (forall|j: int|
                                    1 <= j <= k ==> spec_legal(moved(piece@, 0, j), self.board@));
                            if k == 0 {
                                assert(rested@ =~~= piece@);
                            } else {
                                assert(spec_legal(moved(piece@, 0, k), self.board@));
                                lemma_legal_piece_wf(rested@, self.board@);
                            }
                        }
                        self.active = Some(rested);
                        proof {
                            self.view_bridge();
                            assert(self@ =~~= (GameV { active: self@.active, ..old(self)@ }));
                        }
                    },
                    None => {},
                }
            },
            Input::Rotate | Input::Confirm => {
                match &self.active {
                    Some(piece) => {
                        let turned = piece.rotate(&self.board);
                        if let Some(q) = turned {
                            proof {
                                lemma_legal_piece_wf(q@, self.board@);
                            }
                            self.active = Some(q);
                            proof {
                                self.view_bridge();
                                assert(self@ =~~= (GameV {
                                    active: self@.active,
                                    ..old(self)@
                                }));
                            }
                        }
                    },
                    None => {},
                }
            },
            Input::Swap => {
                if self.active.is_some() {
                    let incoming_fits = {
                        let candidate = self.bag.peek();
                        candidate.legal(&self.board)
                    };
                    if incoming_fits {
                        let held = match self.active.take() {
                            Some(h) => h,
                            None => {
                                // the piece was just checked to be present
                                proof {
                                    assert(false);
                                }
                                PlayerPiece::new(0)
                            },
                        };
                        let dealt = self.bag.swap(held);
                        proof {
                            lemma_legal_piece_wf(dealt@, self.board@);
                        }
                        self.active = Some(dealt);
                        proof {
                            self.view_bridge();
                        }
                    }
                }
            },
            Input::ToggleCell { x, y } => {
                if x < BOARD_WIDTH && y < BOARD_HEIGHT {
                    let cur = self.board.is_occupied(x, y);
                    self.board.set_occupied(x, y, !cur);
                    proof {
                        self.view_bridge();
                        assert(self@ =~~= (GameV {
                            board: board_with_cell(
                                old(self)@.board,
                                x as int,
                                y as int,
                                !old(self)@.board[y as int][x as int],
                            ),
                            ..old(self)@
                        }));
                    }
                }
            },
            Input::PaintCell { x, y } => {
                if x < BOARD_WIDTH && y < BOARD_HEIGHT {
                    self.board.set_occupied(x, y, true);
                    proof {
                        self.view_bridge();
                        assert(self@ =~~= (GameV {
                            board: board_with_cell(old(self)@.board, x as int, y as int, true),
                            ..old(self)@
                        }));
                    }
                }
            },
            Input::Quit | Input::Escape | Input::Pause => {},
        }
        true
    }

    /// Run one simulation tick: game-over check, gravity/lock on the falling
    /// piece (or a spawn), line clear with scoring, and the gravity pass.
    /// Returns the score delta for the tick, or nothing on game over.
    pub fn update(&mut self, sounds: &mut SoundQueue) -> (r: Option<u64>)
        requires
            old(self).wf(),
        ensures
            final(self).wf(),
            tick_rel(old(self)@, final(self)@, r),
            final(sounds)@ == enq_all(old(sounds)@, tick_cues(old(self)@)),
    {
        proof {
            self.view_bridge();
        }
        let ghost pre = self@;
        let ghost q0 = sounds@;
        let div: u64 = self.cleared / 3;
        let cad: u64 = if div >= 29 {
            1
        } else {
            30 - div
        };
        proof {
            assert(cad as int == cadence(pre.cleared));
        }
        if self.turns % cad != 0 {
            self.advance_turn();
            proof {
                assert(!eligible(pre));
                crate::sound_queue::lemma_enq_all_empty(q0);
            }
            return Some(0);
        }
        if self.board.top_rows_occupied(4) {
            proof {
                assert(top_blocked(pre.board));
            }
            sounds.push(Sound::End);
            self.advance_turn();
            proof {
                crate::sound_queue::lemma_enq_all_one(q0, Sound::End);
                assert(tick_cues(pre) == seq![Sound::End]);
            }
            return None;
        }
        proof {
            assert(!top_blocked(pre.board));
        }
        let ghost cues1 = ground_cues(pre);
        let mut slot: Option<PlayerPiece> = None;
        core::mem::swap(&mut self.active, &mut slot);
        match slot {
            Some(piece) => {
                proof {
                    assert(pre.active == Some(piece@));
                }
                match piece.go_down(&self.board) {
                    Some(p) => {
                        proof {
                            lemma_legal_piece_wf(p@, self.board@);
                        }
                        let p2 = p.set_stationary(false);
                        proof {
                            lemma_stationary_preserves(p@, false);
                        }
                        self.active = Some(p2);
                        proof {
                            self.view_bridge();
                            crate::sound_queue::lemma_enq_all_empty(q0);
                        }
                    },
                    None => {
                        if piece.is_stationary() {
                            let tiles = piece.get_tiles();
                            let ghost pv = piece@;
                            let ghost b0 = self.board@;
                            proof {
                                lemma_lock_upto_zero(b0, pv);
                                self.view_bridge();
                            }
                            let mut i: usize = 0;
                            while i < 4
                                invariant
                                    self.board.wf(),
                                    self@.active is None,
                                    self@.bag == pre.bag,
                                    self@.turns == pre.turns,
                                    self@.cleared == pre.cleared,
                                    sounds@ == q0,
                                    board_wf(b0),
                                    piece_wf(pv),
                                    piece_in_bounds(pv),
                                    tiles@.len() == 4,
                                    forall|t: int|
                                        0 <= t < 4 ==> (#[trigger] tiles@[t]).x as int
                                            == pv.anchor_x + pv.tiles[t].0 && tiles@[t].y as int
                                            == pv.anchor_y + pv.tiles[t].1,
                                    i <= 4,
                                    self.board@ == lock_upto(b0, pv, i as int),
                                decreases 4 - i,
                            {
                                let t = tiles[i];
                                proof {
                                    assert(crate::player_piece::in_bounds_at(pv, i as int));
                                }
                                let ghost bcur = self.board@;
                                self.board.set_occupied(t.x as usize, t.y as usize, true);
                                proof {
                                    self.view_bridge();
                                    lemma_lock_step(
                                        b0,
                                        bcur,
                                        pv,
                                        i as int,
                                        t.x as int,
                                        t.y as int,
                                    );
                                }
                                i = i + 1;
                            }
                            proof {
                                lemma_lock_upto_full(b0, pv);
                            }
                            sounds.push(Sound::Ground);
                            proof {
                                self.view_bridge();
                                crate::sound_queue::lemma_enq_all_one(q0, Sound::Ground);
                                assert(piece_locks(pre));
                            }
                        } else {
                            let p2 = piece.set_stationary(true);
                            proof {
                                lemma_stationary_preserves(piece@, true);
                            }
                            self.active = Some(p2);
                            proof {
                                self.view_bridge();
                                crate::sound_queue::lemma_enq_all_empty(q0);
                            }
                        }
                    },
                }
            },
            None => {
                proof {
                    assert(pre.active is None);
                }
                let spawned = self.bag.next();
                self.active = Some(spawned);
                proof {
                    self.view_bridge();
                    crate::sound_queue::lemma_enq_all_empty(q0);
                }
            },
        }
        proof {
            self.view_bridge();
            assert(self@.board == board_after_piece_step(pre));
            assert(self@.active == active_after_piece_step(pre));
            assert(bag_after_rel(pre, self@.bag));
            assert(sounds@ == enq_all(q0, cues1));
            assert(self@.turns == pre.turns && self@.cleared == pre.cleared);
        }
        let ghost midg = self@;
        let found = self.board.find_full_rows();
        let k = found.len();
        proof {
            lemma_full_rows_upto_bounds(self.board@, BOARD_HEIGHT as int);
            assert(k as int == full_count(midg.board));
            assert(k <= 20);
        }
        let mut ci: usize = 0;
        while ci < k
            invariant
                ci <= k,
                k <= 20,
                sounds@ == enq_all(q0, cues1 + clear_cues(ci as nat)),
            decreases k - ci,
        {
            sounds.push(Sound::Clear);
            proof {
                lemma_enq_all_snoc(q0, cues1 + clear_cues(ci as nat), Sound::Clear);
                assert((cues1 + clear_cues(ci as nat)).push(Sound::Clear) =~= cues1 + clear_cues(
                    (ci + 1) as nat,
                ));
            }
            ci = ci + 1;
        }
        let k64: u64 = k as u64;
        proof {
            assert(k64 * (k64 + 1) <= 420) by (nonlinear_arith)
                requires
                    k64 <= 20,
            ;
        }
        let score: u64 = k64 * (k64 + 1) / 2;
        if k64 <= u64::MAX - self.cleared {
            self.cleared = self.cleared + k64;
        } else {
            self.cleared = u64::MAX;
        }
        proof {
            self.view_bridge();
            assert(self@.cleared == add_clamped(pre.cleared, k as int));
            assert(self@ =~~= (GameV { cleared: self@.cleared, ..midg }));
        }
        self.board.clear_and_compact(&found);
        proof {
            self.view_bridge();
            lemma_clear_rows_eq_clear_full(midg.board, found@);
            assert(self@.board == compact_pass(clear_full(midg.board)));
            assert(self@ =~~= (GameV {
                board: self@.board,
                cleared: add_clamped(pre.cleared, k as int),
                ..midg
            }));
        }
        self.advance_turn();
        proof {
            assert(tick_cues(pre) == cues1 + clear_cues(full_count(
                board_after_piece_step(pre),
            ) as nat));
            assert(final(sounds)@ == enq_all(q0, tick_cues(pre)));
            assert(score as int == score_of(k as int));
            assert(tick_rel(pre, self@, Some(score)));
        }
        Some(score)
    }
}

/// The piece covers the absolute cell `(x, y)` with one of its first `n`
/// tiles.
spec fn piece_cell_upto(p: PieceView, x: int, y: int, n: int) -> bool {
    exists|i: int|
        0 <= i < n && p.anchor_x + (#[trigger] p.tiles[i]).0 == x && p.anchor_y + p.tiles[i].1
            == y
}

/// The board with the piece's first `n` tiles written in as occupied cells.
spec fn lock_upto(b: Seq<Seq<bool>>, p: PieceView, n: int) -> Seq<Seq<bool>> {
    Seq::new(
        b.len(),
        |j: int| Seq::new(b[j].len(), |x: int| b[j][x] || piece_cell_upto(p, x, j, n)),
    )
}

/// Writing in no tiles leaves the board as it was.
proof fn lemma_lock_upto_zero(b: Seq<Seq<bool>>, p: PieceView)
    requires
        board_wf(b),
    ensures
        lock_upto(b, p, 0) == b,
{
    assert(lock_upto(b, p, 0) =~~= b);
}

/// Writing in all four tiles gives the locked board.
proof fn lemma_lock_upto_full(b: Seq<Seq<bool>>, p: PieceView)
    requires
        board_wf(b),
        p.tiles.len() == 4,
    ensures
        lock_upto(b, p, 4) == lock_board(b, p),
{
    assert forall|j: int, x: int|
        0 <= j < b.len() && 0 <= x < b[j].len() implies piece_cell_upto(p, x, j, 4) == piece_cell(
        p,
        x,
        j,
    ) by {
        if piece_cell_upto(p, x, j, 4) {
            let w = choose|w: int|
                0 <= w < 4 && p.anchor_x + (#[trigger] p.tiles[w]).0 == x && p.anchor_y
                    + p.tiles[w].1 == j;
            assert(0 <= w < p.tiles.len() && p.anchor_x + p.tiles[w].0 == x && p.anchor_y
                + p.tiles[w].1 == j);
        }
        if piece_cell(p, x, j) {
            let w = choose|w: int|
                0 <= w < p.tiles.len() && p.anchor_x + (#[trigger] p.tiles[w]).0 == x && p.anchor_y
                    + p.tiles[w].1 == j;
            assert(0 <= w < 4 && p.anchor_x + p.tiles[w].0 == x && p.anchor_y + p.tiles[w].1 == j);
        }
    }
    assert(lock_upto(b, p, 4) =~~= lock_board(b, p));
}

/// Setting the cell of tile `i` advances the partial lock by one tile.
proof fn lemma_lock_step(
    b0: Seq<Seq<bool>>,
    cur: Seq<Seq<bool>>,
    p: PieceView,
    i: int,
    tx: int,
    ty: int,
)
    requires
        board_wf(b0),
        board_wf(cur),
        p.tiles.len() == 4,
        0 <= i < 4,
        cur == lock_upto(b0, p, i),
        tx == p.anchor_x + p.tiles[i].0,
        ty == p.anchor_y + p.tiles[i].1,
        0 <= tx < BOARD_WIDTH as int,
        0 <= ty < BOARD_HEIGHT as int,
    ensures
        cur.update(ty, cur[ty].update(tx, true)) == lock_upto(b0, p, i + 1),
{
    let stepped = cur.update(ty, cur[ty].update(tx, true));
    assert forall|j: int, x: int|
        0 <= j < b0.len() && 0 <= x < b0[j].len() implies stepped[j][x] == lock_upto(
        b0,
        p,
        i + 1,
    )[j][x] by {
        if j == ty && x == tx {
            assert(piece_cell_upto(p, x, j, i + 1));
        } else {
            if piece_cell_upto(p, x, j, i + 1) {
                let w = choose|w: int|
                    0 <= w < i + 1 && p.anchor_x + (#[trigger] p.tiles[w]).0 == x && p.anchor_y
                        + p.tiles[w].1 == j;
                assert(w != i);
                assert(0 <= w < i && p.anchor_x + p.tiles[w].0 == x && p.anchor_y + p.tiles[w].1
                    == j);
                assert(piece_cell_upto(p, x, j, i));
            }
            if piece_cell_upto(p, x, j, i) {
                let w = choose|w: int|
                    0 <= w < i && p.anchor_x + (#[trigger] p.tiles[w]).0 == x && p.anchor_y
                        + p.tiles[w].1 == j;
                assert(0 <= w < i + 1 && p.anchor_x + p.tiles[w].0 == x && p.anchor_y
                    + p.tiles[w].1 == j);
                assert(piece_cell_upto(p, x, j, i + 1));
            }
        }
    }
    assert(stepped =~~= lock_upto(b0, p, i + 1));
}

/// Law: a tick that clears exactly `k` full rows awards `k * (k + 1) / 2`
/// points (so zero rows award zero points), and the row count it scores is
/// the number of full rows after the piece step.
pub proof fn lemma_tick_scoring(pre: GameV, post: GameV, r: Option<u64>)
    requires
        tick_rel(pre, post, r),
        eligible(pre),
        !top_blocked(pre.board),
    ensures
        ({
            let k = full_count(board_after_piece_step(pre));
            r == Some((k * (k + 1) / 2) as u64)
        }),
{
}

/// Law: a piece that cannot move down survives exactly one more eligible
/// tick. The first failed tick only marks it (the board keeps every cell it
/// had, short of clearing and compaction); the next eligible tick on which
/// it still cannot move down locks its tiles into the board and removes it.
pub proof fn lemma_lock_delay(
    pre: GameV,
    mid: GameV,
    post: GameV,
    r1: Option<u64>,
    r2: Option<u64>,
    p: PieceView,
)
    requires
        tick_rel(pre, mid, r1),
        tick_rel(mid, post, r2),
        eligible(pre),
        !top_blocked(pre.board),
        pre.active == Some(p),
        !p.stationary,
        !spec_legal(moved(p, 0, 1), pre.board),
        eligible(mid),
        !top_blocked(mid.board),
        !spec_legal(moved(with_stationary(p, true), 0, 1), mid.board),
    ensures
        mid.active == Some(with_stationary(p, true)),
        mid.board == compact_pass(clear_full(pre.board)),
        post.active is None,
        post.board == compact_pass(clear_full(lock_board(mid.board, with_stationary(p, true)))),
{
}

/// Law: an eligible tick that finds any occupied cell in the top four rows
/// reports the terminal outcome, emits only the end cue, and leaves the
/// board, the piece, the supply and the score bookkeeping untouched.
pub proof fn lemma_game_over_tick(pre: GameV, post: GameV, r: Option<u64>)
    requires
        tick_rel(pre, post, r),
        eligible(pre),
        top_blocked(pre.board),
    ensures
        r is None,
        post.board == pre.board,
        post.active == pre.active,
        post.bag == pre.bag,
        post.cleared == pre.cleared,
        tick_cues(pre) == seq![Sound::End],
{
}

} // verus!
