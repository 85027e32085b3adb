use crate::board::{board_wf, row_empty, Board, BOARD_HEIGHT, BOARD_WIDTH};
use vstd::prelude::*;

verus! {

/// One grid coordinate: a column `x` and a row `y`. Used both for a piece's
/// local tile offsets and for absolute board cells.
#[derive(Clone, Copy, Debug, PartialEq, Eq, Structural)]
pub struct Tile {
    pub x: i32,
    pub y: i32,
}

/// Mathematical image of a falling piece: an anchor position, the size of the
/// bounding box the tile offsets live in, the four local tile offsets, and
/// the one-tick grace flag.
#[verifier::ext_equal]
pub ghost struct PieceView {
    pub anchor_x: int,
    pub anchor_y: int,
    pub box_size: int,
    pub tiles: Seq<(int, int)>,
    pub stationary: bool,
}

/// The four tile offsets fit the piece's bounding box.
pub open spec fn piece_shape(p: PieceView) -> bool {
    &&& (p.box_size == 3 || p.box_size == 4)
    &&& p.tiles.len() == 4
    &&& forall|i: int|
        0 <= i < 4 ==> 0 <= (#[trigger] p.tiles[i]).0 < p.box_size && 0 <= p.tiles[i].1
            < p.box_size
}

/// A well-formed piece: its shape fits its box and its anchor is near the
/// playing field (every piece the game circulates satisfies this).
pub open spec fn piece_wf(p: PieceView) -> bool {
    &&& piece_shape(p)
    &&& -10 <= p.anchor_x <= 20
    &&& -10 <= p.anchor_y <= 30
}

/// The piece with its anchor translated by `(dx, dy)`.
pub open spec fn moved(p: PieceView, dx: int, dy: int) -> PieceView {
    PieceView { anchor_x: p.anchor_x + dx, anchor_y: p.anchor_y + dy, ..p }
}

/// The piece with its grace flag set to `s`.
pub open spec fn with_stationary(p: PieceView, s: bool) -> PieceView {
    PieceView { stationary: s, ..p }
}

/// The piece rotated a quarter turn inside its own bounding box:
/// each offset `(x, y)` maps to `(N - 1 - y, x)` for a box of size `N`.
pub open spec fn rotated(p: PieceView) -> PieceView {
    PieceView {
        tiles: Seq::new(4, |i: int| (p.box_size - 1 - p.tiles[i].1, p.tiles[i].0)),
        ..p
    }
}

/// Tile `i` of the piece lies inside the playing field.
pub open spec fn in_bounds_at(p: PieceView, i: int) -> bool {
    &&& 0 <= p.anchor_x + p.tiles[i].0 < BOARD_WIDTH as int
    &&& 0 <= p.anchor_y + p.tiles[i].1 < BOARD_HEIGHT as int
}

/// Every tile of the piece lies inside the playing field.
pub open spec fn piece_in_bounds(p: PieceView) -> bool {
    forall|i: int| 0 <= i < p.tiles.len() ==> #[trigger] in_bounds_at(p, i)
}

/// Tile `i` of the piece lies inside the playing field over an unoccupied
/// cell of board `b`.
pub open spec fn legal_at(p: PieceView, b: Seq<Seq<bool>>, i: int) -> bool {
    &&& in_bounds_at(p, i)
    &&& !b[p.anchor_y + p.tiles[i].1][p.anchor_x + p.tiles[i].0]
}

/// The piece may stand on board `b`: every tile is in bounds and over an
/// unoccupied cell.
pub open spec fn spec_legal(p: PieceView, b: Seq<Seq<bool>>) -> bool {
    forall|i: int| 0 <= i < p.tiles.len() ==> #[trigger] legal_at(p, b, i)
}

/// The piece covers the absolute cell `(x, y)`.
pub open spec fn piece_cell(p: PieceView, x: int, y: int) -> bool {
    exists|i: int|
        0 <= i < p.tiles.len() && p.anchor_x + (#[trigger] p.tiles[i]).0 == x && p.anchor_y
            + p.tiles[i].1 == y
}

/// What a one-cell step left returns: the shifted piece when it is legal,
/// nothing otherwise.
pub open spec fn spec_go_left(p: PieceView, b: Seq<Seq<bool>>) -> Option<PieceView> {
    if spec_legal(moved(p, -1, 0), b) {
        Some(moved(p, -1, 0))
    } else {
        None
    }
}

/// What a one-cell step right returns.
pub open spec fn spec_go_right(p: PieceView, b: Seq<Seq<bool>>) -> Option<PieceView> {
    if spec_legal(moved(p, 1, 0), b) {
        Some(moved(p, 1, 0))
    } else {
        None
    }
}

/// What a one-cell step down returns.
pub open spec fn spec_go_down(p: PieceView, b: Seq<Seq<bool>>) -> Option<PieceView> {
    if spec_legal(moved(p, 0, 1), b) {
        Some(moved(p, 0, 1))
    } else {
        None
    }
}

/// What a rotation attempt returns: the rotation in place when legal; when
/// that fails and the piece hugs the left wall, the rotation after a virtual
/// one-cell right shift; when it hugs the right wall, after a one-cell left
/// shift; otherwise nothing.
pub open spec fn spec_rotate(p: PieceView, b: Seq<Seq<bool>>) -> Option<PieceView> {
    if spec_legal(rotated(p), b) {
        Some(rotated(p))
    } else if p.anchor_x < 0 {
        if spec_legal(moved(p, 1, 0), b) && spec_legal(rotated(moved(p, 1, 0)), b) {
            Some(rotated(moved(p, 1, 0)))
        } else {
            None
        }
    } else if p.anchor_x + p.box_size >= BOARD_WIDTH as int {
        if spec_legal(moved(p, -1, 0), b) && spec_legal(rotated(moved(p, -1, 0)), b) {
            Some(rotated(moved(p, -1, 0)))
        } else {
            None
        }
    } else {
        None
    }
}

/// The canonical unrotated piece of each of the seven shapes, anchored at
/// the spawn position.
pub open spec fn template(i: int) -> PieceView {
    if i == 0 {
        // square
        PieceView {
            anchor_x: 3,
            anchor_y: 0,
            box_size: 4,
            tiles: seq![(1int, 1int), (2int, 1int), (1int, 2int), (2int, 2int)],
            stationary: false,
        }
    } else if i == 1 {
        // T shape
        PieceView {
            anchor_x: 3,
            anchor_y: 0,
            box_size: 3,
            tiles: seq![(0int, 1int), (1int, 1int), (2int, 1int), (1int, 0int)],
            stationary: false,
        }
    } else if i == 2 {
        // long
        PieceView {
            anchor_x: 3,
            anchor_y: 0,
            box_size: 4,
            tiles: seq![(0int, 1int), (1int, 1int), (2int, 1int), (3int, 1int)],
            stationary: false,
        }
    } else if i == 3 {
        // S, first chirality
        PieceView {
            anchor_x: 3,
            anchor_y: 0,
            box_size: 3,
            tiles: seq![(0int, 1int), (1int, 1int), (1int, 2int), (2int, 2int)],
            stationary: false,
        }
    } else if i == 4 {
        // S, second chirality
        PieceView {
            anchor_x: 3,
            anchor_y: 0,
            box_size: 3,
            tiles: seq![(0int, 1int), (1int, 1int), (1int, 0int), (2int, 0int)],
            stationary: false,
        }
    } else if i == 5 {
        // L, first chirality
        PieceView {
            anchor_x: 3,
            anchor_y: 0,
            box_size: 3,
            tiles: seq![(0int, 1int), (1int, 1int), (2int, 1int), (2int, 2int)],
            stationary: false,
        }
    } else {
        // L, second chirality
        PieceView {
            anchor_x: 3,
            anchor_y: 0,
            box_size: 3,
            tiles: seq![(0int, 1int), (1int, 1int), (2int, 1int), (2int, 0int)],
            stationary: false,
        }
    }
}

/// The falling piece: an anchor position, a bounding-box size, four local
/// tile offsets and the one-tick grace flag. Every mutator returns a new
/// value and leaves the receiver untouched.
#[derive(Clone)]
pub struct PlayerPiece {
    anchor: Tile,
    box_size: usize,
    tiles: Vec<Tile>,
    stationary: bool,
}

impl View for PlayerPiece {
    type V = PieceView;

    closed spec fn view(&self) -> PieceView {
        PieceView {
            anchor_x: self.anchor.x as int,
            anchor_y: self.anchor.y as int,
            box_size: self.box_size as int,
            tiles: self.tiles@.map_values(|t: Tile| (t.x as int, t.y as int)),
            stationary: self.stationary,
        }
    }
}

impl PlayerPiece {
    /// The view reads the fields one for one.
    proof fn view_bridge(&self)
        ensures
            self@.anchor_x == self.anchor.x as int,
            self@.anchor_y == self.anchor.y as int,
            self@.box_size == self.box_size as int,
            self@.stationary == self.stationary,
            self@.tiles.len() == self.tiles@.len(),
            forall|i: int|
                0 <= i < self.tiles@.len() ==> self@.tiles[i] == ((#[trigger] self.tiles@[i]).x as int, self.tiles@[i].y as int),
    {
    }

    /// Build a piece from its parts.
    fn assemble(
        ax: i32,
        ay: i32,
        bs: usize,
        t0: Tile,
        t1: Tile,
        t2: Tile,
        t3: Tile,
        stationary: bool,
    ) -> (p: PlayerPiece)
        ensures
            p@ == (PieceView {
                anchor_x: ax as int,
                anchor_y: ay as int,
                box_size: bs as int,
                tiles: seq![
                    (t0.x as int, t0.y as int),
                    (t1.x as int, t1.y as int),
                    (t2.x as int, t2.y as int),
                    (t3.x as int, t3.y as int),
                ],
                stationary: stationary,
            }),
    {
        let mut tiles: Vec<Tile> = Vec::new();
        tiles.push(t0);
        tiles.push(t1);
        tiles.push(t2);
        tiles.push(t3);
        let p = PlayerPiece { anchor: Tile { x: ax, y: ay }, box_size: bs, tiles, stationary };
        proof {
            p.view_bridge();
            assert(p@.tiles =~= seq![
                (t0.x as int, t0.y as int),
                (t1.x as int, t1.y as int),
                (t2.x as int, t2.y as int),
                (t3.x as int, t3.y as int),
            ]);
            assert(p@ =~~= (PieceView {
                anchor_x: ax as int,
                anchor_y: ay as int,
                box_size: bs as int,
                tiles: p@.tiles,
                stationary: stationary,
            }));
        }
        p
    }

    /// The canonical piece of shape `i`, at the spawn position.
    pub fn new(i: usize) -> (p: PlayerPiece)
        requires
            i < 7,
        ensures
            p@ == template(i as int),
            piece_wf(p@),
            piece_in_bounds(p@),
    {
        let p = if i == 0 {
            Self::assemble(
                3,
                0,
                4,
                Tile { x: 1, y: 1 },
                Tile { x: 2, y: 1 },
                Tile { x: 1, y: 2 },
                Tile { x: 2, y: 2 },
                false,
            )
        } else if i == 1 {
            Self::assemble(
                3,
                0,
                3,
                Tile { x: 0, y: 1 },
                Tile { x: 1, y: 1 },
                Tile { x: 2, y: 1 },
                Tile { x: 1, y: 0 },
                false,
            )
        } else if i == 2 {
            Self::assemble(
                3,
                0,
                4,
                Tile { x: 0, y: 1 },
                Tile { x: 1, y: 1 },
                Tile { x: 2, y: 1 },
                Tile { x: 3, y: 1 },
                false,
            )
        } else if i == 3 {
            Self::assemble(
                3,
                0,
                3,
                Tile { x: 0, y: 1 },
                Tile { x: 1, y: 1 },
                Tile { x: 1, y: 2 },
                Tile { x: 2, y: 2 },
                false,
            )
        } else if i == 4 {
            Self::assemble(
                3,
                0,
                3,
                Tile { x: 0, y: 1 },
                Tile { x: 1, y: 1 },
                Tile { x: 1, y: 0 },
                Tile { x: 2, y: 0 },
                false,
            )
        } else if i == 5 {
            Self::assemble(
                3,
                0,
                3,
                Tile { x: 0, y: 1 },
                Tile { x: 1, y: 1 },
                Tile { x: 2, y: 1 },
                Tile { x: 2, y: 2 },
                false,
            )
        } else {
            Self::assemble(
                3,
                0,
                3,
                Tile { x: 0, y: 1 },
                Tile { x: 1, y: 1 },
                Tile { x: 2, y: 1 },
                Tile { x: 2, y: 0 },
                false,
            )
        };
        proof {
            assert(p@ =~~= template(i as int));
            assert(forall|k: int| 0 <= k < 4 ==> in_bounds_at(p@, k));
        }
        p
    }

    /// A value equal to this piece.
    fn duplicate(&self) -> (r: PlayerPiece)
        ensures
            r@ == self@,
    {
        let tiles = self.tiles.clone();
        proof {
            assert(tiles@ =~= self.tiles@);
        }
        let r = PlayerPiece {
            anchor: self.anchor,
            box_size: self.box_size,
            tiles,
            stationary: self.stationary,
        };
        proof {
            r.view_bridge();
            self.view_bridge();
            assert(r@ =~~= self@);
        }
        r
    }

    /// The piece translated by `(dx, dy)`; legality is the caller's concern.
    fn move_piece(&self, dx: i32, dy: i32) -> (r: PlayerPiece)
        requires
            piece_wf(self@),
            -1 <= dx <= 1,
            -1 <= dy <= 1,
        ensures
            r@ == moved(self@, dx as int, dy as int),
    {
        let tiles = self.tiles.clone();
        proof {
            assert(tiles@ =~= self.tiles@);
        }
        let r = PlayerPiece {
            anchor: Tile { x: self.anchor.x + dx, y: self.anchor.y + dy },
            box_size: self.box_size,
            tiles,
            stationary: self.stationary,
        };
        proof {
            r.view_bridge();
            self.view_bridge();
            assert(r@ =~~= moved(self@, dx as int, dy as int));
        }
        r
    }

    /// Whether every tile of the piece lies inside the board over an
    /// unoccupied cell.
    #[verifier::loop_isolation(false)]
    pub(crate) fn legal(&self, board: &Board) -> (r: bool)
        requires
            board.wf(),
            piece_shape(self@),
            -11 <= self@.anchor_x <= 21,
            -11 <= self@.anchor_y <= 31,
        ensures
            r == spec_legal(self@, board@),
    {
        proof {
            self.view_bridge();
        }
        let mut i: usize = 0;
        while i < 4
            invariant
                i <= 4,
                forall|k: int| 0 <= k < i ==> #[trigger] legal_at(self@, board@, k),
            decreases 4 - i,
        {
            let t = self.tiles[i];
            let tx = self.anchor.x + t.x;
            let ty = self.anchor.y + t.y;
            if !(0 <= tx && tx < BOARD_WIDTH as i32 && 0 <= ty && ty < BOARD_HEIGHT as i32) {
                proof {
                    assert(!legal_at(self@, board@, i as int));
                }
                return false;
            }
            if board.is_occupied(tx as usize, ty as usize) {
                proof {
                    assert(!legal_at(self@, board@, i as int));
                }
                return false;
            }
            proof {
                assert(legal_at(self@, board@, i as int));
            }
            i = i + 1;
        }
        true
    }

    /// Step one cell left when that position is legal.
    pub fn go_left(&self, board: &Board) -> (r: Option<PlayerPiece>)
        requires
            piece_wf(self@),
            board.wf(),
        ensures
            (match r {
                Some(q) => Some(q@) == spec_go_left(self@, board@) && piece_wf(q@),
                None => spec_go_left(self@, board@) is None,
            }),
    {
        let left = self.move_piece(-1, 0);
        if left.legal(board) {
            proof {
                lemma_legal_piece_wf(left@, board@);
            }
            Some(left)
        } else {
            None
        }
    }

    /// Step one cell right when that position is legal.
    pub fn go_right(&self, board: &Board) -> (r: Option<PlayerPiece>)
        requires
            piece_wf(self@),
            board.wf(),
        ensures
            (match r {
                Some(q) => Some(q@) == spec_go_right(self@, board@) && piece_wf(q@),
                None => spec_go_right(self@, board@) is None,
            }),
    {
        let right = self.move_piece(1, 0);
        if right.legal(board) {
            proof {
                lemma_legal_piece_wf(right@, board@);
            }
            Some(right)
        } else {
            None
        }
    }

    /// Step one cell down when that position is legal.
    pub fn go_down(&self, board: &Board) -> (r: Option<PlayerPiece>)
        requires
            piece_wf(self@),
            board.wf(),
        ensures
            (match r {
                Some(q) => Some(q@) == spec_go_down(self@, board@) && piece_wf(q@),
                None => spec_go_down(self@, board@) is None,
            }),
    {
        let down = self.move_piece(0, 1);
        if down.legal(board) {
            proof {
                lemma_legal_piece_wf(down@, board@);
            }
            Some(down)
        } else {
            None
        }
    }

    /// The piece rotated a quarter turn in place; legality is the caller's
    /// concern.
    #[verifier::loop_isolation(false)]
    fn try_rotate(&self) -> (r: PlayerPiece)
        requires
            piece_shape(self@),
            -11 <= self@.anchor_x <= 21,
            -11 <= self@.anchor_y <= 31,
        ensures
            r@ == rotated(self@),
    {
        proof {
            self.view_bridge();
        }
        let mut tiles: Vec<Tile> = Vec::new();
        let mut i: usize = 0;
        while i < 4
            invariant
                i <= 4,
                tiles@.len() == i,
                forall|k: int|
                    0 <= k < i ==> (#[trigger] tiles@[k]).x as int == self@.box_size - 1
                        - self@.tiles[k].1 && tiles@[k].y as int == self@.tiles[k].0,
            decreases 4 - i,
        {
            let t = self.tiles[i];
            tiles.push(Tile { x: self.box_size as i32 - 1 - t.y, y: t.x });
            i = i + 1;
        }
        let r = PlayerPiece {
            anchor: self.anchor,
            box_size: self.box_size,
            tiles,
            stationary: self.stationary,
        };
        proof {
            r.view_bridge();
            assert(r@.tiles =~= rotated(self@).tiles);
            assert(r@ =~~= rotated(self@));
        }
        r
    }

    /// Attempt a rotation with the simplified wall kick: in place first, then
    /// after a one-cell shift away from whichever wall the piece hugs.
    pub fn rotate(&self, board: &Board) -> (r: Option<PlayerPiece>)
        requires
            piece_wf(self@),
            board.wf(),
        ensures
            (match r {
                Some(q) => Some(q@) == spec_rotate(self@, board@) && piece_wf(q@),
                None => spec_rotate(self@, board@) is None,
            }),
    {
        proof {
            self.view_bridge();
            lemma_rotated_shape(self@);
        }
        let turned = self.try_rotate();
        if turned.legal(board) {
            proof {
                lemma_legal_piece_wf(turned@, board@);
            }
            return Some(turned);
        }
        if self.anchor.x < 0 {
            if let Some(shifted) = self.go_right(board) {
                proof {
                    lemma_rotated_shape(shifted@);
                }
                let kicked = shifted.try_rotate();
                if kicked.legal(board) {
                    proof {
                        lemma_legal_piece_wf(kicked@, board@);
                    }
                    return Some(kicked);
                }
            }
        } else if self.anchor.x + self.box_size as i32 >= BOARD_WIDTH as i32 {
            if let Some(shifted) = self.go_left(board) {
                proof {
                    lemma_rotated_shape(shifted@);
                }
                let kicked = shifted.try_rotate();
                if kicked.legal(board) {
                    proof {
                        lemma_legal_piece_wf(kicked@, board@);
                    }
                    return Some(kicked);
                }
            }
        }
        None
    }

    /// The resting position the piece would reach if dropped straight down:
    /// the last legal position in an unbroken run of legal downward steps.
    pub fn lowest_possible_position(&self, board: &Board) -> (r: PlayerPiece)
        requires
            piece_wf(self@),
            board.wf(),
        ensures
            piece_wf(r@),
            exists|k: int|
                #![trigger moved(self@, 0, k)]
                0 <= k && r@ == moved(self@, 0, k) && !spec_legal(moved(self@, 0, k + 1), board@)
                    && (forall|j: int| 1 <= j <= k ==> spec_legal(moved(self@, 0, j), board@)),
    {
        let mut res = self.duplicate();
        let ghost mut steps: int = 0;
        proof {
            assert(res@ =~~= moved(self@, 0, 0));
        }
        loop
            invariant
                piece_wf(res@),
                board.wf(),
                0 <= steps,
                res@ == moved(self@, 0, steps),
                forall|j: int| 1 <= j <= steps ==> spec_legal(moved(self@, 0, j), board@),
            ensures
                piece_wf(res@),
                exists|k: int|
                    #![trigger moved(self@, 0, k)]
                    0 <= k && res@ == moved(self@, 0, k) && !spec_legal(
                        moved(self@, 0, k + 1),
                        board@,
                    ) && (forall|j: int| 1 <= j <= k ==> spec_legal(moved(self@, 0, j), board@)),
            decreases 40 - res@.anchor_y,
        {
            match res.go_down(board) {
                Some(next) => {
                    proof {
                        assert(moved(res@, 0, 1) =~~= moved(self@, 0, steps + 1));
                    }
                    res = next;
                    proof {
                        steps = steps + 1;
                    }
                },
                None => {
                    proof {
                        assert(moved(res@, 0, 1) =~~= moved(self@, 0, steps + 1));
                        assert(!spec_legal(moved(self@, 0, steps + 1), board@));
                        assert(0 <= steps && res@ == moved(self@, 0, steps) && !spec_legal(
                            moved(self@, 0, steps + 1),
                            board@,
                        ) && (forall|j: int|
                            1 <= j <= steps ==> spec_legal(moved(self@, 0, j), board@)));
                    }
                    break ;
                },
            }
        }
        res
    }

    /// The absolute board cells the piece covers: anchor plus each offset.
    #[verifier::loop_isolation(false)]
    pub fn get_tiles(&self) -> (r: Vec<Tile>)
        requires
            piece_wf(self@),
        ensures
            r@.len() == 4,
            forall|i: int|
                0 <= i < 4 ==> (#[trigger] r@[i]).x as int == self@.anchor_x + self@.tiles[i].0
                    && r@[i].y as int == self@.anchor_y + self@.tiles[i].1,
    {
        proof {
            self.view_bridge();
        }
        let mut r: Vec<Tile> = Vec::new();
        let mut i: usize = 0;
        while i < 4
            invariant
                i <= 4,
                r@.len() == i,
                forall|k: int|
                    0 <= k < i ==> (#[trigger] r@[k]).x as int == self@.anchor_x + self@.tiles[k].0
                        && r@[k].y as int == self@.anchor_y + self@.tiles[k].1,
            decreases 4 - i,
        {
            let t = self.tiles[i];
            r.push(Tile { x: self.anchor.x + t.x, y: self.anchor.y + t.y });
            i = i + 1;
        }
        r
    }

    /// The one-tick grace flag: true means the piece already failed to move
    /// down once and locks on the next failed attempt.
    pub fn is_stationary(&self) -> (r: bool)
        ensures
            r == self@.stationary,
    {
        proof {
            self.view_bridge();
        }
        self.stationary
    }

    /// The same piece with the grace flag set to `s`.
    pub fn set_stationary(&self, s: bool) -> (r: PlayerPiece)
        ensures
            r@ == with_stationary(self@, s),
    {
        let tiles = self.tiles.clone();
        proof {
            assert(tiles@ =~= self.tiles@);
        }
        let r = PlayerPiece {
            anchor: self.anchor,
            box_size: self.box_size,
            tiles,
            stationary: s,
        };
        proof {
            r.view_bridge();
            self.view_bridge();
            assert(r@ =~~= with_stationary(self@, s));
        }
        r
    }
}

/// A legal piece with a well-formed shape has its anchor near the field.
pub proof fn lemma_legal_piece_wf(p: PieceView, b: Seq<Seq<bool>>)
    requires
        piece_shape(p),
        spec_legal(p, b),
    ensures
        piece_wf(p),
        piece_in_bounds(p),
{
    assert(legal_at(p, b, 0));
    assert(0 <= p.anchor_x + p.tiles[0].0 < BOARD_WIDTH as int);
    assert(0 <= p.tiles[0].0 < p.box_size);
    assert forall|i: int| 0 <= i < p.tiles.len() implies #[trigger] in_bounds_at(p, i) by {
        assert(legal_at(p, b, i));
    }
}

/// Rotation keeps the shape well formed and touches nothing but the tiles.
pub proof fn lemma_rotated_shape(p: PieceView)
    requires
        piece_shape(p),
    ensures
        piece_shape(rotated(p)),
        rotated(p).anchor_x == p.anchor_x,
        rotated(p).anchor_y == p.anchor_y,
        rotated(p).box_size == p.box_size,
        rotated(p).stationary == p.stationary,
{
}

/// Setting the grace flag moves no tile: well-formedness and bounds carry
/// over in both directions.
pub proof fn lemma_stationary_preserves(p: PieceView, s: bool)
    ensures
        piece_wf(with_stationary(p, s)) == piece_wf(p),
        piece_in_bounds(with_stationary(p, s)) == piece_in_bounds(p),
{
    let q = with_stationary(p, s);
    if piece_in_bounds(p) {
        assert forall|i: int| 0 <= i < q.tiles.len() implies #[trigger] in_bounds_at(q, i) by {
            assert(in_bounds_at(p, i));
        }
    }
    if piece_in_bounds(q) {
        assert forall|i: int| 0 <= i < p.tiles.len() implies #[trigger] in_bounds_at(p, i) by {
            assert(in_bounds_at(q, i));
        }
    }
}

/// Law: four quarter rotations return any well-formed piece to exactly its
/// original value; the quarter turn `(x, y) -> (N - 1 - y, x)` has order
/// four on the bounding box.
pub proof fn lemma_rotate_four_identity(p: PieceView)
    requires
        piece_shape(p),
    ensures
        rotated(rotated(rotated(rotated(p)))) == p,
{
    assert(rotated(rotated(rotated(rotated(p)))).tiles =~= p.tiles);
    assert(rotated(rotated(rotated(rotated(p)))) =~~= p);
}

/// On a board with no occupied cell, a piece inside the field is legal.
pub proof fn lemma_empty_board_legal(p: PieceView, b: Seq<Seq<bool>>)
    requires
        board_wf(b),
        forall|j: int| 0 <= j < b.len() ==> row_empty(#[trigger] b[j]),
        piece_in_bounds(p),
    ensures
        spec_legal(p, b),
{
    assert forall|i: int| 0 <= i < p.tiles.len() implies #[trigger] legal_at(p, b, i) by {
        assert(in_bounds_at(p, i));
        assert(row_empty(b[p.anchor_y + p.tiles[i].1]));
    }
}

/// Law: on an empty board with enough clearance for each intermediate
/// orientation, four rotation attempts all succeed in place and return the
/// piece to exactly its original value.
pub proof fn lemma_rotate_four_on_empty_board(p: PieceView, b: Seq<Seq<bool>>)
    requires
        piece_shape(p),
        board_wf(b),
        forall|j: int| 0 <= j < b.len() ==> row_empty(#[trigger] b[j]),
        piece_in_bounds(rotated(p)),
        piece_in_bounds(rotated(rotated(p))),
        piece_in_bounds(rotated(rotated(rotated(p)))),
        piece_in_bounds(p),
    ensures
        spec_rotate(p, b) == Some(rotated(p)),
        spec_rotate(rotated(p), b) == Some(rotated(rotated(p))),
        spec_rotate(rotated(rotated(p)), b) == Some(rotated(rotated(rotated(p)))),
        spec_rotate(rotated(rotated(rotated(p))), b) == Some(p),
{
    lemma_rotate_four_identity(p);
    lemma_empty_board_legal(rotated(p), b);
    lemma_empty_board_legal(rotated(rotated(p)), b);
    lemma_empty_board_legal(rotated(rotated(rotated(p))), b);
    lemma_empty_board_legal(p, b);
    assert(rotated(rotated(rotated(rotated(p)))) == p);
}

/// Law: a legal step left followed by a step right returns the piece to
/// exactly its original state.
pub proof fn lemma_left_right_round_trip(p: PieceView, b: Seq<Seq<bool>>)
    requires
        spec_legal(p, b),
        spec_go_left(p, b) is Some,
    ensures
        spec_go_left(p, b) == Some(moved(p, -1, 0)),
        spec_go_right(moved(p, -1, 0), b) == Some(p),
{
    assert(moved(moved(p, -1, 0), 1, 0) =~~= p);
}

/// Law: a legal step right followed by a step left returns the piece to
/// exactly its original state.
pub proof fn lemma_right_left_round_trip(p: PieceView, b: Seq<Seq<bool>>)
    requires
        spec_legal(p, b),
        spec_go_right(p, b) is Some,
    ensures
        spec_go_right(p, b) == Some(moved(p, 1, 0)),
        spec_go_left(moved(p, 1, 0), b) == Some(p),
{
    assert(moved(moved(p, 1, 0), -1, 0) =~~= p);
}

} // verus!
