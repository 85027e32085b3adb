use vstd::prelude::*;

verus! {

/// Number of columns of the playing field.
pub const BOARD_WIDTH: usize = 10;

/// Number of rows of the playing field; row 0 is the top, row 19 the bottom.
pub const BOARD_HEIGHT: usize = 20;

/// A row in which every cell is occupied.
pub open spec fn row_full(r: Seq<bool>) -> bool {
    forall|x: int| 0 <= x < r.len() ==> r[x]
}

/// A row in which no cell is occupied.
pub open spec fn row_empty(r: Seq<bool>) -> bool {
    forall|x: int| 0 <= x < r.len() ==> !r[x]
}

/// A completely unoccupied row.
pub open spec fn empty_row() -> Seq<bool> {
    Seq::new(BOARD_WIDTH as nat, |x: int| false)
}

/// Shape of a well-formed board: 20 rows of 10 cells each.
pub open spec fn board_wf(b: Seq<Seq<bool>>) -> bool {
    &&& b.len() == BOARD_HEIGHT
    &&& forall|j: int| 0 <= j < b.len() ==> (#[trigger] b[j]).len() == BOARD_WIDTH
}

/// Whether some entry of `rows` equals the row index `j`.
pub open spec fn contains_index(rows: Seq<usize>, j: int) -> bool {
    exists|k: int| 0 <= k < rows.len() && rows[k] as int == j
}

/// The board with the rows at the given indices wiped empty.
pub open spec fn clear_rows(b: Seq<Seq<bool>>, rows: Seq<usize>) -> Seq<Seq<bool>> {
    Seq::new(
        b.len(),
        |j: int|
            if contains_index(rows, j) {
                empty_row()
            } else {
                b[j]
            },
    )
}

/// The board with every full row wiped empty.
pub open spec fn clear_full(b: Seq<Seq<bool>>) -> Seq<Seq<bool>> {
    Seq::new(
        b.len(),
        |j: int|
            if row_full(b[j]) {
                empty_row()
            } else {
                b[j]
            },
    )
}

/// One step of the gravity pass at row `j`: if row `j` is empty, the row
/// above it drops into it and that row becomes empty in turn.
pub open spec fn compact_step(b: Seq<Seq<bool>>, j: int) -> Seq<Seq<bool>> {
    if row_empty(b[j]) {
        b.update(j, b[j - 1]).update(j - 1, empty_row())
    } else {
        b
    }
}

/// The gravity pass applied at rows `j`, `j - 1`, ..., `1`, in that order.
pub open spec fn compact_from(b: Seq<Seq<bool>>, j: int) -> Seq<Seq<bool>>
    decreases j,
{
    if j < 1 {
        b
    } else {
        compact_from(compact_step(b, j), j - 1)
    }
}

/// One full gravity pass, scanning from the bottom row upward: every row
/// found empty receives the contents of the row directly above it.
pub open spec fn compact_pass(b: Seq<Seq<bool>>) -> Seq<Seq<bool>> {
    compact_from(b, BOARD_HEIGHT - 1)
}

/// Whether a row holds at least one occupied cell.
pub open spec fn nonempty_pred() -> spec_fn(Seq<bool>) -> bool {
    |r: Seq<bool>| !row_empty(r)
}

/// Whether a row holds at least one occupied cell and is not full; such rows
/// survive a clear-and-compact untouched.
pub open spec fn surviving_pred() -> spec_fn(Seq<bool>) -> bool {
    |r: Seq<bool>| !row_empty(r) && !row_full(r)
}

/// The rows that hold at least one occupied cell, top to bottom. Clearing and
/// compacting preserves this sequence up to removal of the full rows.
pub open spec fn occupied_rows(b: Seq<Seq<bool>>) -> Seq<Seq<bool>> {
    b.filter(nonempty_pred())
}

/// No row of the board is completely occupied.
pub open spec fn no_full_rows(b: Seq<Seq<bool>>) -> bool {
    forall|j: int| 0 <= j < b.len() ==> !row_full(#[trigger] b[j])
}

/// How many of the rows strictly above row `j` are completely occupied.
pub open spec fn full_rows_upto(b: Seq<Seq<bool>>, j: int) -> int
    decreases j,
{
    if j <= 0 {
        0
    } else {
        full_rows_upto(b, j - 1) + if row_full(b[j - 1]) {
            1int
        } else {
            0int
        }
    }
}

/// How many rows of the board are completely occupied.
pub open spec fn full_count(b: Seq<Seq<bool>>) -> int {
    full_rows_upto(b, BOARD_HEIGHT as int)
}

/// A fixed 10 x 20 grid of occupied/empty cells. Row 0 is the top of the
/// playing field; a cell is addressed by column `x` and row `y`.
pub struct Board {
    rows: Vec<Vec<bool>>,
}

impl View for Board {
    type V = Seq<Seq<bool>>;

    closed spec fn view(&self) -> Seq<Seq<bool>> {
        self.rows@.map_values(|r: Vec<bool>| r@)
    }
}

impl Board {
    pub open spec fn wf(&self) -> bool {
        board_wf(self@)
    }

    /// The view is the row-by-row view of the underlying vectors.
    proof fn view_bridge(&self)
        ensures
            self@.len() == self.rows@.len(),
            forall|j: int| 0 <= j < self.rows@.len() ==> self@[j] == (#[trigger] self.rows@[j])@,
    {
    }

    /// A fresh, completely empty board.
    pub fn new() -> (b: Board)
        ensures
            b.wf(),
            forall|j: int| 0 <= j < BOARD_HEIGHT ==> b@[j] == empty_row(),
    {
        let mut rows: Vec<Vec<bool>> = Vec::new();
        while rows.len() < BOARD_HEIGHT
            invariant
                forall|j: int| 0 <= j < rows@.len() ==> (#[trigger] rows@[j])@ == empty_row(),
                rows@.len() <= BOARD_HEIGHT,
            decreases BOARD_HEIGHT - rows@.len(),
        {
            rows.push(empty_row_vec());
        }
        let b = Board { rows };
        proof {
            assert(forall|j: int|
                0 <= j < BOARD_HEIGHT ==> b@[j] == (#[trigger] rows@[j])@ && b@[j] == empty_row());
        }
        b
    }

    /// Bounds-checked read of one cell.
    pub fn is_occupied(&self, x: usize, y: usize) -> (r: bool)
        requires
            self.wf(),
            x < BOARD_WIDTH,
            y < BOARD_HEIGHT,
        ensures
            r == self@[y as int][x as int],
    {
        proof {
            assert(self@.len() == self.rows@.len());
            assert(self@[y as int] == self.rows@[y as int]@);
        }
        let row: &Vec<bool> = &self.rows[y];
        row[x]
    }

    /// Direct write of one cell; used by lock-in and by the mouse controls.
    pub fn set_occupied(&mut self, x: usize, y: usize, value: bool)
        requires
            old(self).wf(),
            x < BOARD_WIDTH,
            y < BOARD_HEIGHT,
        ensures
            final(self).wf(),
            final(self)@ == old(self)@.update(
                y as int,
                old(self)@[y as int].update(x as int, value),
            ),
    {
        proof {
            self.view_bridge();
        }
        let mut row: Vec<bool> = self.rows[y].clone();
        proof {
            assert(row@ =~= self.rows@[y as int]@);
        }
        row.set(x, value);
        self.rows.set(y, row);
        proof {
            self.view_bridge();
            assert(self@ =~~= old(self)@.update(
                y as int,
                old(self)@[y as int].update(x as int, value),
            ));
        }
    }

    /// Whether every cell of row `y` is occupied.
    fn row_full_at(&self, y: usize) -> (r: bool)
        requires
            self.wf(),
            y < BOARD_HEIGHT,
        ensures
            r == row_full(self@[y as int]),
    {
        proof {
            self.view_bridge();
        }
        let row: &Vec<bool> = &self.rows[y];
        let mut x: usize = 0;
        while x < BOARD_WIDTH
            invariant
                row@ == self@[y as int],
                row@.len() == BOARD_WIDTH,
                x <= BOARD_WIDTH,
                forall|i: int| 0 <= i < x ==> row@[i],
            decreases BOARD_WIDTH - x,
        {
            if !row[x] {
                return false;
            }
            x = x + 1;
        }
        true
    }

    /// Whether no cell of row `y` is occupied.
    fn row_empty_at(&self, y: usize) -> (r: bool)
        requires
            self.wf(),
            y < BOARD_HEIGHT,
        ensures
            r == row_empty(self@[y as int]),
    {
        proof {
            self.view_bridge();
        }
        let row: &Vec<bool> = &self.rows[y];
        let mut x: usize = 0;
        while x < BOARD_WIDTH
            invariant
                row@ == self@[y as int],
                row@.len() == BOARD_WIDTH,
                x <= BOARD_WIDTH,
                forall|i: int| 0 <= i < x ==> !row@[i],
            decreases BOARD_WIDTH - x,
        {
            if row[x] {
                return false;
            }
            x = x + 1;
        }
        true
    }

    /// The indices of the rows in which every column is occupied, in
    /// ascending order.
    pub fn find_full_rows(&self) -> (r: Vec<usize>)
        requires
            self.wf(),
        ensures
            forall|k: int|
                0 <= k < r@.len() ==> r@[k] < BOARD_HEIGHT && row_full(self@[r@[k] as int]),
            forall|j: int| 0 <= j < BOARD_HEIGHT && row_full(self@[j]) ==> contains_index(r@, j),
            forall|k1: int, k2: int| 0 <= k1 < k2 < r@.len() ==> r@[k1] < r@[k2],
            r@.len() == full_count(self@),
    {
        let mut res: Vec<usize> = Vec::new();
        let mut y: usize = 0;
        while y < BOARD_HEIGHT
            invariant
                self.wf(),
                y <= BOARD_HEIGHT,
                forall|k: int|
                    0 <= k < res@.len() ==> res@[k] < y && row_full(self@[res@[k] as int]),
                forall|j: int| 0 <= j < y && row_full(self@[j]) ==> contains_index(res@, j),
                forall|k1: int, k2: int| 0 <= k1 < k2 < res@.len() ==> res@[k1] < res@[k2],
                res@.len() == full_rows_upto(self@, y as int),
            decreases BOARD_HEIGHT - y,
        {
            if self.row_full_at(y) {
                let ghost res0 = res@;
                res.push(y);
                proof {
                    assert forall|j: int| 0 <= j < y + 1 && row_full(self@[j]) implies contains_index(
                        res@,
                        j,
                    ) by {
                        if j == y as int {
                            assert(res@[res0.len() as int] as int == j);
                        } else {
                            assert(contains_index(res0, j));
                            let k = choose|k: int| 0 <= k < res0.len() && res0[k] as int == j;
                            assert(res@[k] as int == j);
                        }
                    }
                }
            }
            y = y + 1;
        }
        res
    }

    /// Whether any cell in the top `n` rows is occupied; used for the
    /// game-over check.
    pub fn top_rows_occupied(&self, n: usize) -> (r: bool)
        requires
            self.wf(),
            n <= BOARD_HEIGHT,
        ensures
            r == exists|x: int, y: int| 0 <= x < BOARD_WIDTH && 0 <= y < n && self@[y][x],
    {
        let mut y: usize = 0;
        while y < n
            invariant
                self.wf(),
                n <= BOARD_HEIGHT,
                y <= n,
                forall|j: int| 0 <= j < y ==> row_empty(#[trigger] self@[j]),
            decreases n - y,
        {
            if !self.row_empty_at(y) {
                proof {
                    let row = self@[y as int];
                    let xw = choose|x: int| 0 <= x < row.len() && row[x];
                    assert(0 <= xw < BOARD_WIDTH && 0 <= y < n && self@[y as int][xw]);
                }
                return true;
            }
            y = y + 1;
        }
        false
    }

    /// Wipe the listed rows empty, then run one bottom-up gravity pass so
    /// that the rows above the cleared ones settle down.
    pub fn clear_and_compact(&mut self, full_rows: &Vec<usize>)
        requires
            old(self).wf(),
            forall|k: int| 0 <= k < full_rows@.len() ==> full_rows@[k] < BOARD_HEIGHT,
        ensures
            final(self).wf(),
            final(self)@ == compact_pass(clear_rows(old(self)@, full_rows@)),
    {
        let mut idx: usize = 0;
        while idx < full_rows.len()
            invariant
                self.wf(),
                idx <= full_rows@.len(),
                forall|k: int| 0 <= k < full_rows@.len() ==> full_rows@[k] < BOARD_HEIGHT,
                self@ == clear_rows(old(self)@, full_rows@.subrange(0, idx as int)),
            decreases full_rows@.len() - idx,
        {
            let y = full_rows[idx];
            proof {
                self.view_bridge();
            }
            let ghost before = self@;
            self.rows.set(y, empty_row_vec());
            proof {
                self.view_bridge();
                assert(self@ =~~= before.update(y as int, empty_row()));
                let prefix = full_rows@.subrange(0, idx as int);
                let prefix1 = full_rows@.subrange(0, idx as int + 1);
                assert(forall|k: int| 0 <= k < prefix.len() ==> prefix[k] == prefix1[k]);
                assert(prefix1[idx as int] == y);
                assert forall|j: int| contains_index(prefix, j) || j == y as int implies contains_index(
                    prefix1,
                    j,
                ) by {
                    if j == y as int {
                        assert(prefix1[idx as int] as int == j);
                    } else {
                        let k = choose|k: int| 0 <= k < prefix.len() && prefix[k] as int == j;
                        assert(prefix1[k] as int == j);
                    }
                }
                assert forall|j: int|
                    contains_index(prefix1, j) && j != y as int implies contains_index(
                    prefix,
                    j,
                ) by {
                    let k = choose|k: int| 0 <= k < prefix1.len() && prefix1[k] as int == j;
                    assert(k < idx as int && prefix[k] as int == j);
                }
                assert(self@ =~~= clear_rows(old(self)@, prefix1));
            }
            idx = idx + 1;
        }
        proof {
            assert(full_rows@.subrange(0, full_rows@.len() as int) =~= full_rows@);
        }
        let ghost cleared = clear_rows(old(self)@, full_rows@);
        let ghost target = compact_pass(cleared);
        let mut j: usize = BOARD_HEIGHT - 1;
        while j >= 1
            invariant
                self.wf(),
                0 <= j <= BOARD_HEIGHT - 1,
                compact_from(self@, j as int) == target,
            decreases j,
        {
            if self.row_empty_at(j) {
                proof {
                    self.view_bridge();
                }
                let ghost before = self@;
                let above: Vec<bool> = self.rows[j - 1].clone();
                proof {
                    assert(above@ =~= self.rows@[j - 1]@);
                }
                self.rows.set(j, above);
                self.rows.set(j - 1, empty_row_vec());
                proof {
                    self.view_bridge();
                    assert(self@ =~~= before.update(j as int, before[j as int - 1]).update(
                        j as int - 1,
                        empty_row(),
                    ));
                    assert(self@ == compact_step(before, j as int));
                }
            } else {
                proof {
                    assert(self@ == compact_step(self@, j as int));
                }
            }
            j = j - 1;
        }
        proof {
            assert(compact_from(self@, 0) == self@);
        }
    }
}

/// The completely unoccupied row has no occupied cell and is not full.
proof fn lemma_empty_row_props()
    ensures
        row_empty(empty_row()),
        !row_full(empty_row()),
        empty_row().len() == BOARD_WIDTH,
{
    assert(!empty_row()[0]);
}

/// There are never more full rows above row `j` than there are rows.
pub proof fn lemma_full_rows_upto_bounds(b: Seq<Seq<bool>>, j: int)
    requires
        0 <= j,
    ensures
        0 <= full_rows_upto(b, j) <= j,
    decreases j,
{
    if j > 0 {
        lemma_full_rows_upto_bounds(b, j - 1);
    }
}

/// One gravity step keeps the board well formed, keeps the sequence of
/// nonempty rows exactly as it was, and introduces no full row.
proof fn lemma_compact_step_rows(b: Seq<Seq<bool>>, j: int)
    requires
        board_wf(b),
        1 <= j < b.len(),
    ensures
        board_wf(compact_step(b, j)),
        occupied_rows(compact_step(b, j)) == occupied_rows(b),
        no_full_rows(b) ==> no_full_rows(compact_step(b, j)),
{
    lemma_empty_row_props();
    let ne = nonempty_pred();
    if row_empty(b[j]) {
        let b2 = compact_step(b, j);
        let p = b.subrange(0, j - 1);
        let s = b.subrange(j + 1, b.len() as int);
        let m = seq![b[j - 1], b[j]];
        let m2 = seq![empty_row(), b[j - 1]];
        assert(b =~= p + m + s);
        assert(b2 =~= p + m2 + s);
        assert(m.filter(ne) == m2.filter(ne)) by {
            reveal_with_fuel(Seq::filter, 3);
            assert(m.drop_last() =~= seq![b[j - 1]]);
            assert(m2.drop_last() =~= seq![empty_row()]);
            assert(seq![b[j - 1]].drop_last() =~= Seq::<Seq<bool>>::empty());
            assert(seq![empty_row()].drop_last() =~= Seq::<Seq<bool>>::empty());
        }
        assert(b.filter(ne) == p.filter(ne) + m.filter(ne) + s.filter(ne)) by {
            Seq::filter_distributes_over_add(p + m, s, ne);
            Seq::filter_distributes_over_add(p, m, ne);
        }
        assert(b2.filter(ne) == p.filter(ne) + m2.filter(ne) + s.filter(ne)) by {
            Seq::filter_distributes_over_add(p + m2, s, ne);
            Seq::filter_distributes_over_add(p, m2, ne);
        }
    }
}

/// The gravity pass applied from row `j` downward keeps the board well
/// formed, keeps the sequence of nonempty rows, and introduces no full row.
proof fn lemma_compact_from_rows(b: Seq<Seq<bool>>, j: int)
    requires
        board_wf(b),
        0 <= j < b.len(),
    ensures
        board_wf(compact_from(b, j)),
        occupied_rows(compact_from(b, j)) == occupied_rows(b),
        no_full_rows(b) ==> no_full_rows(compact_from(b, j)),
    decreases j,
{
    if j < 1 {
    } else {
        lemma_compact_step_rows(b, j);
        lemma_compact_from_rows(compact_step(b, j), j - 1);
    }
}

/// Wiping the full rows removes exactly them from the sequence of nonempty
/// rows and leaves the other rows in place.
proof fn lemma_clear_full_filter(b: Seq<Seq<bool>>)
    ensures
        occupied_rows(clear_full(b)) == b.filter(surviving_pred()),
    decreases b.len(),
{
    lemma_empty_row_props();
    let ne = nonempty_pred();
    let keep = surviving_pred();
    reveal(Seq::filter);
    let c = clear_full(b);
    if b.len() == 0 {
        assert(c =~= b);
    } else {
        lemma_clear_full_filter(b.drop_last());
        assert(c.drop_last() =~= clear_full(b.drop_last()));
        assert(c.last() == if row_full(b.last()) {
            empty_row()
        } else {
            b.last()
        });
        if row_full(b.last()) {
            assert(!ne(c.last()));
            assert(!keep(b.last()));
            assert(c.filter(ne) == b.filter(keep));
        } else {
            assert(c.last() == b.last());
            assert(ne(c.last()) == keep(b.last()));
            assert(c.filter(ne) == b.filter(keep));
        }
    }
}

/// Wiping the full rows leaves a well-formed board with no full row.
proof fn lemma_clear_full_wf(b: Seq<Seq<bool>>)
    requires
        board_wf(b),
    ensures
        board_wf(clear_full(b)),
        no_full_rows(clear_full(b)),
{
    lemma_empty_row_props();
    assert forall|j: int| 0 <= j < clear_full(b).len() implies !row_full(
        #[trigger] clear_full(b)[j],
    ) && clear_full(b)[j].len() == BOARD_WIDTH by {
        if row_full(b[j]) {
            assert(clear_full(b)[j] == empty_row());
        } else {
            assert(clear_full(b)[j] == b[j]);
        }
    }
}

/// Law: wiping every full row and then running the gravity pass leaves a
/// board with no fully occupied row, and the rows that still hold occupied
/// cells afterwards are exactly the rows that were nonempty and not full
/// before, in their original top-to-bottom order.
pub proof fn lemma_clear_and_compact_law(b: Seq<Seq<bool>>)
    requires
        board_wf(b),
    ensures
        board_wf(compact_pass(clear_full(b))),
        no_full_rows(compact_pass(clear_full(b))),
        occupied_rows(compact_pass(clear_full(b))) == b.filter(surviving_pred()),
{
    lemma_clear_full_wf(b);
    lemma_clear_full_filter(b);
    lemma_compact_from_rows(clear_full(b), BOARD_HEIGHT - 1);
}

/// A list of row indices that holds exactly the full rows of the board wipes
/// the same rows as wiping every full row.
pub proof fn lemma_clear_rows_eq_clear_full(b: Seq<Seq<bool>>, rows: Seq<usize>)
    requires
        board_wf(b),
        forall|k: int| 0 <= k < rows.len() ==> rows[k] < BOARD_HEIGHT && row_full(b[rows[k] as int]),
        forall|j: int| 0 <= j < BOARD_HEIGHT && row_full(#[trigger] b[j]) ==> contains_index(
            rows,
            j,
        ),
    ensures
        clear_rows(b, rows) == clear_full(b),
{
    assert forall|j: int| 0 <= j < b.len() implies clear_rows(b, rows)[j] == clear_full(b)[j] by {
        if contains_index(rows, j) {
            let k = choose|k: int| 0 <= k < rows.len() && rows[k] as int == j;
            assert(row_full(b[j]));
        }
    }
    assert(clear_rows(b, rows) =~= clear_full(b));
}

/// A row of 10 unoccupied cells.
fn empty_row_vec() -> (v: Vec<bool>)
    ensures
        v@ == empty_row(),
{
    let mut v: Vec<bool> = Vec::new();
    while v.len() < BOARD_WIDTH
        invariant
            forall|i: int| 0 <= i < v@.len() ==> !v@[i],
            v@.len() <= BOARD_WIDTH,
        decreases BOARD_WIDTH - v@.len(),
    {
        v.push(false);
    }
    proof {
        assert(v@ =~= empty_row());
    }
    v
}

} // verus!
