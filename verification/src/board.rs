//! The playfield of a single player: a grid of locked cells and the falling tetromino.
//!
//! Columns are counted from the left, rows from the top; a falling piece moves to
//! higher row numbers. A piece is locked into the grid when it can fall no further.

use vstd::prelude::*;

verus! {

/// Number of rows of the playfield.
pub const GRID_HEIGHT: usize = 20;

/// Number of columns of the playfield.
pub const GRID_WIDTH: usize = 10;

/// Side of one cell, in world units.
pub const DEFAULT_BLOCK_SZ: u32 = 26;

/// The locked cells of the playfield, and its dimensions in world units.
pub struct Grid {
    /// `grid[row][col]` is true where a block has been locked.
    pub grid: [[bool; GRID_WIDTH]; GRID_HEIGHT],
    /// Side of one cell.
    pub block_sz: u32,
    /// Width of the whole field.
    pub width_sz: u32,
    /// Height of the whole field.
    pub height_sz: u32,
}

/// The seven tetromino shapes.
#[derive(Clone, Copy, Debug, PartialEq, Eq, Structural)]
pub enum TetroKind {
    T,
    L,
    J,
    S,
    Z,
    O,
    I,
}

/// The four rotation states of a tetromino.
#[derive(Clone, Copy, Debug, PartialEq, Eq, Structural)]
pub enum TetroRot {
    Base,
    R1,
    R2,
    R3,
}

/// A falling piece: the `(column, row)` of each of its four blocks, its shape and rotation.
#[derive(Clone, Copy, Debug)]
pub struct Tetro {
    pub coos: [(usize, usize); 4],
    pub kind: TetroKind,
    pub config: TetroRot,
}

/// What a gravity tick did to the falling piece.
#[derive(Clone, Copy, Debug, PartialEq, Eq, Structural)]
pub enum GravityOutcome {
    /// The piece moved one row down.
    Fell,
    /// The piece could not move down and its blocks were locked into the grid.
    Locked,
}

/// True when `(col, row)` lies on the playfield.
pub open spec fn on_field(col: int, row: int) -> bool {
    0 <= col < GRID_WIDTH && 0 <= row < GRID_HEIGHT
}

impl Grid {
    /// Whether the cell at `(col, row)` holds a locked block.
    pub open spec fn cell(&self, col: int, row: int) -> bool {
        self.grid@[row]@[col]
    }

    /// No cell of the field holds a locked block.
    pub open spec fn is_empty(&self) -> bool {
        forall|col: int, row: int| on_field(col, row) ==> !#[trigger] self.cell(col, row)
    }

    /// `self` is `old` with the blocks of `t` locked in: a cell is filled when it was
    /// filled before or `t` covers it; the dimensions are unchanged.
    pub open spec fn is_lock_of(&self, old: Grid, t: Tetro) -> bool {
        &&& self.block_sz == old.block_sz
        &&& self.width_sz == old.width_sz
        &&& self.height_sz == old.height_sz
        &&& forall|col: int, row: int|
            on_field(col, row) ==> (#[trigger] self.cell(col, row) == (old.cell(col, row)
                || t.covers(col, row)))
    }

    /// An empty field of `GRID_WIDTH` by `GRID_HEIGHT` cells of side `DEFAULT_BLOCK_SZ`.
    pub fn new() -> (g: Self)
        ensures
            g.is_empty(),
            g.block_sz == DEFAULT_BLOCK_SZ,
            g.width_sz == DEFAULT_BLOCK_SZ * GRID_WIDTH,
            g.height_sz == DEFAULT_BLOCK_SZ * GRID_HEIGHT,
    {
        let grid = [[false; GRID_WIDTH]; GRID_HEIGHT];
        Grid {
            grid,
            block_sz: DEFAULT_BLOCK_SZ,
            width_sz: DEFAULT_BLOCK_SZ * GRID_WIDTH as u32,
            height_sz: DEFAULT_BLOCK_SZ * GRID_HEIGHT as u32,
        }
    }
}

impl Tetro {
    /// Column of block `i`.
    pub open spec fn col(&self, i: int) -> int {
        self.coos@[i].0 as int
    }

    /// Row of block `i`.
    pub open spec fn row(&self, i: int) -> int {
        self.coos@[i].1 as int
    }

    /// Every block lies on the playfield.
    pub open spec fn in_bounds(&self) -> bool {
        forall|i: int| 0 <= i < 4 ==> on_field(#[trigger] self.col(i), self.row(i))
    }

    /// The piece moved by `dc` columns and `dr` rows lies on the field, over empty cells.
    pub open spec fn fits_at(&self, grid: Grid, dc: int, dr: int) -> bool {
        forall|i: int|
            0 <= i < 4 ==> on_field(#[trigger] self.col(i) + dc, self.row(i) + dr) && !grid.cell(
                self.col(i) + dc,
                self.row(i) + dr,
            )
    }

    /// The piece lies on the field, over empty cells.
    pub open spec fn fits(&self, grid: Grid) -> bool {
        self.fits_at(grid, 0, 0)
    }

    /// One of the blocks of the piece is at `(col, row)`.
    pub open spec fn covers(&self, col: int, row: int) -> bool {
        exists|i: int| 0 <= i < 4 && #[trigger] self.col(i) == col && self.row(i) == row
    }

    /// `self` is `old` moved by `dc` columns and `dr` rows, with the same shape and rotation.
    pub open spec fn is_shift_of(&self, old: Tetro, dc: int, dr: int) -> bool {
        &&& self.kind == old.kind
        &&& self.config == old.config
        &&& forall|i: int|
            0 <= i < 4 ==> #[trigger] self.col(i) == old.col(i) + dc && self.row(i) == old.row(i)
                + dr
    }
}

/// Net column offset of the piece after one frame of arrow input: the left arrow is
/// handled first and moves the piece one column left where it fits; the right arrow is
/// then handled on the result and moves it one column right where it fits.
pub open spec fn horizontal_offset(t: Tetro, grid: Grid, left: bool, right: bool) -> int {
    let l: int = if left && t.fits_at(grid, -1, 0) {
        -1
    } else {
        0
    };
    l + if right && t.fits_at(grid, l + 1, 0) {
        1int
    } else {
        0int
    }
}

/// The piece can fall one row: every block has a row below it on the field, and the
/// cell there is empty.
pub fn can_move_down(tetro: &Tetro, grid: &Grid) -> (r: bool)
    requires
        tetro.in_bounds(),
    ensures
        r == tetro.fits_at(*grid, 0, 1),
{
    let mut i: usize = 0;
    while i < 4
        invariant
            0 <= i <= 4,
            tetro.in_bounds(),
            forall|j: int|
                0 <= j < i ==> on_field(#[trigger] tetro.col(j), tetro.row(j) + 1) && !grid.cell(
                    tetro.col(j),
                    tetro.row(j) + 1,
                ),
        decreases 4 - i,
    {
        let (col, row) = tetro.coos[i];
        assert(on_field(tetro.col(i as int), tetro.row(i as int)));
        if row == GRID_HEIGHT - 1 || grid.grid[row + 1][col] {
            assert(!(on_field(tetro.col(i as int) + 0, tetro.row(i as int) + 1) && !grid.cell(
                tetro.col(i as int) + 0,
                tetro.row(i as int) + 1,
            )));
            return false;
        }
        i += 1;
    }
    assert forall|j: int| 0 <= j < 4 implies on_field(#[trigger] tetro.col(j) + 0, tetro.row(j) + 1)
        && !grid.cell(tetro.col(j) + 0, tetro.row(j) + 1) by {
        assert(on_field(tetro.col(j), tetro.row(j) + 1));
    }
    true
}

/// The piece can move one column left: every block has a column to its left on the
/// field, and the cell there is empty.
pub fn can_move_left(tetro: &Tetro, grid: &Grid) -> (r: bool)
    requires
        tetro.in_bounds(),
    ensures
        r == tetro.fits_at(*grid, -1, 0),
{
    let mut i: usize = 0;
    while i < 4
        invariant
            0 <= i <= 4,
            tetro.in_bounds(),
            forall|j: int|
                0 <= j < i ==> on_field(#[trigger] tetro.col(j) - 1, tetro.row(j)) && !grid.cell(
                    tetro.col(j) - 1,
                    tetro.row(j),
                ),
        decreases 4 - i,
    {
        let (col, row) = tetro.coos[i];
        assert(on_field(tetro.col(i as int), tetro.row(i as int)));
        if !(col > 0 && !grid.grid[row][col - 1]) {
            assert(!(on_field(tetro.col(i as int) + -1, tetro.row(i as int) + 0) && !grid.cell(
                tetro.col(i as int) + -1,
                tetro.row(i as int) + 0,
            )));
            return false;
        }
        i += 1;
    }
    assert forall|j: int| 0 <= j < 4 implies on_field(#[trigger] tetro.col(j) + -1, tetro.row(j) + 0)
        && !grid.cell(tetro.col(j) + -1, tetro.row(j) + 0) by {
        assert(on_field(tetro.col(j) - 1, tetro.row(j)));
    }
    true
}

/// The piece can move one column right: every block has a column to its right on the
/// field, and the cell there is empty.
pub fn can_move_right(tetro: &Tetro, grid: &Grid) -> (r: bool)
    requires
        tetro.in_bounds(),
    ensures
        r == tetro.fits_at(*grid, 1, 0),
{
    let mut i: usize = 0;
    while i < 4
        invariant
            0 <= i <= 4,
            tetro.in_bounds(),
            forall|j: int|
                0 <= j < i ==> on_field(#[trigger] tetro.col(j) + 1, tetro.row(j)) && !grid.cell(
                    tetro.col(j) + 1,
                    tetro.row(j),
                ),
        decreases 4 - i,
    {
        let (col, row) = tetro.coos[i];
        assert(on_field(tetro.col(i as int), tetro.row(i as int)));
        if !(col < GRID_WIDTH - 1 && !grid.grid[row][col + 1]) {
            assert(!(on_field(tetro.col(i as int) + 1, tetro.row(i as int) + 0) && !grid.cell(
                tetro.col(i as int) + 1,
                tetro.row(i as int) + 0,
            )));
            return false;
        }
        i += 1;
    }
    assert forall|j: int| 0 <= j < 4 implies on_field(#[trigger] tetro.col(j) + 1, tetro.row(j) + 0)
        && !grid.cell(tetro.col(j) + 1, tetro.row(j) + 0) by {
        assert(on_field(tetro.col(j) + 1, tetro.row(j)));
    }
    true
}

/// Moves every block one row down.
fn shift_down(tetro: &mut Tetro)
    requires
        old(tetro).in_bounds(),
    ensures
        final(tetro).is_shift_of(*old(tetro), 0, 1),
{
    let (c0, r0) = tetro.coos[0];
    let (c1, r1) = tetro.coos[1];
    let (c2, r2) = tetro.coos[2];
    let (c3, r3) = tetro.coos[3];
    proof {
        assert(on_field(old(tetro).col(0), old(tetro).row(0)));
        assert(on_field(old(tetro).col(1), old(tetro).row(1)));
        assert(on_field(old(tetro).col(2), old(tetro).row(2)));
        assert(on_field(old(tetro).col(3), old(tetro).row(3)));
    }
    tetro.coos[0] = (c0, r0 + 1);
    tetro.coos[1] = (c1, r1 + 1);
    tetro.coos[2] = (c2, r2 + 1);
    tetro.coos[3] = (c3, r3 + 1);
}

/// Moves every block one column left.
fn shift_left(tetro: &mut Tetro)
    requires
        forall|j: int| 0 <= j < 4 ==> #[trigger] old(tetro).col(j) > 0,
    ensures
        final(tetro).is_shift_of(*old(tetro), -1, 0),
{
    let (c0, r0) = tetro.coos[0];
    let (c1, r1) = tetro.coos[1];
    let (c2, r2) = tetro.coos[2];
    let (c3, r3) = tetro.coos[3];
    proof {
        assert(old(tetro).col(0) > 0);
        assert(old(tetro).col(1) > 0);
        assert(old(tetro).col(2) > 0);
        assert(old(tetro).col(3) > 0);
    }
    tetro.coos[0] = (c0 - 1, r0);
    tetro.coos[1] = (c1 - 1, r1);
    tetro.coos[2] = (c2 - 1, r2);
    tetro.coos[3] = (c3 - 1, r3);
}

/// Moves every block one column right.
fn shift_right(tetro: &mut Tetro)
    requires
        old(tetro).in_bounds(),
    ensures
        final(tetro).is_shift_of(*old(tetro), 1, 0),
{
    let (c0, r0) = tetro.coos[0];
    let (c1, r1) = tetro.coos[1];
    let (c2, r2) = tetro.coos[2];
    let (c3, r3) = tetro.coos[3];
    proof {
        assert(on_field(old(tetro).col(0), old(tetro).row(0)));
        assert(on_field(old(tetro).col(1), old(tetro).row(1)));
        assert(on_field(old(tetro).col(2), old(tetro).row(2)));
        assert(on_field(old(tetro).col(3), old(tetro).row(3)));
    }
    tetro.coos[0] = (c0 + 1, r0);
    tetro.coos[1] = (c1 + 1, r1);
    tetro.coos[2] = (c2 + 1, r2);
    tetro.coos[3] = (c3 + 1, r3);
}

/// A piece moved by `(dc, dr)` fits at offset `(a, b)` exactly where the original piece
/// fits at offset `(dc + a, dr + b)`.
pub proof fn lemma_shift_fits_at(t: Tetro, moved: Tetro, grid: Grid, dc: int, dr: int, a: int, b: int)
    requires
        moved.is_shift_of(t, dc, dr),
    ensures
        moved.fits_at(grid, a, b) == t.fits_at(grid, dc + a, dr + b),
{
    if moved.fits_at(grid, a, b) {
        assert forall|i: int| 0 <= i < 4 implies on_field(#[trigger] t.col(i) + (dc + a), t.row(i) + (dr + b))
            && !grid.cell(t.col(i) + (dc + a), t.row(i) + (dr + b)) by {
            assert(moved.col(i) == t.col(i) + dc);
        }
    }
    if t.fits_at(grid, dc + a, dr + b) {
        assert forall|i: int| 0 <= i < 4 implies on_field(#[trigger] moved.col(i) + a, moved.row(i) + b)
            && !grid.cell(moved.col(i) + a, moved.row(i) + b) by {
            assert(moved.col(i) == t.col(i) + dc);
            assert(on_field(t.col(i) + (dc + a), t.row(i) + (dr + b)));
        }
    }
}

/// A piece that fits at an offset is on the field once moved there.
pub proof fn lemma_fits_at_in_bounds(t: Tetro, moved: Tetro, grid: Grid, dc: int, dr: int)
    requires
        moved.is_shift_of(t, dc, dr),
        t.fits_at(grid, dc, dr),
    ensures
        moved.in_bounds(),
        moved.fits(grid),
{
    lemma_shift_fits_at(t, moved, grid, dc, dr, 0, 0);
    assert forall|i: int| 0 <= i < 4 implies on_field(#[trigger] moved.col(i), moved.row(i)) by {
        assert(on_field(moved.col(i) + 0, moved.row(i) + 0));
    }
}

/// The piece that enters the field: a T in its base rotation, its three-block bar on
/// the top row centred on column `GRID_WIDTH / 2`, and its fourth block below the centre.
pub fn spawn_tetro() -> (t: Tetro)
    ensures
        t.kind == TetroKind::T,
        t.config == TetroRot::Base,
        t.col(0) == GRID_WIDTH / 2 - 1 && t.row(0) == 0,
        t.col(1) == GRID_WIDTH / 2 && t.row(1) == 0,
        t.col(2) == GRID_WIDTH / 2 + 1 && t.row(2) == 0,
        t.col(3) == GRID_WIDTH / 2 && t.row(3) == 1,
        t.in_bounds(),
{
    let middle: usize = GRID_WIDTH / 2;
    let coos = [(middle - 1, 0), (middle, 0), (middle + 1, 0), (middle, 1)];
    let t = Tetro { coos, kind: TetroKind::T, config: TetroRot::Base };
    t
}

/// Locks the blocks of `tetro` into the grid: the cells under its four blocks become
/// filled, every other cell and the dimensions stay as they were.
pub fn lock_tetro(grid: &mut Grid, tetro: &Tetro)
    requires
        tetro.in_bounds(),
    ensures
        final(grid).is_lock_of(*old(grid), *tetro),
{
    let ghost start = *grid;
    let mut i: usize = 0;
    while i < 4
        invariant
            0 <= i <= 4,
            tetro.in_bounds(),
            grid.block_sz == start.block_sz,
            grid.width_sz == start.width_sz,
            grid.height_sz == start.height_sz,
            forall|col: int, row: int|
                on_field(col, row) ==> (#[trigger] grid.cell(col, row) == (start.cell(col, row)
                    || exists|j: int| 0 <= j < i && #[trigger] tetro.col(j) == col && tetro.row(j) == row)),
        decreases 4 - i,
    {
        let (col, row) = tetro.coos[i];
        assert(on_field(tetro.col(i as int), tetro.row(i as int)));
        let ghost prev = *grid;
        grid.grid[row][col] = true;
        assert forall|c: int, r: int| on_field(c, r) implies (#[trigger] grid.cell(c, r) == (
            start.cell(c, r) || exists|j: int| 0 <= j < i + 1 && #[trigger] tetro.col(j) == c
                && tetro.row(j) == r)) by {
            assert(prev.cell(c, r) == (start.cell(c, r) || exists|j: int|
                0 <= j < i && #[trigger] tetro.col(j) == c && tetro.row(j) == r));
            if c == col && r == row {
                assert(tetro.col(i as int) == c && tetro.row(i as int) == r);
            } else {
                assert(grid.cell(c, r) == prev.cell(c, r));
                if exists|j: int| 0 <= j < i + 1 && #[trigger] tetro.col(j) == c && tetro.row(j) == r {
                    let j = choose|j: int| 0 <= j < i + 1 && #[trigger] tetro.col(j) == c && tetro.row(j) == r;
                    assert(j != i);
                }
            }
        }
        i += 1;
    }
}

/// One gravity tick: the piece falls one row where it fits there; otherwise its blocks
/// are locked into the grid and the piece itself is left as it was.
pub fn apply_gravity(tetro: &mut Tetro, grid: &mut Grid) -> (r: GravityOutcome)
    requires
        old(tetro).in_bounds(),
    ensures
        (r == GravityOutcome::Fell) == old(tetro).fits_at(*old(grid), 0, 1),
        r == GravityOutcome::Fell ==> final(tetro).is_shift_of(*old(tetro), 0, 1) && *final(grid)
            == *old(grid),
        r == GravityOutcome::Locked ==> *final(tetro) == *old(tetro) && final(grid).is_lock_of(
            *old(grid),
            *old(tetro),
        ),
        final(tetro).in_bounds(),
        r == GravityOutcome::Fell ==> final(tetro).fits(*final(grid)),
        r == GravityOutcome::Fell ==> forall|i: int|
            0 <= i < 4 ==> #[trigger] final(tetro).col(i) == old(tetro).col(i) && final(tetro).row(i)
                == old(tetro).row(i) + 1,
{
    if can_move_down(tetro, grid) {
        let ghost before = *tetro;
        shift_down(tetro);
        proof {
            lemma_fits_at_in_bounds(before, *tetro, *grid, 0, 1);
        }
        GravityOutcome::Fell
    } else {
        lock_tetro(grid, tetro);
        GravityOutcome::Locked
    }
}

/// One frame of arrow input: the left arrow moves the piece one column left where it
/// fits there; then the right arrow moves the result one column right where it fits.
pub fn tetro_on_left_right_input(tetro: &mut Tetro, grid: &Grid, left: bool, right: bool)
    requires
        old(tetro).in_bounds(),
    ensures
        final(tetro).is_shift_of(*old(tetro), horizontal_offset(*old(tetro), *grid, left, right), 0),
        final(tetro).in_bounds(),
        old(tetro).fits(*grid) ==> final(tetro).fits(*grid),
        forall|i: int| 0 <= i < 4 ==> #[trigger] final(tetro).row(i) == old(tetro).row(i),
        !left && !right ==> forall|i: int|
            0 <= i < 4 ==> #[trigger] final(tetro).col(i) == old(tetro).col(i),
        !right ==> forall|i: int| 0 <= i < 4 ==> #[trigger] final(tetro).col(i) <= old(tetro).col(i),
        !left ==> forall|i: int| 0 <= i < 4 ==> #[trigger] final(tetro).col(i) >= old(tetro).col(i),
{
    let ghost start = *tetro;
    if left && can_move_left(tetro, grid) {
        let ghost before = *tetro;
        proof {
            assert forall|j: int| 0 <= j < 4 implies #[trigger] before.col(j) > 0 by {
                assert(on_field(before.col(j) + -1, before.row(j) + 0));
            }
        }
        shift_left(tetro);
        proof {
            lemma_fits_at_in_bounds(before, *tetro, *grid, -1, 0);
        }
    }
    let ghost l: int = if left && start.fits_at(*grid, -1, 0) { -1 } else { 0 };
    assert(tetro.is_shift_of(start, l, 0));
    assert(l == 0 ==> start.fits(*grid) ==> tetro.fits(*grid)) by {
        if l == 0 {
            lemma_shift_fits_at(start, *tetro, *grid, 0, 0, 0, 0);
        }
    }
    let ghost mid = *tetro;
    proof {
        lemma_shift_fits_at(start, mid, *grid, l, 0, 1, 0);
    }
    if right && can_move_right(tetro, grid) {
        shift_right(tetro);
        proof {
            lemma_fits_at_in_bounds(mid, *tetro, *grid, 1, 0);
        }
    }
    assert(tetro.is_shift_of(start, horizontal_offset(start, *grid, left, right), 0));
    proof {
        lemma_offset_direction(start, *grid, left, right);
        let off = horizontal_offset(start, *grid, left, right);
        assert forall|i: int| 0 <= i < 4 implies #[trigger] tetro.row(i) == start.row(i) by {
            assert(tetro.col(i) == start.col(i) + off);
        }
    }
}

/// Every piece whose blocks lie on the field fits an empty grid; in particular the piece
/// that `spawn_tetro` returns fits the grid of a new game.
pub proof fn lemma_fits_empty_grid(t: Tetro, grid: Grid)
    requires
        t.in_bounds(),
        grid.is_empty(),
    ensures
        t.fits(grid),
{
    assert forall|i: int| 0 <= i < 4 implies on_field(#[trigger] t.col(i) + 0, t.row(i) + 0)
        && !grid.cell(t.col(i) + 0, t.row(i) + 0) by {
        assert(on_field(t.col(i), t.row(i)));
    }
}

/// A move one column left is undone by a move one column right: once a resting piece
/// has moved left, the right arrow alone always brings it back.
pub proof fn lemma_left_undone_by_right(t: Tetro, moved: Tetro, grid: Grid)
    requires
        t.fits(grid),
        moved.is_shift_of(t, -1, 0),
    ensures
        horizontal_offset(moved, grid, false, true) == 1,
{
    lemma_shift_fits_at(t, moved, grid, -1, 0, 1, 0);
}

/// A move one column right is undone by a move one column left.
pub proof fn lemma_right_undone_by_left(t: Tetro, moved: Tetro, grid: Grid)
    requires
        t.fits(grid),
        moved.is_shift_of(t, 1, 0),
    ensures
        horizontal_offset(moved, grid, true, false) == -1,
{
    lemma_shift_fits_at(t, moved, grid, 1, 0, -1, 0);
}

/// Both arrows in one frame leave a fitting piece in place whenever it can move left.
pub proof fn lemma_both_arrows_cancel(t: Tetro, grid: Grid)
    requires
        t.fits(grid),
        t.fits_at(grid, -1, 0),
    ensures
        horizontal_offset(t, grid, true, true) == 0,
{
}

/// Once locked, the cells of a piece are filled, and the same piece no longer fits.
pub proof fn lemma_locked_cells_filled(t: Tetro, before: Grid, after: Grid)
    requires
        t.in_bounds(),
        after.is_lock_of(before, t),
    ensures
        forall|i: int| 0 <= i < 4 ==> after.cell(#[trigger] t.col(i), t.row(i)),
        !t.fits(after),
{
    assert forall|i: int| 0 <= i < 4 implies after.cell(#[trigger] t.col(i), t.row(i)) by {
        assert(on_field(t.col(i), t.row(i)));
        assert(t.covers(t.col(i), t.row(i)));
    }
    assert(after.cell(t.col(0), t.row(0)));
    assert(after.cell(t.col(0) + 0, t.row(0) + 0));
}

/// Locking never empties a cell: every cell filled before is filled after.
pub proof fn lemma_lock_keeps_cells(t: Tetro, before: Grid, after: Grid)
    requires
        after.is_lock_of(before, t),
    ensures
        forall|col: int, row: int|
            on_field(col, row) && before.cell(col, row) ==> #[trigger] after.cell(col, row),
{
}


/// With no arrow pressed the piece does not move sideways.
pub proof fn lemma_no_arrow_no_move(t: Tetro, grid: Grid)
    ensures
        horizontal_offset(t, grid, false, false) == 0,
{
}

/// The left arrow alone moves the piece one column left when it can move there, and
/// leaves it in place otherwise; it never moves the piece right.
pub proof fn lemma_left_arrow_alone(t: Tetro, grid: Grid)
    ensures
        horizontal_offset(t, grid, true, false) <= 0,
        t.fits_at(grid, -1, 0) ==> horizontal_offset(t, grid, true, false) == -1,
        !t.fits_at(grid, -1, 0) ==> horizontal_offset(t, grid, true, false) == 0,
{
}

/// The right arrow alone moves the piece one column right when it can move there, and
/// leaves it in place otherwise; it never moves the piece left.
pub proof fn lemma_right_arrow_alone(t: Tetro, grid: Grid)
    ensures
        horizontal_offset(t, grid, false, true) >= 0,
        t.fits_at(grid, 1, 0) ==> horizontal_offset(t, grid, false, true) == 1,
        !t.fits_at(grid, 1, 0) ==> horizontal_offset(t, grid, false, true) == 0,
{
}

/// Arrow input moves the piece by at most one column; it moves right only when the right
/// arrow is pressed, left only when the left arrow is pressed, and only to a place where
/// the piece fits.
pub proof fn lemma_offset_direction(t: Tetro, grid: Grid, left: bool, right: bool)
    ensures
        -1 <= horizontal_offset(t, grid, left, right) <= 1,
        horizontal_offset(t, grid, left, right) > 0 ==> right,
        horizontal_offset(t, grid, left, right) < 0 ==> left,
        !right ==> horizontal_offset(t, grid, left, right) <= 0,
        !left ==> horizontal_offset(t, grid, left, right) >= 0,
        horizontal_offset(t, grid, left, right) != 0 ==> t.fits_at(
            grid,
            horizontal_offset(t, grid, left, right),
            0,
        ),
{
}

/// A piece touching the left wall cannot move left, one touching the right wall cannot
/// move right, and one touching the floor cannot move down.
pub proof fn lemma_walls_block(t: Tetro, grid: Grid, i: int)
    requires
        0 <= i < 4,
    ensures
        t.col(i) == 0 ==> !t.fits_at(grid, -1, 0),
        t.col(i) == GRID_WIDTH - 1 ==> !t.fits_at(grid, 1, 0),
        t.row(i) == GRID_HEIGHT - 1 ==> !t.fits_at(grid, 0, 1),
{
    if t.col(i) == 0 {
        assert(!on_field(t.col(i) + -1, t.row(i) + 0));
    }
    if t.col(i) == GRID_WIDTH - 1 {
        assert(!on_field(t.col(i) + 1, t.row(i) + 0));
    }
    if t.row(i) == GRID_HEIGHT - 1 {
        assert(!on_field(t.col(i) + 0, t.row(i) + 1));
    }
}

/// A piece cannot move onto a locked block.
pub proof fn lemma_locked_block_blocks(t: Tetro, grid: Grid, i: int, dc: int, dr: int)
    requires
        0 <= i < 4,
        grid.cell(t.col(i) + dc, t.row(i) + dr),
    ensures
        !t.fits_at(grid, dc, dr),
{
}

/// A piece can move by `(dc, dr)` when every block lands on the field over an empty cell.
pub proof fn lemma_free_cells_allow(t: Tetro, grid: Grid, dc: int, dr: int)
    requires
        forall|i: int|
            0 <= i < 4 ==> 0 <= #[trigger] t.col(i) + dc < GRID_WIDTH && 0 <= t.row(i) + dr
                < GRID_HEIGHT && !grid.cell(t.col(i) + dc, t.row(i) + dr),
    ensures
        t.fits_at(grid, dc, dr),
{
}

} // verus!
