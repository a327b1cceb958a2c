use vstd::prelude::*;

use crate::player::Player;

verus! {

broadcast use vstd::array::group_array_axioms;

/// Number of rows of a board.
pub const ROWS: usize = 6;

/// Number of columns of a board.
pub const COLS: usize = 7;

/// Mathematical picture of a board: one sequence per column, each listing the cells of
/// that column from the top row (index 0) down to the bottom row (index `ROWS - 1`).
pub type Grid = Seq<Seq<Option<Player>>>;

/// The occupant of the cell at `row`, `col`.
pub open spec fn cell(g: Grid, row: int, col: int) -> Option<Player> {
    g[col][row]
}

/// The grid with every cell empty.
pub open spec fn empty_grid() -> Grid {
    Seq::new(COLS as nat, |c: int| Seq::new(ROWS as nat, |r: int| None::<Player>))
}

/// The grid has `COLS` columns of `ROWS` cells each.
pub open spec fn has_shape(g: Grid) -> bool {
    &&& g.len() == COLS
    &&& forall|c: int| 0 <= c < COLS ==> (#[trigger] g[c]).len() == ROWS
}

/// Every occupied cell rests on the bottom edge or on another occupied cell.
pub open spec fn settled(g: Grid) -> bool {
    forall|r: int, c: int|
        0 <= r < ROWS - 1 && 0 <= c < COLS && (#[trigger] cell(g, r, c)) is Some
            ==> cell(g, r + 1, c) is Some
}

/// A shaped grid that obeys gravity.
pub open spec fn well_formed(g: Grid) -> bool {
    has_shape(g) && settled(g)
}

/// Column `col` has at least one empty cell.
pub open spec fn column_open(g: Grid, col: int) -> bool {
    exists|r: int| 0 <= r < ROWS && (#[trigger] cell(g, r, col)) is None
}

/// The lowest empty cell of column `col` among rows `0..=row`, or -1 if there is none.
pub open spec fn lowest_empty_from(g: Grid, col: int, row: int) -> int
    decreases row + 1,
{
    if row < 0 {
        -1
    } else if cell(g, row, col) is None {
        row
    } else {
        lowest_empty_from(g, col, row - 1)
    }
}

/// The row that a token dropped into `col` comes to rest on, or -1 for a full column.
pub open spec fn landing_row(g: Grid, col: int) -> int {
    lowest_empty_from(g, col, ROWS - 1)
}

/// The grid with `p` put in the cell at `row`, `col`.
pub open spec fn place(g: Grid, row: int, col: int, p: Player) -> Grid {
    g.update(col, g[col].update(row, Some(p)))
}

/// The grid after `p` drops a token into the open column `col`.
pub open spec fn drop_token(g: Grid, col: int, p: Player) -> Grid {
    place(g, landing_row(g, col), col, p)
}

/// Row of the `k`-th cell of the window that starts at row `row` and runs in direction `d`:
/// 0 runs right, 1 runs down, 2 runs down and right, 3 runs up and right.
pub open spec fn window_row(row: int, d: int, k: int) -> int {
    if d == 0 {
        row
    } else if d == 3 {
        row - k
    } else {
        row + k
    }
}

/// Column of the `k`-th cell of the window that starts at column `col` and runs in direction `d`.
pub open spec fn window_col(col: int, d: int, k: int) -> int {
    if d == 1 {
        col
    } else {
        col + k
    }
}

/// The four cells of the window at `row`, `col` in direction `d` all lie on the board.
pub open spec fn window_fits(row: int, col: int, d: int) -> bool {
    &&& 0 <= d < 4
    &&& 0 <= row < ROWS
    &&& 0 <= col < COLS
    &&& 0 <= window_row(row, d, 3) < ROWS
    &&& window_col(col, d, 3) < COLS
}

/// The `k`-th cell of a window.
pub open spec fn window_cell(g: Grid, row: int, col: int, d: int, k: int) -> Option<Player> {
    cell(g, window_row(row, d, k), window_col(col, d, k))
}

/// The window at `row`, `col` in direction `d` lies on the board and one player holds all of it.
pub open spec fn four_in_row(g: Grid, row: int, col: int, d: int) -> bool {
    &&& window_fits(row, col, d)
    &&& window_cell(g, row, col, d, 0) is Some
    &&& window_cell(g, row, col, d, 1) == window_cell(g, row, col, d, 0)
    &&& window_cell(g, row, col, d, 2) == window_cell(g, row, col, d, 0)
    &&& window_cell(g, row, col, d, 3) == window_cell(g, row, col, d, 0)
}

/// Somewhere on the board one player holds four cells in a row, in any of the four directions.
pub open spec fn has_winner(g: Grid) -> bool {
    exists|row: int, col: int, d: int| #[trigger] four_in_row(g, row, col, d)
}

/// The lowest empty cell at or above `row` is found exactly when one exists there, and every
/// cell between it and `row` is occupied.
pub proof fn lemma_lowest_empty(g: Grid, col: int, row: int)
    ensures
        -1 <= lowest_empty_from(g, col, row),
        lowest_empty_from(g, col, row) >= 0 ==> lowest_empty_from(g, col, row) <= row,
        lowest_empty_from(g, col, row) >= 0 ==> cell(g, lowest_empty_from(g, col, row), col) is None,
        lowest_empty_from(g, col, row) >= 0 <==> exists|r: int|
            0 <= r <= row && (#[trigger] cell(g, r, col)) is None,
        forall|r: int|
            lowest_empty_from(g, col, row) < r <= row ==> (#[trigger] cell(g, r, col)) is Some,
    decreases row + 1,
{
    if row >= 0 && cell(g, row, col) is Some {
        lemma_lowest_empty(g, col, row - 1);
        if lowest_empty_from(g, col, row) < 0 {
            assert forall|r: int| 0 <= r <= row implies (#[trigger] cell(g, r, col)) is Some by {
                if r < row {
                }
            }
        }
    }
}

/// A token can land in a column exactly when the column is open.
pub proof fn lemma_landing_row(g: Grid, col: int)
    ensures
        -1 <= landing_row(g, col) < ROWS,
        landing_row(g, col) >= 0 <==> column_open(g, col),
        landing_row(g, col) >= 0 ==> cell(g, landing_row(g, col), col) is None,
        forall|r: int| landing_row(g, col) < r < ROWS ==> (#[trigger] cell(g, r, col)) is Some,
{
    lemma_lowest_empty(g, col, ROWS - 1);
    if column_open(g, col) {
        let r = choose|r: int| 0 <= r < ROWS && (#[trigger] cell(g, r, col)) is None;
        assert(0 <= r <= ROWS - 1 && cell(g, r, col) is None);
    }
}

/// The empty grid is well formed.
pub proof fn lemma_empty_well_formed()
    ensures
        well_formed(empty_grid()),
{
}

/// Dropping a token into an open column keeps a grid well formed.
pub proof fn lemma_drop_well_formed(g: Grid, col: int, p: Player)
    requires
        well_formed(g),
        0 <= col < COLS,
        column_open(g, col),
    ensures
        well_formed(drop_token(g, col, p)),
{
    lemma_landing_row(g, col);
    let h = drop_token(g, col, p);
    assert forall|c: int| 0 <= c < COLS implies (#[trigger] h[c]).len() == ROWS by {}
    assert forall|r: int, c: int|
        0 <= r < ROWS - 1 && 0 <= c < COLS && (#[trigger] cell(h, r, c)) is Some implies cell(
        h,
        r + 1,
        c,
    ) is Some by {
        if c == col && r + 1 == landing_row(g, col) {
            assert(cell(g, r, c) is None);
        }
    }
}

/// Gravity: on the empty grid a token lands on the bottom row, and the next token dropped into
/// the same column lands on the row just above it.
pub proof fn lemma_gravity(col: int, p: Player, q: Player)
    requires
        0 <= col < COLS,
    ensures
        landing_row(empty_grid(), col) == ROWS - 1,
        cell(drop_token(empty_grid(), col, p), ROWS - 1, col) == Some(p),
        landing_row(drop_token(empty_grid(), col, p), col) == ROWS - 2,
        cell(drop_token(drop_token(empty_grid(), col, p), col, q), ROWS - 2, col) == Some(q),
        cell(drop_token(drop_token(empty_grid(), col, p), col, q), ROWS - 1, col) == Some(p),
{
    reveal_with_fuel(lowest_empty_from, 3);
    let g1 = drop_token(empty_grid(), col, p);
    assert(cell(g1, ROWS - 1, col) is Some);
    assert(cell(g1, ROWS - 2, col) is None);
}

/// Number of empty cells among the rows below `n` of column `col`.
pub open spec fn count_empty(g: Grid, col: int, n: int) -> int
    decreases n,
{
    if n <= 0 {
        0
    } else {
        count_empty(g, col, n - 1) + if cell(g, n - 1, col) is None {
            1int
        } else {
            0int
        }
    }
}

/// The grid after each of `players`, in order, has dropped a token into column `col`.
pub open spec fn drop_all(g: Grid, col: int, players: Seq<Player>) -> Grid
    decreases players.len(),
{
    if players.len() == 0 {
        g
    } else {
        drop_token(drop_all(g, col, players.drop_last()), col, players.last())
    }
}

proof fn lemma_count_empty_bounds(g: Grid, col: int, n: int)
    requires
        0 <= n,
    ensures
        0 <= count_empty(g, col, n) <= n,
        (exists|r: int| 0 <= r < n && (#[trigger] cell(g, r, col)) is None) ==> count_empty(g, col, n)
            >= 1,
    decreases n,
{
    if n > 0 {
        lemma_count_empty_bounds(g, col, n - 1);
        if exists|r: int| 0 <= r < n && (#[trigger] cell(g, r, col)) is None {
            let r = choose|r: int| 0 <= r < n && (#[trigger] cell(g, r, col)) is None;
            if r < n - 1 {
                assert(0 <= r < n - 1 && cell(g, r, col) is None);
            }
        }
    }
}

proof fn lemma_count_empty_place(g: Grid, row: int, col: int, p: Player, n: int)
    requires
        has_shape(g),
        0 <= row < ROWS,
        0 <= col < COLS,
        n <= ROWS,
        cell(g, row, col) is None,
    ensures
        count_empty(place(g, row, col, p), col, n) == count_empty(g, col, n) - if row < n {
            1int
        } else {
            0int
        },
    decreases n,
{
    if n > 0 {
        lemma_count_empty_place(g, row, col, p, n - 1);
    }
}

/// Capacity: once `ROWS` tokens have been dropped one after another into a column, each into
/// an open column, the column is full.
pub proof fn lemma_column_capacity(g: Grid, col: int, players: Seq<Player>)
    requires
        has_shape(g),
        0 <= col < COLS,
        players.len() == ROWS,
        forall|i: int| 0 <= i < ROWS ==> column_open(#[trigger] drop_all(g, col, players.take(i)), col),
    ensures
        !column_open(drop_all(g, col, players), col),
{
    lemma_drops_fill(g, col, players, ROWS as int);
    assert(players.take(ROWS as int) =~= players);
    lemma_count_empty_bounds(g, col, ROWS as int);
    lemma_count_empty_bounds(drop_all(g, col, players), col, ROWS as int);
}

proof fn lemma_drops_fill(g: Grid, col: int, players: Seq<Player>, n: int)
    requires
        has_shape(g),
        0 <= col < COLS,
        0 <= n <= players.len(),
        forall|i: int| 0 <= i < n ==> column_open(#[trigger] drop_all(g, col, players.take(i)), col),
    ensures
        has_shape(drop_all(g, col, players.take(n))),
        count_empty(drop_all(g, col, players.take(n)), col, ROWS as int) == count_empty(
            g,
            col,
            ROWS as int,
        ) - n,
    decreases n,
{
    if n == 0 {
        assert(players.take(0) =~= Seq::<Player>::empty());
    } else {
        lemma_drops_fill(g, col, players, n - 1);
        let prev = drop_all(g, col, players.take(n - 1));
        assert(players.take(n).drop_last() =~= players.take(n - 1));
        assert(column_open(drop_all(g, col, players.take(n - 1)), col));
        lemma_landing_row(prev, col);
        lemma_count_empty_place(prev, landing_row(prev, col), col, players[n - 1], ROWS as int);
        let next = drop_all(g, col, players.take(n));
        assert forall|c: int| 0 <= c < COLS implies (#[trigger] next[c]).len() == ROWS by {}
    }
}

/// The operations that every board offers.
pub trait Board: Sized + Copy {
    /// The grid that this board holds.
    spec fn grid(&self) -> Grid;

    /// Every board has `COLS` columns of `ROWS` cells.
    proof fn lemma_has_shape(&self)
        ensures
            has_shape(self.grid()),
    ;

    /// A board with every cell empty.
    fn new() -> (b: Self)
        ensures
            b.grid() == empty_grid(),
    ;

    /// The occupant of the cell at `row`, `col`.
    fn get(&self, row: usize, col: usize) -> (r: Result<Option<Player>, Error>)
        ensures
            row >= ROWS ==> r == Err::<Option<Player>, Error>(Error::InvalidRow),
            row < ROWS && col >= COLS ==> r == Err::<Option<Player>, Error>(Error::InvalidColumn),
            row < ROWS && col < COLS ==> r == Ok::<Option<Player>, Error>(
                cell(self.grid(), row as int, col as int),
            ),
    ;

    /// The cells of column `col`, from the top row down.
    fn get_column(&self, col: usize) -> (r: Result<&[Option<Player>], Error>)
        ensures
            col >= COLS ==> r is Err && r->Err_0 == Error::InvalidColumn,
            col < COLS ==> r is Ok && r->Ok_0@ == self.grid()[col as int],
    ;

    /// Whether column `col` can take another token.
    fn is_valid(&self, col: usize) -> (r: Result<bool, Error>)
        ensures
            col >= COLS ==> r == Err::<bool, Error>(Error::InvalidColumn),
            col < COLS ==> r == Ok::<bool, Error>(column_open(self.grid(), col as int)),
    ;

    /// Drops a token of `player` into column `col`: it comes to rest on the lowest empty cell.
    fn make_move(&mut self, col: usize, player: Player) -> (r: Result<(), Error>)
        ensures
            col >= COLS ==> r == Err::<(), Error>(Error::InvalidColumn),
            col < COLS && !column_open(old(self).grid(), col as int) ==> r == Err::<(), Error>(
                Error::FullColumn,
            ),
            col < COLS && column_open(old(self).grid(), col as int) ==> r == Ok::<(), Error>(()),
            r is Ok ==> final(self).grid() == drop_token(old(self).grid(), col as int, player),
            r is Err ==> *final(self) == *old(self),
            well_formed(old(self).grid()) ==> well_formed(final(self).grid()),
    ;

    /// Whether one player holds four cells in a row somewhere on the board.
    fn check_winner(&self) -> (r: bool)
        ensures
            r == has_winner(self.grid()),
    ;
}

/// A board kept as one array of cells per column, each from the top row down.
#[derive(Clone, Copy)]
pub struct SimpleBoard {
    columns: [[Option<Player>; ROWS]; COLS],
}

impl SimpleBoard {
    /// The occupant of the cell at `row`, `col`, both on the board.
    fn at(&self, row: usize, col: usize) -> (r: Option<Player>)
        requires
            row < ROWS,
            col < COLS,
        ensures
            r == cell(self.grid(), row as int, col as int),
    {
        self.columns[col][row]
    }

    /// Whether the window at `row`, `col` in direction `d` is held by one player.
    fn line_at(&self, row: usize, col: usize, d: usize) -> (r: bool)
        requires
            window_fits(row as int, col as int, d as int),
        ensures
            r == four_in_row(self.grid(), row as int, col as int, d as int),
    {
        let (r0, c0) = window_pos(row, col, d, 0);
        let (r1, c1) = window_pos(row, col, d, 1);
        let (r2, c2) = window_pos(row, col, d, 2);
        let (r3, c3) = window_pos(row, col, d, 3);
        match self.at(r0, c0) {
            Some(p) => self.at(r1, c1) == Some(p) && self.at(r2, c2) == Some(p) && self.at(r3, c3)
                == Some(p),
            None => false,
        }
    }
}

/// Row and column of the `k`-th cell of a window that lies on the board.
pub(crate) fn window_pos(row: usize, col: usize, d: usize, k: usize) -> (r: (usize, usize))
    requires
        window_fits(row as int, col as int, d as int),
        k < 4,
    ensures
        r.0 == window_row(row as int, d as int, k as int),
        r.1 == window_col(col as int, d as int, k as int),
        r.0 < ROWS,
        r.1 < COLS,
{
    let r = if d == 0 {
        row
    } else if d == 3 {
        row - k
    } else {
        row + k
    };
    let c = if d == 1 {
        col
    } else {
        col + k
    };
    (r, c)
}

/// Whether the window at `row`, `col` in direction `d` lies on the board.
pub(crate) fn window_fits_at(row: usize, col: usize, d: usize) -> (r: bool)
    requires
        row < ROWS,
        col < COLS,
        d < 4,
    ensures
        r == window_fits(row as int, col as int, d as int),
{
    let row_ok = if d == 0 {
        true
    } else if d == 3 {
        row >= 3
    } else {
        row + 3 < ROWS
    };
    let col_ok = if d == 1 {
        true
    } else {
        col + 3 < COLS
    };
    row_ok && col_ok
}

impl Board for SimpleBoard {
    closed spec fn grid(&self) -> Grid {
        Seq::new(COLS as nat, |c: int| self.columns@[c]@)
    }

    proof fn lemma_has_shape(&self) {
    }

    fn new() -> (b: Self) {
        let none: Option<Player> = None;
        let empty: [Option<Player>; ROWS] = [none; ROWS];
        let b = SimpleBoard { columns: [empty; COLS] };
        assert(empty == vstd::array::spec_array_fill_for_copy_type::<Option<Player>, ROWS>(none));
        assert forall|c: int| 0 <= c < COLS implies #[trigger] b.grid()[c] =~= empty_grid()[c] by {
            assert(b.columns@[c] == empty);
        }
        assert(b.grid() =~= empty_grid());
        b
    }

    fn get(&self, row: usize, col: usize) -> (r: Result<Option<Player>, Error>) {
        if row >= ROWS {
            return Err(Error::InvalidRow);
        } else if col >= COLS {
            return Err(Error::InvalidColumn);
        }
        Ok(self.columns[col][row])
    }

    fn get_column(&self, col: usize) -> (r: Result<&[Option<Player>], Error>) {
        if col >= COLS {
            return Err(Error::InvalidColumn);
        }
        Ok(self.columns[col].as_slice())
    }

    fn is_valid(&self, col: usize) -> (r: Result<bool, Error>) {
        if col >= COLS {
            return Err(Error::InvalidColumn);
        }
        let mut row: usize = 0;
        while row < ROWS
            invariant
                0 <= row <= ROWS,
                col < COLS,
                forall|r: int| 0 <= r < row ==> (#[trigger] cell(self.grid(), r, col as int)) is Some,
            decreases ROWS - row,
        {
            if self.get(row, col)? == None {
                return Ok(true);
            }
            row += 1;
        }
        Ok(false)
    }

    fn make_move(&mut self, col: usize, player: Player) -> (r: Result<(), Error>) {
        if col >= COLS {
            return Err(Error::InvalidColumn);
        }
        proof {
            lemma_landing_row(self.grid(), col as int);
        }
        let mut row: usize = ROWS;
        while row > 0
            invariant
                0 <= row <= ROWS,
                col < COLS,
                *self == *old(self),
                landing_row(self.grid(), col as int) < row,
            decreases row,
        {
            row -= 1;
            proof {
                lemma_landing_row(self.grid(), col as int);
            }
            if self.at(row, col).is_none() {
                let ghost g = self.grid();
                assert(landing_row(g, col as int) == row);
                let mut column = self.columns[col];
                column[row] = Some(player);
                self.columns[col] = column;
                assert(self.grid()[col as int] =~= drop_token(g, col as int, player)[col as int]);
                assert(self.grid() =~= drop_token(g, col as int, player));
                proof {
                    if well_formed(g) {
                        lemma_drop_well_formed(g, col as int, player);
                    }
                }
                return Ok(());
            }
        }
        Err(Error::FullColumn)
    }

    fn check_winner(&self) -> (r: bool) {
        let mut d: usize = 0;
        while d < 4
            invariant
                0 <= d <= 4,
                forall|r: int, c: int, e: int|
                    0 <= e < d ==> !#[trigger] four_in_row(self.grid(), r, c, e),
            decreases 4 - d,
        {
            let mut row: usize = 0;
            while row < ROWS
                invariant
                    0 <= d < 4,
                    0 <= row <= ROWS,
                    forall|r: int, c: int, e: int|
                        0 <= e < d ==> !#[trigger] four_in_row(self.grid(), r, c, e),
                    forall|r: int, c: int|
                        r < row ==> !#[trigger] four_in_row(self.grid(), r, c, d as int),
                decreases ROWS - row,
            {
                let mut col: usize = 0;
                while col < COLS
                    invariant
                        0 <= d < 4,
                        0 <= row < ROWS,
                        0 <= col <= COLS,
                        forall|r: int, c: int, e: int|
                            0 <= e < d ==> !#[trigger] four_in_row(self.grid(), r, c, e),
                        forall|r: int, c: int|
                            r < row ==> !#[trigger] four_in_row(self.grid(), r, c, d as int),
                        forall|c: int|
                            c < col ==> !#[trigger] four_in_row(self.grid(), row as int, c, d as int),
                    decreases COLS - col,
                {
                    if window_fits_at(row, col, d) && self.line_at(row, col, d) {
                        return true;
                    }
                    col += 1;
                }
                row += 1;
            }
            d += 1;
        }
        false
    }
}

/// Errors of board operations.
#[derive(Debug, Clone, Copy, PartialEq, Eq, Structural)]
pub enum Error {
    InvalidColumn,
    InvalidRow,
    FullColumn,
}

impl Error {
    /// A short human-readable description of the error.
    pub fn message(&self) -> (s: &'static str)
        ensures
            *self == Error::InvalidColumn ==> s@ == "Invalid column"@,
            *self == Error::InvalidRow ==> s@ == "Invalid row"@,
            *self == Error::FullColumn ==> s@ == "Full column"@,
    {
        match self {
            Error::InvalidColumn => "Invalid column",
            Error::InvalidRow => "Invalid row",
            Error::FullColumn => "Full column",
        }
    }
}

} // verus!
