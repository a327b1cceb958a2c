use vstd::prelude::*;

use crate::board::{
    has_shape, window_cell, window_fits, window_fits_at, window_pos, Board, Grid, COLS, ROWS,
};
use crate::player::Player;

verus! {

/// Number of the first `n` cells of a window that `p` holds.
pub open spec fn count_held(g: Grid, row: int, col: int, d: int, p: Player, n: int) -> int
    decreases n,
{
    if n <= 0 {
        0
    } else {
        count_held(g, row, col, d, p, n - 1) + if window_cell(g, row, col, d, n - 1) == Some(p) {
            1int
        } else {
            0int
        }
    }
}

/// Worth of a window in which the side being scored holds `mine` cells and its opponent `theirs`.
pub open spec fn score_counts(mine: int, theirs: int) -> int {
    if mine == 3 && theirs == 0 {
        10000
    } else if theirs == 3 && mine == 0 {
        100000
    } else if mine == 2 && theirs == 0 {
        100
    } else if theirs == 2 && mine == 0 {
        50
    } else {
        0
    }
}

/// Worth for `p` of the window at `row`, `col` in direction `d`; nothing for one off the board.
pub open spec fn window_score(g: Grid, row: int, col: int, d: int, p: Player) -> int {
    if window_fits(row, col, d) {
        score_counts(count_held(g, row, col, d, p, 4), count_held(g, row, col, d, p.other(), 4))
    } else {
        0
    }
}

/// Sum of the window scores for `p` in direction `d` starting on row `row`, columns below `n`.
pub open spec fn score_cols(g: Grid, p: Player, d: int, row: int, n: int) -> int
    decreases n,
{
    if n <= 0 {
        0
    } else {
        score_cols(g, p, d, row, n - 1) + window_score(g, row, n - 1, d, p)
    }
}

/// Sum of the window scores for `p` in direction `d` starting on rows below `n`.
pub open spec fn score_rows(g: Grid, p: Player, d: int, n: int) -> int
    decreases n,
{
    if n <= 0 {
        0
    } else {
        score_rows(g, p, d, n - 1) + score_cols(g, p, d, n - 1, COLS as int)
    }
}

/// Sum of the window scores for `p` in the directions below `n`.
pub open spec fn score_dirs(g: Grid, p: Player, n: int) -> int
    decreases n,
{
    if n <= 0 {
        0
    } else {
        score_dirs(g, p, n - 1) + score_rows(g, p, n - 1, ROWS as int)
    }
}

/// How good the grid is for `p`: the sum of the scores of all windows that lie on the board.
pub open spec fn evaluation(g: Grid, p: Player) -> int {
    score_dirs(g, p, 4)
}

proof fn lemma_count_held_bounds(g: Grid, row: int, col: int, d: int, p: Player, n: int)
    requires
        0 <= n,
    ensures
        0 <= count_held(g, row, col, d, p, n) <= n,
    decreases n,
{
    if n > 0 {
        lemma_count_held_bounds(g, row, col, d, p, n - 1);
    }
}

proof fn lemma_score_cols_bounds(g: Grid, p: Player, d: int, row: int, n: int)
    requires
        0 <= n,
    ensures
        0 <= score_cols(g, p, d, row, n) <= 100000 * n,
    decreases n,
{
    if n > 0 {
        lemma_score_cols_bounds(g, p, d, row, n - 1);
    }
}

proof fn lemma_score_rows_bounds(g: Grid, p: Player, d: int, n: int)
    requires
        0 <= n,
    ensures
        0 <= score_rows(g, p, d, n) <= 700000 * n,
    decreases n,
{
    if n > 0 {
        lemma_score_rows_bounds(g, p, d, n - 1);
        lemma_score_cols_bounds(g, p, d, n - 1, COLS as int);
    }
}

proof fn lemma_score_dirs_bounds(g: Grid, p: Player, n: int)
    requires
        0 <= n,
    ensures
        0 <= score_dirs(g, p, n) <= 4200000 * n,
    decreases n,
{
    if n > 0 {
        lemma_score_dirs_bounds(g, p, n - 1);
        lemma_score_rows_bounds(g, p, n - 1, ROWS as int);
    }
}

/// Every evaluation lies between zero and the worth of a block on every window position.
pub proof fn lemma_evaluation_bounds(g: Grid, p: Player)
    ensures
        0 <= evaluation(g, p) <= 16800000,
{
    lemma_score_dirs_bounds(g, p, 4);
}

/// Worth for `player` of the window at `row`, `col` in direction `d`, where `opponent` is
/// the other side.
pub fn evaluate_sequence<B: Board>(
    board: &B,
    row: usize,
    col: usize,
    d: usize,
    player: Player,
    opponent: Player,
) -> (r: i32)
    requires
        window_fits(row as int, col as int, d as int),
        opponent == player.other(),
    ensures
        r == window_score(board.grid(), row as int, col as int, d as int, player),
{
    let mut player_count: u32 = 0;
    let mut opponent_count: u32 = 0;
    let mut k: usize = 0;
    while k < 4
        invariant
            0 <= k <= 4,
            window_fits(row as int, col as int, d as int),
            opponent == player.other(),
            player_count == count_held(board.grid(), row as int, col as int, d as int, player, k as int),
            opponent_count == count_held(
                board.grid(),
                row as int,
                col as int,
                d as int,
                opponent,
                k as int,
            ),
        decreases 4 - k,
    {
        proof {
            lemma_count_held_bounds(board.grid(), row as int, col as int, d as int, player, k as int);
            lemma_count_held_bounds(board.grid(), row as int, col as int, d as int, opponent, k as int);
        }
        let (r, c) = window_pos(row, col, d, k);
        match board.get(r, c) {
            Ok(Some(p)) => {
                if p == player {
                    player_count += 1;
                } else if p == opponent {
                    opponent_count += 1;
                }
            },
            _ => {},
        }
        k += 1;
    }
    if player_count == 3 && opponent_count == 0 {
        10000
    } else if opponent_count == 3 && player_count == 0 {
        100000
    } else if player_count == 2 && opponent_count == 0 {
        100
    } else if opponent_count == 2 && player_count == 0 {
        50
    } else {
        0
    }
}

/// How good `board` is for `player`: the sum, over every window of four cells that lies on the
/// board in any of the four directions, of the worth of that window.
pub fn evaluate_board<B: Board>(board: &B, player: Player) -> (r: i32)
    ensures
        r == evaluation(board.grid(), player),
{
    let mut opponent = player;
    opponent.switch();
    let mut score: i32 = 0;
    let mut d: usize = 0;
    while d < 4
        invariant
            0 <= d <= 4,
            opponent == player.other(),
            score == score_dirs(board.grid(), player, d as int),
        decreases 4 - d,
    {
        let mut row: usize = 0;
        while row < ROWS
            invariant
                0 <= d < 4,
                0 <= row <= ROWS,
                opponent == player.other(),
                score == score_dirs(board.grid(), player, d as int) + score_rows(
                    board.grid(),
                    player,
                    d as int,
                    row as int,
                ),
            decreases ROWS - row,
        {
            let mut col: usize = 0;
            while col < COLS
                invariant
                    0 <= d < 4,
                    0 <= row < ROWS,
                    0 <= col <= COLS,
                    opponent == player.other(),
                    score == score_dirs(board.grid(), player, d as int) + score_rows(
                        board.grid(),
                        player,
                        d as int,
                        row as int,
                    ) + score_cols(board.grid(), player, d as int, row as int, col as int),
                decreases COLS - col,
            {
                proof {
                    lemma_score_dirs_bounds(board.grid(), player, d as int);
                    lemma_score_rows_bounds(board.grid(), player, d as int, row as int);
                    lemma_score_cols_bounds(board.grid(), player, d as int, row as int, col as int);
                }
                if window_fits_at(row, col, d) {
                    score = score + evaluate_sequence(board, row, col, d, player, opponent);
                }
                col += 1;
            }
            row += 1;
        }
        d += 1;
    }
    score
}

/// The grid with the two sides' tokens exchanged.
pub open spec fn swap_sides(g: Grid) -> Grid {
    Seq::new(
        g.len(),
        |c: int|
            Seq::new(
                g[c].len(),
                |r: int|
                    match g[c][r] {
                        Some(q) => Some(q.other()),
                        None => None,
                    },
            ),
    )
}

proof fn lemma_count_held_swapped(g: Grid, row: int, col: int, d: int, p: Player, n: int)
    requires
        has_shape(g),
        window_fits(row, col, d),
        n <= 4,
    ensures
        count_held(swap_sides(g), row, col, d, p.other(), n) == count_held(g, row, col, d, p, n),
    decreases n,
{
    if n > 0 {
        lemma_count_held_swapped(g, row, col, d, p, n - 1);
    }
}

proof fn lemma_score_cols_swapped(g: Grid, p: Player, d: int, row: int, n: int)
    requires
        has_shape(g),
    ensures
        score_cols(swap_sides(g), p.other(), d, row, n) == score_cols(g, p, d, row, n),
    decreases n,
{
    if n > 0 {
        lemma_score_cols_swapped(g, p, d, row, n - 1);
        if window_fits(row, n - 1, d) {
            lemma_count_held_swapped(g, row, n - 1, d, p, 4);
            lemma_count_held_swapped(g, row, n - 1, d, p.other(), 4);
        }
    }
}

proof fn lemma_score_rows_swapped(g: Grid, p: Player, d: int, n: int)
    requires
        has_shape(g),
    ensures
        score_rows(swap_sides(g), p.other(), d, n) == score_rows(g, p, d, n),
    decreases n,
{
    if n > 0 {
        lemma_score_rows_swapped(g, p, d, n - 1);
        lemma_score_cols_swapped(g, p, d, n - 1, COLS as int);
    }
}

proof fn lemma_score_dirs_swapped(g: Grid, p: Player, n: int)
    requires
        has_shape(g),
    ensures
        score_dirs(swap_sides(g), p.other(), n) == score_dirs(g, p, n),
    decreases n,
{
    if n > 0 {
        lemma_score_dirs_swapped(g, p, n - 1);
        lemma_score_rows_swapped(g, p, n - 1, ROWS as int);
    }
}

/// Role symmetry of the evaluation: exchanging which side holds each token, and scoring for the
/// other side, gives the same score.
pub proof fn lemma_evaluation_symmetric(g: Grid, p: Player)
    requires
        has_shape(g),
    ensures
        evaluation(swap_sides(g), p.other()) == evaluation(g, p),
{
    lemma_score_dirs_swapped(g, p, 4);
}

} // verus!
