use vstd::prelude::*;

use crate::board::{column_open, drop_token, has_winner, Board, Grid, COLS};
use crate::evaluate::{evaluate_board, evaluation, lemma_evaluation_bounds};
use crate::player::Player;

verus! {

/// Amount taken off a reply that leaves four in a row on the board.
pub const WIN_PENALTY: i32 = 100000;

/// `x` brought into the range of `i32`.
pub open spec fn clamp(x: int) -> i32 {
    if x < i32::MIN {
        i32::MIN
    } else if x > i32::MAX {
        i32::MAX
    } else {
        x as i32
    }
}

/// The larger of two scores.
pub open spec fn larger(a: i32, b: i32) -> i32 {
    if b > a {
        b
    } else {
        a
    }
}

/// Score of the grid for `p`, searched `depth` plies deep, where `best` is the running best
/// that the caller hands down: a search that finds nothing better returns it.
pub open spec fn search_value(g: Grid, depth: nat, p: Player, best: i32) -> i32
    decreases depth, COLS + 1,
{
    if depth == 0 {
        clamp(evaluation(g, p))
    } else {
        search_cols(g, depth, p, best, COLS as int)
    }
}

/// Worth for `p` of dropping a token into the open column `col`, when the running best is
/// `best`: the negated score of the reply, less the penalty where the move leaves four in a
/// row on the board.
pub open spec fn reply_value(g: Grid, depth: nat, p: Player, best: i32, col: int) -> i32
    decreases depth, 0int,
{
    if depth == 0 {
        best
    } else {
        let child = drop_token(g, col, p);
        let e = clamp(-search_value(child, (depth - 1) as nat, p.other(), best));
        if has_winner(child) {
            clamp(e - WIN_PENALTY)
        } else {
            e
        }
    }
}

/// The running best after the columns below `n` have been tried, `depth` plies deep.
pub open spec fn search_cols(g: Grid, depth: nat, p: Player, best: i32, n: int) -> i32
    decreases depth, n,
{
    if n <= 0 || depth == 0 {
        best
    } else {
        let prev = search_cols(g, depth, p, best, n - 1);
        if column_open(g, n - 1) {
            larger(prev, reply_value(g, depth, p, prev, n - 1))
        } else {
            prev
        }
    }
}

/// Best score and column for `p` among the columns below `n`, each move scored by a search
/// `depth` plies deep; the first column with the highest score wins.
pub open spec fn choose_cols(g: Grid, depth: nat, p: Player, n: int) -> (i32, Option<usize>)
    decreases n,
{
    if n <= 0 {
        (i32::MIN, None)
    } else {
        let prev = choose_cols(g, depth, p, n - 1);
        if column_open(g, n - 1) {
            let e = clamp(-search_value(drop_token(g, n - 1, p), depth, p.other(), prev.0));
            if e > prev.0 {
                (e, Some((n - 1) as usize))
            } else {
                prev
            }
        } else {
            prev
        }
    }
}

/// Best score and column for `p` on the grid, searching `max_depth` plies deep in all; a depth
/// of zero searches as deep as a depth of one.
pub open spec fn minimax_value(g: Grid, max_depth: nat, p: Player) -> (i32, Option<usize>) {
    choose_cols(g, if max_depth == 0 { 0 } else { (max_depth - 1) as nat }, p, COLS as int)
}

/// A column is chosen exactly when one of the columns tried is open, and the chosen column is
/// one of them and open; when none is chosen the score is `i32::MIN`.
pub proof fn lemma_choose_cols_move(g: Grid, depth: nat, p: Player, n: int)
    requires
        n <= COLS,
    ensures
        choose_cols(g, depth, p, n).1 is Some <==> exists|c: int|
            0 <= c < n && #[trigger] column_open(g, c),
        choose_cols(g, depth, p, n).1 is None ==> choose_cols(g, depth, p, n).0 == i32::MIN,
        choose_cols(g, depth, p, n).1 is Some ==> {
            let c = choose_cols(g, depth, p, n).1->Some_0 as int;
            0 <= c < n && column_open(g, c)
        },
    decreases n,
{
    if n > 0 {
        lemma_choose_cols_move(g, depth, p, n - 1);
        let prev = choose_cols(g, depth, p, n - 1);
        if exists|c: int| 0 <= c < n && #[trigger] column_open(g, c) {
            let c = choose|c: int| 0 <= c < n && #[trigger] column_open(g, c);
            if c < n - 1 {
                assert(0 <= c < n - 1 && column_open(g, c));
            }
        }
    }
}

/// `-x` brought into the range of `i32`.
fn negate(x: i32) -> (r: i32)
    ensures
        r == clamp(-x),
{
    if x == i32::MIN {
        i32::MAX
    } else {
        -x
    }
}

/// `x - WIN_PENALTY` brought into the range of `i32`.
fn penalize(x: i32) -> (r: i32)
    ensures
        r == clamp(x - WIN_PENALTY),
{
    if x < i32::MIN + WIN_PENALTY {
        i32::MIN
    } else {
        x - WIN_PENALTY
    }
}

/// Score of `board` for `current_player`, searched `depth` plies deep: at depth zero the static
/// evaluation; otherwise the running best `best_eval`, raised by the score of each legal move.
/// The running best takes part in no cut-off: every move is searched to the full depth.
fn minimax_recursive<B: Board>(board: &mut B, depth: usize, current_player: Player, best_eval: i32) -> (r:
    i32)
    ensures
        *final(board) == *old(board),
        r == search_value(old(board).grid(), depth as nat, current_player, best_eval),
    decreases depth,
{
    if depth == 0 {
        proof {
            lemma_evaluation_bounds(board.grid(), current_player);
        }
        return evaluate_board(board, current_player);
    }
    let mut next = current_player;
    next.switch();
    let mut best_eval = best_eval;
    let ghost best0 = best_eval;
    let mut col: usize = 0;
    while col < COLS
        invariant
            0 <= col <= COLS,
            depth > 0,
            next == current_player.other(),
            *board == *old(board),
            best_eval == search_cols(board.grid(), depth as nat, current_player, best0, col as int),
        decreases COLS - col,
    {
        if let Ok(true) = board.is_valid(col) {
            let mut board_copy = *board;
            if let Ok(_) = board_copy.make_move(col, current_player) {
                let mut eval = negate(
                    minimax_recursive(&mut board_copy, depth - 1, next, best_eval),
                );
                if board_copy.check_winner() {
                    eval = penalize(eval);
                }
                assert(eval == reply_value(
                    board.grid(),
                    depth as nat,
                    current_player,
                    best_eval,
                    col as int,
                ));
                if eval > best_eval {
                    best_eval = eval;
                }
            }
        }
        assert(best_eval == search_cols(board.grid(), depth as nat, current_player, best0, col + 1));
        col += 1;
    }
    best_eval
}

/// Best move for `current_player` on `board`, searching `max_depth` plies deep: each open
/// column is tried on a copy of the board and scored as the negated search of the reply. Gives
/// the best score and the first column that reached it, or `i32::MIN` and no column when every
/// column is full. The board is left as it was.
pub fn minimax<B: Board>(board: &mut B, max_depth: usize, current_player: Player) -> (r: (
    i32,
    Option<usize>,
))
    ensures
        *final(board) == *old(board),
        r == minimax_value(old(board).grid(), max_depth as nat, current_player),
        r.1 is Some <==> exists|c: int| 0 <= c < COLS && #[trigger] column_open(old(board).grid(), c),
        r.1 is Some ==> r.1->Some_0 < COLS && column_open(old(board).grid(), r.1->Some_0 as int),
        r.1 is None ==> r.0 == i32::MIN,
{
    let mut next = current_player;
    next.switch();
    let depth: usize = if max_depth == 0 {
        0
    } else {
        max_depth - 1
    };
    let mut best_move: Option<usize> = None;
    let mut best_eval: i32 = i32::MIN;
    let mut col: usize = 0;
    while col < COLS
        invariant
            0 <= col <= COLS,
            next == current_player.other(),
            depth == (if max_depth == 0 { 0 } else { max_depth - 1 }),
            *board == *old(board),
            (best_eval, best_move) == choose_cols(
                board.grid(),
                depth as nat,
                current_player,
                col as int,
            ),
        decreases COLS - col,
    {
        if let Ok(true) = board.is_valid(col) {
            let mut board_copy = *board;
            if let Ok(_) = board_copy.make_move(col, current_player) {
                let eval = negate(minimax_recursive(&mut board_copy, depth, next, best_eval));
                if eval > best_eval {
                    best_eval = eval;
                    best_move = Some(col);
                }
            }
        }
        col += 1;
    }
    proof {
        lemma_choose_cols_move(board.grid(), depth as nat, current_player, COLS as int);
    }
    (best_eval, best_move)
}

/// The search holds no hidden state and draws no random numbers: two boards with the same cells,
/// whatever their representation, get the same score and the same column.
pub proof fn lemma_minimax_deterministic<B1: Board, B2: Board>(
    b1: B1,
    b2: B2,
    max_depth: nat,
    p: Player,
)
    requires
        b1.grid() == b2.grid(),
    ensures
        minimax_value(b1.grid(), max_depth, p) == minimax_value(b2.grid(), max_depth, p),
{
}

} // verus!
