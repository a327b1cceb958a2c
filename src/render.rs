use vstd::prelude::*;
use vstd::string::StringExecFns;

use crate::board::{cell, Board, Grid, COLS, ROWS};
use crate::player::Player;

verus! {

/// How one cell is drawn: its marker followed by a space.
pub open spec fn cell_text(c: Option<Player>) -> Seq<char> {
    match c {
        Some(Player::Cross) => seq!['X', ' '],
        Some(Player::Circle) => seq!['O', ' '],
        None => seq!['□', ' '],
    }
}

/// The first `n` cells of row `row`, drawn left to right.
pub open spec fn row_text(g: Grid, row: int, n: int) -> Seq<char>
    decreases n,
{
    if n <= 0 {
        seq![]
    } else {
        row_text(g, row, n - 1) + cell_text(cell(g, row, n - 1))
    }
}

/// The first `n` rows, top to bottom, each drawn on a line of its own.
pub open spec fn grid_text(g: Grid, n: int) -> Seq<char>
    decreases n,
{
    if n <= 0 {
        seq![]
    } else {
        grid_text(g, n - 1) + row_text(g, n - 1, COLS as int) + seq!['\n']
    }
}

/// The board drawn as text: one line per row, top row first, with `X` and `O` for the two
/// sides and `□` for an empty cell.
pub fn render<B: Board>(board: &B) -> (s: String)
    ensures
        s@ == grid_text(board.grid(), ROWS as int),
{
    let mut s = String::new();
    let mut row: usize = 0;
    while row < ROWS
        invariant
            0 <= row <= ROWS,
            s@ == grid_text(board.grid(), row as int),
        decreases ROWS - row,
    {
        let mut col: usize = 0;
        while col < COLS
            invariant
                0 <= row < ROWS,
                0 <= col <= COLS,
                s@ == grid_text(board.grid(), row as int) + row_text(
                    board.grid(),
                    row as int,
                    col as int,
                ),
            decreases COLS - col,
        {
            let ghost before = s@;
            match board.get(row, col) {
                Ok(Some(Player::Cross)) => {
                    proof {
                        reveal_strlit("X ");
                    }
                    s.append("X ");
                },
                Ok(Some(Player::Circle)) => {
                    proof {
                        reveal_strlit("O ");
                    }
                    s.append("O ");
                },
                _ => {
                    proof {
                        reveal_strlit("□ ");
                    }
                    s.append("□ ");
                },
            }
            assert(s@ == grid_text(board.grid(), row as int) + row_text(
                board.grid(),
                row as int,
                col as int + 1,
            ));
            col += 1;
        }
        proof {
            reveal_strlit("\n");
        }
        s.append("\n");
        assert(s@ =~= grid_text(board.grid(), row as int + 1));
        row += 1;
    }
    s
}

} // verus!
