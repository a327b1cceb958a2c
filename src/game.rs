use vstd::prelude::*;

use crate::board::{column_open, drop_token, empty_grid, has_winner, Board, Error, COLS};
use crate::player::Player;
use crate::search::{minimax, minimax_value};

verus! {

/// How many plies deep the computer player searches.
pub const BOT_DEPTH: usize = 7;

/// A game in progress: the board, whose turn it is, which side the computer plays, and
/// whether someone has won.
pub struct Connect4<B: Board> {
    pub board: B,
    pub current_player: Player,
    pub bot_player: Player,
    pub game_over: bool,
}

impl<B: Board> Connect4<B> {
    /// A new game on an empty board: the first side moves, the computer plays the second.
    pub fn new() -> (g: Self)
        ensures
            g.board.grid() == empty_grid(),
            g.current_player == Player::Cross,
            g.bot_player == Player::Circle,
            !g.game_over,
    {
        Connect4 {
            board: B::new(),
            current_player: Player::default(),
            bot_player: Player::Circle,
            game_over: false,
        }
    }

    /// Drops a token of the side to move into column `col`.
    pub fn make_move(&mut self, col: usize) -> (r: Result<(), Error>)
        ensures
            col >= COLS ==> r == Err::<(), Error>(Error::InvalidColumn),
            col < COLS && !column_open(old(self).board.grid(), col as int) ==> r == Err::<
                (),
                Error,
            >(Error::FullColumn),
            col < COLS && column_open(old(self).board.grid(), col as int) ==> r == Ok::<(), Error>(
                (),
            ),
            r is Ok ==> final(self).board.grid() == drop_token(
                old(self).board.grid(),
                col as int,
                old(self).current_player,
            ),
            r is Err ==> *final(self) == *old(self),
            final(self).current_player == old(self).current_player,
            final(self).bot_player == old(self).bot_player,
            final(self).game_over == old(self).game_over,
    {
        self.board.make_move(col, self.current_player)
    }

    /// Whether one side holds four in a row on the board.
    pub fn check_winner(&self) -> (r: bool)
        ensures
            r == has_winner(self.board.grid()),
    {
        self.board.check_winner()
    }

    /// Hands the turn to the other side.
    pub fn switch_player(&mut self)
        ensures
            final(self).current_player == old(self).current_player.other(),
            final(self).board == old(self).board,
            final(self).bot_player == old(self).bot_player,
            final(self).game_over == old(self).game_over,
    {
        self.current_player.switch();
    }

    /// The column the computer picks for its side, or none when the board is full.
    pub fn find_best_move(&mut self) -> (r: Option<usize>)
        ensures
            *final(self) == *old(self),
            r == minimax_value(old(self).board.grid(), BOT_DEPTH as nat, old(self).bot_player).1,
            r is Some <==> exists|c: int|
                0 <= c < COLS && #[trigger] column_open(old(self).board.grid(), c),
            r is Some ==> r->Some_0 < COLS && column_open(
                old(self).board.grid(),
                r->Some_0 as int,
            ),
    {
        minimax(&mut self.board, BOT_DEPTH, self.bot_player).1
    }

    /// One turn: the side to move drops a token into `col`. A move that wins ends the game;
    /// any other legal move hands the turn over. An illegal move changes nothing and gives its
    /// error. On success, tells whether the move won.
    pub fn play_turn(&mut self, col: usize) -> (r: Result<bool, Error>)
        ensures
            col >= COLS ==> r == Err::<bool, Error>(Error::InvalidColumn),
            col < COLS && !column_open(old(self).board.grid(), col as int) ==> r == Err::<
                bool,
                Error,
            >(Error::FullColumn),
            r is Err ==> *final(self) == *old(self),
            col < COLS && column_open(old(self).board.grid(), col as int) ==> {
                let g = drop_token(old(self).board.grid(), col as int, old(self).current_player);
                &&& r == Ok::<bool, Error>(has_winner(g))
                &&& final(self).board.grid() == g
                &&& final(self).bot_player == old(self).bot_player
                &&& has_winner(g) ==> final(self).game_over
                    && final(self).current_player == old(self).current_player
                &&& !has_winner(g) ==> final(self).game_over == old(self).game_over
                    && final(self).current_player == old(self).current_player.other()
            },
    {
        match self.board.make_move(col, self.current_player) {
            Ok(_) => {
                if self.board.check_winner() {
                    self.game_over = true;
                    Ok(true)
                } else {
                    self.current_player.switch();
                    Ok(false)
                }
            },
            Err(e) => Err(e),
        }
    }
}

} // verus!
