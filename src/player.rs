use vstd::prelude::*;

verus! {

/// One of the two sides of a game.
#[derive(Debug, Clone, Copy, PartialEq, Eq, Structural)]
pub enum Player {
    Cross,
    Circle,
}

impl Player {
    /// The side that is not `self`.
    pub open spec fn other(self) -> Player {
        match self {
            Player::Cross => Player::Circle,
            Player::Circle => Player::Cross,
        }
    }

    /// Turns `self` into the other side and returns the new value.
    pub fn switch(&mut self) -> (r: Player)
        ensures
            *final(self) == old(self).other(),
            r == old(self).other(),
    {
        *self = match *self {
            Player::Cross => Player::Circle,
            Player::Circle => Player::Cross,
        };
        *self
    }
}

impl Default for Player {
    /// The side that moves first.
    fn default() -> (r: Player)
        ensures
            r == Player::Cross,
    {
        Player::Cross
    }
}

impl From<Player> for char {
    fn from(player: Player) -> (c: char) {
        match player {
            Player::Cross => 'X',
            Player::Circle => 'O',
        }
    }
}

impl vstd::std_specs::convert::FromSpecImpl<Player> for char {
    open spec fn obeys_from_spec() -> bool {
        true
    }

    open spec fn from_spec(player: Player) -> char {
        match player {
            Player::Cross => 'X',
            Player::Circle => 'O',
        }
    }
}

impl From<Player> for bool {
    fn from(player: Player) -> (b: bool) {
        match player {
            Player::Cross => true,
            Player::Circle => false,
        }
    }
}

impl vstd::std_specs::convert::FromSpecImpl<Player> for bool {
    open spec fn obeys_from_spec() -> bool {
        true
    }

    open spec fn from_spec(player: Player) -> bool {
        player == Player::Cross
    }
}

} // verus!
