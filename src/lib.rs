use vstd::prelude::*;

pub mod board;
pub mod evaluate;
pub mod game;
pub mod player;
pub mod render;
pub mod search;

verus! {

} // verus!
