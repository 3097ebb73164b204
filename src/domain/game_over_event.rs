use vstd::prelude::*;

verus! {

/// The ways a game ends. Each is final: nothing is retried or rolled back.
#[derive(Clone, Copy, Debug, PartialEq, Eq, Structural)]
pub enum GameOverEvent {
    /// The head reached the border of the board.
    BorderCollisionEvent,
    /// The head reached the snake's own body.
    SnakeCollisionEvent,
    /// Every cell of the board is taken by the snake, so no food can be placed.
    NoEmptySquaresEvent,
}

} // verus!
