//! The cell kinds of a snake game played on a grid of whole cells, and what
//! a snake entering a cell of each kind does.
use vstd::prelude::*;

use crate::domain::game_over_event::GameOverEvent;

verus! {

/// What a snake entering a cell does.
#[derive(Clone, Copy, Debug, PartialEq, Eq, Structural)]
pub enum SquareCollision {
    /// The head moves into the cell and the tail leaves its cell.
    MoveInto,
    /// The head moves into the cell, the tail stays, and new food is placed.
    GrowInto,
    /// The game ends.
    GameOver(GameOverEvent),
}

/// A cell with nothing in it.
#[derive(Clone, Copy, Debug, PartialEq, Eq, Structural)]
pub struct EmptySquare {}

/// A cell holding food.
#[derive(Clone, Copy, Debug, PartialEq, Eq, Structural)]
pub struct FoodSquare {}

/// A cell taken by the snake.
#[derive(Clone, Copy, Debug, PartialEq, Eq, Structural)]
pub struct SnakeSquare {}

impl EmptySquare {
    pub fn new() -> (r: EmptySquare)
        ensures
            r == (EmptySquare {}),
    {
        EmptySquare {}
    }

    pub fn on_collision(&self) -> (r: SquareCollision)
        ensures
            r == SquareCollision::MoveInto,
    {
        SquareCollision::MoveInto
    }

    pub fn render(&self) -> (r: char)
        ensures
            r == 'O',
    {
        'O'
    }
}

impl FoodSquare {
    pub fn new() -> (r: FoodSquare)
        ensures
            r == (FoodSquare {}),
    {
        FoodSquare {}
    }

    pub fn on_collision(&self) -> (r: SquareCollision)
        ensures
            r == SquareCollision::GrowInto,
    {
        SquareCollision::GrowInto
    }

    pub fn render(&self) -> (r: char)
        ensures
            r == 'X',
    {
        'X'
    }
}

impl SnakeSquare {
    pub fn new() -> (r: SnakeSquare)
        ensures
            r == (SnakeSquare {}),
    {
        SnakeSquare {}
    }

    pub fn on_collision(&self) -> (r: SquareCollision)
        ensures
            r == SquareCollision::GameOver(GameOverEvent::SnakeCollisionEvent),
    {
        SquareCollision::GameOver(GameOverEvent::SnakeCollisionEvent)
    }

    pub fn render(&self) -> (r: char)
        ensures
            r == 'S',
    {
        'S'
    }
}

} // verus!
