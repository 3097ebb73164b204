use vstd::prelude::*;

use crate::domain::board::Board;
use crate::domain::game_over_event::GameOverEvent;
use crate::domain::polyline::{arc_length, grown, within_limit};
use crate::domain::snake::{Snake, LENGTH_LIMIT};
use crate::geometry::vector::{Vector, UNIT};

verus! {

/// A piece of food, at the centre of a board cell.
#[derive(Clone, Copy, Debug, PartialEq, Eq, Structural)]
pub struct Food {
    pub position: Vector,
}

impl Food {
    pub fn new(position: Vector) -> (r: Food)
        ensures
            r.position == position,
    {
        Food { position }
    }

    /// Eating this food: the score goes up by one, the snake grows by one
    /// cell and new food is put on a free cell, which fails when none is left.
    pub fn on_collision(&self, snake: &mut Snake, board: &mut Board, score: &mut u64) -> (r: Result<
        (),
        GameOverEvent,
    >)
        requires
            old(snake).wf(),
            old(board).wf(),
            arc_length(old(snake).body_view()) + UNIT <= LENGTH_LIMIT,
            within_limit(grown(old(snake).body_view()).last()),
            *old(score) < u64::MAX,
        ensures
            *final(score) == *old(score) + 1,
            final(snake).wf(),
            final(snake).body_view() == grown(old(snake).body_view()),
            arc_length(final(snake).body_view()) == arc_length(old(snake).body_view()) + UNIT,
            final(snake).head_view() == old(snake).head_view(),
            final(snake).speed_view() == old(snake).speed_view(),
            final(snake).direction_view() == old(snake).direction_view(),
            final(snake).next_direction_view() == old(snake).next_direction_view(),
            final(board).wf(),
            old(board).spawn_outcome(*final(board), final(snake).body_view(), r),
    {
        *score = *score + 1;
        snake.grow();
        board.spawn_food(snake)
    }
}

} // verus!
