use vstd::prelude::*;

use crate::domain::board::{Board, MAX_CELLS};
use crate::domain::game_over_event::GameOverEvent;
use crate::domain::polyline::{arc_length, point_ahead};
use crate::domain::polyline::moved;
use crate::domain::snake::{
    center_gap, checkpoint_hit, first_hit_on_border, hits_itself, is_redundant_turn, pending_turn,
    takes_no_turn, within_board, Snake, MAX_INITIAL_LENGTH,
};
use crate::geometry::direction::Direction;
use crate::geometry::vector::{Vector, UNIT};

verus! {

/// A heading as a player asks for it.
#[derive(Clone, Copy, Debug, PartialEq, Eq, Structural)]
pub enum InputDirection {
    UP,
    LEFT,
    DOWN,
    RIGHT,
}

impl InputDirection {
    pub open spec fn direction_spec(self) -> Direction {
        match self {
            InputDirection::UP => Direction::UP,
            InputDirection::LEFT => Direction::LEFT,
            InputDirection::DOWN => Direction::DOWN,
            InputDirection::RIGHT => Direction::RIGHT,
        }
    }

    pub fn as_direction(&self) -> (r: Direction)
        ensures
            r == self.direction_spec(),
    {
        match *self {
            InputDirection::UP => Direction::UP,
            InputDirection::LEFT => Direction::LEFT,
            InputDirection::DOWN => Direction::DOWN,
            InputDirection::RIGHT => Direction::RIGHT,
        }
    }

    /// The heading as a vector of length `UNIT`; `UP` points to smaller `y`.
    pub fn as_vector(&self) -> (r: Vector)
        ensures
            r.x == self.direction_spec().dx() * UNIT,
            r.y == self.direction_spec().dy() * UNIT,
    {
        self.as_direction().as_vector()
    }
}

pub open spec fn input_as_direction(input: Option<InputDirection>) -> Option<Direction> {
    match input {
        Some(i) => Some(i.direction_spec()),
        None => None,
    }
}

/// A game: the board, the snake, the score, and whether it is over.
#[derive(Debug)]
pub struct SnakeGame {
    pub is_over: bool,
    pub score: u64,
    pub board: Board,
    pub snake: Snake,
    pub input_direction: Option<Direction>,
}

impl SnakeGame {
    /// A running game has a ready snake; an ended one still has a well
    /// formed snake whose head lies on the board.
    pub open spec fn wf(&self) -> bool {
        &&& self.snake.wf()
        &&& self.board.wf()
        &&& within_board(self.board, self.snake.head_view())
        &&& !self.is_over ==> self.snake.ready(self.board)
    }

    /// A new game on a `width` by `height` board, with food already placed;
    /// the game is over from the start when no cell is free for the food.
    pub fn new(
        width: usize,
        height: usize,
        snake_initial_length: u32,
        snake_initial_speed: u64,
        snake_initial_direction: InputDirection,
    ) -> (r: SnakeGame)
        requires
            1 <= width <= MAX_CELLS,
            1 <= height <= MAX_CELLS,
            1 <= snake_initial_length <= MAX_INITIAL_LENGTH,
        ensures
            r.wf(),
            r.score == 0,
            r.board.width == width,
            r.board.height == height,
            r.snake.head_view() == r.board.middle_spec(),
            arc_length(r.snake.body_view()) == snake_initial_length * UNIT,
            r.snake.speed_view() == snake_initial_speed,
            r.snake.direction_view() == snake_initial_direction.direction_spec(),
            r.input_direction is None,
            r.is_over <==> r.board.free_cells_spec(r.snake.body_view()).len() == 0,
    {
        let mut board = Board::new(width, height);
        let snake = Snake::new(
            &board,
            snake_initial_length,
            snake_initial_speed,
            snake_initial_direction.as_direction(),
        );
        let ghost empty_board = board;
        let spawned = board.spawn_food(&snake);
        let is_over = spawned.is_err();
        proof {
            crate::domain::board::lemma_spawned_food_is_off_snake(empty_board, board, snake.body_view(), spawned);
            lemma_initial_length(board, snake, snake_initial_length, snake_initial_direction.direction_spec());
        }
        SnakeGame { is_over, score: 0, board, snake, input_direction: None }
    }

    /// Queues a heading for the next `run_for`; moves nothing.
    pub fn set_input_direction(&mut self, input_direction: Option<InputDirection>)
        ensures
            final(self).input_direction == input_as_direction(input_direction),
            final(self).snake == old(self).snake,
            final(self).board == old(self).board,
            final(self).score == old(self).score,
            final(self).is_over == old(self).is_over,
    {
        self.input_direction = match input_direction {
            Some(i) => Some(i.as_direction()),
            None => None,
        };
    }

    /// Whether `run_for(timespan)` stays within the limits of the arithmetic.
    pub fn can_run_for(&self, timespan: u64) -> (r: bool)
        requires
            self.wf(),
        ensures
            r == self.snake.within_limits(self.score, timespan),
    {
        self.snake.check_limits(self.score, timespan)
    }

    /// Advances the game by `timespan` with the queued heading, which is
    /// then cleared. A game that is over stays over and does not move.
    pub fn run_for(&mut self, timespan: u64)
        requires
            old(self).wf(),
            !old(self).is_over ==> old(self).snake.within_limits(old(self).score, timespan),
        ensures
            final(self).wf(),
            final(self).input_direction is None,
            final(self).board.width == old(self).board.width,
            final(self).board.height == old(self).board.height,
            old(self).is_over ==> final(self).is_over && final(self).score == old(self).score
                && final(self).snake == old(self).snake && final(self).board == old(self).board,
            final(self).score >= old(self).score,
            arc_length(final(self).snake.body_view()) == arc_length(
                old(self).snake.body_view(),
            ) + UNIT * (final(self).score - old(self).score),
            (pending_turn(old(self).snake.next_direction_view(), old(self).input_direction) matches Some(p)
                && is_redundant_turn(old(self).snake.direction_view(), p))
                ==> final(self).snake.direction_view() == old(self).snake.direction_view(),
            !final(self).is_over && final(self).snake.direction_view() == old(self).snake.direction_view()
                ==> final(self).snake.head_view() == point_ahead(
                old(self).snake.head_view(),
                old(self).snake.direction_view(),
                old(self).snake.speed_view() * timespan,
            ),
            final(self).is_over && !old(self).is_over ==> final(self).board.on_border(
                final(self).snake.head_view(),
            ) || hits_itself(
                final(self).snake.body_view(),
                final(self).snake.head_view(),
            ) || final(self).board.free_cells_spec(final(self).snake.body_view()).len() == 0,
            !old(self).is_over ==> (final(self).snake.next_direction_view() is None
                || final(self).snake.next_direction_view() == pending_turn(
                old(self).snake.next_direction_view(),
                old(self).input_direction,
            )),
            ({
                let s = old(self).snake;
                let pending = pending_turn(s.next_direction_view(), old(self).input_direction);
                let d = s.speed_view() * timespan;
                !old(self).is_over && takes_no_turn(s.head_view(), s.direction_view(), pending, d)
                    && (forall|q: int|
                    0 < q <= d ==> !#[trigger] checkpoint_hit(
                        old(self).board,
                        s.body_view(),
                        s.direction_view(),
                        q,
                    )) ==> !final(self).is_over && final(self).score == old(self).score
                    && final(self).board == old(self).board
                    && final(self).snake.direction_view() == s.direction_view()
                    && final(self).snake.body_view() == moved(s.body_view(), s.direction_view(), d)
            }),
            ({
                let s = old(self).snake;
                let pending = pending_turn(s.next_direction_view(), old(self).input_direction);
                let d = s.speed_view() * timespan;
                let dir = s.direction_view();
                let gap = center_gap(s.head_view(), dir);
                let turned = moved(s.body_view(), dir, gap);
                !old(self).is_over && !takes_no_turn(s.head_view(), dir, pending, d) && (forall|q: int|
                    0 < q <= gap ==> !#[trigger] checkpoint_hit(old(self).board, s.body_view(), dir, q))
                    && (forall|q: int|
                    0 < q <= d - gap ==> !#[trigger] checkpoint_hit(old(self).board, turned, pending->0, q))
                    ==> !final(self).is_over && final(self).score == old(self).score
                    && final(self).board == old(self).board
                    && final(self).snake.direction_view() == pending->0
                    && final(self).snake.body_view() == moved(turned, pending->0, d - gap)
            }),
            ({
                let s = old(self).snake;
                let pending = pending_turn(s.next_direction_view(), old(self).input_direction);
                let d = s.speed_view() * timespan;
                forall|q: int|
                    #![trigger first_hit_on_border(old(self).board, s.body_view(), s.direction_view(), q, d)]
                    !old(self).is_over && takes_no_turn(s.head_view(), s.direction_view(), pending, d)
                        && first_hit_on_border(old(self).board, s.body_view(), s.direction_view(), q, d)
                        ==> final(self).is_over && final(self).snake.head_view() == point_ahead(
                        s.head_view(),
                        s.direction_view(),
                        q,
                    ) && final(self).board.on_border(final(self).snake.head_view())
            }),
    {
        if !self.is_over {
            let outcome = self.snake.move_for(
                timespan,
                self.input_direction,
                &mut self.board,
                &mut self.score,
            );
            proof {
                if let Err(e) = outcome {
                    match e {
                        GameOverEvent::BorderCollisionEvent => {},
                        GameOverEvent::SnakeCollisionEvent => {},
                        GameOverEvent::NoEmptySquaresEvent => {},
                    }
                }
            }
            self.is_over = outcome.is_err();
        }
        self.input_direction = None;
    }
}

proof fn lemma_initial_length(board: Board, snake: Snake, length: u32, direction: Direction)
    requires
        snake.body_view() == seq![
            Board::middle_spec(board),
            Vector {
                x: (Board::middle_spec(board).x - direction.dx() * (length * UNIT)) as i64,
                y: (Board::middle_spec(board).y - direction.dy() * (length * UNIT)) as i64,
            },
        ],
        board.wf(),
        1 <= length <= MAX_INITIAL_LENGTH,
    ensures
        arc_length(snake.body_view()) == length * UNIT,
{
    let b = snake.body_view();
    crate::geometry::vector::lemma_signed(direction.dx(), length * UNIT);
    crate::geometry::vector::lemma_signed(direction.dy(), length * UNIT);
    crate::domain::board::lemma_board_extent(board);
    assert(length * UNIT <= MAX_INITIAL_LENGTH * UNIT) by (nonlinear_arith)
        requires length <= MAX_INITIAL_LENGTH;
    crate::domain::polyline::lemma_arc_two(b);
}

} // verus!
