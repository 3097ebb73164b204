use rand::seq::IteratorRandom;

use snake_engine::domain::board::Board;
use snake_engine::domain::food::Food;
use snake_engine::domain::game_over_event::GameOverEvent;
use snake_engine::domain::snake::Snake;
use snake_engine::game::{InputDirection, SnakeGame};
use snake_engine::geometry::direction::Direction;
use snake_engine::geometry::line_segment::LineSegment;
use snake_engine::geometry::rectangle::Rectangle;
use snake_engine::geometry::vector::{Vector, HALF_UNIT, UNIT};
use snake_engine::square::{EmptySquare, FoodSquare, SnakeSquare, SquareCollision};

/// Length units for a length given in cells.
fn units(cells: f64) -> i64 {
    (cells * UNIT as f64).round() as i64
}

fn at(x: f64, y: f64) -> Vector {
    Vector::new(units(x), units(y))
}

#[test]
fn it_works() {
    // Speed 0.006 cells per millisecond, in length units per microsecond.
    let mut game = SnakeGame::new(6, 15, 3, 6, InputDirection::RIGHT);
    let frame_duration: u64 = 16_667;
    let mut frames: u64 = 0;
    while !game.is_over {
        let direction = [
            InputDirection::UP,
            InputDirection::LEFT,
            InputDirection::DOWN,
            InputDirection::RIGHT,
        ]
        .into_iter()
        .choose(&mut rand::thread_rng());
        game.set_input_direction(direction);
        assert!(game.can_run_for(frame_duration));
        game.run_for(frame_duration);
        frames += 1;
        assert!(frames < 10_000_000);
    }
    assert_eq!(true, true)
}

#[test]
fn vector_equality_after_conversion_to_length_units() {
    // Differences below one length unit vanish when cells are converted to
    // length units; the library compares the converted coordinates exactly.
    assert!(at(1.0, 1.0) == at(1.0 + 1e-10, 1.0 - 1e-10));
    assert!(Vector::new(1, 1) != Vector::new(2, 1));
    assert!(at(1.0, 1.0) != at(1.01, 1.0));
}

#[test]
fn line_segment_contains_points_between_its_ends() {
    let segment = LineSegment::new(at(0.0, 0.0), at(4.0, 0.0));
    assert!(segment.contains(&at(2.0, 0.0)));
    assert!(!segment.contains(&at(2.0, 1.0)));
    assert!(!segment.contains(&at(5.0, 0.0)));
    assert!(segment.contains(&at(4.0, 0.0)));
}

#[test]
fn line_segment_measures() {
    let segment = LineSegment::new(at(1.0, 1.0), at(1.0, 4.0));
    assert_eq!(segment.as_vector(), at(0.0, 3.0));
    assert_eq!(segment.length(), 3 * UNIT);
    assert_eq!(segment.direction(), at(0.0, 1.0));
    assert!(!segment.is_point());
    assert!(LineSegment::new(at(1.0, 1.0), at(1.0, 1.0)).is_point());
}

#[test]
fn segments_join_consecutive_points() {
    let points = [at(0.0, 0.0), at(2.0, 0.0), at(2.0, 3.0)];
    let segments = LineSegment::segments_from_positions(&points);
    assert_eq!(segments.len(), 2);
    assert_eq!(segments[0], LineSegment::new(at(0.0, 0.0), at(2.0, 0.0)));
    assert_eq!(segments[1], LineSegment::new(at(2.0, 0.0), at(2.0, 3.0)));
    assert!(LineSegment::segments_from_positions(&[]).is_empty());
    assert!(LineSegment::segments_from_positions(&points[..1]).is_empty());
}

#[test]
fn rectangle_border_winds_bottom_right_top_left() {
    let rectangle = Rectangle::new(at(0.0, 0.0), units(5.0), units(3.0));
    let sides = rectangle.as_line_segments();
    assert_eq!(sides[0], LineSegment::new(at(0.0, 0.0), at(5.0, 0.0)));
    assert_eq!(sides[1], LineSegment::new(at(5.0, 0.0), at(5.0, 3.0)));
    assert_eq!(sides[2], LineSegment::new(at(5.0, 3.0), at(0.0, 3.0)));
    assert_eq!(sides[3], LineSegment::new(at(0.0, 3.0), at(0.0, 0.0)));
}

#[test]
fn vector_arithmetic() {
    let v = Vector::new(3, -4);
    assert_eq!(v.length(), 5);
    assert_eq!(Vector::new(2, 3).length(), 3);
    assert_eq!(v.opposite(), Vector::new(-3, 4));
    assert_eq!(Vector::scalar_product(&v, &Vector::new(2, 1)), 2);
    assert_eq!(v.plus(&Vector::new(1, 1)), Vector::new(4, -3));
    assert_eq!(v.minus(&Vector::new(1, 1)), Vector::new(2, -5));
    assert_eq!(at(0.0, -7.0).normalized(), at(0.0, -1.0));
    assert_eq!(at(2.5, -2.5).round(), at(3.0, -3.0));
    assert_eq!(at(2.4, -1.6).round(), at(2.0, -2.0));
}

#[test]
fn directions_and_their_opposites() {
    assert_eq!(Direction::UP.opposite(), Direction::DOWN);
    assert_eq!(Direction::DOWN.opposite(), Direction::UP);
    assert_eq!(Direction::LEFT.opposite(), Direction::RIGHT);
    assert_eq!(Direction::RIGHT.opposite(), Direction::LEFT);
    assert_eq!(Direction::UP.as_vector(), at(0.0, -1.0));
    assert_eq!(InputDirection::LEFT.as_vector(), at(-1.0, 0.0));
    assert_eq!(InputDirection::DOWN.as_direction(), Direction::DOWN);
}

#[test]
fn grid_squares_decide_what_the_snake_does() {
    assert_eq!(EmptySquare::new().on_collision(), SquareCollision::MoveInto);
    assert_eq!(FoodSquare::new().on_collision(), SquareCollision::GrowInto);
    assert_eq!(
        SnakeSquare::new().on_collision(),
        SquareCollision::GameOver(GameOverEvent::SnakeCollisionEvent)
    );
    assert_eq!(EmptySquare::new().render(), 'O');
    assert_eq!(FoodSquare::new().render(), 'X');
    assert_eq!(SnakeSquare::new().render(), 'S');
}

#[test]
fn new_snake_lies_straight_behind_the_middle() {
    let board = Board::new(5, 4);
    let snake = Snake::new(&board, 2, UNIT as u64, Direction::RIGHT);
    assert_eq!(snake.body(), &vec![at(2.5, 1.5), at(0.5, 1.5)]);
    assert_eq!(snake.length(), 2 * UNIT);
    assert!(snake.contains(&at(1.5, 1.5)));
    assert!(!snake.contains(&at(1.5, 2.5)));
    assert_eq!(board.as_rectangle(), Rectangle::new(at(0.0, 0.0), units(5.0), units(4.0)));
}

#[test]
fn grow_adds_one_cell_behind_the_tail() {
    let board = Board::new(5, 5);
    let mut snake = Snake::new(&board, 2, UNIT as u64, Direction::RIGHT);
    snake.grow();
    assert_eq!(snake.length(), 3 * UNIT);
    assert_eq!(snake.body()[0], at(2.5, 2.5));
    assert_eq!(snake.body().last(), Some(&at(-0.5, 2.5)));
}

#[test]
fn free_cells_skip_the_snake() {
    let board = Board::new(5, 5);
    let snake = Snake::new(&board, 2, UNIT as u64, Direction::RIGHT);
    let free = board.free_cells(&snake);
    assert_eq!(free.len(), 22);
    assert_eq!(free[0], at(0.5, 0.5));
    assert_eq!(free[1], at(0.5, 1.5));
    assert_eq!(free[2], at(0.5, 3.5));
}

#[test]
fn spawn_food_at_picks_the_given_free_cell() {
    let mut board = Board::new(5, 5);
    let snake = Snake::new(&board, 2, UNIT as u64, Direction::RIGHT);
    assert_eq!(board.spawn_food_at(&snake, 2), Ok(()));
    assert_eq!(board.food, Some(Food::new(at(0.5, 3.5))));
    assert_eq!(board.spawn_food_at(&snake, 22), Ok(()));
    assert_eq!(board.food, Some(Food::new(at(0.5, 0.5))));
}

#[test]
fn spawn_food_lands_on_a_free_cell() {
    let mut board = Board::new(3, 3);
    let snake = Snake::new(&board, 2, UNIT as u64, Direction::DOWN);
    for _ in 0..50 {
        assert_eq!(board.spawn_food(&snake), Ok(()));
        let food = board.food.expect("food was placed");
        assert!(!snake.contains(&food.position));
        assert!(board.free_cells(&snake).contains(&food.position));
    }
}

#[test]
fn full_board_has_no_empty_squares() {
    let mut board = Board::new(2, 1);
    let snake = Snake::new(&board, 1, UNIT as u64, Direction::LEFT);
    assert_eq!(board.spawn_food(&snake), Err(GameOverEvent::NoEmptySquaresEvent));
    assert_eq!(board.food, None);
    assert_eq!(board.spawn_food_at(&snake, 0), Err(GameOverEvent::NoEmptySquaresEvent));
    let game = SnakeGame::new(2, 1, 1, UNIT as u64, InputDirection::LEFT);
    assert!(game.is_over);
}

#[test]
fn one_step_to_the_right() {
    let mut game = SnakeGame::new(5, 5, 2, UNIT as u64, InputDirection::RIGHT);
    game.board.food = Some(Food::new(at(0.5, 0.5)));
    game.set_input_direction(None);
    game.run_for(1);
    assert_eq!(game.snake.body(), &vec![at(3.5, 2.5), at(1.5, 2.5)]);
    assert!(!game.is_over);
    assert_eq!(game.score, 0);
}

#[test]
fn reaching_the_right_border_ends_the_game() {
    let mut board = Board::new(5, 5);
    board.food = Some(Food::new(at(0.5, 0.5)));
    let mut snake = Snake::new(&board, 2, HALF_UNIT as u64, Direction::RIGHT);
    let mut score: u64 = 0;
    let outcome = snake.move_for(5, None, &mut board, &mut score);
    assert_eq!(outcome, Err(GameOverEvent::BorderCollisionEvent));
    assert_eq!(snake.body()[0], at(5.0, 2.5));

    let mut game = SnakeGame::new(5, 5, 2, HALF_UNIT as u64, InputDirection::RIGHT);
    game.board.food = Some(Food::new(at(0.5, 0.5)));
    game.run_for(5);
    assert!(game.is_over);
    let head = game.snake.body()[0];
    game.run_for(5);
    assert_eq!(game.snake.body()[0], head);
}

#[test]
fn stopping_short_of_the_border_goes_on() {
    let mut game = SnakeGame::new(5, 5, 2, HALF_UNIT as u64, InputDirection::RIGHT);
    game.board.food = Some(Food::new(at(0.5, 0.5)));
    game.run_for(4);
    assert!(!game.is_over);
    assert_eq!(game.snake.body()[0], at(4.5, 2.5));
}

#[test]
fn eating_food_scores_and_grows() {
    let mut board = Board::new(5, 5);
    board.food = Some(Food::new(at(3.5, 2.5)));
    let mut snake = Snake::new(&board, 2, UNIT as u64, Direction::RIGHT);
    let mut score: u64 = 0;
    assert_eq!(snake.move_for(1, None, &mut board, &mut score), Ok(()));
    assert_eq!(score, 1);
    assert_eq!(snake.length(), 3 * UNIT);
    assert_eq!(snake.body()[0], at(3.5, 2.5));
    let food = board.food.expect("new food");
    assert!(!snake.contains(&food.position));
}

#[test]
fn food_on_collision_scores_grows_and_respawns() {
    let mut board = Board::new(4, 4);
    let mut snake = Snake::new(&board, 2, UNIT as u64, Direction::UP);
    let mut score: u64 = 7;
    let food = Food::new(at(0.5, 0.5));
    assert_eq!(food.on_collision(&mut snake, &mut board, &mut score), Ok(()));
    assert_eq!(score, 8);
    assert_eq!(snake.length(), 3 * UNIT);
    assert!(!snake.contains(&board.food.expect("food").position));
}

#[test]
fn turns_wait_for_the_next_cell_centre() {
    let mut board = Board::new(9, 9);
    board.food = Some(Food::new(at(0.5, 0.5)));
    let mut snake = Snake::new(&board, 3, (UNIT / 4) as u64, Direction::RIGHT);
    let mut score: u64 = 0;
    // A quarter cell ahead: the head leaves the centre, the turn cannot be
    // taken before the next centre and stays queued.
    assert_eq!(snake.move_for(1, None, &mut board, &mut score), Ok(()));
    assert_eq!(snake.move_for(1, Some(Direction::DOWN), &mut board, &mut score), Ok(()));
    assert_eq!(snake.direction(), Direction::RIGHT);
    assert_eq!(snake.next_direction(), Some(Direction::DOWN));
    assert_eq!(snake.body()[0], at(5.0, 4.5));
    // Three more quarters: the centre comes after two, the turn is taken
    // there and the last quarter goes down.
    assert_eq!(snake.move_for(3, None, &mut board, &mut score), Ok(()));
    assert_eq!(snake.direction(), Direction::DOWN);
    assert_eq!(snake.next_direction(), None);
    assert_eq!(snake.body()[0], at(5.5, 4.75));
    assert_eq!(snake.body()[1], at(5.5, 4.5));
    assert_eq!(snake.length(), 3 * UNIT);
}

#[test]
fn reversing_or_repeating_the_heading_is_ignored() {
    let mut game = SnakeGame::new(9, 9, 2, UNIT as u64, InputDirection::RIGHT);
    game.board.food = Some(Food::new(at(0.5, 0.5)));
    game.set_input_direction(Some(InputDirection::LEFT));
    game.run_for(1);
    assert_eq!(game.snake.direction(), Direction::RIGHT);
    game.set_input_direction(Some(InputDirection::RIGHT));
    game.run_for(1);
    assert_eq!(game.snake.direction(), Direction::RIGHT);
    assert_eq!(game.snake.body()[0], at(6.5, 4.5));
    assert_eq!(game.input_direction, None);
}

#[test]
fn running_into_the_body_ends_the_game() {
    let mut board = Board::new(12, 12);
    board.food = Some(Food::new(at(11.5, 11.5)));
    let mut snake = Snake::new(&board, 10, UNIT as u64, Direction::RIGHT);
    let mut score: u64 = 0;
    assert_eq!(snake.move_for(1, Some(Direction::DOWN), &mut board, &mut score), Ok(()));
    assert_eq!(snake.move_for(2, Some(Direction::LEFT), &mut board, &mut score), Ok(()));
    assert_eq!(snake.move_for(2, Some(Direction::UP), &mut board, &mut score), Ok(()));
    assert_eq!(snake.move_for(1, Some(Direction::RIGHT), &mut board, &mut score), Ok(()));
    assert_eq!(snake.body()[0], at(4.5, 4.5));
    assert_eq!(
        snake.move_for(2, Some(Direction::DOWN), &mut board, &mut score),
        Err(GameOverEvent::SnakeCollisionEvent)
    );
    assert_eq!(snake.body()[0], at(4.5, 5.5));
    assert_eq!(snake.length(), 10 * UNIT);
}

#[test]
fn limits_are_reported() {
    let game = SnakeGame::new(6, 15, 3, 6, InputDirection::RIGHT);
    assert!(game.can_run_for(16_667));
    assert!(!game.can_run_for(u64::MAX));
}
