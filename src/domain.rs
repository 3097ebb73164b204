pub mod board;
pub mod food;
pub mod game_over_event;
pub mod polyline;
pub mod snake;
