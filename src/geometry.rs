pub mod direction;
pub mod line_segment;
pub mod rectangle;
pub mod vector;
