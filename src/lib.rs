//! A snake that moves through continuous space on a bounded board.
//!
//! Lengths are exact fixed-point integers: one board cell is `UNIT` length
//! units wide, so cell centres and cell borders lie on the lattice of
//! multiples of `HALF_UNIT` and no rounding error ever accumulates.
pub mod domain;
pub mod game;
pub mod geometry;
pub mod square;
