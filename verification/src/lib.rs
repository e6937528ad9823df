//! Game rules of Shadow Runner that do not need the engine to run.
//!
//! The centre of the crate is the wall collider builder: it turns the grid of
//! wall markers of one level region into a small set of rectangles, one
//! collider each, by merging marker runs row by row and stacking equal runs
//! of neighbouring rows.

pub mod animation;
pub mod builder;
pub mod grid;
pub mod health;
pub mod kinds;
pub mod laws;
pub mod paint;
pub mod patrol;
pub mod plate;
pub mod rect;
pub mod stack;
pub mod state;
pub mod tables;
pub mod tutorial;
