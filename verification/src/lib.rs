//! Conway's Game of Life on a fixed-size torus, with one bit per cell.
//!
//! [`Universe`] owns the packed grid and is the only executable type.  Every
//! contract is stated over [`Grid`], the mathematical picture of a universe:
//! its two dimensions and one boolean per cell in row-major order.
//!
//! - `grid`: the picture and the rule of the game on it;
//! - `universe`: the universe and its operations, each proved against the
//!   picture;
//! - `patterns`: the glider and the pulsar as lists of offsets;
//! - `laws`: what holds on every grid;
//! - `lifeforms`: what the rule does to the block, the blinker, the glider
//!   and the pulsar;
//! - `bitset`: what is assumed, without proof, of the bit set that stores
//!   the cells;
//! - `error`: why an operation was refused.
pub mod bitset;
pub mod error;
pub mod grid;
pub mod laws;
pub mod lifeforms;
pub mod patterns;
pub mod universe;

pub use error::GridError;
pub use grid::Grid;
pub use universe::Universe;
