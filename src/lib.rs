//! Conway's Game of Life on a toroidal grid, stored one bit per cell.
//!
//! `universe` holds the grid, its operations and their contracts over the
//! `Grid` model; `laws` proves properties that relate those operations;
//! `bits` declares the packed bit set the cells live in.
pub mod bits;
pub mod laws;
pub mod universe;
