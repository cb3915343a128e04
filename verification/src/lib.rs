//! Conway's Game of Life on a fixed-size rectangular grid with hard
//! (non-wrapping) boundaries.
//!
//! The grid is addressed with 1-based coordinates: `(x, y)` names a cell
//! when `1 <= x <= width` and `1 <= y <= height`; every other coordinate
//! pair is off the grid and behaves as a permanently dead cell. Advancing
//! a generation first computes, from a read-only snapshot, the set of
//! coordinates whose state must toggle, then applies all toggles as one
//! batch, so every transition of a generation is decided against the same
//! snapshot.

pub mod board;
pub mod laws;
