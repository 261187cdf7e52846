//! A turn-based strategy game on a rectangular grid.
//!
//! Pieces move along a per-piece set of displacement vectors, merge with
//! friendly pieces to gain their combined capabilities, and capture enemy
//! pieces by moving onto their cell. Every change of the board is an
//! [`game::action::Action`] that can be applied and undone.

pub mod game;
