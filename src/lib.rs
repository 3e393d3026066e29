//! Rules engine of a falling-block puzzle: the occupancy grid, the pieces and
//! their rotation, and the moves, locks and line clears of a running game.

pub mod geometry;
pub mod settings;
pub mod bricks;
pub mod blocks;
pub mod game_panel;
pub mod gaming_screen;
pub mod scoring;
pub mod screens;
