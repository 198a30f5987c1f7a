//! A Tetris engine: tetromino shapes and SRS rotation, the 7-bag
//! randomizer, the playfield with line clears, T-spin, back-to-back and combo
//! scoring, the line-clear flash, lock delay,
//! hold, and the high-score list.

pub mod piece;
pub mod bag;
pub mod rules;
pub mod game;
pub mod scores;
pub mod control;
pub mod laws;
