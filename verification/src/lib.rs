//! A falling-block puzzle engine: board, pieces, randomizer and game rules,
//! each stated by a contract and proved.

pub mod bag;
pub mod board;
pub mod engine;
pub mod geometry;
pub mod highscore;
pub mod layout;
pub mod piece;
