//! Milestone: a two-player board game on 37 holes, a depth-bounded
//! alpha-beta search that plays it, and an evolutionary loop that tunes the
//! weights of the search's evaluation.

pub mod ai;
pub mod cli;
pub mod game;
pub mod genetic;
