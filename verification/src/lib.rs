//! A decision engine for two-player chess: it searches continuations of a
//! position to a fixed depth, scores them by material, and selects a move,
//! either greedily or by weighted sampling. The board representation and
//! move legality come from the `cozy_chess` position engine.

pub mod board;
pub mod algorithm;
