//! Core of a dice-driven, capture-based race board game, together with the
//! artificial players that play it: the board model of the fixed four-arm
//! variant and of the rotating variant, the legal-move generators, the board
//! mutators, the scoring heuristics, a 64-bit board fingerprint, a depth-aware
//! transposition cache, and an expectiminimax search with alpha-beta pruning.
//!
//! Scores are plain 64-bit integers (fixed units, no fractions); the win
//! sentinel is far above anything a heuristic can produce.

pub mod color;
pub mod board;
pub mod eval;
pub mod boardhash;
pub mod tcache;
pub mod rngs;
pub mod players;
pub mod search;
pub mod turn;
pub mod twistboard;
pub mod twistmoves;
pub mod twistplayers;
pub mod seqcount;
