//! A Xiangqi (Chinese chess) engine: a board with incrementally maintained
//! Zobrist hashes and material scores, pseudo-legal move generation, check
//! and repetition detection, an opening-book probe, and an iterative-
//! deepening principal-variation searcher with quiescence, null-move
//! pruning, a transposition table and killer and history heuristics.
//!
//! Squares live on a 16x16 superboard (`x + 16 * y`, files 3..11, ranks
//! 3..12); piece codes are 8 + role for red and 16 + role for black; a move
//! code is `source + 256 * destination`.
//!
//! Modules: `util` and `pregen` (square arithmetic, board geometry and
//! constants), `tables` (Zobrist and piece-square tables), `rules` (the
//! rules of movement and of check as specifications), `borad` (the board),
//! `movegen` (move generation), `fen` and `position` (FEN and ICCS text),
//! `shell` (sorting by score), `book` (the opening book), `state` and
//! `engine` (the search), `facade` (the engine's board operations), `laws`
//! (properties proved of these operations), `chance` and `clock` (the random
//! source and the wall clock).
use vstd::prelude::*;

pub mod book;
pub mod borad;
pub mod chance;
pub mod clock;
pub mod engine;
pub mod facade;
pub mod fen;
pub mod history;
pub mod laws;
pub mod movegen;
pub mod position;
pub mod pregen;
pub mod rules;
pub mod shell;
pub mod state;
pub mod tables;
pub mod util;

verus! {

} // verus!
