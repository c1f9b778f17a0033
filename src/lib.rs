//! Position state, move generation, transposition cache and move-ordering
//! tables for a chess search engine, with their contracts proved by Verus.
pub mod types;
pub mod keys;
pub mod board;
pub mod historytable;
pub mod transpositiontable;
pub mod evaluation;
