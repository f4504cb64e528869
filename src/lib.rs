//! A 2048 engine on packed 64-bit boards: the board codec, the per-row move
//! and score tables, the four moves, and the integer side of an expectimax
//! search (depth limit, transposition cache, tile spawns).
pub mod board;
pub mod row;
pub mod tables;
pub mod spawn;
pub mod search;
