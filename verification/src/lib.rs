pub mod board;
pub mod color;
pub mod game;
pub mod input;
pub mod legality;
pub mod movedata;
pub mod movegen;
pub mod movegen_lemmas;
pub mod moverules;
pub mod occupancy;
pub mod piece;
pub mod piecemap;
pub mod render;
pub mod square;
pub mod standardstart;
pub mod threat;
pub mod title;
pub mod uniqueness;
