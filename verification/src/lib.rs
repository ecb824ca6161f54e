pub mod bitboard;
pub mod engine;
pub mod boardspec;
pub mod eval;
pub mod fen;
pub mod leapers;
pub mod lines;
pub mod movegen;
pub mod movelist;
pub mod perft;
pub mod perft_positions;
pub mod position;
pub mod score;
pub mod search;
pub mod sliding;
pub mod types;
