//! Search support: the transposition table, move-ordering heuristics and time
//! management.
pub mod transposition_table;
pub mod killer_moves;
pub mod history_moves;
pub mod time_manager;
pub mod pv_table;
pub mod searcher;
