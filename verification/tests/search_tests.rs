use lingine::position::Position;
use lingine::score::{INFINITY, ZERO, mate_in};
use lingine::search::history_moves::HistoryMoves;
use lingine::search::killer_moves::KillerMoves;
use lingine::search::pv_table::PrincipalVariationTable;
use lingine::search::searcher::{SearchContext, Searcher, SharedContext};
use lingine::search::time_manager::{GoParameters, TimeManager};
use lingine::search::transposition_table::{Bound, Entry, TranspositionTable};
use lingine::types::{Move, Side, Square};

fn entry(score: i32, bound: Bound, depth: i8) -> Entry {
    Entry { score, best_move: None, bound, depth }
}

#[test]
fn test_repetition_draw_repetition() {
    let mut pos = Position::new();
    pos.set("4k4/9/9/9/3PP4/9/9/9/9/4K4 w - - 0 1").unwrap();
    let w_move1 = Move::new(Square::E0, Square::D0);
    let w_move2 = Move::new(Square::D0, Square::E0);
    let b_move1 = Move::new(Square::E9, Square::D9);
    let b_move2 = Move::new(Square::D9, Square::E9);

    pos.do_move(w_move1);
    pos.do_move(b_move1);
    pos.do_move(w_move2);
    pos.do_move(b_move2);
    pos.do_move(w_move1);
    pos.do_move(b_move1);
    assert_eq!(pos.rule_judge(6), Some(ZERO));

    let time_manager = TimeManager::new(&GoParameters::default(), Side::Red);
    let shared = SharedContext {
        transposition_table: TranspositionTable::new(1),
        history_moves: HistoryMoves::default(),
        age: 1,
        keep_running: false,
    };
    let mut ctx = Searcher::new(pos.clone(), time_manager, shared);
    let score = ctx.negamax::<false>(1, 6, -INFINITY, INFINITY, SearchContext::default());
    assert_eq!(score, 0);
}

#[test]
fn test_repetition_perpetual_check_repetition() {
    let mut pos = Position::new();
    pos.set("3k5/9/9/9/9/9/9/9/3R5/4K4 w - - 0 1").unwrap();
    let r_check1 = Move::new(Square::D1, Square::D8);
    let k_move1 = Move::new(Square::D9, Square::E9);
    let r_check2 = Move::new(Square::D8, Square::E8);
    let k_move2 = Move::new(Square::E9, Square::D9);
    let r_check3 = Move::new(Square::E8, Square::D8);

    pos.do_move(r_check1);
    assert!(pos.is_side_in_check(Side::Black));
    pos.do_move(k_move1);
    pos.do_move(r_check2);
    assert!(pos.is_side_in_check(Side::Black));
    pos.do_move(k_move2);
    pos.do_move(r_check3);

    assert_eq!(pos.rule_judge(5), Some(mate_in(5)));
    assert!(pos.is_side_in_check(Side::Black));

    let time_manager = TimeManager::new(&GoParameters::default(), Side::Red);
    let shared = SharedContext {
        transposition_table: TranspositionTable::new(1),
        history_moves: HistoryMoves::default(),
        age: 1,
        keep_running: true,
    };
    let mut ctx = Searcher::new(pos, time_manager, shared);
    let score = ctx.negamax::<false>(1, 5, -INFINITY, INFINITY, SearchContext::default());
    assert_eq!(score, mate_in(5));
}

#[test]
fn test_initialization() {
    let pvt = PrincipalVariationTable::default();
    assert!(pvt.get_line(0).is_empty());
    assert!(pvt.get_line(10).is_empty());
}

#[test]
fn test_clear_line() {
    let mut pvt = PrincipalVariationTable::default();
    pvt.update_best_move(0, Move::new(Square::A1, Square::A2));
    assert_eq!(pvt.get_line(0).len(), 1);
    pvt.clear_line(0);
    assert!(pvt.get_line(0).is_empty());
}

#[test]
fn test_update_best_move_leaf_node() {
    let mut pvt = PrincipalVariationTable::default();
    pvt.update_best_move(5, Move::new(Square::A1, Square::A2));
    assert_eq!(pvt.get_line(5), &[Move::new(Square::A1, Square::A2)]);
}

#[test]
fn test_triangular_pv_propagation() {
    let mut pvt = PrincipalVariationTable::default();
    pvt.update_best_move(2, Move::new(Square::C1, Square::C2));
    assert_eq!(pvt.get_line(2), &[Move::new(Square::C1, Square::C2)]);
    pvt.update_best_move(1, Move::new(Square::B1, Square::B2));
    assert_eq!(
        pvt.get_line(1),
        &[Move::new(Square::B1, Square::B2), Move::new(Square::C1, Square::C2)]
    );
    pvt.update_best_move(0, Move::new(Square::A1, Square::A2));
    assert_eq!(
        pvt.get_line(0),
        &[
            Move::new(Square::A1, Square::A2),
            Move::new(Square::B1, Square::B2),
            Move::new(Square::C1, Square::C2)
        ]
    );
}

#[test]
fn test_pv_overwrite_on_new_best_move() {
    let mut pvt = PrincipalVariationTable::default();
    pvt.update_best_move(2, Move::new(Square::C1, Square::C2));
    pvt.update_best_move(1, Move::new(Square::B1, Square::B2));
    pvt.update_best_move(0, Move::new(Square::A1, Square::A2));

    pvt.update_best_move(2, Move::new(Square::E1, Square::E2));
    pvt.update_best_move(1, Move::new(Square::D1, Square::D2));
    assert_eq!(
        pvt.get_line(1),
        &[Move::new(Square::D1, Square::D2), Move::new(Square::E1, Square::E2)]
    );
    assert_eq!(
        pvt.get_line(0),
        &[
            Move::new(Square::A1, Square::A2),
            Move::new(Square::B1, Square::B2),
            Move::new(Square::C1, Square::C2)
        ]
    );
    pvt.update_best_move(0, Move::new(Square::A2, Square::A3));
    assert_eq!(
        pvt.get_line(0),
        &[
            Move::new(Square::A2, Square::A3),
            Move::new(Square::D1, Square::D2),
            Move::new(Square::E1, Square::E2)
        ]
    );
}

#[test]
fn test_transposition_table_resize_and_clearing() {
    let mut tt = TranspositionTable::new(1);
    assert!(tt.size_mask() > 0);

    tt.store(42, 0, entry(100, Bound::Exact, 5));
    let result = tt.probe(42, 0).unwrap();
    assert_eq!(result.depth, 5);
    assert_eq!(result.score, 100);
    assert_eq!(result.bound, Bound::Exact);

    tt.clear();
    assert!(tt.probe(42, 0).is_none());
}

#[test]
fn test_transposition_table_replacement_rules() {
    let mut tt = TranspositionTable::new(1);
    tt.store(100, 0, entry(80, Bound::Exact, 4));
    assert_eq!(tt.probe(100, 0).unwrap().score, 80);

    tt.store(100, 0, entry(90, Bound::Exact, 2));
    assert_eq!(tt.probe(100, 0).unwrap().depth, 4);
    assert_eq!(tt.probe(100, 0).unwrap().score, 80);

    tt.store(100, 0, entry(120, Bound::Exact, 6));
    assert_eq!(tt.probe(100, 0).unwrap().depth, 6);
    assert_eq!(tt.probe(100, 0).unwrap().score, 120);
}

#[test]
fn test_transposition_table_mate_score_mapping() {
    let mate_score = mate_in(10);
    let ply = 5;
    let mut tt = TranspositionTable::new(1);
    tt.store(100, ply, entry(mate_score, Bound::Exact, 6));
    let result = tt.probe(100, ply).unwrap();
    assert_eq!(result.score, mate_score);
}

#[test]
fn test_transposition_table_hashfull() {
    let mut tt = TranspositionTable::new(1);
    assert_eq!(tt.hashfull(), 0);
    tt.store(42, 0, entry(100, Bound::Exact, 5));
    let h = tt.hashfull();
    assert!(h > 0);
    assert!(h <= 1000);
}

#[test]
fn killer_move_recorded_and_found() {
    let mut killers = KillerMoves::new();
    let m1 = Move::new(Square::A0, Square::A1);
    let m2 = Move::new(Square::B0, Square::B2);
    assert!(!killers.contains(m1, 3));
    killers.update(m1, 3);
    assert!(killers.contains(m1, 3));
    assert!(!killers.contains(m1, 4));
    killers.update(m2, 3);
    assert!(killers.contains(m1, 3));
    assert!(killers.contains(m2, 3));
}

#[test]
fn history_rises_by_the_square_of_the_depth() {
    let mut history = HistoryMoves::new();
    let m = Move::new(Square::C3, Square::C4);
    history.increase(Side::Red, m, 3);
    assert_eq!(history.get(Side::Red, m), 9);
    assert_eq!(history.get(Side::Black, m), 0);
    history.decrease(Side::Red, m, 2);
    assert_eq!(history.get(Side::Red, m), 5);
}

#[test]
fn shallow_search_finds_a_mate_in_one() {
    let pos = Position::from_fen("4k4/R8/9/9/9/9/9/9/9/1R3K3 w - - 0 1").unwrap();
    let params = GoParameters { depth: Some(2), ..GoParameters::default() };
    let time_manager = TimeManager::new(&params, Side::Red);
    let shared = SharedContext {
        transposition_table: TranspositionTable::new(1),
        history_moves: HistoryMoves::default(),
        age: 1,
        keep_running: true,
    };
    let (best, reports, nodes, shared) = Searcher::start_search(pos, time_manager, shared);
    assert!(nodes > 0);
    assert!(!shared.keep_running);
    assert!(!reports.is_empty());
    assert_eq!(best, Move::new(Square::B0, Square::B9));
    assert_eq!(reports.last().unwrap().score, mate_in(1));
}
