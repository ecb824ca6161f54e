use lingine::engine::{EngineError, Lingine};
use lingine::position::PositionSetError;
use lingine::search::time_manager::GoParameters;
use lingine::types::{Move, Piece, Side, Square};

const START: &str = "rheakaehr/9/1c5c1/p1p1p1p1p/9/9/P1P1P1P1P/1C5C1/9/RHEAKAEHR w - - 0 1";

#[test]
fn new_engine_holds_the_start_position() {
    let engine = Lingine::new();
    assert_eq!(engine.position().piece_at(Square::E0), Some(Piece::RedKing));
    assert_eq!(engine.position().piece_at(Square::E9), Some(Piece::BlackKing));
    assert_eq!(engine.position().side_to_move(), Side::Red);
    let d = Lingine::default();
    assert_eq!(d.position().piece_at(Square::H2), Some(Piece::RedCannon));
}

#[test]
fn position_plays_the_moves_in_order() {
    let mut engine = Lingine::new();
    let moves = [(Square::H2, Square::E2), (Square::H9, Square::G7)];
    assert_eq!(engine.set_position(START, &moves), Ok(()));
    let pos = engine.position();
    assert_eq!(pos.piece_at(Square::E2), Some(Piece::RedCannon));
    assert_eq!(pos.piece_at(Square::H2), None);
    assert_eq!(pos.piece_at(Square::G7), Some(Piece::BlackKnight));
    assert_eq!(pos.side_to_move(), Side::Red);
    assert_eq!(pos.game_ply(), 2);
}

#[test]
fn position_reports_the_first_illegal_move() {
    let mut engine = Lingine::new();
    let moves = [(Square::H2, Square::E2), (Square::A9, Square::A5), (Square::A0, Square::A1)];
    assert_eq!(engine.set_position(START, &moves), Err(EngineError::IllegalMove(1)));
    let pos = engine.position();
    assert_eq!(pos.piece_at(Square::E2), Some(Piece::RedCannon));
    assert_eq!(pos.side_to_move(), Side::Black);

    assert_eq!(
        engine.set_position(START, &[(Square::A0, Square::A5)]),
        Err(EngineError::IllegalMove(0))
    );
    assert_eq!(engine.position().piece_at(Square::A0), Some(Piece::RedRook));
}

#[test]
fn position_rejects_a_bad_fen() {
    let mut engine = Lingine::new();
    assert_eq!(
        engine.set_position("", &[]),
        Err(EngineError::InvalidFen(PositionSetError::EmptyFen))
    );
    assert_eq!(
        engine.set_position("9/9 w", &[]),
        Err(EngineError::InvalidFen(PositionSetError::WrongRankCount))
    );
}

#[test]
fn new_game_restores_the_start_position() {
    let mut engine = Lingine::new();
    engine.set_position("4k4/9/9/9/9/9/9/9/9/4K4 b - - 0 1", &[]).unwrap();
    assert_eq!(engine.position().side_to_move(), Side::Black);
    engine.ucinewgame();
    assert_eq!(engine.position().piece_at(Square::A0), Some(Piece::RedRook));
    assert_eq!(engine.position().side_to_move(), Side::Red);
}

#[test]
fn go_finds_the_mate_and_keeps_the_position() {
    let mut engine = Lingine::new();
    engine.set_hash(1);
    engine.set_position("4k4/R8/9/9/9/9/9/9/9/1R3K3 w - - 0 1", &[]).unwrap();
    let limits = GoParameters { depth: Some(2), ..GoParameters::default() };
    let (best, reports, nodes) = engine.go(&limits);
    assert_eq!(best, Move::new(Square::B0, Square::B9));
    assert!(!reports.is_empty());
    assert!(nodes > 0);
    assert_eq!(engine.position().piece_at(Square::B0), Some(Piece::RedRook));
    assert_eq!(engine.position().side_to_move(), Side::Red);
    let (again, _, _) = engine.go(&limits);
    assert_eq!(again, best);
}

#[test]
fn go_at_depth_zero_completes_no_iteration() {
    let mut engine = Lingine::new();
    engine.set_hash(1);
    let limits = GoParameters { depth: Some(0), ..GoParameters::default() };
    let (best, reports, nodes) = engine.go(&limits);
    assert!(reports.is_empty());
    assert!(best.is_none());
    assert_eq!(nodes, 0);
}

#[test]
fn go_without_limits_but_depth_completes_each_iteration() {
    let mut engine = Lingine::new();
    engine.set_hash(1);
    let limits = GoParameters { depth: Some(3), ..GoParameters::default() };
    let (best, reports, _) = engine.go(&limits);
    assert_eq!(reports.len(), 3);
    assert_eq!(reports[0].depth, 1);
    assert_eq!(reports[2].depth, 3);
    assert!(best.is_valid());
    assert_eq!(best, reports[2].pv[0]);
}
