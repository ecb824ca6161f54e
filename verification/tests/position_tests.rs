use lingine::movegen::generate_moves;
use lingine::movelist::MoveList;
use lingine::position::{Position, PositionSetError};
use lingine::score::{DRAW, ZERO, mate_in};
use lingine::types::{Move, MoveGenType, Piece, Side, Square};

const START_FEN: &str = "rheakaehr/9/1c5c1/p1p1p1p1p/9/9/P1P1P1P1P/1C5C1/9/RHEAKAEHR w";

fn legal_moves(pos: &Position) -> Vec<Move> {
    let mut moves = MoveList::new();
    generate_moves(pos, MoveGenType::Legal, &mut moves);
    moves.iter().copied().collect()
}

#[test]
fn position_test_knight_leg_pin() {
    let mut pos = Position::new();
    pos.set("4k4/9/9/9/9/9/9/5h3/5A3/4K4 w - - 0 1").unwrap();
    assert!(!pos.legal(Move::new(Square::F1, Square::E2)));
    assert!(!pos.legal(Move::new(Square::F1, Square::G2)));
    assert!(!pos.legal(Move::new(Square::F1, Square::E0)));
    assert!(!pos.legal(Move::new(Square::F1, Square::G0)));
}

#[test]
fn position_test_rule_judge_insufficient_material() {
    let mut pos = Position::new();
    pos.set("4k4/9/9/9/9/9/9/9/9/4K4 w - - 0 1").unwrap();
    assert_eq!(pos.rule_judge(0), Some(DRAW));

    pos.set("2b1kab2/9/9/9/9/9/9/9/9/2B1KAB2 w - - 0 1").unwrap();
    assert_eq!(pos.rule_judge(0), Some(DRAW));

    pos.set("4k4/9/9/9/9/9/9/9/3C5/4K4 w - - 0 1").unwrap();
    assert_eq!(pos.rule_judge(0), Some(DRAW));
}

#[test]
fn position_test_rule_judge_60_move_rule() {
    let mut pos = Position::new();
    pos.set("4k4/9/9/9/9/9/9/9/9/4K4 w - - 0 1").unwrap();

    let w_move1 = Move::new(Square::E0, Square::D0);
    let w_move2 = Move::new(Square::D0, Square::E0);
    let b_move1 = Move::new(Square::E9, Square::D9);
    let b_move2 = Move::new(Square::D9, Square::E9);

    for _ in 0..30 {
        pos.do_move(w_move1);
        pos.do_move(b_move1);
        pos.do_move(w_move2);
        pos.do_move(b_move2);
    }

    assert_eq!(pos.sixtymove_clock(), 120);
    assert_eq!(pos.rule_judge(0), Some(DRAW));
}

#[test]
fn test_null_moves() {
    let mut pos = Position::new();
    let initial_hash = pos.hash();
    let initial_side = pos.side_to_move();
    let initial_ply = pos.game_ply();

    assert!(pos.has_attacking_pieces(Side::Red));
    assert!(pos.has_attacking_pieces(Side::Black));
    assert_eq!(pos.plies_since_null(), 0);

    let w_move = Move::new(Square::E0, Square::D0);
    pos.do_move(w_move);
    assert_eq!(pos.plies_since_null(), 1);

    pos.do_null_move();
    assert_ne!(pos.hash(), initial_hash);
    assert_eq!(pos.side_to_move(), initial_side);
    assert_eq!(pos.game_ply(), initial_ply + 2);
    assert_eq!(pos.plies_since_null(), 0);

    pos.undo_null_move();
    assert_eq!(pos.plies_since_null(), 1);

    pos.undo_move(w_move);
    assert_eq!(pos.hash(), initial_hash);
    assert_eq!(pos.side_to_move(), initial_side);
    assert_eq!(pos.game_ply(), initial_ply);
    assert_eq!(pos.plies_since_null(), 0);
}

#[test]
fn start_position_matches_its_fen() {
    let a = Position::new();
    let b = Position::from_fen(START_FEN).unwrap();
    assert_eq!(a.hash(), b.hash());
    for i in 0..90u8 {
        let sq = Square::from_repr(i).unwrap();
        assert_eq!(a.piece_at(sq), b.piece_at(sq));
    }
    assert_eq!(a.score(), b.score());
    assert_eq!(a.phase(), 32);
    assert_eq!(a.piece_count(Piece::RedPawn), 5);
    assert_eq!(a.side_to_move(), Side::Red);
    assert_eq!(Position::startpos().hash(), a.hash());
}

#[test]
fn fen_errors() {
    assert_eq!(Position::from_fen("   ").err(), Some(PositionSetError::EmptyFen));
    assert_eq!(Position::from_fen("4k4/9/9 w").err(), Some(PositionSetError::WrongRankCount));
    assert_eq!(
        Position::from_fen("4k4/9/9/9/9/9/9/9/9/4K4p w").err(),
        Some(PositionSetError::FileOutOfBounds)
    );
    assert_eq!(
        Position::from_fen("4k4/9/9/9/9/9/9/9/9/4X4 w").err(),
        Some(PositionSetError::UnknownPiece)
    );
    assert_eq!(
        Position::from_fen("4k4/9/9/9/9/9/9/9/9/4K3 w").err(),
        Some(PositionSetError::WrongRankWidth)
    );
    assert_eq!(
        Position::from_fen("4k4/9/9/9/9/9/9/9/9/4K4 x").err(),
        Some(PositionSetError::InvalidSide)
    );
}

#[test]
fn fen_side_clock_and_ply() {
    let pos = Position::from_fen("4k4/9/9/9/9/9/9/9/9/4K4 b - - 17 5").unwrap();
    assert_eq!(pos.side_to_move(), Side::Black);
    assert_eq!(pos.sixtymove_clock(), 17);
    assert_eq!(pos.game_ply(), 9);
    let red = Position::from_fen("4k4/9/9/9/9/9/9/9/9/4K4 w - - x +3").unwrap();
    assert_eq!(red.sixtymove_clock(), 0);
    assert_eq!(red.game_ply(), 4);
    assert_ne!(pos.hash(), Position::from_fen("4k4/9/9/9/9/9/9/9/9/4K4 w").unwrap().hash());
}

#[test]
fn piece_letters() {
    assert_eq!(Position::piece_from_char('R'), Some(Piece::RedRook));
    assert_eq!(Position::piece_from_char('N'), Some(Piece::RedKnight));
    assert_eq!(Position::piece_from_char('h'), Some(Piece::BlackKnight));
    assert_eq!(Position::piece_from_char('b'), Some(Piece::BlackBishop));
    assert_eq!(Position::piece_from_char('x'), None);
}

#[test]
fn do_then_undo_restores_the_position() {
    let mut pos = Position::new();
    let before_hash = pos.hash();
    let before_score = pos.score();
    for m in legal_moves(&pos) {
        pos.do_move(m);
        assert_eq!(pos.score(), pos.tapered_score_from_scratch());
        assert_eq!(pos.phase(), pos.calculate_board_phase());
        pos.undo_move(m);
        assert_eq!(pos.hash(), before_hash);
        assert_eq!(pos.score(), before_score);
    }
}

#[test]
fn capture_resets_the_clock_and_remove_piece() {
    let mut pos = Position::from_fen("4k4/9/9/9/4p4/4R4/9/9/9/3K5 w - - 7 1").unwrap();
    let m = Move::new(Square::E4, Square::E5);
    assert!(pos.is_capture(m));
    pos.do_move(m);
    assert_eq!(pos.sixtymove_clock(), 0);
    assert_eq!(pos.last_captured_piece(), Some(Piece::BlackPawn));
    assert_eq!(pos.remove_piece(Square::E5), Some(Piece::RedRook));
    assert!(pos.is_empty(Square::E5));
}

#[test]
fn repetition_verdicts() {
    let mut pos = Position::new();
    pos.set("4k4/9/9/9/3PP4/9/9/9/9/4K4 w - - 0 1").unwrap();
    let w1 = Move::new(Square::E0, Square::D0);
    let w2 = Move::new(Square::D0, Square::E0);
    let b1 = Move::new(Square::E9, Square::D9);
    let b2 = Move::new(Square::D9, Square::E9);
    pos.do_move(w1);
    pos.do_move(b1);
    pos.do_move(w2);
    pos.do_move(b2);
    pos.do_move(w1);
    pos.do_move(b1);
    assert_eq!(pos.rule_judge(6), Some(ZERO));

    let mut pos = Position::new();
    pos.set("3k5/9/9/9/9/9/9/9/3R5/4K4 w - - 0 1").unwrap();
    pos.do_move(Move::new(Square::D1, Square::D8));
    assert!(pos.is_side_in_check(Side::Black));
    pos.do_move(Move::new(Square::D9, Square::E9));
    pos.do_move(Move::new(Square::D8, Square::E8));
    assert!(pos.is_side_in_check(Side::Black));
    pos.do_move(Move::new(Square::E9, Square::D9));
    pos.do_move(Move::new(Square::E8, Square::D8));
    assert_eq!(pos.rule_judge(5), Some(mate_in(5)));
    assert!(pos.is_side_in_check(Side::Black));
}

#[test]
fn gives_check_and_legality() {
    let pos = Position::from_fen("3k5/9/9/9/9/9/9/9/3R5/4K4 w - - 0 1").unwrap();
    assert!(pos.gives_check(Move::new(Square::D1, Square::D8)));
    assert!(!pos.gives_check(Move::new(Square::D1, Square::C1)));
    let pinned = Position::from_fen("4k4/9/9/9/9/4R4/9/9/9/4K4 w - - 0 1").unwrap();
    assert!(!pinned.legal(Move::new(Square::E4, Square::D4)));
    assert!(pinned.legal(Move::new(Square::E4, Square::E5)));
}

#[test]
fn mod_test_knight_leg_pin() {
    let pos = Position::from_fen("4k4/9/9/9/9/9/9/5h3/5A3/4K4 w - - 0 1").unwrap();
    assert!(!pos.legal(Move::new(Square::F1, Square::E2)));
    assert!(!pos.legal(Move::new(Square::F1, Square::G2)));
    assert!(!pos.legal(Move::new(Square::F1, Square::E0)));
    assert!(!pos.legal(Move::new(Square::F1, Square::G0)));
}

#[test]
fn mod_test_rule_judge_insufficient_material() {
    let mut pos = Position::from_fen("4k4/9/9/9/9/9/9/9/9/4K4 w - - 0 1").unwrap();
    assert_eq!(pos.rule_judge(0), Some(DRAW));

    let mut pos = Position::from_fen("2b1kab2/9/9/9/9/9/9/9/9/2B1KAB2 w - - 0 1").unwrap();
    assert_eq!(pos.rule_judge(0), Some(DRAW));

    let mut pos = Position::from_fen("4k4/9/9/9/9/9/9/9/3C5/4K4 w - - 0 1").unwrap();
    assert_eq!(pos.rule_judge(0), Some(DRAW));
}

#[test]
fn mod_test_rule_judge_60_move_rule() {
    let mut pos = Position::from_fen("4k4/9/9/9/9/9/9/9/9/4K4 w - - 0 1").unwrap();

    let w_move1 = Move::new(Square::E0, Square::D0);
    let w_move2 = Move::new(Square::D0, Square::E0);
    let b_move1 = Move::new(Square::E9, Square::D9);
    let b_move2 = Move::new(Square::D9, Square::E9);

    for _ in 0..30 {
        pos.do_move(w_move1);
        pos.do_move(b_move1);
        pos.do_move(w_move2);
        pos.do_move(b_move2);
    }

    assert_eq!(pos.sixtymove_clock(), 120);
    assert_eq!(pos.rule_judge(0), Some(DRAW));
}

fn debug_helper(pos: &mut Position, depth: u32, history: &mut Vec<Move>) {
    if depth == 0 {
        return;
    }
    for m in legal_moves(pos) {
        let actual = pos.gives_check(m);
        pos.do_move(m);
        let expected = pos.is_side_in_check(pos.side_to_move());
        assert_eq!(actual, expected, "gives_check mismatch for {:?} after {:?}", m, history);
        history.push(m);
        debug_helper(pos, depth - 1, history);
        history.pop();
        pos.undo_move(m);
    }
}

#[test]
fn test_debug_gives_check() {
    let fen = "CRH1k1e2/3ca4/4ea3/9/2hr5/9/9/4E4/4A4/4KA3 w - - 0 1";
    let mut pos = Position::from_fen(fen).unwrap();
    let mut history = Vec::new();
    debug_helper(&mut pos, 3, &mut history);
}

#[test]
fn test_regression_cannon_gives_check() {
    let fen = "CRH1k1e2/3ca4/4ea3/9/2hr5/9/9/4E4/4A4/4KA3 w - - 0 1";
    let mut pos = Position::from_fen(fen).unwrap();

    let m1 = Move::new(Square::C9, Square::E8);
    assert!(pos.legal(m1));
    pos.do_move(m1);

    let m2 = Move::new(Square::E9, Square::E8);
    assert!(pos.legal(m2));
    pos.do_move(m2);

    let m3 = Move::new(Square::A9, Square::A8);
    assert!(pos.legal(m3));
    assert!(pos.gives_check(m3), "Cannon move a9a8 should give check");
}

#[test]
fn test_regression_knight_leg_pin_legality() {
    let fen = "4ka3/4a4/9/9/4H4/p8/9/4C3c/7h1/2EK5 w - - 0 1";
    let mut pos = Position::from_fen(fen).unwrap();

    let m1 = Move::new(Square::D0, Square::D1);
    pos.do_move(m1);

    let m2 = Move::new(Square::H1, Square::F2);
    pos.do_move(m2);

    let m3 = Move::new(Square::E2, Square::A2);
    assert!(
        !pos.legal(m3),
        "e2a2 should be illegal because it unblocks Black Knight leg check"
    );
}

#[test]
fn test_regression_cannon_pin_capture_legality() {
    let fen = "rheakaehr/9/1c5c1/p1p3p1p/4p4/4P4/P1P3P1P/4C2C1/9/RHEAKAEHR b - - 0 1";
    let pos = Position::from_fen(fen).unwrap();

    let m = Move::new(Square::E5, Square::E4);
    assert!(
        !pos.legal(m),
        "e5e4 should be illegal because it leaves only 1 blocker under Cannon pin"
    );
}

#[test]
fn test_print_board() {
    let pos = Position::new();
    println!("{}", pos.board_string());
}

#[test]
fn board_text_of_the_start_position() {
    let pos = Position::new();
    let expected = [
        "  +---------------------------+\n",
        "9 | r  h  e  a  k  a  e  h  r |\n",
        "8 | .  .  .  .  .  .  .  .  . |\n",
        "7 | .  c  .  .  .  .  .  c  . |\n",
        "6 | p  .  p  .  p  .  p  .  p |\n",
        "5 | .  .  .  .  .  .  .  .  . |\n",
        "4 | .  .  .  .  .  .  .  .  . |\n",
        "3 | P  .  P  .  P  .  P  .  P |\n",
        "2 | .  C  .  .  .  .  .  C  . |\n",
        "1 | .  .  .  .  .  .  .  .  . |\n",
        "0 | R  H  E  A  K  A  E  H  R |\n",
        "  +---------------------------+\n",
        "    a  b  c  d  e  f  g  h  i\n",
        "Side to move: Red\n",
    ]
    .concat();
    assert_eq!(pos.board_string(), expected);
    let black = Position::from_fen("4k4/9/9/9/9/9/9/9/9/4K4 b - - 0 1").unwrap();
    assert!(black.board_string().ends_with("Side to move: Black\n"));
}

#[test]
fn a_capture_removes_one_piece_and_resets_the_clock() {
    let mut pos = Position::from_fen("4k4/9/9/9/4p4/9/9/9/9/R3K4 w - - 7 20").unwrap();
    let hash = pos.zobrist_hash();
    let m = Move::new(Square::A0, Square::A5);
    pos.do_move(m);
    assert_eq!(pos.sixtymove_clock(), 8);
    pos.undo_move(m);
    assert_eq!(pos.sixtymove_clock(), 7);
    assert_eq!(pos.zobrist_hash(), hash);
    let mut pos = Position::from_fen("4k4/9/9/9/R3p4/9/9/9/9/4K4 w - - 7 20").unwrap();
    let hash = pos.zobrist_hash();
    let take = Move::new(Square::A5, Square::E5);
    assert_eq!(pos.piece_count(Piece::BlackPawn), 1);
    pos.do_move(take);
    assert_eq!(pos.piece_count(Piece::BlackPawn), 0);
    assert_eq!(pos.piece_at(Square::E5), Some(Piece::RedRook));
    assert_eq!(pos.piece_at(Square::A5), None);
    assert_eq!(pos.side_to_move(), Side::Black);
    assert_eq!(pos.sixtymove_clock(), 0);
    pos.undo_move(take);
    assert_eq!(pos.piece_count(Piece::BlackPawn), 1);
    assert_eq!(pos.piece_at(Square::E5), Some(Piece::BlackPawn));
    assert_eq!(pos.piece_at(Square::A5), Some(Piece::RedRook));
    assert_eq!(pos.side_to_move(), Side::Red);
    assert_eq!(pos.zobrist_hash(), hash);
}

#[test]
fn taking_back_a_king_capture_restores_the_position() {
    let mut pos = Position::from_fen("3k5/9/9/9/9/9/9/9/9/3RK4 w - - 3 10").unwrap();
    let hash = pos.zobrist_hash();
    let take = Move::new(Square::D0, Square::D9);
    pos.do_move(take);
    assert_eq!(pos.piece_at(Square::D9), Some(Piece::RedRook));
    assert_eq!(pos.piece_count(Piece::BlackKing), 0);
    assert_eq!(pos.sixtymove_clock(), 0);
    pos.undo_move(take);
    assert_eq!(pos.piece_at(Square::D9), Some(Piece::BlackKing));
    assert_eq!(pos.piece_at(Square::D0), Some(Piece::RedRook));
    assert_eq!(pos.piece_count(Piece::BlackKing), 1);
    assert_eq!(pos.king_square(Side::Black), Square::D9);
    assert_eq!(pos.king_square(Side::Red), Square::E0);
    assert_eq!(pos.sixtymove_clock(), 3);
    assert_eq!(pos.side_to_move(), Side::Red);
    assert_eq!(pos.zobrist_hash(), hash);
}

const PERFT_FENS: [&str; 11] = [
    "rheakaehr/9/1c5c1/p1p1p1p1p/9/9/P1P1P1P1P/1C5C1/9/RHEAKAEHR w - - 0 1",
    "r1ea1a3/4kh3/2h1e4/pHp1p1p1p/4c4/6P2/P1P2R2P/1CcC5/9/2EAKAE2 w - - 0 1",
    "1ceak4/9/h2a5/2p1p3p/5cp2/2h2H3/6PCP/3AE4/2C6/3A1K1H1 w - - 0 1",
    "5a3/3k5/3aR4/9/5r3/5h3/9/3A1A3/5K3/2EC2E2 w - - 0 1",
    "CRH1k1e2/3ca4/4ea3/9/2hr5/9/9/4E4/4A4/4KA3 w - - 0 1",
    "R1H1k1e2/9/3aea3/9/2hr5/2E6/9/4E4/4A4/4KA3 w - - 0 1",
    "C1hHk4/9/9/9/9/9/h1pp5/E3C4/9/3A1K3 w - - 0 1",
    "4ka3/4a4/9/9/4H4/p8/9/4C3c/7h1/2EK5 w - - 0 1",
    "2e1ka3/9/e3H4/4h4/9/9/9/4C4/2p6/2EK5 w - - 0 1",
    "1C2ka3/9/C1Hae1h2/p3p3p/6p2/9/P3P3P/3AE4/3p2c2/c1EAK4 w - - 0 1",
    "ChH1k1e2/c3a4/4ea3/9/2hr5/9/9/4C4/4A4/4KA3 w - - 0 1",
];

fn check_legal_and_gives_check(pos: &mut Position, depth: u32) {
    if depth == 0 {
        return;
    }
    let mut moves = MoveList::new();
    generate_moves(pos, MoveGenType::PseudoLegal, &mut moves);
    for &m in moves.iter() {
        let us = pos.side_to_move();
        let mut after = pos.clone();
        after.do_move(m);
        assert_eq!(pos.legal(m), !after.is_side_in_check(us));
        if pos.legal(m) {
            assert_eq!(pos.gives_check(m), after.is_side_in_check(after.side_to_move()));
            pos.do_move(m);
            check_legal_and_gives_check(pos, depth - 1);
            pos.undo_move(m);
        }
    }
}

#[test]
fn legality_and_checks_agree_with_playing_the_move() {
    for fen in PERFT_FENS {
        let mut pos = Position::from_fen(fen).unwrap();
        check_legal_and_gives_check(&mut pos, 3);
    }
}
