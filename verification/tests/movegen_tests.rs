use lingine::movegen::generate_moves;
use lingine::movelist::MoveList;
use lingine::position::Position;
use lingine::types::{Move, MoveGenType, Piece, PieceType, Side, Square};

fn count_moves(pos: &Position, gen_type: MoveGenType) -> usize {
    let mut moves = MoveList::new();
    generate_moves(pos, gen_type, &mut moves);
    moves.len()
}

fn has_move(pos: &Position, gen_type: MoveGenType, m: Move) -> bool {
    let mut moves = MoveList::new();
    generate_moves(pos, gen_type, &mut moves);
    moves.contains(&m)
}

fn moves_from(pos: &Position, from: Square) -> Vec<Move> {
    let mut moves = MoveList::new();
    generate_moves(pos, MoveGenType::Legal, &mut moves);
    moves.iter().filter(|m| m.square_from() == from).copied().collect()
}

#[test]
fn test_king_moves() {
    let pos = Position::from_fen("4k4/4a4/9/9/9/9/9/9/9/4K4 w - - 0 1").unwrap();
    let count = count_moves(&pos, MoveGenType::Legal);
    assert_eq!(count, 3);
    assert!(has_move(&pos, MoveGenType::Legal, Move::new(Square::E0, Square::D0)));
    assert!(has_move(&pos, MoveGenType::Legal, Move::new(Square::E0, Square::F0)));
    assert!(has_move(&pos, MoveGenType::Legal, Move::new(Square::E0, Square::E1)));

    let pos = Position::from_fen("4k4/4a4/9/9/9/9/9/9/4A4/4K4 w - - 0 1").unwrap();
    let king_moves = moves_from(&pos, Square::E0);
    assert_eq!(king_moves.len(), 2);
    assert!(king_moves.contains(&Move::new(Square::E0, Square::D0)));
    assert!(king_moves.contains(&Move::new(Square::E0, Square::F0)));
}

#[test]
fn test_advisor_moves() {
    let pos = Position::from_fen("4k4/4a4/9/9/9/9/9/9/4A4/4K4 w - - 0 1").unwrap();
    let adv_moves = moves_from(&pos, Square::E1);
    assert_eq!(adv_moves.len(), 4);
    assert!(adv_moves.contains(&Move::new(Square::E1, Square::D0)));
    assert!(adv_moves.contains(&Move::new(Square::E1, Square::F0)));
    assert!(adv_moves.contains(&Move::new(Square::E1, Square::D2)));
    assert!(adv_moves.contains(&Move::new(Square::E1, Square::F2)));

    let pos = Position::from_fen("4k4/4a4/9/9/9/9/9/9/9/3AK4 w - - 0 1").unwrap();
    let adv_moves = moves_from(&pos, Square::D0);
    assert_eq!(adv_moves.len(), 1);
    assert!(adv_moves.contains(&Move::new(Square::D0, Square::E1)));
}

#[test]
fn test_bishop_moves() {
    let pos = Position::from_fen("4k4/4a4/9/9/9/9/9/9/9/2B1K4 w - - 0 1").unwrap();
    let bish_moves = moves_from(&pos, Square::C0);
    assert_eq!(bish_moves.len(), 2);
    assert!(bish_moves.contains(&Move::new(Square::C0, Square::A2)));
    assert!(bish_moves.contains(&Move::new(Square::C0, Square::E2)));

    let pos = Position::from_fen("4k4/4a4/9/9/9/9/9/9/3p5/2B1K4 w - - 0 1").unwrap();
    let bish_moves = moves_from(&pos, Square::C0);
    assert_eq!(bish_moves.len(), 1);
    assert!(bish_moves.contains(&Move::new(Square::C0, Square::A2)));
}

#[test]
fn test_knight_moves() {
    let pos = Position::from_fen("4k4/4a4/9/9/9/9/9/4H4/9/4K4 w - - 0 1").unwrap();
    let kn_moves = moves_from(&pos, Square::E2);
    assert_eq!(kn_moves.len(), 8);

    let pos = Position::from_fen("4k4/4a4/9/9/9/9/4p4/4H4/9/4K4 w - - 0 1").unwrap();
    let kn_moves = moves_from(&pos, Square::E2);
    assert_eq!(kn_moves.len(), 6);
    assert!(!kn_moves.contains(&Move::new(Square::E2, Square::D4)));
    assert!(!kn_moves.contains(&Move::new(Square::E2, Square::F4)));
}

#[test]
fn test_pawn_moves() {
    let pos = Position::from_fen("4k4/4a4/9/9/9/9/2P6/9/9/4K4 w - - 0 1").unwrap();
    let pawn_moves = moves_from(&pos, Square::C3);
    assert_eq!(pawn_moves.len(), 1);
    assert!(pawn_moves.contains(&Move::new(Square::C3, Square::C4)));

    let pos = Position::from_fen("4k4/4a4/9/2P6/9/9/9/9/9/4K4 w - - 0 1").unwrap();
    let pawn_moves = moves_from(&pos, Square::C6);
    assert_eq!(pawn_moves.len(), 3);
    assert!(pawn_moves.contains(&Move::new(Square::C6, Square::C7)));
    assert!(pawn_moves.contains(&Move::new(Square::C6, Square::B6)));
    assert!(pawn_moves.contains(&Move::new(Square::C6, Square::D6)));
}

#[test]
fn test_rook_moves() {
    let pos = Position::from_fen("3k5/9/9/9/4R4/9/9/9/9/4K4 w - - 0 1").unwrap();
    let r_moves = moves_from(&pos, Square::E5);
    assert_eq!(r_moves.len(), 16);

    let pos = Position::from_fen("4k4/4a4/9/4A4/4R4/9/4p4/9/9/4K4 w - - 0 1").unwrap();
    let r_moves = moves_from(&pos, Square::E5);
    assert_eq!(r_moves.len(), 10);
    assert!(r_moves.contains(&Move::new(Square::E5, Square::E3)));
    assert!(!r_moves.contains(&Move::new(Square::E5, Square::E6)));
}

#[test]
fn test_cannon_moves() {
    let pos = Position::from_fen("3k5/9/9/9/4C4/9/9/9/9/4K4 w - - 0 1").unwrap();
    let c_moves = moves_from(&pos, Square::E5);
    assert_eq!(c_moves.len(), 16);

    let pos = Position::from_fen("3k5/4r4/9/4A4/4C4/9/9/9/9/4K4 w - - 0 1").unwrap();
    let c_moves = moves_from(&pos, Square::E5);
    assert_eq!(c_moves.len(), 13);
    assert!(c_moves.contains(&Move::new(Square::E5, Square::E8)));
}

#[test]
fn test_facing_kings() {
    let pos = Position::from_fen("4k4/9/9/9/9/4R4/9/9/9/4K4 w - - 0 1").unwrap();
    let r_moves = moves_from(&pos, Square::E3);
    for m in r_moves {
        assert_eq!(m.square_to().index() % 9, 4);
    }
}

fn assert_positions_equal(a: &mut Position, b: &mut Position) {
    assert_eq!(a.side_to_move(), b.side_to_move());
    assert_eq!(a.zobrist_hash(), b.zobrist_hash());
    for sq_val in 0..90 {
        let sq = Square::from_repr(sq_val).unwrap();
        assert_eq!(a.piece_at(sq), b.piece_at(sq));
        assert_eq!(a.is_empty(sq), b.is_empty(sq));
    }
    for color in [Side::Red, Side::Black] {
        assert_eq!(a.king_square(color), b.king_square(color));
        assert_eq!(a.is_side_in_check(color), b.is_side_in_check(color));
        assert_eq!(a.bitboard_by_color(color), b.bitboard_by_color(color));
    }
    for repr in 0..7u8 {
        let pt = PieceType::from_repr(repr).unwrap();
        assert_eq!(a.bitboard_by_type(pt), b.bitboard_by_type(pt));
    }
    for repr in 0..15u8 {
        if let Some(piece) = Piece::from_repr(repr) {
            assert_eq!(a.piece_count(piece), b.piece_count(piece));
        }
    }
    assert_eq!(a.rule_judge(0), b.rule_judge(0));
}

#[test]
fn test_position_restored_after_move_generation() {
    let fens = [
        "rnbakabnr/9/1c5c1/p1p1p1p1p/9/9/P1P1P1P1P/1C5C1/9/RNBAKABNR w - - 0 1",
        "3akab2/9/2n1b4/2p1p1p1C/2R3r2/6P2/P1P1P3P/1C2c1N11/9/RN2KAB1r b - - 0 12",
        "4k4/9/9/9/9/4R4/9/9/9/4K4 w - - 0 1",
        "4k4/9/9/9/9/9/9/5h3/5A3/4K4 w - - 0 1",
    ];
    let gen_types = [
        MoveGenType::Legal,
        MoveGenType::PseudoLegal,
        MoveGenType::Quiets,
        MoveGenType::Captures,
        MoveGenType::Evasions,
    ];
    for fen in fens {
        let mut pos = Position::from_fen(fen).unwrap();
        for gen_type in gen_types {
            let mut pos_before = pos.clone();
            let mut moves = MoveList::new();
            generate_moves(&pos, gen_type, &mut moves);
            assert_positions_equal(&mut pos, &mut pos_before);
        }
    }
}

fn generated(pos: &Position, gen_type: MoveGenType) -> Vec<Move> {
    let mut moves = MoveList::new();
    generate_moves(pos, gen_type, &mut moves);
    moves.iter().copied().collect()
}

#[test]
fn captures_and_quiets_split_the_legal_moves_in_order() {
    let pos = Position::from_fen(
        "rnbakabnr/9/1c5c1/p1p1p1p1p/9/9/P1P1P1P1P/1C5C1/9/RNBAKABNR w - - 0 1",
    )
    .unwrap();
    let legal = generated(&pos, MoveGenType::Legal);
    let captures: Vec<Move> = legal.iter().filter(|m| pos.is_capture(**m)).copied().collect();
    let quiets: Vec<Move> = legal.iter().filter(|m| pos.is_quiet(**m)).copied().collect();
    assert_eq!(generated(&pos, MoveGenType::Captures), captures);
    assert_eq!(generated(&pos, MoveGenType::Quiets), quiets);
    assert_eq!(generated(&pos, MoveGenType::Evasions), legal);
    assert_eq!(captures.len(), 2);
    assert_eq!(captures.len() + quiets.len(), 44);
    let mut seen = legal.clone();
    seen.sort_by_key(|m| m.0);
    seen.dedup();
    assert_eq!(seen.len(), legal.len());
}
