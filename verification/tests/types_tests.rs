use lingine::types::{Color, File, Move, Piece, PieceType, Rank, Side, Square};

#[test]
fn test_color_opposite() {
    assert_eq!(Color::White.opposite(), Color::Black);
    assert_eq!(Color::Black.opposite(), Color::White);
}

fn check_square_conversions() {
    let sq_a0 = Square::from_file_rank(File::FA, Rank::R0);
    assert_eq!(sq_a0, Square::A0);
    assert_eq!(sq_a0.file(), File::FA);
    assert_eq!(sq_a0.rank(), Rank::R0);

    let sq_i9 = Square::from_file_rank(File::FI, Rank::R9);
    assert_eq!(sq_i9, Square::I9);
    assert_eq!(sq_i9.file(), File::FI);
    assert_eq!(sq_i9.rank(), Rank::R9);

    let sq_e4 = Square::from_file_rank(File::FE, Rank::R4);
    assert_eq!(sq_e4, Square::E4);
    assert_eq!(sq_e4.file(), File::FE);
    assert_eq!(sq_e4.rank(), Rank::R4);
}

#[test]
fn types_test_square_conversions() {
    check_square_conversions();
}

#[test]
fn location_test_square_conversions() {
    check_square_conversions();
}

#[test]
fn types_test_move_encoding() {
    let m_quiet = Move::new(Square::A0, Square::I9);
    assert_eq!(m_quiet.square_from(), Square::A0);
    assert_eq!(m_quiet.square_to(), Square::I9);
    assert_eq!(m_quiet.flags(), 0);
    assert!(!m_quiet.is_none());

    let m_flags = Move::new_with_flags(Square::E4, Square::E5, 3);
    assert_eq!(m_flags.square_from(), Square::E4);
    assert_eq!(m_flags.square_to(), Square::E5);
    assert_eq!(m_flags.flags(), 3);
    assert!(!m_flags.is_none());

    let m_none = Move::none();
    assert!(m_none.is_none());

    assert_eq!(m_quiet.to_string(), "A0 to I9");
}

#[test]
fn move_test_move_encoding() {
    let m_quiet = Move::new(Square::A0, Square::I9);
    assert_eq!(m_quiet.square_from(), Square::A0);
    assert_eq!(m_quiet.square_to(), Square::I9);
    assert_eq!(m_quiet.to_uci_string(), "a0i9");
}

#[test]
fn pieces_test_piece_properties() {
    assert_eq!(Piece::RedRook.color(), (Side::Red));
    assert_eq!(Piece::RedRook.piece_type(), PieceType::Rook);

    assert_eq!(Piece::BlackKing.color(), (Side::Black));
    assert_eq!(Piece::BlackKing.piece_type(), PieceType::King);

    assert_eq!(Piece::RedAdvisor.color(), (Side::Red));
    assert_eq!(Piece::RedAdvisor.piece_type(), PieceType::Advisor);

    assert_eq!(Piece::BlackCannon.color(), (Side::Black));
    assert_eq!(Piece::BlackCannon.piece_type(), PieceType::Cannon);

    assert_eq!(Piece::RedPawn.color(), (Side::Red));
    assert_eq!(Piece::RedPawn.piece_type(), PieceType::Pawn);

    assert_eq!(Piece::BlackKnight.color(), (Side::Black));
    assert_eq!(Piece::BlackKnight.piece_type(), PieceType::Knight);

    assert_eq!(Piece::RedBishop.color(), (Side::Red));
    assert_eq!(Piece::RedBishop.piece_type(), PieceType::Bishop);
}

#[test]
fn test_side_opposite() {
    assert_eq!(Side::Red.opposite(), Side::Black);
    assert_eq!(Side::Black.opposite(), Side::Red);
}

#[test]
fn representations_round_trip() {
    for i in 0..90u8 {
        let sq = Square::from_repr(i).unwrap();
        assert_eq!(sq.index(), i);
        assert_eq!(Square::from_file_rank(sq.file(), sq.rank()), sq);
    }
    assert_eq!(Square::from_repr(90), None);
    assert_eq!(Piece::all().len(), 14);
    for p in Piece::all() {
        assert_eq!(p.piece_type().to_piece(p.color()), p);
        assert_eq!(Piece::from_repr(p.index() as u8), Some(p));
    }
    assert_eq!(Piece::from_repr(7), None);
    assert_eq!(Side::Red.signum(), 1);
    assert_eq!(Side::Black.signum(), -1);
}

#[test]
fn types_test_piece_properties() {
    assert_eq!(Piece::RedRook.color(), Side::Red);
    assert_eq!(Piece::RedRook.piece_type(), PieceType::Rook);

    assert_eq!(Piece::BlackKing.color(), Side::Black);
    assert_eq!(Piece::BlackKing.piece_type(), PieceType::King);

    assert_eq!(Piece::RedAdvisor.color(), Side::Red);
    assert_eq!(Piece::RedAdvisor.piece_type(), PieceType::Advisor);

    assert_eq!(Piece::BlackCannon.color(), Side::Black);
    assert_eq!(Piece::BlackCannon.piece_type(), PieceType::Cannon);

    assert_eq!(Piece::RedPawn.color(), Side::Red);
    assert_eq!(Piece::RedPawn.piece_type(), PieceType::Pawn);

    assert_eq!(Piece::BlackKnight.color(), Side::Black);
    assert_eq!(Piece::BlackKnight.piece_type(), PieceType::Knight);

    assert_eq!(Piece::RedBishop.color(), Side::Red);
    assert_eq!(Piece::RedBishop.piece_type(), PieceType::Bishop);

    assert_eq!(Piece::from_repr(7), None);
}
