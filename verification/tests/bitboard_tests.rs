use lingine::bitboard::Bitboard;
use lingine::types::{File, Rank, Side, Square};

#[test]
fn test_print_palace() {
    println!("{}", Bitboard::palaces().to_string());
}

#[test]
fn bitboard_test_print_rank_bitboard() {
    println!("{}", Bitboard::rank(Rank::R0).to_string());
    println!("{}", Bitboard::rank(Rank::R1).to_string());
    println!("{}", Bitboard::rank(Rank::R2).to_string());
    println!("{}", Bitboard::from_rank(Rank::R0).to_string());
    println!("{}", Bitboard::from_rank(Rank::R1).to_string());
    println!("{}", Bitboard::from_rank(Rank::R2).to_string());
}

#[test]
fn bitboard_test_print_file_bitboard() {
    println!("{}", Bitboard::file(File::FA).to_string());
    println!("{}", Bitboard::file(File::FB).to_string());
    println!("{}", Bitboard::file(File::FC).to_string());
    println!("{}", Bitboard::from_file(File::FA).to_string());
    println!("{}", Bitboard::from_file(File::FB).to_string());
    println!("{}", Bitboard::from_file(File::FC).to_string());
}

#[test]
fn test_print_pawn_file_bitboard() {
    println!("{}", Bitboard::pawn_file().to_string());
}

#[test]
fn test_print_white_side_bitboard() {
    println!("{}", Bitboard::side(Side::Red).to_string());
}

#[test]
fn bitboard_test_print_black_side_bitboard() {
    println!("{}", Bitboard::side(Side::Black).to_string());
}

#[test]
fn test_print_pawn_bitboard() {
    println!("{}", Bitboard::pawn(Side::Red).to_string());
    println!("{}", Bitboard::pawn(Side::Black).to_string());
}

#[test]
fn test_print_red_side_bitboard() {
    println!("{}", Bitboard::side(Side::Red).to_string());
}

#[test]
fn board_text_marks_exactly_the_squares() {
    let text = Bitboard::from_square(Square::A0).to_string();
    let lines: Vec<&str> = text.lines().collect();
    assert_eq!(lines.len(), 22);
    assert_eq!(lines[0], "+---+---+---+---+---+---+---+---+---+");
    assert_eq!(lines[1], "|   |   |   |   |   |   |   |   |   | 9");
    assert_eq!(lines[19], "| X |   |   |   |   |   |   |   |   | 0");
    assert_eq!(lines[21], "  a   b   c   d   e   f   g   h   i");
    assert_eq!(text.matches('X').count(), 1);
    assert_eq!(Bitboard::side(Side::Red).to_string().matches('X').count(), 45);
}

#[test]
fn bitboard_set_operations() {
    let mut b = Bitboard::new();
    assert!(b.is_empty());
    b.set_bit(Square::E4);
    b.set_bit(Square::A0);
    assert!(b.is_occupied(Square::E4));
    assert_eq!(b.count_ones(), 2);
    assert_eq!(b.pop_lsb(), Some(Square::A0));
    assert_eq!(b.pop_lsb(), Some(Square::E4));
    assert_eq!(b.pop_lsb(), None);
    b.set_bit(Square::I9);
    b.clear_bit(Square::I9);
    assert!(b.is_empty());
    assert_eq!(Bitboard::rank(Rank::R0).count_ones(), 9);
    assert_eq!(Bitboard::file(File::FE).count_ones(), 10);
    assert_eq!(Bitboard::palaces().count_ones(), 18);
    assert_eq!(Bitboard::pawn_file().count_ones(), 50);
}
