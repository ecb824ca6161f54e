use lingine::bitboard::Bitboard;
use lingine::leapers::{bishop_attacks, king_attacks, advisor_attacks, knight_attacks};
use lingine::sliding::{
    cannon_attacks, cannon_beyond_attacks, cannon_captures, gather_file_bits, rook_attacks,
    squares_between, squares_beyond, squares_in_line,
};
use lingine::types::Square;

fn check_gather_file_bits() {
    assert_eq!(gather_file_bits(0, 0), 0);
    let bits_a0 = 1u128 << 0;
    assert_eq!(gather_file_bits(bits_a0, 0), 1 << 0);
    let bits_a9 = 1u128 << (9 * 9);
    assert_eq!(gather_file_bits(bits_a9, 0), 1 << 9);
    let bits_a3_a7 = (1u128 << (3 * 9)) | (1u128 << (7 * 9));
    assert_eq!(gather_file_bits(bits_a3_a7, 0), (1 << 3) | (1 << 7));
    let bits_e5 = 1u128 << (5 * 9 + 4);
    assert_eq!(gather_file_bits(bits_e5, 4), 1 << 5);
}

#[test]
fn attacks_test_gather_file_bits() {
    check_gather_file_bits();
}

#[test]
fn queries_test_gather_file_bits() {
    check_gather_file_bits();
}

fn check_bishop_blocking() {
    let unblocked_attacks = bishop_attacks(Square::C0, Bitboard::new());
    println!("{}", unblocked_attacks.to_string());
    let mut expected = 0u128;
    expected |= 1u128 << (2 * 9);
    expected |= 1u128 << (2 * 9 + 4);
    assert_eq!(unblocked_attacks.raw(), expected);

    let blocked_attacks = bishop_attacks(Square::C0, Bitboard::from_square(Square::D1));
    println!("{}", blocked_attacks.to_string());
    let mut expected_blocked = 0u128;
    expected_blocked |= 1u128 << (2 * 9);
    assert_eq!(blocked_attacks.raw(), expected_blocked);
}

#[test]
fn attacks_test_bishop_blocking() {
    check_bishop_blocking();
}

#[test]
fn queries_test_bishop_blocking() {
    check_bishop_blocking();
}

fn check_rook_attacks() {
    let empty = Bitboard::new();
    let att_a0 = rook_attacks(Square::A0, empty);
    let mut expected_mask = 0u128;
    for f in 1..9 {
        expected_mask |= 1u128 << f;
    }
    for r in 1..10 {
        expected_mask |= 1u128 << (r * 9);
    }
    assert_eq!(att_a0.raw(), expected_mask);

    let blocked = Bitboard::from_raw((1u128 << (2 * 9)) | (1u128 << 1));
    let att_a0_blocked = rook_attacks(Square::A0, blocked);
    let mut expected_blocked_mask = 0u128;
    expected_blocked_mask |= 1u128 << 1;
    expected_blocked_mask |= 1u128 << 9;
    expected_blocked_mask |= 1u128 << (2 * 9);
    assert_eq!(att_a0_blocked.raw(), expected_blocked_mask);
}

#[test]
fn attacks_test_rook_attacks() {
    check_rook_attacks();
}

#[test]
fn queries_test_rook_attacks() {
    check_rook_attacks();
}

#[test]
fn test_cannon_attacks() {
    let occupied = Bitboard::from_raw((1u128 << (2 * 9)) | (1u128 << (5 * 9)));
    assert_eq!(cannon_attacks(Square::A0, Bitboard::new()).raw(), 0);
    assert_eq!(cannon_attacks(Square::A0, occupied).raw(), 1u128 << (5 * 9));

    let mut expected = 0u128;
    expected |= 1u128 << 3;
    expected |= 1u128 << 5;
    expected |= 1u128 << (9 + 4);
    assert_eq!(king_attacks(Square::E0).raw(), expected);

    let mut expected_adv = 0u128;
    expected_adv |= 1u128 << 3;
    expected_adv |= 1u128 << 5;
    expected_adv |= 1u128 << (2 * 9 + 3);
    expected_adv |= 1u128 << (2 * 9 + 5);
    assert_eq!(advisor_attacks(Square::E1).raw(), expected_adv);
}

#[test]
fn test_cannon_attack_ray() {
    let empty = Bitboard::new();
    let att_cannon_a0 = cannon_captures(Square::A0, empty);
    assert_eq!(att_cannon_a0.raw(), 0);

    let occupied = Bitboard::from_raw((1u128 << (2 * 9)) | (1u128 << (5 * 9)));
    let att_cannon_blocked = cannon_captures(Square::A0, occupied);
    assert_eq!(att_cannon_blocked.raw(), 1u128 << (5 * 9));

    let ray = cannon_beyond_attacks(Square::A0, occupied);
    let mut expected_ray = 0u128;
    expected_ray |= 1u128 << (3 * 9);
    expected_ray |= 1u128 << (4 * 9);
    expected_ray |= 1u128 << (5 * 9);
    assert_eq!(ray.raw(), expected_ray);

    let mut expected = 0u128;
    expected |= 1u128 << 3;
    expected |= 1u128 << 5;
    expected |= 1u128 << (9 + 4);
    assert_eq!(king_attacks(Square::E0).raw(), expected);

    let advisor_e1 = advisor_attacks(Square::E1);
    let mut expected_adv = 0u128;
    expected_adv |= 1u128 << 3;
    expected_adv |= 1u128 << 5;
    expected_adv |= 1u128 << (2 * 9 + 3);
    expected_adv |= 1u128 << (2 * 9 + 5);
    assert_eq!(advisor_e1.raw(), expected_adv);
}

#[test]
fn test_squares_between_and_beyond() {
    let between_a0_a3 = squares_between(Square::A0, Square::A3);
    let mut expected_between = Bitboard::new();
    expected_between.set_bit(Square::A1);
    expected_between.set_bit(Square::A2);
    expected_between.set_bit(Square::A3);
    assert_eq!(between_a0_a3, expected_between);

    let between_d1_f2 = squares_between(Square::D1, Square::F2);
    let mut expected_knight_leg = Bitboard::new();
    expected_knight_leg.set_bit(Square::E2);
    expected_knight_leg.set_bit(Square::F2);
    assert_eq!(between_d1_f2, expected_knight_leg);

    let beyond_a0_a3 = squares_beyond(Square::A0, Square::A3);
    let mut expected_beyond = Bitboard::new();
    expected_beyond.set_bit(Square::A3);
    expected_beyond.set_bit(Square::A4);
    expected_beyond.set_bit(Square::A5);
    expected_beyond.set_bit(Square::A6);
    expected_beyond.set_bit(Square::A7);
    expected_beyond.set_bit(Square::A8);
    expected_beyond.set_bit(Square::A9);
    assert_eq!(beyond_a0_a3, expected_beyond);
}

#[test]
fn squares_in_line_and_off_line() {
    let line = squares_in_line(Square::A0, Square::A3);
    assert_eq!(line.count_ones(), 10);
    assert!(squares_in_line(Square::A0, Square::B2).is_empty());
    assert!(squares_between(Square::A0, Square::C5).is_empty());
    assert!(squares_beyond(Square::A0, Square::B1).is_empty());
}

#[test]
fn knight_jumps_blocked_by_leg() {
    assert_eq!(knight_attacks(Square::E2, Bitboard::new()).count_ones(), 8);
    let leg = Bitboard::from_square(Square::E3);
    let blocked = knight_attacks(Square::E2, leg);
    assert_eq!(blocked.count_ones(), 6);
    assert!(!blocked.is_occupied(Square::D4));
    assert!(!blocked.is_occupied(Square::F4));
}

fn on_line_with_clear_path(from: u8, to: u8, occ: u128) -> (bool, usize) {
    let (ff, fr) = ((from % 9) as i32, (from / 9) as i32);
    let (tf, tr) = ((to % 9) as i32, (to / 9) as i32);
    if from == to || (ff != tf && fr != tr) {
        return (false, 0);
    }
    let (df, dr) = ((tf - ff).signum(), (tr - fr).signum());
    let mut between = 0usize;
    let (mut f, mut r) = (ff + df, fr + dr);
    while (f, r) != (tf, tr) {
        if occ & (1u128 << (r * 9 + f)) != 0 {
            between += 1;
        }
        f += df;
        r += dr;
    }
    (true, between)
}

#[test]
fn rook_and_cannon_rays_follow_their_lines() {
    let occ: u128 = (1u128 << 4) | (1u128 << 22) | (1u128 << 40) | (1u128 << 44) | (1u128 << 67)
        | (1u128 << 76) | (1u128 << 85) | (1u128 << 31);
    let board = Bitboard::from_raw(occ);
    for from in 0..90u8 {
        let sq = Square::from_repr(from).unwrap();
        let rook = rook_attacks(sq, board);
        let cannon = cannon_captures(sq, board);
        for to in 0..90u8 {
            let t = Square::from_repr(to).unwrap();
            let (line, between) = on_line_with_clear_path(from, to, occ);
            let occupied = occ & (1u128 << to) != 0;
            assert_eq!(rook.is_occupied(t), line && between == 0);
            assert_eq!(cannon.is_occupied(t), line && between == 1 && occupied);
        }
    }
}
