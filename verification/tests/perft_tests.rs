use lingine::perft::{Perft, PerftExpected};
use lingine::perft_positions::parse_positions;

fn assert_perft(fen: &str, depth: u32, nodes: u64, checks: u64, captures: u64, mates: u64) {
    let result = Perft::perft(fen, depth).unwrap();
    let expected = PerftExpected { depth, nodes, checks, captures, mates };
    assert_eq!(result, expected, "Mismatch at depth {} for FEN {}", depth, fen);
}

#[test]
fn test_perft_position_1() {
    let fen = "rheakaehr/9/1c5c1/p1p1p1p1p/9/9/P1P1P1P1P/1C5C1/9/RHEAKAEHR w - - 0 1";
    assert_perft(fen, 1, 44, 0, 2, 0);
    assert_perft(fen, 2, 1920, 6, 72, 0);
    assert_perft(fen, 3, 79666, 384, 3159, 0);
    assert_perft(fen, 4, 3290240, 19380, 115365, 0);
}

#[test]
fn test_perft_position_2() {
    let fen = "r1ea1a3/4kh3/2h1e4/pHp1p1p1p/4c4/6P2/P1P2R2P/1CcC5/9/2EAKAE2 w - - 0 1";
    assert_perft(fen, 1, 38, 1, 1, 0);
    assert_perft(fen, 2, 1128, 12, 10, 0);
    assert_perft(fen, 3, 43929, 1190, 2105, 0);
    assert_perft(fen, 4, 1339047, 21299, 31409, 23);
}

#[test]
fn test_perft_position_3() {
    let fen = "1ceak4/9/h2a5/2p1p3p/5cp2/2h2H3/6PCP/3AE4/2C6/3A1K1H1 w - - 0 1";
    assert_perft(fen, 1, 7, 0, 0, 0);
    assert_perft(fen, 2, 281, 9, 10, 0);
    assert_perft(fen, 3, 8620, 64, 540, 0);
    assert_perft(fen, 4, 326201, 10121, 11730, 0);
    assert_perft(fen, 5, 10369923, 162542, 660479, 3);
}

#[test]
fn test_perft_position_4() {
    let fen = "5a3/3k5/3aR4/9/5r3/5h3/9/3A1A3/5K3/2EC2E2 w - - 0 1";
    assert_perft(fen, 1, 25, 3, 2, 0);
    assert_perft(fen, 2, 424, 9, 6, 0);
    assert_perft(fen, 3, 9850, 963, 771, 0);
    assert_perft(fen, 4, 202884, 8699, 9179, 12);
    assert_perft(fen, 5, 4739553, 380858, 326535, 161);
}

#[test]
fn test_perft_position_5() {
    let fen = "CRH1k1e2/3ca4/4ea3/9/2hr5/9/9/4E4/4A4/4KA3 w - - 0 1";
    assert_perft(fen, 1, 28, 12, 1, 0);
    assert_perft(fen, 2, 516, 15, 7, 0);
    assert_perft(fen, 3, 14808, 3041, 675, 0);
    assert_perft(fen, 4, 395483, 12444, 11485, 162);
    assert_perft(fen, 5, 11842230, 1254024, 590801, 495);
}

#[test]
fn test_perft_position_6() {
    let fen = "R1H1k1e2/9/3aea3/9/2hr5/2E6/9/4E4/4A4/4KA3 w - - 0 1";
    assert_perft(fen, 1, 21, 4, 1, 0);
    assert_perft(fen, 2, 364, 16, 22, 0);
    assert_perft(fen, 3, 7626, 784, 502, 0);
    assert_perft(fen, 4, 162837, 5865, 10683, 17);
    assert_perft(fen, 5, 3500505, 236182, 241214, 24);
}

#[test]
fn test_perft_position_7() {
    let fen = "C1hHk4/9/9/9/9/9/h1pp5/E3C4/9/3A1K3 w - - 0 1";
    assert_perft(fen, 1, 28, 2, 0, 0);
    assert_perft(fen, 2, 222, 0, 12, 0);
    assert_perft(fen, 3, 6241, 464, 40, 0);
    assert_perft(fen, 4, 64971, 105, 4966, 0);
    assert_perft(fen, 5, 1914306, 116319, 17459, 0);
}

#[test]
fn test_perft_position_8() {
    let fen = "4ka3/4a4/9/9/4H4/p8/9/4C3c/7h1/2EK5 w - - 0 1";
    assert_perft(fen, 1, 23, 8, 1, 0);
    assert_perft(fen, 2, 345, 4, 6, 0);
    assert_perft(fen, 3, 8124, 1524, 179, 0);
    assert_perft(fen, 4, 149272, 3201, 2857, 32);
    assert_perft(fen, 5, 3513104, 390765, 57928, 274);
}

#[test]
fn test_perft_position_9() {
    let fen = "2e1ka3/9/e3H4/4h4/9/9/9/4C4/2p6/2EK5 w - - 0 1";
    assert_perft(fen, 1, 21, 6, 1, 0);
    assert_perft(fen, 2, 195, 28, 30, 0);
    assert_perft(fen, 3, 3883, 411, 135, 0);
    assert_perft(fen, 4, 48060, 6419, 6087, 0);
    assert_perft(fen, 5, 933096, 71759, 26841, 0);
}

#[test]
fn test_perft_position_10() {
    let fen = "1C2ka3/9/C1Hae1h2/p3p3p/6p2/9/P3P3P/3AE4/3p2c2/c1EAK4 w - - 0 1";
    assert_perft(fen, 1, 30, 2, 3, 0);
    assert_perft(fen, 2, 830, 55, 64, 0);
    assert_perft(fen, 3, 22787, 858, 2163, 0);
    assert_perft(fen, 4, 649866, 39719, 57076, 65);
    assert_perft(fen, 5, 17920736, 518816, 1625453, 44);
}

#[test]
fn test_perft_position_11() {
    let fen = "ChH1k1e2/c3a4/4ea3/9/2hr5/9/9/4C4/4A4/4KA3 w - - 0 1";
    assert_perft(fen, 1, 19, 3, 2, 0);
    assert_perft(fen, 2, 583, 15, 14, 0);
    assert_perft(fen, 3, 11714, 1680, 880, 0);
    assert_perft(fen, 4, 376467, 12434, 14459, 2);
    assert_perft(fen, 5, 8148177, 988563, 537908, 362);
}

#[test]
fn positions_file_records() {
    let text = "# standard positions\n---\nindex: 1\ndescription: Initial position: both sides\nfen: rheakaehr/9/1c5c1/p1p1p1p1p/9/9/P1P1P1P1P/1C5C1/9/RHEAKAEHR w - - 0 1\nexpected:\n1, 44, 0, 2, 0\n 2 ,1920, 6,72, 0\r\n---\nindex: x\nfen: abc\n---\n   \n---\nindex: +2\nfen:  4k4/9/9/9/9/9/9/9/9/4K4 w  \n# a comment\nexpected:\nnot, a, count, line, here\n1, 4, 0, 0\n1, 4, 0, 0, 0\nindex: 7\n";
    let positions = parse_positions(text);
    assert_eq!(positions.len(), 2);

    assert_eq!(positions[0].index, 1);
    assert_eq!(positions[0].description, "Initial position: both sides");
    assert_eq!(
        positions[0].fen,
        "rheakaehr/9/1c5c1/p1p1p1p1p/9/9/P1P1P1P1P/1C5C1/9/RHEAKAEHR w - - 0 1"
    );
    assert_eq!(
        positions[0].expected,
        vec![
            PerftExpected { depth: 1, nodes: 44, checks: 0, captures: 2, mates: 0 },
            PerftExpected { depth: 2, nodes: 1920, checks: 6, captures: 72, mates: 0 },
        ]
    );

    assert_eq!(positions[1].index, 2);
    assert_eq!(positions[1].description, "");
    assert_eq!(positions[1].fen, "4k4/9/9/9/9/9/9/9/9/4K4 w");
    assert_eq!(
        positions[1].expected,
        vec![PerftExpected { depth: 1, nodes: 4, checks: 0, captures: 0, mates: 0 }]
    );
}

#[test]
fn positions_file_without_records() {
    assert!(parse_positions("").is_empty());
    assert!(parse_positions("------").is_empty());
    assert!(parse_positions("index: 0\nfen: 9/9 w").is_empty());
    assert!(parse_positions("index: 3\ndescription: no fen").is_empty());
    assert!(parse_positions("index: 99999999999999999999999\nfen: 9/9 w").is_empty());
    let one = parse_positions("index: 5\nfen: 9/9 w\nexpected:\n18446744073709551615, 1, 1, 1, 1\n4294967295, 1, 1, 1, 1");
    assert_eq!(one.len(), 1);
    assert_eq!(one[0].index, 5);
    assert_eq!(
        one[0].expected,
        vec![PerftExpected { depth: 4294967295, nodes: 1, checks: 1, captures: 1, mates: 1 }]
    );
}

