//! Material values, piece-square tables, game-phase weights and the bonus tables of
//! the evaluation.
use crate::score::PackedScore;
use crate::types::{Piece, PieceType, Side, Square, lemma_square_idx};
use vstd::prelude::*;

verus! {

broadcast use lemma_square_idx;

/// Positional values of the king from Red's side, indexed by square (rank-major).
pub const PST_KING: [i32; 90] = [
    0, 0, 0, -3, 0, -3, 0, 0, 0,
    0, 0, 0, -10, -15, -10, 0, 0, 0,
    0, 0, 0, -20, -25, -20, 0, 0, 0,
    0, 0, 0, 0, 0, 0, 0, 0, 0,
    0, 0, 0, 0, 0, 0, 0, 0, 0,
    0, 0, 0, 0, 0, 0, 0, 0, 0,
    0, 0, 0, 0, 0, 0, 0, 0, 0,
    0, 0, 0, 0, 0, 0, 0, 0, 0,
    0, 0, 0, 0, 0, 0, 0, 0, 0,
    0, 0, 0, 0, 0, 0, 0, 0, 0,
];

/// Positional values of the advisor from Red's side, indexed by square (rank-major).
pub const PST_ADVISOR: [i32; 90] = [
    0, 0, 0, 0, 0, 0, 0, 0, 0,
    0, 0, 0, 0, 15, 0, 0, 0, 0,
    0, 0, 0, 5, 0, 5, 0, 0, 0,
    0, 0, 0, 0, 0, 0, 0, 0, 0,
    0, 0, 0, 0, 0, 0, 0, 0, 0,
    0, 0, 0, 0, 0, 0, 0, 0, 0,
    0, 0, 0, 0, 0, 0, 0, 0, 0,
    0, 0, 0, 0, 0, 0, 0, 0, 0,
    0, 0, 0, 0, 0, 0, 0, 0, 0,
    0, 0, 0, 0, 0, 0, 0, 0, 0,
];

/// Positional values of the bishop from Red's side, indexed by square (rank-major).
pub const PST_BISHOP: [i32; 90] = [
    0, 0, 0, 0, 0, 0, 0, 0, 0,
    0, 0, 0, 0, 0, 0, 0, 0, 0,
    -2, 0, 0, 0, 10, 0, 0, 0, -2,
    0, 0, 0, 0, 0, 0, 0, 0, 0,
    0, 0, 5, 0, 0, 0, 5, 0, 0,
    0, 0, 0, 0, 0, 0, 0, 0, 0,
    0, 0, 0, 0, 0, 0, 0, 0, 0,
    0, 0, 0, 0, 0, 0, 0, 0, 0,
    0, 0, 0, 0, 0, 0, 0, 0, 0,
    0, 0, 0, 0, 0, 0, 0, 0, 0,
];

/// Positional values of the knight from Red's side, indexed by square (rank-major).
pub const PST_KNIGHT: [i32; 90] = [
    -10, -10, -5, -5, -5, -5, -5, -10, -10,
    -5, 0, 5, 5, 5, 5, 5, 0, -5,
    -3, 5, 10, 10, 10, 10, 10, 5, -3,
    -2, 5, 10, 12, 15, 12, 10, 5, -2,
    -2, 8, 12, 15, 18, 15, 12, 8, -2,
    0, 10, 15, 20, 22, 20, 15, 10, 0,
    0, 12, 18, 22, 25, 22, 18, 12, 0,
    -2, 10, 15, 20, 22, 20, 15, 10, -2,
    -5, 5, 10, 12, 15, 12, 10, 5, -5,
    -10, -5, 0, 0, 0, 0, 0, -5, -10,
];

/// Positional values of the rook from Red's side, indexed by square (rank-major).
pub const PST_ROOK: [i32; 90] = [
    -5, 0, 2, 5, 5, 5, 2, 0, -5,
    0, 2, 5, 8, 10, 8, 5, 2, 0,
    0, 2, 5, 8, 10, 8, 5, 2, 0,
    2, 5, 8, 10, 12, 10, 8, 5, 2,
    2, 5, 8, 10, 12, 10, 8, 5, 2,
    5, 8, 10, 12, 15, 12, 10, 8, 5,
    5, 10, 12, 15, 18, 15, 12, 10, 5,
    10, 12, 15, 18, 20, 18, 15, 12, 10,
    15, 18, 20, 22, 25, 22, 20, 18, 15,
    10, 15, 18, 20, 22, 20, 18, 15, 10,
];

/// Positional values of the cannon from Red's side, indexed by square (rank-major).
pub const PST_CANNON: [i32; 90] = [
    -5, 0, 0, 0, 0, 0, 0, 0, -5,
    0, 5, 5, 5, 5, 5, 5, 5, 0,
    0, 5, 5, 8, 8, 8, 5, 5, 0,
    0, 5, 8, 10, 10, 10, 8, 5, 0,
    0, 5, 8, 10, 10, 10, 8, 5, 0,
    2, 8, 10, 12, 12, 12, 10, 8, 2,
    2, 8, 10, 12, 12, 12, 10, 8, 2,
    0, 5, 8, 10, 10, 10, 8, 5, 0,
    0, 2, 5, 5, 5, 5, 5, 2, 0,
    5, 10, 10, 10, 10, 10, 10, 10, 5,
];

/// Positional values of the pawn from Red's side, indexed by square (rank-major).
pub const PST_PAWN: [i32; 90] = [
    0, 0, 0, 0, 0, 0, 0, 0, 0,
    0, 0, 0, 0, 0, 0, 0, 0, 0,
    0, 0, 0, 0, 0, 0, 0, 0, 0,
    0, 0, 2, 0, 3, 0, 2, 0, 0,
    2, 2, 5, 5, 8, 5, 5, 2, 2,
    5, 8, 12, 15, 18, 15, 12, 8, 5,
    8, 12, 18, 22, 25, 22, 18, 12, 8,
    10, 15, 22, 26, 30, 26, 22, 15, 10,
    10, 18, 25, 30, 35, 30, 25, 18, 10,
    5, 8, 10, 12, 15, 12, 10, 8, 5,
];

/// Middlegame mobility bonus of a knight by number of reachable squares.
pub const KNIGHT_MOBILITY_MG: [i32; 9] = [-16, 1, 14, 34, 44, 52, 61, 67, 64];

/// Endgame mobility bonus of a knight by number of reachable squares.
pub const KNIGHT_MOBILITY_EG: [i32; 9] = [-91, -23, -1, 11, 4, 16, -3, 6, 9];

/// Middlegame mobility bonus of a rook by number of reachable squares.
pub const ROOK_MOBILITY_MG: [i32; 18] = [-61, -31, -1, 21, 40, 60, 68, 64, 71, 81, 83, 99, 105, 105, 105, 111, 102, 91];

/// Endgame mobility bonus of a rook by number of reachable squares.
pub const ROOK_MOBILITY_EG: [i32; 18] = [-50, -48, -2, 15, 28, 46, 48, 96, 102, 105, 100, 83, 83, 90, 59, 29, 35, 33];

/// Middlegame mobility bonus of a cannon by number of reachable squares.
pub const CANNON_MOBILITY_MG: [i32; 18] = [-33, 32, 34, 52, 58, 71, 74, 67, 72, 76, 75, 84, 94, 94, 88, 99, 101, 114];

/// Endgame mobility bonus of a cannon by number of reachable squares.
pub const CANNON_MOBILITY_EG: [i32; 18] = [-48, 20, 47, 34, 29, 24, 34, 46, 33, 34, 42, 30, 19, 27, 27, 28, 22, 9];

/// Middlegame bonus for having 0, 1 or 2 advisors.
pub const ADVISOR_COUNT_MG: [i32; 3] = [-45, 50, 26];

/// Endgame bonus for having 0, 1 or 2 advisors.
pub const ADVISOR_COUNT_EG: [i32; 3] = [34, 18, -14];

/// Middlegame bonus for having 0, 1 or 2 bishops.
pub const BISHOP_COUNT_MG: [i32; 3] = [-23, 13, 48];

/// Endgame bonus for having 0, 1 or 2 bishops.
pub const BISHOP_COUNT_EG: [i32; 3] = [40, 17, -25];
// Game-phase weights (32-point model).
pub const PHASE_ROOK: u8 = 2;

pub const PHASE_CANNON: u8 = 2;

pub const PHASE_KNIGHT: u8 = 2;

pub const PHASE_ADVISOR: u8 = 1;

pub const PHASE_BISHOP: u8 = 1;

pub const PHASE_PAWN: u8 = 0;

pub const PHASE_KING: u8 = 0;

/// The phase of the starting position: every weighted piece still on the board.
pub const MAX_PHASE: u8 = 32;

/// The phase weight of a piece type.
pub open spec fn phase_weight_spec(pt: PieceType) -> int {
    match pt {
        PieceType::Rook => 2,
        PieceType::Cannon => 2,
        PieceType::Knight => 2,
        PieceType::Advisor => 1,
        PieceType::Bishop => 1,
        PieceType::Pawn => 0,
        PieceType::King => 0,
    }
}

/// Gets the phase weight of a piece type.
pub fn piece_phase_weight(pt: PieceType) -> (r: u8)
    ensures
        r == phase_weight_spec(pt),
        r <= 2,
{
    match pt {
        PieceType::Rook => PHASE_ROOK,
        PieceType::Cannon => PHASE_CANNON,
        PieceType::Knight => PHASE_KNIGHT,
        PieceType::Advisor => PHASE_ADVISOR,
        PieceType::Bishop => PHASE_BISHOP,
        PieceType::Pawn => PHASE_PAWN,
        PieceType::King => PHASE_KING,
    }
}

/// The square index from which a piece of `side` reads the Red-perspective tables:
/// the square itself for Red, the square mirrored in both files and ranks for Black.
pub open spec fn table_index(side: Side, s: int) -> int {
    if side == Side::Red {
        s
    } else {
        89 - s
    }
}

/// The positional value of a piece of type `pt` and side `side` on square `s`.
pub open spec fn pst_spec(pt: PieceType, side: Side, s: int) -> int {
    let i = table_index(side, s);
    match pt {
        PieceType::King => PST_KING@[i] as int,
        PieceType::Advisor => PST_ADVISOR@[i] as int,
        PieceType::Bishop => PST_BISHOP@[i] as int,
        PieceType::Knight => PST_KNIGHT@[i] as int,
        PieceType::Rook => PST_ROOK@[i] as int,
        PieceType::Cannon => PST_CANNON@[i] as int,
        PieceType::Pawn => PST_PAWN@[i] as int,
    }
}

/// Every positional value lies within -25..=35.
pub proof fn lemma_pst_bounds(pt: PieceType, side: Side, s: int)
    requires
        0 <= s < 90,
    ensures
        -25 <= pst_spec(pt, side, s) <= 35,
{
    assert(forall|i: int| 0 <= i < 90 ==> -25 <= #[trigger] PST_KING@[i] <= 35);
    assert(forall|i: int| 0 <= i < 90 ==> -25 <= #[trigger] PST_ADVISOR@[i] <= 35);
    assert(forall|i: int| 0 <= i < 90 ==> -25 <= #[trigger] PST_BISHOP@[i] <= 35);
    assert(forall|i: int| 0 <= i < 90 ==> -25 <= #[trigger] PST_KNIGHT@[i] <= 35);
    assert(forall|i: int| 0 <= i < 90 ==> -25 <= #[trigger] PST_ROOK@[i] <= 35);
    assert(forall|i: int| 0 <= i < 90 ==> -25 <= #[trigger] PST_CANNON@[i] <= 35);
    assert(forall|i: int| 0 <= i < 90 ==> -25 <= #[trigger] PST_PAWN@[i] <= 35);
}

/// Returns the piece-square table value of a piece type and side on a square. Black
/// squares are mirrored vertically and horizontally.
pub fn piece_square_table_value(piece_type: PieceType, color: Side, sq: Square) -> (r: i32)
    ensures
        r == pst_spec(piece_type, color, sq.idx()),
{
    let index: usize = match color {
        Side::Red => sq.index() as usize,
        Side::Black => {
            let file = (sq.index() % 9) as usize;
            let rank = (sq.index() / 9) as usize;
            let mirrored_rank = 9 - rank;
            let mirrored_file = 8 - file;
            mirrored_rank * 9 + mirrored_file
        },
    };
    match piece_type {
        PieceType::King => PST_KING[index],
        PieceType::Advisor => PST_ADVISOR[index],
        PieceType::Bishop => PST_BISHOP[index],
        PieceType::Knight => PST_KNIGHT[index],
        PieceType::Rook => PST_ROOK[index],
        PieceType::Cannon => PST_CANNON[index],
        PieceType::Pawn => PST_PAWN[index],
    }
}

/// Whether a pawn of `side` on rank `r` has crossed the river.
pub open spec fn pawn_crossed(side: Side, r: int) -> bool {
    if side == Side::Red {
        r >= 5
    } else {
        r <= 4
    }
}

/// The single-phase material value of a piece on a square.
pub open spec fn material_spec(piece: Piece, s: int) -> int {
    match piece.piece_type_spec() {
        PieceType::Rook => 600,
        PieceType::Cannon => 285,
        PieceType::Knight => 270,
        PieceType::Bishop => 120,
        PieceType::Advisor => 110,
        PieceType::Pawn => if pawn_crossed(piece.color_spec(), Square::rank_of(s)) {
            70
        } else {
            30
        },
        PieceType::King => 0,
    }
}

/// Returns a piece's material value, with pawns worth more once they have crossed
/// the river.
pub fn piece_material_value(piece: Piece, sq: Square) -> (r: i32)
    ensures
        r == material_spec(piece, sq.idx()),
{
    match piece {
        Piece::RedRook | Piece::BlackRook => 600,
        Piece::RedCannon | Piece::BlackCannon => 285,
        Piece::RedKnight | Piece::BlackKnight => 270,
        Piece::RedBishop | Piece::BlackBishop => 120,
        Piece::RedAdvisor | Piece::BlackAdvisor => 110,
        Piece::RedPawn => if sq.index() / 9 >= 5 {
            70
        } else {
            30
        },
        Piece::BlackPawn => if sq.index() / 9 <= 4 {
            70
        } else {
            30
        },
        Piece::RedKing | Piece::BlackKing => 0,
    }
}

/// The (middlegame, endgame) material value of a piece on a square.
pub open spec fn material_tapered_spec(piece: Piece, s: int) -> (int, int) {
    match piece.piece_type_spec() {
        PieceType::Rook => (900, 950),
        PieceType::Cannon => (450, 400),
        PieceType::Knight => (400, 450),
        PieceType::Bishop => (200, 200),
        PieceType::Advisor => (200, 200),
        PieceType::Pawn => if pawn_crossed(piece.color_spec(), Square::rank_of(s)) {
            (200, 300)
        } else {
            (100, 100)
        },
        PieceType::King => (0, 0),
    }
}

/// Returns a piece's middlegame and endgame material value, with pawns worth more once
/// they have crossed the river.
pub fn piece_material_value_tapered(piece: Piece, sq: Square) -> (r: PackedScore)
    ensures
        (r.mg as int, r.eg as int) == material_tapered_spec(piece, sq.idx()),
{
    match piece {
        Piece::RedRook | Piece::BlackRook => PackedScore::new(900, 950),
        Piece::RedCannon | Piece::BlackCannon => PackedScore::new(450, 400),
        Piece::RedKnight | Piece::BlackKnight => PackedScore::new(400, 450),
        Piece::RedBishop | Piece::BlackBishop => PackedScore::new(200, 200),
        Piece::RedAdvisor | Piece::BlackAdvisor => PackedScore::new(200, 200),
        Piece::RedPawn => if sq.index() / 9 >= 5 {
            PackedScore::new(200, 300)
        } else {
            PackedScore::new(100, 100)
        },
        Piece::BlackPawn => if sq.index() / 9 <= 4 {
            PackedScore::new(200, 300)
        } else {
            PackedScore::new(100, 100)
        },
        Piece::RedKing | Piece::BlackKing => PackedScore::zero(),
    }
}

/// The (middlegame, endgame) positional value of a piece on a square: the
/// single-phase table value in both phases.
pub open spec fn pst_tapered_spec(piece: Piece, s: int) -> (int, int) {
    let v = pst_spec(piece.piece_type_spec(), piece.color_spec(), s);
    (v, v)
}

/// Returns the tapered piece-square table value of a piece type and side on a square.
pub fn piece_square_table_value_tapered(piece_type: PieceType, color: Side, sq: Square) -> (r:
    PackedScore)
    ensures
        r.mg == pst_spec(piece_type, color, sq.idx()),
        r.eg == pst_spec(piece_type, color, sq.idx()),
{
    let v = piece_square_table_value(piece_type, color, sq);
    PackedScore::new(v, v)
}

/// The full (material plus positional) contribution of a piece on a square, from its
/// own side's perspective.
#[verifier::opaque]
pub open spec fn piece_value_spec(piece: Piece, s: int) -> (int, int) {
    let m = material_tapered_spec(piece, s);
    let p = pst_tapered_spec(piece, s);
    (m.0 + p.0, m.1 + p.1)
}

/// Material plus positional value lies within -25..=985 in both phases.
pub proof fn lemma_piece_value_bounds(piece: Piece, s: int)
    requires
        0 <= s < 90,
    ensures
        -25 <= piece_value_spec(piece, s).0 <= 985,
        -25 <= piece_value_spec(piece, s).1 <= 985,
{
    reveal(piece_value_spec);
    lemma_pst_bounds(piece.piece_type_spec(), piece.color_spec(), s);
}

/// The contribution of a piece on a square, computed as in the incremental score.
pub fn piece_value(piece: Piece, sq: Square) -> (r: PackedScore)
    ensures
        (r.mg as int, r.eg as int) == piece_value_spec(piece, sq.idx()),
{
    let m = piece_material_value_tapered(piece, sq);
    let p = piece_square_table_value_tapered(piece.piece_type(), piece.color(), sq);
    proof {
        reveal(piece_value_spec);
        lemma_piece_value_bounds(piece, sq.idx());
    }
    m.add(p)
}


/// Pawns are worth more across the river, by board rank: a red pawn is worth
/// (200, 300) on ranks 5 to 9 and (100, 100) on ranks 0 to 4, a black pawn
/// (200, 300) on ranks 0 to 4 and (100, 100) on ranks 5 to 9; in single-phase
/// values, 70 and 30 the same way.
pub proof fn lemma_pawn_values_by_rank(s: int)
    requires
        0 <= s < 90,
    ensures
        material_tapered_spec(Piece::RedPawn, s) == (if s / 9 >= 5 {
            (200int, 300int)
        } else {
            (100int, 100int)
        }),
        material_tapered_spec(Piece::BlackPawn, s) == (if s / 9 <= 4 {
            (200int, 300int)
        } else {
            (100int, 100int)
        }),
        material_spec(Piece::RedPawn, s) == (if s / 9 >= 5 {
            70int
        } else {
            30int
        }),
        material_spec(Piece::BlackPawn, s) == (if s / 9 <= 4 {
            70int
        } else {
            30int
        }),
{
}

} // verus!
