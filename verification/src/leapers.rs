//! Moves of the pieces that step or leap: king, advisor, bishop (elephant), knight
//! (horse) and pawn, and the reverse patterns used to find attackers of a square.
use crate::bitboard::{Bitboard, bit, lemma_bit_ops, lemma_bit_single, lemma_zero_iff_no_bits};
use crate::types::{Side, Square, lemma_square_idx};
use vstd::prelude::*;

verus! {

broadcast use lemma_square_idx;

/// The index of the square on file `f` and rank `r`.
pub open spec fn sq_at(f: int, r: int) -> int {
    r * 9 + f
}

/// Whether file `f` and rank `r` lie on the board.
pub open spec fn on(f: int, r: int) -> bool {
    0 <= f < 9 && 0 <= r < 10
}

pub open spec fn abs(x: int) -> int {
    if x < 0 {
        -x
    } else {
        x
    }
}

pub open spec fn sign(x: int) -> int {
    if x > 0 {
        1
    } else if x < 0 {
        -1
    } else {
        0
    }
}

/// File and rank of a square index are recovered from `sq_at`.
pub broadcast proof fn lemma_sq_at(f: int, r: int)
    requires
        on(f, r),
    ensures
        0 <= #[trigger] sq_at(f, r) < 90,
        Square::file_of(sq_at(f, r)) == f,
        Square::rank_of(sq_at(f, r)) == r,
{
}

/// Every board index is the index of its file and rank.
pub broadcast proof fn lemma_coords(t: int)
    requires
        0 <= t < 90,
    ensures
        on(Square::file_of(t), Square::rank_of(t)),
        #[trigger] sq_at(Square::file_of(t), Square::rank_of(t)) == t,
{
}

/// The palace (0 = Red, 1 = Black) a file/rank lies in, if any.
pub open spec fn palace_of(f: int, r: int) -> int {
    if 3 <= f <= 5 && 0 <= r <= 2 {
        0
    } else if 3 <= f <= 5 && 7 <= r <= 9 {
        1
    } else {
        -1
    }
}

/// Squares a king on `s` steps to: one orthogonal step, staying in its palace.
pub open spec fn king_set(s: int) -> Set<int> {
    let f = Square::file_of(s);
    let r = Square::rank_of(s);
    Set::new(
        |t: int|
            0 <= t < 90 && palace_of(f, r) >= 0 && palace_of(Square::file_of(t), Square::rank_of(t))
                == palace_of(f, r) && abs(Square::file_of(t) - f) + abs(Square::rank_of(t) - r)
                == 1,
    )
}

/// Squares an advisor on `s` steps to: one diagonal step, staying in its palace.
pub open spec fn advisor_set(s: int) -> Set<int> {
    let f = Square::file_of(s);
    let r = Square::rank_of(s);
    Set::new(
        |t: int|
            0 <= t < 90 && palace_of(f, r) >= 0 && palace_of(Square::file_of(t), Square::rank_of(t))
                == palace_of(f, r) && abs(Square::file_of(t) - f) == 1 && abs(Square::rank_of(t) - r)
                == 1,
    )
}

/// Whether a pawn of `side` has crossed the river when standing on rank `r`.
pub open spec fn crossed(side: Side, r: int) -> bool {
    if side == Side::Red {
        r >= 5
    } else {
        r <= 4
    }
}

/// The rank direction in which pawns of `side` advance.
pub open spec fn forward(side: Side) -> int {
    if side == Side::Red {
        1
    } else {
        -1
    }
}

/// Squares a pawn of `side` on `s` attacks: one step forward, and one step sideways
/// once it has crossed the river.
pub open spec fn pawn_set(s: int, side: Side) -> Set<int> {
    let f = Square::file_of(s);
    let r = Square::rank_of(s);
    Set::new(
        |t: int|
            0 <= t < 90 && ((Square::file_of(t) == f && Square::rank_of(t) == r + forward(side)) || (
            crossed(side, r) && Square::rank_of(t) == r && abs(Square::file_of(t) - f) == 1)),
    )
}

/// Squares from which a pawn of `side` attacks `s`.
pub open spec fn pawn_to_set(s: int, side: Side) -> Set<int> {
    Set::new(|p: int| 0 <= p < 90 && pawn_set(p, side).contains(s))
}

/// Squares a knight on `s` jumps to given the occupancy `occ`: two steps along one
/// axis and one along the other, provided the adjacent square along the two-step
/// axis (the leg) is empty.
pub open spec fn knight_set(s: int, occ: Set<int>) -> Set<int> {
    let f = Square::file_of(s);
    let r = Square::rank_of(s);
    Set::new(
        |t: int|
            {
                let df = Square::file_of(t) - f;
                let dr = Square::rank_of(t) - r;
                0 <= t < 90 && ((abs(dr) == 2 && abs(df) == 1 && !occ.contains(
                    sq_at(f, r + sign(dr)),
                )) || (abs(dr) == 1 && abs(df) == 2 && !occ.contains(sq_at(f + sign(df), r))))
            },
    )
}

/// Squares from which a knight reaches `s` given the occupancy `occ`.
pub open spec fn knight_to_set(s: int, occ: Set<int>) -> Set<int> {
    Set::new(|o: int| 0 <= o < 90 && knight_set(o, occ).contains(s))
}

/// Squares a bishop (elephant) on `s` reaches given `occ`: two diagonal steps, when the
/// intermediate square (the eye) is empty, without crossing the river.
pub open spec fn bishop_set(s: int, occ: Set<int>) -> Set<int> {
    let f = Square::file_of(s);
    let r = Square::rank_of(s);
    Set::new(
        |t: int|
            {
                let df = Square::file_of(t) - f;
                let dr = Square::rank_of(t) - r;
                0 <= t < 90 && abs(dr) == 2 && abs(df) == 2 && (r < 5) == (Square::rank_of(t) < 5)
                    && !occ.contains(sq_at(f + sign(df), r + sign(dr)))
            },
    )
}

/// The set of board squares whose bit is set in `x`.
pub open spec fn bits_set(x: u128) -> Set<int> {
    Set::new(|i: int| bit(x, i))
}

/// Adds the square on file `tf`, rank `tr` to `mask` when `cond` holds and the square
/// is on the board.
fn add_target(mask: u128, tf: i8, tr: i8, cond: bool) -> (r: u128)
    requires
        -3 <= tf <= 11,
        -3 <= tr <= 12,
    ensures
        bits_set(r) == if cond && on(tf as int, tr as int) {
            bits_set(mask).insert(sq_at(tf as int, tr as int))
        } else {
            bits_set(mask)
        },
{
    if cond && tf >= 0 && tf < 9 && tr >= 0 && tr < 10 {
        let idx = (tr as u128) * 9 + (tf as u128);
        let r = mask | (1u128 << idx);
        proof {
            assert forall|i: int| #[trigger] bits_set(r).contains(i) == bits_set(mask).insert(
                sq_at(tf as int, tr as int),
            ).contains(i) by {
                if 0 <= i < 128 {
                    lemma_bit_ops(mask, 1u128 << idx, i);
                    lemma_bit_single(idx, i);
                }
            }
            assert(bits_set(r) =~= bits_set(mask).insert(sq_at(tf as int, tr as int)));
        }
        r
    } else {
        mask
    }
}

/// Whether the square on file `f`, rank `r` is in `occ` (squares off the board are
/// never occupied).
fn occupied_at(occ: u128, f: i8, r: i8) -> (b: bool)
    requires
        -3 <= f <= 11,
        -3 <= r <= 12,
    ensures
        b == (on(f as int, r as int) && bits_set(occ).contains(sq_at(f as int, r as int))),
{
    if f >= 0 && f < 9 && r >= 0 && r < 10 {
        let idx = (r as u128) * 9 + (f as u128);
        assert(((occ & (1u128 << idx)) != 0) == ((occ >> idx) & 1u128 == 1u128)) by (bit_vector)
            requires
                idx < 128,
        ;
        (occ & (1u128 << idx)) != 0
    } else {
        false
    }
}

proof fn lemma_empty_bits()
    ensures
        bits_set(0) == Set::<int>::empty(),
{
    lemma_zero_iff_no_bits(0);
    assert(bits_set(0) =~= Set::<int>::empty());
}

/// Destinations of a one-step palace piece on `from_sq` moving in the four given
/// directions `(df, dr)`, restricted to the palace the piece stands in.
fn palace_step_attacks(from_sq: Square, diagonal: bool) -> (mask: u128)
    ensures
        bits_set(mask) == if diagonal {
            advisor_set(from_sq.idx())
        } else {
            king_set(from_sq.idx())
        },
{
    let f = (from_sq.index() % 9) as i8;
    let r = (from_sq.index() / 9) as i8;
    let ghost s = from_sq.idx();
    let in_red = (f >= 3 && f <= 5) && (r >= 0 && r <= 2);
    let in_black = (f >= 3 && f <= 5) && (r >= 7 && r <= 9);
    proof {
        lemma_empty_bits();
    }
    if !in_red && !in_black {
        proof {
            if diagonal {
                assert(advisor_set(s) =~= Set::<int>::empty());
            } else {
                assert(king_set(s) =~= Set::<int>::empty());
            }
        }
        return 0;
    }
    let (lo, hi) = if in_red {
        (0i8, 2i8)
    } else {
        (7i8, 9i8)
    };
    let mut mask = 0u128;
    if diagonal {
        mask = add_target(mask, f + 1, r + 1, f + 1 <= 5 && r + 1 <= hi);
        mask = add_target(mask, f - 1, r + 1, f - 1 >= 3 && r + 1 <= hi);
        mask = add_target(mask, f + 1, r - 1, f + 1 <= 5 && r - 1 >= lo);
        mask = add_target(mask, f - 1, r - 1, f - 1 >= 3 && r - 1 >= lo);
        proof {
            let spec_set = advisor_set(s);
            assert forall|t: int| #[trigger] bits_set(mask).contains(t) == spec_set.contains(t) by {
                if 0 <= t < 90 {
                    lemma_coords(t);
                }
            }
            assert(bits_set(mask) =~= spec_set);
        }
    } else {
        mask = add_target(mask, f, r + 1, r + 1 <= hi);
        mask = add_target(mask, f, r - 1, r - 1 >= lo);
        mask = add_target(mask, f + 1, r, f + 1 <= 5);
        mask = add_target(mask, f - 1, r, f - 1 >= 3);
        proof {
            let spec_set = king_set(s);
            assert forall|t: int| #[trigger] bits_set(mask).contains(t) == spec_set.contains(t) by {
                if 0 <= t < 90 {
                    lemma_coords(t);
                }
            }
            assert(bits_set(mask) =~= spec_set);
        }
    }
    mask
}

/// The pawn attack mask for a pawn on file `f`, rank `r`, advancing by `forward_dr`
/// ranks: the square ahead, and once `promoted` (across the river) the two squares
/// beside it.
fn pawn_attacks_from(f: i8, r: i8, forward_dr: i8, promoted: bool) -> (mask: u128)
    requires
        on(f as int, r as int),
        forward_dr == 1 || forward_dr == -1,
    ensures
        bits_set(mask) == Set::new(
            |t: int|
                0 <= t < 90 && ((Square::file_of(t) == f && Square::rank_of(t) == r + forward_dr)
                    || (promoted && Square::rank_of(t) == r && abs(Square::file_of(t) - f) == 1)),
        ),
{
    proof {
        lemma_empty_bits();
    }
    let mut mask = 0u128;
    mask = add_target(mask, f, r + forward_dr, true);
    mask = add_target(mask, f - 1, r, promoted);
    mask = add_target(mask, f + 1, r, promoted);
    proof {
        let spec_set = Set::new(
            |t: int|
                0 <= t < 90 && ((Square::file_of(t) == f && Square::rank_of(t) == r + forward_dr)
                    || (promoted && Square::rank_of(t) == r && abs(Square::file_of(t) - f) == 1)),
        );
        assert forall|t: int| #[trigger] bits_set(mask).contains(t) == spec_set.contains(t) by {
            if 0 <= t < 90 {
                lemma_coords(t);
            }
        }
        assert(bits_set(mask) =~= spec_set);
    }
    mask
}

/// Knight jumps from `from_sq` given the occupancy `occ`. For each of the four leg
/// directions whose leg square is empty, the two landing squares beyond it are added.
fn knight_jumps(from_sq: Square, occ: u128) -> (mask: u128)
    ensures
        bits_set(mask) == knight_set(from_sq.idx(), bits_set(occ)),
{
    let f = (from_sq.index() % 9) as i8;
    let r = (from_sq.index() / 9) as i8;
    let ghost s = from_sq.idx();
    proof {
        lemma_empty_bits();
    }
    let mut mask = 0u128;
    // Leg up: targets two ranks up.
    let up = !occupied_at(occ, f, r + 1) && r + 1 < 10;
    mask = add_target(mask, f - 1, r + 2, up);
    mask = add_target(mask, f + 1, r + 2, up);
    // Leg down.
    let down = !occupied_at(occ, f, r - 1) && r - 1 >= 0;
    mask = add_target(mask, f - 1, r - 2, down);
    mask = add_target(mask, f + 1, r - 2, down);
    // Leg right.
    let right = !occupied_at(occ, f + 1, r) && f + 1 < 9;
    mask = add_target(mask, f + 2, r - 1, right);
    mask = add_target(mask, f + 2, r + 1, right);
    // Leg left.
    let left = !occupied_at(occ, f - 1, r) && f - 1 >= 0;
    mask = add_target(mask, f - 2, r - 1, left);
    mask = add_target(mask, f - 2, r + 1, left);
    proof {
        let spec_set = knight_set(s, bits_set(occ));
        assert forall|t: int| #[trigger] bits_set(mask).contains(t) == spec_set.contains(t) by {
            if 0 <= t < 90 {
                lemma_coords(t);
            }
        }
        assert(bits_set(mask) =~= spec_set);
    }
    mask
}

/// Bishop (elephant) moves from `from_sq` given `occ`: two diagonal steps with an
/// empty eye square, never crossing the river.
fn bishop_jumps(from_sq: Square, occ: u128) -> (mask: u128)
    ensures
        bits_set(mask) == bishop_set(from_sq.idx(), bits_set(occ)),
{
    let f = (from_sq.index() % 9) as i8;
    let r = (from_sq.index() / 9) as i8;
    let ghost s = from_sq.idx();
    proof {
        lemma_empty_bits();
    }
    let mut mask = 0u128;
    mask = add_target(mask, f + 2, r + 2, !occupied_at(occ, f + 1, r + 1) && (r < 5) == (r + 2 < 5));
    mask = add_target(mask, f - 2, r + 2, !occupied_at(occ, f - 1, r + 1) && (r < 5) == (r + 2 < 5));
    mask = add_target(mask, f + 2, r - 2, !occupied_at(occ, f + 1, r - 1) && (r < 5) == (r - 2 < 5));
    mask = add_target(mask, f - 2, r - 2, !occupied_at(occ, f - 1, r - 1) && (r < 5) == (r - 2 < 5));
    proof {
        let spec_set = bishop_set(s, bits_set(occ));
        assert forall|t: int| #[trigger] bits_set(mask).contains(t) == spec_set.contains(t) by {
            if 0 <= t < 90 {
                lemma_coords(t);
            }
        }
        assert(bits_set(mask) =~= spec_set);
    }
    mask
}

/// Squares from which a knight could jump onto `sq` given `occ`: for each of the eight
/// candidate origins, the origin counts when its leg square (diagonally adjacent to
/// `sq`, toward the origin) is empty.
fn knight_to_jumps(sq: Square, occ: u128) -> (mask: u128)
    ensures
        bits_set(mask) == knight_to_set(sq.idx(), bits_set(occ)),
{
    let f = (sq.index() % 9) as i8;
    let r = (sq.index() / 9) as i8;
    let ghost s = sq.idx();
    proof {
        lemma_empty_bits();
    }
    let mut mask = 0u128;
    mask = add_target(mask, f + 1, r + 2, !occupied_at(occ, f + 1, r + 1));
    mask = add_target(mask, f - 1, r + 2, !occupied_at(occ, f - 1, r + 1));
    mask = add_target(mask, f + 1, r - 2, !occupied_at(occ, f + 1, r - 1));
    mask = add_target(mask, f - 1, r - 2, !occupied_at(occ, f - 1, r - 1));
    mask = add_target(mask, f + 2, r + 1, !occupied_at(occ, f + 1, r + 1));
    mask = add_target(mask, f - 2, r + 1, !occupied_at(occ, f - 1, r + 1));
    mask = add_target(mask, f + 2, r - 1, !occupied_at(occ, f + 1, r - 1));
    mask = add_target(mask, f - 2, r - 1, !occupied_at(occ, f - 1, r - 1));
    proof {
        let spec_set = knight_to_set(s, bits_set(occ));
        assert forall|t: int| #[trigger] bits_set(mask).contains(t) == spec_set.contains(t) by {
            if 0 <= t < 90 {
                lemma_coords(t);
                assert(knight_set(t, bits_set(occ)).contains(s) == spec_set.contains(t));
            }
        }
        assert(bits_set(mask) =~= spec_set);
    }
    mask
}

/// Squares the king on `square` can step to (palace-confined, one orthogonal step).
/// Friendly pieces are not filtered.
pub fn king_attacks(square: Square) -> (b: Bitboard)
    ensures
        b@ == king_set(square.idx()),
{
    Bitboard(palace_step_attacks(square, false))
}

/// Squares the advisor on `square` can step to (palace-confined, one diagonal step).
/// Friendly pieces are not filtered.
pub fn advisor_attacks(square: Square) -> (b: Bitboard)
    ensures
        b@ == advisor_set(square.idx()),
{
    Bitboard(palace_step_attacks(square, true))
}

/// Squares the bishop on `square` can move to given `occupied`; blocked when the eye
/// square is occupied.
pub fn bishop_attacks(square: Square, occupied: Bitboard) -> (b: Bitboard)
    ensures
        b@ == bishop_set(square.idx(), occupied@),
{
    proof {
        assert(bits_set(occupied.0) =~= occupied@);
    }
    Bitboard(bishop_jumps(square, occupied.0))
}

/// Squares the knight on `square` can jump to given `occupied`; blocked when the leg
/// square in the movement direction is occupied.
pub fn knight_attacks(square: Square, occupied: Bitboard) -> (b: Bitboard)
    ensures
        b@ == knight_set(square.idx(), occupied@),
{
    proof {
        assert(bits_set(occupied.0) =~= occupied@);
    }
    Bitboard(knight_jumps(square, occupied.0))
}

/// Squares the pawn of `side` on `square` attacks: forward only before crossing the
/// river, and also sideways after.
pub fn pawn_attacks(square: Square, side: Side) -> (b: Bitboard)
    ensures
        b@ == pawn_set(square.idx(), side),
{
    let f = (square.index() % 9) as i8;
    let r = (square.index() / 9) as i8;
    let m = match side {
        Side::Red => pawn_attacks_from(f, r, 1, r >= 5),
        Side::Black => pawn_attacks_from(f, r, -1, r <= 4),
    };
    let b = Bitboard(m);
    proof {
        assert(b@ =~= pawn_set(square.idx(), side));
    }
    b
}

/// Squares from which a pawn of `side` attacks `square` (the reverse of
/// [`pawn_attacks`]); used to find checkers.
pub fn pawn_attacks_to(square: Square, side: Side) -> (b: Bitboard)
    ensures
        b@ == pawn_to_set(square.idx(), side),
{
    let f = (square.index() % 9) as i8;
    let r = (square.index() / 9) as i8;
    let ghost s = square.idx();
    let m = match side {
        Side::Red => pawn_attacks_from(f, r, -1, r >= 5),
        Side::Black => pawn_attacks_from(f, r, 1, r <= 4),
    };
    let b = Bitboard(m);
    proof {
        let spec_set = pawn_to_set(s, side);
        assert forall|p: int| #[trigger] b@.contains(p) == spec_set.contains(p) by {
            if 0 <= p < 90 {
                lemma_coords(p);
                assert(pawn_set(p, side).contains(s) == spec_set.contains(p));
            }
        }
        assert(b@ =~= spec_set);
    }
    b
}

/// Squares from which a knight attacks `square` given `occupied` (the reverse of
/// [`knight_attacks`]); used to find checkers.
pub fn knight_attacks_to(square: Square, occupied: Bitboard) -> (b: Bitboard)
    ensures
        b@ == knight_to_set(square.idx(), occupied@),
{
    proof {
        assert(bits_set(occupied.0) =~= occupied@);
    }
    Bitboard(knight_to_jumps(square, occupied.0))
}

} // verus!
