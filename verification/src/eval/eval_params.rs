//! Evaluation parameters held as data: the material values, piece-square tables,
//! mobility and defender bonuses, read back and forth as one vector of integers
//! and used by an evaluation that takes them as an argument.
use crate::bitboard::on_board;
use crate::boardspec::{count_spec, phase_spec, score_fold, score_spec, square_score};
use crate::eval::values::{
    ADVISOR_COUNT_EG, ADVISOR_COUNT_MG, BISHOP_COUNT_EG, BISHOP_COUNT_MG, CANNON_MOBILITY_EG,
    CANNON_MOBILITY_MG, KNIGHT_MOBILITY_EG, KNIGHT_MOBILITY_MG, PST_ADVISOR, PST_BISHOP, PST_CANNON,
    PST_KING, PST_KNIGHT, PST_PAWN, PST_ROOK, ROOK_MOBILITY_EG, ROOK_MOBILITY_MG, lemma_pst_bounds,
    material_tapered_spec, pawn_crossed, piece_square_table_value, piece_value_spec, pst_spec,
    table_index,
};
use crate::eval::{
    clamp_phase, defender_spec, defenders_fit, eval_spec, evaluable, kind_mobility, lemma_mobility_bonus_bounds,
    mobility_bonus, mobility_bonus_exec, mobility_fits, mobility_spec, mobility_table_len,
    side_mobility, tapered_spec, target_count, type_mobility,
};
use crate::movegen::{count_squares, lemma_squares_up_elems, lemma_squares_up_len, lemma_squares_up_none, lemma_squares_up_pop, piece_targets_bb, squares_up};
use crate::position::{Position, side_type_set};
use crate::score::{PackedScore, Score};
use crate::types::{Piece, PieceType, Side, Square, lemma_square_from_idx, lemma_square_idx};
use vstd::prelude::*;

verus! {

broadcast use {lemma_square_idx, lemma_square_from_idx};

/// The number of integers in the vector form of the parameters.
pub const PARAM_COUNT: usize = 1378;

/// The largest magnitude of a parameter the evaluation with parameters accepts.
pub const PARAM_LIMIT: i32 = 1_000_000;

/// The tunable evaluation parameters, each a middlegame and endgame pair.
#[derive(Clone, Debug)]
pub struct EvalParams {
    /// Material value by piece type (the pawn's before it crosses the river).
    pub material: [PackedScore; 7],
    /// Material value of a pawn that has crossed the river.
    pub pawn_crossed: PackedScore,
    /// Piece-square tables by piece type, from Red's side.
    pub psts: [[PackedScore; 90]; 7],
    /// Knight mobility bonus by number of squares reached.
    pub knight_mobility: [PackedScore; 9],
    /// Rook mobility bonus by number of squares reached.
    pub rook_mobility: [PackedScore; 18],
    /// Cannon mobility bonus by number of squares reached.
    pub cannon_mobility: [PackedScore; 18],
    /// Bonus for having 0, 1 or 2 advisors.
    pub advisor_count_bonus: [PackedScore; 3],
    /// Bonus for having 0, 1 or 2 bishops.
    pub bishop_count_bonus: [PackedScore; 3],
}

/// The middlegame (`half == 0`) or endgame part of a score pair.
pub open spec fn part(s: PackedScore, half: int) -> int {
    if half == 0 {
        s.mg as int
    } else {
        s.eg as int
    }
}

impl EvalParams {
    /// Parameter `i` of the vector form: the material values, the crossed pawn,
    /// the seven piece-square tables square by square, the knight, rook and cannon
    /// mobility bonuses and the advisor and bishop bonuses, each as its
    /// middlegame then endgame value.
    pub open spec fn param_at(&self, i: int) -> int {
        let h = i % 2;
        if i < 14 {
            part(self.material@[i / 2], h)
        } else if i < 16 {
            part(self.pawn_crossed, h)
        } else if i < 1276 {
            let j = (i - 16) / 2;
            part(self.psts@[j / 90]@[j % 90], h)
        } else if i < 1294 {
            part(self.knight_mobility@[(i - 1276) / 2], h)
        } else if i < 1330 {
            part(self.rook_mobility@[(i - 1294) / 2], h)
        } else if i < 1366 {
            part(self.cannon_mobility@[(i - 1330) / 2], h)
        } else if i < 1372 {
            part(self.advisor_count_bonus@[(i - 1366) / 2], h)
        } else {
            part(self.bishop_count_bonus@[(i - 1372) / 2], h)
        }
    }

    /// Whether every parameter lies within `±PARAM_LIMIT`.
    pub open spec fn bounded(&self) -> bool {
        forall|i: int| 0 <= i < PARAM_COUNT ==> -PARAM_LIMIT <= #[trigger] self.param_at(i) <= PARAM_LIMIT
    }

    /// The parameters as a vector of integers (see [`EvalParams::param_at`]).
    pub fn to_vector(&self) -> (r: Vec<i32>)
        ensures
            r@.len() == PARAM_COUNT,
            forall|i: int| 0 <= i < PARAM_COUNT ==> #[trigger] r@[i] as int == self.param_at(i),
    {
        let mut v: Vec<i32> = Vec::new();
        let mut k: usize = 0;
        while k < 7
            invariant
                k <= 7,
                v@.len() == 2 * k,
                forall|i: int| 0 <= i < v@.len() ==> #[trigger] v@[i] as int == self.param_at(i),
            decreases 7 - k,
        {
            v.push(self.material[k].mg);
            v.push(self.material[k].eg);
            k = k + 1;
        }
        v.push(self.pawn_crossed.mg);
        v.push(self.pawn_crossed.eg);
        let mut t: usize = 0;
        while t < 7
            invariant
                t <= 7,
                v@.len() == 16 + 180 * t,
                forall|i: int| 0 <= i < v@.len() ==> #[trigger] v@[i] as int == self.param_at(i),
            decreases 7 - t,
        {
            let mut sq: usize = 0;
            while sq < 90
                invariant
                    t < 7,
                    sq <= 90,
                    v@.len() == 16 + 180 * t + 2 * sq,
                    forall|i: int| 0 <= i < v@.len() ==> #[trigger] v@[i] as int == self.param_at(i),
                decreases 90 - sq,
            {
                let p = self.psts[t][sq];
                proof {
                    let i0 = 16 + 180 * t + 2 * sq;
                    assert((i0 - 16) / 2 == 90 * t + sq);
                    assert((90 * t + sq) / 90 == t && (90 * t + sq) % 90 == sq) by (nonlinear_arith)
                        requires
                            sq < 90,
                    ;
                    assert((i0 + 1 - 16) / 2 == 90 * t + sq);
                }
                v.push(p.mg);
                v.push(p.eg);
                sq = sq + 1;
            }
            t = t + 1;
        }
        let mut k: usize = 0;
        while k < 9
            invariant
                k <= 9,
                v@.len() == 1276 + 2 * k,
                forall|i: int| 0 <= i < v@.len() ==> #[trigger] v@[i] as int == self.param_at(i),
            decreases 9 - k,
        {
            v.push(self.knight_mobility[k].mg);
            v.push(self.knight_mobility[k].eg);
            k = k + 1;
        }
        let mut k: usize = 0;
        while k < 18
            invariant
                k <= 18,
                v@.len() == 1294 + 2 * k,
                forall|i: int| 0 <= i < v@.len() ==> #[trigger] v@[i] as int == self.param_at(i),
            decreases 18 - k,
        {
            v.push(self.rook_mobility[k].mg);
            v.push(self.rook_mobility[k].eg);
            k = k + 1;
        }
        let mut k: usize = 0;
        while k < 18
            invariant
                k <= 18,
                v@.len() == 1330 + 2 * k,
                forall|i: int| 0 <= i < v@.len() ==> #[trigger] v@[i] as int == self.param_at(i),
            decreases 18 - k,
        {
            v.push(self.cannon_mobility[k].mg);
            v.push(self.cannon_mobility[k].eg);
            k = k + 1;
        }
        let mut k: usize = 0;
        while k < 3
            invariant
                k <= 3,
                v@.len() == 1366 + 2 * k,
                forall|i: int| 0 <= i < v@.len() ==> #[trigger] v@[i] as int == self.param_at(i),
            decreases 3 - k,
        {
            v.push(self.advisor_count_bonus[k].mg);
            v.push(self.advisor_count_bonus[k].eg);
            k = k + 1;
        }
        let mut k: usize = 0;
        while k < 3
            invariant
                k <= 3,
                v@.len() == 1372 + 2 * k,
                forall|i: int| 0 <= i < v@.len() ==> #[trigger] v@[i] as int == self.param_at(i),
            decreases 3 - k,
        {
            v.push(self.bishop_count_bonus[k].mg);
            v.push(self.bishop_count_bonus[k].eg);
            k = k + 1;
        }
        v
    }

    /// Sets the parameters from the first [`PARAM_COUNT`] integers of `v`, in the
    /// order of [`EvalParams::to_vector`].
    pub fn update_from_vector(&mut self, v: &[i32])
        requires
            v@.len() >= PARAM_COUNT,
        ensures
            forall|i: int| 0 <= i < PARAM_COUNT ==> #[trigger] final(self).param_at(i) == v@[i] as int,
    {
        let mut idx: usize = 0;
        let mut k: usize = 0;
        while k < 7
            invariant
                k <= 7,
                idx == 2 * k,
                v@.len() >= PARAM_COUNT,
                forall|i: int| 0 <= i < idx ==> #[trigger] self.param_at(i) == v@[i] as int,
            decreases 7 - k,
        {
            let ghost before = *self;
            self.material[k] = PackedScore { mg: v[idx], eg: v[idx + 1] };
            proof {
                assert forall|i: int| 0 <= i < idx + 2 implies #[trigger] self.param_at(i) == v@[i] as int by {
                    if i < idx {
                        assert((i) / 2 < k);
                        assert(self.param_at(i) == before.param_at(i));
                    } else {
                        assert((i) / 2 == k);
                    }
                }
            }
            idx = idx + 2;
            k = k + 1;
        }
        let ghost before = *self;
        self.pawn_crossed = PackedScore { mg: v[idx], eg: v[idx + 1] };
        proof {
            assert forall|i: int| 0 <= i < idx + 2 implies #[trigger] self.param_at(i) == v@[i] as int by {
                if i < idx {
                    assert(self.param_at(i) == before.param_at(i));
                }
            }
        }
        idx = idx + 2;
        let mut t: usize = 0;
        while t < 7
            invariant
                t <= 7,
                idx == 16 + 180 * t,
                v@.len() >= PARAM_COUNT,
                forall|i: int| 0 <= i < idx ==> #[trigger] self.param_at(i) == v@[i] as int,
            decreases 7 - t,
        {
            let mut sq: usize = 0;
            while sq < 90
                invariant
                    t < 7,
                    sq <= 90,
                    idx == 16 + 180 * t + 2 * sq,
                    v@.len() >= PARAM_COUNT,
                    forall|i: int| 0 <= i < idx ==> #[trigger] self.param_at(i) == v@[i] as int,
                decreases 90 - sq,
            {
                let ghost before = *self;
                let mut row = self.psts[t];
                row[sq] = PackedScore { mg: v[idx], eg: v[idx + 1] };
                self.psts[t] = row;
                proof {
                    assert((idx - 16) / 2 == 90 * t + sq);
                    assert((90 * t + sq) / 90 == t && (90 * t + sq) % 90 == sq) by (nonlinear_arith)
                        requires
                            sq < 90,
                    ;
                    assert((idx + 1 - 16) / 2 == 90 * t + sq);
                    assert forall|i: int| 0 <= i < idx implies #[trigger] self.param_at(i) == before.param_at(i) by {
                        if 16 <= i < 1276 {
                            let j = (i - 16) / 2;
                            assert(j < 90 * t + sq);
                            assert(j / 90 != t || j % 90 != sq) by (nonlinear_arith)
                                requires
                                    0 <= j < 90 * t + sq,
                                    sq < 90,
                            ;
                        }
                    }
                }
                idx = idx + 2;
                sq = sq + 1;
            }
            t = t + 1;
        }
        let mut k: usize = 0;
        while k < 9
            invariant
                k <= 9,
                idx == 1276 + 2 * k,
                v@.len() >= PARAM_COUNT,
                forall|i: int| 0 <= i < idx ==> #[trigger] self.param_at(i) == v@[i] as int,
            decreases 9 - k,
        {
            let ghost before = *self;
            self.knight_mobility[k] = PackedScore { mg: v[idx], eg: v[idx + 1] };
            proof {
                assert forall|i: int| 0 <= i < idx + 2 implies #[trigger] self.param_at(i) == v@[i] as int by {
                    if i < idx {
                        assert(((i - 1276)) / 2 < k);
                        assert(self.param_at(i) == before.param_at(i));
                    } else {
                        assert(((i - 1276)) / 2 == k);
                    }
                }
            }
            idx = idx + 2;
            k = k + 1;
        }
        let mut k: usize = 0;
        while k < 18
            invariant
                k <= 18,
                idx == 1294 + 2 * k,
                v@.len() >= PARAM_COUNT,
                forall|i: int| 0 <= i < idx ==> #[trigger] self.param_at(i) == v@[i] as int,
            decreases 18 - k,
        {
            let ghost before = *self;
            self.rook_mobility[k] = PackedScore { mg: v[idx], eg: v[idx + 1] };
            proof {
                assert forall|i: int| 0 <= i < idx + 2 implies #[trigger] self.param_at(i) == v@[i] as int by {
                    if i < idx {
                        assert(((i - 1294)) / 2 < k);
                        assert(self.param_at(i) == before.param_at(i));
                    } else {
                        assert(((i - 1294)) / 2 == k);
                    }
                }
            }
            idx = idx + 2;
            k = k + 1;
        }
        let mut k: usize = 0;
        while k < 18
            invariant
                k <= 18,
                idx == 1330 + 2 * k,
                v@.len() >= PARAM_COUNT,
                forall|i: int| 0 <= i < idx ==> #[trigger] self.param_at(i) == v@[i] as int,
            decreases 18 - k,
        {
            let ghost before = *self;
            self.cannon_mobility[k] = PackedScore { mg: v[idx], eg: v[idx + 1] };
            proof {
                assert forall|i: int| 0 <= i < idx + 2 implies #[trigger] self.param_at(i) == v@[i] as int by {
                    if i < idx {
                        assert(((i - 1330)) / 2 < k);
                        assert(self.param_at(i) == before.param_at(i));
                    } else {
                        assert(((i - 1330)) / 2 == k);
                    }
                }
            }
            idx = idx + 2;
            k = k + 1;
        }
        let mut k: usize = 0;
        while k < 3
            invariant
                k <= 3,
                idx == 1366 + 2 * k,
                v@.len() >= PARAM_COUNT,
                forall|i: int| 0 <= i < idx ==> #[trigger] self.param_at(i) == v@[i] as int,
            decreases 3 - k,
        {
            let ghost before = *self;
            self.advisor_count_bonus[k] = PackedScore { mg: v[idx], eg: v[idx + 1] };
            proof {
                assert forall|i: int| 0 <= i < idx + 2 implies #[trigger] self.param_at(i) == v@[i] as int by {
                    if i < idx {
                        assert(((i - 1366)) / 2 < k);
                        assert(self.param_at(i) == before.param_at(i));
                    } else {
                        assert(((i - 1366)) / 2 == k);
                    }
                }
            }
            idx = idx + 2;
            k = k + 1;
        }
        let mut k: usize = 0;
        while k < 3
            invariant
                k <= 3,
                idx == 1372 + 2 * k,
                v@.len() >= PARAM_COUNT,
                forall|i: int| 0 <= i < idx ==> #[trigger] self.param_at(i) == v@[i] as int,
            decreases 3 - k,
        {
            let ghost before = *self;
            self.bishop_count_bonus[k] = PackedScore { mg: v[idx], eg: v[idx + 1] };
            proof {
                assert forall|i: int| 0 <= i < idx + 2 implies #[trigger] self.param_at(i) == v@[i] as int by {
                    if i < idx {
                        assert(((i - 1372)) / 2 < k);
                        assert(self.param_at(i) == before.param_at(i));
                    } else {
                        assert(((i - 1372)) / 2 == k);
                    }
                }
            }
            idx = idx + 2;
            k = k + 1;
        }
    }
}


/// Setting parameters from the vector form of other parameters (as
/// [`EvalParams::to_vector`] gives it and [`EvalParams::update_from_vector`] reads
/// it) gives those parameters back, field by field.
pub proof fn lemma_vector_round_trip(p: &EvalParams, v: Seq<i32>, q: &EvalParams)
    requires
        v.len() == PARAM_COUNT,
        forall|i: int| 0 <= i < PARAM_COUNT ==> #[trigger] v[i] as int == p.param_at(i),
        forall|i: int| 0 <= i < PARAM_COUNT ==> #[trigger] q.param_at(i) == v[i] as int,
    ensures
        q.material@ == p.material@,
        q.pawn_crossed == p.pawn_crossed,
        forall|t: int| 0 <= t < 7 ==> #[trigger] q.psts@[t]@ == p.psts@[t]@,
        q.knight_mobility@ == p.knight_mobility@,
        q.rook_mobility@ == p.rook_mobility@,
        q.cannon_mobility@ == p.cannon_mobility@,
        q.advisor_count_bonus@ == p.advisor_count_bonus@,
        q.bishop_count_bonus@ == p.bishop_count_bonus@,
{
    assert forall|i: int| 0 <= i < PARAM_COUNT implies #[trigger] q.param_at(i) == p.param_at(i) by {
        assert(v[i] as int == p.param_at(i));
    }
    assert forall|k: int| 0 <= k < 7 implies q.material@[k] == p.material@[k] by {
        assert(q.param_at(2 * k) == p.param_at(2 * k));
        assert(q.param_at(2 * k + 1) == p.param_at(2 * k + 1));
    }
    assert(q.material@ =~= p.material@);
    assert(q.param_at(14) == p.param_at(14));
    assert(q.param_at(15) == p.param_at(15));
    assert forall|t: int| 0 <= t < 7 implies #[trigger] q.psts@[t]@ == p.psts@[t]@ by {
        assert forall|sq: int| 0 <= sq < 90 implies q.psts@[t]@[sq] == p.psts@[t]@[sq] by {
            let i = 16 + 2 * (90 * t + sq);
            assert((i - 16) / 2 == 90 * t + sq);
            assert((90 * t + sq) / 90 == t && (90 * t + sq) % 90 == sq) by (nonlinear_arith)
                requires
                    0 <= sq < 90,
                    0 <= t,
            ;
            assert((i + 1 - 16) / 2 == 90 * t + sq);
            assert(q.param_at(i) == p.param_at(i));
            assert(q.param_at(i + 1) == p.param_at(i + 1));
        }
        assert(q.psts@[t]@ =~= p.psts@[t]@);
    }
    assert forall|k: int| 0 <= k < 9 implies q.knight_mobility@[k] == p.knight_mobility@[k] by {
        assert(q.param_at(1276 + 2 * k) == p.param_at(1276 + 2 * k));
        assert(q.param_at(1276 + 2 * k + 1) == p.param_at(1276 + 2 * k + 1));
    }
    assert(q.knight_mobility@ =~= p.knight_mobility@);
    assert forall|k: int| 0 <= k < 18 implies q.rook_mobility@[k] == p.rook_mobility@[k] by {
        assert(q.param_at(1294 + 2 * k) == p.param_at(1294 + 2 * k));
        assert(q.param_at(1294 + 2 * k + 1) == p.param_at(1294 + 2 * k + 1));
    }
    assert(q.rook_mobility@ =~= p.rook_mobility@);
    assert forall|k: int| 0 <= k < 18 implies q.cannon_mobility@[k] == p.cannon_mobility@[k] by {
        assert(q.param_at(1330 + 2 * k) == p.param_at(1330 + 2 * k));
        assert(q.param_at(1330 + 2 * k + 1) == p.param_at(1330 + 2 * k + 1));
    }
    assert(q.cannon_mobility@ =~= p.cannon_mobility@);
    assert forall|k: int| 0 <= k < 3 implies q.advisor_count_bonus@[k] == p.advisor_count_bonus@[k] by {
        assert(q.param_at(1366 + 2 * k) == p.param_at(1366 + 2 * k));
        assert(q.param_at(1366 + 2 * k + 1) == p.param_at(1366 + 2 * k + 1));
    }
    assert(q.advisor_count_bonus@ =~= p.advisor_count_bonus@);
    assert forall|k: int| 0 <= k < 3 implies q.bishop_count_bonus@[k] == p.bishop_count_bonus@[k] by {
        assert(q.param_at(1372 + 2 * k) == p.param_at(1372 + 2 * k));
        assert(q.param_at(1372 + 2 * k + 1) == p.param_at(1372 + 2 * k + 1));
    }
    assert(q.bishop_count_bonus@ =~= p.bishop_count_bonus@);
}


/// The material value of `piece` on square `s` under the parameters `p`: a pawn
/// counts as crossed once over the river, and a king has no material value.
pub open spec fn param_material(p: &EvalParams, piece: Piece, s: int) -> PackedScore {
    let pt = piece.piece_type_spec();
    if pt == PieceType::Pawn {
        if pawn_crossed(piece.color_spec(), Square::rank_of(s)) {
            p.pawn_crossed
        } else {
            p.material@[3]
        }
    } else if pt == PieceType::King {
        PackedScore { mg: 0, eg: 0 }
    } else {
        p.material@[pt.idx()]
    }
}

/// The piece-square value under `p` of a piece of type `pt` and side `side` on
/// square `s`, the table read from the side's view.
pub open spec fn param_pst(p: &EvalParams, pt: PieceType, side: Side, s: int) -> PackedScore {
    p.psts@[pt.idx()]@[table_index(side, s)]
}

/// The material and positional value of `piece` on square `s` under the parameters
/// `p`, from its own side's view.
pub open spec fn param_piece_value(p: &EvalParams, piece: Piece, s: int) -> (int, int) {
    let m = param_material(p, piece, s);
    let t = param_pst(p, piece.piece_type_spec(), piece.color_spec(), s);
    (m.mg + t.mg, m.eg + t.eg)
}

/// The contribution of a square's content under `p`, from Red's side.
pub open spec fn param_square(p: &EvalParams, x: Option<Piece>, s: int) -> (int, int) {
    match x {
        Some(piece) => {
            let v = param_piece_value(p, piece, s);
            if piece.color_spec() == Side::Red {
                v
            } else {
                (-v.0, -v.1)
            }
        },
        None => (0, 0),
    }
}

/// The sum of the contributions of the first `n` squares of `b` under `p`.
pub open spec fn param_fold(b: Seq<Option<Piece>>, p: &EvalParams, n: int) -> (int, int)
    decreases n,
{
    if n <= 0 {
        (0, 0)
    } else {
        let a = param_fold(b, p, n - 1);
        let c = param_square(p, b[n - 1], n - 1);
        (a.0 + c.0, a.1 + c.1)
    }
}

/// The mobility bonus under `p` of a piece of type `t` reaching `count` squares.
pub open spec fn param_mobility_bonus(p: &EvalParams, t: PieceType, count: int) -> (int, int) {
    match t {
        PieceType::Knight => (p.knight_mobility@[count].mg as int, p.knight_mobility@[count].eg as int),
        PieceType::Rook => (p.rook_mobility@[count].mg as int, p.rook_mobility@[count].eg as int),
        PieceType::Cannon => (p.cannon_mobility@[count].mg as int, p.cannon_mobility@[count].eg as int),
        _ => (0, 0),
    }
}

/// The mobility bonus under `p` of the pieces of type `t` of side `side` on
/// `origins`.
pub open spec fn param_kind_mobility(
    b: Seq<Option<Piece>>,
    p: &EvalParams,
    side: Side,
    t: PieceType,
    origins: Seq<int>,
) -> (int, int)
    decreases origins.len(),
{
    if origins.len() == 0 {
        (0, 0)
    } else {
        let rest = param_kind_mobility(b, p, side, t, origins.drop_last());
        let bonus = param_mobility_bonus(p, t, target_count(b, side, t, origins.last()));
        (rest.0 + bonus.0, rest.1 + bonus.1)
    }
}

/// The mobility bonus under `p` of the pieces of type `t` of side `side`.
pub open spec fn param_type_mobility(b: Seq<Option<Piece>>, p: &EvalParams, side: Side, t: PieceType) -> (
    int,
    int,
) {
    param_kind_mobility(b, p, side, t, squares_up(side_type_set(b, side, t), 90))
}

/// The mobility score under `p`, from Red's side.
pub open spec fn param_mobility(b: Seq<Option<Piece>>, p: &EvalParams) -> (int, int) {
    let rn = param_type_mobility(b, p, Side::Red, PieceType::Knight);
    let rr = param_type_mobility(b, p, Side::Red, PieceType::Rook);
    let rc = param_type_mobility(b, p, Side::Red, PieceType::Cannon);
    let bn = param_type_mobility(b, p, Side::Black, PieceType::Knight);
    let br = param_type_mobility(b, p, Side::Black, PieceType::Rook);
    let bc = param_type_mobility(b, p, Side::Black, PieceType::Cannon);
    (rn.0 + rr.0 + rc.0 - (bn.0 + br.0 + bc.0), rn.1 + rr.1 + rc.1 - (bn.1 + br.1 + bc.1))
}

/// The defender bonus under `p`, from Red's side.
pub open spec fn param_defenders(b: Seq<Option<Piece>>, p: &EvalParams) -> (int, int) {
    let ra = p.advisor_count_bonus@[count_spec(b, Piece::RedAdvisor) as int];
    let rb = p.bishop_count_bonus@[count_spec(b, Piece::RedBishop) as int];
    let ba = p.advisor_count_bonus@[count_spec(b, Piece::BlackAdvisor) as int];
    let bb = p.bishop_count_bonus@[count_spec(b, Piece::BlackBishop) as int];
    (ra.mg + rb.mg - ba.mg - bb.mg, ra.eg + rb.eg - ba.eg - bb.eg)
}

/// The evaluation of `pos` under `p`, from Red's side: the material and positional
/// sum, mobility and defender bonuses, blended by the phase of the board.
pub open spec fn eval_with_spec(pos: &Position, p: &EvalParams) -> int {
    let b = pos.board_view();
    let base = param_fold(b, p, 90);
    let m = param_mobility(b, p);
    let d = param_defenders(b, p);
    tapered_spec(base.0 + m.0 + d.0, base.1 + m.1 + d.1, phase_spec(b))
}

/// The parameters the built-in evaluation uses.
pub open spec fn is_default(p: &EvalParams) -> bool {
    &&& forall|piece: Piece, s: int| 0 <= s < 90 ==> #[trigger] param_piece_value(p, piece, s) == piece_value_spec(piece, s)
    &&& forall|t: PieceType, c: int| 0 <= c < mobility_table_len(t) ==> #[trigger] param_mobility_bonus(p, t, c) == mobility_bonus(t, c)
    &&& forall|k: int| 0 <= k < 3 ==> #[trigger] p.advisor_count_bonus@[k] == PackedScore { mg: ADVISOR_COUNT_MG@[k], eg: ADVISOR_COUNT_EG@[k] }
    &&& forall|k: int| 0 <= k < 3 ==> #[trigger] p.bishop_count_bonus@[k] == PackedScore { mg: BISHOP_COUNT_MG@[k], eg: BISHOP_COUNT_EG@[k] }
}

/// Each field of bounded parameters lies within `±PARAM_LIMIT`.
proof fn lemma_bounded_fields(p: &EvalParams)
    requires
        p.bounded(),
    ensures
        forall|k: int| 0 <= k < 7 ==> -PARAM_LIMIT <= #[trigger] p.material@[k].mg <= PARAM_LIMIT && -PARAM_LIMIT <= p.material@[k].eg <= PARAM_LIMIT,
        -PARAM_LIMIT <= p.pawn_crossed.mg <= PARAM_LIMIT && -PARAM_LIMIT <= p.pawn_crossed.eg <= PARAM_LIMIT,
        forall|t: int, q: int| 0 <= t < 7 && 0 <= q < 90 ==> -PARAM_LIMIT <= #[trigger] p.psts@[t]@[q].mg <= PARAM_LIMIT && -PARAM_LIMIT <= p.psts@[t]@[q].eg <= PARAM_LIMIT,
        forall|k: int| 0 <= k < 9 ==> -PARAM_LIMIT <= #[trigger] p.knight_mobility@[k].mg <= PARAM_LIMIT && -PARAM_LIMIT <= p.knight_mobility@[k].eg <= PARAM_LIMIT,
        forall|k: int| 0 <= k < 18 ==> -PARAM_LIMIT <= #[trigger] p.rook_mobility@[k].mg <= PARAM_LIMIT && -PARAM_LIMIT <= p.rook_mobility@[k].eg <= PARAM_LIMIT,
        forall|k: int| 0 <= k < 18 ==> -PARAM_LIMIT <= #[trigger] p.cannon_mobility@[k].mg <= PARAM_LIMIT && -PARAM_LIMIT <= p.cannon_mobility@[k].eg <= PARAM_LIMIT,
        forall|k: int| 0 <= k < 3 ==> -PARAM_LIMIT <= #[trigger] p.advisor_count_bonus@[k].mg <= PARAM_LIMIT && -PARAM_LIMIT <= p.advisor_count_bonus@[k].eg <= PARAM_LIMIT,
        forall|k: int| 0 <= k < 3 ==> -PARAM_LIMIT <= #[trigger] p.bishop_count_bonus@[k].mg <= PARAM_LIMIT && -PARAM_LIMIT <= p.bishop_count_bonus@[k].eg <= PARAM_LIMIT,
{
    assert forall|k: int| 0 <= k < 7 implies -PARAM_LIMIT <= #[trigger] p.material@[k].mg <= PARAM_LIMIT && -PARAM_LIMIT <= p.material@[k].eg <= PARAM_LIMIT by {
        assert(p.param_at(2 * k) == p.material@[k].mg);
        assert(p.param_at(2 * k + 1) == p.material@[k].eg);
    }
    assert(p.param_at(14) == p.pawn_crossed.mg);
    assert(p.param_at(15) == p.pawn_crossed.eg);
    assert forall|t: int, q: int| 0 <= t < 7 && 0 <= q < 90 implies -PARAM_LIMIT <= #[trigger] p.psts@[t]@[q].mg <= PARAM_LIMIT && -PARAM_LIMIT <= p.psts@[t]@[q].eg <= PARAM_LIMIT by {
        let i = 16 + 2 * (90 * t + q);
        assert((i - 16) / 2 == 90 * t + q);
        assert((90 * t + q) / 90 == t && (90 * t + q) % 90 == q) by (nonlinear_arith)
            requires
                0 <= q < 90,
                0 <= t,
        ;
        assert((i + 1 - 16) / 2 == 90 * t + q);
        assert(p.param_at(i) == p.psts@[t]@[q].mg);
        assert(p.param_at(i + 1) == p.psts@[t]@[q].eg);
    }
    assert forall|k: int| 0 <= k < 9 implies -PARAM_LIMIT <= #[trigger] p.knight_mobility@[k].mg <= PARAM_LIMIT && -PARAM_LIMIT <= p.knight_mobility@[k].eg <= PARAM_LIMIT by {
        assert(p.param_at(1276 + 2 * k) == p.knight_mobility@[k].mg);
        assert(p.param_at(1276 + 2 * k + 1) == p.knight_mobility@[k].eg);
    }
    assert forall|k: int| 0 <= k < 18 implies -PARAM_LIMIT <= #[trigger] p.rook_mobility@[k].mg <= PARAM_LIMIT && -PARAM_LIMIT <= p.rook_mobility@[k].eg <= PARAM_LIMIT by {
        assert(p.param_at(1294 + 2 * k) == p.rook_mobility@[k].mg);
        assert(p.param_at(1294 + 2 * k + 1) == p.rook_mobility@[k].eg);
    }
    assert forall|k: int| 0 <= k < 18 implies -PARAM_LIMIT <= #[trigger] p.cannon_mobility@[k].mg <= PARAM_LIMIT && -PARAM_LIMIT <= p.cannon_mobility@[k].eg <= PARAM_LIMIT by {
        assert(p.param_at(1330 + 2 * k) == p.cannon_mobility@[k].mg);
        assert(p.param_at(1330 + 2 * k + 1) == p.cannon_mobility@[k].eg);
    }
    assert forall|k: int| 0 <= k < 3 implies -PARAM_LIMIT <= #[trigger] p.advisor_count_bonus@[k].mg <= PARAM_LIMIT && -PARAM_LIMIT <= p.advisor_count_bonus@[k].eg <= PARAM_LIMIT by {
        assert(p.param_at(1366 + 2 * k) == p.advisor_count_bonus@[k].mg);
        assert(p.param_at(1366 + 2 * k + 1) == p.advisor_count_bonus@[k].eg);
    }
    assert forall|k: int| 0 <= k < 3 implies -PARAM_LIMIT <= #[trigger] p.bishop_count_bonus@[k].mg <= PARAM_LIMIT && -PARAM_LIMIT <= p.bishop_count_bonus@[k].eg <= PARAM_LIMIT by {
        assert(p.param_at(1372 + 2 * k) == p.bishop_count_bonus@[k].mg);
        assert(p.param_at(1372 + 2 * k + 1) == p.bishop_count_bonus@[k].eg);
    }
}


/// Parameters whose every field lies within `±PARAM_LIMIT` are bounded.
#[verifier::spinoff_prover]
proof fn lemma_fields_bounded(p: &EvalParams)
    requires
        forall|k: int| 0 <= k < 7 ==> -PARAM_LIMIT <= #[trigger] p.material@[k].mg <= PARAM_LIMIT && -PARAM_LIMIT <= p.material@[k].eg <= PARAM_LIMIT,
        -PARAM_LIMIT <= p.pawn_crossed.mg <= PARAM_LIMIT && -PARAM_LIMIT <= p.pawn_crossed.eg <= PARAM_LIMIT,
        forall|t: int, q: int| 0 <= t < 7 && 0 <= q < 90 ==> -PARAM_LIMIT <= #[trigger] p.psts@[t]@[q].mg <= PARAM_LIMIT && -PARAM_LIMIT <= p.psts@[t]@[q].eg <= PARAM_LIMIT,
        forall|k: int| 0 <= k < 9 ==> -PARAM_LIMIT <= #[trigger] p.knight_mobility@[k].mg <= PARAM_LIMIT && -PARAM_LIMIT <= p.knight_mobility@[k].eg <= PARAM_LIMIT,
        forall|k: int| 0 <= k < 18 ==> -PARAM_LIMIT <= #[trigger] p.rook_mobility@[k].mg <= PARAM_LIMIT && -PARAM_LIMIT <= p.rook_mobility@[k].eg <= PARAM_LIMIT,
        forall|k: int| 0 <= k < 18 ==> -PARAM_LIMIT <= #[trigger] p.cannon_mobility@[k].mg <= PARAM_LIMIT && -PARAM_LIMIT <= p.cannon_mobility@[k].eg <= PARAM_LIMIT,
        forall|k: int| 0 <= k < 3 ==> -PARAM_LIMIT <= #[trigger] p.advisor_count_bonus@[k].mg <= PARAM_LIMIT && -PARAM_LIMIT <= p.advisor_count_bonus@[k].eg <= PARAM_LIMIT,
        forall|k: int| 0 <= k < 3 ==> -PARAM_LIMIT <= #[trigger] p.bishop_count_bonus@[k].mg <= PARAM_LIMIT && -PARAM_LIMIT <= p.bishop_count_bonus@[k].eg <= PARAM_LIMIT,
    ensures
        p.bounded(),
{
    assert forall|i: int| 0 <= i < PARAM_COUNT implies -PARAM_LIMIT <= #[trigger] p.param_at(i) <= PARAM_LIMIT by {
        let h = i % 2;
        if i < 14 {
            let k = i / 2;
            assert(0 <= k < 7);
            assert(-PARAM_LIMIT <= p.material@[k].mg <= PARAM_LIMIT);
            assert(-PARAM_LIMIT <= p.material@[k].eg <= PARAM_LIMIT);
            assert(-PARAM_LIMIT <= part(p.material@[k], h) <= PARAM_LIMIT);
        } else if i < 16 {
            assert(-PARAM_LIMIT <= part(p.pawn_crossed, h) <= PARAM_LIMIT);
        } else if i < 1276 {
            let j = (i - 16) / 2;
            assert(0 <= j / 90 < 7 && 0 <= j % 90 < 90) by (nonlinear_arith)
                requires
                    0 <= j < 630,
            ;
            let (t, q) = (j / 90, j % 90);
            assert(-PARAM_LIMIT <= p.psts@[t]@[q].mg <= PARAM_LIMIT);
            assert(-PARAM_LIMIT <= p.psts@[t]@[q].eg <= PARAM_LIMIT);
            assert(-PARAM_LIMIT <= part(p.psts@[t]@[q], h) <= PARAM_LIMIT);
        } else if i < 1294 {
            let k = (i - 1276) / 2;
            assert(0 <= k < 9);
            assert(-PARAM_LIMIT <= p.knight_mobility@[k].mg <= PARAM_LIMIT);
            assert(-PARAM_LIMIT <= p.knight_mobility@[k].eg <= PARAM_LIMIT);
            assert(-PARAM_LIMIT <= part(p.knight_mobility@[k], h) <= PARAM_LIMIT);
        } else if i < 1330 {
            let k = (i - 1294) / 2;
            assert(0 <= k < 18);
            assert(-PARAM_LIMIT <= p.rook_mobility@[k].mg <= PARAM_LIMIT);
            assert(-PARAM_LIMIT <= p.rook_mobility@[k].eg <= PARAM_LIMIT);
            assert(-PARAM_LIMIT <= part(p.rook_mobility@[k], h) <= PARAM_LIMIT);
        } else if i < 1366 {
            let k = (i - 1330) / 2;
            assert(0 <= k < 18);
            assert(-PARAM_LIMIT <= p.cannon_mobility@[k].mg <= PARAM_LIMIT);
            assert(-PARAM_LIMIT <= p.cannon_mobility@[k].eg <= PARAM_LIMIT);
            assert(-PARAM_LIMIT <= part(p.cannon_mobility@[k], h) <= PARAM_LIMIT);
        } else if i < 1372 {
            let k = (i - 1366) / 2;
            assert(0 <= k < 3);
            assert(-PARAM_LIMIT <= p.advisor_count_bonus@[k].mg <= PARAM_LIMIT);
            assert(-PARAM_LIMIT <= p.advisor_count_bonus@[k].eg <= PARAM_LIMIT);
            assert(-PARAM_LIMIT <= part(p.advisor_count_bonus@[k], h) <= PARAM_LIMIT);
        } else {
            let k = (i - 1372) / 2;
            assert(0 <= k < 3);
            assert(-PARAM_LIMIT <= p.bishop_count_bonus@[k].mg <= PARAM_LIMIT);
            assert(-PARAM_LIMIT <= p.bishop_count_bonus@[k].eg <= PARAM_LIMIT);
            assert(-PARAM_LIMIT <= part(p.bishop_count_bonus@[k], h) <= PARAM_LIMIT);
        }
    }
}

impl Default for EvalParams {
    /// The parameters of the built-in evaluation: its material values, its
    /// piece-square tables in both phases, and its mobility and defender tables.
    fn default() -> (r: EvalParams)
        ensures
            is_default(&r),
            r.bounded(),
    {
        let zero = PackedScore { mg: 0, eg: 0 };
        let mut psts = [[zero; 90]; 7];
        let mut t: usize = 0;
        while t < 7
            invariant
                t <= 7,
                forall|a: int, q: int| 0 <= a < t && 0 <= q < 90 ==> (#[trigger] psts@[a]@[q]).mg == pst_spec(PieceType::from_idx(a), Side::Red, q) && psts@[a]@[q].eg == pst_spec(PieceType::from_idx(a), Side::Red, q),
            decreases 7 - t,
        {
            let pt = PieceType::from_repr(t as u8).unwrap();
            let mut row = psts[t];
            let mut sq: u8 = 0;
            while sq < 90
                invariant
                    t < 7,
                    sq <= 90,
                    pt == PieceType::from_idx(t as int),
                    forall|q: int| 0 <= q < sq ==> (#[trigger] row@[q]).mg == pst_spec(pt, Side::Red, q) && row@[q].eg == pst_spec(pt, Side::Red, q),
                decreases 90 - sq,
            {
                let v = piece_square_table_value(pt, Side::Red, Square::from_repr(sq).unwrap());
                row[sq as usize] = PackedScore { mg: v, eg: v };
                sq = sq + 1;
            }
            let ghost before = psts;
            psts[t] = row;
            proof {
                assert forall|a: int, q: int| 0 <= a < t + 1 && 0 <= q < 90 implies (#[trigger] psts@[a]@[q]).mg == pst_spec(PieceType::from_idx(a), Side::Red, q) && psts@[a]@[q].eg == pst_spec(PieceType::from_idx(a), Side::Red, q) by {
                    if a < t {
                        assert(psts@[a] == before@[a]);
                    }
                }
            }
            t = t + 1;
        }
        let mut knight_mobility = [zero; 9];
        let mut k: usize = 0;
        while k < 9
            invariant
                k <= 9,
                forall|c: int| 0 <= c < k ==> ((#[trigger] knight_mobility@[c]).mg as int, knight_mobility@[c].eg as int) == mobility_bonus(PieceType::Knight, c),
            decreases 9 - k,
        {
            knight_mobility[k] = mobility_bonus_exec(PieceType::Knight, k);
            k = k + 1;
        }
        let mut rook_mobility = [zero; 18];
        let mut k: usize = 0;
        while k < 18
            invariant
                k <= 18,
                forall|c: int| 0 <= c < k ==> ((#[trigger] rook_mobility@[c]).mg as int, rook_mobility@[c].eg as int) == mobility_bonus(PieceType::Rook, c),
            decreases 18 - k,
        {
            rook_mobility[k] = mobility_bonus_exec(PieceType::Rook, k);
            k = k + 1;
        }
        let mut cannon_mobility = [zero; 18];
        let mut k: usize = 0;
        while k < 18
            invariant
                k <= 18,
                forall|c: int| 0 <= c < k ==> ((#[trigger] cannon_mobility@[c]).mg as int, cannon_mobility@[c].eg as int) == mobility_bonus(PieceType::Cannon, c),
            decreases 18 - k,
        {
            cannon_mobility[k] = mobility_bonus_exec(PieceType::Cannon, k);
            k = k + 1;
        }
        let r = EvalParams {
            material: [
                PackedScore { mg: 900, eg: 950 },
                PackedScore { mg: 200, eg: 200 },
                PackedScore { mg: 450, eg: 400 },
                PackedScore { mg: 100, eg: 100 },
                PackedScore { mg: 400, eg: 450 },
                PackedScore { mg: 200, eg: 200 },
                zero,
            ],
            pawn_crossed: PackedScore { mg: 200, eg: 300 },
            psts,
            knight_mobility,
            rook_mobility,
            cannon_mobility,
            advisor_count_bonus: [
                PackedScore { mg: ADVISOR_COUNT_MG[0], eg: ADVISOR_COUNT_EG[0] },
                PackedScore { mg: ADVISOR_COUNT_MG[1], eg: ADVISOR_COUNT_EG[1] },
                PackedScore { mg: ADVISOR_COUNT_MG[2], eg: ADVISOR_COUNT_EG[2] },
            ],
            bishop_count_bonus: [
                PackedScore { mg: BISHOP_COUNT_MG[0], eg: BISHOP_COUNT_EG[0] },
                PackedScore { mg: BISHOP_COUNT_MG[1], eg: BISHOP_COUNT_EG[1] },
                PackedScore { mg: BISHOP_COUNT_MG[2], eg: BISHOP_COUNT_EG[2] },
            ],
        };
        proof {
            lemma_default_is_default(&r);
        }
        r
    }
}

/// Parameters that hold the built-in values field by field are the built-in ones,
/// and bounded.
proof fn lemma_default_is_default(r: &EvalParams)
    requires
        (r.material@ == seq![
            PackedScore { mg: 900, eg: 950 },
            PackedScore { mg: 200, eg: 200 },
            PackedScore { mg: 450, eg: 400 },
            PackedScore { mg: 100, eg: 100 },
            PackedScore { mg: 400, eg: 450 },
            PackedScore { mg: 200, eg: 200 },
            PackedScore { mg: 0, eg: 0 },
        ]),
        r.pawn_crossed == (PackedScore { mg: 200, eg: 300 }),
        forall|a: int, q: int| 0 <= a < 7 && 0 <= q < 90 ==> (#[trigger] r.psts@[a]@[q]).mg == pst_spec(PieceType::from_idx(a), Side::Red, q) && r.psts@[a]@[q].eg == pst_spec(PieceType::from_idx(a), Side::Red, q),
        forall|c: int| 0 <= c < 9 ==> ((#[trigger] r.knight_mobility@[c]).mg as int, r.knight_mobility@[c].eg as int) == mobility_bonus(PieceType::Knight, c),
        forall|c: int| 0 <= c < 18 ==> ((#[trigger] r.rook_mobility@[c]).mg as int, r.rook_mobility@[c].eg as int) == mobility_bonus(PieceType::Rook, c),
        forall|c: int| 0 <= c < 18 ==> ((#[trigger] r.cannon_mobility@[c]).mg as int, r.cannon_mobility@[c].eg as int) == mobility_bonus(PieceType::Cannon, c),
        forall|k: int| 0 <= k < 3 ==> #[trigger] r.advisor_count_bonus@[k] == (PackedScore { mg: ADVISOR_COUNT_MG@[k], eg: ADVISOR_COUNT_EG@[k] }),
        forall|k: int| 0 <= k < 3 ==> #[trigger] r.bishop_count_bonus@[k] == (PackedScore { mg: BISHOP_COUNT_MG@[k], eg: BISHOP_COUNT_EG@[k] }),
    ensures
        is_default(r),
        r.bounded(),
{
    assert forall|piece: Piece, s: int| 0 <= s < 90 implies #[trigger] param_piece_value(r, piece, s) == piece_value_spec(piece, s) by {
        reveal(piece_value_spec);
        let pt = piece.piece_type_spec();
        let i = table_index(piece.color_spec(), s);
        assert(PieceType::from_idx(pt.idx()) == pt);
        assert(r.psts@[pt.idx()]@[i].mg == pst_spec(pt, Side::Red, i));
    }
    assert forall|t: PieceType, c: int| 0 <= c < mobility_table_len(t) implies #[trigger] param_mobility_bonus(r, t, c) == mobility_bonus(t, c) by {
        match t {
            PieceType::Knight => assert(r.knight_mobility@[c].mg == r.knight_mobility@[c].mg),
            PieceType::Rook => assert(r.rook_mobility@[c].mg == r.rook_mobility@[c].mg),
            PieceType::Cannon => assert(r.cannon_mobility@[c].mg == r.cannon_mobility@[c].mg),
            _ => {},
        }
    }
    assert forall|a: int, q: int| 0 <= a < 7 && 0 <= q < 90 implies -PARAM_LIMIT <= #[trigger] r.psts@[a]@[q].mg <= PARAM_LIMIT && -PARAM_LIMIT <= r.psts@[a]@[q].eg <= PARAM_LIMIT by {
        lemma_pst_bounds(PieceType::from_idx(a), Side::Red, q);
    }
    assert forall|c: int| 0 <= c < 9 implies -PARAM_LIMIT <= #[trigger] r.knight_mobility@[c].mg <= PARAM_LIMIT && -PARAM_LIMIT <= r.knight_mobility@[c].eg <= PARAM_LIMIT by {
        lemma_mobility_bonus_bounds(PieceType::Knight, c);
    }
    assert forall|c: int| 0 <= c < 18 implies -PARAM_LIMIT <= #[trigger] r.rook_mobility@[c].mg <= PARAM_LIMIT && -PARAM_LIMIT <= r.rook_mobility@[c].eg <= PARAM_LIMIT by {
        lemma_mobility_bonus_bounds(PieceType::Rook, c);
    }
    assert forall|c: int| 0 <= c < 18 implies -PARAM_LIMIT <= #[trigger] r.cannon_mobility@[c].mg <= PARAM_LIMIT && -PARAM_LIMIT <= r.cannon_mobility@[c].eg <= PARAM_LIMIT by {
        lemma_mobility_bonus_bounds(PieceType::Cannon, c);
    }
    assert forall|k: int| 0 <= k < 7 implies -PARAM_LIMIT <= #[trigger] r.material@[k].mg <= PARAM_LIMIT && -PARAM_LIMIT <= r.material@[k].eg <= PARAM_LIMIT by {
        assert(r.material@[k] == r.material@[k]);
    }
    assert forall|k: int| 0 <= k < 3 implies -PARAM_LIMIT <= #[trigger] r.advisor_count_bonus@[k].mg <= PARAM_LIMIT && -PARAM_LIMIT <= r.advisor_count_bonus@[k].eg <= PARAM_LIMIT by {
        assert(r.advisor_count_bonus@[k] == PackedScore { mg: ADVISOR_COUNT_MG@[k], eg: ADVISOR_COUNT_EG@[k] });
    }
    assert forall|k: int| 0 <= k < 3 implies -PARAM_LIMIT <= #[trigger] r.bishop_count_bonus@[k].mg <= PARAM_LIMIT && -PARAM_LIMIT <= r.bishop_count_bonus@[k].eg <= PARAM_LIMIT by {
        assert(r.bishop_count_bonus@[k] == PackedScore { mg: BISHOP_COUNT_MG@[k], eg: BISHOP_COUNT_EG@[k] });
    }
    lemma_fields_bounded(r);
}

/// Under the built-in parameters the sum over the first `n` squares is the
/// incremental score's.
proof fn lemma_default_fold(b: Seq<Option<Piece>>, p: &EvalParams, n: int)
    requires
        is_default(p),
        n <= 90,
    ensures
        param_fold(b, p, n) == score_fold(b, n),
    decreases n,
{
    if n > 0 {
        lemma_default_fold(b, p, n - 1);
        match b[n - 1] {
            Some(piece) => {
                assert(param_piece_value(p, piece, n - 1) == piece_value_spec(piece, n - 1));
            },
            None => {},
        }
    }
}

/// Under the built-in parameters the mobility bonus of pieces that fit their
/// tables is the built-in one.
proof fn lemma_default_kind_mobility(b: Seq<Option<Piece>>, p: &EvalParams, side: Side, t: PieceType, origins: Seq<int>)
    requires
        is_default(p),
        mobility_fits(b),
        t == PieceType::Knight || t == PieceType::Rook || t == PieceType::Cannon,
        forall|i: int| 0 <= i < origins.len() ==> side_type_set(b, side, t).contains(#[trigger] origins[i]),
    ensures
        param_kind_mobility(b, p, side, t, origins) == kind_mobility(b, side, t, origins),
    decreases origins.len(),
{
    if origins.len() > 0 {
        lemma_default_kind_mobility(b, p, side, t, origins.drop_last());
        let o = origins.last();
        assert(side_type_set(b, side, t).contains(origins[origins.len() - 1]));
        let c = target_count(b, side, t, o);
        assert(param_mobility_bonus(p, t, c) == mobility_bonus(t, c));
    }
}

/// Under the built-in parameters the mobility bonus of a side's pieces of type `t`
/// is the built-in one.
proof fn lemma_default_type_mobility(b: Seq<Option<Piece>>, p: &EvalParams, side: Side, t: PieceType)
    requires
        is_default(p),
        mobility_fits(b),
        t == PieceType::Knight || t == PieceType::Rook || t == PieceType::Cannon,
    ensures
        param_type_mobility(b, p, side, t) == type_mobility(b, side, t),
{
    lemma_squares_up_elems(side_type_set(b, side, t), 90);
    lemma_default_kind_mobility(b, p, side, t, squares_up(side_type_set(b, side, t), 90));
}

/// Under the built-in parameters the mobility score of a board whose pieces fit
/// their tables is the built-in one.
proof fn lemma_default_mobility(b: Seq<Option<Piece>>, p: &EvalParams)
    requires
        is_default(p),
        mobility_fits(b),
    ensures
        param_mobility(b, p) == mobility_spec(b),
{
    lemma_default_type_mobility(b, p, Side::Red, PieceType::Knight);
    lemma_default_type_mobility(b, p, Side::Red, PieceType::Rook);
    lemma_default_type_mobility(b, p, Side::Red, PieceType::Cannon);
    lemma_default_type_mobility(b, p, Side::Black, PieceType::Knight);
    lemma_default_type_mobility(b, p, Side::Black, PieceType::Rook);
    lemma_default_type_mobility(b, p, Side::Black, PieceType::Cannon);
}

/// Under the built-in parameters the defender bonus of a board with at most two
/// advisors and two bishops a side is the built-in one.
proof fn lemma_default_defenders(b: Seq<Option<Piece>>, p: &EvalParams)
    requires
        is_default(p),
        defenders_fit(b),
    ensures
        param_defenders(b, p) == defender_spec(b),
{
    assert(PieceType::Advisor.piece_of(Side::Red) == Piece::RedAdvisor);
    assert(PieceType::Bishop.piece_of(Side::Red) == Piece::RedBishop);
    assert(PieceType::Advisor.piece_of(Side::Black) == Piece::BlackAdvisor);
    assert(PieceType::Bishop.piece_of(Side::Black) == Piece::BlackBishop);
    let ra = count_spec(b, Piece::RedAdvisor) as int;
    let rb = count_spec(b, Piece::RedBishop) as int;
    let ba = count_spec(b, Piece::BlackAdvisor) as int;
    let bb = count_spec(b, Piece::BlackBishop) as int;
    assert(p.advisor_count_bonus@[ra] == PackedScore { mg: ADVISOR_COUNT_MG@[ra], eg: ADVISOR_COUNT_EG@[ra] });
    assert(p.bishop_count_bonus@[rb] == PackedScore { mg: BISHOP_COUNT_MG@[rb], eg: BISHOP_COUNT_EG@[rb] });
    assert(p.advisor_count_bonus@[ba] == PackedScore { mg: ADVISOR_COUNT_MG@[ba], eg: ADVISOR_COUNT_EG@[ba] });
    assert(p.bishop_count_bonus@[bb] == PackedScore { mg: BISHOP_COUNT_MG@[bb], eg: BISHOP_COUNT_EG@[bb] });
}

/// Under the built-in parameters, the evaluation with parameters is the built-in
/// evaluation, for every position that can be evaluated.
pub proof fn lemma_default_evaluation(pos: &Position, p: &EvalParams)
    requires
        evaluable(pos),
        is_default(p),
    ensures
        eval_with_spec(pos, p) == eval_spec(pos),
{
    let b = pos.board_view();
    pos.lemma_wf_basics();
    pos.lemma_terms();
    lemma_default_fold(b, p, 90);
    lemma_default_mobility(b, p);
    lemma_default_defenders(b, p);

}

/// Under any parameters, a red pawn counts as crossed (the crossed-pawn value) on
/// ranks 5 to 9 and takes the pawn value on ranks 0 to 4; a black pawn counts as
/// crossed on ranks 0 to 4 and takes the pawn value on ranks 5 to 9.
pub proof fn lemma_param_pawn_values_by_rank(p: &EvalParams, s: int)
    requires
        0 <= s < 90,
    ensures
        param_material(p, Piece::RedPawn, s) == (if s / 9 >= 5 {
            p.pawn_crossed
        } else {
            p.material@[3]
        }),
        param_material(p, Piece::BlackPawn, s) == (if s / 9 <= 4 {
            p.pawn_crossed
        } else {
            p.material@[3]
        }),
{
}


/// The material value of `piece` on `sq` under `params` (see [`param_material`]).
fn piece_material_value_tapered_with_params(piece: Piece, sq: Square, params: &EvalParams) -> (r: PackedScore)
    requires
        params.bounded(),
    ensures
        r == param_material(params, piece, sq.idx()),
        -PARAM_LIMIT <= r.mg <= PARAM_LIMIT,
        -PARAM_LIMIT <= r.eg <= PARAM_LIMIT,
{
    proof {
        lemma_bounded_fields(params);
    }
    let pt = piece.piece_type();
    if pt == PieceType::Pawn {
        let crossed = match piece.color() {
            Side::Red => sq.index() / 9 >= 5,
            Side::Black => sq.index() / 9 <= 4,
        };
        if crossed {
            params.pawn_crossed
        } else {
            params.material[3]
        }
    } else if pt == PieceType::King {
        PackedScore { mg: 0, eg: 0 }
    } else {
        params.material[pt.index()]
    }
}

/// The piece-square value under `params` of a piece of type `piece_type` and side
/// `color` on `sq` (see [`param_pst`]).
fn piece_square_table_value_tapered_with_params(
    piece_type: PieceType,
    color: Side,
    sq: Square,
    params: &EvalParams,
) -> (r: PackedScore)
    requires
        params.bounded(),
    ensures
        r == param_pst(params, piece_type, color, sq.idx()),
        -PARAM_LIMIT <= r.mg <= PARAM_LIMIT,
        -PARAM_LIMIT <= r.eg <= PARAM_LIMIT,
{
    proof {
        lemma_bounded_fields(params);
    }
    let index: usize = match color {
        Side::Red => sq.index() as usize,
        Side::Black => 89 - sq.index() as usize,
    };
    params.psts[piece_type.index()][index]
}

/// The mobility bonus under `params` of a piece of type `t` reaching `count`
/// squares.
fn param_mobility_bonus_exec(params: &EvalParams, t: PieceType, count: usize) -> (r: (i64, i64))
    requires
        params.bounded(),
        count < mobility_table_len(t),
    ensures
        (r.0 as int, r.1 as int) == param_mobility_bonus(params, t, count as int),
        -PARAM_LIMIT <= r.0 <= PARAM_LIMIT,
        -PARAM_LIMIT <= r.1 <= PARAM_LIMIT,
{
    proof {
        lemma_bounded_fields(params);
    }
    match t {
        PieceType::Knight => (params.knight_mobility[count].mg as i64, params.knight_mobility[count].eg as i64),
        PieceType::Rook => (params.rook_mobility[count].mg as i64, params.rook_mobility[count].eg as i64),
        PieceType::Cannon => (params.cannon_mobility[count].mg as i64, params.cannon_mobility[count].eg as i64),
        _ => (0, 0),
    }
}

/// The mobility bonus under `params` of the pieces of type `t` of side `side`.
fn param_type_mobility_exec(pos: &Position, params: &EvalParams, side: Side, t: PieceType) -> (r: (i64, i64))
    requires
        pos.tables_wf(),
        params.bounded(),
        mobility_fits(pos.board_view()),
        t == PieceType::Knight || t == PieceType::Rook || t == PieceType::Cannon,
    ensures
        (r.0 as int, r.1 as int) == param_type_mobility(pos.board_view(), params, side, t),
        -90 * PARAM_LIMIT <= r.0 <= 90 * PARAM_LIMIT,
        -90 * PARAM_LIMIT <= r.1 <= 90 * PARAM_LIMIT,
{
    let ghost b = pos.board_view();
    let mut origins = pos.bitboard_of(side, t);
    let ghost o0 = origins@;
    let ghost mut done: Seq<int> = Seq::empty();
    let mut mg: i64 = 0;
    let mut eg: i64 = 0;
    proof {
        pos.lemma_wf_basics();
        lemma_squares_up_len(o0, 90);
        assert(done + squares_up(o0, 90) =~= squares_up(o0, 90));
        assert(on_board(origins@));
    }
    loop
        invariant
            pos.tables_wf(),
            params.bounded(),
            b == pos.board_view(),
            mobility_fits(b),
            t == PieceType::Knight || t == PieceType::Rook || t == PieceType::Cannon,
            o0 == side_type_set(b, side, t),
            squares_up(o0, 90) == done + squares_up(origins@, 90),
            origins@.subset_of(o0),
            on_board(origins@),
            done.len() <= 90,
            squares_up(o0, 90).len() <= 90,
            (mg as int, eg as int) == param_kind_mobility(b, params, side, t, done),
            -1_000_000 * done.len() <= mg <= 1_000_000 * done.len(),
            -1_000_000 * done.len() <= eg <= 1_000_000 * done.len(),
        ensures
            (mg as int, eg as int) == param_kind_mobility(b, params, side, t, squares_up(o0, 90)),
            -90_000_000 <= mg <= 90_000_000,
            -90_000_000 <= eg <= 90_000_000,
        decreases squares_up(origins@, 90).len(),
    {
        let ghost rem = origins@;
        match origins.pop_lsb() {
            Some(from) => {
                proof {
                    lemma_squares_up_pop(rem, from.idx(), 90);
                    assert(done.push(from.idx()) + squares_up(origins@, 90) =~= done + squares_up(rem, 90));
                    assert(done.push(from.idx()).drop_last() =~= done);
                    assert(side_type_set(b, side, t).contains(from.idx()));
                    assert(done.len() < 90);
                }
                let targets = piece_targets_bb(pos, side, t, from);
                let count = count_squares(targets) as usize;
                let bonus = param_mobility_bonus_exec(params, t, count);
                mg = mg + bonus.0;
                eg = eg + bonus.1;
                proof {
                    done = done.push(from.idx());
                }
            },
            None => {
                proof {
                    lemma_squares_up_none(rem, 90);
                    assert(done =~= squares_up(o0, 90));
                }
                break ;
            },
        }
    }
    (mg, eg)
}

/// The mobility bonus under `params` of the knights, rooks and cannons of `side`.
fn compute_side_mobility_with_params(pos: &Position, side: Side, params: &EvalParams) -> (r: (i64, i64))
    requires
        pos.tables_wf(),
        params.bounded(),
        mobility_fits(pos.board_view()),
    ensures
        ({
            let b = pos.board_view();
            let n = param_type_mobility(b, params, side, PieceType::Knight);
            let k = param_type_mobility(b, params, side, PieceType::Rook);
            let c = param_type_mobility(b, params, side, PieceType::Cannon);
            (r.0 as int, r.1 as int) == (n.0 + k.0 + c.0, n.1 + k.1 + c.1)
        }),
        -270_000_000 <= r.0 <= 270_000_000,
        -270_000_000 <= r.1 <= 270_000_000,
{
    let n = param_type_mobility_exec(pos, params, side, PieceType::Knight);
    let k = param_type_mobility_exec(pos, params, side, PieceType::Rook);
    let c = param_type_mobility_exec(pos, params, side, PieceType::Cannon);
    (n.0 + k.0 + c.0, n.1 + k.1 + c.1)
}

/// The mobility score under `params`, from Red's side (see [`param_mobility`]).
fn compute_mobility_score_with_params(pos: &Position, params: &EvalParams) -> (r: (i64, i64))
    requires
        pos.tables_wf(),
        params.bounded(),
        mobility_fits(pos.board_view()),
    ensures
        (r.0 as int, r.1 as int) == param_mobility(pos.board_view(), params),
        -540_000_000 <= r.0 <= 540_000_000,
        -540_000_000 <= r.1 <= 540_000_000,
{
    let red = compute_side_mobility_with_params(pos, Side::Red, params);
    let black = compute_side_mobility_with_params(pos, Side::Black, params);
    (red.0 - black.0, red.1 - black.1)
}

/// The defender bonus under `params`, from Red's side (see [`param_defenders`]).
fn compute_defender_bonus_with_params(pos: &Position, params: &EvalParams) -> (r: (i64, i64))
    requires
        pos.wf(),
        params.bounded(),
        defenders_fit(pos.board_view()),
    ensures
        (r.0 as int, r.1 as int) == param_defenders(pos.board_view(), params),
        -4_000_000 <= r.0 <= 4_000_000,
        -4_000_000 <= r.1 <= 4_000_000,
{
    proof {
        lemma_bounded_fields(params);
    }
    let ra = params.advisor_count_bonus[pos.piece_count(Piece::RedAdvisor) as usize];
    let rb = params.bishop_count_bonus[pos.piece_count(Piece::RedBishop) as usize];
    let ba = params.advisor_count_bonus[pos.piece_count(Piece::BlackAdvisor) as usize];
    let bb = params.bishop_count_bonus[pos.piece_count(Piece::BlackBishop) as usize];
    (
        ra.mg as i64 + rb.mg as i64 - ba.mg as i64 - bb.mg as i64,
        ra.eg as i64 + rb.eg as i64 - ba.eg as i64 - bb.eg as i64,
    )
}

/// The static evaluation of `pos` from Red's side under the parameters `params`
/// (see [`eval_with_spec`]).
pub fn evaluate_with_params(pos: &Position, params: &EvalParams) -> (r: Score)
    requires
        evaluable(pos),
        params.bounded(),
    ensures
        r == eval_with_spec(pos, params),
{
    let ghost b = pos.board_view();
    proof {
        pos.lemma_wf_basics();
        lemma_bounded_fields(params);
    }
    let mut base_mg: i64 = 0;
    let mut base_eg: i64 = 0;
    let mut phase: u8 = 0;
    let mut i: u8 = 0;
    while i < 90
        invariant
            i <= 90,
            b == pos.board_view(),
            b.len() == 90,
            pos.tables_wf(),
            params.bounded(),
            (base_mg as int, base_eg as int) == param_fold(b, params, i as int),
            phase as int == crate::boardspec::phase_fold(b, i as int),
            phase <= 2 * i,
            -2_000_000 * i <= base_mg <= 2_000_000 * i,
            -2_000_000 * i <= base_eg <= 2_000_000 * i,
        decreases 90 - i,
    {
        let sq = Square::from_repr(i).unwrap();
        match pos.piece_at(sq) {
            Some(piece) => {
                let m = piece_material_value_tapered_with_params(piece, sq, params);
                let t = piece_square_table_value_tapered_with_params(piece.piece_type(), piece.color(), sq, params);
                let v = (m.mg as i64 + t.mg as i64, m.eg as i64 + t.eg as i64);
                if piece.color() == Side::Red {
                    base_mg = base_mg + v.0;
                    base_eg = base_eg + v.1;
                } else {
                    base_mg = base_mg - v.0;
                    base_eg = base_eg - v.1;
                }
                phase = phase + crate::eval::values::piece_phase_weight(piece.piece_type());
            },
            None => {},
        }
        i = i + 1;
    }
    let mobility = compute_mobility_score_with_params(pos, params);
    let defenders = compute_defender_bonus_with_params(pos, params);
    let mg = base_mg + mobility.0 + defenders.0;
    let eg = base_eg + mobility.1 + defenders.1;
    let p: i64 = if phase > 32 {
        32
    } else {
        phase as i64
    };
    proof {
        assert(p == clamp_phase(phase as int));
        assert(-800_000_000 * p <= mg * p <= 800_000_000 * p) by (nonlinear_arith)
            requires
                -800_000_000 <= mg <= 800_000_000,
                0 <= p <= 32,
        ;
        assert(-800_000_000 * (32 - p) <= eg * (32 - p) <= 800_000_000 * (32 - p)) by (nonlinear_arith)
            requires
                -800_000_000 <= eg <= 800_000_000,
                0 <= p <= 32,
        ;
    }
    let sum = mg * p + eg * (32 - p);
    let r = if sum >= 0 {
        (sum + 16) / 32
    } else {
        -((16 - sum) / 32)
    };
    proof {
        assert(-800_000_001 <= r <= 800_000_001);
    }
    r as Score
}

} // verus!
