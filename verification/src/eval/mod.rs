//! Static evaluation: material and piece-square values (kept incrementally by the
//! position), mobility of knights, rooks and cannons, and bonuses for the
//! defenders, blended between middlegame and endgame by the game phase.
pub mod eval_params;
pub mod features;
pub mod param_text;
pub mod values;

use crate::bitboard::on_board;
use crate::boardspec::{count_spec, lemma_count_bound, phase_spec, score_spec};
use crate::movegen::{count_squares, lemma_squares_up_pop, lemma_squares_up_none, lemma_squares_up_len, piece_targets, piece_targets_bb, squares_up};
use crate::position::{Position, side_type_set};
use crate::score::{PackedScore, Score, small};
use crate::types::{Piece, PieceType, Side, Square, lemma_square_idx, lemma_square_from_idx};
use values::{
    lemma_pst_bounds, material_spec, piece_material_value, piece_square_table_value, pst_spec,
    ADVISOR_COUNT_EG, ADVISOR_COUNT_MG, BISHOP_COUNT_EG, BISHOP_COUNT_MG, CANNON_MOBILITY_EG,
    CANNON_MOBILITY_MG, KNIGHT_MOBILITY_EG, KNIGHT_MOBILITY_MG, MAX_PHASE, ROOK_MOBILITY_EG,
    ROOK_MOBILITY_MG,
};
use vstd::prelude::*;

verus! {

broadcast use {lemma_square_idx, lemma_square_from_idx};

/// The number of squares the piece of side `side` and type `t` on `from` may move
/// to (its mobility).
pub open spec fn target_count(b: Seq<Option<Piece>>, side: Side, t: PieceType, from: int) -> int {
    squares_up(piece_targets(b, side, t, from), 90).len() as int
}

/// The number of entries of the mobility table of piece type `t` (0 for the types
/// without mobility bonus).
pub open spec fn mobility_table_len(t: PieceType) -> int {
    match t {
        PieceType::Knight => 9,
        PieceType::Rook => 18,
        PieceType::Cannon => 18,
        _ => 0,
    }
}

/// The middlegame and endgame mobility bonus of a piece of type `t` reaching
/// `count` squares.
pub open spec fn mobility_bonus(t: PieceType, count: int) -> (int, int) {
    match t {
        PieceType::Knight => (KNIGHT_MOBILITY_MG@[count] as int, KNIGHT_MOBILITY_EG@[count] as int),
        PieceType::Rook => (ROOK_MOBILITY_MG@[count] as int, ROOK_MOBILITY_EG@[count] as int),
        PieceType::Cannon => (CANNON_MOBILITY_MG@[count] as int, CANNON_MOBILITY_EG@[count] as int),
        _ => (0, 0),
    }
}

/// The mobility bonus of the pieces of type `t` of side `side` on `origins`.
pub open spec fn kind_mobility(b: Seq<Option<Piece>>, side: Side, t: PieceType, origins: Seq<int>) -> (
    int,
    int,
)
    decreases origins.len(),
{
    if origins.len() == 0 {
        (0, 0)
    } else {
        let rest = kind_mobility(b, side, t, origins.drop_last());
        let bonus = mobility_bonus(t, target_count(b, side, t, origins.last()));
        (rest.0 + bonus.0, rest.1 + bonus.1)
    }
}

/// The mobility bonus of all pieces of type `t` of side `side`.
pub open spec fn type_mobility(b: Seq<Option<Piece>>, side: Side, t: PieceType) -> (int, int) {
    kind_mobility(b, side, t, squares_up(side_type_set(b, side, t), 90))
}

/// Whether every piece of type `t` of side `side` reaches fewer squares than the
/// mobility table of `t` has entries.
fn type_mobility_fits(pos: &Position, side: Side, t: PieceType) -> (r: bool)
    requires
        pos.tables_wf(),
    ensures
        r == forall|from: int|
            #[trigger] side_type_set(pos.board_view(), side, t).contains(from) ==> target_count(
                pos.board_view(),
                side,
                t,
                from,
            ) < mobility_table_len(t),
{
    let ghost b = pos.board_view();
    let mut origins = pos.bitboard_of(side, t);
    let ghost o0 = origins@;
    let ghost mut done: Set<int> = Set::empty();
    proof {
        pos.lemma_wf_basics();
        assert(o0 =~= done.union(origins@));
    }
    let len: u32 = match t {
        PieceType::Knight => 9,
        PieceType::Rook => 18,
        PieceType::Cannon => 18,
        _ => 0,
    };
    loop
        invariant
            pos.tables_wf(),
            b == pos.board_view(),
            o0 == side_type_set(b, side, t),
            o0 == done.union(origins@),
            on_board(origins@),
            len == mobility_table_len(t),
            forall|from: int| #[trigger] done.contains(from) ==> target_count(b, side, t, from) < len,
        ensures
            forall|from: int| #[trigger] o0.contains(from) ==> target_count(b, side, t, from) < len,
        decreases squares_up(origins@, 90).len(),
    {
        let ghost r0 = origins@;
        match origins.pop_lsb() {
            Some(from) => {
                proof {
                    lemma_squares_up_pop(r0, from.idx(), 90);
                }
                let targets = piece_targets_bb(pos, side, t, from);
                let count = count_squares(targets);
                if count >= len {
                    proof {
                        assert(o0.contains(from.idx()));
                    }
                    return false;
                }
                proof {
                    done = done.insert(from.idx());
                    assert(o0 =~= done.union(origins@));
                }
            },
            None => {
                proof {
                    assert(origins@ =~= Set::<int>::empty());
                    assert(o0 =~= done);
                }
                break ;
            },
        }
    }
    true
}

/// Whether the position can be evaluated (see [`evaluable`]): no side has more
/// than two advisors or two bishops, and every knight, rook and cannon reaches
/// fewer squares than its mobility table has entries.
pub fn evaluable_exec(pos: &Position) -> (r: bool)
    requires
        pos.wf(),
    ensures
        r == evaluable(pos),
{
    let ghost b = pos.board_view();
    if pos.piece_count(Piece::RedAdvisor) > 2 || pos.piece_count(Piece::BlackAdvisor) > 2
        || pos.piece_count(Piece::RedBishop) > 2 || pos.piece_count(Piece::BlackBishop) > 2 {
        return false;
    }
    let rn = type_mobility_fits(pos, Side::Red, PieceType::Knight);
    let rr = type_mobility_fits(pos, Side::Red, PieceType::Rook);
    let rc = type_mobility_fits(pos, Side::Red, PieceType::Cannon);
    let bn = type_mobility_fits(pos, Side::Black, PieceType::Knight);
    let br = type_mobility_fits(pos, Side::Black, PieceType::Rook);
    let bc = type_mobility_fits(pos, Side::Black, PieceType::Cannon);
    let fits = rn && rr && rc && bn && br && bc;
    proof {
        if fits {
            assert forall|side: Side, t: PieceType, from: int|
                (t == PieceType::Knight || t == PieceType::Rook || t == PieceType::Cannon)
                    && #[trigger] side_type_set(b, side, t).contains(from) implies target_count(
                b,
                side,
                t,
                from,
            ) < mobility_table_len(t) by {
                match side {
                    Side::Red => {},
                    Side::Black => {},
                }
            }
        } else {
            assert(!mobility_fits(b));
        }
    }
    fits
}

/// The mobility bonus of the knights, rooks and cannons of side `side`.
pub open spec fn side_mobility(b: Seq<Option<Piece>>, side: Side) -> (int, int) {
    let n = type_mobility(b, side, PieceType::Knight);
    let r = type_mobility(b, side, PieceType::Rook);
    let c = type_mobility(b, side, PieceType::Cannon);
    (n.0 + r.0 + c.0, n.1 + r.1 + c.1)
}

/// The mobility score of the board, from Red's side.
pub open spec fn mobility_spec(b: Seq<Option<Piece>>) -> (int, int) {
    let red = side_mobility(b, Side::Red);
    let black = side_mobility(b, Side::Black);
    (red.0 - black.0, red.1 - black.1)
}

/// Whether every knight, rook and cannon reaches fewer squares than its mobility
/// table has entries.
pub open spec fn mobility_fits(b: Seq<Option<Piece>>) -> bool {
    forall|side: Side, t: PieceType, from: int|
        (t == PieceType::Knight || t == PieceType::Rook || t == PieceType::Cannon)
            && #[trigger] side_type_set(b, side, t).contains(from) ==> target_count(b, side, t, from)
            < mobility_table_len(t)
}

/// The bonus of side `c` for its advisors and bishops, by their numbers.
pub open spec fn side_defenders(b: Seq<Option<Piece>>, c: Side) -> (int, int) {
    let a = count_spec(b, PieceType::Advisor.piece_of(c)) as int;
    let e = count_spec(b, PieceType::Bishop.piece_of(c)) as int;
    (ADVISOR_COUNT_MG@[a] + BISHOP_COUNT_MG@[e], ADVISOR_COUNT_EG@[a] + BISHOP_COUNT_EG@[e])
}

/// The defender bonus of the board, from Red's side.
pub open spec fn defender_spec(b: Seq<Option<Piece>>) -> (int, int) {
    let red = side_defenders(b, Side::Red);
    let black = side_defenders(b, Side::Black);
    (red.0 - black.0, red.1 - black.1)
}

/// Whether no side has more than two advisors or two bishops.
pub open spec fn defenders_fit(b: Seq<Option<Piece>>) -> bool {
    &&& count_spec(b, Piece::RedAdvisor) <= 2
    &&& count_spec(b, Piece::BlackAdvisor) <= 2
    &&& count_spec(b, Piece::RedBishop) <= 2
    &&& count_spec(b, Piece::BlackBishop) <= 2
}

/// The phase clamped to the full-board phase.
pub open spec fn clamp_phase(phase: int) -> int {
    if phase > MAX_PHASE {
        MAX_PHASE as int
    } else {
        phase
    }
}

/// The blend of a middlegame and an endgame score by game phase: the middlegame
/// score weighs `phase` thirty-seconds (the phase clamped to 32), the endgame score
/// the rest, rounded to the nearest integer, halves away from zero.
pub open spec fn tapered_spec(mg: int, eg: int, phase: int) -> int {
    let p = clamp_phase(phase);
    let sum = mg * p + eg * (32 - p);
    if sum >= 0 {
        (sum + 16) / 32
    } else {
        -((16 - sum) / 32)
    }
}

/// The static evaluation of a position, from Red's side: its incremental score
/// plus mobility and defender bonuses, blended by its phase.
pub open spec fn eval_spec(pos: &Position) -> int {
    let s = pos.state_view().score;
    let m = mobility_spec(pos.board_view());
    let d = defender_spec(pos.board_view());
    tapered_spec(s.mg + m.0 + d.0, s.eg + m.1 + d.1, pos.state_view().phase as int)
}

/// Whether the position can be evaluated: consistent, with mobility and defender
/// counts within their tables.
pub open spec fn evaluable(pos: &Position) -> bool {
    &&& pos.wf()
    &&& mobility_fits(pos.board_view())
    &&& defenders_fit(pos.board_view())
}

/// Blends a middlegame and an endgame score by game phase (see [`tapered_spec`]).
fn get_tapered_score(score: PackedScore, current_phase: u8) -> (r: Score)
    requires
        -0x100000 <= score.mg <= 0x100000,
        -0x100000 <= score.eg <= 0x100000,
    ensures
        r == tapered_spec(score.mg as int, score.eg as int, current_phase as int),
        -0x200000 <= r <= 0x200000,
{
    let phase: i32 = if current_phase > MAX_PHASE {
        MAX_PHASE as i32
    } else {
        current_phase as i32
    };
    let max_phase_score: i32 = MAX_PHASE as i32;
    assert(-0x2000000 <= score.mg * phase <= 0x2000000) by (nonlinear_arith)
        requires
            -0x100000 <= score.mg <= 0x100000,
            0 <= phase <= 32,
    ;
    assert(-0x2000000 <= score.eg * (max_phase_score - phase) <= 0x2000000) by (nonlinear_arith)
        requires
            -0x100000 <= score.eg <= 0x100000,
            0 <= max_phase_score - phase <= 32,
    ;
    let sum = score.mg * phase + score.eg * (max_phase_score - phase);
    if sum >= 0 {
        (sum + max_phase_score / 2) / max_phase_score
    } else {
        (sum - max_phase_score / 2) / max_phase_score
    }
}

/// The mobility bonus of a piece of type `t` reaching `count` squares.
pub(crate) fn mobility_bonus_exec(t: PieceType, count: usize) -> (r: PackedScore)
    requires
        count < mobility_table_len(t),
    ensures
        (r.mg as int, r.eg as int) == mobility_bonus(t, count as int),
        -114 <= r.mg <= 114,
        -114 <= r.eg <= 114,
{
    match t {
        PieceType::Knight => PackedScore::new(KNIGHT_MOBILITY_MG[count], KNIGHT_MOBILITY_EG[count]),
        PieceType::Rook => PackedScore::new(ROOK_MOBILITY_MG[count], ROOK_MOBILITY_EG[count]),
        PieceType::Cannon => PackedScore::new(CANNON_MOBILITY_MG[count], CANNON_MOBILITY_EG[count]),
        _ => PackedScore::new(0, 0),
    }
}

/// Entries of the mobility tables lie within -114..=114.
pub(crate) proof fn lemma_mobility_bonus_bounds(t: PieceType, count: int)
    requires
        0 <= count < mobility_table_len(t),
    ensures
        -114 <= mobility_bonus(t, count).0 <= 114,
        -114 <= mobility_bonus(t, count).1 <= 114,
{
    assert(forall|i: int| 0 <= i < 9 ==> -114 <= #[trigger] KNIGHT_MOBILITY_MG@[i] <= 114 && -114 <= KNIGHT_MOBILITY_EG@[i] <= 114);
    assert(forall|i: int| 0 <= i < 18 ==> -114 <= #[trigger] ROOK_MOBILITY_MG@[i] <= 114 && -114 <= ROOK_MOBILITY_EG@[i] <= 114);
    assert(forall|i: int| 0 <= i < 18 ==> -114 <= #[trigger] CANNON_MOBILITY_MG@[i] <= 114 && -114 <= CANNON_MOBILITY_EG@[i] <= 114);
}

/// The mobility bonus of the pieces of type `t` of side `side`.
fn type_mobility_exec(pos: &Position, side: Side, t: PieceType) -> (r: PackedScore)
    requires
        pos.tables_wf(),
        mobility_fits(pos.board_view()),
        t == PieceType::Knight || t == PieceType::Rook || t == PieceType::Cannon,
    ensures
        (r.mg as int, r.eg as int) == type_mobility(pos.board_view(), side, t),
        -114 * 90 <= r.mg <= 114 * 90,
        -114 * 90 <= r.eg <= 114 * 90,
{
    let ghost b = pos.board_view();
    let mut origins = pos.bitboard_of(side, t);
    let ghost o0 = origins@;
    let ghost mut done: Seq<int> = Seq::empty();
    let mut score = PackedScore::zero();
    proof {
        pos.lemma_wf_basics();
        lemma_squares_up_len(o0, 90);
        assert(done + squares_up(o0, 90) =~= squares_up(o0, 90));
        assert(on_board(origins@));
    }
    loop
        invariant
            pos.tables_wf(),
            b == pos.board_view(),
            mobility_fits(b),
            t == PieceType::Knight || t == PieceType::Rook || t == PieceType::Cannon,
            o0 == side_type_set(b, side, t),
            squares_up(o0, 90) == done + squares_up(origins@, 90),
            origins@.subset_of(o0),
            on_board(origins@),
            done.len() <= 90,
            squares_up(o0, 90).len() <= 90,
            (score.mg as int, score.eg as int) == kind_mobility(b, side, t, done),
            -114 * done.len() <= score.mg <= 114 * done.len(),
            -114 * done.len() <= score.eg <= 114 * done.len(),
        ensures
            (score.mg as int, score.eg as int) == kind_mobility(b, side, t, squares_up(o0, 90)),
            -114 * 90 <= score.mg <= 114 * 90,
            -114 * 90 <= score.eg <= 114 * 90,
        decreases squares_up(origins@, 90).len(),
    {
        let ghost rem = origins@;
        match origins.pop_lsb() {
            Some(from) => {
                proof {
                    lemma_squares_up_pop(rem, from.idx(), 90);
                    assert(done.push(from.idx()) + squares_up(origins@, 90) =~= done + squares_up(rem, 90));
                    assert(done.push(from.idx()).drop_last() =~= done);
                    assert(side_type_set(b, side, t).contains(from.idx()));
                }
                let targets = piece_targets_bb(pos, side, t, from);
                let count = count_squares(targets) as usize;
                let bonus = mobility_bonus_exec(t, count);
                score = score.add(bonus);
                proof {
                    done = done.push(from.idx());
                }
            },
            None => {
                proof {
                    lemma_squares_up_none(rem, 90);
                    assert(done =~= squares_up(o0, 90));
                }
                break ;
            },
        }
    }
    score
}

/// The mobility bonus of the knights, rooks and cannons of side `side`.
fn compute_side_mobility(pos: &Position, side: Side) -> (r: PackedScore)
    requires
        pos.tables_wf(),
        mobility_fits(pos.board_view()),
    ensures
        (r.mg as int, r.eg as int) == side_mobility(pos.board_view(), side),
        -114 * 270 <= r.mg <= 114 * 270,
        -114 * 270 <= r.eg <= 114 * 270,
{
    let knights = type_mobility_exec(pos, side, PieceType::Knight);
    let rooks = type_mobility_exec(pos, side, PieceType::Rook);
    let cannons = type_mobility_exec(pos, side, PieceType::Cannon);
    knights.add(rooks).add(cannons)
}

/// The mobility score of the position, from Red's side.
pub fn compute_mobility_score(pos: &Position) -> (r: PackedScore)
    requires
        pos.tables_wf(),
        mobility_fits(pos.board_view()),
    ensures
        (r.mg as int, r.eg as int) == mobility_spec(pos.board_view()),
        -114 * 540 <= r.mg <= 114 * 540,
        -114 * 540 <= r.eg <= 114 * 540,
{
    let red = compute_side_mobility(pos, Side::Red);
    let black = compute_side_mobility(pos, Side::Black);
    red.sub(black)
}

/// The defender bonus of the position, from Red's side.
pub fn compute_defender_bonus(pos: &Position) -> (r: PackedScore)
    requires
        pos.tables_wf(),
        defenders_fit(pos.board_view()),
    ensures
        (r.mg as int, r.eg as int) == defender_spec(pos.board_view()),
        -200 <= r.mg <= 200,
        -200 <= r.eg <= 200,
{
    let ra = pos.piece_count(Piece::RedAdvisor) as usize;
    let rb = pos.piece_count(Piece::RedBishop) as usize;
    let ba = pos.piece_count(Piece::BlackAdvisor) as usize;
    let bb = pos.piece_count(Piece::BlackBishop) as usize;
    let red = PackedScore::new(ADVISOR_COUNT_MG[ra] + BISHOP_COUNT_MG[rb], ADVISOR_COUNT_EG[ra] + BISHOP_COUNT_EG[rb]);
    let black = PackedScore::new(ADVISOR_COUNT_MG[ba] + BISHOP_COUNT_MG[bb], ADVISOR_COUNT_EG[ba] + BISHOP_COUNT_EG[bb]);
    red.sub(black)
}

/// The complete static evaluation of the position from Red's side (see
/// [`eval_spec`]).
pub fn evaluate(pos: &Position) -> (r: Score)
    requires
        evaluable(pos),
    ensures
        r == eval_spec(pos),
        -0x200000 <= r <= 0x200000,
{
    proof {
        pos.lemma_terms();
        pos.lemma_wf_basics();
        crate::boardspec::lemma_score_bounds(pos.board_view(), 90);
    }
    let base = pos.score();
    let mobility = compute_mobility_score(pos);
    let defenders = compute_defender_bonus(pos);
    get_tapered_score(base.add(mobility).add(defenders), pos.phase())
}

/// The middlegame and endgame scores of the board from scratch (see
/// [`Position::tapered_score_from_scratch`]).
pub fn tapered_score_from_scratch(pos: &Position) -> (r: PackedScore)
    requires
        pos.tables_wf(),
    ensures
        (r.mg as int, r.eg as int) == score_spec(pos.board_view()),
{
    pos.tapered_score_from_scratch()
}

/// The game phase of the board (see [`Position::calculate_board_phase`]).
pub fn calculate_phase(pos: &Position) -> (r: u8)
    requires
        pos.tables_wf(),
    ensures
        r as int == phase_spec(pos.board_view()),
{
    pos.calculate_board_phase()
}

impl Position {
    /// The static evaluation from the side to move's view.
    pub fn evaluate(&self) -> (r: Score)
        requires
            evaluable(self),
        ensures
            r == if self.side_spec() == Side::Red {
                eval_spec(self)
            } else {
                -eval_spec(self)
            },
    {
        let e = evaluate(self);
        if self.side_to_move() == Side::Red {
            e
        } else {
            -e
        }
    }
}


impl Position {
    /// The single-phase material and piece-square-table scores of the board, from
    /// Red's side, summed over all squares (see [`evaluation_fold`]).
    pub fn compute_evaluation_scores(&self) -> (r: (i32, i32))
        requires
            self.tables_wf(),
        ensures
            (r.0 as int, r.1 as int) == evaluation_fold(self.board_view(), 90),
    {
        let ghost b = self.board_view();
        proof {
            self.lemma_wf_basics();
        }
        let mut material: i32 = 0;
        let mut pst: i32 = 0;
        let mut i: u8 = 0;
        while i < 90
            invariant
                i <= 90,
                b == self.board_view(),
                b.len() == 90,
                self.tables_wf(),
                (material as int, pst as int) == evaluation_fold(b, i as int),
                -600 * i <= material <= 600 * i,
                -35 * i <= pst <= 35 * i,
            decreases 90 - i,
        {
            let sq = Square::from_repr(i).unwrap();
            match self.piece_at(sq) {
                Some(piece) => {
                    let color = piece.color();
                    let val = piece_material_value(piece, sq);
                    let table = piece_square_table_value(piece.piece_type(), color, sq);
                    proof {
                        lemma_pst_bounds(piece.piece_type_spec(), color, i as int);
                    }
                    if color == Side::Red {
                        material = material + val;
                        pst = pst + table;
                    } else {
                        material = material - val;
                        pst = pst - table;
                    }
                },
                None => {},
            }
            i = i + 1;
        }
        (material, pst)
    }

    /// The single-phase material score of the board, from Red's side (see
    /// [`Position::compute_evaluation_scores`]).
    pub fn material_score(&self) -> (r: i32)
        requires
            self.tables_wf(),
        ensures
            r as int == evaluation_fold(self.board_view(), 90).0,
    {
        self.compute_evaluation_scores().0
    }

    /// The single-phase piece-square-table score of the board, from Red's side
    /// (see [`Position::compute_evaluation_scores`]).
    pub fn piece_square_table_score(&self) -> (r: i32)
        requires
            self.tables_wf(),
        ensures
            r as int == evaluation_fold(self.board_view(), 90).1,
    {
        self.compute_evaluation_scores().1
    }

}


/// The single-phase material and piece-square-table scores of the first `n`
/// squares of board `b`, from Red's side: Red pieces count for, Black pieces
/// against.
pub open spec fn evaluation_fold(b: Seq<Option<Piece>>, n: int) -> (int, int)
    decreases n,
{
    if n <= 0 {
        (0, 0)
    } else {
        let rest = evaluation_fold(b, n - 1);
        match b[n - 1] {
            Some(p) => {
                let v = material_spec(p, n - 1);
                let t = pst_spec(p.piece_type_spec(), p.color_spec(), n - 1);
                if p.color_spec() == Side::Red {
                    (rest.0 + v, rest.1 + t)
                } else {
                    (rest.0 - v, rest.1 - t)
                }
            },
            None => rest,
        }
    }
}


} // verus!
