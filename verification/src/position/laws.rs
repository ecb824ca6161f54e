//! Laws of the position: what playing and taking back a move does, what the
//! legality and check tests mean in terms of the position reached, and the
//! values the draw rules can give.
use crate::boardspec::{count_spec, lemma_count_update, phase_spec, score_spec};
use crate::movegen::{lemma_squares_up_elems, lemma_squares_up_none, squares_up};
use crate::position::rules::{
    chase_bits, chase_bits_to, chase_scan, chase_targets, chase_verdict, chased_spec, chaser_attacks, chasers,
    checked_throughout, first_repetition, mask_of, material_case, piece_ids, state_after, state_back,
};
use crate::position::{Position, attackers_of, board_after, lemma_undo_after_do};
use crate::score::{DRAW, MATE, ZERO, Score};
use crate::types::{Move, Piece, PieceType, Side};
use crate::position::StateInfo;
use vstd::prelude::*;

verus! {

/// Whether `m` moves a piece and every king it moves or captures stands on the
/// square recorded for it: the moves that taking back undoes exactly.
pub open spec fn plain_move(p: &Position, m: Move) -> bool {
    &&& m.valid()
    &&& m.from_idx() != m.to_idx()
    &&& p.board_view()[m.from_idx()] is Some
    &&& p.board_view()[m.to_idx()] is Some && p.board_view()[m.to_idx()]->0.piece_type_spec()
        == PieceType::King ==> p.king_sq(p.board_view()[m.to_idx()]->0.color_spec()) == m.to_idx()
    &&& p.board_view()[m.from_idx()]->0.piece_type_spec() == PieceType::King ==> p.king_sq(
        p.board_view()[m.from_idx()]->0.color_spec(),
    ) == m.from_idx()
}

/// Playing a move and taking it back gives the position back: the same board,
/// state (hash, clock, score, phase, check flag), history, ply, side to move and
/// king squares, and a consistent position.
pub proof fn lemma_do_undo_round_trip(p0: &Position, p1: &Position, p2: &Position, m: Move)
    requires
        p0.wf(),
        plain_move(p0, m),
        p0.did_move(m, p1),
        p1.undid_move(m, p2),
    ensures
        p2.wf(),
        p2.board_view() == p0.board_view(),
        p2.state_view() == p0.state_view(),
        p2.history_view() == p0.history_view(),
        p2.ply_spec() == p0.ply_spec(),
        p2.side_spec() == p0.side_spec(),
        forall|c: Side| #[trigger] p2.king_sq(c) == p0.king_sq(c),
        forall|pc: Piece| #[trigger] count_spec(p2.board_view(), pc) == count_spec(p0.board_view(), pc),
{
    lemma_undo_after_do(p0, p1, p2, m);
    p2.lemma_same(p0);
}

/// Playing a move puts the moved piece on the destination, empties the origin,
/// leaves every other square, passes the turn, takes one copy of a captured piece
/// off the board, and resets the sixty-move clock on a capture (counts it up
/// otherwise).
pub proof fn lemma_do_move_effects(p0: &Position, p1: &Position, m: Move)
    requires
        p0.wf(),
        m.valid(),
        m.from_idx() != m.to_idx(),
        p0.board_view()[m.from_idx()] is Some,
        p0.did_move(m, p1),
    ensures
        p1.board_view()[m.to_idx()] == p0.board_view()[m.from_idx()],
        p1.board_view()[m.from_idx()] is None,
        forall|s: int|
            0 <= s < 90 && s != m.from_idx() && s != m.to_idx() ==> #[trigger] p1.board_view()[s]
                == p0.board_view()[s],
        p1.side_spec() == p0.side_spec().opp(),
        p0.board_view()[m.to_idx()] matches Some(c) ==> count_spec(p1.board_view(), c) + 1 == count_spec(
            p0.board_view(),
            c,
        ),
        p1.state_view().sixtymove_clock == (if p0.board_view()[m.to_idx()] is Some {
            0
        } else {
            p0.state_view().sixtymove_clock + 1
        }),
{
    p0.lemma_wf_basics();
    let b = p0.board_view();
    let f = m.from_idx();
    let t = m.to_idx();
    if let Some(c) = b[t] {
        let b1 = b.update(f, None);
        lemma_count_update(b, c, f, None, b.len() as int);
        lemma_count_update(b1, c, t, b[f], b1.len() as int);
        assert(b1[t] == Some(c));
    }
}

/// A legal move is one after which the mover's king is not attacked: `legal`
/// holds exactly when, in the position reached, the side that moved is not in
/// check.
pub proof fn lemma_legal_means_not_in_check(p0: &Position, p1: &Position, m: Move)
    requires
        p0.wf(),
        plain_move(p0, m),
        p0.board_view()[m.from_idx()]->0.color_spec() == p0.side_spec(),
        p0.did_move(m, p1),
    ensures
        p0.legal_spec(m) == attackers_of(
            p1.board_view(),
            p1.king_sq(p0.side_spec()),
            p0.side_spec().opp(),
        ).is_empty(),
{
    assert(p1.king_sq(p0.side_spec()) == p1.king_sq(p0.side_spec()));
}

/// A move gives check exactly when, in the position reached, the side to move
/// (the opponent of the mover) is in check.
pub proof fn lemma_gives_check_means_in_check(p0: &Position, p1: &Position, m: Move)
    requires
        p0.wf(),
        plain_move(p0, m),
        p0.board_view()[m.from_idx()]->0.color_spec() == p0.side_spec(),
        p0.did_move(m, p1),
    ensures
        !attackers_of(
            board_after(p0.board_view(), m.from_idx(), m.to_idx()),
            p0.king_sq(p0.side_spec().opp()),
            p0.side_spec(),
        ).is_empty() == !attackers_of(p1.board_view(), p1.king_sq(p1.side_spec()), p1.side_spec().opp()).is_empty(),
{
    assert(p1.king_sq(p0.side_spec().opp()) == p0.king_sq(p0.side_spec().opp()));
    assert(p1.side_spec().opp() == p0.side_spec());
}

/// The incremental score and phase after a move are those of the board reached,
/// and taking the move back restores them.
pub proof fn lemma_incremental_terms(p0: &Position, p1: &Position, p2: &Position, m: Move)
    requires
        p0.wf(),
        plain_move(p0, m),
        p0.did_move(m, p1),
        p1.undid_move(m, p2),
    ensures
        (p1.state_view().score.mg as int, p1.state_view().score.eg as int) == score_spec(p1.board_view()),
        p1.state_view().phase as int == phase_spec(p1.board_view()),
        p2.state_view().score == p0.state_view().score,
        p2.state_view().phase == p0.state_view().phase,
{
    p1.lemma_terms();
    lemma_do_undo_round_trip(p0, p1, p2, m);
}

/// The draw rules give no verdict, a draw, a win in `ply` or a loss in `ply`; the
/// sixty-move rule (a clock of 120 plies or more) gives a draw.
pub proof fn lemma_rule_verdict_values(p: &Position, ply: int)
    requires
        0 <= ply <= 255,
    ensures
        p.rule_verdict(ply) is None || p.rule_verdict(ply) == Some(DRAW) || p.rule_verdict(ply) == Some(
            (MATE - ply) as Score,
        ) || p.rule_verdict(ply) == Some((-MATE + ply) as Score),
        p.state_view().sixtymove_clock >= 120 ==> p.rule_verdict(ply) == Some(DRAW),
{
}

/// The chase rule gives a draw, a win in `ply` or a loss in `ply`, and gives 0
/// (no verdict) when fewer states than the distance `d` are saved.
pub proof fn lemma_chase_verdict_values(
    b0: Seq<Option<Piece>>,
    kr0: int,
    kb0: int,
    h: Seq<StateInfo>,
    st: StateInfo,
    us: Side,
    d: int,
    ply: int,
)
    ensures
        chase_verdict(b0, kr0, kb0, h, st, us, d, ply) == DRAW || chase_verdict(b0, kr0, kb0, h, st, us, d, ply)
            == MATE - ply || chase_verdict(b0, kr0, kb0, h, st, us, d, ply) == -MATE + ply,
        h.len() < d ==> chase_verdict(b0, kr0, kb0, h, st, us, d, ply) == ZERO,
{
}

/// Setting bit `k` of a 16-bit mask sets no bit but `k`.
proof fn lemma_bit_or(a: u16, k: u8, i: u16)
    requires
        k < 16,
        i < 16,
    ensures
        ((a | (1u16 << k)) >> i) & 1u16 == 1u16 ==> (a >> i) & 1u16 == 1u16 || i == k as u16,
{
    let kk = k as u16;
    assert(((a | (1u16 << kk)) >> i) & 1u16 == 1u16 ==> (a >> i) & 1u16 == 1u16 || i == kk) by (bit_vector)
        requires
            kk < 16,
            i < 16,
    ;
}

/// Whether some square of `set` carries identifier `i`.
pub open spec fn id_in(ids: Seq<u8>, set: Set<int>, i: int) -> bool {
    exists|t: int| #![trigger set.contains(t)] set.contains(t) && 0 <= t < ids.len() && ids[t] as int == i
}

/// A bit set by gathering over `tos` was set in `acc` or is the identifier of a
/// square of `tos`.
proof fn lemma_chase_bits_to_ids(
    b: Seq<Option<Piece>>,
    stm: Side,
    kr: int,
    kb: int,
    ids: Seq<u8>,
    from: int,
    tos: Seq<int>,
    acc: u16,
    set: Set<int>,
    i: u16,
)
    requires
        i < 16,
        forall|j: int| 0 <= j < tos.len() ==> set.contains(#[trigger] tos[j]) && 0 <= tos[j] < ids.len(),
        forall|t: int| 0 <= t < ids.len() ==> #[trigger] ids[t] < 16,
    ensures
        (chase_bits_to(b, stm, kr, kb, ids, from, tos, acc) >> i) & 1u16 == 1u16 ==> (acc >> i) & 1u16 == 1u16
            || id_in(ids, set, i as int),
    decreases tos.len(),
{
    if tos.len() > 0 {
        let t = tos.last();
        assert(set.contains(tos[tos.len() - 1]));
        lemma_chase_bits_to_ids(b, stm, kr, kb, ids, from, tos.drop_last(), acc, set, i);
        let a = chase_bits_to(b, stm, kr, kb, ids, from, tos.drop_last(), acc);
        lemma_bit_or(a, ids[t], i);
    }
}

/// A bit of the mask gathered from the chasers on `froms` is the identifier of a
/// chase target.
proof fn lemma_chase_bits_ids(
    b: Seq<Option<Piece>>,
    stm: Side,
    kr: int,
    kb: int,
    mover: Side,
    ids: Seq<u8>,
    froms: Seq<int>,
    i: u16,
)
    requires
        i < 16,
        ids.len() == 90,
        forall|t: int| 0 <= t < ids.len() ==> #[trigger] ids[t] < 16,
    ensures
        (chase_bits(b, stm, kr, kb, mover, ids, froms) >> i) & 1u16 == 1u16 ==> id_in(
            ids,
            chase_targets(b, mover),
            i as int,
        ),
    decreases froms.len(),
{
    if froms.len() > 0 {
        let f = froms.last();
        lemma_chase_bits_ids(b, stm, kr, kb, mover, ids, froms.drop_last(), i);
        let set = chaser_attacks(b, mover, f).intersect(chase_targets(b, mover));
        lemma_squares_up_elems(set, 90);
        lemma_chase_bits_to_ids(
            b,
            stm,
            kr,
            kb,
            ids,
            f,
            squares_up(set, 90),
            chase_bits(b, stm, kr, kb, mover, ids, froms.drop_last()),
            set,
            i,
        );
        if id_in(ids, set, i as int) {
            let t = choose|t: int| #![trigger set.contains(t)] set.contains(t) && 0 <= t < ids.len() && ids[t] as int == i;
            assert(chase_targets(b, mover).contains(t));
        }
    } else {
        assert(0u16 >> i & 1u16 == 0u16) by (bit_vector);
    }
}

/// The chase mask only holds identifiers of chase targets (pieces of the
/// opponent of `mover` other than its king), and is empty when `mover` has no
/// piece that can chase.
pub proof fn lemma_chased_ids(
    b: Seq<Option<Piece>>,
    stm: Side,
    kr: int,
    kb: int,
    mover: Side,
    ids: Seq<u8>,
)
    requires
        ids.len() == 90,
        forall|t: int| 0 <= t < ids.len() ==> #[trigger] ids[t] < 16,
    ensures
        forall|i: u16|
            i < 16 && (#[trigger] (chased_spec(b, stm, kr, kb, mover, ids) >> i) & 1u16) == 1u16 ==> id_in(
                ids,
                chase_targets(b, mover),
                i as int,
            ),
        forall|t: int| #[trigger] chase_targets(b, mover).contains(t) ==> b[t] is Some && b[t]->0.color_spec()
            == mover.opp() && b[t]->0.piece_type_spec() != PieceType::King,
        chasers(b, mover).is_empty() ==> chased_spec(b, stm, kr, kb, mover, ids) == 0,
{
    assert forall|i: u16|
        i < 16 && (#[trigger] (chased_spec(b, stm, kr, kb, mover, ids) >> i) & 1u16) == 1u16 implies id_in(
        ids,
        chase_targets(b, mover),
        i as int,
    ) by {
        lemma_chase_bits_ids(b, stm, kr, kb, mover, ids, squares_up(chasers(b, mover), 90), i);
    }
    if chasers(b, mover).is_empty() {
        lemma_squares_up_none(chasers(b, mover), 90);
    }
}


/// A scan over states none of which is in check never stops on a check.
proof fn lemma_scan_meets_no_check(
    b0: Seq<Option<Piece>>,
    kr0: int,
    kb0: int,
    h: Seq<StateInfo>,
    st: StateInfo,
    us: Side,
    ids: Seq<u8>,
    k: int,
)
    requires
        forall|j: int| 0 <= j < k ==> !(#[trigger] state_back(h, st, j)).in_check,
    ensures
        chase_scan(b0, kr0, kb0, h, st, us, ids, k).2 != 2,
    decreases k,
{
    if k > 0 {
        lemma_scan_meets_no_check(b0, kr0, kb0, h, st, us, ids, k - 1);
        assert(!state_back(h, st, k - 1).in_check);
    }
}

/// A perpetual chaser loses: over a repetition of `d` plies held in the history,
/// none of whose positions is in check, if only the side to move kept chasing
/// (its chase mask is not empty, its opponent's is) the verdict is a loss for the
/// side to move (-MATE + ply), and if only its opponent kept chasing, a win for the
/// side to move (MATE - ply).
pub proof fn lemma_perpetual_chaser_loses(
    b0: Seq<Option<Piece>>,
    kr0: int,
    kb0: int,
    h: Seq<StateInfo>,
    st: StateInfo,
    us: Side,
    d: int,
    ply: int,
)
    requires
        d <= h.len(),
        forall|j: int| 0 <= j < d ==> !(#[trigger] state_back(h, st, j)).in_check,
    ensures
        ({
            let (cr, cb, status) = chase_scan(b0, kr0, kb0, h, st, us, piece_ids(b0), d);
            &&& mask_of(cr, cb, us) != 0 && mask_of(cr, cb, us.opp()) == 0 ==> chase_verdict(
                b0,
                kr0,
                kb0,
                h,
                st,
                us,
                d,
                ply,
            ) == -MATE + ply
            &&& mask_of(cr, cb, us) == 0 && mask_of(cr, cb, us.opp()) != 0 ==> chase_verdict(
                b0,
                kr0,
                kb0,
                h,
                st,
                us,
                d,
                ply,
            ) == MATE - ply
        }),
{
    lemma_scan_meets_no_check(b0, kr0, kb0, h, st, us, piece_ids(b0), d);
}

/// The draw rules of a position let a perpetual chaser lose: when neither the
/// sixty-move rule nor the material settles the game, the position repeats one `i`
/// plies back (the first such), no position of that loop is in check, and the
/// chase scan over the loop leaves only the side to move chasing, the verdict is a
/// loss for the side to move at ply `ply`; with only its opponent chasing, a win.
pub proof fn lemma_rule_verdict_perpetual_chase(p: &Position, ply: int, i: int)
    requires
        0 <= ply <= 255,
        p.state_view().sixtymove_clock < 120,
        material_case(p.board_view()) == 0,
        first_repetition(
            p.history_view(),
            p.state_view().zobrist,
            if (p.state_view().sixtymove_clock as int) < p.history_view().len() {
                p.state_view().sixtymove_clock as int
            } else {
                p.history_view().len() as int
            },
            4,
        ) == Some(i),
        i <= p.history_view().len(),
        forall|j: int| 0 <= j < i ==> !(#[trigger] state_back(p.history_view(), p.state_view(), j)).in_check,
    ensures
        ({
            let (cr, cb, status) = chase_scan(
                p.board_view(),
                p.king_sq(Side::Red),
                p.king_sq(Side::Black),
                p.history_view(),
                p.state_view(),
                p.side_spec(),
                piece_ids(p.board_view()),
                i,
            );
            let us = p.side_spec();
            &&& mask_of(cr, cb, us) != 0 && mask_of(cr, cb, us.opp()) == 0 ==> p.rule_verdict(ply) == Some(
                (-MATE + ply) as Score,
            )
            &&& mask_of(cr, cb, us) == 0 && mask_of(cr, cb, us.opp()) != 0 ==> p.rule_verdict(ply) == Some(
                (MATE - ply) as Score,
            )
        }),
{
    let h = p.history_view();
    let st = p.state_view();
    lemma_first_repetition_at_least(h, st.zobrist, if (st.sixtymove_clock as int) < h.len() {
        st.sixtymove_clock as int
    } else {
        h.len() as int
    }, 4);
    assert(i >= 4);
    assert(!state_back(h, st, 0).in_check);
    assert(!state_back(h, st, 1).in_check);
    assert(state_after(h, st, h.len() - 1) == state_back(h, st, 0));
    assert(state_after(h, st, h.len() - 2) == state_back(h, st, 1));
    assert(!checked_throughout(h, st, i, 1));
    assert(!checked_throughout(h, st, i, 0));
    lemma_perpetual_chaser_loses(
        p.board_view(),
        p.king_sq(Side::Red),
        p.king_sq(Side::Black),
        h,
        st,
        p.side_spec(),
        i,
        ply,
    );
}

/// A repetition found from distance `i` on is at least `i` plies back.
proof fn lemma_first_repetition_at_least(h: Seq<StateInfo>, hash: u64, max_back: int, i: int)
    ensures
        first_repetition(h, hash, max_back, i) matches Some(k) ==> k >= i,
    decreases max_back - i + 2,
{
    if !(i > max_back || i < 1 || i > h.len()) && h[h.len() - i].zobrist != hash {
        lemma_first_repetition_at_least(h, hash, max_back, i + 2);
    }
}

} // verus!
