//! The rules that end a game early: the sixty-move rule, insufficient material,
//! and repetitions, where perpetual check and perpetual chase lose.
use crate::bitboard::{Bitboard, on_board, side_set};
use crate::boardspec::{count_spec, hash_fold, occ_set, side_key, zobrist_keys};
use crate::leapers::{knight_attacks, knight_set, pawn_attacks, pawn_set};
use crate::movegen::{
    count_pseudo_legal, generate_moves, generated, legal_list, lemma_generated_legal, lemma_squares_up_none,
    lemma_squares_up_pop, movable, movable_from, pseudo_legal, pseudo_legal_moves, squares_up,
};
use crate::movelist::{move_list_get, move_list_items, move_list_len, move_list_new};
use crate::position::{attackers_of, board_after, legal_on, side_type_set, Position, StateInfo};
use crate::score::{DRAW, MATE, Score, ZERO, mate_in, mated_in};
use crate::sliding::{cannon_capture_set, cannon_captures, rook_attacks, rook_set};
use crate::types::{
    Move, MoveGenType, Piece, PieceType, Side, Square, lemma_piece_parts, lemma_square_from_idx,
    lemma_square_idx,
};
use vstd::prelude::*;

verus! {

broadcast use {lemma_square_idx, lemma_square_from_idx, lemma_piece_parts};

/// The square recorded for the king of side `c`, given those of Red and Black.
pub open spec fn king_of(kr: int, kb: int, c: Side) -> int {
    if c == Side::Red {
        kr
    } else {
        kb
    }
}

/// The pieces of `mover` that can chase: rooks, cannons, knights, and pawns that
/// have crossed the river.
pub open spec fn chasers(b: Seq<Option<Piece>>, mover: Side) -> Set<int> {
    side_type_set(b, mover, PieceType::Rook).union(side_type_set(b, mover, PieceType::Cannon)).union(
        side_type_set(b, mover, PieceType::Knight),
    ).union(side_type_set(b, mover, PieceType::Pawn).intersect(side_set(mover.opp())))
}

/// The pieces of the opponent of `mover` that can be chased: rooks, cannons,
/// knights, advisors, bishops, and pawns that have crossed the river.
pub open spec fn chase_targets(b: Seq<Option<Piece>>, mover: Side) -> Set<int> {
    let opp = mover.opp();
    side_type_set(b, opp, PieceType::Rook).union(side_type_set(b, opp, PieceType::Cannon)).union(
        side_type_set(b, opp, PieceType::Knight),
    ).union(side_type_set(b, opp, PieceType::Advisor)).union(
        side_type_set(b, opp, PieceType::Bishop),
    ).union(side_type_set(b, opp, PieceType::Pawn).intersect(side_set(mover)))
}

/// The squares the chaser of `mover` on `from` attacks.
pub open spec fn chaser_attacks(b: Seq<Option<Piece>>, mover: Side, from: int) -> Set<int> {
    let occ = occ_set(b);
    match b[from]->0.piece_type_spec() {
        PieceType::Rook => rook_set(from, occ),
        PieceType::Cannon => cannon_capture_set(from, occ),
        PieceType::Knight => knight_set(from, occ),
        PieceType::Pawn => pawn_set(from, mover),
        _ => Set::empty(),
    }
}

/// Whether the piece on `from` chases the piece on `to`, on board `b` where `stm` is
/// to move and the kings are recorded on `kr` and `kb`: capturing is legal for the
/// side to move and either the target is a rook attacked by a knight or a cannon,
/// or the side to move's opponent has no legal recapture on `to` afterwards and, for
/// pieces of the same type, cannot legally capture the attacker first.
pub open spec fn chase_pair(
    b: Seq<Option<Piece>>,
    stm: Side,
    kr: int,
    kb: int,
    from: int,
    to: int,
) -> bool {
    let a = b[from]->0.piece_type_spec();
    let v = b[to]->0.piece_type_spec();
    let other = stm.opp();
    let after = board_after(b, from, to);
    &&& legal_on(b, stm, king_of(kr, kb, stm), from, to)
    &&& (v == PieceType::Rook && (a == PieceType::Knight || a == PieceType::Cannon)) || ((forall|s: int|
        #[trigger] attackers_of(after, to, b[to]->0.color_spec()).contains(s) ==> !legal_on(
            after,
            other,
            king_of(kr, kb, other),
            s,
            to,
        )) && (a == v ==> !legal_on(b, other, king_of(kr, kb, other), to, from)))
}

/// The chase mask gathered from the attacker on `from` over the targets `tos`, in
/// order, starting from `acc`: the bit of the identifier of each chased target is set.
pub open spec fn chase_bits_to(
    b: Seq<Option<Piece>>,
    stm: Side,
    kr: int,
    kb: int,
    ids: Seq<u8>,
    from: int,
    tos: Seq<int>,
    acc: u16,
) -> u16
    decreases tos.len(),
{
    if tos.len() == 0 {
        acc
    } else {
        let a = chase_bits_to(b, stm, kr, kb, ids, from, tos.drop_last(), acc);
        let t = tos.last();
        if chase_pair(b, stm, kr, kb, from, t) {
            a | (1u16 << ids[t])
        } else {
            a
        }
    }
}

/// The chase mask gathered from the attackers on `froms`, in order.
pub open spec fn chase_bits(
    b: Seq<Option<Piece>>,
    stm: Side,
    kr: int,
    kb: int,
    mover: Side,
    ids: Seq<u8>,
    froms: Seq<int>,
) -> u16
    decreases froms.len(),
{
    if froms.len() == 0 {
        0
    } else {
        let f = froms.last();
        chase_bits_to(
            b,
            stm,
            kr,
            kb,
            ids,
            f,
            squares_up(chaser_attacks(b, mover, f).intersect(chase_targets(b, mover)), 90),
            chase_bits(b, stm, kr, kb, mover, ids, froms.drop_last()),
        )
    }
}

/// The mask of the identifiers (given by `ids`, per square) of the pieces that the
/// chasers of `mover` chase.
pub open spec fn chased_spec(
    b: Seq<Option<Piece>>,
    stm: Side,
    kr: int,
    kb: int,
    mover: Side,
    ids: Seq<u8>,
) -> u16 {
    chase_bits(b, stm, kr, kb, mover, ids, squares_up(chasers(b, mover), 90))
}

/// The state current after `k` moves are taken back from a position whose states
/// before each move are `h` and whose current state is `st`.
pub open spec fn state_back(h: Seq<StateInfo>, st: StateInfo, k: int) -> StateInfo {
    if k == 0 {
        st
    } else {
        h[h.len() - k]
    }
}

/// The board and king squares after taking back `k` moves from the board `b0` with
/// kings recorded on `kr0` and `kb0`, the states being `h` and `st`: each step puts
/// the moved piece back on the origin of the state's last move and the captured
/// piece back on its destination.
pub open spec fn unwind(
    b0: Seq<Option<Piece>>,
    kr0: int,
    kb0: int,
    h: Seq<StateInfo>,
    st: StateInfo,
    k: int,
) -> (Seq<Option<Piece>>, int, int)
    decreases k,
{
    if k <= 0 {
        (b0, kr0, kb0)
    } else {
        let (b, kr, kb) = unwind(b0, kr0, kb0, h, st, k - 1);
        let s = state_back(h, st, k - 1);
        let m = s.last_move->0;
        let f = m.from_idx();
        let t = m.to_idx();
        let moved = b[t]->0;
        let cap = s.captured_piece;
        let king_back = |c: Side, k0: int|
            if moved.piece_type_spec() == PieceType::King && moved.color_spec() == c {
                f
            } else if cap matches Some(p) && p.piece_type_spec() == PieceType::King
                && p.color_spec() == c {
                t
            } else {
                k0
            };
        (b.update(t, cap).update(f, Some(moved)), king_back(Side::Red, kr), king_back(Side::Black, kb))
    }
}

/// The chase mask of side `c` among the masks of Red and Black.
pub open spec fn mask_of(cr: u16, cb: u16, c: Side) -> u16 {
    if c == Side::Red {
        cr
    } else {
        cb
    }
}

/// The side to move after taking back `k` moves, `us` being to move now.
pub open spec fn side_back(us: Side, k: int) -> Side {
    if k % 2 == 0 {
        us
    } else {
        us.opp()
    }
}

/// The chase masks of Red and Black and the scan status (0 going on, 1 stopped as
/// no chase is left, 2 stopped on a check) after `k` steps of taking back moves
/// from the position with board `b0`, kings `kr0` and `kb0`, states `h` and `st`,
/// `us` to move, piece identifiers `ids`. A step stops on a state in check; when the
/// side that moved last still has a chase mask, it keeps the pieces chased after
/// that move and not before it.
pub open spec fn chase_scan(
    b0: Seq<Option<Piece>>,
    kr0: int,
    kb0: int,
    h: Seq<StateInfo>,
    st: StateInfo,
    us: Side,
    ids: Seq<u8>,
    k: int,
) -> (u16, u16, int)
    decreases k,
{
    if k <= 0 {
        (0xFFFFu16, 0xFFFFu16, 0int)
    } else {
        let (cr, cb, status) = chase_scan(b0, kr0, kb0, h, st, us, ids, k - 1);
        let j = k - 1;
        let stm = side_back(us, j);
        if status != 0 {
            (cr, cb, status)
        } else if state_back(h, st, j).in_check {
            (cr, cb, 2)
        } else if mask_of(cr, cb, stm.opp()) == 0 {
            if mask_of(cr, cb, stm) == 0 {
                (cr, cb, 1)
            } else {
                (cr, cb, 0)
            }
        } else {
            let (b, kr, kb) = unwind(b0, kr0, kb0, h, st, j);
            let (b2, kr2, kb2) = unwind(b0, kr0, kb0, h, st, j + 1);
            let after = chased_spec(b, stm, kr, kb, stm.opp(), ids);
            let before = chased_spec(b2, stm.opp(), kr2, kb2, stm.opp(), ids);
            let upd = mask_of(cr, cb, stm.opp()) & (after & !before);
            if stm.opp() == Side::Red {
                (upd, cb, 0)
            } else {
                (cr, upd, 0)
            }
        }
    }
}

/// Whether step `j` of the scan takes a move back.
pub open spec fn scan_undoes(
    b0: Seq<Option<Piece>>,
    kr0: int,
    kb0: int,
    h: Seq<StateInfo>,
    st: StateInfo,
    us: Side,
    ids: Seq<u8>,
    j: int,
) -> bool {
    let (cr, cb, status) = chase_scan(b0, kr0, kb0, h, st, us, ids, j);
    let stm = side_back(us, j);
    &&& status == 0
    &&& !state_back(h, st, j).in_check
    &&& !(mask_of(cr, cb, stm.opp()) == 0 && mask_of(cr, cb, stm) == 0)
}

/// Whether the last move of the state current after `j` moves are taken back can
/// itself be taken back: it is recorded, joins two board squares and its
/// destination holds a piece.
pub open spec fn undo_ok(
    b0: Seq<Option<Piece>>,
    kr0: int,
    kb0: int,
    h: Seq<StateInfo>,
    st: StateInfo,
    j: int,
) -> bool {
    let s = state_back(h, st, j);
    let b = unwind(b0, kr0, kb0, h, st, j).0;
    &&& s.last_move is Some
    &&& s.last_move->0.valid()
    &&& s.last_move->0.from_idx() != s.last_move->0.to_idx()
    &&& b[s.last_move->0.to_idx()] is Some
}

/// Whether every move the first `k` steps of the scan take back can be taken back,
/// with a ply count `ply0` that stays positive.
pub open spec fn scan_safe(
    b0: Seq<Option<Piece>>,
    kr0: int,
    kb0: int,
    h: Seq<StateInfo>,
    st: StateInfo,
    us: Side,
    ids: Seq<u8>,
    ply0: int,
    k: int,
) -> bool
    decreases k,
{
    k <= 0 || (scan_safe(b0, kr0, kb0, h, st, us, ids, ply0, k - 1) && (scan_undoes(
        b0,
        kr0,
        kb0,
        h,
        st,
        us,
        ids,
        k - 1,
    ) ==> undo_ok(b0, kr0, kb0, h, st, k - 1) && k - 1 < ply0))
}

/// The identifier of the piece on square `s`: the number of pieces of the same side
/// on the squares before it (0 for an empty square).
pub open spec fn piece_id(b: Seq<Option<Piece>>, s: int) -> int {
    match b[s] {
        Some(p) => side_count(b, p.color_spec(), s),
        None => 0,
    }
}

/// The number of pieces of side `c` on the first `n` squares of `b`.
pub open spec fn side_count(b: Seq<Option<Piece>>, c: Side, n: int) -> int
    decreases n,
{
    if n <= 0 {
        0
    } else {
        side_count(b, c, n - 1) + if b[n - 1] matches Some(p) && p.color_spec() == c {
            1int
        } else {
            0int
        }
    }
}

/// The identifiers of the pieces of `b`, by square.
pub open spec fn piece_ids(b: Seq<Option<Piece>>) -> Seq<u8> {
    Seq::new(90, |s: int| piece_id(b, s) as u8)
}

/// The verdict on a repetition of `d` plies, at search ply `ply`, from the position
/// with board `b0`, kings `kr0` and `kb0`, states `h` and `st`, and `us` to move:
/// a draw when the loop is too long for the history or meets a check, a loss for a
/// side that alone keeps chasing, and a draw otherwise.
pub open spec fn chase_verdict(
    b0: Seq<Option<Piece>>,
    kr0: int,
    kb0: int,
    h: Seq<StateInfo>,
    st: StateInfo,
    us: Side,
    d: int,
    ply: int,
) -> int {
    if h.len() < d {
        ZERO as int
    } else {
        let (cr, cb, status) = chase_scan(b0, kr0, kb0, h, st, us, piece_ids(b0), d);
        let us_chasing = mask_of(cr, cb, us) != 0;
        let them_chasing = mask_of(cr, cb, us.opp()) != 0;
        if status == 2 {
            DRAW as int
        } else if us_chasing && them_chasing {
            DRAW as int
        } else if us_chasing {
            -MATE + ply
        } else if them_chasing {
            MATE - ply
        } else {
            DRAW as int
        }
    }
}

/// The number of copies of `p` on board `b`.
pub open spec fn cnt(b: Seq<Option<Piece>>, p: Piece) -> int {
    count_spec(b, p) as int
}

/// What the material on board `b` says: 0 when it does not settle the game, 1 when
/// it is a draw outright, 2 when it is a draw unless the side to move is mated now
/// or can mate at once. Only boards without pawns qualify: without rooks, cannons
/// or knights it is a draw; with a lone cannon, the result depends on the advisors
/// and bishops; with one cannon a side and nothing else but bishops, too.
pub open spec fn material_case(b: Seq<Option<Piece>>) -> int {
    let rc = cnt(b, Piece::RedCannon);
    let bc = cnt(b, Piece::BlackCannon);
    let rm = cnt(b, Piece::RedRook) + rc + cnt(b, Piece::RedKnight);
    let bm = cnt(b, Piece::BlackRook) + bc + cnt(b, Piece::BlackKnight);
    if cnt(b, Piece::RedPawn) + cnt(b, Piece::BlackPawn) != 0 {
        0
    } else if rm + bm == 0 {
        1
    } else if rc + bc == 1 && rm + bm == 1 {
        let our_advisor = if rc == 1 {
            Piece::RedAdvisor
        } else {
            Piece::BlackAdvisor
        };
        let our_bishop = if rc == 1 {
            Piece::RedBishop
        } else {
            Piece::BlackBishop
        };
        let their_advisor = if rc == 1 {
            Piece::BlackAdvisor
        } else {
            Piece::RedAdvisor
        };
        if cnt(b, our_advisor) != 0 {
            0
        } else if cnt(b, their_advisor) == 0 {
            1
        } else if cnt(b, their_advisor) == 1 {
            if cnt(b, our_bishop) == 0 {
                1
            } else {
                2
            }
        } else if cnt(b, our_bishop) == 0 {
            2
        } else {
            0
        }
    } else if rc == 1 && bc == 1 && rm == 1 && bm == 1 && cnt(b, Piece::RedAdvisor) + cnt(
        b,
        Piece::BlackAdvisor,
    ) == 0 {
        if cnt(b, Piece::RedBishop) + cnt(b, Piece::BlackBishop) == 0 {
            1
        } else {
            2
        }
    } else {
        0
    }
}

/// The king square of side `c` after the move `m` on board `b`, the kings being
/// recorded on `kr` and `kb`.
pub open spec fn king_after(b: Seq<Option<Piece>>, kr: int, kb: int, m: Move, c: Side) -> int {
    let moved = b[m.from_idx()]->0;
    if moved.piece_type_spec() == PieceType::King && moved.color_spec() == c {
        m.to_idx()
    } else {
        king_of(kr, kb, c)
    }
}

/// The legal moves of the opponent after `side` plays `m` on board `b`.
pub open spec fn replies(b: Seq<Option<Piece>>, side: Side, kr: int, kb: int, m: Move) -> Seq<Move> {
    legal_list(
        board_after(b, m.from_idx(), m.to_idx()),
        side.opp(),
        king_after(b, kr, kb, m, side.opp()),
    )
}

/// Whether legal move generation for `side` on board `b`, its king recorded on
/// `ksq`, fits a move list and starts from a piece.
pub open spec fn gen_fits(b: Seq<Option<Piece>>, side: Side, ksq: int) -> bool {
    &&& pseudo_legal_moves(b, side, ksq).len() <= 128
    &&& b[ksq] is Some
}

/// The verdict where the material leaves only a draw or a mate now: mated when
/// there is no legal move, unsettled when some legal move leaves the opponent
/// without one, a draw otherwise.
pub open spec fn mate_draw_verdict(
    b: Seq<Option<Piece>>,
    side: Side,
    kr: int,
    kb: int,
    ply: int,
) -> Option<Score> {
    let moves = legal_list(b, side, king_of(kr, kb, side));
    if moves.len() == 0 {
        Some((-MATE + ply) as Score)
    } else if exists|i: int| 0 <= i < moves.len() && #[trigger] replies(b, side, kr, kb, moves[i]).len() == 0 {
        None
    } else {
        Some(DRAW)
    }
}

/// The first ply distance `i` (even, from `i` on, at most `max_back`) at which the
/// state `i` plies back has the hash `hash`.
pub open spec fn first_repetition(h: Seq<StateInfo>, hash: u64, max_back: int, i: int) -> Option<int>
    decreases max_back - i + 2,
{
    if i > max_back || i < 1 || i > h.len() {
        None
    } else if h[h.len() - i].zobrist == hash {
        Some(i)
    } else {
        first_repetition(h, hash, max_back, i + 2)
    }
}

/// The state after the move made from state `j` of the history.
pub open spec fn state_after(h: Seq<StateInfo>, st: StateInfo, j: int) -> StateInfo {
    if j + 1 < h.len() {
        h[j + 1]
    } else {
        st
    }
}

/// Whether, over the last `i` plies, every move made by the side to move now
/// (`parity` 0) or by its opponent (`parity` 1) gave check.
pub open spec fn checked_throughout(h: Seq<StateInfo>, st: StateInfo, i: int, parity: int) -> bool {
    forall|j: int|
        h.len() - i <= j < h.len() && (h.len() - j) % 2 == parity ==> #[trigger] state_after(
            h,
            st,
            j,
        ).in_check
}

/// The verdict on a repetition `i` plies back: a side that checked throughout loses
/// (a draw when both did); otherwise perpetual chases decide.
pub open spec fn repetition_verdict(
    b: Seq<Option<Piece>>,
    kr: int,
    kb: int,
    h: Seq<StateInfo>,
    st: StateInfo,
    us: Side,
    i: int,
    ply: int,
) -> Score {
    let us_checks = checked_throughout(h, st, i, 0);
    let them_checks = checked_throughout(h, st, i, 1);
    if us_checks && them_checks {
        DRAW
    } else if us_checks {
        (-MATE + ply) as Score
    } else if them_checks {
        (MATE - ply) as Score
    } else {
        chase_verdict(b, kr, kb, h, st, us, i, ply) as Score
    }
}

impl Position {
    /// What the draw rules say of the position at search ply `ply`: `Some` score
    /// (from the side to move's view) when they settle the game, `None` otherwise.
    /// In order: the sixty-move rule (120 plies without capture) draws; the
    /// material may draw (see [`material_case`], [`mate_draw_verdict`]); and a
    /// position repeating one an even number of plies back, within the plies since
    /// the last capture, is judged by [`repetition_verdict`].
    pub open spec fn rule_verdict(&self, ply: int) -> Option<Score> {
        let b = self.board_view();
        let side = self.side_spec();
        let kr = self.king_sq(Side::Red);
        let kb = self.king_sq(Side::Black);
        let h = self.history_view();
        let st = self.state_view();
        let max_back = if (st.sixtymove_clock as int) < h.len() {
            st.sixtymove_clock as int
        } else {
            h.len() as int
        };
        if st.sixtymove_clock >= 120 {
            Some(DRAW)
        } else if material_case(b) == 1 {
            Some(DRAW)
        } else if material_case(b) == 2 {
            mate_draw_verdict(b, side, kr, kb, ply)
        } else {
            match first_repetition(h, st.zobrist, max_back, 4) {
                None => None,
                Some(i) => Some(repetition_verdict(b, kr, kb, h, st, side, i, ply)),
            }
        }
    }

    /// Whether judging the position by the draw rules stays within what the move
    /// lists, the ply counters and the piece identifiers can hold, and only takes
    /// back moves that can be taken back.
    pub open spec fn judge_safe(&self) -> bool {
        let b = self.board_view();
        let side = self.side_spec();
        let kr = self.king_sq(Side::Red);
        let kb = self.king_sq(Side::Black);
        let h = self.history_view();
        let st = self.state_view();
        let max_back = if (st.sixtymove_clock as int) < h.len() {
            st.sixtymove_clock as int
        } else {
            h.len() as int
        };
        let rep = first_repetition(h, st.zobrist, max_back, 4);
        &&& self.wf()
        &&& (st.sixtymove_clock < 120 && material_case(b) == 2) ==> {
            &&& gen_fits(b, side, king_of(kr, kb, side))
            &&& self.ply_spec() < u16::MAX
            &&& st.plies_since_null < u16::MAX
            &&& forall|i: int|
                0 <= i < legal_list(b, side, king_of(kr, kb, side)).len() ==> {
                    let m = #[trigger] legal_list(b, side, king_of(kr, kb, side))[i];
                    gen_fits(
                        board_after(b, m.from_idx(), m.to_idx()),
                        side.opp(),
                        king_after(b, kr, kb, m, side.opp()),
                    )
                }
        }
        &&& (st.sixtymove_clock < 120 && material_case(b) == 0 && rep is Some
            && !checked_throughout(h, st, rep->0, 0) && !checked_throughout(h, st, rep->0, 1))
            ==> {
            &&& scan_safe(b, kr, kb, h, st, side, piece_ids(b), self.ply_spec(), rep->0)
            &&& (h.len() >= rep->0 && rep->0 > 0 && !st.in_check) ==> side_count(b, Side::Red, 90)
                <= 16 && side_count(b, Side::Black, 90) <= 16
        }
    }
}

impl Position {
    /// Passes the turn without changing the board, for rule checks that look at the
    /// position from the other side.
    fn flip_side(&mut self)
        requires
            old(self).tables_wf(),
        ensures
            final(self).tables_wf(),
            old(self).hash_ok() ==> final(self).hash_ok(),
            final(self).board_view() == old(self).board_view(),
            final(self).side_spec() == old(self).side_spec().opp(),
            forall|c: Side| #[trigger] final(self).king_sq(c) == old(self).king_sq(c),
    {
        let ghost b0 = self.board@;
        self.game_ply = self.game_ply ^ 1;
        proof {
            let g = old(self).game_ply;
            assert((g ^ 1u16) % 2 == if g % 2 == 0 {
                1u16
            } else {
                0u16
            }) by (bit_vector);
        }
        let sk = self.zobrist.side();
        self.state.zobrist = self.state.zobrist ^ sk;
        proof {
            let h = hash_fold(b0, zobrist_keys(), 90);
            let k = side_key(zobrist_keys());
            crate::boardspec::lemma_xor_props(h, k, 0u64);
        }
    }

    /// Whether some piece of side `by` attacking `to` may legally capture there, for
    /// the side to move.
    fn has_legal_capture_on(&self, to: Square, by: Side) -> (r: bool)
        requires
            self.tables_wf(),
            self.board_view()[to.idx()] is Some,
            self.board_view()[to.idx()]->0.color_spec() != by,
        ensures
            r == !(forall|s: int|
                #[trigger] attackers_of(self.board_view(), to.idx(), by).contains(s) ==> !legal_on(
                    self.board_view(),
                    self.side_spec(),
                    self.king_sq(self.side_spec()),
                    s,
                    to.idx(),
                )),
    {
        let ghost b = self.board_view();
        let occ = self.bitboard_occupied();
        let mut candidates = self.checkers_to(to, occ, by);
        let ghost r0 = candidates@;
        proof {
            self.lemma_wf_basics();
        }
        loop
            invariant
                self.tables_wf(),
                b == self.board_view(),
                b.len() == 90,
                r0 == attackers_of(b, to.idx(), by),
                candidates@.subset_of(r0),
                on_board(candidates@),
                b[to.idx()] is Some,
                b[to.idx()]->0.color_spec() != by,
                forall|s: int|
                    #[trigger] r0.contains(s) && !candidates@.contains(s) ==> !legal_on(
                        b,
                        self.side_spec(),
                        self.king_sq(self.side_spec()),
                        s,
                        to.idx(),
                    ),
            decreases squares_up(candidates@, 90).len(),
        {
            let ghost rem = candidates@;
            match candidates.pop_lsb() {
                Some(s) => {
                    proof {
                        lemma_squares_up_pop(rem, s.idx(), 90);
                    }
                    if self.legal(Move::new(s, to)) {
                        return true;
                    }
                },
                None => {
                    proof {
                        lemma_squares_up_none(rem, 90);
                        assert forall|s: int| #[trigger] r0.contains(s) implies !candidates@.contains(s) by {
                            if candidates@.contains(s) {
                                assert(rem.contains(s));
                            }
                        }
                    }
                    return false;
                },
            }
        }
    }

    /// Whether the piece on `from` chases the piece on `to`.
    fn chase_pair_exec(&self, from: Square, to: Square) -> (r: bool)
        requires
            self.tables_wf(),
            self.board_view()[from.idx()] is Some,
            self.board_view()[to.idx()] is Some,
            self.board_view()[from.idx()]->0.color_spec() != self.board_view()[to.idx()]->0.color_spec(),
            self.board_view()[to.idx()]->0.piece_type_spec() != PieceType::King,
            self.board_view()[from.idx()]->0.piece_type_spec() != PieceType::King,
        ensures
            r == chase_pair(
                self.board_view(),
                self.side_spec(),
                self.king_sq(Side::Red),
                self.king_sq(Side::Black),
                from.idx(),
                to.idx(),
            ),
    {
        let ghost b = self.board_view();
        let ghost kr = self.king_sq(Side::Red);
        let ghost kb = self.king_sq(Side::Black);
        if !self.legal(Move::new(from, to)) {
            return false;
        }
        let a = self.piece_at(from).unwrap();
        let v = self.piece_at(to).unwrap();
        let at = a.piece_type();
        let vt = v.piece_type();
        if vt == PieceType::Rook && (at == PieceType::Knight || at == PieceType::Cannon) {
            return true;
        }
        // The position after the capture, seen from the other side.
        let mut after = self.clone();
        proof {
            after.lemma_same(self);
        }
        after.put_piece(from, None);
        after.put_piece(to, Some(a));
        after.flip_side();
        proof {
            assert(after.board_view() =~= board_after(b, from.idx(), to.idx()));
        }
        if after.has_legal_capture_on(to, v.color()) {
            return false;
        }
        proof {
            assert(after.king_sq(after.side_spec()) == king_of(kr, kb, self.side_spec().opp()));
        }
        if at == vt {
            let mut other = self.clone();
            proof {
                other.lemma_same(self);
            }
            other.flip_side();
            let back = other.legal(Move::new(to, from));
            proof {
                assert(other.king_sq(other.side_spec()) == king_of(kr, kb, self.side_spec().opp()));
            }
            if back {
                return false;
            }
        }
        true
    }

    /// The mask of the identifiers (given by `id_board`, per square) of the pieces of
    /// the opponent of `mover` that the pieces of `mover` chase: attack with a legal
    /// capture, when the target is a rook attacked by a knight or a cannon, or cannot
    /// be recaptured (see [`chase_pair`]).
    pub fn chased(&mut self, mover: Side, id_board: &[u8; 90]) -> (r: u16)
        requires
            old(self).tables_wf(),
            forall|i: int| 0 <= i < 90 ==> #[trigger] id_board@[i] < 16,
        ensures
            *final(self) == *old(self),
            r == chased_spec(
                old(self).board_view(),
                old(self).side_spec(),
                old(self).king_sq(Side::Red),
                old(self).king_sq(Side::Black),
                mover,
                id_board@,
            ),
    {
        let ghost b = self.board_view();
        let ghost stm = self.side_spec();
        let ghost kr = self.king_sq(Side::Red);
        let ghost kb = self.king_sq(Side::Black);
        let ghost ids = id_board@;
        proof {
            self.lemma_wf_basics();
        }
        let opponent = mover.opposite();
        let occupied = self.bitboard_occupied();
        let targets = self.bitboard_of(opponent, PieceType::Rook).const_or(
            self.bitboard_of(opponent, PieceType::Cannon),
        ).const_or(self.bitboard_of(opponent, PieceType::Knight)).const_or(
            self.bitboard_of(opponent, PieceType::Advisor),
        ).const_or(self.bitboard_of(opponent, PieceType::Bishop)).const_or(
            self.bitboard_of(opponent, PieceType::Pawn).const_and(Bitboard::side(mover)),
        );
        let mut attackers = self.bitboard_of(mover, PieceType::Rook).const_or(
            self.bitboard_of(mover, PieceType::Cannon),
        ).const_or(self.bitboard_of(mover, PieceType::Knight)).const_or(
            self.bitboard_of(mover, PieceType::Pawn).const_and(Bitboard::side(opponent)),
        );
        proof {
            assert(targets@ =~= chase_targets(b, mover));
            assert(attackers@ =~= chasers(b, mover));
        }
        let ghost a0 = attackers@;
        let ghost mut done: Seq<int> = Seq::empty();
        let mut chase: u16 = 0;
        proof {
            assert(done + squares_up(a0, 90) =~= squares_up(a0, 90));
        }
        loop
            invariant
                self.tables_wf(),
                *self == *old(self),
                b == self.board_view(),
                b.len() == 90,
                stm == self.side_spec(),
                kr == self.king_sq(Side::Red),
                kb == self.king_sq(Side::Black),
                ids == id_board@,
                forall|i: int| 0 <= i < 90 ==> #[trigger] ids[i] < 16,
                a0 == chasers(b, mover),
                targets@ == chase_targets(b, mover),
                occupied@ == occ_set(b),
                squares_up(a0, 90) == done + squares_up(attackers@, 90),
                attackers@.subset_of(a0),
                on_board(attackers@),
                chase == chase_bits(b, stm, kr, kb, mover, ids, done),
            ensures
                chase == chase_bits(b, stm, kr, kb, mover, ids, squares_up(a0, 90)),
            decreases squares_up(attackers@, 90).len(),
        {
            let ghost rem = attackers@;
            match attackers.pop_lsb() {
                Some(from) => {
                    proof {
                        lemma_squares_up_pop(rem, from.idx(), 90);
                        assert(done.push(from.idx()) + squares_up(attackers@, 90) =~= done
                            + squares_up(rem, 90));
                        assert(done.push(from.idx()).drop_last() =~= done);
                    }
                    let piece = self.piece_at(from).unwrap();
                    let attacks = match piece.piece_type() {
                        PieceType::Rook => rook_attacks(from, occupied),
                        PieceType::Cannon => cannon_captures(from, occupied),
                        PieceType::Knight => knight_attacks(from, occupied),
                        PieceType::Pawn => pawn_attacks(from, mover),
                        _ => Bitboard::new(),
                    };
                    let mut hits = attacks.const_and(targets);
                    proof {
                        assert(hits@ =~= chaser_attacks(b, mover, from.idx()).intersect(
                            chase_targets(b, mover),
                        ));
                    }
                    let ghost h0 = hits@;
                    let ghost mut tos: Seq<int> = Seq::empty();
                    let ghost acc0 = chase;
                    proof {
                        assert(tos + squares_up(h0, 90) =~= squares_up(h0, 90));
                    }
                    loop
                        invariant
                            self.tables_wf(),
                            *self == *old(self),
                            b == self.board_view(),
                            b.len() == 90,
                            stm == self.side_spec(),
                            kr == self.king_sq(Side::Red),
                            kb == self.king_sq(Side::Black),
                            ids == id_board@,
                            forall|i: int| 0 <= i < 90 ==> #[trigger] ids[i] < 16,
                            a0.contains(from.idx()),
                            a0 == chasers(b, mover),
                            h0 == chaser_attacks(b, mover, from.idx()).intersect(
                                chase_targets(b, mover),
                            ),
                            squares_up(h0, 90) == tos + squares_up(hits@, 90),
                            hits@.subset_of(h0),
                            on_board(hits@),
                            chase == chase_bits_to(b, stm, kr, kb, ids, from.idx(), tos, acc0),
                        ensures
                            chase == chase_bits_to(
                                b,
                                stm,
                                kr,
                                kb,
                                ids,
                                from.idx(),
                                squares_up(h0, 90),
                                acc0,
                            ),
                        decreases squares_up(hits@, 90).len(),
                    {
                        let ghost hrem = hits@;
                        match hits.pop_lsb() {
                            Some(to) => {
                                proof {
                                    lemma_squares_up_pop(hrem, to.idx(), 90);
                                    assert(tos.push(to.idx()) + squares_up(hits@, 90) =~= tos
                                        + squares_up(hrem, 90));
                                    assert(tos.push(to.idx()).drop_last() =~= tos);
                                }
                                let pair = self.chase_pair_exec(from, to);
                                if pair {
                                    let id = id_board[to.index() as usize];
                                    chase = chase | (1u16 << id);
                                }
                                proof {
                                    tos = tos.push(to.idx());
                                }
                            },
                            None => {
                                proof {
                                    lemma_squares_up_none(hrem, 90);
                                    assert(tos =~= squares_up(h0, 90));
                                }
                                break ;
                            },
                        }
                    }
                    proof {
                        done = done.push(from.idx());
                    }
                },
                None => {
                    proof {
                        lemma_squares_up_none(rem, 90);
                        assert(done =~= squares_up(a0, 90));
                    }
                    break ;
                },
            }
        }
        chase
    }

    /// Takes back the last move, step `k` of unwinding the position whose board,
    /// kings and states were `b0`, `kr0`, `kb0`, `h` and `st`.
    fn undo_step(
        &mut self,
        Ghost(b0): Ghost<Seq<Option<Piece>>>,
        Ghost(kr0): Ghost<int>,
        Ghost(kb0): Ghost<int>,
        Ghost(h): Ghost<Seq<StateInfo>>,
        Ghost(st): Ghost<StateInfo>,
        Ghost(k): Ghost<int>,
    )
        requires
            old(self).tables_wf(),
            0 <= k < h.len(),
            old(self).board_view() == unwind(b0, kr0, kb0, h, st, k).0,
            old(self).king_sq(Side::Red) == unwind(b0, kr0, kb0, h, st, k).1,
            old(self).king_sq(Side::Black) == unwind(b0, kr0, kb0, h, st, k).2,
            old(self).state_view() == state_back(h, st, k),
            old(self).history_view() == h.take(h.len() - k),
            old(self).ply_spec() > 0,
            undo_ok(b0, kr0, kb0, h, st, k),
        ensures
            final(self).tables_wf(),
            final(self).board_view() == unwind(b0, kr0, kb0, h, st, k + 1).0,
            final(self).king_sq(Side::Red) == unwind(b0, kr0, kb0, h, st, k + 1).1,
            final(self).king_sq(Side::Black) == unwind(b0, kr0, kb0, h, st, k + 1).2,
            final(self).state_view() == state_back(h, st, k + 1),
            final(self).history_view() == h.take(h.len() - k - 1),
            final(self).ply_spec() == old(self).ply_spec() - 1,
            final(self).side_spec() == old(self).side_spec().opp(),
    {
        let m = self.state.last_move.unwrap();
        self.undo_move(m);
        proof {
            assert(h.take(h.len() - k).drop_last() =~= h.take(h.len() - k - 1));
            assert(old(self).history_view().last() == h[h.len() - (k + 1)]);
            let (b, kr, kb) = unwind(b0, kr0, kb0, h, st, k);
            assert(unwind(b0, kr0, kb0, h, st, k + 1).0 == self.board_view());
        }
    }

    /// The identifiers of the pieces on the board: each side's pieces are numbered
    /// from 0 in square order.
    fn piece_id_board(&self) -> (r: [u8; 90])
        requires
            self.tables_wf(),
        ensures
            r@ == piece_ids(self.board_view()),
    {
        let ghost b = self.board_view();
        proof {
            self.lemma_wf_basics();
        }
        let mut ids = [0u8; 90];
        let mut red: u8 = 0;
        let mut black: u8 = 0;
        let mut i: usize = 0;
        while i < 90
            invariant
                i <= 90,
                b == self.board_view(),
                b.len() == 90,
                self.tables_wf(),
                red as int == side_count(b, Side::Red, i as int),
                black as int == side_count(b, Side::Black, i as int),
                red + black <= i,
                forall|j: int| 0 <= j < i ==> #[trigger] ids@[j] == piece_id(b, j) as u8,
            decreases 90 - i,
        {
            let sq = Square::from_repr(i as u8).unwrap();
            match self.piece_at(sq) {
                Some(p) => {
                    if p.color() == Side::Red {
                        ids[i] = red;
                        red = red + 1;
                    } else {
                        ids[i] = black;
                        black = black + 1;
                    }
                },
                None => {
                    ids[i] = 0;
                },
            }
            i = i + 1;
        }
        proof {
            assert(ids@ =~= piece_ids(b));
        }
        ids
    }

    /// The verdict on a repetition loop of `d` plies without perpetual check, found at
    /// search ply `ply`: takes moves back one at a time (leaving the position rolled
    /// back), keeping for each side the pieces it chased throughout the loop; a side
    /// that alone chased perpetually loses. A check in the loop, mutual chases or no
    /// chase give a draw.
    #[verifier::rlimit(60)]
    #[verifier::spinoff_prover]
    pub fn detect_chases(&mut self, d: usize, ply: u8) -> (r: Score)
        requires
            old(self).tables_wf(),
            scan_safe(
                old(self).board_view(),
                old(self).king_sq(Side::Red),
                old(self).king_sq(Side::Black),
                old(self).history_view(),
                old(self).state_view(),
                old(self).side_spec(),
                piece_ids(old(self).board_view()),
                old(self).ply_spec(),
                d as int,
            ),
            old(self).history_view().len() >= d && d > 0 && !old(self).state_view().in_check
                ==> side_count(old(self).board_view(), Side::Red, 90) <= 16 && side_count(
                old(self).board_view(),
                Side::Black,
                90,
            ) <= 16,
        ensures
            r == chase_verdict(
                old(self).board_view(),
                old(self).king_sq(Side::Red),
                old(self).king_sq(Side::Black),
                old(self).history_view(),
                old(self).state_view(),
                old(self).side_spec(),
                d as int,
                ply as int,
            ),
            final(self).tables_wf(),
    {
        let ghost b0 = self.board_view();
        let ghost kr0 = self.king_sq(Side::Red);
        let ghost kb0 = self.king_sq(Side::Black);
        let ghost h = self.history_view();
        let ghost st = self.state_view();
        let ghost ply0 = self.ply_spec();
        let n = self.history.len();
        if n < d {
            return ZERO;
        }
        let id_board = self.piece_id_board();
        let ghost ids = id_board@;
        proof {
            self.lemma_wf_basics();
            if d > 0 && !st.in_check {
                lemma_piece_ids_small(b0);
            }
        }
        let us = self.side_to_move();
        let mut chase_red: u16 = 0xFFFF;
        let mut chase_black: u16 = 0xFFFF;
        let mut k: usize = 0;
        let mut draw_by_check = false;
        while k < d
            invariant_except_break
                k <= d,
                !draw_by_check,
            invariant
                d <= n,
                n == h.len(),
                self.tables_wf(),
                ids == id_board@,
                ids == piece_ids(b0),
                us == side_back(us, 0),
                self.board_view() == unwind(b0, kr0, kb0, h, st, k as int).0,
                self.king_sq(Side::Red) == unwind(b0, kr0, kb0, h, st, k as int).1,
                self.king_sq(Side::Black) == unwind(b0, kr0, kb0, h, st, k as int).2,
                self.state_view() == state_back(h, st, k as int),
                self.history_view() == h.take(n - k),
                self.ply_spec() == ply0 - k,
                self.side_spec() == side_back(us, k as int),
                scan_safe(b0, kr0, kb0, h, st, us, ids, ply0, d as int),
                (d > 0 && !st.in_check) ==> forall|i: int| 0 <= i < 90 ==> #[trigger] ids[i] < 16,
                k > 0 ==> !st.in_check,
                (chase_red, chase_black, 0int) == chase_scan(b0, kr0, kb0, h, st, us, ids, k as int),
            ensures
                draw_by_check ==> chase_scan(b0, kr0, kb0, h, st, us, ids, d as int).2 == 2,
                !draw_by_check ==> (chase_red, chase_black) == (
                    chase_scan(b0, kr0, kb0, h, st, us, ids, d as int).0,
                    chase_scan(b0, kr0, kb0, h, st, us, ids, d as int).1,
                ) && chase_scan(b0, kr0, kb0, h, st, us, ids, d as int).2 != 2,
            decreases d - k,
        {
            if self.state.in_check {
                draw_by_check = true;
                proof {
                    lemma_scan_status_sticks(b0, kr0, kb0, h, st, us, ids, k as int + 1, d as int);
                }
                break;
            }
            let stm = self.side_to_move();
            let (opp_mask, our_mask) = if stm == Side::Red {
                (chase_black, chase_red)
            } else {
                (chase_red, chase_black)
            };
            if opp_mask == 0 {
                if our_mask == 0 {
                    proof {
                        lemma_scan_status_sticks(b0, kr0, kb0, h, st, us, ids, k as int + 1, d as int);
                    }
                    break;
                }
                proof {
                    lemma_scan_safe_prefix(b0, kr0, kb0, h, st, us, ids, ply0, k as int + 1, d as int);
                    assert(scan_undoes(b0, kr0, kb0, h, st, us, ids, k as int));
                }
                self.undo_step(Ghost(b0), Ghost(kr0), Ghost(kb0), Ghost(h), Ghost(st), Ghost(k as int));
            } else {
                let after = self.chased(stm.opposite(), &id_board);
                proof {
                    lemma_scan_safe_prefix(b0, kr0, kb0, h, st, us, ids, ply0, k as int + 1, d as int);
                    assert(scan_undoes(b0, kr0, kb0, h, st, us, ids, k as int));
                }
                self.undo_step(Ghost(b0), Ghost(kr0), Ghost(kb0), Ghost(h), Ghost(st), Ghost(k as int));
                let before = self.chased(stm.opposite(), &id_board);
                if stm == Side::Red {
                    chase_black = chase_black & (after & !before);
                } else {
                    chase_red = chase_red & (after & !before);
                }
            }
            k = k + 1;
        }
        if draw_by_check {
            return DRAW;
        }
        let (ours, theirs) = if us == Side::Red {
            (chase_red, chase_black)
        } else {
            (chase_black, chase_red)
        };
        let us_chasing = ours != 0;
        let them_chasing = theirs != 0;
        if us_chasing && them_chasing {
            DRAW
        } else if us_chasing {
            mated_in(ply)
        } else if them_chasing {
            mate_in(ply)
        } else {
            DRAW
        }
    }

    /// What the material on the board says (see [`material_case`]).
    fn material_case_exec(&self) -> (r: u8)
        requires
            self.tables_wf(),
        ensures
            r as int == material_case(self.board_view()),
    {
        let pawns = self.piece_count(Piece::RedPawn) as u32 + self.piece_count(Piece::BlackPawn) as u32;
        if pawns != 0 {
            return 0;
        }
        let red_cannon = self.piece_count(Piece::RedCannon) as u32;
        let red_majors = self.piece_count(Piece::RedRook) as u32 + red_cannon + self.piece_count(
            Piece::RedKnight,
        ) as u32;
        let black_cannon = self.piece_count(Piece::BlackCannon) as u32;
        let black_majors = self.piece_count(Piece::BlackRook) as u32 + black_cannon
            + self.piece_count(Piece::BlackKnight) as u32;
        let cannons = red_cannon + black_cannon;
        let majors = red_majors + black_majors;
        if majors == 0 {
            return 1;
        }
        if cannons == 1 && majors == 1 {
            let (our_advisor, our_bishop, their_advisor) = if red_cannon == 1 {
                (Piece::RedAdvisor, Piece::RedBishop, Piece::BlackAdvisor)
            } else {
                (Piece::BlackAdvisor, Piece::BlackBishop, Piece::RedAdvisor)
            };
            if self.piece_count(our_advisor) == 0 {
                let their_advisors = self.piece_count(their_advisor);
                if their_advisors == 0 {
                    return 1;
                }
                if their_advisors == 1 {
                    if self.piece_count(our_bishop) == 0 {
                        return 1;
                    } else {
                        return 2;
                    }
                } else if self.piece_count(our_bishop) == 0 {
                    return 2;
                }
            }
            0
        } else if red_cannon == 1 && black_cannon == 1 && red_majors == 1 && black_majors == 1
            && self.piece_count(Piece::RedAdvisor) as u32 + self.piece_count(Piece::BlackAdvisor) as u32 == 0 {
            if self.piece_count(Piece::RedBishop) as u32 + self.piece_count(Piece::BlackBishop) as u32 == 0 {
                1
            } else {
                2
            }
        } else {
            0
        }
    }

    /// The verdict where the material leaves only a draw or a mate now (see
    /// [`mate_draw_verdict`]).
    fn mate_draw_exec(&self, ply: u8) -> (r: Option<Score>)
        requires
            self.wf(),
            gen_fits(self.board_view(), self.side_spec(), self.king_sq(self.side_spec())),
            self.ply_spec() < u16::MAX,
            self.state_view().sixtymove_clock < u16::MAX,
            self.state_view().plies_since_null < u16::MAX,
            forall|i: int|
                0 <= i < legal_list(self.board_view(), self.side_spec(), self.king_sq(self.side_spec())).len()
                    ==> {
                    let m = #[trigger] legal_list(
                        self.board_view(),
                        self.side_spec(),
                        self.king_sq(self.side_spec()),
                    )[i];
                    gen_fits(
                        board_after(self.board_view(), m.from_idx(), m.to_idx()),
                        self.side_spec().opp(),
                        king_after(
                            self.board_view(),
                            self.king_sq(Side::Red),
                            self.king_sq(Side::Black),
                            m,
                            self.side_spec().opp(),
                        ),
                    )
                },
        ensures
            r == mate_draw_verdict(
                self.board_view(),
                self.side_spec(),
                self.king_sq(Side::Red),
                self.king_sq(Side::Black),
                ply as int,
            ),
    {
        let ghost b = self.board_view();
        let ghost side = self.side_spec();
        let ghost kr = self.king_sq(Side::Red);
        let ghost kb = self.king_sq(Side::Black);
        proof {
            assert(king_of(kr, kb, side) == self.king_sq(side));
        }
        let ghost legal = legal_list(b, side, king_of(kr, kb, side));
        let mut moves = move_list_new();
        generate_moves(self, MoveGenType::Legal, &mut moves);
        proof {
            lemma_generated_legal(self);
            assert(move_list_items(moves) =~= legal);
        }
        let len = move_list_len(&moves);
        if len == 0 {
            return Some(mated_in(ply));
        }
        let mut k: usize = 0;
        while k < len
            invariant
                self.wf(),
                b == self.board_view(),
                side == self.side_spec(),
                kr == self.king_sq(Side::Red),
                kb == self.king_sq(Side::Black),
                legal == legal_list(b, side, king_of(kr, kb, side)),
                move_list_items(moves) == legal,
                movable_from(self, move_list_items(moves), 0),
                len == legal.len(),
                k <= len,
                self.ply_spec() < u16::MAX,
                self.state_view().sixtymove_clock < u16::MAX,
                self.state_view().plies_since_null < u16::MAX,
                forall|i: int|
                    0 <= i < legal.len() ==> {
                        let m = #[trigger] legal[i];
                        gen_fits(
                            board_after(b, m.from_idx(), m.to_idx()),
                            side.opp(),
                            king_after(b, kr, kb, m, side.opp()),
                        )
                    },
                forall|i: int| 0 <= i < k ==> #[trigger] replies(b, side, kr, kb, legal[i]).len() != 0,
            decreases len - k,
        {
            let m = move_list_get(&moves, k);
            let mut next = self.clone();
            proof {
                next.lemma_same(self);
                assert(movable(self, legal[k as int]));
            }
            next.do_move(m);
            proof {
                assert(next.king_sq(next.side_spec()) == king_after(b, kr, kb, m, side.opp()));
                assert(gen_fits(board_after(b, m.from_idx(), m.to_idx()), side.opp(), king_after(b, kr, kb, m, side.opp())));
            }
            let mut answers = move_list_new();
            generate_moves(&next, MoveGenType::Legal, &mut answers);
            proof {
                lemma_generated_legal(&next);
                assert(move_list_items(answers) =~= replies(b, side, kr, kb, m));
            }
            if move_list_len(&answers) == 0 {
                return None;
            }
            k = k + 1;
        }
        proof {
            assert(!(exists|i: int| 0 <= i < legal.len() && #[trigger] replies(b, side, kr, kb, legal[i]).len() == 0));
        }
        Some(DRAW)
    }

    /// Whether every move made over the last `i` plies by the side to move now
    /// (first) and by its opponent (second) gave check.
    fn perpetual_checks(&self, i: usize) -> (r: (bool, bool))
        requires
            i <= self.history_view().len(),
        ensures
            r.0 == checked_throughout(self.history_view(), self.state_view(), i as int, 0),
            r.1 == checked_throughout(self.history_view(), self.state_view(), i as int, 1),
    {
        let ghost h = self.history_view();
        let ghost st = self.state_view();
        let n = self.history.len();
        let mut us_check = true;
        let mut them_check = true;
        let mut j: usize = n - i;
        while j < n
            invariant
                n - i <= j <= n,
                n == h.len(),
                h == self.history_view(),
                st == self.state_view(),
                us_check == forall|j2: int|
                    n - i <= j2 < j && (n - j2) % 2 == 0 ==> #[trigger] state_after(h, st, j2).in_check,
                them_check == forall|j2: int|
                    n - i <= j2 < j && (n - j2) % 2 == 1 ==> #[trigger] state_after(h, st, j2).in_check,
            decreases n - j,
        {
            let after_in_check = if j + 1 < n {
                self.history[j + 1].in_check
            } else {
                self.state.in_check
            };
            proof {
                assert(after_in_check == state_after(h, st, j as int).in_check);
            }
            if (n - j) % 2 == 0 {
                if !after_in_check {
                    us_check = false;
                }
            } else {
                if !after_in_check {
                    them_check = false;
                }
            }
            j = j + 1;
        }
        (us_check, them_check)
    }

    /// Judges the position by the draw rules, at search ply `ply` (see
    /// [`Position::rule_verdict`]): `Some` score from the side to move's view when
    /// they settle the game, `None` when play goes on. The position is left as it
    /// was.
    pub fn rule_judge(&mut self, ply: u8) -> (r: Option<Score>)
        requires
            old(self).judge_safe(),
        ensures
            *final(self) == *old(self),
            r == old(self).rule_verdict(ply as int),
    {
        let ghost b = self.board_view();
        let ghost h = self.history_view();
        let ghost st = self.state_view();
        let rule60 = self.state.sixtymove_clock;
        if rule60 >= 120 {
            return Some(DRAW);
        }
        let case = self.material_case_exec();
        if case == 1 {
            return Some(DRAW);
        }
        if case == 2 {
            proof {
                assert(self.king_sq(self.side_spec()) == king_of(self.king_sq(Side::Red), self.king_sq(Side::Black), self.side_spec()));
            }
            return self.mate_draw_exec(ply);
        }
        let current_hash = self.state.zobrist;
        let n = self.history.len();
        let max_back: usize = if (rule60 as usize) < n {
            rule60 as usize
        } else {
            n
        };
        let mut i: usize = 4;
        while i <= max_back
            invariant
                4 <= i,
                max_back <= n,
                n == h.len(),
                h == self.history_view(),
                st == self.state_view(),
                b == self.board_view(),
                current_hash == st.zobrist,
                *self == *old(self),
                self.judge_safe(),
                rule60 == st.sixtymove_clock,
                rule60 < 120,
                material_case(b) == 0,
                max_back as int == (if (st.sixtymove_clock as int) < h.len() {
                    st.sixtymove_clock as int
                } else {
                    h.len() as int
                }),
                first_repetition(h, current_hash, max_back as int, 4) == first_repetition(
                    h,
                    current_hash,
                    max_back as int,
                    i as int,
                ),
            decreases max_back + 2 - i,
        {
            if self.history[n - i].zobrist == current_hash {
                let (us_check, them_check) = self.perpetual_checks(i);
                if us_check || them_check {
                    if us_check && them_check {
                        return Some(DRAW);
                    } else if us_check {
                        return Some(mated_in(ply));
                    } else {
                        return Some(mate_in(ply));
                    }
                } else {
                    let mut rollback = self.clone();
                    proof {
                        rollback.lemma_same(self);
                    }
                    let result = rollback.detect_chases(i, ply);
                    return Some(result);
                }
            }
            i = i + 2;
        }
        None
    }
}

} // verus!


verus! {

/// Once the scan has stopped, later steps keep its masks and status.
proof fn lemma_scan_status_sticks(
    b0: Seq<Option<Piece>>,
    kr0: int,
    kb0: int,
    h: Seq<StateInfo>,
    st: StateInfo,
    us: Side,
    ids: Seq<u8>,
    k: int,
    m: int,
)
    requires
        0 <= k <= m,
        chase_scan(b0, kr0, kb0, h, st, us, ids, k).2 != 0,
    ensures
        chase_scan(b0, kr0, kb0, h, st, us, ids, m) == chase_scan(b0, kr0, kb0, h, st, us, ids, k),
    decreases m - k,
{
    if m > k {
        lemma_scan_status_sticks(b0, kr0, kb0, h, st, us, ids, k, m - 1);
    }
}

} // verus!

verus! {

/// The first `k` steps of a safe scan of `d` steps are safe.
proof fn lemma_scan_safe_prefix(
    b0: Seq<Option<Piece>>,
    kr0: int,
    kb0: int,
    h: Seq<StateInfo>,
    st: StateInfo,
    us: Side,
    ids: Seq<u8>,
    ply0: int,
    k: int,
    d: int,
)
    requires
        0 <= k <= d,
        scan_safe(b0, kr0, kb0, h, st, us, ids, ply0, d),
    ensures
        scan_safe(b0, kr0, kb0, h, st, us, ids, ply0, k),
    decreases d - k,
{
    if k < d {
        lemma_scan_safe_prefix(b0, kr0, kb0, h, st, us, ids, ply0, k, d - 1);
    }
}

/// A piece of side `c` on square `s` has fewer pieces of its side before it than
/// there are in the first `n > s` squares.
proof fn lemma_side_count_before(b: Seq<Option<Piece>>, c: Side, s: int, n: int)
    requires
        0 <= s < n <= b.len(),
        b[s] matches Some(p) && p.color_spec() == c,
    ensures
        side_count(b, c, s) < side_count(b, c, n),
    decreases n,
{
    if n > s + 1 {
        lemma_side_count_before(b, c, s, n - 1);
    }
}

/// Piece counts are not negative.
proof fn lemma_side_count_nonneg(b: Seq<Option<Piece>>, c: Side, n: int)
    ensures
        side_count(b, c, n) >= 0,
    decreases n,
{
    if n > 0 {
        lemma_side_count_nonneg(b, c, n - 1);
    }
}

/// With at most 16 pieces a side, every identifier is below 16.
proof fn lemma_piece_ids_small(b: Seq<Option<Piece>>)
    requires
        b.len() == 90,
        side_count(b, Side::Red, 90) <= 16,
        side_count(b, Side::Black, 90) <= 16,
    ensures
        forall|i: int| 0 <= i < 90 ==> #[trigger] piece_ids(b)[i] < 16,
{
    assert forall|i: int| 0 <= i < 90 implies #[trigger] piece_ids(b)[i] < 16 by {
        if let Some(p) = b[i] {
            lemma_side_count_before(b, p.color_spec(), i, 90);
            lemma_side_count_nonneg(b, p.color_spec(), i);
            assert(0 <= piece_id(b, i) < 16);
        }
    }
}

} // verus!

verus! {

/// Whether the first `d` moves of the history, from the latest back, can each be
/// taken back (see [`undo_ok`]), with a ply count `ply0` of at least `d`.
pub open spec fn history_undoable(
    b0: Seq<Option<Piece>>,
    kr0: int,
    kb0: int,
    h: Seq<StateInfo>,
    st: StateInfo,
    ply0: int,
    d: int,
) -> bool {
    &&& d <= ply0
    &&& forall|j: int| 0 <= j < d ==> #[trigger] undo_ok(b0, kr0, kb0, h, st, j)
}

/// Each move of an undoable history can be taken back.
proof fn lemma_undoable_at(
    b0: Seq<Option<Piece>>,
    kr0: int,
    kb0: int,
    h: Seq<StateInfo>,
    st: StateInfo,
    ply0: int,
    d: int,
    j: int,
)
    requires
        history_undoable(b0, kr0, kb0, h, st, ply0, d),
        0 <= j < d,
    ensures
        undo_ok(b0, kr0, kb0, h, st, j),
        j < ply0,
{
}

/// A scan over a history whose moves can all be taken back is safe.
proof fn lemma_undoable_scan_safe(
    b0: Seq<Option<Piece>>,
    kr0: int,
    kb0: int,
    h: Seq<StateInfo>,
    st: StateInfo,
    us: Side,
    ids: Seq<u8>,
    ply0: int,
    d: int,
)
    requires
        history_undoable(b0, kr0, kb0, h, st, ply0, d),
    ensures
        scan_safe(b0, kr0, kb0, h, st, us, ids, ply0, d),
    decreases d,
{
    if d > 0 {
        lemma_undoable_scan_safe(b0, kr0, kb0, h, st, us, ids, ply0, d - 1);
        assert(undo_ok(b0, kr0, kb0, h, st, d - 1));
    }
}

impl Position {
    /// Whether the position and each position one legal move on have their king on
    /// its recorded square and at most 128 pseudo-legal moves, with room in the
    /// move counters for one more move: what judging a draw by material that is
    /// mated or mates at once needs.
    pub open spec fn mate_draw_ready_spec(&self) -> bool {
        let b = self.board_view();
        let side = self.side_spec();
        let kr = self.king_sq(Side::Red);
        let kb = self.king_sq(Side::Black);
        &&& gen_fits(b, side, king_of(kr, kb, side))
        &&& self.ply_spec() < u16::MAX
        &&& self.state_view().plies_since_null < u16::MAX
        &&& forall|i: int|
            0 <= i < legal_list(b, side, king_of(kr, kb, side)).len() ==> {
                let m = #[trigger] legal_list(b, side, king_of(kr, kb, side))[i];
                gen_fits(board_after(b, m.from_idx(), m.to_idx()), side.opp(), king_after(b, kr, kb, m, side.opp()))
            }
    }

    /// Whether [`Position::rule_judge`] can judge the position, as
    /// [`Position::judge_ready`] decides it: always under the sixty-move rule or
    /// with drawn material; with material that draws unless a mate comes at once,
    /// when [`Position::mate_draw_ready_spec`] holds; otherwise, when there is no
    /// repetition, when a side checked throughout it, or when the moves back to
    /// it can be taken back and, out of check, each side has at most 16 pieces.
    pub open spec fn judge_ready_spec(&self) -> bool {
        let b = self.board_view();
        let kr = self.king_sq(Side::Red);
        let kb = self.king_sq(Side::Black);
        let h = self.history_view();
        let st = self.state_view();
        let max_back = if (st.sixtymove_clock as int) < h.len() {
            st.sixtymove_clock as int
        } else {
            h.len() as int
        };
        let rep = first_repetition(h, st.zobrist, max_back, 4);
        if st.sixtymove_clock >= 120 || material_case(b) == 1 {
            true
        } else if material_case(b) == 2 {
            self.mate_draw_ready_spec()
        } else {
            match rep {
                None => true,
                Some(i) => checked_throughout(h, st, i, 0) || checked_throughout(h, st, i, 1) || (
                history_undoable(b, kr, kb, h, st, self.ply_spec(), i) && (st.in_check || (
                side_count(b, Side::Red, 90) <= 16 && side_count(b, Side::Black, 90) <= 16))),
            }
        }
    }

    /// A consistent position that [`Position::judge_ready`] accepts can be judged.
    pub proof fn lemma_judge_ready(&self)
        requires
            self.wf(),
            self.judge_ready_spec(),
        ensures
            self.judge_safe(),
    {
        let b = self.board_view();
        let kr = self.king_sq(Side::Red);
        let kb = self.king_sq(Side::Black);
        let h = self.history_view();
        let st = self.state_view();
        let max_back = if (st.sixtymove_clock as int) < h.len() {
            st.sixtymove_clock as int
        } else {
            h.len() as int
        };
        let rep = first_repetition(h, st.zobrist, max_back, 4);
        if st.sixtymove_clock < 120 && material_case(b) == 0 && rep is Some && !checked_throughout(
            h,
            st,
            rep->0,
            0,
        ) && !checked_throughout(h, st, rep->0, 1) {
            lemma_undoable_scan_safe(b, kr, kb, h, st, self.side_spec(), piece_ids(b), self.ply_spec(), rep->0);
        }
    }

    /// The number of pieces of side `c`.
    fn side_pieces(&self, c: Side) -> (r: u8)
        requires
            self.tables_wf(),
        ensures
            r == side_count(self.board_view(), c, 90),
    {
        let ghost b = self.board_view();
        proof {
            self.lemma_wf_basics();
        }
        let mut n: u8 = 0;
        let mut i: usize = 0;
        while i < 90
            invariant
                i <= 90,
                b == self.board_view(),
                b.len() == 90,
                n == side_count(b, c, i as int),
                n <= i,
            decreases 90 - i,
        {
            match self.board[i] {
                Some(p) => {
                    if p.color() == c {
                        n = n + 1;
                    }
                },
                None => {},
            }
            i = i + 1;
        }
        n
    }

    /// Whether the last `d` moves of the history can each be taken back, with a
    /// positive ply count (see [`history_undoable`]).
    fn history_undoable_exec(&self, d: usize) -> (r: bool)
        requires
            self.tables_wf(),
            d <= self.history_view().len(),
        ensures
            r == history_undoable(
                self.board_view(),
                self.king_sq(Side::Red),
                self.king_sq(Side::Black),
                self.history_view(),
                self.state_view(),
                self.ply_spec(),
                d as int,
            ),
    {
        let ghost b0 = self.board_view();
        let ghost kr0 = self.king_sq(Side::Red);
        let ghost kb0 = self.king_sq(Side::Black);
        let ghost h = self.history_view();
        let ghost st = self.state_view();
        let ghost ply0 = self.ply_spec();
        let mut p = self.clone();
        proof {
            p.lemma_same(self);
            self.lemma_wf_basics();
            assert(h.take(h.len() - 0) =~= h);
        }
        let mut k: usize = 0;
        while k < d
            invariant
                d <= h.len(),
                p.tables_wf(),
                k <= d,
                p.board_view() == unwind(b0, kr0, kb0, h, st, k as int).0,
                p.king_sq(Side::Red) == unwind(b0, kr0, kb0, h, st, k as int).1,
                p.king_sq(Side::Black) == unwind(b0, kr0, kb0, h, st, k as int).2,
                p.state_view() == state_back(h, st, k as int),
                p.history_view() == h.take(h.len() - k),
                p.ply_spec() == ply0 - k,
                k <= ply0,
                forall|j: int| 0 <= j < k ==> #[trigger] undo_ok(b0, kr0, kb0, h, st, j),
                b0 == self.board_view(),
                kr0 == self.king_sq(Side::Red),
                kb0 == self.king_sq(Side::Black),
                h == self.history_view(),
                st == self.state_view(),
                ply0 == self.ply_spec(),
            decreases d - k,
        {
            proof {
                p.lemma_wf_basics();
            }
            if p.game_ply() == 0 {
                proof {
                    assert(!history_undoable(b0, kr0, kb0, h, st, ply0, d as int)) by {
                        if history_undoable(b0, kr0, kb0, h, st, ply0, d as int) {
                            lemma_undoable_at(b0, kr0, kb0, h, st, ply0, d as int, k as int);
                        }
                    }
                }
                return false;
            }
            let m = match p.state.last_move {
                Some(m) => m,
                None => {
                    proof {
                        assert(!undo_ok(b0, kr0, kb0, h, st, k as int));
                        assert(!history_undoable(b0, kr0, kb0, h, st, ply0, d as int));
                    }
                    return false;
                },
            };
            if m.0 % 128 >= 90 || (m.0 / 128) % 128 >= 90 {
                proof {
                    assert(!undo_ok(b0, kr0, kb0, h, st, k as int));
                    assert(!history_undoable(b0, kr0, kb0, h, st, ply0, d as int));
                }
                return false;
            }
            let from = m.square_from();
            let to = m.square_to();
            if from.index() == to.index() || p.is_empty(to) {
                proof {
                    assert(!undo_ok(b0, kr0, kb0, h, st, k as int));
                    assert(!history_undoable(b0, kr0, kb0, h, st, ply0, d as int));
                }
                return false;
            }
            proof {
                assert(undo_ok(b0, kr0, kb0, h, st, k as int));
            }
            p.undo_step(Ghost(b0), Ghost(kr0), Ghost(kb0), Ghost(h), Ghost(st), Ghost(k as int));
            k = k + 1;
        }
        true
    }

    /// Whether the position and each position one legal move on fit in move lists
    /// (see [`Position::mate_draw_ready_spec`]).
    fn mate_draw_ready(&self) -> (r: bool)
        requires
            self.wf(),
            self.state_view().sixtymove_clock < 120,
        ensures
            r == self.mate_draw_ready_spec(),
    {
        let ghost b = self.board_view();
        let ghost side = self.side_spec();
        let ghost kr = self.king_sq(Side::Red);
        let ghost kb = self.king_sq(Side::Black);
        proof {
            assert(king_of(kr, kb, side) == self.king_sq(side));
            self.lemma_wf_basics();
        }
        if self.game_ply == u16::MAX || self.state.plies_since_null == u16::MAX {
            return false;
        }
        let us = self.side_to_move();
        let ksq = self.king_square(us);
        if count_pseudo_legal(self) > 128 || self.is_empty(ksq) {
            return false;
        }
        let ghost legal = legal_list(b, side, king_of(kr, kb, side));
        let mut moves = move_list_new();
        generate_moves(self, MoveGenType::Legal, &mut moves);
        proof {
            lemma_generated_legal(self);
            assert(move_list_items(moves) =~= legal);
        }
        let len = move_list_len(&moves);
        let mut k: usize = 0;
        while k < len
            invariant
                self.wf(),
                b == self.board_view(),
                side == self.side_spec(),
                kr == self.king_sq(Side::Red),
                kb == self.king_sq(Side::Black),
                legal == legal_list(b, side, king_of(kr, kb, side)),
                move_list_items(moves) == legal,
                movable_from(self, move_list_items(moves), 0),
                len == legal.len(),
                k <= len,
                self.ply_spec() < u16::MAX,
                self.state_view().sixtymove_clock < 120,
                self.state_view().plies_since_null < u16::MAX,
                forall|i: int|
                    0 <= i < k ==> {
                        let m = #[trigger] legal[i];
                        gen_fits(board_after(b, m.from_idx(), m.to_idx()), side.opp(), king_after(b, kr, kb, m, side.opp()))
                    },
            decreases len - k,
        {
            let m = move_list_get(&moves, k);
            let mut next = self.clone();
            proof {
                next.lemma_same(self);
                assert(movable(self, legal[k as int]));
            }
            next.do_move(m);
            proof {
                assert(next.king_sq(next.side_spec()) == king_after(b, kr, kb, m, side.opp()));
            }
            let them = next.side_to_move();
            let their_king = next.king_square(them);
            if count_pseudo_legal(&next) > 128 || next.is_empty(their_king) {
                return false;
            }
            k = k + 1;
        }
        true
    }

    /// Whether [`Position::rule_judge`] can judge the position within the limits
    /// of move lists, piece identifiers and the history (see
    /// [`Position::judge_ready_spec`]).
    pub fn judge_ready(&self) -> (r: bool)
        requires
            self.wf(),
        ensures
            r == self.judge_ready_spec(),
    {
        let ghost b = self.board_view();
        let ghost h = self.history_view();
        let ghost st = self.state_view();
        let rule60 = self.state.sixtymove_clock;
        if rule60 >= 120 {
            return true;
        }
        let case = self.material_case_exec();
        if case == 1 {
            return true;
        }
        if case == 2 {
            return self.mate_draw_ready();
        }
        let current_hash = self.state.zobrist;
        let n = self.history.len();
        let max_back: usize = if (rule60 as usize) < n {
            rule60 as usize
        } else {
            n
        };
        let mut i: usize = 4;
        while i <= max_back
            invariant
                4 <= i,
                max_back <= n,
                n == h.len(),
                h == self.history_view(),
                st == self.state_view(),
                b == self.board_view(),
                self.wf(),
                current_hash == st.zobrist,
                rule60 == st.sixtymove_clock,
                rule60 < 120,
                material_case(b) == 0,
                max_back as int == (if (st.sixtymove_clock as int) < h.len() {
                    st.sixtymove_clock as int
                } else {
                    h.len() as int
                }),
                first_repetition(h, current_hash, max_back as int, 4) == first_repetition(
                    h,
                    current_hash,
                    max_back as int,
                    i as int,
                ),
            decreases max_back + 2 - i,
        {
            if self.history[n - i].zobrist == current_hash {
                let (us_check, them_check) = self.perpetual_checks(i);
                if us_check || them_check {
                    return true;
                }
                let pieces_fit = self.state.in_check || (self.side_pieces(Side::Red) <= 16
                    && self.side_pieces(Side::Black) <= 16);
                if !pieces_fit {
                    return false;
                }
                return self.history_undoable_exec(i);
            }
            i = i + 2;
        }
        true
    }
}


impl Position {
    /// The verdicts of the draw rules at a ply of at most 255 are scores within the
    /// search range.
    pub proof fn lemma_verdict_range(&self, ply: int)
        requires
            0 <= ply <= 255,
        ensures
            self.rule_verdict(ply) matches Some(s) ==> -MATE <= s <= MATE,
    {
        let b = self.board_view();
        let kr = self.king_sq(Side::Red);
        let kb = self.king_sq(Side::Black);
        let h = self.history_view();
        let st = self.state_view();
        let max_back = if (st.sixtymove_clock as int) < h.len() {
            st.sixtymove_clock as int
        } else {
            h.len() as int
        };
        match first_repetition(h, st.zobrist, max_back, 4) {
            Some(i) => {
                let c = chase_verdict(b, kr, kb, h, st, self.side_spec(), i, ply);
                assert(-MATE <= c <= MATE);
            },
            None => {},
        }
    }
}

} // verus!
