//! Move generation: the pseudo-legal moves of the side to move, in a fixed order,
//! and their filtering into legal moves, captures or quiet moves.
use crate::bitboard::{Bitboard, bit, bits_count, on_board};
use crate::boardspec::{color_set, occ_set};
use crate::leapers::{
    advisor_attacks, advisor_set, bishop_attacks, bishop_set, king_attacks, king_set,
    knight_attacks, knight_set, pawn_attacks, pawn_set,
};
use crate::movelist::{MoveList, move_list_items, move_list_push, move_list_retain_kept};
use crate::position::{Position, legal_on, side_type_set};
use crate::sliding::{cannon_capture_set, cannon_captures, rook_attacks, rook_set};
use crate::types::{
    Move, MoveGenType, Piece, PieceType, Side, Square, lemma_piece_parts, lemma_square_from_idx,
    lemma_square_idx,
};
use vstd::prelude::*;

verus! {

broadcast use {lemma_square_idx, lemma_square_from_idx, lemma_piece_parts};

/// The elements of `s` below `n`, in ascending order.
pub open spec fn squares_up(s: Set<int>, n: int) -> Seq<int>
    decreases n,
{
    if n <= 0 {
        Seq::empty()
    } else {
        squares_up(s, n - 1) + if s.contains(n - 1) {
            seq![n - 1]
        } else {
            Seq::empty()
        }
    }
}

/// The move from square `from` to square `to`, without flags.
pub open spec fn move_spec(from: int, to: int) -> Move {
    Move((to + 128 * from) as u16)
}

/// The moves from `from` to each square of `targets`, in ascending order of target.
pub open spec fn moves_to(from: int, targets: Set<int>) -> Seq<Move> {
    squares_up(targets, 90).map_values(|t: int| move_spec(from, t))
}

/// The squares a piece of side `us` and type `t` standing on `from` may move to on
/// board `b`, ignoring checks: its attacks minus the squares of its own side. A
/// cannon moves to the empty squares a rook would reach, and captures by jumping
/// over exactly one piece.
pub open spec fn piece_targets(b: Seq<Option<Piece>>, us: Side, t: PieceType, from: int) -> Set<
    int,
> {
    let occ = occ_set(b);
    let own = color_set(b, us);
    match t {
        PieceType::King => king_set(from).difference(own),
        PieceType::Advisor => advisor_set(from).difference(own),
        PieceType::Bishop => bishop_set(from, occ).difference(own),
        PieceType::Knight => knight_set(from, occ).difference(own),
        PieceType::Pawn => pawn_set(from, us).difference(own),
        PieceType::Rook => rook_set(from, occ).difference(own),
        PieceType::Cannon => rook_set(from, occ).difference(occ).union(
            cannon_capture_set(from, occ).intersect(color_set(b, us.opp())),
        ),
    }
}

/// The moves of the pieces of type `t` of side `us` standing on `origins`, origin
/// by origin.
pub open spec fn moves_from_origins(
    b: Seq<Option<Piece>>,
    us: Side,
    t: PieceType,
    origins: Seq<int>,
) -> Seq<Move>
    decreases origins.len(),
{
    if origins.len() == 0 {
        Seq::empty()
    } else {
        moves_from_origins(b, us, t, origins.drop_last()) + moves_to(
            origins.last(),
            piece_targets(b, us, t, origins.last()),
        )
    }
}

/// The moves of the pieces of type `t` of side `us`, by ascending origin.
pub open spec fn kind_moves(b: Seq<Option<Piece>>, us: Side, t: PieceType) -> Seq<Move> {
    moves_from_origins(b, us, t, squares_up(side_type_set(b, us, t), 90))
}

/// The pseudo-legal moves of side `us`, whose king is recorded on `king_sq`: the
/// king's moves, then those of the advisors, bishops, knights, pawns, rooks and
/// cannons; for each kind by ascending origin, and for each origin by ascending
/// target.
pub open spec fn pseudo_legal_moves(b: Seq<Option<Piece>>, us: Side, king_sq: int) -> Seq<Move> {
    moves_to(king_sq, piece_targets(b, us, PieceType::King, king_sq)) + kind_moves(
        b,
        us,
        PieceType::Advisor,
    ) + kind_moves(b, us, PieceType::Bishop) + kind_moves(b, us, PieceType::Knight) + kind_moves(
        b,
        us,
        PieceType::Pawn,
    ) + kind_moves(b, us, PieceType::Rook) + kind_moves(b, us, PieceType::Cannon)
}

/// The pseudo-legal moves of the side to move of `pos`.
pub open spec fn pseudo_legal(pos: &Position) -> Seq<Move> {
    pseudo_legal_moves(pos.board_view(), pos.side_spec(), pos.king_sq(pos.side_spec()))
}

/// Whether `m` moves a piece of `pos` to another board square.
pub open spec fn movable(pos: &Position, m: Move) -> bool {
    &&& m.valid()
    &&& m.from_idx() != m.to_idx()
    &&& pos.board_view()[m.from_idx()] is Some
}

/// Whether move generation of type `gen_type` keeps the pseudo-legal move `m`: it
/// must be legal and, for captures, land on a piece, for quiet moves, on an empty
/// square.
pub open spec fn keep_spec(pos: &Position, gen_type: MoveGenType, m: Move) -> bool {
    &&& pos.legal_spec(m)
    &&& match gen_type {
        MoveGenType::Captures => pos.board_view()[m.to_idx()] is Some,
        MoveGenType::Quiets => pos.board_view()[m.to_idx()] is None,
        _ => true,
    }
}

/// The moves that generation of type `gen_type` produces for `pos`.
pub open spec fn generated(pos: &Position, gen_type: MoveGenType) -> Seq<Move> {
    if gen_type == MoveGenType::PseudoLegal {
        pseudo_legal(pos)
    } else {
        pseudo_legal(pos).filter(|m: Move| keep_spec(pos, gen_type, m))
    }
}

/// Below `n`, a set with no element there has no element in ascending order.
pub proof fn lemma_squares_up_none(s: Set<int>, n: int)
    requires
        forall|j: int| 0 <= j < n ==> !s.contains(j),
    ensures
        squares_up(s, n) == Seq::<int>::empty(),
    decreases n,
{
    if n > 0 {
        lemma_squares_up_none(s, n - 1);
        assert(squares_up(s, n) =~= Seq::<int>::empty());
    }
}

/// The ascending elements of `s` start with its least element `k`.
pub proof fn lemma_squares_up_pop(s: Set<int>, k: int, n: int)
    requires
        0 <= k < n,
        s.contains(k),
        forall|j: int| 0 <= j < k ==> !s.contains(j),
    ensures
        squares_up(s, n) == seq![k] + squares_up(s.remove(k), n),
    decreases n,
{
    if n == k + 1 {
        lemma_squares_up_none(s, k);
        lemma_squares_up_none(s.remove(k), k);
        assert(squares_up(s, n) =~= seq![k] + squares_up(s.remove(k), n));
    } else {
        lemma_squares_up_pop(s, k, n - 1);
        assert(squares_up(s, n) =~= seq![k] + squares_up(s.remove(k), n));
    }
}

/// There are at most `n` elements below `n`.
pub proof fn lemma_squares_up_len(s: Set<int>, n: int)
    ensures
        squares_up(s, n).len() <= if n < 0 {
            0
        } else {
            n
        },
    decreases n,
{
    if n > 0 {
        lemma_squares_up_len(s, n - 1);
    }
}

/// The ascending elements of `s` below `n` are elements of `s`, in `0..n`.
pub proof fn lemma_squares_up_elems(s: Set<int>, n: int)
    ensures
        forall|i: int|
            0 <= i < squares_up(s, n).len() ==> s.contains(#[trigger] squares_up(s, n)[i]) && 0
                <= squares_up(s, n)[i] < n,
    decreases n,
{
    if n > 0 {
        lemma_squares_up_elems(s, n - 1);
        let prev = squares_up(s, n - 1);
        assert forall|i: int| 0 <= i < squares_up(s, n).len() implies s.contains(
            #[trigger] squares_up(s, n)[i],
        ) && 0 <= squares_up(s, n)[i] < n by {
            if i < prev.len() {
                assert(squares_up(s, n)[i] == prev[i]);
            }
        }
    }
}

/// Taking more origins never produces fewer moves.
proof fn lemma_origins_prefix_len(
    b: Seq<Option<Piece>>,
    us: Side,
    t: PieceType,
    xs: Seq<int>,
    ys: Seq<int>,
)
    ensures
        moves_from_origins(b, us, t, xs).len() <= moves_from_origins(b, us, t, xs + ys).len(),
    decreases ys.len(),
{
    if ys.len() == 0 {
        assert(xs + ys =~= xs);
    } else {
        lemma_origins_prefix_len(b, us, t, xs, ys.drop_last());
        assert((xs + ys).drop_last() =~= xs + ys.drop_last());
    }
}

/// Appends the moves from `from` to each square of `targets`, by ascending target.
fn push_moves_to(moves: &mut MoveList, from: Square, targets: Bitboard)
    requires
        on_board(targets@),
        !targets@.contains(from.idx()),
        move_list_items(*old(moves)).len() + squares_up(targets@, 90).len() <= 128,
    ensures
        move_list_items(*final(moves)) == move_list_items(*old(moves)) + moves_to(
            from.idx(),
            targets@,
        ),
        forall|i: int|
            move_list_items(*old(moves)).len() <= i < move_list_items(*final(moves)).len() ==> {
                let m = #[trigger] move_list_items(*final(moves))[i];
                &&& m.valid()
                &&& m.from_idx() == from.idx()
                &&& targets@.contains(m.to_idx())
            },
{
    let ghost base = move_list_items(*moves);
    let ghost t0 = targets@;
    let ghost f = |t: int| move_spec(from.idx(), t);
    let ghost mut consumed: Seq<int> = Seq::empty();
    let mut rest = targets;
    loop
        invariant
            squares_up(t0, 90) == consumed + squares_up(rest@, 90),
            move_list_items(*moves) == base + consumed.map_values(f),
            on_board(rest@),
            rest@.subset_of(t0),
            t0 == targets@,
            !t0.contains(from.idx()),
            f == (|t: int| move_spec(from.idx(), t)),
            base == move_list_items(*old(moves)),
            base.len() + squares_up(t0, 90).len() <= 128,
            forall|j: int| 0 <= j < consumed.len() ==> t0.contains(#[trigger] consumed[j]) && 0
                <= consumed[j] < 90,
        ensures
            move_list_items(*moves) == base + moves_to(from.idx(), t0),
            forall|j: int| 0 <= j < consumed.len() ==> t0.contains(#[trigger] consumed[j]) && 0
                <= consumed[j] < 90,
            move_list_items(*moves) == base + consumed.map_values(f),
        decreases squares_up(rest@, 90).len(),
    {
        let ghost r0 = rest@;
        match rest.pop_lsb() {
            Some(to) => {
                proof {
                    lemma_squares_up_pop(r0, to.idx(), 90);
                }
                let m = Move::new(from, to);
                assert(m == f(to.idx()));
                move_list_push(moves, m);
                proof {
                    assert(consumed.push(to.idx()).map_values(f) =~= consumed.map_values(f).push(
                        f(to.idx()),
                    ));
                    consumed = consumed.push(to.idx());
                    assert(squares_up(t0, 90) =~= consumed + squares_up(rest@, 90));
                }
            },
            None => {
                proof {
                    lemma_squares_up_none(r0, 90);
                    assert(consumed =~= squares_up(t0, 90));
                }
                break ;
            },
        }
    }
    proof {
        assert forall|i: int|
            base.len() <= i < move_list_items(*moves).len() implies {
                let m = #[trigger] move_list_items(*moves)[i];
                &&& m.valid()
                &&& m.from_idx() == from.idx()
                &&& targets@.contains(m.to_idx())
            } by {
            let k = consumed[i - base.len()];
            assert(move_list_items(*moves)[i] == move_spec(from.idx(), k));
            assert(move_spec(from.idx(), k).0 == k + 128 * from.idx());
        }
    }
}

/// The squares the piece of side `us` and type `t` on `from` may move to, ignoring
/// checks.
pub(crate) fn piece_targets_bb(pos: &Position, us: Side, t: PieceType, from: Square) -> (r: Bitboard)
    requires
        pos.tables_wf(),
    ensures
        r@ == piece_targets(pos.board_view(), us, t, from.idx()),
        on_board(r@),
{
    let own = pos.bitboard_by_color(us);
    let occ = pos.bitboard_occupied();
    let r = match t {
        PieceType::King => king_attacks(from).and_not(own),
        PieceType::Advisor => advisor_attacks(from).and_not(own),
        PieceType::Bishop => bishop_attacks(from, occ).and_not(own),
        PieceType::Knight => knight_attacks(from, occ).and_not(own),
        PieceType::Pawn => pawn_attacks(from, us).and_not(own),
        PieceType::Rook => rook_attacks(from, occ).and_not(own),
        PieceType::Cannon => {
            let them = pos.bitboard_by_color(us.opposite());
            rook_attacks(from, occ).and_not(occ).const_or(cannon_captures(from, occ).const_and(them))
        },
    };
    proof {
        assert(r@ =~= piece_targets(pos.board_view(), us, t, from.idx()));
    }
    r
}

/// Appends the moves of the pieces of type `t` of side `us`, by ascending origin.
fn push_kind_moves(pos: &Position, us: Side, t: PieceType, moves: &mut MoveList)
    requires
        pos.tables_wf(),
        move_list_items(*old(moves)).len() + kind_moves(pos.board_view(), us, t).len() <= 128,
    ensures
        move_list_items(*final(moves)) == move_list_items(*old(moves)) + kind_moves(
            pos.board_view(),
            us,
            t,
        ),
        forall|i: int|
            move_list_items(*old(moves)).len() <= i < move_list_items(*final(moves)).len()
                ==> movable(pos, #[trigger] move_list_items(*final(moves))[i]),
{
    let ghost b = pos.board_view();
    let ghost base = move_list_items(*moves);
    let mut origins = pos.bitboard_of(us, t);
    let ghost o0 = origins@;
    let ghost mut done: Seq<int> = Seq::empty();
    proof {
        pos.lemma_wf_basics();
        assert(done + squares_up(o0, 90) =~= squares_up(o0, 90));
        assert(on_board(origins@));
    }
    loop
        invariant
            pos.tables_wf(),
            b == pos.board_view(),
            base == move_list_items(*old(moves)),
            o0 == side_type_set(b, us, t),
            squares_up(o0, 90) == done + squares_up(origins@, 90),
            move_list_items(*moves) == base + moves_from_origins(b, us, t, done),
            on_board(origins@),
            origins@.subset_of(o0),
            base.len() + moves_from_origins(b, us, t, squares_up(o0, 90)).len() <= 128,
            forall|i: int|
                base.len() <= i < move_list_items(*moves).len() ==> movable(
                    pos,
                    #[trigger] move_list_items(*moves)[i],
                ),
        ensures
            move_list_items(*moves) == base + moves_from_origins(b, us, t, squares_up(o0, 90)),
            forall|i: int|
                base.len() <= i < move_list_items(*moves).len() ==> movable(
                    pos,
                    #[trigger] move_list_items(*moves)[i],
                ),
        decreases squares_up(origins@, 90).len(),
    {
        let ghost r0 = origins@;
        match origins.pop_lsb() {
            Some(from) => {
                proof {
                    lemma_squares_up_pop(r0, from.idx(), 90);
                    assert(done.push(from.idx()) + squares_up(origins@, 90) =~= done + squares_up(
                        r0,
                        90,
                    ));
                    lemma_origins_prefix_len(b, us, t, done.push(from.idx()), squares_up(origins@, 90));
                    assert(done.push(from.idx()).drop_last() =~= done);
                }
                let targets = piece_targets_bb(pos, us, t, from);
                proof {
                    assert(side_type_set(b, us, t).contains(from.idx()));
                    assert(color_set(b, us).contains(from.idx()));
                    assert(occ_set(b).contains(from.idx()));
                }
                let ghost before = move_list_items(*moves);
                push_moves_to(moves, from, targets);
                proof {
                    assert forall|i: int|
                        base.len() <= i < move_list_items(*moves).len() implies movable(
                        pos,
                        #[trigger] move_list_items(*moves)[i],
                    ) by {
                        if i < before.len() {
                            assert(move_list_items(*moves)[i] == before[i]);
                        }
                    }
                    done = done.push(from.idx());
                }
            },
            None => {
                proof {
                    lemma_squares_up_none(r0, 90);
                    assert(done =~= squares_up(o0, 90));
                }
                break ;
            },
        }
    }
}

/// The number of squares of a bitboard of board squares, counted by removing them
/// one by one.
pub fn count_squares(b: Bitboard) -> (r: u32)
    requires
        on_board(b@),
    ensures
        r == squares_up(b@, 90).len(),
        r <= 90,
{
    let mut rest = b;
    let mut n: u32 = 0;
    proof {
        lemma_squares_up_len(b@, 90);
    }
    loop
        invariant
            on_board(rest@),
            squares_up(b@, 90).len() == n + squares_up(rest@, 90).len(),
            squares_up(b@, 90).len() <= 90,
        ensures
            n == squares_up(b@, 90).len(),
        decreases squares_up(rest@, 90).len(),
    {
        let ghost r0 = rest@;
        match rest.pop_lsb() {
            Some(sq) => {
                proof {
                    lemma_squares_up_pop(r0, sq.idx(), 90);
                }
                n = n + 1;
            },
            None => {
                proof {
                    lemma_squares_up_none(r0, 90);
                }
                break ;
            },
        }
    }
    n
}

/// The number of moves of the pieces of type `t` of side `us` (see [`kind_moves`]).
fn count_kind_moves(pos: &Position, us: Side, t: PieceType) -> (r: usize)
    requires
        pos.tables_wf(),
    ensures
        r == kind_moves(pos.board_view(), us, t).len(),
        r <= 8100,
{
    let ghost b = pos.board_view();
    let mut origins = pos.bitboard_of(us, t);
    let ghost o0 = origins@;
    let ghost mut done: Seq<int> = Seq::empty();
    let mut count: usize = 0;
    proof {
        pos.lemma_wf_basics();
        lemma_squares_up_len(o0, 90);
        assert(done + squares_up(o0, 90) =~= squares_up(o0, 90));
        assert(on_board(origins@));
    }
    loop
        invariant
            pos.tables_wf(),
            b == pos.board_view(),
            o0 == side_type_set(b, us, t),
            squares_up(o0, 90) == done + squares_up(origins@, 90),
            squares_up(o0, 90).len() <= 90,
            on_board(origins@),
            origins@.subset_of(o0),
            count == moves_from_origins(b, us, t, done).len(),
            count <= 90 * done.len(),
        ensures
            count == moves_from_origins(b, us, t, squares_up(o0, 90)).len(),
            count <= 8100,
        decreases squares_up(origins@, 90).len(),
    {
        let ghost r0 = origins@;
        match origins.pop_lsb() {
            Some(from) => {
                proof {
                    lemma_squares_up_pop(r0, from.idx(), 90);
                    assert(done.push(from.idx()) + squares_up(origins@, 90) =~= done + squares_up(
                        r0,
                        90,
                    ));
                    assert(done.push(from.idx()).drop_last() =~= done);
                }
                let targets = piece_targets_bb(pos, us, t, from);
                let n = count_squares(targets);
                count = count + n as usize;
                proof {
                    done = done.push(from.idx());
                }
            },
            None => {
                proof {
                    lemma_squares_up_none(r0, 90);
                    assert(done =~= squares_up(o0, 90));
                }
                break ;
            },
        }
    }
    count
}

/// The number of pseudo-legal moves of the side to move (see [`pseudo_legal`]).
pub fn count_pseudo_legal(pos: &Position) -> (r: usize)
    requires
        pos.tables_wf(),
    ensures
        r == pseudo_legal(pos).len(),
{
    let us = pos.side_to_move();
    let king_sq = pos.king_square(us);
    let king_targets = piece_targets_bb(pos, us, PieceType::King, king_sq);
    let n = count_squares(king_targets);
    let mut count = n as usize;
    count = count + count_kind_moves(pos, us, PieceType::Advisor);
    count = count + count_kind_moves(pos, us, PieceType::Bishop);
    count = count + count_kind_moves(pos, us, PieceType::Knight);
    count = count + count_kind_moves(pos, us, PieceType::Pawn);
    count = count + count_kind_moves(pos, us, PieceType::Rook);
    count = count + count_kind_moves(pos, us, PieceType::Cannon);
    count
}

/// Every move of `s` from position `a` on moves a piece of `pos`.
pub open spec fn movable_from(pos: &Position, s: Seq<Move>, a: int) -> bool {
    forall|i: int| a <= i < s.len() ==> movable(pos, #[trigger] s[i])
}

/// Appending moves that move pieces keeps every move from `a` on moving a piece.
proof fn lemma_movable_extend(pos: &Position, s1: Seq<Move>, x: Seq<Move>, s2: Seq<Move>, a: int)
    requires
        0 <= a <= s1.len(),
        s2 == s1 + x,
        movable_from(pos, s1, a),
        movable_from(pos, s2, s1.len() as int),
    ensures
        movable_from(pos, s2, a),
{
    assert forall|i: int| a <= i < s2.len() implies movable(pos, #[trigger] s2[i]) by {
        if i < s1.len() {
            assert(s2[i] == s1[i]);
        }
    }
}

/// Appends the pseudo-legal moves of the side to move.
#[verifier::rlimit(30)]
fn generate_pseudo_legal(pos: &Position, moves: &mut MoveList)
    requires
        pos.tables_wf(),
        move_list_items(*old(moves)).len() + pseudo_legal(pos).len() <= 128,
    ensures
        move_list_items(*final(moves)) == move_list_items(*old(moves)) + pseudo_legal(pos),
        pos.board_view()[pos.king_sq(pos.side_spec())] is Some ==> movable_from(
            pos,
            move_list_items(*final(moves)),
            move_list_items(*old(moves)).len() as int,
        ),
{
    let ghost b = pos.board_view();
    let ghost base = move_list_items(*moves);
    let us = pos.side_to_move();
    let king_sq = pos.king_square(us);
    let king_targets = piece_targets_bb(pos, us, PieceType::King, king_sq);
    push_moves_to(moves, king_sq, king_targets);
    let ghost s1 = move_list_items(*moves);
    let ghost king_placed = b[king_sq.idx()] is Some;
    proof {
        if king_placed {
            assert forall|i: int| base.len() <= i < s1.len() implies movable(pos, #[trigger] s1[i]) by {
                assert(!king_targets@.contains(king_sq.idx()));
            }
        }
    }
    push_kind_moves(pos, us, PieceType::Advisor, moves);
    let ghost s2 = move_list_items(*moves);
    proof {
        if king_placed {
            lemma_movable_extend(pos, s1, kind_moves(b, us, PieceType::Advisor), s2, base.len() as int);
        }
    }
    push_kind_moves(pos, us, PieceType::Bishop, moves);
    let ghost s3 = move_list_items(*moves);
    proof {
        if king_placed {
            lemma_movable_extend(pos, s2, kind_moves(b, us, PieceType::Bishop), s3, base.len() as int);
        }
    }
    push_kind_moves(pos, us, PieceType::Knight, moves);
    let ghost s4 = move_list_items(*moves);
    proof {
        if king_placed {
            lemma_movable_extend(pos, s3, kind_moves(b, us, PieceType::Knight), s4, base.len() as int);
        }
    }
    push_kind_moves(pos, us, PieceType::Pawn, moves);
    let ghost s5 = move_list_items(*moves);
    proof {
        if king_placed {
            lemma_movable_extend(pos, s4, kind_moves(b, us, PieceType::Pawn), s5, base.len() as int);
        }
    }
    push_kind_moves(pos, us, PieceType::Rook, moves);
    let ghost s6 = move_list_items(*moves);
    proof {
        if king_placed {
            lemma_movable_extend(pos, s5, kind_moves(b, us, PieceType::Rook), s6, base.len() as int);
        }
    }
    push_kind_moves(pos, us, PieceType::Cannon, moves);
    proof {
        let s7 = move_list_items(*moves);
        if king_placed {
            lemma_movable_extend(pos, s6, kind_moves(b, us, PieceType::Cannon), s7, base.len() as int);
        }
        assert(s7 =~= base + pseudo_legal(pos));
    }
}

/// Whether move generation of type `gen_type` keeps the pseudo-legal move `m`.
pub fn keep_move(pos: &Position, gen_type: MoveGenType, m: Move) -> (r: bool)
    requires
        pos.tables_wf(),
        movable(pos, m),
    ensures
        r == keep_spec(pos, gen_type, m),
{
    if !pos.legal(m) {
        return false;
    }
    match gen_type {
        MoveGenType::Captures => pos.is_capture(m),
        MoveGenType::Quiets => pos.is_quiet(m),
        _ => true,
    }
}

/// Appends to `moves` the moves of type `gen_type` of the side to move: all
/// pseudo-legal moves, or, for the other types, the legal ones among them (only
/// captures, or only quiet moves, where asked). The filter applies to the moves
/// already in the list too.
pub fn generate_moves(pos: &Position, gen_type: MoveGenType, moves: &mut MoveList)
    requires
        pos.tables_wf(),
        move_list_items(*old(moves)).len() + pseudo_legal(pos).len() <= 128,
        gen_type != MoveGenType::PseudoLegal ==> pos.board_view()[pos.king_sq(pos.side_spec())] is Some,
        gen_type != MoveGenType::PseudoLegal ==> movable_from(pos, move_list_items(*old(moves)), 0),
    ensures
        move_list_items(*final(moves)) == if gen_type == MoveGenType::PseudoLegal {
            move_list_items(*old(moves)) + pseudo_legal(pos)
        } else {
            (move_list_items(*old(moves)) + pseudo_legal(pos)).filter(
                |m: Move| keep_spec(pos, gen_type, m),
            )
        },
        gen_type != MoveGenType::PseudoLegal ==> movable_from(pos, move_list_items(*final(moves)), 0),
{
    let ghost base = move_list_items(*moves);
    generate_pseudo_legal(pos, moves);
    if gen_type == MoveGenType::PseudoLegal {
        return ;
    }
    proof {
        lemma_movable_extend(pos, base, pseudo_legal(pos), move_list_items(*moves), 0);
    }
    let ghost before = move_list_items(*moves);
    move_list_retain_kept(moves, pos, gen_type);
    proof {
        lemma_filter_movable(pos, before, |m: Move| keep_spec(pos, gen_type, m));
    }
}

/// The legal moves of `side` on board `b`, its king being recorded on `ksq`: the
/// pseudo-legal moves that leave that king unattacked.
pub open spec fn legal_list(b: Seq<Option<Piece>>, side: Side, ksq: int) -> Seq<Move> {
    pseudo_legal_moves(b, side, ksq).filter(|m: Move| legal_on(b, side, ksq, m.from_idx(), m.to_idx()))
}

/// Legal generation keeps the pseudo-legal moves whose king stays unattacked.
pub proof fn lemma_generated_legal(pos: &Position)
    ensures
        generated(pos, MoveGenType::Legal) == legal_list(
            pos.board_view(),
            pos.side_spec(),
            pos.king_sq(pos.side_spec()),
        ),
{
    let f1 = |m: Move| keep_spec(pos, MoveGenType::Legal, m);
    let f2 = |m: Move|
        legal_on(
            pos.board_view(),
            pos.side_spec(),
            pos.king_sq(pos.side_spec()),
            m.from_idx(),
            m.to_idx(),
        );
    assert(f1 =~= f2);
}

/// Filtering keeps moves that move pieces.
pub proof fn lemma_filter_movable(pos: &Position, s: Seq<Move>, pred: spec_fn(Move) -> bool)
    requires
        movable_from(pos, s, 0),
    ensures
        movable_from(pos, s.filter(pred), 0),
{
    let f = s.filter(pred);
    assert forall|i: int| 0 <= i < f.len() implies movable(pos, #[trigger] f[i]) by {
        assert(f.contains(f[i]));
        s.lemma_filter_contains_rev(pred, f[i]);
        let j = choose|j: int| 0 <= j < s.len() && s[j] == f[i];
        assert(movable(pos, s[j]));
    }
}

/// The bits of `x` below `n` counted one by one are its squares below `n`.
proof fn lemma_bits_count_squares(x: Bitboard, n: int)
    requires
        0 <= n <= 128,
    ensures
        bits_count(x.0, n) == squares_up(x@, n).len(),
    decreases n,
{
    if n > 0 {
        lemma_bits_count_squares(x, n - 1);
        assert(x@.contains(n - 1) == bit(x.0, n - 1));
    }
}

/// Past the board, a set of board squares has no more elements.
proof fn lemma_squares_up_past_board(s: Set<int>, n: int)
    requires
        90 <= n,
        on_board(s),
    ensures
        squares_up(s, n) == squares_up(s, 90),
    decreases n,
{
    if n > 90 {
        lemma_squares_up_past_board(s, n - 1);
        assert(!s.contains(n - 1));
        assert(squares_up(s, n) =~= squares_up(s, n - 1));
    }
}

/// The number of set bits of a bitboard of board squares is its number of squares.
pub proof fn lemma_count_ones_squares(x: Bitboard)
    requires
        on_board(x@),
    ensures
        bits_count(x.0, 128) == squares_up(x@, 90).len(),
{
    lemma_bits_count_squares(x, 128);
    lemma_squares_up_past_board(x@, 128);
}

/// Whether `m` moves a piece of side `us` on board `b` from its square to another
/// board square that holds none of its own pieces.
pub open spec fn own_move(b: Seq<Option<Piece>>, us: Side, m: Move) -> bool {
    &&& 0 <= m.from_idx() < 90
    &&& 0 <= m.to_idx() < 90
    &&& m.from_idx() != m.to_idx()
    &&& b[m.from_idx()] is Some
    &&& b[m.from_idx()]->0.color_spec() == us
    &&& !(b[m.to_idx()] is Some && b[m.to_idx()]->0.color_spec() == us)
}

/// The move from `from` to `to` has those squares.
proof fn lemma_move_spec(from: int, to: int)
    requires
        0 <= from < 90,
        0 <= to < 90,
    ensures
        move_spec(from, to).from_idx() == from,
        move_spec(from, to).to_idx() == to,
{
    assert((to + 128 * from) % 128 == to && ((to + 128 * from) / 128) % 128 == from) by (nonlinear_arith)
        requires
            0 <= from < 90,
            0 <= to < 90,
    ;
}

/// The moves from an own piece on `from` to squares holding no own piece are own
/// moves.
proof fn lemma_moves_to_own(b: Seq<Option<Piece>>, us: Side, from: int, targets: Set<int>)
    requires
        b.len() == 90,
        0 <= from < 90,
        b[from] is Some && b[from]->0.color_spec() == us,
        forall|t: int| #[trigger] targets.contains(t) ==> !color_set(b, us).contains(t),
    ensures
        forall|i: int| 0 <= i < moves_to(from, targets).len() ==> own_move(b, us, #[trigger] moves_to(from, targets)[i]),
{
    lemma_squares_up_elems(targets, 90);
    assert forall|i: int| 0 <= i < moves_to(from, targets).len() implies own_move(b, us, #[trigger] moves_to(from, targets)[i]) by {
        let t = squares_up(targets, 90)[i];
        lemma_move_spec(from, t);
        assert(!color_set(b, us).contains(t));
        assert(color_set(b, us).contains(from));
    }
}

/// The targets of a piece never hold a piece of its own side.
proof fn lemma_targets_not_own(b: Seq<Option<Piece>>, us: Side, t: PieceType, from: int)
    ensures
        forall|x: int| #[trigger] piece_targets(b, us, t, from).contains(x) ==> !color_set(b, us).contains(x),
{
    assert forall|x: int| #[trigger] piece_targets(b, us, t, from).contains(x) implies !color_set(b, us).contains(x) by {
        if t == PieceType::Cannon {
            if color_set(b, us).contains(x) {
                assert(occ_set(b).contains(x));
                assert(!color_set(b, us.opp()).contains(x));
            }
        }
    }
}

/// The moves of the pieces of type `t` of `us` on `origins` (squares of such
/// pieces) are own moves.
proof fn lemma_origins_own(b: Seq<Option<Piece>>, us: Side, t: PieceType, origins: Seq<int>)
    requires
        b.len() == 90,
        forall|i: int| 0 <= i < origins.len() ==> side_type_set(b, us, t).contains(#[trigger] origins[i]),
    ensures
        forall|i: int|
            0 <= i < moves_from_origins(b, us, t, origins).len() ==> own_move(
                b,
                us,
                #[trigger] moves_from_origins(b, us, t, origins)[i],
            ),
    decreases origins.len(),
{
    if origins.len() > 0 {
        let o = origins.last();
        assert(side_type_set(b, us, t).contains(origins[origins.len() - 1]));
        lemma_origins_own(b, us, t, origins.drop_last());
        lemma_targets_not_own(b, us, t, o);
        lemma_moves_to_own(b, us, o, piece_targets(b, us, t, o));
        let a = moves_from_origins(b, us, t, origins.drop_last());
        let c = moves_to(o, piece_targets(b, us, t, o));
        assert forall|i: int| 0 <= i < (a + c).len() implies own_move(b, us, #[trigger] (a + c)[i]) by {
            if i < a.len() {
                assert((a + c)[i] == a[i]);
            } else {
                assert((a + c)[i] == c[i - a.len()]);
            }
        }
    }
}

/// Every pseudo-legal move (and so every generated move, of any kind) moves a
/// piece of the side to move from its square to another board square holding none
/// of its own pieces, provided its king stands on the square recorded for it.
pub proof fn lemma_pseudo_legal_own_moves(b: Seq<Option<Piece>>, us: Side, ksq: int)
    requires
        b.len() == 90,
        0 <= ksq < 90,
        b[ksq] == Some(PieceType::King.piece_of(us)),
    ensures
        forall|i: int|
            0 <= i < pseudo_legal_moves(b, us, ksq).len() ==> own_move(
                b,
                us,
                #[trigger] pseudo_legal_moves(b, us, ksq)[i],
            ),
{
    assert(PieceType::King.piece_of(us).color_spec() == us);
    lemma_targets_not_own(b, us, PieceType::King, ksq);
    lemma_moves_to_own(b, us, ksq, piece_targets(b, us, PieceType::King, ksq));
    let kinds = seq![
        PieceType::Advisor,
        PieceType::Bishop,
        PieceType::Knight,
        PieceType::Pawn,
        PieceType::Rook,
        PieceType::Cannon,
    ];
    assert forall|k: int| 0 <= k < 6 implies forall|i: int|
        0 <= i < kind_moves(b, us, #[trigger] kinds[k]).len() ==> own_move(b, us, #[trigger] kind_moves(b, us, kinds[k])[i]) by {
        let t = kinds[k];
        lemma_squares_up_elems(side_type_set(b, us, t), 90);
        lemma_origins_own(b, us, t, squares_up(side_type_set(b, us, t), 90));
    }
    let all = pseudo_legal_moves(b, us, ksq);
    let parts = seq![
        moves_to(ksq, piece_targets(b, us, PieceType::King, ksq)),
        kind_moves(b, us, kinds[0]),
        kind_moves(b, us, kinds[1]),
        kind_moves(b, us, kinds[2]),
        kind_moves(b, us, kinds[3]),
        kind_moves(b, us, kinds[4]),
        kind_moves(b, us, kinds[5]),
    ];
    assert forall|i: int| 0 <= i < all.len() implies own_move(b, us, #[trigger] all[i]) by {
        lemma_concat_own(b, us, parts, i);
        assert(all == parts[0] + parts[1] + parts[2] + parts[3] + parts[4] + parts[5] + parts[6]);
    }
}

/// An element of a concatenation of seven lists of own moves is an own move.
proof fn lemma_concat_own(b: Seq<Option<Piece>>, us: Side, parts: Seq<Seq<Move>>, i: int)
    requires
        parts.len() == 7,
        forall|k: int, j: int| 0 <= k < 7 && 0 <= j < parts[k].len() ==> own_move(b, us, #[trigger] parts[k][j]),
        0 <= i < (parts[0] + parts[1] + parts[2] + parts[3] + parts[4] + parts[5] + parts[6]).len(),
    ensures
        own_move(b, us, (parts[0] + parts[1] + parts[2] + parts[3] + parts[4] + parts[5] + parts[6])[i]),
{
    let s1 = parts[0] + parts[1];
    let s2 = s1 + parts[2];
    let s3 = s2 + parts[3];
    let s4 = s3 + parts[4];
    let s5 = s4 + parts[5];
    let s6 = s5 + parts[6];
    assert forall|j: int| 0 <= j < s1.len() implies own_move(b, us, #[trigger] s1[j]) by {
        if j < parts[0].len() { assert(s1[j] == parts[0][j]); } else { assert(s1[j] == parts[1][j - parts[0].len()]); }
    }
    assert forall|j: int| 0 <= j < s2.len() implies own_move(b, us, #[trigger] s2[j]) by {
        if j < s1.len() { assert(s2[j] == s1[j]); } else { assert(s2[j] == parts[2][j - s1.len()]); }
    }
    assert forall|j: int| 0 <= j < s3.len() implies own_move(b, us, #[trigger] s3[j]) by {
        if j < s2.len() { assert(s3[j] == s2[j]); } else { assert(s3[j] == parts[3][j - s2.len()]); }
    }
    assert forall|j: int| 0 <= j < s4.len() implies own_move(b, us, #[trigger] s4[j]) by {
        if j < s3.len() { assert(s4[j] == s3[j]); } else { assert(s4[j] == parts[4][j - s3.len()]); }
    }
    assert forall|j: int| 0 <= j < s5.len() implies own_move(b, us, #[trigger] s5[j]) by {
        if j < s4.len() { assert(s5[j] == s4[j]); } else { assert(s5[j] == parts[5][j - s4.len()]); }
    }
    if i < s5.len() { assert(s6[i] == s5[i]); } else { assert(s6[i] == parts[6][i - s5.len()]); }
}

/// The squares of a set, listed upward, come in strictly increasing order.
proof fn lemma_squares_up_increasing(s: Set<int>, n: int)
    ensures
        forall|i: int, j: int|
            0 <= i < j < squares_up(s, n).len() ==> squares_up(s, n)[i] < squares_up(s, n)[j],
    decreases n,
{
    if n > 0 {
        lemma_squares_up_increasing(s, n - 1);
        lemma_squares_up_elems(s, n - 1);
        let prev = squares_up(s, n - 1);
        assert forall|i: int, j: int|
            0 <= i < j < squares_up(s, n).len() implies squares_up(s, n)[i] < squares_up(s, n)[j] by {
            if j < prev.len() {
                assert(squares_up(s, n)[i] == prev[i] && squares_up(s, n)[j] == prev[j]);
            } else {
                assert(squares_up(s, n)[i] == prev[i]);
            }
        }
    }
}

/// The moves from one square to the squares of a set are distinct, and all leave
/// from that square.
proof fn lemma_moves_to_distinct(from: int, targets: Set<int>)
    requires
        0 <= from < 90,
    ensures
        moves_to(from, targets).no_duplicates(),
        forall|i: int| 0 <= i < moves_to(from, targets).len() ==> (#[trigger] moves_to(from, targets)[i]).from_idx() == from,
{
    lemma_squares_up_increasing(targets, 90);
    lemma_squares_up_elems(targets, 90);
    let ms = moves_to(from, targets);
    assert forall|i: int| 0 <= i < ms.len() implies (#[trigger] ms[i]).from_idx() == from by {
        lemma_move_spec(from, squares_up(targets, 90)[i]);
    }
    assert forall|i: int, j: int| 0 <= i < ms.len() && 0 <= j < ms.len() && i != j implies ms[i] != ms[j] by {
        let ti = squares_up(targets, 90)[i];
        let tj = squares_up(targets, 90)[j];
        lemma_move_spec(from, ti);
        lemma_move_spec(from, tj);
        assert(ti != tj);
    }
}

/// Joining two lists without duplicates and without common element gives a list
/// without duplicates.
proof fn lemma_concat_distinct(a: Seq<Move>, c: Seq<Move>)
    requires
        a.no_duplicates(),
        c.no_duplicates(),
        forall|i: int, j: int| 0 <= i < a.len() && 0 <= j < c.len() ==> #[trigger] a[i] != #[trigger] c[j],
    ensures
        (a + c).no_duplicates(),
{
    let s = a + c;
    assert forall|i: int, j: int| 0 <= i < s.len() && 0 <= j < s.len() && i != j implies s[i] != s[j] by {
        if i < a.len() && j < a.len() {
            assert(s[i] == a[i] && s[j] == a[j]);
        } else if i >= a.len() && j >= a.len() {
            assert(s[i] == c[i - a.len()] && s[j] == c[j - a.len()]);
        } else if i < a.len() {
            assert(s[i] == a[i] && s[j] == c[j - a.len()]);
        } else {
            assert(s[j] == a[j] && s[i] == c[i - a.len()]);
        }
    }
}

/// The moves of the pieces on `origins` (strictly increasing squares of pieces
/// of type `t` of `us`) are distinct and leave from squares of those pieces.
proof fn lemma_origins_distinct(b: Seq<Option<Piece>>, us: Side, t: PieceType, origins: Seq<int>)
    requires
        forall|i: int| 0 <= i < origins.len() ==> side_type_set(b, us, t).contains(#[trigger] origins[i]) && 0
            <= origins[i] < 90,
        forall|i: int, j: int| 0 <= i < j < origins.len() ==> origins[i] < origins[j],
    ensures
        moves_from_origins(b, us, t, origins).no_duplicates(),
        forall|i: int|
            0 <= i < moves_from_origins(b, us, t, origins).len() ==> origins.contains(
                (#[trigger] moves_from_origins(b, us, t, origins)[i]).from_idx(),
            ),
    decreases origins.len(),
{
    if origins.len() > 0 {
        let o = origins.last();
        let rest = origins.drop_last();
        assert(0 <= origins[origins.len() - 1] < 90);
        lemma_origins_distinct(b, us, t, rest);
        lemma_moves_to_distinct(o, piece_targets(b, us, t, o));
        let a = moves_from_origins(b, us, t, rest);
        let c = moves_to(o, piece_targets(b, us, t, o));
        assert forall|i: int, j: int| 0 <= i < a.len() && 0 <= j < c.len() implies #[trigger] a[i] != #[trigger] c[j] by {
            let k = choose|k: int| 0 <= k < rest.len() && rest[k] == a[i].from_idx();
            assert(origins[k] < origins[origins.len() - 1]);
        }
        lemma_concat_distinct(a, c);
        assert forall|i: int| 0 <= i < (a + c).len() implies origins.contains((#[trigger] (a + c)[i]).from_idx()) by {
            if i < a.len() {
                assert((a + c)[i] == a[i]);
                let k = choose|k: int| 0 <= k < rest.len() && rest[k] == a[i].from_idx();
                assert(origins[k] == rest[k]);
            } else {
                assert((a + c)[i] == c[i - a.len()]);
                assert(origins[origins.len() - 1] == o);
            }
        }
    }
}

/// The moves of the pieces of type `t` of `us` are distinct and leave from squares
/// of such pieces.
proof fn lemma_kind_distinct(b: Seq<Option<Piece>>, us: Side, t: PieceType)
    ensures
        kind_moves(b, us, t).no_duplicates(),
        forall|i: int|
            0 <= i < kind_moves(b, us, t).len() ==> side_type_set(b, us, t).contains(
                (#[trigger] kind_moves(b, us, t)[i]).from_idx(),
            ),
{
    let o = squares_up(side_type_set(b, us, t), 90);
    lemma_squares_up_elems(side_type_set(b, us, t), 90);
    lemma_squares_up_increasing(side_type_set(b, us, t), 90);
    lemma_origins_distinct(b, us, t, o);
}

/// Whether every move of `ms` leaves from a square holding a piece of a type in
/// `types`.
spec fn from_types(b: Seq<Option<Piece>>, ms: Seq<Move>, types: Set<PieceType>) -> bool {
    forall|i: int|
        0 <= i < ms.len() ==> b[(#[trigger] ms[i]).from_idx()] is Some && types.contains(
            b[ms[i].from_idx()]->0.piece_type_spec(),
        )
}

/// Adding a list of moves leaving from pieces of one more type keeps the list
/// without duplicates.
proof fn lemma_append_kind(
    b: Seq<Option<Piece>>,
    a: Seq<Move>,
    types: Set<PieceType>,
    c: Seq<Move>,
    t: PieceType,
)
    requires
        a.no_duplicates(),
        c.no_duplicates(),
        from_types(b, a, types),
        from_types(b, c, set![t]),
        !types.contains(t),
    ensures
        (a + c).no_duplicates(),
        from_types(b, a + c, types.insert(t)),
{
    assert forall|i: int, j: int| 0 <= i < a.len() && 0 <= j < c.len() implies #[trigger] a[i] != #[trigger] c[j] by {
        assert(types.contains(b[a[i].from_idx()]->0.piece_type_spec()));
        assert(set![t].contains(b[c[j].from_idx()]->0.piece_type_spec()));
    }
    lemma_concat_distinct(a, c);
    assert forall|i: int| 0 <= i < (a + c).len() implies b[(#[trigger] (a + c)[i]).from_idx()] is Some
        && types.insert(t).contains(b[(a + c)[i].from_idx()]->0.piece_type_spec()) by {
        if i < a.len() {
            assert((a + c)[i] == a[i]);
        } else {
            assert((a + c)[i] == c[i - a.len()]);
        }
    }
}

/// The moves of a kind leave from pieces of that type.
proof fn lemma_kind_from_type(b: Seq<Option<Piece>>, us: Side, t: PieceType)
    ensures
        kind_moves(b, us, t).no_duplicates(),
        from_types(b, kind_moves(b, us, t), set![t]),
{
    lemma_kind_distinct(b, us, t);
    let ms = kind_moves(b, us, t);
    assert forall|i: int| 0 <= i < ms.len() implies b[(#[trigger] ms[i]).from_idx()] is Some && set![t].contains(
        b[ms[i].from_idx()]->0.piece_type_spec(),
    ) by {
        assert(side_type_set(b, us, t).contains(ms[i].from_idx()));
    }
}

/// The pseudo-legal moves (and so the generated moves of any kind) hold no move
/// twice, provided the king stands on the square recorded for it.
pub proof fn lemma_pseudo_legal_distinct(b: Seq<Option<Piece>>, us: Side, ksq: int)
    requires
        b.len() == 90,
        0 <= ksq < 90,
        b[ksq] == Some(PieceType::King.piece_of(us)),
    ensures
        pseudo_legal_moves(b, us, ksq).no_duplicates(),
{
    let k = moves_to(ksq, piece_targets(b, us, PieceType::King, ksq));
    lemma_moves_to_distinct(ksq, piece_targets(b, us, PieceType::King, ksq));
    assert(PieceType::King.piece_of(us).piece_type_spec() == PieceType::King);
    assert(from_types(b, k, set![PieceType::King]));
    lemma_kind_from_type(b, us, PieceType::Advisor);
    lemma_kind_from_type(b, us, PieceType::Bishop);
    lemma_kind_from_type(b, us, PieceType::Knight);
    lemma_kind_from_type(b, us, PieceType::Pawn);
    lemma_kind_from_type(b, us, PieceType::Rook);
    lemma_kind_from_type(b, us, PieceType::Cannon);
    let t0 = set![PieceType::King];
    let s1 = k + kind_moves(b, us, PieceType::Advisor);
    lemma_append_kind(b, k, t0, kind_moves(b, us, PieceType::Advisor), PieceType::Advisor);
    let t1 = t0.insert(PieceType::Advisor);
    let s2 = s1 + kind_moves(b, us, PieceType::Bishop);
    lemma_append_kind(b, s1, t1, kind_moves(b, us, PieceType::Bishop), PieceType::Bishop);
    let t2 = t1.insert(PieceType::Bishop);
    let s3 = s2 + kind_moves(b, us, PieceType::Knight);
    lemma_append_kind(b, s2, t2, kind_moves(b, us, PieceType::Knight), PieceType::Knight);
    let t3 = t2.insert(PieceType::Knight);
    let s4 = s3 + kind_moves(b, us, PieceType::Pawn);
    lemma_append_kind(b, s3, t3, kind_moves(b, us, PieceType::Pawn), PieceType::Pawn);
    let t4 = t3.insert(PieceType::Pawn);
    let s5 = s4 + kind_moves(b, us, PieceType::Rook);
    lemma_append_kind(b, s4, t4, kind_moves(b, us, PieceType::Rook), PieceType::Rook);
    let t5 = t4.insert(PieceType::Rook);
    lemma_append_kind(b, s5, t5, kind_moves(b, us, PieceType::Cannon), PieceType::Cannon);
}

/// Generated moves of any kind are distinct own moves when the king of the side to
/// move stands on the square recorded for it.
pub proof fn lemma_generated_moves(pos: &Position, gen_type: MoveGenType)
    requires
        pos.board_view().len() == 90,
        0 <= pos.king_sq(pos.side_spec()) < 90,
        pos.board_view()[pos.king_sq(pos.side_spec())] == Some(PieceType::King.piece_of(pos.side_spec())),
    ensures
        generated(pos, gen_type).no_duplicates(),
        forall|i: int|
            0 <= i < generated(pos, gen_type).len() ==> own_move(
                pos.board_view(),
                pos.side_spec(),
                #[trigger] generated(pos, gen_type)[i],
            ),
{
    let b = pos.board_view();
    let us = pos.side_spec();
    let ksq = pos.king_sq(us);
    lemma_pseudo_legal_distinct(b, us, ksq);
    lemma_pseudo_legal_own_moves(b, us, ksq);
    if gen_type != MoveGenType::PseudoLegal {
        let f = |m: Move| keep_spec(pos, gen_type, m);
        let all = pseudo_legal(pos);
        broadcast use vstd::seq_lib::group_filter_ensures;

        lemma_filter_distinct(all, f);
        assert forall|i: int| 0 <= i < all.filter(f).len() implies own_move(b, us, #[trigger] all.filter(f)[i]) by {
            assert(all.filter(f).contains(all.filter(f)[i]));
            all.lemma_filter_contains_rev(f, all.filter(f)[i]);
        }
    }
}

/// Filtering a list without duplicates keeps it without duplicates.
proof fn lemma_filter_distinct(s: Seq<Move>, f: spec_fn(Move) -> bool)
    requires
        s.no_duplicates(),
    ensures
        s.filter(f).no_duplicates(),
    decreases s.len(),
{
    reveal(Seq::filter);
    if s.len() > 0 {
        let d = s.drop_last();
        assert(d.no_duplicates()) by {
            assert forall|i: int, j: int| 0 <= i < d.len() && 0 <= j < d.len() && i != j implies d[i] != d[j] by {
                assert(d[i] == s[i] && d[j] == s[j]);
            }
        }
        lemma_filter_distinct(d, f);
        broadcast use vstd::seq_lib::group_filter_ensures;

        if f(s.last()) {
            let r = d.filter(f);
            assert(s.filter(f) == r.push(s.last()));
            assert forall|i: int| 0 <= i < r.len() implies r[i] != s.last() by {
                assert(r.contains(r[i]));
                d.lemma_filter_contains_rev(f, r[i]);
                let k = choose|k: int| 0 <= k < d.len() && d[k] == r[i];
                assert(s[k] == d[k]);
                assert(k != s.len() - 1);
            }
            assert forall|i: int, j: int| 0 <= i < r.len() + 1 && 0 <= j < r.len() + 1 && i != j implies r.push(s.last())[i] != r.push(s.last())[j] by {
                if i < r.len() && j < r.len() {
                } else if i < r.len() {
                    assert(r.push(s.last())[j] == s.last());
                } else {
                    assert(r.push(s.last())[i] == s.last());
                }
            }
        }
    }
}


/// Capture generation gives the legal moves that capture, quiet generation the legal
/// moves that capture nothing, both in the order of legal generation; evasion
/// generation gives the legal moves.
pub proof fn lemma_generation_kinds(pos: &Position)
    ensures
        generated(pos, MoveGenType::Captures) == generated(pos, MoveGenType::Legal).filter(
            |m: Move| pos.board_view()[m.to_idx()] is Some,
        ),
        generated(pos, MoveGenType::Quiets) == generated(pos, MoveGenType::Legal).filter(
            |m: Move| pos.board_view()[m.to_idx()] is None,
        ),
        generated(pos, MoveGenType::Evasions) == generated(pos, MoveGenType::Legal),
{
    let all = pseudo_legal(pos);
    let legal = |m: Move| keep_spec(pos, MoveGenType::Legal, m);
    let capture = |m: Move| pos.board_view()[m.to_idx()] is Some;
    let quiet = |m: Move| pos.board_view()[m.to_idx()] is None;
    lemma_filter_filter(all, legal, capture, |m: Move| keep_spec(pos, MoveGenType::Captures, m));
    lemma_filter_filter(all, legal, quiet, |m: Move| keep_spec(pos, MoveGenType::Quiets, m));
    assert((|m: Move| keep_spec(pos, MoveGenType::Evasions, m)) =~= legal);
}

/// Filtering by both of two conditions is filtering by one, then by the other.
proof fn lemma_filter_filter(
    s: Seq<Move>,
    p: spec_fn(Move) -> bool,
    q: spec_fn(Move) -> bool,
    pq: spec_fn(Move) -> bool,
)
    requires
        forall|m: Move| #[trigger] pq(m) == (p(m) && q(m)),
    ensures
        s.filter(pq) == s.filter(p).filter(q),
    decreases s.len(),
{
    if s.len() > 0 {
        let d = s.drop_last();
        lemma_filter_filter(d, p, q, pq);
        assert(s == d.push(s.last()));
        d.lemma_filter_push(s.last(), pq);
        d.lemma_filter_push(s.last(), p);
        d.filter(p).lemma_filter_push(s.last(), q);
    } else {
        reveal(Seq::filter);
        assert(s.filter(pq) =~= Seq::<Move>::empty());
        assert(s.filter(p) =~= Seq::<Move>::empty());
        assert(s.filter(p).filter(q) =~= Seq::<Move>::empty());
    }
}


/// Every capture generated is a legal move.
pub proof fn lemma_captures_legal(pos: &Position)
    ensures
        forall|m: Move|
            #[trigger] generated(pos, MoveGenType::Captures).contains(m) ==> generated(
                pos,
                MoveGenType::Legal,
            ).contains(m),
{
    lemma_generation_kinds(pos);
    assert forall|m: Move| #[trigger]
        generated(pos, MoveGenType::Captures).contains(m) implies generated(
        pos,
        MoveGenType::Legal,
    ).contains(m) by {
        generated(pos, MoveGenType::Legal).lemma_filter_contains_rev(
            |m: Move| pos.board_view()[m.to_idx()] is Some,
            m,
        );
    }
}

} // verus!
