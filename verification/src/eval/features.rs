//! The sparse features of a position for tuning the evaluation: for each
//! parameter the position touches, the signed number of times it does, from the
//! side to move's view. Parameters are numbered by a compact layout: material (0
//! to 7, with 7 the crossed pawn), piece-square tables by piece type in 50 entries
//! folded on the middle file (from 8), mobility counts (knight from 358, rook from
//! 367, cannon from 385) and defender counts (advisors from 403, bishops from 406).
use crate::bitboard::on_board;
use crate::boardspec::{count_spec, phase_spec};
use crate::eval::target_count;
use crate::movegen::{count_squares, lemma_squares_up_len, lemma_squares_up_none, lemma_squares_up_pop, piece_targets_bb, squares_up};
use crate::position::{Position, side_type_set};
use crate::types::{Piece, PieceType, Side, Square, lemma_square_from_idx, lemma_square_idx};
use vstd::prelude::*;

verus! {

broadcast use {lemma_square_idx, lemma_square_from_idx};

/// The material parameter of an uncrossed pawn.
pub const PARAM_PAWN: usize = 3;

/// The material parameter of a pawn that has crossed the river.
pub const PARAM_PAWN_CROSSED: usize = 7;

/// The first piece-square parameter.
pub const PST_OFFSET: usize = 8;

/// The first mobility parameter.
pub const MOBILITY_OFFSET: usize = 358;

/// The first defender parameter.
pub const DEFENDER_OFFSET: usize = 403;

/// The features of a position: parameter numbers with their coefficients, and the
/// game phase.
pub struct TuningFeatures {
    /// Each parameter touched, once, with its coefficient, in the order first met.
    pub features: Vec<(usize, i32)>,
    /// The game phase of the board.
    pub phase: u8,
}

/// `+1` for Red, `-1` for Black.
pub open spec fn sign(s: Side) -> int {
    if s == Side::Red {
        1
    } else {
        -1
    }
}

/// The material feature of `piece` on square `s`: none for a king.
pub open spec fn material_feature(piece: Piece, s: int) -> Seq<(int, int)> {
    let pt = piece.piece_type_spec();
    let c = sign(piece.color_spec());
    if pt == PieceType::Pawn {
        let crossed = if piece.color_spec() == Side::Red {
            s / 9 >= 5
        } else {
            s / 9 <= 4
        };
        seq![(if crossed { PARAM_PAWN_CROSSED as int } else { PARAM_PAWN as int }, c)]
    } else if pt == PieceType::King {
        Seq::empty()
    } else {
        seq![(pt.idx(), c)]
    }
}

/// The piece-square parameter of `piece` on square `s`: the square seen from the
/// piece's side, its file folded onto the files `a` to `e`.
pub open spec fn pst_feature(piece: Piece, s: int) -> int {
    let (r, f) = if piece.color_spec() == Side::Red {
        (s / 9, s % 9)
    } else {
        (9 - s / 9, 8 - s % 9)
    };
    let folded = if f <= 4 {
        f
    } else {
        8 - f
    };
    PST_OFFSET + piece.piece_type_spec().idx() * 50 + r * 5 + folded
}

/// The features of the pieces on the first `n` squares, in square order.
pub open spec fn square_features(b: Seq<Option<Piece>>, n: int) -> Seq<(int, int)>
    decreases n,
{
    if n <= 0 {
        Seq::empty()
    } else {
        square_features(b, n - 1) + match b[n - 1] {
            Some(p) => material_feature(p, n - 1).push((pst_feature(p, n - 1), sign(p.color_spec()))),
            None => Seq::empty(),
        }
    }
}

/// The mobility features of the pieces of type `t` of `side` on `origins`, the
/// table starting `offset` after the first mobility parameter.
pub open spec fn kind_features(
    b: Seq<Option<Piece>>,
    side: Side,
    t: PieceType,
    origins: Seq<int>,
    offset: int,
) -> Seq<(int, int)>
    decreases origins.len(),
{
    if origins.len() == 0 {
        Seq::empty()
    } else {
        kind_features(b, side, t, origins.drop_last(), offset).push(
            (MOBILITY_OFFSET + offset + target_count(b, side, t, origins.last()), sign(side)),
        )
    }
}

/// The mobility features of the knights, rooks and cannons of `side`.
pub open spec fn side_features(b: Seq<Option<Piece>>, side: Side) -> Seq<(int, int)> {
    kind_features(b, side, PieceType::Knight, squares_up(side_type_set(b, side, PieceType::Knight), 90), 0)
        + kind_features(b, side, PieceType::Rook, squares_up(side_type_set(b, side, PieceType::Rook), 90), 9)
        + kind_features(b, side, PieceType::Cannon, squares_up(side_type_set(b, side, PieceType::Cannon), 90), 27)
}

/// A count capped at 2.
pub open spec fn cap2(n: int) -> int {
    if n > 2 {
        2
    } else {
        n
    }
}

/// The defender features: the advisor and bishop counts of each side.
pub open spec fn defender_features(b: Seq<Option<Piece>>) -> Seq<(int, int)> {
    seq![
        (DEFENDER_OFFSET + cap2(count_spec(b, Piece::RedAdvisor) as int), 1),
        (DEFENDER_OFFSET + 3 + cap2(count_spec(b, Piece::RedBishop) as int), 1),
        (DEFENDER_OFFSET + cap2(count_spec(b, Piece::BlackAdvisor) as int), -1),
        (DEFENDER_OFFSET + 3 + cap2(count_spec(b, Piece::BlackBishop) as int), -1),
    ]
}

/// Every contribution of the board, from Red's side, in the order they are met.
pub open spec fn contributions(b: Seq<Option<Piece>>) -> Seq<(int, int)> {
    square_features(b, 90) + side_features(b, Side::Red) + side_features(b, Side::Black)
        + defender_features(b)
}

/// The position of the first entry of `list` for parameter `idx`, if any.
pub open spec fn find_feature(list: Seq<(int, int)>, idx: int) -> Option<int>
    decreases list.len(),
{
    if list.len() == 0 {
        None
    } else {
        match find_feature(list.drop_last(), idx) {
            Some(k) => Some(k),
            None => if list.last().0 == idx {
                Some(list.len() - 1)
            } else {
                None
            },
        }
    }
}

/// `list` with the contribution `c` added: to the entry of its parameter when
/// there is one, as a new last entry otherwise.
pub open spec fn add_feature(list: Seq<(int, int)>, c: (int, int)) -> Seq<(int, int)> {
    match find_feature(list, c.0) {
        Some(k) => list.update(k, (c.0, list[k].1 + c.1)),
        None => list.push(c),
    }
}

/// The contributions `cs` added up by parameter, in the order first met.
pub open spec fn merge_features(cs: Seq<(int, int)>) -> Seq<(int, int)>
    decreases cs.len(),
{
    if cs.len() == 0 {
        Seq::empty()
    } else {
        add_feature(merge_features(cs.drop_last()), cs.last())
    }
}

/// The features of a board with `side` to move: the merged contributions, signed
/// from the side to move's view.
pub open spec fn features_spec(b: Seq<Option<Piece>>, side: Side) -> Seq<(int, int)> {
    merge_features(contributions(b)).map_values(|e: (int, int)| (e.0, e.1 * sign(side)))
}

/// The entries of an executable feature list as integers.
pub open spec fn features_view(v: Seq<(usize, i32)>) -> Seq<(int, int)> {
    v.map_values(|e: (usize, i32)| (e.0 as int, e.1 as int))
}

/// An entry found in a prefix is the first entry of the whole list.
proof fn lemma_find_prefix(list: Seq<(int, int)>, idx: int, n: int)
    requires
        0 <= n <= list.len(),
        find_feature(list.take(n), idx) is Some,
    ensures
        find_feature(list, idx) == find_feature(list.take(n), idx),
    decreases list.len() - n,
{
    if n < list.len() {
        assert(list.take(n + 1).drop_last() =~= list.take(n));
        lemma_find_prefix(list, idx, n + 1);
    } else {
        assert(list.take(n) =~= list);
    }
}

/// A found entry is within the list and holds the parameter; no earlier entry
/// holds it.
proof fn lemma_find_feature(list: Seq<(int, int)>, idx: int)
    ensures
        match find_feature(list, idx) {
            Some(k) => 0 <= k < list.len() && list[k].0 == idx && forall|j: int| 0 <= j < k ==> list[j].0 != idx,
            None => forall|j: int| 0 <= j < list.len() ==> list[j].0 != idx,
        },
    decreases list.len(),
{
    if list.len() > 0 {
        let d = list.drop_last();
        lemma_find_feature(d, idx);
        assert forall|j: int| 0 <= j < d.len() implies d[j] == list[j] by {}
    }
}

/// Adds the contribution `val` of parameter `idx` to `list` (see [`add_feature`]).
fn add_coeff(list: &mut Vec<(usize, i32)>, idx: usize, val: i32, Ghost(n): Ghost<int>)
    requires
        -1 <= val <= 1,
        0 <= n < 1000,
        forall|j: int| 0 <= j < old(list)@.len() ==> -n <= #[trigger] old(list)@[j].1 <= n,
    ensures
        features_view(final(list)@) == add_feature(features_view(old(list)@), (idx as int, val as int)),
        forall|j: int| 0 <= j < final(list)@.len() ==> -(n + 1) <= #[trigger] final(list)@[j].1 <= n + 1,
{
    let ghost v0 = features_view(list@);
    proof {
        lemma_find_feature(v0, idx as int);
    }
    let mut i: usize = 0;
    while i < list.len()
        invariant
            i <= list@.len(),
            v0 == features_view(list@),
            v0 == features_view(old(list)@),
            forall|j: int| 0 <= j < i ==> list@[j].0 != idx,
            forall|j: int| 0 <= j < list@.len() ==> -n <= #[trigger] list@[j].1 <= n,
            0 <= n < 1000,
            -1 <= val <= 1,
        decreases list@.len() - i,
    {
        let (k, c) = list[i];
        if k == idx {
            proof {
                lemma_find_feature(v0, idx as int);
                assert forall|j: int| 0 <= j < i implies v0[j].0 != idx as int by {
                    assert(list@[j].0 != idx);
                }
                assert(v0[i as int].0 == idx as int);
                assert(find_feature(v0, idx as int) == Some(i as int)) by {
                    if find_feature(v0, idx as int) is Some {
                        let f = find_feature(v0, idx as int)->0;
                        if f < i {
                            assert(list@[f].0 != idx);
                            assert(v0[f].0 == list@[f].0 as int);
                        } else if f > i {
                            assert(v0[i as int].0 != idx as int);
                        }
                    }
                }
            }
            list.set(i, (k, c + val));
            proof {
                assert(features_view(list@) =~= v0.update(i as int, (idx as int, v0[i as int].1 + val)));
            }
            return;
        }
        i = i + 1;
    }
    proof {
        lemma_find_feature(v0, idx as int);
        assert forall|j: int| 0 <= j < v0.len() implies v0[j].0 != idx as int by {
            assert(list@[j].0 != idx);
        }
    }
    list.push((idx, val));
    proof {
        assert(features_view(list@) =~= v0.push((idx as int, val as int)));
    }
}

/// The material and piece-square features of `piece` on `sq`, added to `list`.
fn add_square_features(list: &mut Vec<(usize, i32)>, piece: Piece, sq: Square, Ghost(cs): Ghost<Seq<(int, int)>>)
    requires
        cs.len() < 900,
        features_view(old(list)@) == merge_features(cs),
        forall|j: int| 0 <= j < old(list)@.len() ==> -cs.len() <= #[trigger] old(list)@[j].1 <= cs.len(),
    ensures
        ({
            let added = material_feature(piece, sq.idx()).push((pst_feature(piece, sq.idx()), sign(piece.color_spec())));
            &&& features_view(final(list)@) == merge_features(cs + added)
            &&& forall|j: int| 0 <= j < final(list)@.len() ==> -(cs + added).len() <= #[trigger] final(list)@[j].1 <= (cs + added).len()
            &&& added.len() <= 2
        }),
{
    let pt = piece.piece_type();
    let color = piece.color();
    let c = color.signum();
    let s = sq.index() as usize;
    let ghost mut done = cs;
    if pt == PieceType::Pawn {
        let crossed = match color {
            Side::Red => s / 9 >= 5,
            Side::Black => s / 9 <= 4,
        };
        let idx = if crossed {
            PARAM_PAWN_CROSSED
        } else {
            PARAM_PAWN
        };
        add_coeff(list, idx, c, Ghost(done.len() as int));
        proof {
            let e = (idx as int, c as int);
            assert(done.push(e).drop_last() =~= done);
            assert(merge_features(done.push(e)) == add_feature(merge_features(done), e));
            done = done.push(e);
        }
    } else if pt != PieceType::King {
        add_coeff(list, pt.index(), c, Ghost(done.len() as int));
        proof {
            let e = (pt.idx(), c as int);
            assert(done.push(e).drop_last() =~= done);
            assert(merge_features(done.push(e)) == add_feature(merge_features(done), e));
            done = done.push(e);
        }
    }
    assert(features_view(list@) == merge_features(done));
    let (r, f) = match color {
        Side::Red => (s / 9, s % 9),
        Side::Black => (9 - s / 9, 8 - s % 9),
    };
    let folded = if f <= 4 {
        f
    } else {
        8 - f
    };
    let idx = PST_OFFSET + pt.index() * 50 + r * 5 + folded;
    proof {
        assert(idx == pst_feature(piece, sq.idx()));
        assert(done =~= cs + material_feature(piece, sq.idx()));
    }
    add_coeff(list, idx, c, Ghost(done.len() as int));
    proof {
        let e = (idx as int, c as int);
        assert(done.push(e).drop_last() =~= done);
        assert(merge_features(done.push(e)) == add_feature(merge_features(done), e));
        let added = material_feature(piece, sq.idx()).push((pst_feature(piece, sq.idx()), sign(piece.color_spec())));
        assert(done.push(e) =~= cs + added);
    }
}

/// The mobility features of the pieces of type `t` of `side`, added to `list`.
fn add_kind_features(
    list: &mut Vec<(usize, i32)>,
    pos: &Position,
    side: Side,
    t: PieceType,
    offset: usize,
    Ghost(cs): Ghost<Seq<(int, int)>>,
)
    requires
        pos.tables_wf(),
        t == PieceType::Knight || t == PieceType::Rook || t == PieceType::Cannon,
        offset <= 27,
        cs.len() <= 900,
        features_view(old(list)@) == merge_features(cs),
        forall|j: int| 0 <= j < old(list)@.len() ==> -cs.len() <= #[trigger] old(list)@[j].1 <= cs.len(),
    ensures
        ({
            let b = pos.board_view();
            let added = kind_features(b, side, t, squares_up(side_type_set(b, side, t), 90), offset as int);
            &&& features_view(final(list)@) == merge_features(cs + added)
            &&& forall|j: int| 0 <= j < final(list)@.len() ==> -(cs + added).len() <= #[trigger] final(list)@[j].1 <= (cs + added).len()
            &&& added.len() <= 90
        }),
{
    let ghost b = pos.board_view();
    let mut origins = pos.bitboard_of(side, t);
    let ghost o0 = origins@;
    let ghost mut done: Seq<int> = Seq::empty();
    let ghost mut all = cs;
    proof {
        pos.lemma_wf_basics();
        lemma_squares_up_len(o0, 90);
        assert(done + squares_up(o0, 90) =~= squares_up(o0, 90));
        assert(cs + kind_features(b, side, t, done, offset as int) =~= cs);
    }
    loop
        invariant
            pos.tables_wf(),
            b == pos.board_view(),
            t == PieceType::Knight || t == PieceType::Rook || t == PieceType::Cannon,
            offset <= 27,
            cs.len() <= 900,
            o0 == side_type_set(b, side, t),
            squares_up(o0, 90) == done + squares_up(origins@, 90),
            on_board(origins@),
            done.len() <= 90,
            squares_up(o0, 90).len() <= 90,
            all == cs + kind_features(b, side, t, done, offset as int),
            kind_features(b, side, t, done, offset as int).len() == done.len(),
            features_view(list@) == merge_features(all),
            forall|j: int| 0 <= j < list@.len() ==> -all.len() <= #[trigger] list@[j].1 <= all.len(),
        ensures
            all == cs + kind_features(b, side, t, squares_up(o0, 90), offset as int),
            kind_features(b, side, t, squares_up(o0, 90), offset as int).len() <= 90,
            features_view(list@) == merge_features(all),
            forall|j: int| 0 <= j < list@.len() ==> -all.len() <= #[trigger] list@[j].1 <= all.len(),
        decreases squares_up(origins@, 90).len(),
    {
        let ghost rem = origins@;
        match origins.pop_lsb() {
            Some(from) => {
                proof {
                    lemma_squares_up_pop(rem, from.idx(), 90);
                    assert(done.push(from.idx()) + squares_up(origins@, 90) =~= done + squares_up(rem, 90));
                    assert(done.push(from.idx()).drop_last() =~= done);
                    assert(done.len() < 90);
                }
                let targets = piece_targets_bb(pos, side, t, from);
                let count = count_squares(targets) as usize;
                let idx = MOBILITY_OFFSET + offset + count;
                let c = side.signum();
                add_coeff(list, idx, c, Ghost(all.len() as int));
                proof {
                    let e = (idx as int, c as int);
                    assert(e == (MOBILITY_OFFSET + offset + target_count(b, side, t, from.idx()), sign(side)));
                    assert(all.push(e).drop_last() =~= all);
                    assert(merge_features(all.push(e)) == add_feature(merge_features(all), e));
                    done = done.push(from.idx());
                    assert(kind_features(b, side, t, done, offset as int) == kind_features(b, side, t, done.drop_last(), offset as int).push(e));
                    all = all.push(e);
                    assert(all =~= cs + kind_features(b, side, t, done, offset as int));
                }
            },
            None => {
                proof {
                    lemma_squares_up_none(rem, 90);
                    assert(done =~= squares_up(o0, 90));
                }
                break ;
            },
        }
    }
}

/// The mobility features of the knights, rooks and cannons of `side`, added to
/// `list`.
fn add_side_features(list: &mut Vec<(usize, i32)>, pos: &Position, side: Side, Ghost(cs): Ghost<Seq<(int, int)>>)
    requires
        pos.tables_wf(),
        cs.len() <= 450,
        features_view(old(list)@) == merge_features(cs),
        forall|j: int| 0 <= j < old(list)@.len() ==> -cs.len() <= #[trigger] old(list)@[j].1 <= cs.len(),
    ensures
        ({
            let added = side_features(pos.board_view(), side);
            &&& features_view(final(list)@) == merge_features(cs + added)
            &&& forall|j: int| 0 <= j < final(list)@.len() ==> -(cs + added).len() <= #[trigger] final(list)@[j].1 <= (cs + added).len()
            &&& added.len() <= 270
        }),
{
    let ghost b = pos.board_view();
    let ghost mut all = cs;
    add_kind_features(list, pos, side, PieceType::Knight, 0, Ghost(all));
    proof {
        all = all + kind_features(b, side, PieceType::Knight, squares_up(side_type_set(b, side, PieceType::Knight), 90), 0);
    }
    add_kind_features(list, pos, side, PieceType::Rook, 9, Ghost(all));
    proof {
        all = all + kind_features(b, side, PieceType::Rook, squares_up(side_type_set(b, side, PieceType::Rook), 90), 9);
    }
    add_kind_features(list, pos, side, PieceType::Cannon, 27, Ghost(all));
    proof {
        all = all + kind_features(b, side, PieceType::Cannon, squares_up(side_type_set(b, side, PieceType::Cannon), 90), 27);
        assert(all =~= cs + side_features(b, side));
    }
}

/// The material and piece-square features of every piece, square by square.
fn board_features(pos: &Position) -> (r: Vec<(usize, i32)>)
    requires
        pos.wf(),
    ensures
        features_view(r@) == merge_features(square_features(pos.board_view(), 90)),
        square_features(pos.board_view(), 90).len() <= 180,
        forall|j: int|
            0 <= j < r@.len() ==> -square_features(pos.board_view(), 90).len() <= #[trigger] r@[j].1
                <= square_features(pos.board_view(), 90).len(),
{
    let ghost b = pos.board_view();
    let mut list: Vec<(usize, i32)> = Vec::new();
    let ghost mut all: Seq<(int, int)> = Seq::empty();
    proof {
        pos.lemma_wf_basics();
        assert(features_view(list@) =~= Seq::<(int, int)>::empty());
    }
    let mut i: u8 = 0;
    while i < 90
        invariant
            i <= 90,
            pos.wf(),
            b == pos.board_view(),
            b.len() == 90,
            all == square_features(b, i as int),
            all.len() <= 2 * i,
            features_view(list@) == merge_features(all),
            forall|j: int| 0 <= j < list@.len() ==> -all.len() <= #[trigger] list@[j].1 <= all.len(),
        decreases 90 - i,
    {
        let sq = Square::from_repr(i).unwrap();
        match pos.piece_at(sq) {
            Some(piece) => {
                add_square_features(&mut list, piece, sq, Ghost(all));
                proof {
                    all = all + material_feature(piece, i as int).push((pst_feature(piece, i as int), sign(piece.color_spec())));
                }
            },
            None => {
                proof {
                    assert(all + Seq::<(int, int)>::empty() =~= all);
                }
            },
        }
        i = i + 1;
    }
    list
}

/// The defender features, added to `list`.
fn add_defender_features(list: &mut Vec<(usize, i32)>, pos: &Position, Ghost(cs): Ghost<Seq<(int, int)>>)
    requires
        pos.wf(),
        cs.len() <= 720,
        features_view(old(list)@) == merge_features(cs),
        forall|j: int| 0 <= j < old(list)@.len() ==> -cs.len() <= #[trigger] old(list)@[j].1 <= cs.len(),
    ensures
        features_view(final(list)@) == merge_features(cs + defender_features(pos.board_view())),
        forall|j: int| 0 <= j < final(list)@.len() ==> -(cs.len() + 4) <= #[trigger] final(list)@[j].1 <= cs.len() + 4,
{
    let ghost b = pos.board_view();
    let ghost mut all = cs;
    let ra = pos.piece_count(Piece::RedAdvisor) as usize;
    let rb = pos.piece_count(Piece::RedBishop) as usize;
    let ba = pos.piece_count(Piece::BlackAdvisor) as usize;
    let bb = pos.piece_count(Piece::BlackBishop) as usize;
    add_coeff(list, DEFENDER_OFFSET + if ra > 2 { 2 } else { ra }, 1, Ghost(all.len() as int));
    proof {
        let e = ((DEFENDER_OFFSET + cap2(ra as int)) as int, 1int);
        assert(all.push(e).drop_last() =~= all);
        assert(merge_features(all.push(e)) == add_feature(merge_features(all), e));
        all = all.push(e);
        assert(features_view(list@) == merge_features(all));
    }
    add_coeff(list, DEFENDER_OFFSET + 3 + if rb > 2 { 2 } else { rb }, 1, Ghost(all.len() as int));
    proof {
        let e = ((DEFENDER_OFFSET + 3 + cap2(rb as int)) as int, 1int);
        assert(all.push(e).drop_last() =~= all);
        assert(merge_features(all.push(e)) == add_feature(merge_features(all), e));
        all = all.push(e);
        assert(features_view(list@) == merge_features(all));
    }
    add_coeff(list, DEFENDER_OFFSET + if ba > 2 { 2 } else { ba }, -1, Ghost(all.len() as int));
    proof {
        let e = ((DEFENDER_OFFSET + cap2(ba as int)) as int, -1int);
        assert(all.push(e).drop_last() =~= all);
        assert(merge_features(all.push(e)) == add_feature(merge_features(all), e));
        all = all.push(e);
        assert(features_view(list@) == merge_features(all));
    }
    add_coeff(list, DEFENDER_OFFSET + 3 + if bb > 2 { 2 } else { bb }, -1, Ghost(all.len() as int));
    proof {
        let e = ((DEFENDER_OFFSET + 3 + cap2(bb as int)) as int, -1int);
        assert(all.push(e).drop_last() =~= all);
        assert(merge_features(all.push(e)) == add_feature(merge_features(all), e));
        all = all.push(e);
        assert(features_view(list@) == merge_features(all));
        assert(all =~= cs + defender_features(b));
    }
}

/// The sparse features of `pos` for tuning (see [`features_spec`]), with its game
/// phase.
pub fn compile_features(pos: &Position) -> (r: TuningFeatures)
    requires
        pos.wf(),
    ensures
        features_view(r.features@) == features_spec(pos.board_view(), pos.side_spec()),
        r.phase as int == phase_spec(pos.board_view()),
{
    let ghost b = pos.board_view();
    let mut list = board_features(pos);
    let ghost mut all = square_features(b, 90);
    add_side_features(&mut list, pos, Side::Red, Ghost(all));
    proof {
        all = all + side_features(b, Side::Red);
    }
    add_side_features(&mut list, pos, Side::Black, Ghost(all));
    proof {
        all = all + side_features(b, Side::Black);
    }
    add_defender_features(&mut list, pos, Ghost(all));
    proof {
        all = all + defender_features(b);
        assert(all =~= contributions(b));
    }
    let side_sign = pos.side_to_move().signum();
    let ghost merged = features_view(list@);
    let mut k: usize = 0;
    while k < list.len()
        invariant
            k <= list@.len(),
            merged.len() == list@.len(),
            merged == merge_features(contributions(b)),
            side_sign == sign(pos.side_spec()),
            forall|j: int| 0 <= j < list@.len() ==> -1000 <= #[trigger] list@[j].1 <= 1000,
            forall|j: int| 0 <= j < k ==> #[trigger] features_view(list@)[j] == (merged[j].0, merged[j].1 * side_sign),
            forall|j: int| k <= j < list@.len() ==> #[trigger] features_view(list@)[j] == merged[j],
        decreases list@.len() - k,
    {
        let (idx, c) = list[k];
        let ghost before_list = list@;
        list.set(k, (idx, c * side_sign));
        proof {
            assert forall|j: int| 0 <= j < list@.len() implies -1000 <= #[trigger] list@[j].1 <= 1000 by {
                if j != k {
                    assert(list@[j] == before_list[j]);
                }
            }
            assert forall|j: int| 0 <= j < k + 1 implies #[trigger] features_view(list@)[j] == (merged[j].0, merged[j].1 * side_sign) by {
                if j < k {
                    assert(list@[j] == before_list[j]);
                    assert(features_view(before_list)[j] == features_view(list@)[j]);
                } else {
                    assert(features_view(before_list)[j] == merged[j]);
                }
            }
            assert forall|j: int| k + 1 <= j < list@.len() implies #[trigger] features_view(list@)[j] == merged[j] by {
                assert(list@[j] == before_list[j]);
                assert(features_view(before_list)[j] == features_view(list@)[j]);
            }
        }
        k = k + 1;
    }
    proof {
        assert(features_view(list@) =~= features_spec(b, pos.side_spec()));
    }
    TuningFeatures { features: list, phase: pos.calculate_board_phase() }
}

} // verus!
