//! Perft: counting the sequences of legal moves of a given length from a position,
//! with the checks, captures and mates among the last moves, to test move
//! generation against known counts.
use crate::fen::{fen_clock, fen_error, fen_ply};
use crate::movegen::{
    count_pseudo_legal, generate_moves, legal_list, lemma_generated_legal, movable,
    movable_from, pseudo_legal_moves,
};
use crate::movelist::{MoveList, move_list_get, move_list_items, move_list_len, move_list_new};
use crate::position::rules::{gen_fits, king_after, king_of};
use crate::position::{Position, PositionSetError, attackers_of, board_after, lemma_undo_after_do};
use crate::types::{Move, MoveGenType, Piece, PieceType, Side};
use vstd::prelude::*;

verus! {

/// Whether move `m` of `side` on board `b` (kings recorded on `kr` and `kb`) attacks
/// the opponent's king.
pub open spec fn gives_check_on(b: Seq<Option<Piece>>, side: Side, kr: int, kb: int, m: Move) -> bool {
    !attackers_of(
        board_after(b, m.from_idx(), m.to_idx()),
        king_of(kr, kb, side.opp()),
        side,
    ).is_empty()
}

/// The legal moves of `side` on board `b`, kings recorded on `kr` and `kb`.
pub open spec fn legal_moves_of(b: Seq<Option<Piece>>, side: Side, kr: int, kb: int) -> Seq<Move> {
    legal_list(b, side, king_of(kr, kb, side))
}

/// The number of moves of `moves`, of those giving check, and of those capturing.
pub open spec fn move_counts(b: Seq<Option<Piece>>, side: Side, kr: int, kb: int, moves: Seq<Move>) -> (
    int,
    int,
    int,
)
    decreases moves.len(),
{
    if moves.len() == 0 {
        (0, 0, 0)
    } else {
        let rest = move_counts(b, side, kr, kb, moves.drop_last());
        let m = moves.last();
        (
            rest.0 + 1,
            rest.1 + if gives_check_on(b, side, kr, kb, m) {
                1int
            } else {
                0int
            },
            rest.2 + if b[m.to_idx()] is Some {
                1int
            } else {
                0int
            },
        )
    }
}

/// The counts of a position at the last ply: its legal moves, the checks and
/// captures among them, and one mate when it has none.
pub open spec fn leaf_counts(b: Seq<Option<Piece>>, side: Side, kr: int, kb: int) -> (int, int, int, int) {
    let s = move_counts(b, side, kr, kb, legal_moves_of(b, side, kr, kb));
    (s.0, s.1, s.2, if s.0 == 0 {
        1int
    } else {
        0int
    })
}

/// The perft counts (nodes, checks, captures, mates) of `depth` plies from the
/// position: at depth 1 or less, its legal moves with the checks and captures among
/// them; deeper, the sum over its legal moves of the counts after each.
pub open spec fn perft_counts(b: Seq<Option<Piece>>, side: Side, kr: int, kb: int, depth: int) -> (
    int,
    int,
    int,
    int,
)
    decreases depth, 2int, 0int,
{
    if depth <= 1 {
        let s = move_counts(b, side, kr, kb, legal_moves_of(b, side, kr, kb));
        (s.0, s.1, s.2, 0)
    } else {
        subtree_counts(b, side, kr, kb, legal_moves_of(b, side, kr, kb), depth)
    }
}

/// The sum over `moves` of the counts after each, `depth` plies from the position.
pub open spec fn subtree_counts(
    b: Seq<Option<Piece>>,
    side: Side,
    kr: int,
    kb: int,
    moves: Seq<Move>,
    depth: int,
) -> (int, int, int, int)
    decreases depth, 1int, moves.len(),
{
    if depth <= 1 || moves.len() == 0 {
        (0, 0, 0, 0)
    } else {
        let rest = subtree_counts(b, side, kr, kb, moves.drop_last(), depth);
        let c = child_counts(b, side, kr, kb, moves.last(), depth);
        (rest.0 + c.0, rest.1 + c.1, rest.2 + c.2, rest.3 + c.3)
    }
}

/// The counts after move `m`, `depth` plies from the position: the last-ply counts
/// of the position reached at depth 2, its perft counts one ply less deep beyond.
pub open spec fn child_counts(b: Seq<Option<Piece>>, side: Side, kr: int, kb: int, m: Move, depth: int) -> (
    int,
    int,
    int,
    int,
)
    decreases depth, 0int, 0int,
{
    let b2 = board_after(b, m.from_idx(), m.to_idx());
    let kr2 = king_after(b, kr, kb, m, Side::Red);
    let kb2 = king_after(b, kr, kb, m, Side::Black);
    if depth <= 2 {
        leaf_counts(b2, side.opp(), kr2, kb2)
    } else {
        perft_counts(b2, side.opp(), kr2, kb2, depth - 1)
    }
}

/// Whether every position met in the perft of `depth` plies has its king and at
/// most 128 pseudo-legal moves, so that move lists hold them.
pub open spec fn perft_fits(b: Seq<Option<Piece>>, side: Side, kr: int, kb: int, depth: int) -> bool
    decreases depth, 2int, 0int,
{
    &&& gen_fits(b, side, king_of(kr, kb, side))
    &&& (depth <= 1 || subtree_fits(b, side, kr, kb, legal_moves_of(b, side, kr, kb), depth))
}

/// Whether the positions after each of `moves` fit (see [`perft_fits`]).
pub open spec fn subtree_fits(
    b: Seq<Option<Piece>>,
    side: Side,
    kr: int,
    kb: int,
    moves: Seq<Move>,
    depth: int,
) -> bool
    decreases depth, 1int, moves.len(),
{
    depth <= 1 || moves.len() == 0 || (subtree_fits(b, side, kr, kb, moves.drop_last(), depth)
        && child_fits(b, side, kr, kb, moves.last(), depth))
}

/// Whether the positions after move `m` fit (see [`perft_fits`]).
pub open spec fn child_fits(b: Seq<Option<Piece>>, side: Side, kr: int, kb: int, m: Move, depth: int) -> bool
    decreases depth, 0int, 0int,
{
    let b2 = board_after(b, m.from_idx(), m.to_idx());
    let kr2 = king_after(b, kr, kb, m, Side::Red);
    let kb2 = king_after(b, kr, kb, m, Side::Black);
    if depth <= 2 {
        gen_fits(b2, side.opp(), king_of(kr2, kb2, side.opp()))
    } else {
        perft_fits(b2, side.opp(), kr2, kb2, depth - 1)
    }
}

/// `128` to the power `n`.
pub open spec fn pow128(n: int) -> int
    decreases n,
{
    if n <= 0 {
        1
    } else {
        128 * pow128(n - 1)
    }
}

/// The bound on each perft count of `depth` plies: 128 to the power `depth`, and
/// 128 at depth 0.
pub open spec fn count_bound(depth: int) -> int {
    if depth < 1 {
        128
    } else {
        pow128(depth)
    }
}

/// Powers of 128 are positive and grow, up to `2^63` for the ninth.
proof fn lemma_pow128(n: int)
    ensures
        pow128(n) >= 1,
        n >= 1 ==> pow128(n) >= 128,
        n <= 9 ==> pow128(n) <= 0x8000_0000_0000_0000,
{
    lemma_pow128_pos(n);
    if n <= 9 {
        lemma_pow128_mono(n, 9);
    }
    if n >= 1 {
        lemma_pow128_mono(1, n);
    }
    assert(pow128(9) == 0x8000_0000_0000_0000) by {
        reveal_with_fuel(pow128, 10);
    }
}

/// Powers of 128 are at least 1.
proof fn lemma_pow128_pos(n: int)
    ensures
        pow128(n) >= 1,
    decreases n,
{
    if n > 0 {
        lemma_pow128_pos(n - 1);
    }
}

/// Powers of 128 grow with the exponent.
proof fn lemma_pow128_mono(n: int, m: int)
    requires
        n <= m,
    ensures
        pow128(n) <= pow128(m),
    decreases m - n,
{
    if n < m {
        lemma_pow128_mono(n, m - 1);
        lemma_pow128_pos(m - 1);
    }
}

/// The move counts of `moves` are its length and at most that many checks and
/// captures.
proof fn lemma_move_counts(b: Seq<Option<Piece>>, side: Side, kr: int, kb: int, moves: Seq<Move>)
    ensures
        move_counts(b, side, kr, kb, moves).0 == moves.len(),
        0 <= move_counts(b, side, kr, kb, moves).1 <= moves.len(),
        0 <= move_counts(b, side, kr, kb, moves).2 <= moves.len(),
    decreases moves.len(),
{
    if moves.len() > 0 {
        lemma_move_counts(b, side, kr, kb, moves.drop_last());
    }
}

/// The legal moves are at most the pseudo-legal ones.
proof fn lemma_legal_len(b: Seq<Option<Piece>>, side: Side, kr: int, kb: int)
    ensures
        legal_moves_of(b, side, kr, kb).len() <= pseudo_legal_moves(b, side, king_of(kr, kb, side)).len(),
{
    broadcast use vstd::seq_lib::group_filter_ensures;
}

/// The counts of a fitting perft are bounded by [`count_bound`].
proof fn lemma_perft_bound(b: Seq<Option<Piece>>, side: Side, kr: int, kb: int, depth: int)
    requires
        perft_fits(b, side, kr, kb, depth),
    ensures
        0 <= perft_counts(b, side, kr, kb, depth).0 <= count_bound(depth),
        0 <= perft_counts(b, side, kr, kb, depth).1 <= count_bound(depth),
        0 <= perft_counts(b, side, kr, kb, depth).2 <= count_bound(depth),
        0 <= perft_counts(b, side, kr, kb, depth).3 <= count_bound(depth),
    decreases depth, 2int, 0int,
{
    let moves = legal_moves_of(b, side, kr, kb);
    lemma_legal_len(b, side, kr, kb);
    if depth <= 1 {
        lemma_move_counts(b, side, kr, kb, moves);
        lemma_pow128(depth);
    } else {
        lemma_subtree_bound(b, side, kr, kb, moves, depth);
        let p = pow128(depth - 1);
        lemma_pow128(depth - 1);
        assert(moves.len() * p <= 128 * p) by (nonlinear_arith)
            requires
                moves.len() <= 128,
                p >= 1,
        ;
    }
}

/// The counts of fitting subtrees are bounded by their number of moves times
/// 128 to the power `depth - 1`.
proof fn lemma_subtree_bound(
    b: Seq<Option<Piece>>,
    side: Side,
    kr: int,
    kb: int,
    moves: Seq<Move>,
    depth: int,
)
    requires
        depth >= 2,
        subtree_fits(b, side, kr, kb, moves, depth),
    ensures
        0 <= subtree_counts(b, side, kr, kb, moves, depth).0 <= moves.len() * pow128(depth - 1),
        0 <= subtree_counts(b, side, kr, kb, moves, depth).1 <= moves.len() * pow128(depth - 1),
        0 <= subtree_counts(b, side, kr, kb, moves, depth).2 <= moves.len() * pow128(depth - 1),
        0 <= subtree_counts(b, side, kr, kb, moves, depth).3 <= moves.len() * pow128(depth - 1),
    decreases depth, 1int, moves.len(),
{
    let p = pow128(depth - 1);
    lemma_pow128(depth - 1);
    if moves.len() > 0 {
        lemma_subtree_bound(b, side, kr, kb, moves.drop_last(), depth);
        lemma_child_bound(b, side, kr, kb, moves.last(), depth);
        let k = moves.len() - 1;
        assert(k * p + p == moves.len() * p) by (nonlinear_arith)
            requires
                k == moves.len() - 1,
        ;
    } else {
        assert(moves.len() * p == 0);
    }
}

/// The counts after a move are bounded by 128 to the power `depth - 1`.
proof fn lemma_child_bound(b: Seq<Option<Piece>>, side: Side, kr: int, kb: int, m: Move, depth: int)
    requires
        depth >= 2,
        child_fits(b, side, kr, kb, m, depth),
    ensures
        0 <= child_counts(b, side, kr, kb, m, depth).0 <= pow128(depth - 1),
        0 <= child_counts(b, side, kr, kb, m, depth).1 <= pow128(depth - 1),
        0 <= child_counts(b, side, kr, kb, m, depth).2 <= pow128(depth - 1),
        0 <= child_counts(b, side, kr, kb, m, depth).3 <= pow128(depth - 1),
    decreases depth, 0int, 0int,
{
    let b2 = board_after(b, m.from_idx(), m.to_idx());
    let kr2 = king_after(b, kr, kb, m, Side::Red);
    let kb2 = king_after(b, kr, kb, m, Side::Black);
    lemma_pow128(depth - 1);
    if depth <= 2 {
        lemma_legal_len(b2, side.opp(), kr2, kb2);
        lemma_move_counts(b2, side.opp(), kr2, kb2, legal_moves_of(b2, side.opp(), kr2, kb2));
    } else {
        lemma_perft_bound(b2, side.opp(), kr2, kb2, depth - 1);
    }
}

/// In fitting subtrees, the positions after each move fit.
proof fn lemma_subtree_fits_each(
    b: Seq<Option<Piece>>,
    side: Side,
    kr: int,
    kb: int,
    moves: Seq<Move>,
    depth: int,
    j: int,
)
    requires
        depth >= 2,
        0 <= j < moves.len(),
        subtree_fits(b, side, kr, kb, moves, depth),
    ensures
        child_fits(b, side, kr, kb, moves[j], depth),
    decreases moves.len(),
{
    if j < moves.len() - 1 {
        lemma_subtree_fits_each(b, side, kr, kb, moves.drop_last(), depth, j);
    }
}

/// Why a perft could not run.
#[derive(Debug, Clone, Copy, PartialEq, Eq)]
pub enum PerftError {
    /// The FEN string does not describe a position.
    InvalidFen(PositionSetError),
    /// A position met has no king recorded on its square, more pseudo-legal moves
    /// than a move list holds, or move counters too close to their limit.
    UnsupportedPosition,
}

/// The counts of a perft of some depth.
#[derive(Debug, Clone, Copy, PartialEq, Eq, Structural)]
pub struct PerftExpected {
    /// The depth.
    pub depth: u32,
    /// The move sequences of that length (leaf nodes).
    pub nodes: u64,
    /// The last moves giving check.
    pub checks: u64,
    /// The last moves capturing.
    pub captures: u64,
    /// The positions one ply from the end with no legal move.
    pub mates: u64,
}

/// The counters of a perft run.
#[derive(Debug, PartialEq, Eq, Structural)]
pub struct Perft {
    nodes: u64,
    checks: u64,
    captures: u64,
    mates: u64,
}

impl Perft {
    /// The counters: nodes, checks, captures and mates.
    pub closed spec fn counts(&self) -> (int, int, int, int) {
        (self.nodes as int, self.checks as int, self.captures as int, self.mates as int)
    }

    /// Whether each counter can grow by `n` without overflow.
    pub open spec fn room_for(&self, n: int) -> bool {
        &&& self.counts().0 + n <= u64::MAX
        &&& self.counts().1 + n <= u64::MAX
        &&& self.counts().2 + n <= u64::MAX
        &&& self.counts().3 + n <= u64::MAX
    }

    /// All counters zero.
    pub fn new() -> (r: Perft)
        ensures
            r.counts() == (0int, 0int, 0int, 0int),
    {
        Perft { nodes: 0, checks: 0, captures: 0, mates: 0 }
    }

    /// Runs a perft of `depth` plies from the position described by `fen` (see
    /// [`Perft::perft_helper`]) and returns its counts.
    pub fn perft(fen: &str, depth: u32) -> (r: Result<PerftExpected, PerftError>)
        requires
            depth <= 9,
        ensures
            match r {
                Ok(e) => {
                    &&& fen_error(fen@) is None
                    &&& fen_ply(fen@) + depth < u16::MAX
                    &&& fen_clock(fen@) + depth < u16::MAX
                    &&& e.depth == depth
                    &&& exists|p: Position|
                        #![trigger p.loaded_from(fen@)]
                        p.loaded_from(fen@) && {
                            let b = p.board_view();
                            let kr = p.king_sq(Side::Red);
                            let kb = p.king_sq(Side::Black);
                            &&& perft_fits(b, p.side_spec(), kr, kb, depth as int)
                            &&& (e.nodes as int, e.checks as int, e.captures as int, e.mates as int)
                                == perft_counts(b, p.side_spec(), kr, kb, depth as int)
                        }
                },
                Err(PerftError::InvalidFen(err)) => fen_error(fen@) == Some(err),
                Err(PerftError::UnsupportedPosition) => {
                    &&& fen_error(fen@) is None
                    &&& (fen_ply(fen@) + depth >= u16::MAX || fen_clock(fen@) + depth >= u16::MAX
                        || exists|p: Position|
                        #![trigger p.loaded_from(fen@)]
                        p.loaded_from(fen@) && !perft_fits(
                            p.board_view(),
                            p.side_spec(),
                            p.king_sq(Side::Red),
                            p.king_sq(Side::Black),
                            depth as int,
                        ))
                },
            },
    {
        let mut pos = match Position::from_fen(fen) {
            Ok(p) => p,
            Err(e) => return Err(PerftError::InvalidFen(e)),
        };
        if pos.game_ply() as u32 + depth >= 65535 || pos.sixtymove_clock() as u32 + depth >= 65535 {
            return Err(PerftError::UnsupportedPosition);
        }
        let ghost p0 = pos;
        let mut helper = Perft::new();
        proof {
            lemma_pow128(depth as int);
        }
        match helper.perft_helper::<true>(&mut pos, depth) {
            Ok(_) => {
                proof {
                    assert(p0.loaded_from(fen@));
                }
                Ok(
                    PerftExpected {
                        depth,
                        nodes: helper.nodes,
                        checks: helper.checks,
                        captures: helper.captures,
                        mates: helper.mates,
                    },
                )
            },
            Err(e) => {
                proof {
                    assert(p0.loaded_from(fen@));
                }
                Err(e)
            },
        }
    }

    /// Counts the positions at the last ply, for a position reached `depth - 1`
    /// plies from the root: its legal moves, the checks and captures among them,
    /// and a mate when it has none.
    fn leaf(&mut self, pos: &Position) -> (r: Result<u64, PerftError>)
        requires
            pos.wf(),
            old(self).room_for(128),
        ensures
            match r {
                Ok(n) => {
                    let lc = leaf_counts(
                        pos.board_view(),
                        pos.side_spec(),
                        pos.king_sq(Side::Red),
                        pos.king_sq(Side::Black),
                    );
                    &&& gen_fits(
                        pos.board_view(),
                        pos.side_spec(),
                        king_of(pos.king_sq(Side::Red), pos.king_sq(Side::Black), pos.side_spec()),
                    )
                    &&& n == lc.0
                    &&& final(self).counts() == (
                        old(self).counts().0 + lc.0,
                        old(self).counts().1 + lc.1,
                        old(self).counts().2 + lc.2,
                        old(self).counts().3 + lc.3,
                    )
                },
                Err(e) => e == PerftError::UnsupportedPosition && !gen_fits(
                    pos.board_view(),
                    pos.side_spec(),
                    king_of(pos.king_sq(Side::Red), pos.king_sq(Side::Black), pos.side_spec()),
                ),
            },
    {
        let ghost b = pos.board_view();
        let ghost side = pos.side_spec();
        let ghost kr = pos.king_sq(Side::Red);
        let ghost kb = pos.king_sq(Side::Black);
        let us = pos.side_to_move();
        let ksq = pos.king_square(us);
        proof {
            assert(king_of(kr, kb, side) == pos.king_sq(side));
        }
        if count_pseudo_legal(pos) > 128 || pos.is_empty(ksq) {
            return Err(PerftError::UnsupportedPosition);
        }
        let mut moves = move_list_new();
        generate_moves(pos, MoveGenType::Legal, &mut moves);
        proof {
            lemma_generated_legal(pos);
            lemma_legal_len(b, side, kr, kb);
        }
        let ghost legal = legal_moves_of(b, side, kr, kb);
        let len = move_list_len(&moves);
        let mut checks: u64 = 0;
        let mut captures: u64 = 0;
        let mut i: usize = 0;
        while i < len
            invariant
                pos.wf(),
                b == pos.board_view(),
                side == pos.side_spec(),
                kr == pos.king_sq(Side::Red),
                kb == pos.king_sq(Side::Black),
                move_list_items(moves) == legal,
                movable_from(pos, move_list_items(moves), 0),
                len == legal.len(),
                len <= 128,
                i <= len,
                (i as int, checks as int, captures as int) == move_counts(b, side, kr, kb, legal.take(i as int)),
                checks <= i,
                captures <= i,
            decreases len - i,
        {
            let m = move_list_get(&moves, i);
            proof {
                assert(movable(pos, m));
                assert(legal.take(i + 1).drop_last() =~= legal.take(i as int));
                assert(legal.take(i + 1).last() == m);
                assert(king_of(kr, kb, side.opp()) == pos.king_sq(side.opp()));
            }
            if !pos.is_empty(m.square_to()) {
                captures = captures + 1;
            }
            if pos.gives_check(m) {
                checks = checks + 1;
            }
            i = i + 1;
        }
        proof {
            assert(legal.take(len as int) =~= legal);
        }
        self.nodes = self.nodes + len as u64;
        self.checks = self.checks + checks;
        self.captures = self.captures + captures;
        if len == 0 {
            self.mates = self.mates + 1;
        }
        Ok(len as u64)
    }

    /// Plays the legal move `m` on `pos`, counts from there (see
    /// [`Perft::perft_helper`]; the last ply when `depth` is 2), and takes the move
    /// back.
    fn perft_child(&mut self, pos: &mut Position, m: Move, depth: u32) -> (r: Result<u64, PerftError>)
        requires
            old(pos).wf(),
            movable(old(pos), m),
            2 <= depth <= 9,
            old(pos).ply_spec() + depth < u16::MAX,
            old(pos).state_view().sixtymove_clock + depth < u16::MAX,
            old(pos).state_view().plies_since_null + depth < u16::MAX,
            old(self).room_for(pow128(depth - 1)),
        ensures
            final(pos).same(old(pos)),
            ({
                let b = old(pos).board_view();
                let side = old(pos).side_spec();
                let kr = old(pos).king_sq(Side::Red);
                let kb = old(pos).king_sq(Side::Black);
                let cc = child_counts(b, side, kr, kb, m, depth as int);
                match r {
                    Ok(n) => {
                        &&& child_fits(b, side, kr, kb, m, depth as int)
                        &&& n == cc.0
                        &&& final(self).counts() == (
                            old(self).counts().0 + cc.0,
                            old(self).counts().1 + cc.1,
                            old(self).counts().2 + cc.2,
                            old(self).counts().3 + cc.3,
                        )
                    },
                    Err(e) => e == PerftError::UnsupportedPosition && !child_fits(
                        b,
                        side,
                        kr,
                        kb,
                        m,
                        depth as int,
                    ),
                }
            }),
        decreases depth, 1int,
    {
        let ghost p0 = *pos;
        let ghost b = pos.board_view();
        let ghost side = pos.side_spec();
        let ghost kr = pos.king_sq(Side::Red);
        let ghost kb = pos.king_sq(Side::Black);
        proof {
            p0.lemma_same_equiv(&p0, &p0);
            lemma_pow128(depth - 1);
            assert(pow128(1) == 128) by {
                reveal_with_fuel(pow128, 2);
            }
        }
        let from = m.square_from();
        let to = m.square_to();
        let moved = pos.piece_at(from).unwrap();
        let captured = pos.piece_at(to);
        let king_capture = match captured {
            Some(p) => p.piece_type() == PieceType::King,
            None => false,
        };
        let stray_king = moved.piece_type() == PieceType::King && pos.king_square(moved.color()).index()
            != from.index();
        if !king_capture && !stray_king {
            self.perft_child_in_place(pos, m, depth)
        } else {
            let mut child = pos.clone();
            proof {
                child.lemma_same(&p0);
            }
            child.do_move(m);
            proof {
                assert(forall|c: Side| #[trigger] child.king_sq(c) == king_after(b, kr, kb, m, c));
            }
            if depth == 2 {
                self.leaf(&child)
            } else {
                self.perft_helper::<false>(&mut child, depth - 1)
            }
        }
    }

    /// [`Perft::perft_child`] for a move that captures no king and moves no king
    /// but from its recorded square: played and taken back on `pos` itself.
    fn perft_child_in_place(&mut self, pos: &mut Position, m: Move, depth: u32) -> (r: Result<u64, PerftError>)
        requires
            old(pos).wf(),
            movable(old(pos), m),
            !(old(pos).board_view()[m.to_idx()] matches Some(c) && c.piece_type_spec() == PieceType::King),
            old(pos).board_view()[m.from_idx()]->0.piece_type_spec() == PieceType::King ==> old(pos).king_sq(
                old(pos).board_view()[m.from_idx()]->0.color_spec(),
            ) == m.from_idx(),
            2 <= depth <= 9,
            old(pos).ply_spec() + depth < u16::MAX,
            old(pos).state_view().sixtymove_clock + depth < u16::MAX,
            old(pos).state_view().plies_since_null + depth < u16::MAX,
            old(self).room_for(pow128(depth - 1)),
        ensures
            final(pos).same(old(pos)),
            ({
                let b = old(pos).board_view();
                let side = old(pos).side_spec();
                let kr = old(pos).king_sq(Side::Red);
                let kb = old(pos).king_sq(Side::Black);
                let cc = child_counts(b, side, kr, kb, m, depth as int);
                match r {
                    Ok(n) => {
                        &&& child_fits(b, side, kr, kb, m, depth as int)
                        &&& n == cc.0
                        &&& final(self).counts() == (
                            old(self).counts().0 + cc.0,
                            old(self).counts().1 + cc.1,
                            old(self).counts().2 + cc.2,
                            old(self).counts().3 + cc.3,
                        )
                    },
                    Err(e) => e == PerftError::UnsupportedPosition && !child_fits(
                        b,
                        side,
                        kr,
                        kb,
                        m,
                        depth as int,
                    ),
                }
            }),
        decreases depth, 0int,
    {
        let ghost p0 = *pos;
        let ghost b = pos.board_view();
        let ghost kr = pos.king_sq(Side::Red);
        let ghost kb = pos.king_sq(Side::Black);
        proof {
            lemma_pow128(depth - 1);
            assert(pow128(1) == 128) by {
                reveal_with_fuel(pow128, 2);
            }
        }
        pos.do_move(m);
        let ghost p1 = *pos;
        proof {
            p1.lemma_same_equiv(&p1, &p1);
            assert(forall|c: Side| #[trigger] p1.king_sq(c) == king_after(b, kr, kb, m, c));
        }
        let r = if depth == 2 {
            self.leaf(pos)
        } else {
            self.perft_helper::<false>(pos, depth - 1)
        };
        let ghost p1b = *pos;
        proof {
            p1b.lemma_same_equiv(&p1, &p1);
            p1b.lemma_same(&p1);
            p0.lemma_wf_basics();
            p1b.lemma_wf_basics();
            assert(p0.did_move(m, &p1b));
            assert(p1b.board_view()[m.to_idx()] is Some);
        }
        pos.undo_move(m);
        proof {
            lemma_undo_after_do(&p0, &p1b, pos, m);
        }
        r
    }

    /// Counts the move sequences of `depth` plies from `pos`: at the root with depth
    /// 1 or less, each legal move, with the checks and captures among them;
    /// otherwise, for each legal move, the positions reached (see
    /// [`perft_counts`]). Adds the counts to the counters and returns the nodes;
    /// fails when some position met does not fit in a move list (see
    /// [`perft_fits`]). The position is left as it was.
    pub fn perft_helper<const ROOT: bool>(&mut self, pos: &mut Position, depth: u32) -> (r: Result<
        u64,
        PerftError,
    >)
        requires
            old(pos).wf(),
            ROOT || depth >= 2,
            depth <= 9,
            old(pos).ply_spec() + depth < u16::MAX,
            old(pos).state_view().sixtymove_clock + depth < u16::MAX,
            old(pos).state_view().plies_since_null + depth < u16::MAX,
            old(self).room_for(count_bound(depth as int)),
        ensures
            final(pos).same(old(pos)),
            ({
                let b = old(pos).board_view();
                let side = old(pos).side_spec();
                let kr = old(pos).king_sq(Side::Red);
                let kb = old(pos).king_sq(Side::Black);
                let pc = perft_counts(b, side, kr, kb, depth as int);
                match r {
                    Ok(n) => {
                        &&& perft_fits(b, side, kr, kb, depth as int)
                        &&& n == pc.0
                        &&& final(self).counts() == (
                            old(self).counts().0 + pc.0,
                            old(self).counts().1 + pc.1,
                            old(self).counts().2 + pc.2,
                            old(self).counts().3 + pc.3,
                        )
                    },
                    Err(e) => e == PerftError::UnsupportedPosition && !perft_fits(
                        b,
                        side,
                        kr,
                        kb,
                        depth as int,
                    ),
                }
            }),
        decreases depth, 3int,
    {
        let ghost p0 = *pos;
        let ghost b = pos.board_view();
        let ghost side = pos.side_spec();
        let ghost kr = pos.king_sq(Side::Red);
        let ghost kb = pos.king_sq(Side::Black);
        let ghost c0 = self.counts();
        proof {
            p0.lemma_same_equiv(&p0, &p0);
            lemma_pow128(depth as int);
            lemma_pow128(depth - 1);
            assert(king_of(kr, kb, side) == pos.king_sq(side));
        }
        let us = pos.side_to_move();
        let ksq = pos.king_square(us);
        if count_pseudo_legal(pos) > 128 || pos.is_empty(ksq) {
            return Err(PerftError::UnsupportedPosition);
        }
        let mut moves = move_list_new();
        generate_moves(pos, MoveGenType::Legal, &mut moves);
        proof {
            lemma_generated_legal(pos);
            lemma_legal_len(b, side, kr, kb);
        }
        if ROOT && depth <= 1 {
            proof {
                assert(count_bound(depth as int) == 128);
            }
            let n = self.count_root_moves(pos, &moves);
            proof {
                pos.lemma_same_equiv(&p0, &p0);
            }
            Ok(n)
        } else {
            proof {
                assert(depth >= 2);
                assert(count_bound(depth as int) == pow128(depth as int));
            }
            let r = self.count_subtrees(pos, &moves, depth);
            proof {
                let legal = legal_moves_of(b, side, kr, kb);
                assert(perft_counts(b, side, kr, kb, depth as int) == subtree_counts(b, side, kr, kb, legal, depth as int));
                assert(perft_fits(b, side, kr, kb, depth as int) == subtree_fits(b, side, kr, kb, legal, depth as int));
            }
            r
        }
    }

    /// Counts the legal moves `moves` of `pos` at the root of a perft of depth 1 or
    /// less, with the checks and captures among them.
    fn count_root_moves(&mut self, pos: &Position, moves: &MoveList) -> (r: u64)
        requires
            pos.wf(),
            move_list_items(*moves) == legal_moves_of(
                pos.board_view(),
                pos.side_spec(),
                pos.king_sq(Side::Red),
                pos.king_sq(Side::Black),
            ),
            movable_from(pos, move_list_items(*moves), 0),
            old(self).room_for(128),
        ensures
            ({
                let mc = move_counts(
                    pos.board_view(),
                    pos.side_spec(),
                    pos.king_sq(Side::Red),
                    pos.king_sq(Side::Black),
                    move_list_items(*moves),
                );
                &&& r == mc.0
                &&& final(self).counts() == (
                    old(self).counts().0 + mc.0,
                    old(self).counts().1 + mc.1,
                    old(self).counts().2 + mc.2,
                    old(self).counts().3,
                )
            }),
    {
        let ghost b = pos.board_view();
        let ghost side = pos.side_spec();
        let ghost kr = pos.king_sq(Side::Red);
        let ghost kb = pos.king_sq(Side::Black);
        let ghost legal = move_list_items(*moves);
        let ghost c0 = self.counts();
        let len = move_list_len(moves);
        let mut i: usize = 0;
        while i < len
            invariant
                pos.wf(),
                b == pos.board_view(),
                side == pos.side_spec(),
                kr == pos.king_sq(Side::Red),
                kb == pos.king_sq(Side::Black),
                move_list_items(*moves) == legal,
                movable_from(pos, legal, 0),
                len == legal.len(),
                len <= 128,
                i <= len,
                c0.0 + 128 <= u64::MAX,
                c0.1 + 128 <= u64::MAX,
                c0.2 + 128 <= u64::MAX,
                ({
                    let mc = move_counts(b, side, kr, kb, legal.take(i as int));
                    &&& self.counts() == (c0.0 + mc.0, c0.1 + mc.1, c0.2 + mc.2, c0.3)
                    &&& mc.0 == i
                    &&& 0 <= mc.1 <= i
                    &&& 0 <= mc.2 <= i
                }),
            decreases len - i,
        {
            let m = move_list_get(moves, i);
            proof {
                assert(movable(pos, m));
                assert(legal.take(i + 1).drop_last() =~= legal.take(i as int));
                assert(legal.take(i + 1).last() == m);
                assert(king_of(kr, kb, side.opp()) == pos.king_sq(side.opp()));
                lemma_move_counts(b, side, kr, kb, legal.take(i as int));
            }
            self.nodes = self.nodes + 1;
            if !pos.is_empty(m.square_to()) {
                self.captures = self.captures + 1;
            }
            if pos.gives_check(m) {
                self.checks = self.checks + 1;
            }
            i = i + 1;
        }
        proof {
            assert(legal.take(len as int) =~= legal);
        }
        len as u64
    }

    /// Counts, for each legal move of `moves` of `pos`, the perft of `depth` plies
    /// from the position it reaches (see [`subtree_counts`]); stops at the first
    /// position that does not fit. The position is left as it was.
    #[verifier::rlimit(40)]
    fn count_subtrees(&mut self, pos: &mut Position, moves: &MoveList, depth: u32) -> (r: Result<
        u64,
        PerftError,
    >)
        requires
            old(pos).wf(),
            move_list_items(*moves) == legal_moves_of(
                old(pos).board_view(),
                old(pos).side_spec(),
                old(pos).king_sq(Side::Red),
                old(pos).king_sq(Side::Black),
            ),
            movable_from(old(pos), move_list_items(*moves), 0),
            move_list_items(*moves).len() <= 128,
            2 <= depth <= 9,
            old(pos).ply_spec() + depth < u16::MAX,
            old(pos).state_view().sixtymove_clock + depth < u16::MAX,
            old(pos).state_view().plies_since_null + depth < u16::MAX,
            old(self).room_for(pow128(depth as int)),
        ensures
            final(pos).same(old(pos)),
            ({
                let b = old(pos).board_view();
                let side = old(pos).side_spec();
                let kr = old(pos).king_sq(Side::Red);
                let kb = old(pos).king_sq(Side::Black);
                let legal = move_list_items(*moves);
                let sc = subtree_counts(b, side, kr, kb, legal, depth as int);
                match r {
                    Ok(n) => {
                        &&& subtree_fits(b, side, kr, kb, legal, depth as int)
                        &&& n == sc.0
                        &&& final(self).counts() == (
                            old(self).counts().0 + sc.0,
                            old(self).counts().1 + sc.1,
                            old(self).counts().2 + sc.2,
                            old(self).counts().3 + sc.3,
                        )
                    },
                    Err(e) => e == PerftError::UnsupportedPosition && !subtree_fits(
                        b,
                        side,
                        kr,
                        kb,
                        legal,
                        depth as int,
                    ),
                }
            }),
        decreases depth, 2int,
    {
        let ghost p0 = *pos;
        let ghost b = pos.board_view();
        let ghost side = pos.side_spec();
        let ghost kr = pos.king_sq(Side::Red);
        let ghost kb = pos.king_sq(Side::Black);
        let ghost legal = move_list_items(*moves);
        let ghost c0 = self.counts();
        let ghost p = pow128(depth - 1);
        proof {
            p0.lemma_same_equiv(&p0, &p0);
            lemma_pow128(depth - 1);
            assert(pow128(depth as int) == 128 * p);
        }
        let len = move_list_len(moves);
        let mut sub_nodes: u64 = 0;
        let mut i: usize = 0;
        while i < len
            invariant
                pos.wf(),
                p0.wf(),
                pos.same(&p0),
                b == pos.board_view(),
                side == pos.side_spec(),
                kr == pos.king_sq(Side::Red),
                kb == pos.king_sq(Side::Black),
                pos.ply_spec() == p0.ply_spec(),
                pos.state_view() == p0.state_view(),
                move_list_items(*moves) == legal,
                movable_from(pos, legal, 0),
                len == legal.len(),
                len <= 128,
                i <= len,
                2 <= depth <= 9,
                p0.ply_spec() + depth < u16::MAX,
                p0.state_view().sixtymove_clock + depth < u16::MAX,
                p0.state_view().plies_since_null + depth < u16::MAX,
                p >= 1,
                p == pow128(depth - 1),
                128 * p <= u64::MAX,
                p0 == *old(pos),
                c0 == old(self).counts(),
                b == p0.board_view(),
                side == p0.side_spec(),
                kr == p0.king_sq(Side::Red),
                kb == p0.king_sq(Side::Black),
                c0.0 + 128 * p <= u64::MAX,
                c0.1 + 128 * p <= u64::MAX,
                c0.2 + 128 * p <= u64::MAX,
                c0.3 + 128 * p <= u64::MAX,
                ({
                    let sc = subtree_counts(b, side, kr, kb, legal.take(i as int), depth as int);
                    &&& subtree_fits(b, side, kr, kb, legal.take(i as int), depth as int)
                    &&& self.counts() == (c0.0 + sc.0, c0.1 + sc.1, c0.2 + sc.2, c0.3 + sc.3)
                    &&& sub_nodes == sc.0
                    &&& 0 <= sc.0 <= i * p
                    &&& 0 <= sc.1 <= i * p
                    &&& 0 <= sc.2 <= i * p
                    &&& 0 <= sc.3 <= i * p
                }),
            decreases len - i,
        {
            let m = move_list_get(moves, i);
            let ghost pre_pos = *pos;
            proof {
                assert(movable(pos, m));
                assert(legal.take(i + 1).drop_last() =~= legal.take(i as int));
                assert(legal.take(i + 1).last() == m);
                assert(i * p + p <= 128 * p) by (nonlinear_arith)
                    requires
                        i < 128,
                        p >= 1,
                ;
                assert(i * p + p == (i + 1) * p) by (nonlinear_arith);
            }
            let cnt = self.perft_child(pos, m, depth);
            match cnt {
                Ok(n) => {
                    proof {
                        lemma_child_bound(b, side, kr, kb, m, depth as int);
                        pos.lemma_same_equiv(&pre_pos, &p0);
                        pos.lemma_same(&p0);
                        assert(n <= p);
                        assert(sub_nodes + n <= 128 * p);
                    }
                    sub_nodes = sub_nodes + n;
                },
                Err(e) => {
                    proof {
                        if subtree_fits(b, side, kr, kb, legal, depth as int) {
                            lemma_subtree_fits_each(b, side, kr, kb, legal, depth as int, i as int);
                        }
                        pos.lemma_same_equiv(&pre_pos, &p0);
                    }
                    return Err(e);
                },
            }
            i = i + 1;
        }
        proof {
            assert(legal.take(len as int) =~= legal);
        }
        Ok(sub_nodes)
    }
}

impl Default for Perft {
    /// All counters zero.
    fn default() -> (r: Perft)
        ensures
            r.counts() == (0int, 0int, 0int, 0int),
    {
        Perft::new()
    }
}

} // verus!
