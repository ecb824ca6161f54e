//! The engine a UCI front end drives: the current position and the search
//! tables, with the commands that load a position and its moves, size or clear
//! the tables, and start a search.
use crate::fen::fen_error;
use crate::movegen::{count_pseudo_legal, generate_moves, lemma_generated_legal, movable};
use crate::movelist::{move_list_get, move_list_items, move_list_len, move_list_new};
use crate::perft::legal_moves_of;
use crate::position::rules::king_of;
use crate::position::setup::start_board;
use crate::position::{Position, PositionSetError, board_after};
use crate::search::history_moves::HistoryMoves;
use crate::search::searcher::{
    IterationReport, Searcher, SharedContext, first_move, legal_at, lemma_report_ok_same, report_ok,
};
use crate::score::MAX_DEPTH;
use crate::search::time_manager::{GoParameters, TimeManager, time_limits};
use crate::search::transposition_table::{TranspositionTable, largest_pow2};
use crate::types::{Move, MoveGenType, Piece, PieceType, Side, Square};
use vstd::prelude::*;

verus! {

/// Why a `position` command could not be carried out.
#[derive(Clone, Copy, PartialEq, Eq, Structural, Debug)]
pub enum EngineError {
    /// The FEN string does not describe a position.
    InvalidFen(PositionSetError),
    /// The move at this index of the list is not a legal move of the position
    /// reached before it.
    IllegalMove(usize),
    /// The position reached before the move at this index has more pseudo-legal
    /// moves than a move list holds, no king on its recorded square, or move
    /// counters at their limit.
    UnsupportedPosition(usize),
}

/// What the move replay tracks of a position: the board, the side to move and the
/// squares of the red and black kings.
pub type ReplayState = (Seq<Option<Piece>>, Side, int, int);

/// The replay state of a position.
pub open spec fn state_of(p: &Position) -> ReplayState {
    (p.board_view(), p.side_spec(), p.king_sq(Side::Red), p.king_sq(Side::Black))
}

/// Whether some legal move of the state goes from `from` to `to`.
pub open spec fn has_legal(st: ReplayState, from: int, to: int) -> bool {
    let legal = legal_moves_of(st.0, st.1, st.2, st.3);
    exists|i: int| 0 <= i < legal.len() && #[trigger] legal[i].from_idx() == from && legal[i].to_idx() == to
}

/// The square of the king of `c` after the piece on `from` moves to `to`.
pub open spec fn king_moved(st: ReplayState, from: int, to: int, c: Side) -> int {
    let moved = st.0[from]->0;
    if moved.piece_type_spec() == PieceType::King && moved.color_spec() == c {
        to
    } else {
        king_of(st.2, st.3, c)
    }
}

/// The state after the legal move from `from` to `to`, if there is one.
pub open spec fn step(st: ReplayState, from: int, to: int) -> Option<ReplayState> {
    if has_legal(st, from, to) {
        Some(
            (
                board_after(st.0, from, to),
                st.1.opp(),
                king_moved(st, from, to, Side::Red),
                king_moved(st, from, to, Side::Black),
            ),
        )
    } else {
        None
    }
}

/// The state after the first `n` moves of `moves` from `st`, or `None` once one of
/// them is not legal.
pub open spec fn replay(st: ReplayState, moves: Seq<(Square, Square)>, n: int) -> Option<ReplayState>
    decreases n,
{
    if n <= 0 {
        Some(st)
    } else {
        match replay(st, moves, n - 1) {
            Some(s) => step(s, moves[n - 1].0.idx(), moves[n - 1].1.idx()),
            None => None,
        }
    }
}

/// Whether the position's counters leave room for one more move.
pub open spec fn counters_room(p: &Position) -> bool {
    &&& p.ply_spec() < u16::MAX
    &&& p.state_view().sixtymove_clock < u16::MAX
    &&& p.state_view().plies_since_null < u16::MAX
}

/// The engine: the current position and the search tables shared between
/// searches.
pub struct Lingine {
    position: Position,
    shared: SharedContext,
}

impl Lingine {
    /// The current position.
    pub closed spec fn position_spec(&self) -> Position {
        self.position
    }

    /// The search tables.
    pub closed spec fn shared_spec(&self) -> SharedContext {
        self.shared
    }

    /// A consistent position and usable search tables.
    pub open spec fn wf(&self) -> bool {
        &&& self.position_spec().wf()
        &&& self.shared_spec().wf()
    }

    /// An engine on the starting position with a 16 MB table.
    pub fn new() -> (r: Lingine)
        ensures
            r.wf(),
            r.position_spec().board_view() == start_board(),
            r.position_spec().side_spec() == Side::Red,
    {
        proof {
            lemma_largest_pow2_at_least(1048576int, 1);
        }
        Lingine {
            position: Position::new(),
            shared: SharedContext {
                transposition_table: TranspositionTable::new(16),
                history_moves: HistoryMoves::new(),
                age: 0,
                keep_running: false,
            },
        }
    }

    /// The current position.
    pub fn position(&self) -> (r: &Position)
        ensures
            *r == self.position_spec(),
    {
        &self.position
    }

    /// Starts a new game: the starting position and an empty table.
    pub fn ucinewgame(&mut self)
        requires
            old(self).wf(),
        ensures
            final(self).wf(),
            final(self).position_spec().board_view() == start_board(),
            final(self).position_spec().side_spec() == Side::Red,
            final(self).shared_spec().transposition_table.slots().len()
                == old(self).shared_spec().transposition_table.slots().len(),
            forall|i: int|
                0 <= i < final(self).shared_spec().transposition_table.slots().len()
                    ==> #[trigger] final(self).shared_spec().transposition_table.slots()[i] is None,
    {
        self.position = Position::new();
        self.shared.transposition_table.clear();
    }

    /// Gives the table the room of `mb_size` megabytes, all empty.
    pub fn set_hash(&mut self, mb_size: usize)
        requires
            old(self).wf(),
            1 <= mb_size,
            mb_size as int * 1048576 <= usize::MAX as int,
        ensures
            final(self).wf(),
            final(self).position_spec() == old(self).position_spec(),
            forall|i: int|
                0 <= i < final(self).shared_spec().transposition_table.slots().len()
                    ==> #[trigger] final(self).shared_spec().transposition_table.slots()[i] is None,
    {
        self.shared.transposition_table.resize(mb_size);
        proof {
            assert(mb_size * 1024 * 1024 / 16 >= 1);
            lemma_largest_pow2_at_least(mb_size * 1024 * 1024 / 16, 1);
        }
    }

    /// Loads the position of `fen`, then plays `moves` (origin and destination
    /// squares) one by one, each as the legal move between those squares.
    pub fn set_position(&mut self, fen: &str, moves: &[(Square, Square)]) -> (r: Result<(), EngineError>)
        requires
            old(self).wf(),
        ensures
            final(self).wf(),
            final(self).shared_spec() == old(self).shared_spec(),
            match r {
                Err(EngineError::InvalidFen(e)) => fen_error(fen@) == Some(e),
                Ok(()) => fen_error(fen@) is None && exists|p: Position|
                    #![trigger p.loaded_from(fen@)]
                    p.loaded_from(fen@) && replay(state_of(&p), moves@, moves@.len() as int) == Some(
                        state_of(&final(self).position_spec()),
                    ),
                Err(EngineError::IllegalMove(k)) => fen_error(fen@) is None && k < moves@.len()
                    && exists|p: Position|
                    #![trigger p.loaded_from(fen@)]
                    p.loaded_from(fen@) && replay(state_of(&p), moves@, k as int) == Some(
                        state_of(&final(self).position_spec()),
                    ) && replay(state_of(&p), moves@, k + 1) is None,
                Err(EngineError::UnsupportedPosition(k)) => fen_error(fen@) is None && k
                    < moves@.len() && exists|p: Position|
                    #![trigger p.loaded_from(fen@)]
                    p.loaded_from(fen@) && replay(state_of(&p), moves@, k as int) == Some(
                        state_of(&final(self).position_spec()),
                    ),
            },
    {
        let mut pos = Position::new();
        match pos.set(fen) {
            Ok(()) => {},
            Err(e) => {
                return Err(EngineError::InvalidFen(e));
            },
        }
        let ghost p0 = pos;
        let mut i: usize = 0;
        while i < moves.len()
            invariant
                i <= moves@.len(),
                p0.loaded_from(fen@),
                pos.wf(),
                replay(state_of(&p0), moves@, i as int) == Some(state_of(&pos)),
                old(self).wf(),
                self.shared == old(self).shared,
                fen_error(fen@) is None,
            decreases moves@.len() - i,
        {
            let (from, to) = moves[i];
            match play_between(&mut pos, from, to) {
                Ok(()) => {},
                Err(illegal) => {
                    self.position = pos;
                    if illegal {
                        return Err(EngineError::IllegalMove(i));
                    } else {
                        return Err(EngineError::UnsupportedPosition(i));
                    }
                },
            }
            i = i + 1;
        }
        self.position = pos;
        Ok(())
    }

    /// Searches the current position within `limits` and returns the best move
    /// found (the first move of the line of the last completed iteration, a legal
    /// move, or the empty move when no iteration completed or the line is empty),
    /// with a report of each completed iteration and the number of nodes searched.
    /// Unless the depth limit is 0, an iteration completes whenever neither the
    /// clock nor the node limit stops the search. The position stays as it was;
    /// the tables keep what the search stored.
    pub fn go(&mut self, limits: &GoParameters) -> (r: (Move, Vec<IterationReport>, u64))
        requires
            old(self).wf(),
            limits.movestogo != Some(0u32),
        ensures
            final(self).wf(),
            final(self).position_spec() == old(self).position_spec(),
            r.0 == Move(0) || legal_at(&old(self).position_spec(), r.0),
            r.1@.len() == 0 ==> r.0 == Move(0),
            r.1@.len() > 0 ==> r.0 == first_move(r.1@.last().pv@),
            r.1@.len() == 0 && limits.depth != Some(0u32) ==> time_limits(
                *limits,
                old(self).position_spec().side_spec(),
            ).1 is Some || r.2 >= (match limits.nodes {
                Some(n) => n,
                None => u64::MAX,
            }),
            forall|k: int| 0 <= k < r.1@.len() ==> report_ok(#[trigger] r.1@[k], old(self).position_spec()),
            forall|k: int| 0 <= k < r.1@.len() ==> (#[trigger] r.1@[k]).depth == k + 1,
            time_limits(*limits, old(self).position_spec().side_spec()) == (None::<int>, None::<int>) && r.2 < (
            match limits.nodes {
                Some(n) => n,
                None => u64::MAX,
            }) ==> r.1@.len() == (match limits.depth {
                Some(d) => if d > 127 {
                    127
                } else {
                    d as int
                },
                None => MAX_DEPTH as int,
            }),
    {
        let time_manager = TimeManager::new(limits, self.position.side_to_move());
        let pos = self.position.clone();
        proof {
            pos.lemma_same(&self.position);
        }
        let mut shared = SharedContext {
            transposition_table: TranspositionTable::new(0),
            history_moves: HistoryMoves::new(),
            age: 0,
            keep_running: false,
        };
        std::mem::swap(&mut shared, &mut self.shared);
        let (best, reports, nodes, shared) = Searcher::start_search(pos, time_manager, shared);
        proof {
            assert forall|k: int| 0 <= k < reports@.len() implies report_ok(
                #[trigger] reports@[k],
                self.position,
            ) by {
                lemma_report_ok_same(reports@[k], pos, self.position);
            }
        }
        self.shared = shared;
        (best, reports, nodes)
    }
}

impl Default for Lingine {
    /// An engine on the starting position with a 16 MB table.
    fn default() -> (r: Lingine)
        ensures
            r.wf(),
            r.position_spec().board_view() == start_board(),
            r.position_spec().side_spec() == Side::Red,
    {
        Lingine::new()
    }
}

/// The largest power of two not above `count`, searched from `p`, is at least `p`.
proof fn lemma_largest_pow2_at_least(count: int, p: int)
    requires
        p >= 1,
    ensures
        largest_pow2(count, p) >= p,
    decreases count - p,
{
    if p * 2 <= count {
        lemma_largest_pow2_at_least(count, p * 2);
    }
}

/// Plays the legal move of `pos` from `from` to `to`. Fails with `true` when there
/// is none, with `false` when the position cannot be handled (see
/// [`EngineError::UnsupportedPosition`]); the position is then left as it was.
fn play_between(pos: &mut Position, from: Square, to: Square) -> (r: Result<(), bool>)
    requires
        old(pos).wf(),
    ensures
        final(pos).wf(),
        match r {
            Ok(()) => step(state_of(old(pos)), from.idx(), to.idx()) == Some(state_of(final(pos))),
            Err(true) => step(state_of(old(pos)), from.idx(), to.idx()) is None && *final(pos) == *old(pos),
            Err(false) => *final(pos) == *old(pos),
        },
{
    let ghost b = pos.board_view();
    let ghost side = pos.side_spec();
    let ghost kr = pos.king_sq(Side::Red);
    let ghost kb = pos.king_sq(Side::Black);
    let us = pos.side_to_move();
    let ksq = pos.king_square(us);
    if count_pseudo_legal(pos) > 128 || pos.is_empty(ksq) {
        return Err(false);
    }
    if pos.game_ply() == u16::MAX || pos.sixtymove_clock() == u16::MAX || pos.plies_since_null() == u16::MAX {
        return Err(false);
    }
    let mut moves = move_list_new();
    generate_moves(pos, MoveGenType::Legal, &mut moves);
    proof {
        lemma_generated_legal(pos);
        assert(king_of(kr, kb, side) == pos.king_sq(side));
        assert(move_list_items(moves) =~= legal_moves_of(b, side, kr, kb));
    }
    let ghost legal = move_list_items(moves);
    let ghost p0 = *pos;
    let n = move_list_len(&moves);
    let mut i: usize = 0;
    while i < n
        invariant
            i <= n,
            *pos == p0,
            p0 == *old(pos),
            p0.wf(),
            counters_room(&p0),
            b == p0.board_view(),
            side == p0.side_spec(),
            kr == p0.king_sq(Side::Red),
            kb == p0.king_sq(Side::Black),
            forall|j: int| 0 <= j < legal.len() ==> movable(&p0, #[trigger] legal[j]),
            n == legal.len(),
            legal == move_list_items(moves),
            legal == legal_moves_of(b, side, kr, kb),
            forall|j: int| 0 <= j < i ==> !(#[trigger] legal[j].from_idx() == from.idx() && legal[j].to_idx() == to.idx()),
        decreases n - i,
    {
        let m = move_list_get(&moves, i);
        assert(movable(&p0, legal[i as int]));
        if m.square_from().index() == from.index() && m.square_to().index() == to.index() {
            pos.do_move(m);
            proof {
                assert(has_legal(state_of(&p0), from.idx(), to.idx()));
                assert(state_of(pos) =~= (
                    board_after(b, from.idx(), to.idx()),
                    side.opp(),
                    king_moved(state_of(&p0), from.idx(), to.idx(), Side::Red),
                    king_moved(state_of(&p0), from.idx(), to.idx(), Side::Black),
                ));
            }
            return Ok(());
        }
        i = i + 1;
    }
    Err(true)
}

} // verus!
