//! The search: iterative deepening over a fail-soft alpha-beta negamax with
//! aspiration windows, principal-variation search, check, one-reply and singular
//! extensions, a quiescence search over captures, and move ordering by the
//! transposition table, captures, killer moves and history.
use crate::eval::{evaluable, evaluable_exec, eval_spec};
use crate::movegen::{
    count_pseudo_legal, generate_moves, generated, legal_list, lemma_captures_legal,
    lemma_generated_legal, movable, movable_from,
};
use crate::movelist::{MoveList, move_list_get, move_list_items, move_list_len, move_list_new};
use crate::position::{Position, board_after, lemma_undo_after_do};
use crate::score::{
    INFINITY, MATE, MATE_IN_MAX_PLY, MAX_PLY, Score, ZERO, in_search_range, is_winning, mated_in,
};
use crate::search::history_moves::HistoryMoves;
use crate::search::killer_moves::KillerMoves;
use crate::search::pv_table::PrincipalVariationTable;
use crate::search::time_manager::TimeManager;
use crate::search::transposition_table::{Bound, Entry, TranspositionTable};
use crate::types::{Move, MoveGenType, Piece, PieceType, Side};
use vstd::prelude::*;

verus! {

/// The search extension and move exclusion of the current branch.
#[derive(Clone, Copy, Debug)]
pub struct SearchContext {
    /// A move not to search (the empty move for none).
    pub excluded_move: Move,
    /// Extensions granted so far.
    pub extensions: u8,
}

impl Default for SearchContext {
    /// No excluded move, no extension.
    fn default() -> (r: SearchContext)
        ensures
            r.excluded_move.0 == 0,
            r.extensions == 0,
    {
        SearchContext { excluded_move: Move::none(), extensions: 0 }
    }
}

/// What searches share and keep between them: the transposition table, the
/// history scores, the search age, and whether to keep running.
pub struct SharedContext {
    /// The transposition table.
    pub transposition_table: TranspositionTable,
    /// The history scores of quiet moves.
    pub history_moves: HistoryMoves,
    /// The age of the current search.
    pub age: u8,
    /// Whether the search may go on; cleared to stop it.
    pub keep_running: bool,
}

impl SharedContext {
    /// A table with slots and a full history table.
    pub open spec fn wf(&self) -> bool {
        &&& self.transposition_table.wf()
        &&& self.transposition_table.slots().len() > 0
        &&& self.history_moves.scores().len() == 16200
    }
}

/// The rank of a piece type for ordering captures, most valuable victim first.
pub open spec fn piece_value_rank(t: PieceType) -> int {
    match t {
        PieceType::King => 8,
        PieceType::Rook => 7,
        PieceType::Cannon => 6,
        PieceType::Knight => 5,
        PieceType::Advisor => 4,
        PieceType::Bishop => 3,
        PieceType::Pawn => 2,
    }
}

/// The rank of piece `p` for ordering captures (see [`piece_value_rank`]).
pub fn get_piece_value_rank(p: Piece) -> (r: i32)
    ensures
        r == piece_value_rank(p.piece_type_spec()),
{
    match p.piece_type() {
        PieceType::King => 8,
        PieceType::Rook => 7,
        PieceType::Cannon => 6,
        PieceType::Knight => 5,
        PieceType::Advisor => 4,
        PieceType::Bishop => 3,
        PieceType::Pawn => 2,
    }
}

/// The move-ordering score of the movable move `m` of `pos`: the move from the
/// table first, then captures by most valuable victim and least valuable attacker,
/// then killer moves of ply `ply`, then quiet moves by history score.
pub open spec fn order_score(
    pos: &Position,
    killers: &KillerMoves,
    history: &HistoryMoves,
    tt_move: Option<Move>,
    ply: int,
    m: Move,
) -> int {
    if tt_move == Some(m) {
        2_000_000_000
    } else if pos.board_view()[m.to_idx()] is Some {
        1_000_000_000 + piece_value_rank(pos.board_view()[m.to_idx()]->0.piece_type_spec()) * 10_000_000
            - piece_value_rank(pos.board_view()[m.from_idx()]->0.piece_type_spec()) * 100_000
    } else if killers.is_killer(m, ply) {
        900_000_000
    } else {
        history.score_of(pos.side_spec(), m) as int
    }
}

/// Moves with the same elements move pieces when one of them does.
proof fn lemma_permuted_movable(pos: &Position, a: Seq<Move>, b: Seq<Move>)
    requires
        a.to_multiset() == b.to_multiset(),
        movable_from(pos, a, 0),
    ensures
        movable_from(pos, b, 0),
        b.len() == a.len(),
{
    broadcast use vstd::seq_lib::group_to_multiset_ensures;

    a.to_multiset_ensures();
    b.to_multiset_ensures();
    assert forall|i: int| 0 <= i < b.len() implies movable(pos, #[trigger] b[i]) by {
        assert(b.contains(b[i]));
        assert(a.to_multiset().count(b[i]) > 0);
        assert(a.contains(b[i]));
    }
}

/// The state of one search: the position searched, node and ply counters, the
/// limits, the killer moves and principal variations, and the shared context.
pub struct Searcher {
    pos: Position,
    /// Nodes searched.
    nodes: u64,
    /// The time, depth and node limits.
    time_manager: TimeManager,
    /// Killer moves by ply.
    killer_moves: KillerMoves,
    /// The deepest ply reached, quiescence included.
    max_ply: u8,
    /// The shared context.
    shared: SharedContext,
    /// The best line from each ply.
    pv_table: PrincipalVariationTable,
    /// The depth of the current iteration.
    current_root_depth: i8,
    /// What each completed iteration found.
    reports: Vec<IterationReport>,
    /// The record of the last node searched.
    node: Ghost<SearchNode>,
    /// The position reached by the last child searched.
    child: Ghost<Position>,
}

/// What one iteration of the deepening found.
#[derive(Clone)]
pub struct IterationReport {
    /// The depth searched.
    pub depth: i8,
    /// The deepest ply reached, quiescence included.
    pub seldepth: u8,
    /// The score from the side to move's view.
    pub score: Score,
    /// The nodes searched so far.
    pub nodes: u64,
    /// The share of the transposition table in use, in thousandths.
    pub hashfull: u32,
    /// The best line found.
    pub pv: Vec<Move>,
    /// The record of the root search that gave the score.
    pub search: Ghost<SearchNode>,
}

/// Whether `rep` reports a search of `pos`: its record explains its score at the
/// root and is neither a stop nor a table cutoff; in an iteration below depth 6
/// (searched with the full window) whose score beats every bound, the line starts
/// with the first move of the record whose score is the best.
pub open spec fn report_ok(rep: IterationReport, pos: Position) -> bool {
    &&& explains(rep.search@, pos, 0, rep.score as int)
    &&& !(rep.search@ is Stopped)
    &&& !(rep.search@ is Table)
    &&& rep.depth < 6 && rep.score > -INFINITY ==> (rep.search@ matches SearchNode::Searched {
        stand,
        children,
    } ==> rep.pv@.len() > 0 && Some(rep.pv@[0]) == best_move_of(
        stand_score(stand),
        children,
        children.len() as int,
    ))
}

/// Sorts the moves of `moves` by ascending [`Searcher::move_sort_key`] (descending
/// move-ordering score) with `slice::sort_unstable_by_key`, reached through the
/// mutable slice view of `ArrayVec`. The moves are permuted, and the keys of the
/// result never decrease.
#[verifier::external_body]
fn move_list_sort_by_key(moves: &mut MoveList, searcher: &Searcher, tt_move: Option<Move>, ply: u8)
    requires
        searcher.inv(),
        ply < MAX_PLY,
        movable_from(&searcher.position(), move_list_items(*old(moves)), 0),
    ensures
        move_list_items(*final(moves)).to_multiset() == move_list_items(*old(moves)).to_multiset(),
        forall|i: int, j: int|
            0 <= i < j < move_list_items(*final(moves)).len() ==> searcher.sort_key_spec(
                tt_move,
                ply as int,
                #[trigger] move_list_items(*final(moves))[i],
            ) <= searcher.sort_key_spec(tt_move, ply as int, #[trigger] move_list_items(*final(moves))[j]),
{
    moves.sort_unstable_by_key(|m| searcher.move_sort_key(*m, tt_move, ply));
}

impl Searcher {
    /// The position searched.
    pub closed spec fn position(&self) -> Position {
        self.pos
    }

    /// The best line found from the root (the line of ply 0).
    pub closed spec fn root_line(&self) -> Seq<Move> {
        self.pv_table.lines()[0]
    }

    /// The reports of the completed iterations.
    pub closed spec fn reports_spec(&self) -> Seq<IterationReport> {
        self.reports@
    }

    /// Whether the root line is empty or starts with a legal move of `root`.
    pub open spec fn root_line_ok(&self, root: &Position) -> bool {
        self.root_line().len() == 0 || legal_at(root, self.root_line()[0])
    }

    /// Whether the search may go on.
    pub closed spec fn running(&self) -> bool {
        self.shared.keep_running
    }

    /// Whether the transposition table holds, for the position at ply `ply`, an
    /// entry of score `v` in the search range that settles a search to `depth`
    /// within (`alpha`, `beta`): searched at least that deep, and exact, an upper
    /// bound at most `alpha` or a lower bound at least `beta`.
    pub closed spec fn table_cuts(&self, depth: int, ply: int, alpha: int, beta: int, v: int) -> bool {
        match self.shared.transposition_table.probe_spec(self.pos.state_view().zobrist, ply as u8) {
            Some(e) => {
                &&& -INFINITY <= e.score <= INFINITY
                &&& e.score == v
                &&& e.depth >= depth
                &&& match e.bound {
                    Bound::Exact => true,
                    Bound::Alpha => e.score <= alpha,
                    Bound::Beta => e.score >= beta,
                }
            },
            None => false,
        }
    }

    /// The record of the last node searched.
    pub closed spec fn last_node(&self) -> SearchNode {
        self.node@
    }

    /// The position reached by the last child searched.
    pub closed spec fn last_child(&self) -> Position {
        self.child@
    }

    /// The depth of the last iteration started.
    pub closed spec fn root_depth(&self) -> i8 {
        self.current_root_depth
    }

    /// The nodes searched.
    pub closed spec fn node_count(&self) -> int {
        self.nodes as int
    }

    /// The limits.
    pub closed spec fn limits(&self) -> TimeManager {
        self.time_manager
    }

    /// The sort key of move `m`: minus its move-ordering score (see
    /// [`order_score`]).
    pub closed spec fn sort_key_spec(&self, tt_move: Option<Move>, ply: int, m: Move) -> int {
        -order_score(&self.pos, &self.killer_moves, &self.shared.history_moves, tt_move, ply, m)
    }

    /// A consistent position, shared context, killer table and principal-variation
    /// table.
    pub closed spec fn inv(&self) -> bool {
        &&& self.pos.wf()
        &&& self.shared.wf()
        &&& self.killer_moves.slots().len() == MAX_PLY
        &&& self.pv_table.wf()
    }

    /// Whether the search stops as soon as it starts a node, whatever the clock
    /// says: it was told to stop, or it has used up its nodes.
    pub open spec fn stopped(&self) -> bool {
        !self.running() || self.node_count() >= self.limits().max_nodes_spec()
    }

    /// Whether the clock cannot stop the search: it has no hard time limit.
    pub open spec fn untimed(&self) -> bool {
        self.limits().hard_spec() is None
    }

    /// A search of `pos` within the limits of `time_manager`, with the shared
    /// context `shared`, no node searched yet and empty killer and variation
    /// tables.
    pub fn new(pos: Position, time_manager: TimeManager, shared: SharedContext) -> (r: Searcher)
        requires
            pos.wf(),
            shared.wf(),
        ensures
            r.inv(),
            r.position() == pos,
            r.running() == shared.keep_running,
            r.node_count() == 0,
            r.limits() == time_manager,
            r.reports_spec().len() == 0,
            r.root_depth() == 0,
    {
        Searcher {
            pos,
            nodes: 0,
            time_manager,
            killer_moves: KillerMoves::new(),
            max_ply: 0,
            shared,
            pv_table: PrincipalVariationTable::new(),
            current_root_depth: 0,
            reports: Vec::new(),
            node: Ghost(SearchNode::Stopped),
            child: Ghost(pos),
        }
    }

    /// The shared context, given back at the end of the search.
    pub fn into_shared(self) -> (r: SharedContext)
        requires
            self.inv(),
        ensures
            r.wf(),
            r.keep_running == self.running(),
    {
        self.shared
    }

    /// The nodes searched.
    pub fn nodes(&self) -> (r: u64)
        ensures
            r == self.node_count(),
    {
        self.nodes
    }

    /// The deepest ply reached.
    pub fn max_ply(&self) -> (r: u8) {
        self.max_ply
    }

    /// The best line found from the root.
    pub fn extract_pv(&self) -> (r: Vec<Move>)
        requires
            self.inv(),
    {
        self.pv_table.get_line(0)
    }

    /// Counts one more node, reached at ply `ply`.
    fn update_analytics(&mut self, ply: u8)
        requires
            old(self).inv(),
            old(self).node_count() < u64::MAX,
        ensures
            final(self).inv(),
            final(self).position() == old(self).position(),
            final(self).running() == old(self).running(),
            final(self).limits() == old(self).limits(),
            final(self).node_count() == old(self).node_count() + 1,
            final(self).root_line() == old(self).root_line(),
            final(self).reports_spec() == old(self).reports_spec(),
            final(self).shared.transposition_table == old(self).shared.transposition_table,
    {
        self.nodes = self.nodes + 1;
        if ply > self.max_ply {
            self.max_ply = ply;
        }
    }

    /// Whether the search must stop: it was told to, it has searched its nodes, or,
    /// every 4096 nodes, the clock has reached the hard limit; the last two clear
    /// the running flag.
    fn should_stop_search(&mut self) -> (r: bool)
        requires
            old(self).inv(),
        ensures
            final(self).inv(),
            final(self).position() == old(self).position(),
            final(self).node_count() == old(self).node_count(),
            final(self).limits() == old(self).limits(),
            r == !final(self).running(),
            old(self).stopped() ==> r,
            !old(self).stopped() && old(self).untimed() ==> !r,
            !r ==> old(self).running() && old(self).node_count() < old(self).limits().max_nodes_spec(),
            final(self).root_line() == old(self).root_line(),
            final(self).reports_spec() == old(self).reports_spec(),
            final(self).shared.transposition_table == old(self).shared.transposition_table,
    {
        if !self.shared.keep_running {
            return true;
        }
        if self.nodes >= self.time_manager.max_nodes() || (self.nodes % 4096 == 0
            && self.time_manager.is_hard_bound_reached()) {
            self.shared.keep_running = false;
            return true;
        }
        false
    }

    /// The static evaluation from the side to move's view, kept within the scores
    /// that are not mates; 0 for a position that cannot be evaluated.
    fn static_eval(&self) -> (r: Score)
        requires
            self.inv(),
        ensures
            -MATE_IN_MAX_PLY < r < MATE_IN_MAX_PLY,
            r == static_value(&self.position()),
    {
        if !evaluable_exec(&self.pos) {
            return 0;
        }
        let e = self.pos.evaluate();
        if e >= MATE_IN_MAX_PLY {
            MATE_IN_MAX_PLY - 1
        } else if e <= -MATE_IN_MAX_PLY {
            -MATE_IN_MAX_PLY + 1
        } else {
            e
        }
    }

    /// The sort key of move `m` (see [`Searcher::sort_key_spec`]).
    fn move_sort_key(&self, m: Move, tt_move: Option<Move>, ply: u8) -> (r: i64)
        requires
            self.inv(),
            movable(&self.position(), m),
            ply < MAX_PLY,
        ensures
            r == self.sort_key_spec(tt_move, ply as int, m),
    {
        let score: i64 = if tt_move == Some(m) {
            2_000_000_000
        } else {
            match self.pos.piece_at(m.square_to()) {
                Some(victim) => {
                    let attacker = self.pos.piece_at(m.square_from()).unwrap();
                    1_000_000_000 + get_piece_value_rank(victim) as i64 * 10_000_000
                        - get_piece_value_rank(attacker) as i64 * 100_000
                },
                None => {
                    if self.killer_moves.contains(m, ply) {
                        900_000_000
                    } else {
                        self.shared.history_moves.get(self.pos.side_to_move(), m) as i64
                    }
                },
            }
        };
        -score
    }

    /// Orders `moves` by descending move-ordering score (see [`order_score`]).
    pub fn sort_moves(&self, moves: &mut MoveList, tt_move: Option<Move>, ply: u8)
        requires
            self.inv(),
            ply < MAX_PLY,
            movable_from(&self.position(), move_list_items(*old(moves)), 0),
        ensures
            move_list_items(*final(moves)).to_multiset() == move_list_items(*old(moves)).to_multiset(),
            movable_from(&self.position(), move_list_items(*final(moves)), 0),
            move_list_items(*final(moves)).len() == move_list_items(*old(moves)).len(),
            forall|i: int, j: int|
                0 <= i < j < move_list_items(*final(moves)).len() ==> order_score(
                    &self.position(),
                    &self.killers(),
                    &self.history(),
                    tt_move,
                    ply as int,
                    #[trigger] move_list_items(*final(moves))[i],
                ) >= order_score(
                    &self.position(),
                    &self.killers(),
                    &self.history(),
                    tt_move,
                    ply as int,
                    #[trigger] move_list_items(*final(moves))[j],
                ),
    {
        move_list_sort_by_key(moves, self, tt_move, ply);
        proof {
            lemma_permuted_movable(&self.pos, move_list_items(*old(moves)), move_list_items(*moves));
        }
    }

    /// The killer moves.
    pub closed spec fn killers(&self) -> KillerMoves {
        self.killer_moves
    }

    /// The history scores.
    pub closed spec fn history(&self) -> HistoryMoves {
        self.shared.history_moves
    }

    /// Whether the side to move has its king on its recorded square, at most 128
    /// pseudo-legal moves, and room in the move counters for one more move: what
    /// expanding a node needs.
    pub open spec fn expandable(pos: &Position) -> bool {
        &&& pseudo_legal_count_fits(pos)
        &&& pos.board_view()[pos.king_sq(pos.side_spec())] is Some
        &&& pos.ply_spec() < u16::MAX
        &&& pos.state_view().sixtymove_clock < u16::MAX
        &&& pos.state_view().plies_since_null < u16::MAX
    }

    /// Whether the node can be expanded (see [`Searcher::expandable`]).
    fn can_expand(&self) -> (r: bool)
        requires
            self.inv(),
        ensures
            r == Searcher::expandable(&self.position()),
    {
        if self.pos.game_ply() == u16::MAX || self.pos.sixtymove_clock() == u16::MAX
            || self.pos.plies_since_null() == u16::MAX {
            return false;
        }
        let us = self.pos.side_to_move();
        let ksq = self.pos.king_square(us);
        count_pseudo_legal(&self.pos) <= 128 && !self.pos.is_empty(ksq)
    }
}

/// Whether `m` is a legal move of the side to move in `p`.
pub open spec fn legal_at(p: &Position, m: Move) -> bool {
    legal_list(p.board_view(), p.side_spec(), p.king_sq(p.side_spec())).contains(m)
}

/// The legal moves of the side to move in `p`.
pub open spec fn legal_moves(p: &Position) -> Seq<Move> {
    legal_list(p.board_view(), p.side_spec(), p.king_sq(p.side_spec()))
}

/// What the search of one node did.
pub enum SearchNode {
    /// The search was stopped; the score is 0.
    Stopped,
    /// The static evaluation was taken: the ply limit is reached or the node
    /// cannot be expanded.
    Static,
    /// The draw rules settled the position.
    Verdict,
    /// A score found in the transposition table ended the search.
    Table,
    /// The side to move has no legal move.
    Mated,
    /// The moves searched, in order: each with the position it leads to, the
    /// search of that position and the score found there (from the side then to
    /// move); `stand` is the score to beat before any move (the static evaluation
    /// when standing pat in quiescence, none otherwise).
    Searched { stand: Option<Score>, children: Seq<(Move, Position, SearchNode, Score)> },
}

/// The static evaluation of `pos` from the side to move's view, kept strictly
/// between the mate thresholds; 0 for a position that cannot be evaluated.
pub open spec fn static_value(pos: &Position) -> int {
    if evaluable(pos) {
        clamp_eval(if pos.side_spec() == Side::Red {
            eval_spec(pos)
        } else {
            -eval_spec(pos)
        })
    } else {
        0
    }
}

/// The score to beat before any move of a searched node.
pub open spec fn stand_score(stand: Option<Score>) -> int {
    match stand {
        Some(s) => s as int,
        None => -INFINITY,
    }
}

/// The fail-soft best of `init` and of the first `n` children's scores, each
/// negated to the view of the side to move at the node.
pub open spec fn best_of(init: int, children: Seq<(Move, Position, SearchNode, Score)>, n: int) -> int
    decreases n,
{
    if n <= 0 {
        init
    } else {
        let b = best_of(init, children, n - 1);
        let v = -children[n - 1].3;
        if v > b {
            v
        } else {
            b
        }
    }
}

/// Whether the search record `node` of position `pos` at ply `ply` gives the score
/// `v`: 0 when stopped; the static evaluation at the ply limit or where the node
/// cannot be expanded; the draw rules' verdict; a table score; the mated score
/// when there is no legal move; otherwise the fail-soft best of the stand-pat
/// score and of the negated scores of the children, each reached by a legal move
/// and itself explained one ply deeper.
pub open spec fn explains(node: SearchNode, pos: Position, ply: int, v: int) -> bool
    decreases node,
{
    match node {
        SearchNode::Stopped => v == 0,
        SearchNode::Static => (ply >= MAX_PLY || !Searcher::expandable(&pos)) && v == static_value(&pos),
        SearchNode::Verdict => pos.judge_ready_spec() && pos.rule_verdict(ply) == Some(v as Score),
        SearchNode::Table => -INFINITY <= v <= INFINITY,
        SearchNode::Mated => legal_moves(&pos).len() == 0 && v == -MATE + ply,
        SearchNode::Searched { stand, children } => {
            &&& v == best_of(stand_score(stand), children, children.len() as int)
            &&& stand matches Some(s) ==> s == static_value(&pos)
            &&& forall|i: int|
                0 <= i < children.len() ==> {
                    &&& legal_at(&pos, #[trigger] children[i].0)
                    &&& pos.did_move(children[i].0, &children[i].1)
                    &&& explains(children[i].2, children[i].1, ply + 1, children[i].3 as int)
                }
        },
    }
}

/// Adding a child leaves the best of the earlier ones unchanged, and the best of
/// all is the better of that and the new child's negated score.
pub proof fn lemma_best_of_push(
    init: int,
    children: Seq<(Move, Position, SearchNode, Score)>,
    c: (Move, Position, SearchNode, Score),
    n: int,
)
    requires
        0 <= n <= children.len(),
    ensures
        best_of(init, children.push(c), n) == best_of(init, children, n),
    decreases n,
{
    if n > 0 {
        lemma_best_of_push(init, children, c, n - 1);
        assert(children.push(c)[n - 1] == children[n - 1]);
    }
}

/// A record that explains a score for one position explains it for any position
/// with the same contents.
pub proof fn lemma_explains_same(node: SearchNode, p: Position, q: Position, ply: int, v: int)
    requires
        p.same(&q),
        explains(node, p, ply, v),
    ensures
        explains(node, q, ply, v),
{
    p.lemma_same(&q);
    match node {
        SearchNode::Searched { stand, children } => {
            assert forall|i: int| 0 <= i < children.len() implies {
                &&& legal_at(&q, #[trigger] children[i].0)
                &&& q.did_move(children[i].0, &children[i].1)
                &&& explains(children[i].2, children[i].1, ply + 1, children[i].3 as int)
            } by {
                assert(legal_at(&p, children[i].0));
                assert(p.did_move(children[i].0, &children[i].1));
            }
        },
        _ => {},
    }
}

/// The moves of the children of a searched node, in the order searched.
pub open spec fn child_moves(children: Seq<(Move, Position, SearchNode, Score)>) -> Seq<Move> {
    children.map_values(|c: (Move, Position, SearchNode, Score)| c.0)
}

/// The move of the first of the first `n` children whose negated score is the
/// best (strictly above `init`); none when no child beats `init`.
pub open spec fn best_move_of(init: int, children: Seq<(Move, Position, SearchNode, Score)>, n: int) -> Option<
    Move,
>
    decreases n,
{
    if n <= 0 {
        None
    } else if -children[n - 1].3 > best_of(init, children, n - 1) {
        Some(children[n - 1].0)
    } else {
        best_move_of(init, children, n - 1)
    }
}

/// Adding a child leaves the best move among the earlier ones unchanged.
pub proof fn lemma_best_move_of_push(
    init: int,
    children: Seq<(Move, Position, SearchNode, Score)>,
    c: (Move, Position, SearchNode, Score),
    n: int,
)
    requires
        0 <= n <= children.len(),
    ensures
        best_move_of(init, children.push(c), n) == best_move_of(init, children, n),
    decreases n,
{
    if n > 0 {
        lemma_best_move_of_push(init, children, c, n - 1);
        lemma_best_of_push(init, children, c, n - 1);
        assert(children.push(c)[n - 1] == children[n - 1]);
    }
}

/// A node whose children are legal moves, each explained one ply deeper, with
/// the fail-soft best of their negated scores, explains that best.
pub proof fn lemma_searched_explains(
    pos: Position,
    ply: int,
    stand: Option<Score>,
    children: Seq<(Move, Position, SearchNode, Score)>,
    v: int,
)
    requires
        v == best_of(stand_score(stand), children, children.len() as int),
        stand matches Some(s) ==> s == static_value(&pos),
        children_explained(pos, ply, children),
    ensures
        explains(SearchNode::Searched { stand, children }, pos, ply, v),
{
}

/// Whether every child of `children` is a legal move of `pos`, leads to its
/// position and is explained one ply deeper.
pub open spec fn children_explained(pos: Position, ply: int, children: Seq<(Move, Position, SearchNode, Score)>) -> bool {
    forall|j: int|
        0 <= j < children.len() ==> {
            &&& legal_at(&pos, #[trigger] children[j].0)
            &&& pos.did_move(children[j].0, &children[j].1)
            &&& explains(children[j].2, children[j].1, ply + 1, children[j].3 as int)
        }
}

/// Adding an explained child keeps the children explained.
pub proof fn lemma_children_push(
    pos: Position,
    ply: int,
    children: Seq<(Move, Position, SearchNode, Score)>,
    c: (Move, Position, SearchNode, Score),
)
    requires
        children_explained(pos, ply, children),
        legal_at(&pos, c.0),
        pos.did_move(c.0, &c.1),
        explains(c.2, c.1, ply + 1, c.3 as int),
    ensures
        children_explained(pos, ply, children.push(c)),
{
    let t = children.push(c);
    assert forall|j: int| 0 <= j < t.len() implies {
        &&& legal_at(&pos, #[trigger] t[j].0)
        &&& pos.did_move(t[j].0, &t[j].1)
        &&& explains(t[j].2, t[j].1, ply + 1, t[j].3 as int)
    } by {
        if j < children.len() {
            assert(t[j] == children[j]);
        }
    }
}

/// A report of a search of one position reports it for any position with the same
/// contents.
pub proof fn lemma_report_ok_same(rep: IterationReport, p: Position, q: Position)
    requires
        p.same(&q),
        report_ok(rep, p),
    ensures
        report_ok(rep, q),
{
    lemma_explains_same(rep.search@, p, q, 0, rep.score as int);
}

/// The first move of `line`, or the empty move when it has none.
pub open spec fn first_move(line: Seq<Move>) -> Move {
    if line.len() > 0 {
        line[0]
    } else {
        Move(0)
    }
}

/// Whether the side to move has at most 128 pseudo-legal moves.
pub open spec fn pseudo_legal_count_fits(pos: &Position) -> bool {
    crate::movegen::pseudo_legal(pos).len() <= 128
}

/// The widest search window: the search range with some slack for the windows
/// of reduced searches.
pub const WINDOW: Score = 32513;

/// A static evaluation kept strictly between the mate thresholds.
pub open spec fn clamp_eval(e: int) -> int {
    if e >= MATE_IN_MAX_PLY {
        MATE_IN_MAX_PLY - 1
    } else if e <= -MATE_IN_MAX_PLY {
        -MATE_IN_MAX_PLY + 1
    } else {
        e
    }
}


impl Searcher {
    /// What every search call keeps: the invariants, the position (taken back to
    /// where it was), the limits, a node count that only grows, a running flag
    /// that is never set again once cleared (and is cleared only by the node limit
    /// or the clock), and the reports.
    pub open spec fn frame(old: &Searcher, new: &Searcher) -> bool {
        &&& new.inv()
        &&& new.position().same(&old.position())
        &&& new.limits() == old.limits()
        &&& new.node_count() >= old.node_count()
        &&& new.running() ==> old.running()
        &&& Searcher::stopped_by_limit(old, new)
        &&& new.reports_spec() == old.reports_spec()
    }

    /// Whether, if the search ran at `old` and no longer runs at `new`, the clock
    /// can stop it or its node count has reached the node limit.
    pub open spec fn stopped_by_limit(old: &Searcher, new: &Searcher) -> bool {
        old.running() && !new.running() ==> !old.untimed() || new.node_count()
            >= new.limits().max_nodes_spec()
    }

    /// Whether searching the position at ply `ply` returns the score the draw rules
    /// give it: the search runs, neither its nodes nor the clock can stop it, the
    /// ply is below the maximum, the rules can judge the position and settle it.
    pub open spec fn rule_applies(&self, ply: int) -> bool {
        &&& !self.stopped()
        &&& self.untimed()
        &&& ply < MAX_PLY
        &&& self.position().judge_ready_spec()
        &&& self.position().rule_verdict(ply) is Some
    }

    /// The verdict of the draw rules on the position at ply `ply`, when they can
    /// judge it; `None` otherwise.
    fn judge(&mut self, ply: u8) -> (r: Option<Score>)
        requires
            old(self).inv(),
        ensures
            *final(self) == *old(self),
            r == (if old(self).position().judge_ready_spec() {
                old(self).position().rule_verdict(ply as int)
            } else {
                None
            }),
            r matches Some(s) ==> -INFINITY <= s <= INFINITY,
    {
        if self.pos.judge_ready() {
            proof {
                self.pos.lemma_judge_ready();
            }
            let r = self.pos.rule_judge(ply);
            proof {
                self.pos.lemma_verdict_range(ply as int);
            }
            r
        } else {
            None
        }
    }

    /// Stores `entry`, found at ply `ply`, for the position in the transposition
    /// table.
    fn store_entry(&mut self, ply: u8, entry: Entry)
        requires
            old(self).inv(),
            in_search_range(entry.score as int),
            entry.depth >= -64,
        ensures
            final(self).inv(),
            final(self).position() == old(self).position(),
            final(self).limits() == old(self).limits(),
            final(self).node_count() == old(self).node_count(),
            final(self).running() == old(self).running(),
            final(self).root_line() == old(self).root_line(),
            final(self).reports_spec() == old(self).reports_spec(),
    {
        let h = self.pos.hash();
        let ghost n = self.shared.transposition_table.slots().len();
        self.shared.transposition_table.store(h, ply, entry);
        proof {
            assert(self.shared.transposition_table.slots().len() == n);
        }
    }

    /// Plays the capture or evasion `m`, searches the position reached with
    /// [`Searcher::quiescence_search`] one ply deeper, and takes the move back;
    /// returns the score from the mover's view.
    fn quiescence_child(&mut self, m: Move, depth: i8, ply: u8, alpha: Score, beta: Score) -> (r: Score)
        requires
            old(self).inv(),
            movable(&old(self).position(), m),
            Searcher::expandable(&old(self).position()),
            ply < MAX_PLY,
            -(ply as int) <= depth <= 0,
            -WINDOW <= alpha < beta <= WINDOW,
        ensures
            Searcher::frame(old(self), final(self)),
            -INFINITY <= r <= INFINITY,
            final(self).root_line() == old(self).root_line(),
            old(self).position().did_move(m, &final(self).last_child()),
            explains(final(self).last_node(), final(self).last_child(), ply + 1, -r),
        decreases MAX_PLY - ply, 0int,
    {
        let ghost p0 = self.pos;
        proof {
            p0.lemma_same_equiv(&p0, &p0);
            p0.lemma_wf_basics();
        }
        let from = m.square_from();
        let to = m.square_to();
        let moved = self.pos.piece_at(from).unwrap();
        let captured = self.pos.piece_at(to);
        let king_capture = match captured {
            Some(p) => p.piece_type() == PieceType::King,
            None => false,
        };
        let stray_king = moved.piece_type() == PieceType::King && self.pos.king_square(moved.color()).index()
            != from.index();
        if king_capture || stray_king {
            let saved = self.pos.clone();
            self.pos.do_move(m);
            let ghost p1 = self.pos;
            let score = self.quiescence_search(depth - 1, ply + 1, -beta, -alpha);
            self.pos = saved;
            self.child = Ghost(p1);
            proof {
                self.pos.lemma_same(&p0);
            }
            -score
        } else {
            self.pos.do_move(m);
            let ghost p1 = self.pos;
            proof {
                p1.lemma_same_equiv(&p1, &p1);
            }
            let score = self.quiescence_search(depth - 1, ply + 1, -beta, -alpha);
            self.child = Ghost(p1);
            let ghost p1b = self.pos;
            proof {
                p1b.lemma_same(&p1);
                p1b.lemma_same_equiv(&p1, &p1);
                p1b.lemma_wf_basics();
                assert(p0.did_move(m, &p1b));
            }
            self.pos.undo_move(m);
            proof {
                lemma_undo_after_do(&p0, &p1b, &self.pos, m);
                self.pos.lemma_same(&p0);
            }
            -score
        }
    }

    /// The quiescence search: from a position at ply `ply`, searches captures (all
    /// evasions in check) until the position is quiet, standing pat on the static
    /// evaluation out of check, within the window (`alpha`, `beta`); stores the
    /// result in the transposition table.
    #[verifier::rlimit(60)]
    fn quiescence_search(&mut self, depth: i8, ply: u8, alpha: Score, beta: Score) -> (r: Score)
        requires
            old(self).inv(),
            ply <= MAX_PLY,
            -(ply as int) <= depth <= 0,
            -WINDOW <= alpha < beta <= WINDOW,
        ensures
            Searcher::frame(old(self), final(self)),
            -INFINITY <= r <= INFINITY,
            !old(self).running() ==> r == 0,
            old(self).rule_applies(ply as int) ==> r == old(self).position().rule_verdict(ply as int)->0,
            final(self).root_line() == old(self).root_line(),
            explains(final(self).last_node(), old(self).position(), ply as int, r as int),
            final(self).last_node() is Stopped ==> !final(self).running(),
        decreases MAX_PLY - ply, 1int,
    {
        let ghost p0 = self.pos;
        proof {
            p0.lemma_same_equiv(&p0, &p0);
        }
        if self.should_stop_search() {
            self.node = Ghost(SearchNode::Stopped);
            return ZERO;
        }
        self.update_analytics(ply);
        if ply >= MAX_PLY as u8 {
            self.node = Ghost(SearchNode::Static);
            return self.static_eval();
        }
        match self.judge(ply) {
            Some(s) => {
                self.node = Ghost(SearchNode::Verdict);
                return s;
            },
            None => {},
        }
        let in_check = self.pos.is_in_check();
        let alpha_orig = alpha;
        let mut alpha = alpha;
        let mut best_score: Score = -INFINITY;
        let ghost mut stand: Option<Score> = None;
        if !in_check {
            best_score = self.static_eval();
            proof {
                stand = Some(best_score);
            }
            if best_score >= beta {
                self.node = Ghost(SearchNode::Searched { stand, children: Seq::empty() });
                return best_score;
            }
            if best_score > alpha {
                alpha = best_score;
            }
        }
        let mut best_move: Option<Move> = None;
        let tt_value = self.shared.transposition_table.probe(self.pos.hash(), ply);
        match tt_value {
            Some(value) => {
                if -INFINITY <= value.score && value.score <= INFINITY && value.is_cutoff(
                    alpha,
                    beta,
                    depth,
                ) {
                    self.node = Ghost(SearchNode::Table);
                    return value.score;
                }
                best_move = value.best_move;
            },
            None => {},
        }
        if !self.can_expand() {
            if in_check {
                self.node = Ghost(SearchNode::Static);
                return self.static_eval();
            } else {
                self.node = Ghost(SearchNode::Searched { stand, children: Seq::empty() });
                return best_score;
            }
        }
        let mut moves = move_list_new();
        let gen_type = if in_check {
            MoveGenType::Legal
        } else {
            MoveGenType::Captures
        };
        generate_moves(&self.pos, gen_type, &mut moves);
        proof {
            lemma_generated_legal(&self.pos);
            lemma_captures_legal(&self.pos);
            assert(move_list_items(moves) =~= generated(&self.pos, gen_type));
        }
        let ghost generated_moves = move_list_items(moves);
        let len = move_list_len(&moves);
        if in_check && len == 0 {
            self.node = Ghost(SearchNode::Mated);
            return mated_in(ply);
        }
        self.sort_moves(&mut moves, best_move, ply);
        proof {
            assert forall|j: int| 0 <= j < len implies legal_at(&p0, #[trigger] move_list_items(moves)[j]) by {
                let items = move_list_items(moves);
                items.to_multiset_ensures();
                generated_moves.to_multiset_ensures();
                assert(items.contains(items[j]));
                assert(items.to_multiset().count(items[j]) > 0);
                assert(generated_moves.to_multiset().count(items[j]) > 0);
                assert(generated_moves.contains(items[j]));
            }
        }
        let ghost mut trace: Seq<(Move, Position, SearchNode, Score)> = Seq::empty();
        let mut i: usize = 0;
        while i < len
            invariant_except_break
                -WINDOW <= alpha < beta <= WINDOW,
            invariant
                self.inv(),
                self.pos.same(&p0),
                p0.wf(),
                Searcher::expandable(&p0),
                movable_from(&p0, move_list_items(moves), 0),
                len == move_list_items(moves).len(),
                i <= len,
                ply < MAX_PLY,
                -(ply as int) <= depth <= 0,
                -INFINITY <= best_score <= INFINITY,
                self.running(),
                old(self).running(),
                p0 == old(self).position(),
                !old(self).rule_applies(ply as int),
                self.limits() == old(self).limits(),
                self.node_count() >= old(self).node_count(),
                self.reports_spec() == old(self).reports_spec(),
                self.root_line() == old(self).root_line(),
                forall|j: int| 0 <= j < len ==> legal_at(&p0, #[trigger] move_list_items(moves)[j]),
                best_score == best_of(stand_score(stand), trace, trace.len() as int),
                stand matches Some(s) ==> s == static_value(&p0),
                children_explained(p0, ply as int, trace),
            decreases len - i,
        {
            let m = move_list_get(&moves, i);
            let ghost pre = self.pos;
            proof {
                self.pos.lemma_same(&p0);
                assert(movable(&p0, m));
            }
            let score = self.quiescence_child(m, depth, ply, alpha, beta);
            proof {
                self.pos.lemma_same_equiv(&pre, &p0);
                pre.lemma_same(&p0);
                let c = (m, self.last_child(), self.last_node(), (-score) as Score);
                lemma_best_of_push(stand_score(stand), trace, c, trace.len() as int);
                lemma_children_push(p0, ply as int, trace, c);
                trace = trace.push(c);
            }
            if !self.shared.keep_running {
                self.node = Ghost(SearchNode::Stopped);
                return ZERO;
            }
            if score > best_score {
                best_score = score;
                best_move = Some(m);
                if score > alpha {
                    alpha = score;
                }
            }
            if alpha >= beta {
                break;
            }
            i = i + 1;
        }
        proof {
            self.pos.lemma_same(&p0);
        }
        let flag = Bound::with_score(best_score, alpha_orig, beta);
        if depth >= -64 {
            self.store_entry(ply, Entry { score: best_score, best_move, bound: flag, depth });
        }
        proof {
            lemma_searched_explains(p0, ply as int, stand, trace, best_score as int);
        }
        self.node = Ghost(SearchNode::Searched { stand, children: trace });
        best_score
    }
}


impl Searcher {
    /// Plays the legal move `m` and searches the position reached one ply deeper:
    /// the first move with the full window (one ply further when the node is
    /// singular), later ones with [`Searcher::pv_search`]; takes the move back and
    /// returns the score from the mover's view.
    fn negamax_child<const PV: bool>(
        &mut self,
        m: Move,
        depth: i8,
        ply: u8,
        alpha: Score,
        beta: Score,
        first: bool,
        singular: bool,
    ) -> (r: Score)
        requires
            old(self).inv(),
            movable(&old(self).position(), m),
            Searcher::expandable(&old(self).position()),
            ply < MAX_PLY,
            1 <= depth <= 127,
            -WINDOW <= alpha < beta <= WINDOW,
        ensures
            Searcher::frame(old(self), final(self)),
            -INFINITY <= r <= INFINITY,
            final(self).root_line() == old(self).root_line(),
            old(self).position().did_move(m, &final(self).last_child()),
            explains(final(self).last_node(), final(self).last_child(), ply + 1, -r),
        decreases MAX_PLY - ply, 3int,
    {
        let ghost p0 = self.pos;
        proof {
            p0.lemma_same_equiv(&p0, &p0);
            p0.lemma_wf_basics();
        }
        let from = m.square_from();
        let to = m.square_to();
        let moved = self.pos.piece_at(from).unwrap();
        let captured = self.pos.piece_at(to);
        let king_capture = match captured {
            Some(p) => p.piece_type() == PieceType::King,
            None => false,
        };
        let stray_king = moved.piece_type() == PieceType::King && self.pos.king_square(moved.color()).index()
            != from.index();
        let child_depth: i8 = if singular {
            depth
        } else {
            depth - 1
        };
        if king_capture || stray_king {
            let saved = self.pos.clone();
            self.pos.do_move(m);
            let ghost p1 = self.pos;
            let score = if first {
                -self.negamax::<PV>(child_depth, ply + 1, -beta, -alpha, SearchContext::default())
            } else {
                self.pv_search::<PV>(depth, ply, alpha, beta)
            };
            self.pos = saved;
            self.child = Ghost(p1);
            proof {
                self.pos.lemma_same(&p0);
            }
            score
        } else {
            self.pos.do_move(m);
            let ghost p1 = self.pos;
            proof {
                p1.lemma_same_equiv(&p1, &p1);
            }
            let score = if first {
                -self.negamax::<PV>(child_depth, ply + 1, -beta, -alpha, SearchContext::default())
            } else {
                self.pv_search::<PV>(depth, ply, alpha, beta)
            };
            self.child = Ghost(p1);
            let ghost p1b = self.pos;
            proof {
                p1b.lemma_same(&p1);
                p1b.lemma_same_equiv(&p1, &p1);
                p1b.lemma_wf_basics();
                assert(p0.did_move(m, &p1b));
            }
            self.pos.undo_move(m);
            proof {
                lemma_undo_after_do(&p0, &p1b, &self.pos, m);
                self.pos.lemma_same(&p0);
            }
            score
        }
    }

    /// Principal-variation search of the position just reached from ply `ply`: a
    /// null-window search first, and a full-window search when its score falls
    /// inside the window; returns the score from the mover's view.
    pub fn pv_search<const PV: bool>(&mut self, depth: i8, ply: u8, alpha: Score, beta: Score) -> (r: Score)
        requires
            old(self).inv(),
            ply < MAX_PLY,
            1 <= depth <= 127,
            -WINDOW <= alpha < beta <= WINDOW,
        ensures
            Searcher::frame(old(self), final(self)),
            -INFINITY <= r <= INFINITY,
            !old(self).running() ==> r == 0,
            final(self).root_line() == old(self).root_line(),
            old(self).rule_applies(ply + 1) ==> r == -old(self).position().rule_verdict(ply + 1)->0,
            explains(final(self).last_node(), old(self).position(), ply + 1, -r),
        decreases MAX_PLY - ply, 2int,
    {
        let ghost p0 = self.pos;
        let ghost s0 = *self;
        proof {
            p0.lemma_same_equiv(&p0, &p0);
        }
        let mut score = -self.negamax::<false>(
            depth - 1,
            ply + 1,
            -alpha - 1,
            -alpha,
            SearchContext::default(),
        );
        if alpha < score && score < beta {
            let ghost p1 = self.pos;
            proof {
                p1.lemma_same(&p0);
                assert(s0.rule_applies(ply + 1) ==> self.rule_applies(ply + 1));
            }
            score = -self.negamax::<PV>(depth - 1, ply + 1, -beta, -alpha, SearchContext::default());
            proof {
                self.pos.lemma_same_equiv(&p1, &p0);
                lemma_explains_same(self.last_node(), p1, p0, ply + 1, -score);
            }
        }
        score
    }

    /// Whether the move from the table is singular at this node: with the table
    /// entry deep enough, exact or a lower bound and not a mate score, searching
    /// the node without that move, less deep, fails low against the entry's score
    /// less a margin of twice the depth.
    fn singular_extension(&mut self, depth: i8, ply: u8, ctx: &SearchContext, value: &Entry) -> (r: bool)
        requires
            old(self).inv(),
            ply < MAX_PLY,
            0 <= depth <= 127,
        ensures
            Searcher::frame(old(self), final(self)),
            ply > 0 ==> final(self).root_line() == old(self).root_line(),
            ply == 0 ==> final(self).root_line() == old(self).root_line() || (final(self).running()
                ==> final(self).root_line_ok(&old(self).position())),
        decreases MAX_PLY - ply, 5int,
    {
        let ghost p0 = self.pos;
        proof {
            p0.lemma_same_equiv(&p0, &p0);
        }
        if depth >= 8 && ctx.excluded_move.is_none() && value.depth >= depth - 3 && value.bound
            != Bound::Alpha && value.score < MATE_IN_MAX_PLY && value.score > -MATE_IN_MAX_PLY {
            match value.best_move {
                Some(tt_move) => {
                    if tt_move.is_none() {
                        return false;
                    }
                    let rdepth = depth - 3;
                    let rbeta = value.score - 2 * depth as Score;
                    let score = self.negamax::<false>(
                        rdepth,
                        ply,
                        rbeta - 1,
                        rbeta,
                        SearchContext { excluded_move: tt_move, extensions: 0 },
                    );
                    score < rbeta
                },
                None => false,
            }
        } else {
            false
        }
    }

    /// The fail-soft alpha-beta negamax search of the position at ply `ply` to
    /// depth `depth` within the window (`alpha`, `beta`), `ctx` naming a move to
    /// leave out. The draw rules settle the position first; a side in check
    /// searches one ply deeper; depth 0 turns to the quiescence search; the table
    /// may cut the search short (never in a principal-variation node, `PV`) and
    /// orders moves with its best move; a position without legal move is lost;
    /// one legal move searches one ply deeper, and so does a singular table move.
    /// The best move raises the line of the ply; a quiet move failing high
    /// becomes a killer move and gains history. The result goes to the table.
    #[verifier::rlimit(100)]
    #[verifier::spinoff_prover]
    pub fn negamax<const PV: bool>(
        &mut self,
        depth: i8,
        ply: u8,
        alpha: Score,
        beta: Score,
        ctx: SearchContext,
    ) -> (r: Score)
        requires
            old(self).inv(),
            ply <= MAX_PLY,
            0 <= depth <= 127,
            -WINDOW <= alpha < beta <= WINDOW,
        ensures
            Searcher::frame(old(self), final(self)),
            -INFINITY <= r <= INFINITY,
            !old(self).running() ==> r == 0,
            old(self).rule_applies(ply as int) ==> r == old(self).position().rule_verdict(ply as int)->0,
            old(self).rule_applies(ply as int) ==> final(self).node_count() == old(self).node_count()
                && final(self).running() == old(self).running(),
            PV && !old(self).stopped() && old(self).untimed() && ply < MAX_PLY && !(
            old(self).position().judge_ready_spec() && old(self).position().rule_verdict(ply as int) is Some)
                && depth >= 1 && Searcher::expandable(&old(self).position()) && legal_moves(
                &old(self).position(),
            ).len() == 0 ==> r == -MATE + ply,
            ply > 0 ==> final(self).root_line() == old(self).root_line(),
            ply == 0 && final(self).running() ==> final(self).root_line_ok(&old(self).position()),
            explains(final(self).last_node(), old(self).position(), ply as int, r as int),
            final(self).last_node() is Stopped ==> !final(self).running(),
            PV && depth >= 1 ==> !(final(self).last_node() is Table),
            final(self).last_node() is Table ==> (!PV && old(self).table_cuts(
                if old(self).position().in_check_spec() && depth < 127 {
                    depth + 1
                } else {
                    depth as int
                },
                ply as int,
                alpha as int,
                beta as int,
                r as int,
            )) || (depth == 0 && !old(self).position().in_check_spec()),
            depth >= 1 && legal_moves(&old(self).position()).len() == 0 ==> !(final(self).last_node() is Searched),
            depth >= 1 && ctx.excluded_move.0 == 0 ==> (final(self).last_node() matches SearchNode::Searched {
                stand,
                children,
            } ==> stand is None && (child_moves(children).to_multiset() == legal_moves(
                &old(self).position(),
            ).to_multiset() || r >= beta)),
            ply == 0 && depth >= 1 && final(self).running() && -INFINITY <= alpha < r ==> (final(self).last_node() matches SearchNode::Searched {
                stand,
                children,
            } ==> final(self).root_line().len() > 0 && Some(final(self).root_line()[0]) == best_move_of(
                stand_score(stand),
                children,
                children.len() as int,
            )),
        decreases MAX_PLY - ply, if ctx.excluded_move.0 == 0 {
            6int
        } else {
            4int
        },
    {
        let ghost p0 = self.pos;
        proof {
            p0.lemma_same_equiv(&p0, &p0);
        }
        if self.should_stop_search() {
            self.node = Ghost(SearchNode::Stopped);
            return ZERO;
        }
        self.pv_table.clear_line(ply);
        proof {
            assert(ply > 0 ==> self.root_line() == old(self).root_line());
            assert(ply == 0 ==> self.root_line().len() == 0);
        }
        if ply >= MAX_PLY as u8 {
            self.node = Ghost(SearchNode::Static);
            return self.static_eval();
        }
        match self.judge(ply) {
            Some(s) => {
                self.node = Ghost(SearchNode::Verdict);
                return s;
            },
            None => {},
        }
        let alpha_orig = alpha;
        let mut alpha = alpha;
        let mut best_score: Score = -INFINITY;
        let mut best_move: Option<Move> = None;
        let mut depth = depth;
        if self.pos.is_in_check() && depth < 127 {
            depth = depth + 1;
        }
        if depth == 0 {
            return self.quiescence_search(0, ply, alpha, beta);
        }
        self.update_analytics(ply);
        let mut is_singular = false;
        let tt_value = self.shared.transposition_table.probe(self.pos.zobrist_hash(), ply);
        match tt_value {
            Some(value) => {
                if !PV && -INFINITY <= value.score && value.score <= INFINITY && value.is_cutoff(
                    alpha,
                    beta,
                    depth,
                ) {
                    self.node = Ghost(SearchNode::Table);
                    return value.score;
                }
                best_move = value.best_move;
                if ctx.excluded_move.is_none() {
                    let ghost pre = self.pos;
                    is_singular = self.singular_extension(depth, ply, &ctx, &value);
                    proof {
                        self.pos.lemma_same_equiv(&pre, &p0);
                    }
                }
            },
            None => {},
        }
        proof {
            self.pos.lemma_same(&p0);
        }
        if !self.can_expand() {
            self.node = Ghost(SearchNode::Static);
            return self.static_eval();
        }
        let mut moves = move_list_new();
        generate_moves(&self.pos, MoveGenType::Legal, &mut moves);
        proof {
            lemma_generated_legal(&self.pos);
            self.pos.lemma_same(&p0);
            assert(move_list_items(moves) == legal_moves(&p0));
        }
        let ghost generated_moves = move_list_items(moves);
        let len = move_list_len(&moves);
        if len == 0 {
            self.node = Ghost(SearchNode::Mated);
            return mated_in(ply);
        }
        if len == 1 && ctx.excluded_move.is_none() && depth < 127 {
            depth = depth + 1;
        }
        self.sort_moves(&mut moves, best_move, ply);
        proof {
            assert forall|j: int| 0 <= j < len implies legal_at(&p0, #[trigger] move_list_items(moves)[j]) by {
                let items = move_list_items(moves);
                items.to_multiset_ensures();
                generated_moves.to_multiset_ensures();
                assert(items.contains(items[j]));
                assert(items.to_multiset().count(items[j]) > 0);
                assert(generated_moves.to_multiset().count(items[j]) > 0);
            }
        }
        let ghost mut trace: Seq<(Move, Position, SearchNode, Score)> = Seq::empty();
        let mut moves_played: u32 = 0;
        let mut i: usize = 0;
        while i < len
            invariant_except_break
                -WINDOW <= alpha < beta <= WINDOW,
                moves_played <= i,
                ctx.excluded_move.0 == 0 ==> trace.len() == i,
            invariant
                self.inv(),
                self.pos.same(&p0),
                p0.wf(),
                Searcher::expandable(&p0),
                movable_from(&p0, move_list_items(moves), 0),
                len == move_list_items(moves).len(),
                len <= 128,
                i <= len,
                moves_played <= len,
                ply < MAX_PLY,
                1 <= depth <= 127,
                -INFINITY <= best_score <= INFINITY,
                p0 == old(self).position(),
                !old(self).rule_applies(ply as int),
                self.limits() == old(self).limits(),
                self.node_count() >= old(self).node_count(),
                self.reports_spec() == old(self).reports_spec(),
                self.running() ==> old(self).running(),
                Searcher::stopped_by_limit(old(self), self),
                forall|j: int| 0 <= j < len ==> legal_at(&p0, #[trigger] move_list_items(moves)[j]),
                ply > 0 ==> self.root_line() == old(self).root_line(),
                ply == 0 ==> (self.running() ==> self.root_line_ok(&p0)),
                best_score == best_of(-INFINITY, trace, trace.len() as int),
                children_explained(p0, ply as int, trace),
                alpha >= alpha_orig,
                alpha > alpha_orig ==> alpha == best_score,
                alpha_orig >= -INFINITY ==> (best_score > alpha_orig ==> alpha > alpha_orig),
                ply == 0 && alpha > alpha_orig ==> self.root_line().len() > 0 && Some(self.root_line()[0])
                    == best_move_of(-INFINITY, trace, trace.len() as int),
                alpha_orig < beta,
                move_list_items(moves).to_multiset() == legal_moves(&p0).to_multiset(),
                len == legal_moves(&p0).len(),
                ctx.excluded_move.0 == 0 ==> (forall|j: int|
                    0 <= j < trace.len() ==> #[trigger] trace[j].0 == move_list_items(moves)[j]) && (
                trace.len() == i || (trace.len() == i + 1 && best_score >= beta)),
            ensures
                ctx.excluded_move.0 == 0 ==> (forall|j: int|
                    0 <= j < trace.len() ==> #[trigger] trace[j].0 == move_list_items(moves)[j]) && (
                trace.len() == len || best_score >= beta),
            decreases len - i,
        {
            let m = move_list_get(&moves, i);
            if m != ctx.excluded_move {
                let ghost pre = self.pos;
                proof {
                    self.pos.lemma_same(&p0);
                    assert(movable(&p0, m));
                    assert(m.0 == 0 ==> m.from_idx() == m.to_idx());
                }
                let score = self.negamax_child::<PV>(m, depth, ply, alpha, beta, moves_played == 0, is_singular);
                proof {
                    self.pos.lemma_same_equiv(&pre, &p0);
                    self.pos.lemma_same(&p0);
                    pre.lemma_same(&p0);
                    let c = (m, self.last_child(), self.last_node(), (-score) as Score);
                    lemma_best_of_push(-INFINITY, trace, c, trace.len() as int);
                    lemma_best_move_of_push(-INFINITY, trace, c, trace.len() as int);
                    lemma_children_push(p0, ply as int, trace, c);
                    let old_trace = trace;
                    trace = trace.push(c);
                    assert(forall|j: int| 0 <= j < old_trace.len() ==> trace[j] == old_trace[j]);
                }
                moves_played = moves_played + 1;
                if !self.shared.keep_running {
                    self.node = Ghost(SearchNode::Stopped);
                    return ZERO;
                }
                if score > best_score {
                    best_score = score;
                    best_move = Some(m);
                    if score > alpha {
                        alpha = score;
                        self.pv_table.update_best_move(ply, m);
                    }
                }
                if alpha >= beta {
                    if self.pos.is_empty(m.square_to()) {
                        self.killer_moves.update(m, ply);
                        let side = self.pos.side_to_move();
                        let h = self.shared.history_moves.get(side, m);
                        let d = depth as i64;
                        assert(1 <= d * d <= 16129) by (nonlinear_arith)
                            requires
                                1 <= d <= 127,
                        ;
                        if h as i64 + d * d <= i32::MAX as i64 {
                            self.shared.history_moves.increase(side, m, depth);
                        }
                    }
                    break;
                }
            }
            i = i + 1;
        }
        proof {
            self.pos.lemma_same(&p0);
        }
        proof {
            if ctx.excluded_move.0 == 0 && trace.len() == len {
                assert(child_moves(trace) =~= move_list_items(moves));
            }
            lemma_searched_explains(p0, ply as int, None, trace, best_score as int);
        }
        let bound = Bound::with_score(best_score, alpha_orig, beta);
        self.store_entry(ply, Entry { score: best_score, best_move, bound, depth });
        self.node = Ghost(SearchNode::Searched { stand: None, children: trace });
        best_score
    }
}


impl Searcher {
    /// The reports of the completed iterations, in order.
    pub fn reports(&self) -> (r: &Vec<IterationReport>) {
        &self.reports
    }

    /// Searches the root to depth `depth` in a window around `score`, the score of
    /// the previous iteration, widening the window on the failing side (and
    /// searching less deep after each fail high) until the score falls inside or
    /// the window spans every score.
    #[verifier::rlimit(40)]
    pub fn aspiration_search(&mut self, score: Score, depth: i8) -> (r: Score)
        requires
            old(self).inv(),
            1 <= depth <= 127,
            -INFINITY <= score <= INFINITY,
        ensures
            Searcher::frame(old(self), final(self)),
            -INFINITY <= r <= INFINITY,
            !old(self).running() ==> r == 0,
            final(self).running() ==> final(self).root_line_ok(&old(self).position()),
            old(self).rule_applies(0) ==> r == old(self).position().rule_verdict(0)->0,
            explains(final(self).last_node(), old(self).position(), 0, r as int),
            final(self).last_node() is Stopped ==> !final(self).running(),
            !(final(self).last_node() is Table),
    {
        let ghost p0 = self.pos;
        proof {
            p0.lemma_same_equiv(&p0, &p0);
        }
        let mut delta: Score = if 25 - depth as Score > 10 {
            25 - depth as Score
        } else {
            10
        };
        let mut alpha: Score = if score - delta > -INFINITY {
            score - delta
        } else {
            -INFINITY
        };
        let mut beta: Score = if score + delta < INFINITY {
            score + delta
        } else {
            INFINITY
        };
        let mut consecutive_fail_high: i8 = 0;
        let mut rounds: u32 = 0;
        loop
            invariant
                self.inv(),
                self.pos.same(&p0),
                p0 == old(self).position(),
                self.limits() == old(self).limits(),
                self.node_count() >= old(self).node_count(),
                self.reports_spec() == old(self).reports_spec(),
                self.running() ==> old(self).running(),
                Searcher::stopped_by_limit(old(self), self),
                !old(self).running() ==> !self.running(),
                1 <= depth <= 127,
                -INFINITY <= alpha < beta <= INFINITY,
                10 <= delta <= 2_000_000,
                rounds <= 20,
                0 <= consecutive_fail_high <= rounds,
                rounds > 0 ==> (self.running() ==> self.root_line_ok(&p0)),
                old(self).rule_applies(0) ==> self.node_count() == old(self).node_count() && self.running()
                    == old(self).running(),
            decreases 20 - rounds,
        {
            let search_depth: i8 = if depth - consecutive_fail_high > 1 {
                depth - consecutive_fail_high
            } else {
                1
            };
            let ghost pre = self.pos;
            proof {
                pre.lemma_same(&p0);
                assert(old(self).rule_applies(0) ==> self.rule_applies(0));
            }
            let s = self.negamax::<true>(search_depth, 0, alpha, beta, SearchContext::default());
            proof {
                self.pos.lemma_same_equiv(&pre, &p0);
                lemma_explains_same(self.last_node(), pre, p0, 0, s as int);
            }
            if !self.shared.keep_running {
                self.node = Ghost(SearchNode::Stopped);
                return ZERO;
            }
            if s > alpha && s < beta {
                return s;
            }
            if (alpha == -INFINITY && beta == INFINITY) || rounds == 20 {
                return s;
            }
            if s <= alpha {
                alpha = if alpha - delta > -INFINITY {
                    alpha - delta
                } else {
                    -INFINITY
                };
                beta = if s + delta < INFINITY {
                    s + delta
                } else {
                    INFINITY
                };
                if beta <= alpha {
                    beta = alpha + 1;
                }
                consecutive_fail_high = 0;
            } else {
                beta = if beta + delta < INFINITY {
                    beta + delta
                } else {
                    INFINITY
                };
                alpha = if s - delta > -INFINITY {
                    s - delta
                } else {
                    -INFINITY
                };
                if alpha >= beta {
                    alpha = beta - 1;
                }
                consecutive_fail_high = consecutive_fail_high + 1;
            }
            if delta < 1_000_000 {
                delta = delta * 2;
            }
            rounds = rounds + 1;
        }
    }

    /// Deepens the search one ply at a time up to the depth limit, with aspiration
    /// windows from depth 6 on, recording a report of each completed iteration;
    /// stops when told to or once the soft time limit is reached after an
    /// iteration. Returns the first move of the best line of the last completed
    /// iteration (the empty move when none completed).
    #[verifier::rlimit(40)]
    pub fn iterative_deepening(&mut self) -> (r: Move)
        requires
            old(self).inv(),
        ensures
            final(self).inv(),
            final(self).position().same(&old(self).position()),
            final(self).limits() == old(self).limits(),
            final(self).node_count() >= old(self).node_count(),
            final(self).running() ==> old(self).running(),
            final(self).reports_spec().len() >= old(self).reports_spec().len(),
            final(self).reports_spec().subrange(0, old(self).reports_spec().len() as int)
                == old(self).reports_spec(),
            final(self).reports_spec().len() == old(self).reports_spec().len() ==> r == Move(0),
            final(self).reports_spec().len() > old(self).reports_spec().len() ==> r == first_move(
                final(self).reports_spec().last().pv@,
            ),
            r == Move(0) || legal_at(&old(self).position(), r),
            Searcher::stopped_by_limit(old(self), final(self)),
            final(self).running() && old(self).root_depth() < old(self).limits().max_depth_spec() && 0
                < old(self).limits().max_depth_spec() ==> final(self).reports_spec().len() > old(
                self,
            ).reports_spec().len(),
            forall|k: int|
                old(self).reports_spec().len() <= k < final(self).reports_spec().len() ==> report_ok(
                    #[trigger] final(self).reports_spec()[k],
                    old(self).position(),
                ),
            ({
                let start: int = if old(self).root_depth() < 0 {
                    0
                } else {
                    old(self).root_depth() as int
                };
                let max: int = old(self).limits().max_depth_spec() as int;
                let n0 = old(self).reports_spec().len() as int;
                &&& forall|k: int|
                    n0 <= k < final(self).reports_spec().len() ==> (#[trigger] final(self).reports_spec()[k]).depth
                        == start + (k - n0) + 1
                &&& old(self).limits().soft_spec() is None && final(self).running()
                    ==> final(self).reports_spec().len() - n0 == (if start < max {
                    max - start
                } else {
                    0
                })
            }),
    {
        let ghost p0 = self.pos;
        proof {
            p0.lemma_same_equiv(&p0, &p0);
        }
        let mut last_best_score: Score = -INFINITY;
        let mut last_best_move = Move::none();
        let max_depth = self.time_manager.max_depth();
        let mut current: i8 = if self.current_root_depth < 0 {
            0
        } else {
            self.current_root_depth
        };
        let ghost start = current;
        while current < max_depth
            invariant
                self.inv(),
                self.pos.same(&p0),
                p0 == old(self).position(),
                self.limits() == old(self).limits(),
                self.node_count() >= old(self).node_count(),
                self.running() ==> old(self).running(),
                Searcher::stopped_by_limit(old(self), self),
                max_depth == self.limits().max_depth_spec(),
                0 <= current,
                -INFINITY <= last_best_score <= INFINITY,
                self.reports_spec().len() >= old(self).reports_spec().len(),
                self.reports_spec().subrange(0, old(self).reports_spec().len() as int)
                    == old(self).reports_spec(),
                self.reports_spec().len() == old(self).reports_spec().len() ==> last_best_move == Move(0),
                self.reports_spec().len() > old(self).reports_spec().len() ==> last_best_move
                    == first_move(self.reports_spec().last().pv@),
                last_best_move == Move(0) || legal_at(&p0, last_best_move),
                current > start ==> self.reports_spec().len() > old(self).reports_spec().len()
                    || !self.running(),
                start == (if old(self).root_depth() < 0 {
                    0
                } else {
                    old(self).root_depth()
                }),
                start <= current,
                forall|k: int|
                    old(self).reports_spec().len() <= k < self.reports_spec().len() ==> report_ok(
                        #[trigger] self.reports_spec()[k],
                        p0,
                    ),
                forall|k: int|
                    old(self).reports_spec().len() <= k < self.reports_spec().len() ==> (
                    #[trigger] self.reports_spec()[k]).depth == start + (k - old(self).reports_spec().len()) + 1,
                self.reports_spec().len() - old(self).reports_spec().len() <= current - start,
                self.running() ==> self.reports_spec().len() - old(self).reports_spec().len() == current
                    - start,
                current <= max_depth || current == start,
            ensures
                current > start || start >= max_depth,
                old(self).limits().soft_spec() is None && self.running() ==> current == max_depth || (current
                    == start && start >= max_depth),
            decreases max_depth - current,
        {
            current = current + 1;
            self.current_root_depth = current;
            let depth = current;
            let ghost pre = self.pos;
            let score = if depth >= 6 {
                self.aspiration_search(last_best_score, depth)
            } else {
                self.negamax::<true>(depth, 0, -INFINITY, INFINITY, SearchContext::default())
            };
            proof {
                self.pos.lemma_same_equiv(&pre, &p0);
                pre.lemma_same(&p0);
                lemma_explains_same(self.last_node(), pre, p0, 0, score as int);
            }
            if !self.shared.keep_running {
                break;
            }
            proof {
                assert(self.root_line_ok(&p0));
            }
            last_best_score = score;
            let line = self.pv_table.get_line(0);
            last_best_move = if line.len() > 0 {
                line[0]
            } else {
                Move::none()
            };
            let ghost line_view = line@;
            let report = IterationReport {
                depth,
                seldepth: self.max_ply,
                score,
                nodes: self.nodes,
                hashfull: self.shared.transposition_table.hashfull(),
                pv: line,
                search: Ghost(self.last_node()),
            };
            let ghost before = self.reports@;
            self.reports.push(report);
            proof {
                assert(report_ok(self.reports@.last(), p0));
                assert(self.reports@.last().pv@ == line_view);
                assert(self.reports@.subrange(0, old(self).reports_spec().len() as int) =~= before.subrange(
                    0,
                    old(self).reports_spec().len() as int,
                ));
            }
            if self.time_manager.is_soft_bound_reached() {
                break;
            }
        }
        last_best_move
    }

    /// Searches `pos` within the limits of `time_manager`: fades the history scores
    /// first, marks the search as running, deepens (see
    /// [`Searcher::iterative_deepening`]) and marks it as stopped. Returns the best
    /// move, the reports of the iterations, and the shared context.
    pub fn start_search(pos: Position, time_manager: TimeManager, shared: SharedContext) -> (r: (
        Move,
        Vec<IterationReport>,
        u64,
        SharedContext,
    ))
        requires
            pos.wf(),
            shared.wf(),
        ensures
            r.3.wf(),
            !r.3.keep_running,
            r.0 == Move(0) || legal_at(&pos, r.0),
            r.1@.len() == 0 ==> r.0 == Move(0),
            r.1@.len() > 0 ==> r.0 == first_move(r.1@.last().pv@),
            r.1@.len() == 0 && time_manager.max_depth_spec() >= 1 ==> time_manager.hard_spec() is Some
                || r.2 >= time_manager.max_nodes_spec(),
            forall|k: int| 0 <= k < r.1@.len() ==> report_ok(#[trigger] r.1@[k], pos),
            forall|k: int| 0 <= k < r.1@.len() ==> (#[trigger] r.1@[k]).depth == k + 1,
            time_manager.soft_spec() is None && time_manager.hard_spec() is None && r.2
                < time_manager.max_nodes_spec() ==> r.1@.len() == (if time_manager.max_depth_spec() > 0 {
                time_manager.max_depth_spec() as int
            } else {
                0
            }),
    {
        let mut shared = shared;
        shared.history_moves.decay();
        shared.keep_running = true;
        let mut search = Searcher::new(pos, time_manager, shared);
        let answer = search.iterative_deepening();
        let mut reports: Vec<IterationReport> = Vec::new();
        std::mem::swap(&mut reports, &mut search.reports);
        let nodes = search.nodes();
        let mut shared = search.into_shared();
        shared.keep_running = false;
        (answer, reports, nodes, shared)
    }
}

} // verus!
