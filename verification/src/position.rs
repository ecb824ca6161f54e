//! The game state: the board, piece bitboards, Zobrist hashing, incremental
//! evaluation, move execution and undo, check detection and the draw rules.
use crate::bitboard::{Bitboard, file_set, rank_set};
use crate::boardspec::{
    color_set, count_fold, count_spec, hash_fold, hash_spec, lcg_iter, lcg_step, lemma_count_bound, lemma_xor_props,
    lemma_count_pos, lemma_count_update, lemma_hash_update, lemma_phase_bounds, lemma_phase_update,
    lemma_score_bounds, lemma_score_update, occ_set, phase_spec, score_spec, side_key, square_key,
    square_phase, square_score, type_set, zobrist_keys, zobrist_seed,
};
use crate::eval::values::{
    lemma_piece_value_bounds, phase_weight_spec, piece_phase_weight, piece_value, piece_value_spec,
};
use crate::leapers::{
    knight_attacks_to, knight_to_set, pawn_attacks_to, pawn_to_set,
};
use crate::score::{PackedScore, small};
use crate::sliding::{cannon_capture_set, cannon_captures, rook_attacks, rook_set, shares_line};
use crate::types::{
    Move, Piece, PieceType, Side, Square, lemma_piece_parts, lemma_square_from_idx,
    lemma_square_idx,
};
use vstd::prelude::*;

pub mod rules;
pub mod setup;
pub mod display;
pub mod laws;

verus! {

broadcast use {lemma_square_idx, lemma_square_from_idx, lemma_piece_parts};

/// The Knuth MMIX linear congruential generator, used to produce the Zobrist keys.
pub struct Lcg {
    state: u64,
}

impl Lcg {
    /// The current state of the generator.
    pub closed spec fn state_spec(&self) -> u64 {
        self.state
    }

    /// A generator starting from `seed`.
    pub fn new(seed: u64) -> (r: Lcg)
        ensures
            r.state_spec() == seed,
    {
        Lcg { state: seed }
    }

    /// Advances the generator and returns the new state.
    pub fn next(&mut self) -> (r: u64)
        ensures
            r == lcg_step(old(self).state_spec()),
            final(self).state_spec() == r,
    {
        let m = self.state.wrapping_mul(6364136223846793005);
        let r = m.wrapping_add(1442695040888963407);
        proof {
            let a = m as nat;
            let c = 1442695040888963407nat;
            assert(a < 0x1_0000_0000_0000_0000);
            if a + c > u64::MAX {
                assert((a + c) % 0x1_0000_0000_0000_0000 == a + c - 0x1_0000_0000_0000_0000)
                    by (nonlinear_arith)
                    requires
                        a + c > 0xFFFF_FFFF_FFFF_FFFF,
                        a < 0x1_0000_0000_0000_0000,
                        c < 0x1_0000_0000_0000_0000,
                ;
            } else {
                assert((a + c) % 0x1_0000_0000_0000_0000 == a + c) by (nonlinear_arith)
                    requires
                        a + c <= 0xFFFF_FFFF_FFFF_FFFF,
                ;
            }
        }
        self.state = r;
        r
    }
}

/// The random keys of Zobrist hashing: one per (piece representation, square) pair,
/// then one XOR-ed in when Black is to move.
pub struct ZobristTable {
    keys: Vec<u64>,
}

impl ZobristTable {
    /// The keys, in order.
    pub closed spec fn keys_spec(&self) -> Seq<u64> {
        self.keys@
    }

    /// Generates the keys with the linear congruential generator from a fixed seed.
    pub fn init() -> (r: ZobristTable)
        ensures
            r.keys_spec() == zobrist_keys(),
    {
        let seed: u64 = 202416124 ^ 202400076 ^ 2416167;
        let mut prng = Lcg::new(seed);
        let mut keys: Vec<u64> = Vec::new();
        let mut i: usize = 0;
        while i < 1351
            invariant
                i <= 1351,
                keys@.len() == i,
                seed == zobrist_seed(),
                prng.state_spec() == lcg_iter(seed, i as nat),
                forall|j: int| 0 <= j < i ==> #[trigger] keys@[j] == lcg_iter(seed, (j + 1) as nat),
            decreases 1351 - i,
        {
            let k = prng.next();
            keys.push(k);
            i = i + 1;
        }
        let r = ZobristTable { keys };
        assert(r.keys_spec() =~= zobrist_keys());
        r
    }

    /// The key of piece `p` on square `s`.
    fn piece_key(&self, p: Piece, s: Square) -> (r: u64)
        requires
            self.keys_spec() == zobrist_keys(),
        ensures
            r == square_key(self.keys_spec(), Some(p), s.idx()),
    {
        self.keys[p.index() * 90 + s.index() as usize]
    }

    /// The key XOR-ed in when Black is to move.
    fn side(&self) -> (r: u64)
        requires
            self.keys_spec() == zobrist_keys(),
        ensures
            r == side_key(self.keys_spec()),
    {
        self.keys[1350]
    }
}

/// Squares holding a piece of side `c` and type `t`.
pub open spec fn side_type_set(b: Seq<Option<Piece>>, c: Side, t: PieceType) -> Set<int> {
    color_set(b, c).intersect(type_set(b, t))
}

/// The pieces of side `c` attacking square `s` on board `b` when the occupied squares
/// are `occ`: pawns and knights that reach `s`, rooks (and, by the flying-general
/// rule, the king) with a clear line to `s`, and cannons with exactly one screen.
pub open spec fn attackers_with(b: Seq<Option<Piece>>, occ: Set<int>, s: int, c: Side) -> Set<int> {
    pawn_to_set(s, c).intersect(side_type_set(b, c, PieceType::Pawn)).union(
        knight_to_set(s, occ).intersect(side_type_set(b, c, PieceType::Knight)),
    ).union(
        rook_set(s, occ).intersect(
            side_type_set(b, c, PieceType::Rook).union(side_type_set(b, c, PieceType::King)),
        ),
    ).union(cannon_capture_set(s, occ).intersect(side_type_set(b, c, PieceType::Cannon)))
}

/// The pieces of side `c` attacking square `s` on board `b`.
pub open spec fn attackers_of(b: Seq<Option<Piece>>, s: int, c: Side) -> Set<int> {
    attackers_with(b, occ_set(b), s, c)
}

/// Whether, on board `b` with `side` to move and that side's king recorded on `ksq`,
/// moving the piece on `from` to `to` leaves the mover's king (on `to` when the king
/// itself moves) unattacked by the other side.
pub open spec fn legal_on(b: Seq<Option<Piece>>, side: Side, ksq: int, from: int, to: int) -> bool {
    attackers_of(
        board_after(b, from, to),
        if b[from]->0.piece_type_spec() == PieceType::King {
            to
        } else {
            ksq
        },
        side.opp(),
    ).is_empty()
}

/// The board after moving the content of `from` to `to`.
pub open spec fn board_after(b: Seq<Option<Piece>>, from: int, to: int) -> Seq<Option<Piece>> {
    b.update(from, None).update(to, b[from])
}

/// State saved on a stack so that moves can be undone.
#[derive(Clone, Copy, Debug)]
pub struct StateInfo {
    /// The move played to reach this state.
    pub last_move: Option<Move>,
    /// The piece captured by that move, or `None` if it was quiet.
    pub captured_piece: Option<Piece>,
    /// The Zobrist hash of the position.
    pub zobrist: u64,
    /// Plies since the last capture (the sixty-move rule counter).
    pub sixtymove_clock: u16,
    /// Whether the side to move is in check.
    pub in_check: bool,
    /// The incremental middlegame and endgame score, from Red's side.
    pub score: PackedScore,
    /// The incremental game phase.
    pub phase: u8,
    /// Plies played since the last null move.
    pub plies_since_null: u16,
}

/// Why a FEN string could not be loaded.
#[derive(Clone, Copy, PartialEq, Eq, Structural, Debug)]
pub enum PositionSetError {
    /// The string holds no field.
    EmptyFen,
    /// The placement field does not have 10 ranks.
    WrongRankCount,
    /// A rank describes more than 9 files before a piece.
    FileOutOfBounds,
    /// A character of the placement field is neither a digit nor a piece letter.
    UnknownPiece,
    /// A rank does not describe exactly 9 files.
    WrongRankWidth,
    /// The side-to-move field is neither `w` nor `b`.
    InvalidSide,
}

/// The complete state of a game: the board, the bitboards of each piece type and
/// side, piece counts, the current state and the stack of previous states.
pub struct Position {
    /// The piece on each of the 90 squares.
    board: Vec<Option<Piece>>,
    /// Squares of each piece type, indexed by piece type.
    bitboard_by_type: Vec<Bitboard>,
    /// Squares of each side, indexed by side.
    bitboard_by_color: Vec<Bitboard>,
    /// Number of each piece on the board, indexed by piece representation.
    piece_count: Vec<u8>,
    /// The current state.
    state: StateInfo,
    /// The states before each move played.
    history: Vec<StateInfo>,
    /// Plies played in the game (Red to move when even).
    game_ply: u16,
    /// The squares the kings were last put on, indexed by side.
    king_squares: Vec<Square>,
    /// The Zobrist keys.
    zobrist: ZobristTable,
}

impl Position {
    /// The piece on each square.
    pub closed spec fn board_view(&self) -> Seq<Option<Piece>> {
        self.board@
    }

    /// The side to move.
    pub closed spec fn side_spec(&self) -> Side {
        if self.game_ply % 2 == 0 {
            Side::Red
        } else {
            Side::Black
        }
    }

    /// The plies played in the game.
    pub closed spec fn ply_spec(&self) -> int {
        self.game_ply as int
    }

    /// The current state.
    pub closed spec fn state_view(&self) -> StateInfo {
        self.state
    }

    /// The states before each move played, oldest first.
    pub closed spec fn history_view(&self) -> Seq<StateInfo> {
        self.history@
    }

    /// The square the king of side `c` was last put on.
    pub closed spec fn king_sq(&self, c: Side) -> int {
        self.king_squares@[c.idx()].idx()
    }

    /// The Zobrist keys.
    pub closed spec fn keys(&self) -> Seq<u64> {
        self.zobrist.keys_spec()
    }

    /// Whether the king of the side to move is attacked.
    pub closed spec fn in_check_spec(&self) -> bool {
        !attackers_of(self.board@, self.king_sq(self.side_spec()), self.side_spec().opp()).is_empty()
    }

    /// The bitboards and counts describe the board, and the hash is the board's hash.
    pub open spec fn board_wf(&self) -> bool {
        &&& self.tables_wf()
        &&& self.hash_ok()
    }

    /// The hash is the Zobrist hash of the board and the side to move.
    pub closed spec fn hash_ok(&self) -> bool {
        self.state.zobrist == hash_spec(self.board@, zobrist_keys(), self.side_spec())
    }

    /// The bitboards and counts describe the board.
    pub closed spec fn tables_wf(&self) -> bool {
        &&& self.board@.len() == 90
        &&& self.bitboard_by_type@.len() == 7
        &&& self.bitboard_by_color@.len() == 2
        &&& self.piece_count@.len() == 15
        &&& self.king_squares@.len() == 2
        &&& self.zobrist.keys_spec() == zobrist_keys()
        &&& forall|t: PieceType| #[trigger]
            self.bitboard_by_type@[t.idx()]@ == type_set(self.board@, t)
        &&& forall|c: Side| #[trigger] self.bitboard_by_color@[c.idx()]@ == color_set(self.board@, c)
        &&& forall|p: Piece| #[trigger]
            self.piece_count@[p.idx()] as int == count_spec(self.board@, p)
        &&& self.piece_count@[7] == 0
    }

    /// A consistent position: `board_wf`, with the incremental score, phase and check
    /// flag matching the board.
    pub open spec fn wf(&self) -> bool {
        &&& self.board_wf()
        &&& self.terms_ok()
    }

    /// The incremental score, phase and check flag match the board.
    pub closed spec fn terms_ok(&self) -> bool {
        &&& (self.state.score.mg as int, self.state.score.eg as int) == score_spec(self.board@)
        &&& self.state.phase as int == phase_spec(self.board@)
        &&& self.state.in_check == self.in_check_spec()
    }

    /// Every field of the two positions holds the same value.
    pub closed spec fn same(&self, other: &Position) -> bool {
        &&& self.board@ == other.board@
        &&& self.bitboard_by_type@ == other.bitboard_by_type@
        &&& self.bitboard_by_color@ == other.bitboard_by_color@
        &&& self.piece_count@ == other.piece_count@
        &&& self.state == other.state
        &&& self.history@ == other.history@
        &&& self.game_ply == other.game_ply
        &&& self.king_squares@ == other.king_squares@
        &&& self.zobrist.keys_spec() == other.zobrist.keys_spec()
    }

    /// Positions with the same fields have the same views and invariants.
    pub proof fn lemma_same(&self, other: &Position)
        requires
            self.same(other),
        ensures
            self.board_view() == other.board_view(),
            self.state_view() == other.state_view(),
            self.history_view() == other.history_view(),
            self.ply_spec() == other.ply_spec(),
            self.side_spec() == other.side_spec(),
            self.keys() == other.keys(),
            forall|c: Side| #[trigger] self.king_sq(c) == other.king_sq(c),
            self.tables_wf() == other.tables_wf(),
            self.board_wf() == other.board_wf(),
            self.wf() == other.wf(),
    {
    }

    /// Holding the same fields is an equivalence.
    pub proof fn lemma_same_equiv(&self, b: &Position, c: &Position)
        ensures
            self.same(self),
            self.same(b) ==> b.same(self),
            self.same(b) && b.same(c) ==> self.same(c),
    {
    }

    /// In a consistent position the incremental terms are those of the board.
    pub proof fn lemma_terms(&self)
        requires
            self.wf(),
        ensures
            (self.state_view().score.mg as int, self.state_view().score.eg as int) == score_spec(
                self.board_view(),
            ),
            self.state_view().phase as int == phase_spec(self.board_view()),
            self.state_view().in_check == !attackers_of(
                self.board_view(),
                self.king_sq(self.side_spec()),
                self.side_spec().opp(),
            ).is_empty(),
    {
    }

    /// A well-formed position has 90 squares and the standard keys.
    pub proof fn lemma_wf_basics(&self)
        requires
            self.tables_wf(),
        ensures
            self.board_view().len() == 90,
            0 <= self.ply_spec() <= u16::MAX,
            self.keys() == zobrist_keys(),
            occ_set(self.board_view()) == color_set(self.board_view(), Side::Red).union(
                color_set(self.board_view(), Side::Black),
            ),
    {
        assert(occ_set(self.board@) =~= color_set(self.board@, Side::Red).union(
            color_set(self.board@, Side::Black),
        ));
    }

    /// A position with no piece, Red to move, and an empty history.
    fn empty() -> (r: Position)
        ensures
            r.board_wf(),
            r.board_view() == Seq::new(90, |i: int| None::<Piece>),
            r.history_view().len() == 0,
            r.ply_spec() == 0,
            r.state_view() == (StateInfo {
                last_move: None,
                captured_piece: None,
                zobrist: 0,
                sixtymove_clock: 0,
                in_check: false,
                score: PackedScore { mg: 0, eg: 0 },
                phase: 0,
                plies_since_null: 0,
            }),
            r.king_sq(Side::Red) == 4,
            r.king_sq(Side::Black) == 85,
    {
        let mut board: Vec<Option<Piece>> = Vec::new();
        let mut i: usize = 0;
        while i < 90
            invariant
                i <= 90,
                board@.len() == i,
                forall|j: int| 0 <= j < i ==> #[trigger] board@[j] == None::<Piece>,
            decreases 90 - i,
        {
            board.push(None);
            i = i + 1;
        }
        let mut bitboard_by_type: Vec<Bitboard> = Vec::new();
        let mut i: usize = 0;
        while i < 7
            invariant
                i <= 7,
                bitboard_by_type@.len() == i,
                forall|j: int| 0 <= j < i ==> #[trigger] bitboard_by_type@[j]@ == Set::<int>::empty(),
            decreases 7 - i,
        {
            bitboard_by_type.push(Bitboard::new());
            i = i + 1;
        }
        let mut bitboard_by_color: Vec<Bitboard> = Vec::new();
        bitboard_by_color.push(Bitboard::new());
        bitboard_by_color.push(Bitboard::new());
        let mut piece_count: Vec<u8> = Vec::new();
        let mut i: usize = 0;
        while i < 15
            invariant
                i <= 15,
                piece_count@.len() == i,
                forall|j: int| 0 <= j < i ==> #[trigger] piece_count@[j] == 0,
            decreases 15 - i,
        {
            piece_count.push(0);
            i = i + 1;
        }
        let mut king_squares: Vec<Square> = Vec::new();
        king_squares.push(Square::E0);
        king_squares.push(Square::E9);
        let state = StateInfo {
            last_move: None,
            captured_piece: None,
            zobrist: 0,
            sixtymove_clock: 0,
            in_check: false,
            score: PackedScore::zero(),
            phase: 0,
            plies_since_null: 0,
        };
        let pos = Position {
            board,
            bitboard_by_type,
            bitboard_by_color,
            piece_count,
            state,
            history: Vec::new(),
            game_ply: 0,
            king_squares,
            zobrist: ZobristTable::init(),
        };
        proof {
            let b = pos.board@;
            assert(b =~= Seq::new(90, |i: int| None::<Piece>));
            assert forall|t: PieceType| #[trigger] pos.bitboard_by_type@[t.idx()]@ == type_set(b, t) by {
                assert(type_set(b, t) =~= Set::<int>::empty());
            }
            assert forall|c: Side| #[trigger] pos.bitboard_by_color@[c.idx()]@ == color_set(b, c) by {
                assert(color_set(b, c) =~= Set::<int>::empty());
            }
            assert forall|p: Piece| #[trigger] pos.piece_count@[p.idx()] as int == count_spec(b, p) by {
                lemma_count_zero(b, p, 90);
            }
            lemma_hash_zero(b, zobrist_keys(), 90);
        }
        pos
    }

    /// The side to move.
    pub fn side_to_move(&self) -> (r: Side)
        ensures
            r == self.side_spec(),
    {
        if self.game_ply % 2 == 0 {
            Side::Red
        } else {
            Side::Black
        }
    }

    /// The Zobrist hash of the position.
    pub fn hash(&self) -> (r: u64)
        ensures
            r == self.state_view().zobrist,
    {
        self.state.zobrist
    }

    /// The Zobrist hash of the position (same as [`Position::hash`]).
    pub fn zobrist_hash(&self) -> (r: u64)
        ensures
            r == self.state_view().zobrist,
    {
        self.state.zobrist
    }

    /// Plies played in the game.
    pub fn game_ply(&self) -> (r: u16)
        ensures
            r == self.ply_spec(),
    {
        self.game_ply
    }

    /// Plies since the last capture.
    pub fn sixtymove_clock(&self) -> (r: u16)
        ensures
            r == self.state_view().sixtymove_clock,
    {
        self.state.sixtymove_clock
    }

    /// Plies since the last null move.
    pub fn plies_since_null(&self) -> (r: u16)
        ensures
            r == self.state_view().plies_since_null,
    {
        self.state.plies_since_null
    }

    /// Number of states on the undo stack.
    pub fn history_len(&self) -> (r: usize)
        ensures
            r == self.history_view().len(),
    {
        self.history.len()
    }

    /// The piece on `square`, if any.
    pub fn piece_at(&self, square: Square) -> (r: Option<Piece>)
        requires
            self.tables_wf(),
        ensures
            r == self.board_view()[square.idx()],
    {
        self.board[square.index() as usize]
    }

    /// Whether `square` is empty.
    pub fn is_empty(&self, square: Square) -> (r: bool)
        requires
            self.tables_wf(),
        ensures
            r == (self.board_view()[square.idx()] is None),
    {
        self.board[square.index() as usize].is_none()
    }

    /// Number of copies of `piece` on the board.
    pub fn piece_count(&self, piece: Piece) -> (r: u8)
        requires
            self.tables_wf(),
        ensures
            r == count_spec(self.board_view(), piece),
    {
        self.piece_count[piece.index()]
    }

    /// Number of pieces of type `piece_type`, of both sides, on the board.
    pub fn piece_type_count(&self, piece_type: PieceType) -> (r: u8)
        requires
            self.tables_wf(),
        ensures
            r == count_spec(self.board_view(), piece_type.piece_of(Side::Red)) + count_spec(
                self.board_view(),
                piece_type.piece_of(Side::Black),
            ),
    {
        let red = self.piece_count(piece_type.to_piece(Side::Red));
        let black = self.piece_count(piece_type.to_piece(Side::Black));
        proof {
            lemma_count_bound(self.board@, piece_type.piece_of(Side::Red), 90);
            lemma_count_bound(self.board@, piece_type.piece_of(Side::Black), 90);
        }
        red + black
    }

    /// The squares holding pieces of type `piece_type`.
    pub fn bitboard_by_type(&self, piece_type: PieceType) -> (r: Bitboard)
        requires
            self.tables_wf(),
        ensures
            r@ == type_set(self.board_view(), piece_type),
    {
        self.bitboard_by_type[piece_type.index()]
    }

    /// The squares holding pieces of side `color`.
    pub fn bitboard_by_color(&self, color: Side) -> (r: Bitboard)
        requires
            self.tables_wf(),
        ensures
            r@ == color_set(self.board_view(), color),
    {
        self.bitboard_by_color[color.index()]
    }

    /// The squares holding pieces of side `color` and type `piece_type`.
    pub fn bitboard_of(&self, color: Side, piece_type: PieceType) -> (r: Bitboard)
        requires
            self.tables_wf(),
        ensures
            r@ == side_type_set(self.board_view(), color, piece_type),
    {
        self.bitboard_by_color(color).const_and(self.bitboard_by_type(piece_type))
    }

    /// The occupied squares.
    pub fn bitboard_occupied(&self) -> (r: Bitboard)
        requires
            self.tables_wf(),
        ensures
            r@ == occ_set(self.board_view()),
    {
        proof {
            self.lemma_wf_basics();
        }
        self.bitboard_by_color(Side::Red).const_or(self.bitboard_by_color(Side::Black))
    }

    /// Whether `mv` lands on an occupied square.
    pub fn is_capture(&self, mv: Move) -> (r: bool)
        requires
            self.tables_wf(),
            mv.valid(),
        ensures
            r == (self.board_view()[mv.to_idx()] is Some),
    {
        !self.is_empty(mv.square_to())
    }

    /// Whether `mv` lands on an empty square.
    pub fn is_quiet(&self, mv: Move) -> (r: bool)
        requires
            self.tables_wf(),
            mv.valid(),
        ensures
            r == (self.board_view()[mv.to_idx()] is None),
    {
        self.is_empty(mv.square_to())
    }

    /// The square the king of side `color` was last put on.
    pub fn king_square(&self, color: Side) -> (r: Square)
        requires
            self.tables_wf(),
        ensures
            r.idx() == self.king_sq(color),
    {
        self.king_squares[color.index()]
    }

    /// The piece captured by the last move, if any.
    pub fn last_captured_piece(&self) -> (r: Option<Piece>)
        ensures
            r == self.state_view().captured_piece,
    {
        self.state.captured_piece
    }

    /// The incremental middlegame and endgame score, from Red's side.
    pub fn score(&self) -> (r: PackedScore)
        ensures
            r == self.state_view().score,
    {
        self.state.score
    }

    /// The incremental game phase.
    pub fn phase(&self) -> (r: u8)
        ensures
            r == self.state_view().phase,
    {
        self.state.phase
    }

    /// Empties `square`, keeping the bitboards, counts and hash up to date.
    fn clear_square(&mut self, square: Square)
        requires
            old(self).tables_wf(),
        ensures
            final(self).tables_wf(),
            old(self).hash_ok() ==> final(self).hash_ok(),
            final(self).board_view() == old(self).board_view().update(square.idx(), None),
            final(self).state_view() == (StateInfo {
                zobrist: final(self).state_view().zobrist,
                ..old(self).state_view()
            }),
            final(self).history_view() == old(self).history_view(),
            final(self).ply_spec() == old(self).ply_spec(),
            final(self).king_squares@ == old(self).king_squares@,
    {
        let ghost b0 = self.board@;
        let ghost keys = zobrist_keys();
        let i = square.index() as usize;
        let ghost ii = i as int;
        match self.board[i] {
            Some(old_piece) => {
                let pt = old_piece.piece_type().index();
                let ci = old_piece.color().index();
                self.bitboard_by_type[pt].clear_bit(square);
                self.bitboard_by_color[ci].clear_bit(square);
                proof {
                    lemma_count_pos(b0, old_piece, ii, 90);
                }
                let pi = old_piece.index();
                self.piece_count[pi] = self.piece_count[pi] - 1;
                let k = self.zobrist.piece_key(old_piece, square);
                self.state.zobrist = self.state.zobrist ^ k;
                self.board[i] = None;
            },
            None => {},
        }
        proof {
            let b1 = b0.update(ii, None);
            assert(self.board@ =~= b1);
            assert forall|t: PieceType| #[trigger] self.bitboard_by_type@[t.idx()]@ == type_set(b1, t) by {
                assert(type_set(b1, t) =~= self.bitboard_by_type@[t.idx()]@);
            }
            assert forall|c: Side| #[trigger] self.bitboard_by_color@[c.idx()]@ == color_set(b1, c) by {
                assert(color_set(b1, c) =~= self.bitboard_by_color@[c.idx()]@);
            }
            assert forall|p: Piece| #[trigger] self.piece_count@[p.idx()] as int == count_spec(b1, p) by {
                lemma_count_update(b0, p, ii, None, 90);
            }
            lemma_hash_update(b0, keys, ii, None, 90);
            let h0 = hash_fold(b0, keys, 90);
            let sk = side_key(keys);
            let ko = square_key(keys, b0[ii], ii);
            lemma_xor_props(h0, sk, ko);
            lemma_xor_props(h0 ^ ko, 0u64, sk);
            lemma_xor_props(h0 ^ ko, sk, 0u64);
        }
    }

    /// Puts `p` on the empty `square`, keeping the bitboards, counts, king squares and
    /// hash up to date.
    fn fill_square(&mut self, square: Square, p: Piece)
        requires
            old(self).tables_wf(),
            old(self).board_view()[square.idx()] is None,
        ensures
            final(self).tables_wf(),
            old(self).hash_ok() ==> final(self).hash_ok(),
            final(self).board_view() == old(self).board_view().update(square.idx(), Some(p)),
            final(self).state_view() == (StateInfo {
                zobrist: final(self).state_view().zobrist,
                ..old(self).state_view()
            }),
            final(self).history_view() == old(self).history_view(),
            final(self).ply_spec() == old(self).ply_spec(),
            forall|c: Side| #[trigger]
                final(self).king_sq(c) == if p.piece_type_spec() == PieceType::King
                    && p.color_spec() == c {
                    square.idx()
                } else {
                    old(self).king_sq(c)
                },
    {
        let ghost b0 = self.board@;
        let ghost keys = zobrist_keys();
        let i = square.index() as usize;
        let ghost ii = i as int;
        let pt = p.piece_type().index();
        let ci = p.color().index();
        self.bitboard_by_type[pt].set_bit(square);
        self.bitboard_by_color[ci].set_bit(square);
        let pi = p.index();
        proof {
            lemma_count_bound(b0, p, 90);
        }
        self.piece_count[pi] = self.piece_count[pi] + 1;
        if p.piece_type() == PieceType::King {
            self.king_squares[ci] = square;
        }
        let k = self.zobrist.piece_key(p, square);
        self.state.zobrist = self.state.zobrist ^ k;
        self.board[i] = Some(p);
        proof {
            let b1 = b0.update(ii, Some(p));
            assert(self.board@ =~= b1);
            assert forall|t: PieceType| #[trigger] self.bitboard_by_type@[t.idx()]@ == type_set(b1, t) by {
                assert(type_set(b1, t) =~= self.bitboard_by_type@[t.idx()]@);
            }
            assert forall|c: Side| #[trigger] self.bitboard_by_color@[c.idx()]@ == color_set(b1, c) by {
                assert(color_set(b1, c) =~= self.bitboard_by_color@[c.idx()]@);
            }
            assert forall|q: Piece| #[trigger] self.piece_count@[q.idx()] as int == count_spec(b1, q) by {
                lemma_count_update(b0, q, ii, Some(p), 90);
            }
            lemma_hash_update(b0, keys, ii, Some(p), 90);
            let h0 = hash_fold(b0, keys, 90);
            let sk = side_key(keys);
            let kn = square_key(keys, Some(p), ii);
            lemma_xor_props(h0, sk, kn);
            lemma_xor_props(h0, 0u64, kn);
        }
    }

    /// Puts `piece` (or nothing) on `square`, replacing what was there and keeping the
    /// bitboards, counts, king squares and hash up to date. The score, phase and
    /// check flag are left to the caller.
    pub fn put_piece(&mut self, square: Square, piece: Option<Piece>)
        requires
            old(self).tables_wf(),
        ensures
            final(self).tables_wf(),
            old(self).hash_ok() ==> final(self).hash_ok(),
            final(self).board_view() == old(self).board_view().update(square.idx(), piece),
            final(self).state_view() == (StateInfo {
                zobrist: final(self).state_view().zobrist,
                ..old(self).state_view()
            }),
            final(self).history_view() == old(self).history_view(),
            final(self).ply_spec() == old(self).ply_spec(),
            forall|c: Side| #[trigger]
                final(self).king_sq(c) == if piece matches Some(p) && p.piece_type_spec()
                    == PieceType::King && p.color_spec() == c {
                    square.idx()
                } else {
                    old(self).king_sq(c)
                },
    {
        let ghost b0 = self.board@;
        self.clear_square(square);
        match piece {
            Some(p) => {
                self.fill_square(square, p);
            },
            None => {},
        }
        proof {
            assert(b0.update(square.idx(), None).update(square.idx(), piece) =~= b0.update(
                square.idx(),
                piece,
            ));
        }
    }

    /// Empties `square` and returns what stood on it.
    pub fn remove_piece(&mut self, square: Square) -> (r: Option<Piece>)
        requires
            old(self).tables_wf(),
        ensures
            r == old(self).board_view()[square.idx()],
            final(self).tables_wf(),
            old(self).hash_ok() ==> final(self).hash_ok(),
            final(self).board_view() == old(self).board_view().update(square.idx(), None),
            final(self).state_view() == (StateInfo {
                zobrist: final(self).state_view().zobrist,
                ..old(self).state_view()
            }),
            final(self).history_view() == old(self).history_view(),
            final(self).ply_spec() == old(self).ply_spec(),
            forall|c: Side| #[trigger] final(self).king_sq(c) == old(self).king_sq(c),
    {
        let piece = self.board[square.index() as usize];
        self.put_piece(square, None);
        piece
    }
}


/// The empty board has no piece to count.
pub proof fn lemma_count_zero(b: Seq<Option<Piece>>, p: Piece, n: int)
    requires
        0 <= n <= b.len(),
        forall|j: int| 0 <= j < b.len() ==> #[trigger] b[j] == None::<Piece>,
    ensures
        count_fold(b, p, n) == 0,
    decreases n,
{
    if n > 0 {
        lemma_count_zero(b, p, n - 1);
    }
}

/// The empty board hashes to zero.
pub proof fn lemma_hash_zero(b: Seq<Option<Piece>>, keys: Seq<u64>, n: int)
    requires
        0 <= n <= b.len(),
        forall|j: int| 0 <= j < b.len() ==> #[trigger] b[j] == None::<Piece>,
    ensures
        hash_fold(b, keys, n) == 0,
    decreases n,
{
    if n > 0 {
        lemma_hash_zero(b, keys, n - 1);
        lemma_xor_props(0u64, 0u64, 0u64);
    }
}

} // verus!

verus! {

/// The squares of side `c` and type `t` after moving the content of `from` to `to`.
pub proof fn lemma_side_type_after(b: Seq<Option<Piece>>, from: int, to: int, c: Side, t: PieceType)
    requires
        b.len() == 90,
        0 <= from < 90,
        0 <= to < 90,
        from != to,
    ensures
        side_type_set(board_after(b, from, to), c, t) == side_type_set(b, c, t).remove(from).remove(
            to,
        ).union(
            if b[from] matches Some(p) && p.color_spec() == c && p.piece_type_spec() == t {
                Set::<int>::empty().insert(to)
            } else {
                Set::<int>::empty()
            },
        ),
        occ_set(board_after(b, from, to)) == if b[from] is Some {
            occ_set(b).remove(from).insert(to)
        } else {
            occ_set(b).remove(from).remove(to)
        },
{
    let a = board_after(b, from, to);
    assert(side_type_set(a, c, t) =~= side_type_set(b, c, t).remove(from).remove(to).union(
        if b[from] matches Some(p) && p.color_spec() == c && p.piece_type_spec() == t {
            Set::<int>::empty().insert(to)
        } else {
            Set::<int>::empty()
        },
    ));
    if b[from] is Some {
        assert(occ_set(a) =~= occ_set(b).remove(from).insert(to));
    } else {
        assert(occ_set(a) =~= occ_set(b).remove(from).remove(to));
    }
}

/// The attackers of `square` among the given pawn, knight, rook-like and cannon
/// squares of side `side`, with occupancy `occ`.
fn scan_attackers(
    square: Square,
    occ: Bitboard,
    side: Side,
    pawns: Bitboard,
    knights: Bitboard,
    rooks: Bitboard,
    cannons: Bitboard,
) -> (r: Bitboard)
    ensures
        r@ == pawn_to_set(square.idx(), side).intersect(pawns@).union(
            knight_to_set(square.idx(), occ@).intersect(knights@),
        ).union(rook_set(square.idx(), occ@).intersect(rooks@)).union(
            cannon_capture_set(square.idx(), occ@).intersect(cannons@),
        ),
{
    let pawn_attackers = pawn_attacks_to(square, side).const_and(pawns);
    let knight_attackers = knight_attacks_to(square, occ).const_and(knights);
    // Rooks and cannons off the square's rank and file cannot attack it.
    let ghost s = square.idx();
    let ghost line_set = rank_set(Square::rank_of(s)).union(file_set(Square::file_of(s)));
    proof {
        assert(rook_set(s, occ@).subset_of(line_set));
        assert(cannon_capture_set(s, occ@).subset_of(line_set));
    }
    let rook_attackers = if !shares_line(square, rooks) {
        proof {
            assert(rook_set(s, occ@).intersect(rooks@) =~= Set::<int>::empty());
        }
        Bitboard::new()
    } else {
        rook_attacks(square, occ).const_and(rooks)
    };
    let cannon_attackers = if !shares_line(square, cannons) {
        proof {
            assert(cannon_capture_set(s, occ@).intersect(cannons@) =~= Set::<int>::empty());
        }
        Bitboard::new()
    } else {
        cannon_captures(square, occ).const_and(cannons)
    };
    pawn_attackers.const_or(knight_attackers).const_or(rook_attackers).const_or(cannon_attackers)
}

/// `bb` without the squares `from` and `to`, plus `to` when `add_to` holds.
fn relocate(bb: Bitboard, from: Square, to: Square, add_to: bool) -> (r: Bitboard)
    ensures
        r@ == bb@.remove(from.idx()).remove(to.idx()).union(
            if add_to {
                Set::<int>::empty().insert(to.idx())
            } else {
                Set::<int>::empty()
            },
        ),
{
    let mut r = bb;
    r.clear_bit(from);
    r.clear_bit(to);
    if add_to {
        r.set_bit(to);
    }
    proof {
        assert(r@ =~= bb@.remove(from.idx()).remove(to.idx()).union(
            if add_to {
                Set::<int>::empty().insert(to.idx())
            } else {
                Set::<int>::empty()
            },
        ));
    }
    r
}

impl Position {
    /// The pieces of side `attacker` attacking `square` when the occupied squares are
    /// `occupied`: a backward scan from `square` with pawn, knight, rook (and
    /// flying-general king) and cannon patterns.
    pub fn checkers_to(&self, square: Square, occupied: Bitboard, attacker: Side) -> (r: Bitboard)
        requires
            self.tables_wf(),
        ensures
            r@ == attackers_with(self.board_view(), occupied@, square.idx(), attacker),
    {
        let pawns = self.bitboard_of(attacker, PieceType::Pawn);
        let knights = self.bitboard_of(attacker, PieceType::Knight);
        let rooks = self.bitboard_of(attacker, PieceType::Rook).const_or(
            self.bitboard_of(attacker, PieceType::King),
        );
        let cannons = self.bitboard_of(attacker, PieceType::Cannon);
        scan_attackers(square, occupied, attacker, pawns, knights, rooks, cannons)
    }

    /// The pieces of side `attacker` attacking `square` on the board obtained by moving
    /// the piece on `from` to `to` (capturing what stands there).
    pub fn checkers_to_after_move(&self, square: Square, attacker: Side, from: Square, to: Square) -> (r:
        Bitboard)
        requires
            self.tables_wf(),
            from != to,
            self.board_view()[from.idx()] is Some,
        ensures
            r@ == attackers_of(board_after(self.board_view(), from.idx(), to.idx()), square.idx(), attacker),
    {
        let ghost b = self.board@;
        let moved = self.board[from.index() as usize].unwrap();
        let mine = moved.color() == attacker;
        let mt = moved.piece_type();
        let mut occupied = self.bitboard_occupied();
        occupied.clear_bit(from);
        occupied.set_bit(to);
        let pawns = relocate(self.bitboard_of(attacker, PieceType::Pawn), from, to, mine && mt == PieceType::Pawn);
        let knights = relocate(self.bitboard_of(attacker, PieceType::Knight), from, to, mine && mt == PieceType::Knight);
        let rooks = relocate(self.bitboard_of(attacker, PieceType::Rook), from, to, mine && mt == PieceType::Rook);
        let kings = relocate(self.bitboard_of(attacker, PieceType::King), from, to, mine && mt == PieceType::King);
        let cannons = relocate(self.bitboard_of(attacker, PieceType::Cannon), from, to, mine && mt == PieceType::Cannon);
        let rooks_kings = rooks.const_or(kings);
        let r = scan_attackers(square, occupied, attacker, pawns, knights, rooks_kings, cannons);
        proof {
            let f = from.idx();
            let t = to.idx();
            lemma_side_type_after(b, f, t, attacker, PieceType::Pawn);
            lemma_side_type_after(b, f, t, attacker, PieceType::Knight);
            lemma_side_type_after(b, f, t, attacker, PieceType::Rook);
            lemma_side_type_after(b, f, t, attacker, PieceType::King);
            lemma_side_type_after(b, f, t, attacker, PieceType::Cannon);
            assert(occupied@ =~= occ_set(b).remove(f).insert(t));
            let a = board_after(b, f, t);
            assert(pawns@ =~= side_type_set(a, attacker, PieceType::Pawn));
            assert(knights@ =~= side_type_set(a, attacker, PieceType::Knight));
            assert(rooks_kings@ =~= side_type_set(a, attacker, PieceType::Rook).union(
                side_type_set(a, attacker, PieceType::King)));
            assert(cannons@ =~= side_type_set(a, attacker, PieceType::Cannon));
        }
        r
    }

    /// Whether `square` is attacked by side `attacker`.
    pub fn is_square_attacked(&self, square: Square, attacker: Side) -> (r: bool)
        requires
            self.tables_wf(),
        ensures
            r == !attackers_of(self.board_view(), square.idx(), attacker).is_empty(),
    {
        let occupied = self.bitboard_occupied();
        !self.checkers_to(square, occupied, attacker).is_empty()
    }

    /// Whether `square` is attacked by side `attacker` after moving the piece on `from`
    /// to `to`.
    pub fn is_square_attacked_after_move(&self, square: Square, attacker: Side, from: Square, to: Square) -> (r: bool)
        requires
            self.tables_wf(),
            from != to,
            self.board_view()[from.idx()] is Some,
        ensures
            r == !attackers_of(board_after(self.board_view(), from.idx(), to.idx()), square.idx(), attacker).is_empty(),
    {
        !self.checkers_to_after_move(square, attacker, from, to).is_empty()
    }

    /// Whether the side to move is in check (as recorded in the current state).
    pub fn is_in_check(&self) -> (r: bool)
        requires
            self.wf(),
        ensures
            r == self.in_check_spec(),
            r == !attackers_of(self.board_view(), self.king_sq(self.side_spec()), self.side_spec().opp()).is_empty(),
    {
        self.state.in_check
    }

    /// Whether the king of side `color` is attacked.
    pub fn is_side_in_check(&self, color: Side) -> (r: bool)
        requires
            self.wf(),
        ensures
            r == !attackers_of(self.board_view(), self.king_sq(color), color.opp()).is_empty(),
    {
        if color == self.side_to_move() {
            self.state.in_check
        } else {
            self.is_square_attacked(self.king_square(color), color.opposite())
        }
    }

    /// Whether the move `m` leaves the mover's king (on its new square when the king
    /// moves) unattacked.
    pub open spec fn legal_spec(&self, m: Move) -> bool {
        legal_on(
            self.board_view(),
            self.side_spec(),
            self.king_sq(self.side_spec()),
            m.from_idx(),
            m.to_idx(),
        )
    }

    /// Whether the pseudo-legal move `m` is legal: after it, the mover's king (on its
    /// new square when the king moves) is not attacked.
    pub fn legal(&self, m: Move) -> (r: bool)
        requires
            self.tables_wf(),
            m.valid(),
            m.from_idx() != m.to_idx(),
            self.board_view()[m.from_idx()] is Some,
        ensures
            r == self.legal_spec(m),
    {
        let us = self.side_to_move();
        let from = m.square_from();
        let to = m.square_to();
        let moved = self.board[from.index() as usize].unwrap();
        let king_sq = if moved.piece_type() == PieceType::King {
            to
        } else {
            self.king_square(us)
        };
        self.checkers_to_after_move(king_sq, us.opposite(), from, to).is_empty()
    }

    /// Whether the move `m` puts the opponent's king in check.
    pub fn gives_check(&self, m: Move) -> (r: bool)
        requires
            self.tables_wf(),
            m.valid(),
            m.from_idx() != m.to_idx(),
            self.board_view()[m.from_idx()] is Some,
        ensures
            r == !attackers_of(
                board_after(self.board_view(), m.from_idx(), m.to_idx()),
                self.king_sq(self.side_spec().opp()),
                self.side_spec(),
            ).is_empty(),
    {
        let us = self.side_to_move();
        let them = us.opposite();
        let from = m.square_from();
        let to = m.square_to();
        let them_king_sq = self.king_square(them);
        !self.checkers_to_after_move(them_king_sq, us, from, to).is_empty()
    }

    /// Whether side `side` still has a piece able to attack (rook, knight, cannon or
    /// pawn).
    pub fn has_attacking_pieces(&self, side: Side) -> (r: bool)
        requires
            self.tables_wf(),
        ensures
            r == !(side_type_set(self.board_view(), side, PieceType::Rook).union(
                side_type_set(self.board_view(), side, PieceType::Knight),
            ).union(side_type_set(self.board_view(), side, PieceType::Cannon)).union(
                side_type_set(self.board_view(), side, PieceType::Pawn),
            )).is_empty(),
    {
        let attackers = self.bitboard_of(side, PieceType::Rook).const_or(
            self.bitboard_of(side, PieceType::Knight),
        ).const_or(self.bitboard_of(side, PieceType::Cannon)).const_or(
            self.bitboard_of(side, PieceType::Pawn),
        );
        !attackers.is_empty()
    }

    /// Records whether the side to move is in check.
    fn set_check_info(&mut self)
        requires
            old(self).tables_wf(),
        ensures
            final(self).tables_wf(),
            old(self).hash_ok() ==> final(self).hash_ok(),
            final(self).board_view() == old(self).board_view(),
            final(self).state_view() == (StateInfo {
                in_check: final(self).in_check_spec(),
                ..old(self).state_view()
            }),
            final(self).history_view() == old(self).history_view(),
            final(self).ply_spec() == old(self).ply_spec(),
            final(self).king_squares@ == old(self).king_squares@,
            final(self).in_check_spec() == old(self).in_check_spec(),
    {
        let us = self.side_to_move();
        let ksq = self.king_square(us);
        let c = self.is_square_attacked(ksq, us.opposite());
        self.state.in_check = c;
    }
}

} // verus!

verus! {

/// The incremental score and phase after moving the piece on `from` to `to` of
/// `board`, computed from the score and phase of `board`.
#[verifier::rlimit(50)]
fn score_after_move(board: &Vec<Option<Piece>>, score: PackedScore, phase: u8, from: Square, to: Square) -> (r: (PackedScore, u8))
    requires
        board@.len() == 90,
        (score.mg as int, score.eg as int) == score_spec(board@),
        phase as int == phase_spec(board@),
        from.idx() != to.idx(),
        board@[from.idx()] is Some,
    ensures
        (r.0.mg as int, r.0.eg as int) == score_spec(board_after(board@, from.idx(), to.idx())),
        r.1 as int == phase_spec(board_after(board@, from.idx(), to.idx())),
{
    let ghost b0 = board@;
    let piece = board[from.index() as usize].unwrap();
    let captured = board[to.index() as usize];
    let ghost f = from.idx();
    let ghost t = to.idx();
    let ghost b1 = b0.update(f, None);
    let ghost b2 = b1.update(t, Some(piece));
    proof {
        lemma_score_update(b0, f, None, 90);
        lemma_score_update(b1, t, Some(piece), 90);
        lemma_phase_update(b0, f, None, 90);
        lemma_phase_update(b1, t, Some(piece), 90);
        lemma_score_bounds(b0, 90);
        lemma_score_bounds(b2, 90);
        lemma_phase_bounds(b2, 90);
        lemma_piece_value_bounds(piece, f);
        lemma_piece_value_bounds(piece, t);
        assert(b2 =~= board_after(b0, f, t));
    }
    let sgn = piece.color().signum();
    let from_val = piece_value(piece, from);
    let to_val = piece_value(piece, to);
    let delta = to_val.sub(from_val).signed(sgn);
    let mut new_score = score.add(delta);
    let mut new_phase = phase;
    match captured {
        Some(cap) => {
            proof {
                lemma_piece_value_bounds(cap, t);
            }
            let cap_val = piece_value(cap, to).signed(cap.color().signum());
            new_score = new_score.sub(cap_val);
            new_phase = new_phase - piece_phase_weight(cap.piece_type());
        },
        None => {},
    }
    (new_score, new_phase)
}

impl Position {
    /// The effect of playing `m` on `self`, giving `next`.
    pub open spec fn did_move(&self, m: Move, next: &Position) -> bool {
        let from = m.from_idx();
        let to = m.to_idx();
        let moved = self.board_view()[from]->0;
        let captured = self.board_view()[to];
        &&& next.wf()
        &&& next.board_view() == board_after(self.board_view(), from, to)
        &&& next.history_view() == self.history_view().push(self.state_view())
        &&& next.ply_spec() == self.ply_spec() + 1
        &&& next.side_spec() == self.side_spec().opp()
        &&& next.keys() == self.keys()
        &&& next.state_view().last_move == Some(m)
        &&& next.state_view().captured_piece == captured
        &&& next.state_view().sixtymove_clock == (if captured is Some {
            0
        } else {
            self.state_view().sixtymove_clock + 1
        })
        &&& next.state_view().plies_since_null == self.state_view().plies_since_null + 1
        &&& forall|c: Side| #[trigger]
            next.king_sq(c) == if moved.piece_type_spec() == PieceType::King && moved.color_spec()
                == c {
                to
            } else {
                self.king_sq(c)
            }
    }

    /// The effect of passing the move from `self`, giving `next`: the same board,
    /// the other side to move, the state pushed on the history and a fresh one
    /// with the side key toggled and the null-move count reset.
    pub open spec fn did_null_move(&self, next: &Position) -> bool {
        &&& next.wf()
        &&& next.board_view() == self.board_view()
        &&& next.history_view() == self.history_view().push(self.state_view())
        &&& next.ply_spec() == self.ply_spec() + 1
        &&& next.side_spec() == self.side_spec().opp()
        &&& next.state_view().zobrist == self.state_view().zobrist ^ side_key(zobrist_keys())
        &&& next.state_view().plies_since_null == 0
        &&& next.state_view().sixtymove_clock == self.state_view().sixtymove_clock + 1
        &&& next.state_view().last_move is None
        &&& next.state_view().captured_piece is None
        &&& forall|c: Side| #[trigger] next.king_sq(c) == self.king_sq(c)
    }

    /// The effect of taking back a passed move from `self`, giving `next`: the
    /// same board, the last state popped from the history, the other side to move.
    pub open spec fn undid_null_move(&self, next: &Position) -> bool {
        &&& next.board_view() == self.board_view()
        &&& next.state_view() == self.history_view().last()
        &&& next.history_view() == self.history_view().drop_last()
        &&& next.ply_spec() == self.ply_spec() - 1
        &&& next.side_spec() == self.side_spec().opp()
        &&& forall|c: Side| #[trigger] next.king_sq(c) == self.king_sq(c)
        &&& self.tables_wf() ==> next.tables_wf()
    }

    /// The effect of taking back `m` from `self`, giving `next`.
    pub open spec fn undid_move(&self, m: Move, next: &Position) -> bool {
        let from = m.from_idx();
        let to = m.to_idx();
        let moved = self.board_view()[to]->0;
        let restored = self.state_view().captured_piece;
        &&& next.tables_wf()
        &&& next.board_view() == self.board_view().update(to, restored).update(from, Some(moved))
        &&& next.state_view() == self.history_view().last()
        &&& next.history_view() == self.history_view().drop_last()
        &&& next.ply_spec() == self.ply_spec() - 1
        &&& next.keys() == self.keys()
        &&& forall|c: Side| #[trigger]
            next.king_sq(c) == if moved.piece_type_spec() == PieceType::King && moved.color_spec()
                == c {
                from
            } else if restored matches Some(p) && p.piece_type_spec() == PieceType::King
                && p.color_spec() == c {
                to
            } else {
                self.king_sq(c)
            }
    }

    /// Saves the current state on the history, counts one more ply and passes the
    /// turn in the hash.
    fn push_state(&mut self)
        requires
            old(self).board_wf(),
            old(self).ply_spec() < u16::MAX,
        ensures
            final(self).board_wf(),
            final(self).board_view() == old(self).board_view(),
            final(self).history_view() == old(self).history_view().push(old(self).state_view()),
            final(self).ply_spec() == old(self).ply_spec() + 1,
            final(self).side_spec() == old(self).side_spec().opp(),
            final(self).state_view() == (StateInfo {
                zobrist: old(self).state_view().zobrist ^ side_key(zobrist_keys()),
                ..old(self).state_view()
            }),
            final(self).king_squares@ == old(self).king_squares@,
            final(self).keys() == old(self).keys(),
    {
        let ghost b0 = self.board@;
        self.game_ply = self.game_ply + 1;
        let st = self.state;
        self.history.push(st);
        let sk = self.zobrist.side();
        self.state.zobrist = self.state.zobrist ^ sk;
        proof {
            let h = hash_fold(b0, zobrist_keys(), 90);
            let k = side_key(zobrist_keys());
            lemma_xor_props(h, k, 0u64);
        }
    }

    /// Plays `m`: moves the piece on its origin to its destination (capturing what
    /// stands there), saves the previous state for [`Position::undo_move`], updates
    /// the score, phase, hash, clocks and check flag, and passes the turn.
    pub fn do_move(&mut self, m: Move)
        requires
            old(self).wf(),
            m.valid(),
            m.from_idx() != m.to_idx(),
            old(self).board_view()[m.from_idx()] is Some,
            old(self).ply_spec() < u16::MAX,
            old(self).state_view().sixtymove_clock < u16::MAX,
            old(self).state_view().plies_since_null < u16::MAX,
        ensures
            old(self).did_move(m, final(self)),
    {
        let ghost b0 = self.board@;
        let from = m.square_from();
        let to = m.square_to();
        let piece = self.board[from.index() as usize].unwrap();
        let captured = self.board[to.index() as usize];
        let (score, phase) = score_after_move(&self.board, self.state.score, self.state.phase, from, to);
        self.push_state();
        let ghost k0 = |c: Side| self.king_sq(c);
        self.put_piece(from, None);
        let ghost k1 = |c: Side| self.king_sq(c);
        self.put_piece(to, Some(piece));
        let ghost k2 = |c: Side| self.king_sq(c);
        let ghost ks2 = self.king_squares@;
        proof {
            assert(self.board@ =~= board_after(b0, from.idx(), to.idx()));
            assert forall|c: Side| #[trigger] k2(c) == if piece.piece_type_spec()
                == PieceType::King && piece.color_spec() == c {
                to.idx()
            } else {
                k0(c)
            } by {
                assert(k1(c) == k0(c));
            }
        }
        self.state.score = score;
        self.state.phase = phase;
        self.state.sixtymove_clock = match captured {
            Some(_) => 0,
            None => self.state.sixtymove_clock + 1,
        };
        self.state.plies_since_null = self.state.plies_since_null + 1;
        self.set_check_info();
        self.state.captured_piece = captured;
        self.state.last_move = Some(m);
        proof {
            assert(self.king_squares@ == ks2);
            assert forall|c: Side| #[trigger] self.king_sq(c) == if piece.piece_type_spec()
                == PieceType::King && piece.color_spec() == c {
                to.idx()
            } else {
                old(self).king_sq(c)
            } by {
                assert(self.king_sq(c) == k2(c));
            }
        }
    }

    /// Takes back `m`, the last move played: puts the moved piece back on its origin,
    /// restores the captured piece, and pops the saved state.
    #[verifier::rlimit(80)]
    #[verifier::spinoff_prover]
    pub fn undo_move(&mut self, m: Move)
        requires
            old(self).tables_wf(),
            m.valid(),
            m.from_idx() != m.to_idx(),
            old(self).board_view()[m.to_idx()] is Some,
            old(self).history_view().len() > 0,
            old(self).ply_spec() > 0,
        ensures
            old(self).undid_move(m, final(self)),
    {
        let from = m.square_from();
        let to = m.square_to();
        let piece = self.board[to.index() as usize].unwrap();
        let captured = self.state.captured_piece;
        let ghost k0 = |c: Side| old(self).king_sq(c);
        self.put_piece(to, captured);
        let ghost k1 = |c: Side| self.king_sq(c);
        proof {
            assert forall|c: Side| #[trigger] k1(c) == if captured matches Some(p)
                && p.piece_type_spec() == PieceType::King && p.color_spec() == c {
                to.idx()
            } else {
                k0(c)
            } by {}
        }
        self.put_piece(from, Some(piece));
        let ghost k2 = |c: Side| self.king_sq(c);
        let ghost ks2 = self.king_squares@;
        proof {
            assert forall|c: Side| #[trigger] k2(c) == if piece.piece_type_spec()
                == PieceType::King && piece.color_spec() == c {
                from.idx()
            } else {
                k1(c)
            } by {}
        }
        let state = self.history.pop().unwrap();
        self.state = state;
        self.game_ply = self.game_ply - 1;
        proof {
            assert(self.tables_wf());
            assert(self.board_view() == old(self).board_view().update(to.idx(), captured).update(from.idx(), Some(piece)));
            assert(self.state_view() == old(self).history_view().last());
            assert(self.history_view() == old(self).history_view().drop_last());
            assert(self.keys() == old(self).keys());
            assert(self.ply_spec() == old(self).ply_spec() - 1);
            assert(piece == old(self).board_view()[m.to_idx()]->0);
            assert(from.idx() == m.from_idx() && to.idx() == m.to_idx());
            assert(self.king_squares@ == ks2);
            assert forall|c: Side| #[trigger] self.king_sq(c) == if piece.piece_type_spec()
                == PieceType::King && piece.color_spec() == c {
                from.idx()
            } else {
                k1(c)
            } by {
                assert(self.king_sq(c) == k2(c));
            }
        }
    }

    /// Passes the turn without moving (a null move), saving the previous state for
    /// [`Position::undo_null_move`].
    pub fn do_null_move(&mut self)
        requires
            old(self).wf(),
            old(self).ply_spec() < u16::MAX,
            old(self).state_view().sixtymove_clock < u16::MAX,
        ensures
            old(self).did_null_move(final(self)),
    {
        self.push_state();
        self.state.plies_since_null = 0;
        self.state.sixtymove_clock = self.state.sixtymove_clock + 1;
        self.state.last_move = None;
        self.state.captured_piece = None;
        self.set_check_info();
    }

    /// Takes back a null move.
    pub fn undo_null_move(&mut self)
        requires
            old(self).history_view().len() > 0,
            old(self).ply_spec() > 0,
        ensures
            old(self).undid_null_move(final(self)),
    {
        let state = self.history.pop().unwrap();
        self.state = state;
        self.game_ply = self.game_ply - 1;
    }
}

/// Passing the move and taking the pass back gives the position back: the same
/// board, state, history, ply, side to move and king squares.
pub proof fn lemma_undo_null_after_null(p0: &Position, p1: &Position, p2: &Position)
    requires
        p0.wf(),
        p0.did_null_move(p1),
        p1.undid_null_move(p2),
    ensures
        p2.board_view() == p0.board_view(),
        p2.state_view() == p0.state_view(),
        p2.history_view() == p0.history_view(),
        p2.ply_spec() == p0.ply_spec(),
        p2.side_spec() == p0.side_spec(),
        forall|c: Side| #[trigger] p2.king_sq(c) == p0.king_sq(c),
        p2.tables_wf(),
{
    assert(p1.history_view().drop_last() =~= p0.history_view());
    assert(p2.side_spec() == p0.side_spec().opp().opp());
    assert forall|c: Side| #[trigger] p2.king_sq(c) == p0.king_sq(c) by {
        assert(p2.king_sq(c) == p1.king_sq(c));
    }
}

/// Taking back a move just played restores the position exactly, unless the move
/// captured or moved a king that was not on the square recorded for it.
pub proof fn lemma_undo_after_do(p0: &Position, p1: &Position, p2: &Position, m: Move)
    requires
        p0.wf(),
        m.valid(),
        m.from_idx() != m.to_idx(),
        p0.board_view()[m.from_idx()] is Some,
        p0.did_move(m, p1),
        p1.undid_move(m, p2),
        p0.board_view()[m.to_idx()] is Some && p0.board_view()[m.to_idx()]->0.piece_type_spec()
            == PieceType::King ==> p0.king_sq(p0.board_view()[m.to_idx()]->0.color_spec()) == m.to_idx(),
        p0.board_view()[m.from_idx()]->0.piece_type_spec() == PieceType::King ==> p0.king_sq(
            p0.board_view()[m.from_idx()]->0.color_spec(),
        ) == m.from_idx(),
    ensures
        p2.same(p0),
        p2.wf(),
{
    let b0 = p0.board@;
    let f = m.from_idx();
    let t = m.to_idx();
    assert(p2.board@ =~= b0);
    assert forall|j: int| 0 <= j < 7 implies #[trigger] p2.bitboard_by_type@[j] == p0.bitboard_by_type@[j] by {
        let pt = PieceType::from_idx(j);
        assert(pt.idx() == j);
        crate::bitboard::lemma_bitboard_ext(p2.bitboard_by_type@[j], p0.bitboard_by_type@[j]);
    }
    assert(p2.bitboard_by_type@ =~= p0.bitboard_by_type@);
    assert forall|j: int| 0 <= j < 2 implies #[trigger] p2.bitboard_by_color@[j] == p0.bitboard_by_color@[j] by {
        let c = Side::from_idx(j);
        assert(c.idx() == j);
        crate::bitboard::lemma_bitboard_ext(p2.bitboard_by_color@[j], p0.bitboard_by_color@[j]);
    }
    assert(p2.bitboard_by_color@ =~= p0.bitboard_by_color@);
    assert forall|j: int| 0 <= j < 15 implies #[trigger] p2.piece_count@[j] == p0.piece_count@[j] by {
        if j != 7 {
            let p = Piece::from_idx(j);
            assert(p.idx() == j);
        }
    }
    assert(p2.piece_count@ =~= p0.piece_count@);
    assert forall|j: int| 0 <= j < 2 implies #[trigger] p2.king_squares@[j] == p0.king_squares@[j] by {
        let c = Side::from_idx(j);
        assert(c.idx() == j);
        assert(p2.king_sq(c) == p0.king_sq(c));
        lemma_square_idx(p2.king_squares@[j]);
        lemma_square_idx(p0.king_squares@[j]);
    }
    assert(p2.king_squares@ =~= p0.king_squares@);
    assert(p2.history@ =~= p0.history@);
}

} // verus!
