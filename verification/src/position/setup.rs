//! Building positions: from a FEN string, the starting position, and the
//! evaluation terms computed from scratch.
use crate::boardspec::{
    lemma_phase_bounds, lemma_score_bounds, phase_fold, phase_spec, score_fold, score_spec,
    side_key, square_phase, square_score, zobrist_keys, hash_spec, count_fold, count_spec,
};
use crate::eval::values::{
    lemma_piece_value_bounds, phase_weight_spec, piece_phase_weight, piece_value,
};
use crate::fen::{
    char_piece, chars_of, digit_of, empty_board, fen_board, fen_clock, fen_error, fen_fullmove,
    fen_ply, fen_ranks, fen_side, is_digit, parse_u16, rank_read, rank_scan, ranks_read,
    split_at_separator, split_words, words, lemma_rank_scan_error_sticks, lemma_ranks_read_error_sticks,
};
use crate::position::{Position, PositionSetError, StateInfo, ZobristTable};
use crate::score::PackedScore;
use crate::types::{File, Piece, PieceType, Rank, Side, Square, lemma_rank_from_idx};
use vstd::prelude::*;

verus! {

/// The piece on square `i` in the starting position.
pub open spec fn start_piece(i: int) -> Option<Piece> {
    if i == 0 || i == 8 {
        Some(Piece::RedRook)
    } else if i == 1 || i == 7 {
        Some(Piece::RedKnight)
    } else if i == 2 || i == 6 {
        Some(Piece::RedBishop)
    } else if i == 3 || i == 5 {
        Some(Piece::RedAdvisor)
    } else if i == 4 {
        Some(Piece::RedKing)
    } else if i == 19 || i == 25 {
        Some(Piece::RedCannon)
    } else if i == 27 || i == 29 || i == 31 || i == 33 || i == 35 {
        Some(Piece::RedPawn)
    } else if i == 54 || i == 56 || i == 58 || i == 60 || i == 62 {
        Some(Piece::BlackPawn)
    } else if i == 64 || i == 70 {
        Some(Piece::BlackCannon)
    } else if i == 81 || i == 89 {
        Some(Piece::BlackRook)
    } else if i == 82 || i == 88 {
        Some(Piece::BlackKnight)
    } else if i == 83 || i == 87 {
        Some(Piece::BlackBishop)
    } else if i == 84 || i == 86 {
        Some(Piece::BlackAdvisor)
    } else if i == 85 {
        Some(Piece::BlackKing)
    } else {
        None
    }
}

/// The board of the starting position (the FEN
/// `rheakaehr/9/1c5c1/p1p1p1p1p/9/9/P1P1P1P1P/1C5C1/9/RHEAKAEHR w`).
pub open spec fn start_board() -> Seq<Option<Piece>> {
    Seq::new(90, |i: int| start_piece(i))
}

/// The piece on square `i` in the starting position.
fn start_piece_at(i: u8) -> (r: Option<Piece>)
    ensures
        r == start_piece(i as int),
{
    match i {
        0 | 8 => Some(Piece::RedRook),
        1 | 7 => Some(Piece::RedKnight),
        2 | 6 => Some(Piece::RedBishop),
        3 | 5 => Some(Piece::RedAdvisor),
        4 => Some(Piece::RedKing),
        19 | 25 => Some(Piece::RedCannon),
        27 | 29 | 31 | 33 | 35 => Some(Piece::RedPawn),
        54 | 56 | 58 | 60 | 62 => Some(Piece::BlackPawn),
        64 | 70 => Some(Piece::BlackCannon),
        81 | 89 => Some(Piece::BlackRook),
        82 | 88 => Some(Piece::BlackKnight),
        83 | 87 => Some(Piece::BlackBishop),
        84 | 86 => Some(Piece::BlackAdvisor),
        85 => Some(Piece::BlackKing),
        _ => None,
    }
}

impl Position {
    /// The piece a FEN letter stands for: upper case for Red, lower case for
    /// Black, `H` or `N` for a knight and `E` or `B` for a bishop.
    pub fn piece_from_char(c: char) -> (r: Option<Piece>)
        ensures
            r == char_piece(c),
    {
        match c {
            'R' => Some(Piece::RedRook),
            'H' | 'N' => Some(Piece::RedKnight),
            'E' | 'B' => Some(Piece::RedBishop),
            'A' => Some(Piece::RedAdvisor),
            'K' => Some(Piece::RedKing),
            'C' => Some(Piece::RedCannon),
            'P' => Some(Piece::RedPawn),
            'r' => Some(Piece::BlackRook),
            'h' | 'n' => Some(Piece::BlackKnight),
            'e' | 'b' => Some(Piece::BlackBishop),
            'a' => Some(Piece::BlackAdvisor),
            'k' => Some(Piece::BlackKing),
            'c' => Some(Piece::BlackCannon),
            'p' => Some(Piece::BlackPawn),
            _ => None,
        }
    }

    /// Reads the description `r` of rank `rank` onto the board.
    fn read_rank(&mut self, r: &Vec<char>, rank: Rank) -> (res: Result<(), PositionSetError>)
        requires
            old(self).board_wf(),
        ensures
            final(self).board_wf(),
            final(self).history_view() == old(self).history_view(),
            final(self).ply_spec() == old(self).ply_spec(),
            final(self).state_view() == (StateInfo {
                zobrist: final(self).state_view().zobrist,
                ..old(self).state_view()
            }),
            res is Ok ==> final(self).board_view() == rank_read(r@, rank.idx(), old(self).board_view()).0,
            match res {
                Ok(_) => rank_read(r@, rank.idx(), old(self).board_view()).1 is None,
                Err(e) => rank_read(r@, rank.idx(), old(self).board_view()).1 == Some(e),
            },
    {
        let ghost b0 = self.board_view();
        let mut file: u8 = 0;
        let mut i: usize = 0;
        while i < r.len()
            invariant
                i <= r@.len(),
                self.board_wf(),
                self.history_view() == old(self).history_view(),
                self.ply_spec() == old(self).ply_spec(),
                self.state_view() == (StateInfo {
                    zobrist: self.state_view().zobrist,
                    ..old(self).state_view()
                }),
                b0 == old(self).board_view(),
                rank_scan(r@, rank.idx(), b0, i as int) == (
                    file as int,
                    self.board_view(),
                    None::<PositionSetError>,
                ),
            decreases r@.len() - i,
        {
            let c = r[i];
            if '0' <= c && c <= '9' {
                let d = (c as u32 - '0' as u32) as u8;
                file = file.wrapping_add(d);
            } else {
                if file >= 9 {
                    proof {
                        lemma_rank_scan_error_sticks(r@, rank.idx(), b0, i + 1, r@.len() as int);
                    }
                    return Err(PositionSetError::FileOutOfBounds);
                }
                let f = File::from_repr(file).unwrap();
                let square = Square::from_file_rank(f, rank);
                match Position::piece_from_char(c) {
                    Some(piece) => {
                        self.put_piece(square, Some(piece));
                    },
                    None => {
                        proof {
                            lemma_rank_scan_error_sticks(r@, rank.idx(), b0, i + 1, r@.len() as int);
                        }
                        return Err(PositionSetError::UnknownPiece);
                    },
                }
                file = file + 1;
            }
            i = i + 1;
        }
        if file != 9 {
            return Err(PositionSetError::WrongRankWidth);
        }
        Ok(())
    }

    /// Whether the position is the one described by the FEN string `s`, freshly
    /// loaded: its board, side to move, ply and sixty-move clock are those of `s`,
    /// its evaluation terms and check flag are consistent, and nothing was played.
    pub open spec fn loaded_from(&self, s: Seq<char>) -> bool {
        &&& self.wf()
        &&& self.board_view() == fen_board(s)
        &&& self.side_spec() == fen_side(s)
        &&& self.ply_spec() == fen_ply(s)
        &&& self.state_view().sixtymove_clock == fen_clock(s)
        &&& self.state_view().plies_since_null == 0
        &&& self.state_view().last_move is None
        &&& self.state_view().captured_piece is None
        &&& self.history_view().len() == 0
    }

    /// The middlegame and endgame scores of the board, from Red's side, summed
    /// over all squares.
    pub fn tapered_score_from_scratch(&self) -> (r: PackedScore)
        requires
            self.tables_wf(),
        ensures
            (r.mg as int, r.eg as int) == score_spec(self.board_view()),
    {
        let ghost b = self.board_view();
        let mut score = PackedScore::zero();
        let mut i: u8 = 0;
        while i < 90
            invariant
                i <= 90,
                b == self.board_view(),
                b.len() == 90,
                self.tables_wf(),
                (score.mg as int, score.eg as int) == score_fold(b, i as int),
            decreases 90 - i,
        {
            proof {
                lemma_score_bounds(b, i as int);
            }
            let sq = Square::from_repr(i).unwrap();
            match self.piece_at(sq) {
                Some(piece) => {
                    proof {
                        lemma_piece_value_bounds(piece, i as int);
                    }
                    let v = piece_value(piece, sq).signed(piece.color().signum());
                    score = score.add(v);
                },
                None => {},
            }
            i = i + 1;
        }
        score
    }

    /// The game phase of the board: the phase weights of its pieces, summed.
    pub fn calculate_board_phase(&self) -> (r: u8)
        requires
            self.tables_wf(),
        ensures
            r as int == phase_spec(self.board_view()),
    {
        proof {
            lemma_phase_counts(self.board_view(), 90);
            lemma_phase_bounds(self.board_view(), 90);
        }
        let rooks = self.piece_type_count(PieceType::Rook);
        let cannons = self.piece_type_count(PieceType::Cannon);
        let knights = self.piece_type_count(PieceType::Knight);
        let advisors = self.piece_type_count(PieceType::Advisor);
        let bishops = self.piece_type_count(PieceType::Bishop);
        rooks * piece_phase_weight(PieceType::Rook) + cannons * piece_phase_weight(PieceType::Cannon)
            + knights * piece_phase_weight(PieceType::Knight) + advisors * piece_phase_weight(
            PieceType::Advisor,
        ) + bishops * piece_phase_weight(PieceType::Bishop)
    }

    /// Loads the position described by the FEN string `fen`, replacing the current
    /// one. On failure the position holds the pieces read before the error.
    pub fn set(&mut self, fen: &str) -> (r: Result<(), PositionSetError>)
        ensures
            match r {
                Ok(_) => fen_error(fen@) is None && final(self).loaded_from(fen@),
                Err(e) => fen_error(fen@) == Some(e) && final(self).board_wf(),
            },
    {
        *self = Position::empty();
        let chars = chars_of(fen);
        let fields = split_words(&chars);
        if fields.len() == 0 {
            return Err(PositionSetError::EmptyFen);
        }
        proof {
            assert(fields[0].deep_view() =~= fields[0]@);
        }
        let ranks = split_at_separator(&fields[0], '/');
        if ranks.len() != 10 {
            return Err(PositionSetError::WrongRankCount);
        }
        let ghost rs = ranks.deep_view();
        assert(rs == fen_ranks(fen@));
        let mut k: usize = 0;
        while k < 10
            invariant
                k <= 10,
                rs == ranks.deep_view(),
                rs == fen_ranks(fen@),
                words(fen@).len() > 0,
                rs.len() == 10,
                self.board_wf(),
                self.board_view() == ranks_read(rs, k as int).0,
                ranks_read(rs, k as int).1 is None,
                self.history_view().len() == 0,
                self.ply_spec() == 0,
                self.state_view().sixtymove_clock == 0,
                self.state_view().plies_since_null == 0,
                self.state_view().last_move is None,
                self.state_view().captured_piece is None,
            decreases 10 - k,
        {
            let rank = Rank::from_repr((9 - k) as u8).unwrap();
            proof {
                lemma_rank_from_idx(9 - k);
                assert(ranks[k as int].deep_view() =~= ranks[k as int]@);
                assert(ranks_read(rs, k + 1) == rank_read(rs[k as int], rank.idx(), ranks_read(rs, k as int).0));
            }
            let res = self.read_rank(&ranks[k], rank);
            match res {
                Err(e) => {
                    proof {
                        lemma_ranks_read_error_sticks(rs, k + 1, 10);
                    }
                    return Err(e);
                },
                Ok(_) => {},
            }
            k = k + 1;
        }
        let side = if fields.len() > 1 {
            proof {
                assert(fields[1].deep_view() =~= fields[1]@);
            }
            let w = &fields[1];
            if w.len() == 1 && w[0] == 'w' {
                proof {
                    assert(w@ =~= seq!['w']);
                }
                Side::Red
            } else if w.len() == 1 && w[0] == 'b' {
                proof {
                    assert(w@ =~= seq!['b']);
                }
                Side::Black
            } else {
                proof {
                    assert(w@ != seq!['w'] && w@ != seq!['b']) by {
                        if w@ == seq!['w'] || w@ == seq!['b'] {
                            assert(w@.len() == 1);
                        }
                    }
                }
                return Err(PositionSetError::InvalidSide);
            }
        } else {
            Side::Red
        };
        let clock: u16 = if fields.len() > 4 {
            proof {
                assert(fields[4].deep_view() =~= fields[4]@);
            }
            match parse_u16(&fields[4]) {
                Some(v) => v,
                None => 0,
            }
        } else {
            0
        };
        let fullmove: u16 = if fields.len() > 5 {
            proof {
                assert(fields[5].deep_view() =~= fields[5]@);
            }
            match parse_u16(&fields[5]) {
                Some(v) => v,
                None => 1,
            }
        } else {
            1
        };
        let doubled = fullmove.saturating_sub(1).wrapping_mul(2);
        proof {
            assert(doubled % 2 == 0 && doubled <= 65534) by {
                let x = fullmove.saturating_sub(1);
                assert(doubled == (x as int * 2) % 65536);
            }
        }
        self.game_ply = doubled + side.index() as u16;
        if side == Side::Black {
            let k = self.zobrist.side();
            self.state.zobrist = self.state.zobrist ^ k;
        }
        self.state.sixtymove_clock = clock;
        let score = self.tapered_score_from_scratch();
        let phase = self.calculate_board_phase();
        self.state.score = score;
        self.state.phase = phase;
        self.set_check_info();
        Ok(())
    }

    /// The standard starting position, Red to move.
    pub fn new() -> (r: Position)
        ensures
            r.wf(),
            r.board_view() == start_board(),
            r.side_spec() == Side::Red,
            r.ply_spec() == 0,
            r.state_view().sixtymove_clock == 0,
            r.state_view().plies_since_null == 0,
            r.state_view().last_move is None,
            r.state_view().captured_piece is None,
            r.history_view().len() == 0,
    {
        let mut pos = Position::empty();
        let mut i: u8 = 0;
        while i < 90
            invariant
                i <= 90,
                pos.board_wf(),
                pos.board_view() == Seq::new(
                    90,
                    |j: int|
                        if j < i {
                            start_piece(j)
                        } else {
                            None
                        },
                ),
                pos.history_view().len() == 0,
                pos.ply_spec() == 0,
                pos.state_view().sixtymove_clock == 0,
                pos.state_view().plies_since_null == 0,
                pos.state_view().last_move is None,
                pos.state_view().captured_piece is None,
            decreases 90 - i,
        {
            let ghost b0 = pos.board_view();
            let sq = Square::from_repr(i).unwrap();
            match start_piece_at(i) {
                Some(p) => {
                    pos.put_piece(sq, Some(p));
                },
                None => {},
            }
            i = i + 1;
            proof {
                assert(pos.board_view() =~= Seq::new(
                    90,
                    |j: int|
                        if j < i {
                            start_piece(j)
                        } else {
                            None
                        },
                ));
            }
        }
        proof {
            assert(pos.board_view() =~= start_board());
        }
        let score = pos.tapered_score_from_scratch();
        let phase = pos.calculate_board_phase();
        pos.state.score = score;
        pos.state.phase = phase;
        pos.set_check_info();
        pos
    }

    /// The standard starting position (same as [`Position::new`]).
    pub fn startpos() -> (r: Position)
        ensures
            r.wf(),
            r.board_view() == start_board(),
            r.side_spec() == Side::Red,
            r.ply_spec() == 0,
            r.state_view().sixtymove_clock == 0,
            r.history_view().len() == 0,
    {
        Position::new()
    }

    /// The position described by the FEN string `fen`.
    pub fn from_fen(fen: &str) -> (r: Result<Position, PositionSetError>)
        ensures
            match r {
                Ok(p) => fen_error(fen@) is None && p.loaded_from(fen@),
                Err(e) => fen_error(fen@) == Some(e),
            },
    {
        let mut pos = Position::empty();
        match pos.set(fen) {
            Ok(_) => Ok(pos),
            Err(e) => Err(e),
        }
    }
}

} // verus!

verus! {

/// A copy of `v`.
fn copy_vec<T: Copy>(v: &Vec<T>) -> (r: Vec<T>)
    ensures
        r@ == v@,
{
    let mut r: Vec<T> = Vec::new();
    let mut i: usize = 0;
    while i < v.len()
        invariant
            i <= v@.len(),
            r@ == v@.take(i as int),
        decreases v@.len() - i,
    {
        r.push(v[i]);
        i = i + 1;
        proof {
            assert(r@ =~= v@.take(i as int));
        }
    }
    proof {
        assert(v@.take(v@.len() as int) =~= v@);
    }
    r
}

impl Clone for Position {
    /// A copy of the position, field by field.
    fn clone(&self) -> (r: Position)
        ensures
            r.same(self),
    {
        Position {
            board: copy_vec(&self.board),
            bitboard_by_type: copy_vec(&self.bitboard_by_type),
            bitboard_by_color: copy_vec(&self.bitboard_by_color),
            piece_count: copy_vec(&self.piece_count),
            state: self.state,
            history: copy_vec(&self.history),
            game_ply: self.game_ply,
            king_squares: copy_vec(&self.king_squares),
            zobrist: ZobristTable { keys: copy_vec(&self.zobrist.keys) },
        }
    }
}

} // verus!

verus! {

/// The phase of the first `n` squares is the sum, over the piece types, of the
/// phase weight times the number of pieces of that type among them.
proof fn lemma_phase_counts(b: Seq<Option<Piece>>, n: int)
    requires
        0 <= n <= b.len(),
    ensures
        phase_fold(b, n) == 2 * (count_fold(b, Piece::RedRook, n) + count_fold(b, Piece::BlackRook, n))
            + 2 * (count_fold(b, Piece::RedCannon, n) + count_fold(b, Piece::BlackCannon, n)) + 2 * (
        count_fold(b, Piece::RedKnight, n) + count_fold(b, Piece::BlackKnight, n)) + (count_fold(
            b,
            Piece::RedAdvisor,
            n,
        ) + count_fold(b, Piece::BlackAdvisor, n)) + (count_fold(b, Piece::RedBishop, n)
            + count_fold(b, Piece::BlackBishop, n)),
    decreases n,
{
    if n > 0 {
        lemma_phase_counts(b, n - 1);
    }
}

} // verus!

