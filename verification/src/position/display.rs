//! The board drawn as text: one line per rank from rank 9 down, each square shown
//! by its piece letter or `.`, then the file letters and the side to move.
use crate::position::Position;
use crate::types::{Piece, Side, Square, ascii_str, rank_digit};
use vstd::prelude::*;

verus! {

/// The letter that shows a square's content: the piece's FEN letter (upper case
/// for Red), or `.` for an empty square.
pub open spec fn content_letter(x: Option<Piece>) -> char {
    match x {
        Some(Piece::RedRook) => 'R',
        Some(Piece::RedKnight) => 'H',
        Some(Piece::RedBishop) => 'E',
        Some(Piece::RedAdvisor) => 'A',
        Some(Piece::RedKing) => 'K',
        Some(Piece::RedCannon) => 'C',
        Some(Piece::RedPawn) => 'P',
        Some(Piece::BlackRook) => 'r',
        Some(Piece::BlackKnight) => 'h',
        Some(Piece::BlackBishop) => 'e',
        Some(Piece::BlackAdvisor) => 'a',
        Some(Piece::BlackKing) => 'k',
        Some(Piece::BlackCannon) => 'c',
        Some(Piece::BlackPawn) => 'p',
        None => '.',
    }
}

/// The frame line above and below the board.
pub open spec fn frame_line() -> Seq<char> {
    "  +---------------------------+\n"@
}

/// The cells of the first `n` files of rank `r`, each letter between spaces.
pub open spec fn rank_cells(b: Seq<Option<Piece>>, r: int, n: int) -> Seq<char>
    decreases n,
{
    if n <= 0 {
        Seq::empty()
    } else {
        rank_cells(b, r, n - 1) + seq![' ', content_letter(b[r * 9 + n - 1]), ' ']
    }
}

/// Rank `r` drawn: its number, its cells inside bars.
pub open spec fn rank_text(b: Seq<Option<Piece>>, r: int) -> Seq<char> {
    seq![rank_digit(r)] + " |"@ + rank_cells(b, r, 9) + "|\n"@
}

/// The first `k` ranks drawn, from rank 9 down.
pub open spec fn ranks_text(b: Seq<Option<Piece>>, k: int) -> Seq<char>
    decreases k,
{
    if k <= 0 {
        Seq::empty()
    } else {
        ranks_text(b, k - 1) + rank_text(b, 10 - k)
    }
}

/// The name of a side.
pub open spec fn side_name(s: Side) -> Seq<char> {
    match s {
        Side::Red => "Red"@,
        Side::Black => "Black"@,
    }
}

/// The board drawn in text, rank 9 on top, with the file letters below and the
/// side to move on the last line.
pub open spec fn position_text(b: Seq<Option<Piece>>, side: Side) -> Seq<char> {
    frame_line() + ranks_text(b, 10) + frame_line() + "    a  b  c  d  e  f  g  h  i\n"@
        + "Side to move: "@ + side_name(side) + "\n"@
}

/// The three characters that show a square's content between spaces.
fn cell_str(x: Option<Piece>) -> (r: &'static str)
    ensures
        r@ == seq![' ', content_letter(x), ' '],
{
    proof {
        reveal_strlit(" R ");
        reveal_strlit(" H ");
        reveal_strlit(" E ");
        reveal_strlit(" A ");
        reveal_strlit(" K ");
        reveal_strlit(" C ");
        reveal_strlit(" P ");
        reveal_strlit(" r ");
        reveal_strlit(" h ");
        reveal_strlit(" e ");
        reveal_strlit(" a ");
        reveal_strlit(" k ");
        reveal_strlit(" c ");
        reveal_strlit(" p ");
        reveal_strlit(" . ");
    }
    let s = match x {
        Some(Piece::RedRook) => " R ",
        Some(Piece::RedKnight) => " H ",
        Some(Piece::RedBishop) => " E ",
        Some(Piece::RedAdvisor) => " A ",
        Some(Piece::RedKing) => " K ",
        Some(Piece::RedCannon) => " C ",
        Some(Piece::RedPawn) => " P ",
        Some(Piece::BlackRook) => " r ",
        Some(Piece::BlackKnight) => " h ",
        Some(Piece::BlackBishop) => " e ",
        Some(Piece::BlackAdvisor) => " a ",
        Some(Piece::BlackKing) => " k ",
        Some(Piece::BlackCannon) => " c ",
        Some(Piece::BlackPawn) => " p ",
        None => " . ",
    };
    assert(s@ =~= seq![' ', content_letter(x), ' ']);
    s
}

impl Position {
    /// The board drawn in text (see [`position_text`]).
    pub fn board_string(&self) -> (r: String)
        requires
            self.tables_wf(),
        ensures
            r@ == position_text(self.board_view(), self.side_spec()),
    {
        let ghost b = self.board_view();
        proof {
            self.lemma_wf_basics();
        }
        let mut out = String::from_str("  +---------------------------+\n");
        let mut k: u8 = 0;
        while k < 10
            invariant
                k <= 10,
                self.tables_wf(),
                b == self.board_view(),
                b.len() == 90,
                out@ == frame_line() + ranks_text(b, k as int),
            decreases 10 - k,
        {
            let rank = 9 - k;
            let ghost before = out@;
            let digit = ascii_str(48 + rank);
            out.append(digit.as_str());
            out.append(" |");
            let ghost head = out@;
            let mut file: u8 = 0;
            while file < 9
                invariant
                    file <= 9,
                    rank == 9 - k,
                    k < 10,
                    self.tables_wf(),
                    b == self.board_view(),
                    b.len() == 90,
                    out@ == head + rank_cells(b, rank as int, file as int),
                decreases 9 - file,
            {
                let sq = Square::from_repr(rank * 9 + file).unwrap();
                let cell = cell_str(self.piece_at(sq));
                out.append(cell);
                proof {
                    assert(out@ =~= head + rank_cells(b, rank as int, file as int + 1));
                }
                file = file + 1;
            }
            out.append("|\n");
            proof {
                assert(frame_line() == "  +---------------------------+\n"@);
                assert(out@ =~= frame_line() + ranks_text(b, k as int + 1)) by {
                    assert(ranks_text(b, k as int + 1) == ranks_text(b, k as int) + rank_text(b, rank as int));
                }
            }
            k = k + 1;
        }
        out.append("  +---------------------------+\n");
        out.append("    a  b  c  d  e  f  g  h  i\n");
        out.append("Side to move: ");
        match self.side_to_move() {
            Side::Red => out.append("Red"),
            Side::Black => out.append("Black"),
        }
        out.append("\n");
        proof {
            assert(out@ =~= position_text(b, self.side_spec()));
        }
        out
    }
}

} // verus!
