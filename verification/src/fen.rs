//! Reading positions in Forsyth–Edwards Notation (FEN).
//!
//! A FEN string is read as white-space separated fields: the piece placement,
//! the side to move, two unused fields, the sixty-move clock and the full move
//! number. The placement lists the ranks from rank 9 down to rank 0, separated by
//! `/`; each rank lists its files from A to I, a digit standing for that many
//! empty squares and a letter for a piece.
use vstd::prelude::*;

use crate::position::PositionSetError;
use crate::types::{Piece, Side};

verus! {

/// Whether `c` has Unicode's White_Space property (what `char::is_whitespace`
/// tests).
pub open spec fn is_white_space(c: char) -> bool {
    let x = c as u32;
    ||| 0x09 <= x <= 0x0D
    ||| x == 0x20
    ||| x == 0x85
    ||| x == 0xA0
    ||| x == 0x1680
    ||| 0x2000 <= x <= 0x200A
    ||| x == 0x2028
    ||| x == 0x2029
    ||| x == 0x202F
    ||| x == 0x205F
    ||| x == 0x3000
}

/// Whether `c` is one of the ASCII digits `0` to `9`.
pub open spec fn is_digit(c: char) -> bool {
    '0' <= c <= '9'
}

/// The value of the ASCII digit `c`.
pub open spec fn digit_of(c: char) -> int {
    c as u32 - '0' as u32
}

/// The words completed and the word being read after scanning the first `n`
/// characters of `s`.
pub open spec fn words_scan(s: Seq<char>, n: int) -> (Seq<Seq<char>>, Seq<char>)
    decreases n,
{
    if n <= 0 {
        (Seq::empty(), Seq::empty())
    } else {
        let (done, cur) = words_scan(s, n - 1);
        let c = s[n - 1];
        if is_white_space(c) {
            if cur.len() > 0 {
                (done.push(cur), Seq::empty())
            } else {
                (done, cur)
            }
        } else {
            (done, cur.push(c))
        }
    }
}

/// The maximal runs of characters of `s` that are not white space, in order.
pub open spec fn words(s: Seq<char>) -> Seq<Seq<char>> {
    let (done, cur) = words_scan(s, s.len() as int);
    if cur.len() > 0 {
        done.push(cur)
    } else {
        done
    }
}

/// The pieces completed and the piece being read after scanning the first `n`
/// characters of `s` for the separator `sep`.
pub open spec fn split_scan(s: Seq<char>, sep: char, n: int) -> (Seq<Seq<char>>, Seq<char>)
    decreases n,
{
    if n <= 0 {
        (Seq::empty(), Seq::empty())
    } else {
        let (done, cur) = split_scan(s, sep, n - 1);
        let c = s[n - 1];
        if c == sep {
            (done.push(cur), Seq::empty())
        } else {
            (done, cur.push(c))
        }
    }
}

/// The pieces of `s` between occurrences of `sep` (one more than there are
/// separators).
pub open spec fn split_on(s: Seq<char>, sep: char) -> Seq<Seq<char>> {
    let (done, cur) = split_scan(s, sep, s.len() as int);
    done.push(cur)
}

/// Whether every character of `d` is a digit.
pub open spec fn all_digits(d: Seq<char>) -> bool {
    forall|i: int| 0 <= i < d.len() ==> is_digit(#[trigger] d[i])
}

/// The decimal value of a string of digits.
pub open spec fn digits_value(d: Seq<char>) -> int
    decreases d.len(),
{
    if d.len() == 0 {
        0
    } else {
        digits_value(d.drop_last()) * 10 + digit_of(d.last())
    }
}

/// The number written by `t` as an unsigned 16-bit decimal, as `u16`'s `FromStr`
/// reads it: an optional `+` and at least one digit, with a value that fits.
pub open spec fn parse_u16_spec(t: Seq<char>) -> Option<u16> {
    let d = if t.len() > 0 && t[0] == '+' {
        t.drop_first()
    } else {
        t
    };
    if d.len() > 0 && all_digits(d) && digits_value(d) <= 65535 {
        Some(digits_value(d) as u16)
    } else {
        None
    }
}

/// The piece a FEN letter stands for: upper case for Red, lower case for Black,
/// `H`/`N` for knights and `E`/`B` for bishops.
pub open spec fn char_piece(c: char) -> Option<Piece> {
    if c == 'R' {
        Some(Piece::RedRook)
    } else if c == 'H' || c == 'N' {
        Some(Piece::RedKnight)
    } else if c == 'E' || c == 'B' {
        Some(Piece::RedBishop)
    } else if c == 'A' {
        Some(Piece::RedAdvisor)
    } else if c == 'K' {
        Some(Piece::RedKing)
    } else if c == 'C' {
        Some(Piece::RedCannon)
    } else if c == 'P' {
        Some(Piece::RedPawn)
    } else if c == 'r' {
        Some(Piece::BlackRook)
    } else if c == 'h' || c == 'n' {
        Some(Piece::BlackKnight)
    } else if c == 'e' || c == 'b' {
        Some(Piece::BlackBishop)
    } else if c == 'a' {
        Some(Piece::BlackAdvisor)
    } else if c == 'k' {
        Some(Piece::BlackKing)
    } else if c == 'c' {
        Some(Piece::BlackCannon)
    } else if c == 'p' {
        Some(Piece::BlackPawn)
    } else {
        None
    }
}

/// The file reached (counted modulo 256, as an 8-bit counter), the board, and the
/// error met, after reading the first `n` characters of the description `r` of rank
/// `rank` onto `board`.
pub open spec fn rank_scan(r: Seq<char>, rank: int, board: Seq<Option<Piece>>, n: int) -> (
    int,
    Seq<Option<Piece>>,
    Option<PositionSetError>,
)
    decreases n,
{
    if n <= 0 {
        (0, board, None)
    } else {
        let (f, b, e) = rank_scan(r, rank, board, n - 1);
        let c = r[n - 1];
        if e is Some {
            (f, b, e)
        } else if is_digit(c) {
            ((f + digit_of(c)) % 256, b, None)
        } else if f >= 9 {
            (f, b, Some(PositionSetError::FileOutOfBounds))
        } else {
            match char_piece(c) {
                Some(p) => (f + 1, b.update(rank * 9 + f, Some(p)), None),
                None => (f, b, Some(PositionSetError::UnknownPiece)),
            }
        }
    }
}

/// The board after reading the description `r` of rank `rank` onto `board`, and
/// the error met, if any: a rank must describe exactly 9 files.
pub open spec fn rank_read(r: Seq<char>, rank: int, board: Seq<Option<Piece>>) -> (
    Seq<Option<Piece>>,
    Option<PositionSetError>,
) {
    let (f, b, e) = rank_scan(r, rank, board, r.len() as int);
    if e is Some {
        (b, e)
    } else if f != 9 {
        (b, Some(PositionSetError::WrongRankWidth))
    } else {
        (b, None)
    }
}

/// The empty board.
pub open spec fn empty_board() -> Seq<Option<Piece>> {
    Seq::new(90, |i: int| None::<Piece>)
}

/// The board and the first error after reading the first `k` rank descriptions of
/// `ranks` onto the empty board, the first description being that of rank 9.
pub open spec fn ranks_read(ranks: Seq<Seq<char>>, k: int) -> (
    Seq<Option<Piece>>,
    Option<PositionSetError>,
)
    decreases k,
{
    if k <= 0 {
        (empty_board(), None)
    } else {
        let (b, e) = ranks_read(ranks, k - 1);
        if e is Some {
            (b, e)
        } else {
            rank_read(ranks[k - 1], 9 - (k - 1), b)
        }
    }
}

/// The rank descriptions of a FEN string: its first word split at `/`.
pub open spec fn fen_ranks(s: Seq<char>) -> Seq<Seq<char>> {
    split_on(words(s)[0], '/')
}

/// Why the FEN string `s` cannot be read, or `None` if it can.
pub open spec fn fen_error(s: Seq<char>) -> Option<PositionSetError> {
    let w = words(s);
    if w.len() == 0 {
        Some(PositionSetError::EmptyFen)
    } else if fen_ranks(s).len() != 10 {
        Some(PositionSetError::WrongRankCount)
    } else if ranks_read(fen_ranks(s), 10).1 is Some {
        ranks_read(fen_ranks(s), 10).1
    } else if w.len() > 1 && w[1] != seq!['w'] && w[1] != seq!['b'] {
        Some(PositionSetError::InvalidSide)
    } else {
        None
    }
}

/// The board described by the FEN string `s`.
pub open spec fn fen_board(s: Seq<char>) -> Seq<Option<Piece>> {
    ranks_read(fen_ranks(s), 10).0
}

/// The side to move of the FEN string `s`: Black if its second word is `b`,
/// Red otherwise.
pub open spec fn fen_side(s: Seq<char>) -> Side {
    if words(s).len() > 1 && words(s)[1] == seq!['b'] {
        Side::Black
    } else {
        Side::Red
    }
}

/// The sixty-move clock of the FEN string `s`: its fifth word, or 0 when that is
/// missing or not a number.
pub open spec fn fen_clock(s: Seq<char>) -> u16 {
    if words(s).len() > 4 {
        match parse_u16_spec(words(s)[4]) {
            Some(v) => v,
            None => 0,
        }
    } else {
        0
    }
}

/// The full move number of the FEN string `s`: its sixth word, or 1 when that is
/// missing or not a number.
pub open spec fn fen_fullmove(s: Seq<char>) -> u16 {
    if words(s).len() > 5 {
        match parse_u16_spec(words(s)[5]) {
            Some(v) => v,
            None => 1,
        }
    } else {
        1
    }
}

/// The game ply of the FEN string `s`: two plies per full move before the current
/// one (counted with a 16-bit wrap), plus one when Black is to move.
pub open spec fn fen_ply(s: Seq<char>) -> int {
    let fm = fen_fullmove(s) as int;
    let before = if fm == 0 {
        0
    } else {
        fm - 1
    };
    (before * 2) % 65536 + fen_side(s).idx()
}

/// Whether `c` is white space.
pub fn white_space(c: char) -> (r: bool)
    ensures
        r == is_white_space(c),
{
    let x = c as u32;
    (0x09 <= x && x <= 0x0D) || x == 0x20 || x == 0x85 || x == 0xA0 || x == 0x1680 || (0x2000 <= x
        && x <= 0x200A) || x == 0x2028 || x == 0x2029 || x == 0x202F || x == 0x205F || x == 0x3000
}

/// The characters of `s`, in order.
pub fn chars_of(s: &str) -> (r: Vec<char>)
    ensures
        r@ == s@,
{
    let mut v: Vec<char> = Vec::new();
    for c in it: s.chars()
        invariant
            v@ == it.seq().take(it.index() as int),
            it.seq() == s@,
    {
        v.push(c);
    }
    v
}

/// The white-space separated words of `s`.
pub fn split_words(s: &Vec<char>) -> (r: Vec<Vec<char>>)
    ensures
        r.deep_view() == words(s@),
{
    let mut done: Vec<Vec<char>> = Vec::new();
    let mut cur: Vec<char> = Vec::new();
    let mut i: usize = 0;
    while i < s.len()
        invariant
            i <= s@.len(),
            (done.deep_view(), cur@) == words_scan(s@, i as int),
        decreases s@.len() - i,
    {
        let c = s[i];
        let ghost d0 = done.deep_view();
        if white_space(c) {
            if cur.len() > 0 {
                let w = cur;
                proof {
                    assert(w.deep_view() =~= w@);
                }
                done.push(w);
                cur = Vec::new();
                proof {
                    assert(done.deep_view() =~= d0.push(w@));
                }
            }
        } else {
            cur.push(c);
        }
        i = i + 1;
    }
    if cur.len() > 0 {
        let ghost d0 = done.deep_view();
        let w = cur;
        proof {
            assert(w.deep_view() =~= w@);
        }
        done.push(w);
        proof {
            assert(done.deep_view() =~= d0.push(w@));
        }
    }
    done
}

/// The pieces of `s` between occurrences of `sep`.
pub fn split_at_separator(s: &Vec<char>, sep: char) -> (r: Vec<Vec<char>>)
    ensures
        r.deep_view() == split_on(s@, sep),
{
    let mut done: Vec<Vec<char>> = Vec::new();
    let mut cur: Vec<char> = Vec::new();
    let mut i: usize = 0;
    while i < s.len()
        invariant
            i <= s@.len(),
            (done.deep_view(), cur@) == split_scan(s@, sep, i as int),
        decreases s@.len() - i,
    {
        let c = s[i];
        let ghost d0 = done.deep_view();
        if c == sep {
            let w = cur;
            proof {
                assert(w.deep_view() =~= w@);
            }
            done.push(w);
            cur = Vec::new();
            proof {
                assert(done.deep_view() =~= d0.push(w@));
            }
        } else {
            cur.push(c);
        }
        i = i + 1;
    }
    let ghost d0 = done.deep_view();
    let w = cur;
    proof {
        assert(w.deep_view() =~= w@);
    }
    done.push(w);
    proof {
        assert(done.deep_view() =~= d0.push(w@));
    }
    done
}

/// The value of a longer string of digits is at least that of its prefix.
proof fn lemma_digits_value_grows(d: Seq<char>, n: int)
    requires
        0 <= n <= d.len(),
        forall|i: int| 0 <= i < d.len() ==> is_digit(#[trigger] d[i]),
    ensures
        digits_value(d.take(n)) <= digits_value(d),
    decreases d.len() - n,
{
    if n < d.len() {
        lemma_digits_value_grows(d, n + 1);
        assert(d.take(n + 1).drop_last() =~= d.take(n));
        assert(digits_value(d.take(n)) >= 0) by {
            lemma_digits_value_nonneg(d.take(n));
        }
    } else {
        assert(d.take(n) =~= d);
    }
}

/// A string of digits has a non-negative value.
proof fn lemma_digits_value_nonneg(d: Seq<char>)
    requires
        forall|i: int| 0 <= i < d.len() ==> is_digit(#[trigger] d[i]),
    ensures
        digits_value(d) >= 0,
    decreases d.len(),
{
    if d.len() > 0 {
        lemma_digits_value_nonneg(d.drop_last());
    }
}

/// Reads `t` as an unsigned 16-bit decimal number.
pub fn parse_u16(t: &Vec<char>) -> (r: Option<u16>)
    ensures
        r == parse_u16_spec(t@),
{
    let start: usize = if t.len() > 0 && t[0] == '+' {
        1
    } else {
        0
    };
    let ghost d = if t@.len() > 0 && t@[0] == '+' {
        t@.drop_first()
    } else {
        t@
    };
    assert(d =~= t@.subrange(start as int, t@.len() as int));
    if start >= t.len() {
        return None;
    }
    let mut value: u32 = 0;
    let mut i: usize = start;
    while i < t.len()
        invariant
            start <= i <= t@.len(),
            d == t@.subrange(start as int, t@.len() as int),
            d == (if t@.len() > 0 && t@[0] == '+' {
                t@.drop_first()
            } else {
                t@
            }),
            d.len() > 0,
            value as int == digits_value(d.take(i - start)),
            value <= 65535,
            forall|j: int| 0 <= j < i - start ==> is_digit(#[trigger] d[j]),
        decreases t@.len() - i,
    {
        let c = t[i];
        let ghost k = i - start;
        assert(d[k] == c);
        if !('0' <= c && c <= '9') {
            proof {
                assert(!is_digit(d[k]));
                assert(!all_digits(d));
            }
            return None;
        }
        proof {
            assert(d.take(k + 1).drop_last() =~= d.take(k));
            assert(d.take(k + 1).last() == c);
        }
        let next = value * 10 + (c as u32 - '0' as u32);
        assert(digits_value(d.take(k + 1)) == next);
        if next > 65535 {
            proof {
                if all_digits(d) {
                    lemma_digits_value_grows(d, k + 1);
                    assert(digits_value(d) > 65535);
                }
            }
            return None;
        }
        value = next;
        i = i + 1;
    }
    proof {
        assert(d.take(d.len() as int) =~= d);
    }
    Some(value as u16)
}

} // verus!

verus! {

/// Once reading a rank description meets an error, reading more of it keeps that
/// error.
pub proof fn lemma_rank_scan_error_sticks(
    r: Seq<char>,
    rank: int,
    board: Seq<Option<Piece>>,
    n: int,
    m: int,
)
    requires
        0 <= n <= m,
        rank_scan(r, rank, board, n).2 is Some,
    ensures
        rank_scan(r, rank, board, m).2 == rank_scan(r, rank, board, n).2,
    decreases m - n,
{
    if m > n {
        lemma_rank_scan_error_sticks(r, rank, board, n, m - 1);
    }
}

/// Once reading the rank descriptions meets an error, reading more of them keeps
/// that error.
pub proof fn lemma_ranks_read_error_sticks(ranks: Seq<Seq<char>>, k: int, m: int)
    requires
        0 <= k <= m,
        ranks_read(ranks, k).1 is Some,
    ensures
        ranks_read(ranks, m).1 == ranks_read(ranks, k).1,
    decreases m - k,
{
    if m > k {
        lemma_ranks_read_error_sticks(ranks, k, m - 1);
    }
}

/// The number of files a rank description spans: each digit its value, each
/// other character one file.
pub open spec fn rank_width(r: Seq<char>) -> int
    decreases r.len(),
{
    if r.len() == 0 {
        0
    } else {
        rank_width(r.drop_last()) + if is_digit(r.last()) {
            digit_of(r.last())
        } else {
            1
        }
    }
}

/// Reading a rank description without error reaches its width, counted modulo 256.
proof fn lemma_rank_scan_width(r: Seq<char>, rank: int, board: Seq<Option<Piece>>, n: int)
    requires
        0 <= n <= r.len(),
    ensures
        rank_scan(r, rank, board, n).2 is None ==> rank_scan(r, rank, board, n).0 == rank_width(r.take(n)) % 256,
        rank_width(r.take(n)) >= 0,
    decreases n,
{
    if n > 0 {
        lemma_rank_scan_width(r, rank, board, n - 1);
        assert(r.take(n).drop_last() =~= r.take(n - 1));
        let (f, b, e) = rank_scan(r, rank, board, n - 1);
        if e is None {
            assert(0 <= f < 256);
        }
    } else {
        assert(r.take(0) =~= Seq::<char>::empty());
    }
}

/// A character that is neither a digit nor a piece letter makes reading the rank
/// fail.
proof fn lemma_rank_bad_char(r: Seq<char>, rank: int, board: Seq<Option<Piece>>, i: int)
    requires
        0 <= i < r.len(),
        !is_digit(r[i]),
        char_piece(r[i]) is None,
    ensures
        rank_read(r, rank, board).1 is Some,
{
    assert(rank_scan(r, rank, board, i + 1).2 is Some);
    lemma_rank_scan_error_sticks(r, rank, board, i + 1, r.len() as int);
}

/// A rank of width other than 9 (and below 256) makes reading the rank fail.
proof fn lemma_rank_bad_width(r: Seq<char>, rank: int, board: Seq<Option<Piece>>)
    requires
        rank_width(r) != 9,
        rank_width(r) < 256,
    ensures
        rank_read(r, rank, board).1 is Some,
{
    lemma_rank_scan_width(r, rank, board, r.len() as int);
    assert(r.take(r.len() as int) =~= r);
}

/// A failing rank read makes reading all ten ranks fail.
proof fn lemma_rank_error_spreads(ranks: Seq<Seq<char>>, k: int)
    requires
        0 <= k < 10,
        ranks_read(ranks, k).1 is Some || rank_read(ranks[k], 9 - k, ranks_read(ranks, k).0).1 is Some,
    ensures
        ranks_read(ranks, 10).1 is Some,
{
    assert(ranks_read(ranks, k + 1).1 is Some);
    lemma_ranks_read_error_sticks(ranks, k + 1, 10);
}

/// A FEN string is refused when it holds no word, when its first word does not
/// split at `/` into ten ranks, when a rank holds a character that is neither a
/// digit nor a piece letter, when a rank spans other than 9 files (widths from
/// 256 on are counted modulo 256), and when the side-to-move word is neither `w`
/// nor `b`.
pub proof fn lemma_fen_rejections(s: Seq<char>)
    ensures
        words(s).len() == 0 ==> fen_error(s) == Some(PositionSetError::EmptyFen),
        words(s).len() > 0 && fen_ranks(s).len() != 10 ==> fen_error(s) == Some(
            PositionSetError::WrongRankCount,
        ),
        (words(s).len() > 0 && fen_ranks(s).len() == 10 && exists|k: int, i: int|
            0 <= k < 10 && 0 <= i < fen_ranks(s)[k].len() && !is_digit(#[trigger] fen_ranks(s)[k][i])
                && char_piece(fen_ranks(s)[k][i]) is None) ==> fen_error(s) is Some,
        (words(s).len() > 0 && fen_ranks(s).len() == 10 && exists|k: int|
            0 <= k < 10 && rank_width(#[trigger] fen_ranks(s)[k]) != 9 && rank_width(fen_ranks(s)[k]) < 256)
            ==> fen_error(s) is Some,
        words(s).len() > 1 && words(s)[1] != seq!['w'] && words(s)[1] != seq!['b'] ==> fen_error(s) is Some,
{
    let ranks = fen_ranks(s);
    if words(s).len() > 0 && ranks.len() == 10 {
        if exists|k: int, i: int|
            0 <= k < 10 && 0 <= i < ranks[k].len() && !is_digit(#[trigger] ranks[k][i]) && char_piece(ranks[k][i]) is None {
            let (k, i) = choose|k: int, i: int|
                0 <= k < 10 && 0 <= i < ranks[k].len() && !is_digit(#[trigger] ranks[k][i]) && char_piece(ranks[k][i]) is None;
            lemma_rank_bad_char(ranks[k], 9 - k, ranks_read(ranks, k).0, i);
            lemma_rank_error_spreads(ranks, k);
        }
        if exists|k: int| 0 <= k < 10 && rank_width(#[trigger] ranks[k]) != 9 && rank_width(ranks[k]) < 256 {
            let k = choose|k: int| 0 <= k < 10 && rank_width(#[trigger] ranks[k]) != 9 && rank_width(ranks[k]) < 256;
            lemma_rank_bad_width(ranks[k], 9 - k, ranks_read(ranks, k).0);
            lemma_rank_error_spreads(ranks, k);
        }
    }
}

} // verus!
