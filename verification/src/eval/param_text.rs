//! The evaluation parameters as source text, ready to paste into the tables.
use vstd::prelude::*;

use crate::eval::eval_params::EvalParams;
use crate::perft_positions::push_char;
use crate::score::PackedScore;

verus! {

/// The decimal digit `d` as a character.
pub open spec fn digit_char(d: int) -> char {
    if d == 0 {
        '0'
    } else if d == 1 {
        '1'
    } else if d == 2 {
        '2'
    } else if d == 3 {
        '3'
    } else if d == 4 {
        '4'
    } else if d == 5 {
        '5'
    } else if d == 6 {
        '6'
    } else if d == 7 {
        '7'
    } else if d == 8 {
        '8'
    } else {
        '9'
    }
}

/// The decimal digits of `n`, most significant first.
pub open spec fn digits(n: nat) -> Seq<char>
    decreases n,
{
    if n < 10 {
        seq![digit_char(n as int)]
    } else {
        digits(n / 10).push(digit_char((n % 10) as int))
    }
}

/// `v` in decimal, with a minus sign when it is negative.
pub open spec fn decimal(v: int) -> Seq<char> {
    if v < 0 {
        seq!['-'] + digits((-v) as nat)
    } else {
        digits(v as nat)
    }
}

/// A score pair written as `(mg, eg)`.
pub open spec fn pair_text(p: PackedScore) -> Seq<char> {
    "("@ + decimal(p.mg as int) + ", "@ + decimal(p.eg as int) + ")"@
}

/// Three score pairs separated by commas.
pub open spec fn triple_text(t: Seq<PackedScore>) -> Seq<char> {
    pair_text(t[0]) + ", "@ + pair_text(t[1]) + ", "@ + pair_text(t[2])
}

/// The line declaring the constant `name` as the score pair `p`.
pub open spec fn const_line(name: Seq<char>, p: PackedScore) -> Seq<char> {
    "pub const "@ + name + ": PackedScore = "@ + pair_text(p) + ";\n"@
}

/// The lines of the first `n` pairs of `t`, one per line, indented, with a comma
/// after each but the last of `t`.
pub open spec fn pair_lines(t: Seq<PackedScore>, n: int) -> Seq<char>
    decreases n,
{
    if n <= 0 {
        Seq::empty()
    } else {
        pair_lines(t, n - 1) + "    "@ + pair_text(t[n - 1]) + (if n < t.len() {
            ","@
        } else {
            Seq::empty()
        }) + "\n"@
    }
}

/// The declaration of the constant array `name` of `len_text` score pairs `t`.
pub open spec fn pairs_block(name: Seq<char>, len_text: Seq<char>, t: Seq<PackedScore>) -> Seq<
    char,
> {
    "\npub const "@ + name + ": [PackedScore; "@ + len_text + "] = [\n"@ + pair_lines(t, t.len() as int)
        + "];\n"@
}

/// A cell of a piece-square table: the pair and a comma.
pub open spec fn cell_text(p: PackedScore) -> Seq<char> {
    pair_text(p) + ","@
}

/// `c` followed by spaces up to width `w`.
pub open spec fn padded(c: Seq<char>, w: int) -> Seq<char> {
    if c.len() < w {
        c + Seq::new((w - c.len()) as nat, |i: int| ' ')
    } else {
        c
    }
}

/// The length of the longest cell among the first `n` entries of `t`.
pub open spec fn widest_cell(t: Seq<PackedScore>, n: int) -> int
    decreases n,
{
    if n <= 0 {
        0
    } else {
        let w = widest_cell(t, n - 1);
        let c = cell_text(t[n - 1]).len() as int;
        if c > w {
            c
        } else {
            w
        }
    }
}

/// The first `f` cells of rank `rank` of table `t`, each padded to width `w`.
pub open spec fn rank_cells(t: Seq<PackedScore>, rank: int, f: int, w: int) -> Seq<char>
    decreases f,
{
    if f <= 0 {
        Seq::empty()
    } else {
        rank_cells(t, rank, f - 1, w) + padded(cell_text(t[rank * 9 + f - 1]), w)
    }
}

/// The first `r` ranks of table `t`, each a comment line and a line of cells of
/// width `w`.
pub open spec fn rank_lines(t: Seq<PackedScore>, r: int, w: int) -> Seq<char>
    decreases r,
{
    if r <= 0 {
        Seq::empty()
    } else {
        rank_lines(t, r - 1, w) + "    // Rank "@ + decimal(r - 1) + "\n"@ + "    "@ + rank_cells(
            t,
            r - 1,
            9,
            w,
        ) + "\n"@
    }
}

/// The declaration of the piece-square table `name`, rank by rank, its cells
/// padded to one more than the widest.
pub open spec fn pst_block(name: Seq<char>, t: Seq<PackedScore>) -> Seq<char> {
    "\npub const "@ + name + ": [PackedScore; 90] = [\n"@ + rank_lines(t, 10, widest_cell(t, 90) + 1)
        + "];\n"@
}

/// The text listing every evaluation parameter of `p` as constant declarations.
pub open spec fn optimized_parameters_text(p: &EvalParams) -> Seq<char> {
    Seq::<char>::empty() + "\n=====================================================================\n"@
        + "  OPTIMIZED EVALUATION PARAMETERS\n"@
        + "=====================================================================\n"@
        + "\n// Tapered bonuses for having 0, 1, or 2 Advisors\n"@
        + "pub const ADVISOR_COUNT_BONUS: [PackedScore; 3] = ["@ + triple_text(
        p.advisor_count_bonus@,
    ) + "];\n"@ + "\n// Tapered bonuses for having 0, 1, or 2 Bishops (Elephants)\n"@
        + "pub const BISHOP_COUNT_BONUS: [PackedScore; 3] = ["@ + triple_text(p.bishop_count_bonus@)
        + "];\n"@ + "\n// Material values\n"@ + const_line("ROOK"@, p.material@[0]) + const_line(
        "ADVISOR"@,
        p.material@[1],
    ) + const_line("CANNON"@, p.material@[2]) + const_line("PAWN"@, p.material@[3]) + const_line(
        "KNIGHT"@,
        p.material@[4],
    ) + const_line("BISHOP"@, p.material@[5]) + const_line("PAWN_CROSSED"@, p.pawn_crossed)
        + "\n// Mobility tables\n"@ + pairs_block(
        "KNIGHT_MOBILITY_BONUS"@,
        "9"@,
        p.knight_mobility@,
    ) + pairs_block("ROOK_MOBILITY_BONUS"@, "18"@, p.rook_mobility@) + pairs_block(
        "CANNON_MOBILITY_BONUS"@,
        "18"@,
        p.cannon_mobility@,
    ) + "\n// Piece-square tables\n"@ + pst_block("PIECE_SQUARE_TABLE_KING_TAPERED"@, p.psts@[6]@)
        + pst_block("PIECE_SQUARE_TABLE_ADVISOR_TAPERED"@, p.psts@[1]@) + pst_block(
        "PIECE_SQUARE_TABLE_BISHOP_TAPERED"@,
        p.psts@[5]@,
    ) + pst_block("PIECE_SQUARE_TABLE_KNIGHT_TAPERED"@, p.psts@[4]@) + pst_block(
        "PIECE_SQUARE_TABLE_ROOK_TAPERED"@,
        p.psts@[0]@,
    ) + pst_block("PIECE_SQUARE_TABLE_CANNON_TAPERED"@, p.psts@[2]@) + pst_block(
        "PIECE_SQUARE_TABLE_PAWN_TAPERED"@,
        p.psts@[3]@,
    )
}

/// `10` to the power `k`.
pub open spec fn pow10(k: nat) -> nat
    decreases k,
{
    if k == 0 {
        1
    } else {
        10 * pow10((k - 1) as nat)
    }
}

/// A number below `10^k` has at most `k + 1` digits.
proof fn lemma_digits_len(n: nat, k: nat)
    requires
        n < pow10(k),
    ensures
        digits(n).len() <= k + 1,
    decreases k,
{
    if n >= 10 && k > 0 {
        let p = pow10((k - 1) as nat);
        assert(n / 10 < p) by (nonlinear_arith)
            requires
                n < 10 * p,
        ;
        lemma_digits_len(n / 10, (k - 1) as nat);
    }
}

/// A cell holds at most 29 characters.
proof fn lemma_cell_len(p: PackedScore)
    ensures
        cell_text(p).len() <= 29,
{
    assert(pow10(10) == 10_000_000_000) by {
        reveal_with_fuel(pow10, 11);
    }
    let a = p.mg as int;
    let b = p.eg as int;
    lemma_digits_len((if a < 0 { -a } else { a }) as nat, 10);
    lemma_digits_len((if b < 0 { -b } else { b }) as nat, 10);
    reveal_strlit("(");
    reveal_strlit(", ");
    reveal_strlit(")");
    reveal_strlit(",");
}

/// No cell among the first `n` of `t` is wider than 29 characters.
proof fn lemma_widest_cell(t: Seq<PackedScore>, n: int)
    requires
        n <= t.len(),
    ensures
        0 <= widest_cell(t, n) <= 29,
    decreases n,
{
    if n > 0 {
        lemma_widest_cell(t, n - 1);
        lemma_cell_len(t[n - 1]);
    }
}

/// The character of digit `d`.
fn digit(d: u64) -> (c: char)
    requires
        d < 10,
    ensures
        c == digit_char(d as int),
{
    if d == 0 {
        '0'
    } else if d == 1 {
        '1'
    } else if d == 2 {
        '2'
    } else if d == 3 {
        '3'
    } else if d == 4 {
        '4'
    } else if d == 5 {
        '5'
    } else if d == 6 {
        '6'
    } else if d == 7 {
        '7'
    } else if d == 8 {
        '8'
    } else {
        '9'
    }
}

/// Appends the decimal digits of `n`.
fn push_digits(s: &mut String, n: u64)
    ensures
        final(s)@ == old(s)@ + digits(n as nat),
    decreases n,
{
    let ghost o = s@;
    if n >= 10 {
        push_digits(s, n / 10);
    }
    push_char(s, digit(n % 10));
    proof {
        if n >= 10 {
            assert((o + digits((n / 10) as nat)).push(digit_char((n % 10) as int)) =~= o + digits(
                n as nat,
            ));
        } else {
            assert(o.push(digit_char((n % 10) as int)) =~= o + digits(n as nat));
        }
    }
}

/// Appends `v` in decimal.
fn push_decimal(s: &mut String, v: i32)
    ensures
        final(s)@ == old(s)@ + decimal(v as int),
{
    let ghost o = s@;
    if v < 0 {
        push_char(s, '-');
        let n: u64 = (0i64 - v as i64) as u64;
        push_digits(s, n);
        proof {
            assert(o.push('-') + digits(n as nat) =~= o + (seq!['-'] + digits(n as nat)));
        }
    } else {
        push_digits(s, v as u64);
    }
}

/// Appends the score pair `p` as `(mg, eg)`.
fn push_pair(s: &mut String, p: PackedScore)
    ensures
        final(s)@ == old(s)@ + pair_text(p),
{
    let ghost o = s@;
    s.append("(");
    push_decimal(s, p.mg);
    s.append(", ");
    push_decimal(s, p.eg);
    s.append(")");
    proof {
        assert(s@ =~= o + pair_text(p));
    }
}

/// Appends three score pairs separated by commas.
fn push_triple(s: &mut String, t: &[PackedScore; 3])
    ensures
        final(s)@ == old(s)@ + triple_text(t@),
{
    let ghost o = s@;
    push_pair(s, t[0]);
    s.append(", ");
    push_pair(s, t[1]);
    s.append(", ");
    push_pair(s, t[2]);
    proof {
        assert(s@ =~= o + triple_text(t@));
    }
}

/// Appends the line declaring the constant `name` as the pair `p`.
fn push_const_line(s: &mut String, name: &str, p: PackedScore)
    ensures
        final(s)@ == old(s)@ + const_line(name@, p),
{
    let ghost o = s@;
    s.append("pub const ");
    s.append(name);
    s.append(": PackedScore = ");
    push_pair(s, p);
    s.append(";\n");
    proof {
        assert(s@ =~= o + const_line(name@, p));
    }
}

/// Appends the declaration of the constant array `name` of `len_text` pairs `t`.
fn push_pairs_block<const N: usize>(s: &mut String, name: &str, len_text: &str, t: &[PackedScore; N])
    ensures
        final(s)@ == old(s)@ + pairs_block(name@, len_text@, t@),
{
    let ghost o = s@;
    s.append("\npub const ");
    s.append(name);
    s.append(": [PackedScore; ");
    s.append(len_text);
    s.append("] = [\n");
    let ghost s1 = s@;
    let mut i: usize = 0;
    while i < N
        invariant
            i <= N,
            t@.len() == N,
            s@ == s1 + pair_lines(t@, i as int),
        decreases N - i,
    {
        let ghost before = s@;
        s.append("    ");
        push_pair(s, t[i]);
        if i + 1 < N {
            s.append(",");
        }
        s.append("\n");
        proof {
            let line = "    "@ + pair_text(t@[i as int]) + (if i + 1 < t@.len() {
                ","@
            } else {
                Seq::empty()
            }) + "\n"@;
            assert(s@ =~= before + line);
            assert(pair_lines(t@, i + 1) == pair_lines(t@, i as int) + line);
            assert(s@ =~= s1 + pair_lines(t@, i + 1));
        }
        i = i + 1;
    }
    s.append("];\n");
    proof {
        assert(s@ =~= o + pairs_block(name@, len_text@, t@));
    }
}

/// The cell of pair `p`: the pair and a comma.
fn cell_string(p: PackedScore) -> (r: String)
    ensures
        r@ == cell_text(p),
{
    let mut c = String::new();
    push_pair(&mut c, p);
    c.append(",");
    proof {
        assert(c@ =~= cell_text(p));
    }
    c
}

/// The length of the widest cell of table `t`.
fn widest(t: &[PackedScore; 90]) -> (r: usize)
    ensures
        r == widest_cell(t@, 90),
{
    let mut w: usize = 0;
    let mut i: usize = 0;
    while i < 90
        invariant
            i <= 90,
            t@.len() == 90,
            w == widest_cell(t@, i as int),
        decreases 90 - i,
    {
        let c = cell_string(t[i]);
        let n = c.as_str().unicode_len();
        if n > w {
            w = n;
        }
        i = i + 1;
    }
    w
}

/// Appends rank `rank` of table `t`, each cell padded to width `w`.
fn push_rank_cells(s: &mut String, t: &[PackedScore; 90], rank: usize, w: usize)
    requires
        rank < 10,
    ensures
        final(s)@ == old(s)@ + rank_cells(t@, rank as int, 9, w as int),
{
    let ghost o = s@;
    let mut f: usize = 0;
    while f < 9
        invariant
            f <= 9,
            rank < 10,
            t@.len() == 90,
            s@ == o + rank_cells(t@, rank as int, f as int, w as int),
        decreases 9 - f,
    {
        let ghost before = s@;
        let c = cell_string(t[rank * 9 + f]);
        let n = c.as_str().unicode_len();
        s.append(c.as_str());
        let mut k: usize = n;
        while k < w
            invariant
                n <= k,
                n == c@.len(),
                k < w ==> s@ == before + c@ + Seq::new((k - n) as nat, |j: int| ' '),
                k >= w ==> (k == n ==> s@ == before + c@) && (k > n ==> s@ == before + c@ + Seq::new(
                    (k - n) as nat,
                    |j: int| ' ',
                )),
                k > n ==> k <= w,
            decreases w - k,
        {
            let ghost prev = s@;
            push_char(s, ' ');
            proof {
                assert(s@ =~= before + c@ + Seq::new((k + 1 - n) as nat, |j: int| ' '));
            }
            k = k + 1;
        }
        proof {
            if n < w {
                assert(k == w);
                assert(s@ == before + padded(c@, w as int));
            } else {
                assert(k == n);
                assert(s@ =~= before + padded(c@, w as int));
            }
            assert(s@ =~= o + rank_cells(t@, rank as int, f + 1, w as int));
        }
        f = f + 1;
    }
}

/// Appends the declaration of the piece-square table `name`.
fn push_pst_block(s: &mut String, name: &str, t: &[PackedScore; 90])
    ensures
        final(s)@ == old(s)@ + pst_block(name@, t@),
{
    let ghost o = s@;
    let w = widest(t);
    proof {
        lemma_widest_cell(t@, 90);
    }
    s.append("\npub const ");
    s.append(name);
    s.append(": [PackedScore; 90] = [\n");
    let ghost s1 = s@;
    let mut r: usize = 0;
    while r < 10
        invariant
            r <= 10,
            t@.len() == 90,
            w == widest_cell(t@, 90),
            w <= 29,
            s@ == s1 + rank_lines(t@, r as int, w + 1),
        decreases 10 - r,
    {
        let ghost before = s@;
        s.append("    // Rank ");
        push_decimal(s, r as i32);
        s.append("\n");
        s.append("    ");
        push_rank_cells(s, t, r, w + 1);
        s.append("\n");
        proof {
            assert(s@ =~= s1 + rank_lines(t@, r + 1, w + 1));
        }
        r = r + 1;
    }
    s.append("];\n");
    proof {
        assert(s@ =~= o + pst_block(name@, t@));
    }
}

/// The parameters `params` as constant declarations to paste into the evaluation
/// tables: the advisor and bishop count bonuses, the material values, the mobility
/// tables and the piece-square tables (king, advisor, bishop, knight, rook, cannon,
/// pawn), each table's cells padded to a common width.
pub fn format_optimized_parameters(params: &EvalParams) -> (r: String)
    ensures
        r@ == optimized_parameters_text(params),
{
    let mut s = String::new();
    s.append("\n=====================================================================\n");
    s.append("  OPTIMIZED EVALUATION PARAMETERS\n");
    s.append("=====================================================================\n");
    s.append("\n// Tapered bonuses for having 0, 1, or 2 Advisors\n");
    s.append("pub const ADVISOR_COUNT_BONUS: [PackedScore; 3] = [");
    push_triple(&mut s, &params.advisor_count_bonus);
    s.append("];\n");
    s.append("\n// Tapered bonuses for having 0, 1, or 2 Bishops (Elephants)\n");
    s.append("pub const BISHOP_COUNT_BONUS: [PackedScore; 3] = [");
    push_triple(&mut s, &params.bishop_count_bonus);
    s.append("];\n");
    s.append("\n// Material values\n");
    push_const_line(&mut s, "ROOK", params.material[0]);
    push_const_line(&mut s, "ADVISOR", params.material[1]);
    push_const_line(&mut s, "CANNON", params.material[2]);
    push_const_line(&mut s, "PAWN", params.material[3]);
    push_const_line(&mut s, "KNIGHT", params.material[4]);
    push_const_line(&mut s, "BISHOP", params.material[5]);
    push_const_line(&mut s, "PAWN_CROSSED", params.pawn_crossed);
    s.append("\n// Mobility tables\n");
    push_pairs_block(&mut s, "KNIGHT_MOBILITY_BONUS", "9", &params.knight_mobility);
    push_pairs_block(&mut s, "ROOK_MOBILITY_BONUS", "18", &params.rook_mobility);
    push_pairs_block(&mut s, "CANNON_MOBILITY_BONUS", "18", &params.cannon_mobility);
    s.append("\n// Piece-square tables\n");
    push_pst_block(&mut s, "PIECE_SQUARE_TABLE_KING_TAPERED", &params.psts[6]);
    push_pst_block(&mut s, "PIECE_SQUARE_TABLE_ADVISOR_TAPERED", &params.psts[1]);
    push_pst_block(&mut s, "PIECE_SQUARE_TABLE_BISHOP_TAPERED", &params.psts[5]);
    push_pst_block(&mut s, "PIECE_SQUARE_TABLE_KNIGHT_TAPERED", &params.psts[4]);
    push_pst_block(&mut s, "PIECE_SQUARE_TABLE_ROOK_TAPERED", &params.psts[0]);
    push_pst_block(&mut s, "PIECE_SQUARE_TABLE_CANNON_TAPERED", &params.psts[2]);
    push_pst_block(&mut s, "PIECE_SQUARE_TABLE_PAWN_TAPERED", &params.psts[3]);
    s
}

} // verus!
