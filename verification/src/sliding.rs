//! Rook and cannon attacks on the board, computed from the ranks and files of the
//! occupancy with the line functions of [`crate::lines`].
use crate::bitboard::{Bitboard, bit, lemma_bit_ops, lemma_bit_single, lemma_zero_iff_no_bits};
use crate::lines::{
    between, bit32, cannon_beyond_attack, cannon_beyond_set, cannon_ray, cannon_ray_set, count_between,
    lemma_bit32_zero, lemma_count_between_one, lemma_count_between_zero, line_of, mask_set, only_point,
    rook_ray, rook_ray_set,
};
use crate::types::{Square, lemma_square_idx};
use vstd::prelude::*;

verus! {

broadcast use lemma_square_idx;

/// The occupancy of rank `r` of the board occupancy `occ`, as a line of 9 points
/// indexed by file.
pub open spec fn rank_line(occ: Set<int>, r: int) -> spec_fn(int) -> bool {
    |j: int| 0 <= j < 9 && occ.contains(r * 9 + j)
}

/// The occupancy of file `f` of the board occupancy `occ`, as a line of 10 points
/// indexed by rank.
pub open spec fn file_line(occ: Set<int>, f: int) -> spec_fn(int) -> bool {
    |j: int| 0 <= j < 10 && occ.contains(j * 9 + f)
}

/// The squares of rank `r` whose file is in `line_set`.
pub open spec fn on_rank(line_set: Set<int>, r: int) -> Set<int> {
    Set::new(|t: int| 0 <= t < 90 && Square::rank_of(t) == r && line_set.contains(Square::file_of(t)))
}

/// The squares of file `f` whose rank is in `line_set`.
pub open spec fn on_file(line_set: Set<int>, f: int) -> Set<int> {
    Set::new(|t: int| 0 <= t < 90 && Square::file_of(t) == f && line_set.contains(Square::rank_of(t)))
}

/// Squares a rook on `s` reaches given the occupancy `occ`: along its rank and its
/// file, up to and including the first occupied square in each direction.
pub open spec fn rook_set(s: int, occ: Set<int>) -> Set<int> {
    let r = Square::rank_of(s);
    let f = Square::file_of(s);
    on_rank(rook_ray_set(rank_line(occ, r), f, 9), r).union(
        on_file(rook_ray_set(file_line(occ, f), r, 10), f),
    )
}

/// Squares a cannon on `s` captures on given the occupancy `occ`: occupied squares
/// along its rank and file with exactly one occupied square in between.
pub open spec fn cannon_capture_set(s: int, occ: Set<int>) -> Set<int> {
    let r = Square::rank_of(s);
    let f = Square::file_of(s);
    on_rank(cannon_ray_set(rank_line(occ, r), f, 9), r).union(
        on_file(cannon_ray_set(file_line(occ, f), r, 10), f),
    )
}

/// Whether square `u` lies strictly between squares `s` and `t` on their common
/// rank or file.
pub open spec fn strictly_between(s: int, t: int, u: int) -> bool {
    &&& 0 <= u < 90
    &&& {
        ||| u / 9 == s / 9 && t / 9 == s / 9 && (s % 9 < u % 9 < t % 9 || t % 9 < u % 9 < s % 9)
        ||| u % 9 == s % 9 && t % 9 == s % 9 && (s / 9 < u / 9 < t / 9 || t / 9 < u / 9 < s / 9)
    }
}

/// The line of `s` through `t` (its rank or its file), the position of `s` and of
/// `t` on it, and its length.
spec fn line_through(occ: Set<int>, s: int, t: int) -> (spec_fn(int) -> bool, int, int, int) {
    if s / 9 == t / 9 {
        (rank_line(occ, s / 9), s % 9, t % 9, 9)
    } else {
        (file_line(occ, s % 9), s / 9, t / 9, 10)
    }
}

/// On the line of `s` through `t`, a point strictly between holds a square
/// strictly between `s` and `t`, and the other way round.
proof fn lemma_line_through(occ: Set<int>, s: int, t: int)
    requires
        0 <= s < 90,
        0 <= t < 90,
        s != t,
        same_line(s, t),
    ensures
        ({
            let (line, p, q, len) = line_through(occ, s, t);
            &&& 0 <= p < len
            &&& 0 <= q < len
            &&& p != q
            &&& forall|j: int|
                (p < j < q || q < j < p) ==> #[trigger] line(j) == occ.contains(
                    if s / 9 == t / 9 {
                        (s / 9) * 9 + j
                    } else {
                        j * 9 + s % 9
                    },
                ) && strictly_between(
                    s,
                    t,
                    if s / 9 == t / 9 {
                        (s / 9) * 9 + j
                    } else {
                        j * 9 + s % 9
                    },
                )
            &&& forall|u: int|
                #[trigger] strictly_between(s, t, u) ==> {
                    let j = if s / 9 == t / 9 {
                        u % 9
                    } else {
                        u / 9
                    };
                    &&& (p < j < q || q < j < p)
                    &&& u == if s / 9 == t / 9 {
                        (s / 9) * 9 + j
                    } else {
                        j * 9 + s % 9
                    }
                }
        }),
{
}

/// Whether no occupied square lies strictly between `s` and `t`.
pub open spec fn clear_between(s: int, t: int, occ: Set<int>) -> bool {
    forall|u: int| #[trigger] strictly_between(s, t, u) ==> !occ.contains(u)
}

/// Whether exactly one occupied square lies strictly between `s` and `t`.
pub open spec fn one_between(s: int, t: int, occ: Set<int>) -> bool {
    exists|u: int|
        #![trigger strictly_between(s, t, u)]
        strictly_between(s, t, u) && occ.contains(u) && forall|v: int|
            #[trigger] strictly_between(s, t, v) && occ.contains(v) ==> v == u
}

/// On the line of `s` through `t`, membership of `t` in the rook or cannon line
/// sets is decided by the count of occupied points strictly between.
proof fn lemma_line_sets_at(s: int, occ: Set<int>, t: int)
    requires
        0 <= s < 90,
        0 <= t < 90,
        t != s,
        same_line(s, t),
    ensures
        ({
            let (line, p, q, len) = line_through(occ, s, t);
            &&& rook_set(s, occ).contains(t) == (between(line, p, q) == 0)
            &&& cannon_capture_set(s, occ).contains(t) == (occ.contains(t) && between(line, p, q) == 1)
        }),
{
    lemma_line_through(occ, s, t);
    if s / 9 == t / 9 {
        assert(t % 9 != s % 9);
        assert(t == (s / 9) * 9 + t % 9);
    } else {
        assert(t == (t / 9) * 9 + s % 9);
    }
}

/// The rook law at one square `t`.
proof fn lemma_rook_at(s: int, occ: Set<int>, t: int)
    requires
        0 <= s < 90,
    ensures
        rook_set(s, occ).contains(t) <==> (0 <= t < 90 && t != s && same_line(s, t) && clear_between(s, t, occ)),
{
    if 0 <= t < 90 && t != s && same_line(s, t) {
        lemma_line_sets_at(s, occ, t);
        lemma_line_through(occ, s, t);
        let (line, p, q, len) = line_through(occ, s, t);
        let lo = if p < q { p } else { q };
        let hi = if p < q { q } else { p };
        lemma_count_between_zero(line, lo, hi);
        if between(line, p, q) == 0 {
            assert forall|u: int| #[trigger] strictly_between(s, t, u) implies !occ.contains(u) by {
                let j = if s / 9 == t / 9 { u % 9 } else { u / 9 };
                assert(!line(j));
            }
        }
        if clear_between(s, t, occ) {
            assert forall|j: int| lo < j < hi implies !#[trigger] line(j) by {
                let u = if s / 9 == t / 9 { (s / 9) * 9 + j } else { j * 9 + s % 9 };
                assert(strictly_between(s, t, u));
            }
        }
    }
}

/// The cannon law at one square `t`.
proof fn lemma_cannon_at(s: int, occ: Set<int>, t: int)
    requires
        0 <= s < 90,
    ensures
        cannon_capture_set(s, occ).contains(t) <==> (0 <= t < 90 && t != s && same_line(s, t) && occ.contains(t)
            && one_between(s, t, occ)),
{
    if 0 <= t < 90 && t != s && same_line(s, t) {
        lemma_line_sets_at(s, occ, t);
        lemma_line_through(occ, s, t);
        let (line, p, q, len) = line_through(occ, s, t);
        let lo = if p < q { p } else { q };
        let hi = if p < q { q } else { p };
        lemma_count_between_one(line, lo, hi);
        if between(line, p, q) == 1 {
            let j = choose|j: int| #[trigger] only_point(line, lo, hi, j);
            let u = if s / 9 == t / 9 { (s / 9) * 9 + j } else { j * 9 + s % 9 };
            assert(strictly_between(s, t, u) && occ.contains(u));
            assert forall|v: int| #[trigger] strictly_between(s, t, v) && occ.contains(v) implies v == u by {
                let jv = if s / 9 == t / 9 { v % 9 } else { v / 9 };
                assert(line(jv));
            }
        }
        if one_between(s, t, occ) {
            let u = choose|u: int|
                #![trigger strictly_between(s, t, u)]
                strictly_between(s, t, u) && occ.contains(u) && forall|v: int|
                    #[trigger] strictly_between(s, t, v) && occ.contains(v) ==> v == u;
            let j = if s / 9 == t / 9 { u % 9 } else { u / 9 };
            assert forall|k: int| lo < k < hi && #[trigger] line(k) implies k == j by {
                let v = if s / 9 == t / 9 { (s / 9) * 9 + k } else { k * 9 + s % 9 };
                assert(strictly_between(s, t, v) && occ.contains(v));
            }
            assert(only_point(line, lo, hi, j));
        }
    }
}

/// The rook's squares in board terms: every other square of its rank or file with
/// no occupied square strictly in between (the first blocker included, whatever
/// its side).
pub proof fn lemma_rook_attacks_form(s: int, occ: Set<int>)
    requires
        0 <= s < 90,
    ensures
        forall|t: int|
            #[trigger] rook_set(s, occ).contains(t) <==> (0 <= t < 90 && t != s && same_line(s, t)
                && clear_between(s, t, occ)),
{
    assert forall|t: int|
        #[trigger] rook_set(s, occ).contains(t) <==> (0 <= t < 90 && t != s && same_line(s, t)
            && clear_between(s, t, occ)) by {
        lemma_rook_at(s, occ, t);
    }
}

/// The cannon's captures in board terms: occupied squares of its rank or file with
/// exactly one occupied square (the screen) strictly in between.
pub proof fn lemma_cannon_captures_form(s: int, occ: Set<int>)
    requires
        0 <= s < 90,
    ensures
        forall|t: int|
            #[trigger] cannon_capture_set(s, occ).contains(t) <==> (0 <= t < 90 && t != s && same_line(s, t)
                && occ.contains(t) && one_between(s, t, occ)),
{
    assert forall|t: int|
        #[trigger] cannon_capture_set(s, occ).contains(t) <==> (0 <= t < 90 && t != s && same_line(s, t)
            && occ.contains(t) && one_between(s, t, occ)) by {
        lemma_cannon_at(s, occ, t);
    }
}

/// Squares along the rank and file of `s` with exactly one occupied square in between.
pub open spec fn cannon_beyond_attack_set(s: int, occ: Set<int>) -> Set<int> {
    let r = Square::rank_of(s);
    let f = Square::file_of(s);
    on_rank(cannon_beyond_set(rank_line(occ, r), f, 9), r).union(
        on_file(cannon_beyond_set(file_line(occ, f), r, 10), f),
    )
}

/// Wrapping multiplication by the gathering magic is the truncated product.
proof fn lemma_wrapping_magic(vl: u64, pl: u64, vh: u64, ph: u64)
    by (bit_vector)
    requires
        pl == (((vl * 0x1010101010u64) % 0x1_0000_0000_0000_0000) as u64),
        ph == (((vh * 0x1010101010u64) % 0x1_0000_0000_0000_0000) as u64),
    ensures
        pl == ((vl * 0x1010101010u64) as u64),
        ph == ((vh * 0x1010101010u64) as u64),
{
}

/// The bits of the packed value: the five gathered bits of each half.
proof fn lemma_gather_bit(pl: u64, ph: u64, rr: u64, jj: u64)
    by (bit_vector)
    requires
        rr == (((pl >> 36u64) & 0x1Fu64) | (((ph >> 36u64) & 0x1Fu64) << 5u64)),
        jj < 32,
    ensures
        rr < 1024,
        (((rr as u32) >> (jj as u32)) & 1u32) == ((rr >> jj) & 1u64) as u32,
        jj < 5 ==> ((rr >> jj) & 1u64) == (((pl >> 36u64) & 0x1Fu64) >> jj) & 1u64,
        5 <= jj < 10 ==> ((rr >> jj) & 1u64) == (((ph >> 36u64) & 0x1Fu64) >> ((jj - 5) as u64))
            & 1u64,
        jj >= 10 ==> (rr >> jj) & 1u64 == 0u64,
{
}

/// The magic multiplication gathers every ninth bit of the five low ranks of `v`.
proof fn lemma_magic_gather(v: u64, p: u64, kk: u64)
    by (bit_vector)
    requires
        p == (((v & 0x10_0804_0201u64) * 0x1010101010u64) as u64),
        kk < 5,
    ensures
        (((p >> 36u64) & 0x1Fu64) >> kk) & 1u64 == (v >> ((9 * kk) as u64)) & 1u64,
{
}

/// The bits of the two 64-bit halves of the shifted board.
proof fn lemma_file_split(bits: u128, ff: u128, lo_in: u64, hi_in: u64, kk: u64)
    by (bit_vector)
    requires
        lo_in == (bits >> ff) as u64,
        hi_in == ((bits >> ff) >> 45u128) as u64,
        kk < 5,
        ff < 9,
    ensures
        (lo_in >> ((9 * kk) as u64)) & 1u64 == ((bits >> (9 * (kk as u128) + ff)) & 1u128) as u64,
        (hi_in >> ((9 * kk) as u64)) & 1u64 == ((bits >> (9 * (kk as u128) + 45 + ff)) & 1u128) as u64,
        ((bits >> (9 * (kk as u128) + ff)) & 1u128 == 1u128) == (((bits >> (9 * (kk as u128) + ff))
            & 1u128) as u64 == 1u64),
        ((bits >> (9 * (kk as u128) + 45 + ff)) & 1u128 == 1u128) == (((bits >> (9 * (kk as u128)
            + 45 + ff)) & 1u128) as u64 == 1u64),
{
}

/// Packs the 10 bits of file `f` (every 9th bit starting at `f`) into a contiguous
/// 10-bit integer. Splits the board in two 64-bit halves of five ranks each and
/// packs each half with a magic multiplication.
pub fn gather_file_bits(bits: u128, f: usize) -> (r: usize)
    requires
        f < 9,
    ensures
        r < 1024,
        forall|j: int| 0 <= j < 10 ==> (#[trigger] bit32(r as u32, j) == bit(bits, j * 9 + f)),
        forall|j: int| 10 <= j ==> !#[trigger] bit32(r as u32, j),
{
    let occ = bits >> f;
    #[verifier::truncate]
    let lo_in = occ as u64;
    #[verifier::truncate]
    let hi_in = (occ >> 45) as u64;
    let step_mask: u64 = 0x10_0804_0201;
    let magic_multiplier: u64 = 0x1010101010;
    let low = (lo_in & step_mask).wrapping_mul(magic_multiplier) >> 36;
    let high = (hi_in & step_mask).wrapping_mul(magic_multiplier) >> 36;
    let r = ((low & 0x1F) | ((high & 0x1F) << 5)) as usize;
    proof {
        let vl = lo_in & step_mask;
        let vh = hi_in & step_mask;
        let pl = vl.wrapping_mul(magic_multiplier);
        let ph = vh.wrapping_mul(magic_multiplier);
        lemma_wrapping_magic(vl, pl, vh, ph);
        let rr = ((low & 0x1F) | ((high & 0x1F) << 5));
        lemma_gather_bit(pl, ph, rr, 0);
        assert(r as u32 == rr as u32);
        assert forall|j: int| 0 <= j < 32 implies (#[trigger] bit32(r as u32, j) == (j < 10 && bit(
            bits,
            j * 9 + f,
        ))) by {
            let ff = f as u128;
            let jj = j as u64;
            lemma_gather_bit(pl, ph, rr, jj);
            assert(bit32(r as u32, j) == ((rr >> jj) & 1u64 == 1u64));
            if j < 5 {
                lemma_magic_gather(lo_in, pl, jj);
                lemma_file_split(bits, ff, lo_in, hi_in, jj);
                let sh = (9 * j + f) as u128;
                assert(bit(bits, j * 9 + f) == ((bits >> sh) & 1u128 == 1u128));
            } else if j < 10 {
                let kk = (j - 5) as u64;
                lemma_magic_gather(hi_in, ph, kk);
                lemma_file_split(bits, ff, lo_in, hi_in, kk);
                let sh = (9 * j + f) as u128;
                assert(bit(bits, j * 9 + f) == ((bits >> sh) & 1u128 == 1u128));
            }
        }
    }
    r
}

/// The occupancy of rank `r` as a 9-bit line mask.
fn rank_bits(occ: u128, r: usize) -> (x: u32)
    requires
        r < 10,
    ensures
        x < 512,
        forall|j: int| 0 <= j < 9 ==> (#[trigger] bit32(x, j) == bit(occ, r * 9 + j)),
        forall|j: int| 9 <= j ==> !#[trigger] bit32(x, j),
{
    let s = (r * 9) as u128;
    let v = (occ >> s) & 0x1FF;
    let x = v as u32;
    proof {
        assert(v < 512) by (bit_vector)
            requires
                v == (occ >> s) & 0x1FFu128,
        ;
        assert forall|j: int| 0 <= j < 32 implies (#[trigger] bit32(x, j) == (j < 9 && bit(
            occ,
            r * 9 + j,
        ))) by {
            let j32 = j as u32;
            let jj = j as u128;
            let sh = (r * 9 + j) as u128;
            assert((x >> j32) & 1u32 == ((v >> jj) & 1u128) as u32) by (bit_vector)
                requires
                    v < 512,
                    x == v as u32,
                    jj == j32 as u128,
                    j32 < 32,
            ;
            assert(((v >> jj) & 1u128) == (if jj < 9 {
                (occ >> sh) & 1u128
            } else {
                0u128
            })) by (bit_vector)
                requires
                    v == (occ >> s) & 0x1FFu128,
                    sh == s + jj,
                    s <= 81,
                    jj < 32,
            ;
        }
    }
    x
}

/// The bitboard of the squares of rank `r` whose file bit is set in `mask`.
fn rank_mask_bitboard(mask: u32, r: usize) -> (b: Bitboard)
    requires
        r < 10,
        mask < 512,
    ensures
        b@ == on_rank(mask_set(mask), r as int),
{
    let s = (r * 9) as u128;
    let b = Bitboard((mask as u128) << s);
    proof {
        assert forall|t: int| #[trigger] b@.contains(t) == on_rank(mask_set(mask), r as int).contains(
            t,
        ) by {
            if 0 <= t < 128 {
                let tt = t as u128;
                let m = mask as u128;
                assert((((m << s) >> tt) & 1u128 == 1u128) == (s <= tt && tt < s + 9 && ((m >> (
                tt - s) as u128) & 1u128 == 1u128))) by (bit_vector)
                    requires
                        m < 512,
                        s <= 81,
                        tt < 128,
                ;
                if s <= tt && tt < s + 9 {
                    let k = (tt - s) as u32;
                    assert(((m >> (k as u128)) & 1u128 == 1u128) == ((mask >> k) & 1u32 == 1u32))
                        by (bit_vector)
                        requires
                            m == mask as u128,
                            k < 9,
                    ;
                }
            }
        }
        assert(b@ =~= on_rank(mask_set(mask), r as int));
    }
    b
}

/// The bitboard of the squares of file `f` whose rank bit is set in `mask`.
fn file_mask_bitboard(mask: u32, f: usize) -> (b: Bitboard)
    requires
        f < 9,
        mask < 1024,
    ensures
        b@ == on_file(mask_set(mask), f as int),
{
    let mut bits: u128 = 0;
    let mut r: usize = 0;
    proof {
        lemma_zero_iff_no_bits(0);
    }
    while r < 10
        invariant
            r <= 10,
            f < 9,
            forall|t: int|
                0 <= t < 128 ==> #[trigger] bit(bits, t) == (0 <= t < 90 && Square::file_of(t) == f
                    && Square::rank_of(t) < r && bit32(mask, Square::rank_of(t))),
        decreases 10 - r,
    {
        let rr = r as u32;
        assert(((mask & (1u32 << rr)) != 0) == ((mask >> rr) & 1u32 == 1u32)) by (bit_vector)
            requires
                rr < 32,
        ;
        if (mask & (1u32 << rr)) != 0 {
            let idx = (r * 9 + f) as u128;
            let old_bits = bits;
            bits = bits | (1u128 << idx);
            assert forall|t: int| 0 <= t < 128 implies #[trigger] bit(bits, t) == (0 <= t < 90
                && Square::file_of(t) == f && Square::rank_of(t) < r + 1 && bit32(
                mask,
                Square::rank_of(t),
            )) by {
                lemma_bit_ops(old_bits, 1u128 << idx, t);
                lemma_bit_single(idx, t);
            }
        }
        r = r + 1;
    }
    let b = Bitboard(bits);
    proof {
        assert forall|t: int| #[trigger] b@.contains(t) == on_file(mask_set(mask), f as int).contains(
            t,
        ) by {
            if 0 <= t < 90 && Square::file_of(t) == f {
                assert(Square::rank_of(t) < 10);
            }
        }
        assert(b@ =~= on_file(mask_set(mask), f as int));
    }
    b
}

/// A 32-bit value with no bit set at or above `n` is below `2^n`.
proof fn lemma_high_bits_clear(x: u32, n: u32)
    requires
        n <= 10,
        forall|j: int| n <= j < 32 ==> !#[trigger] bit32(x, j),
    ensures
        x < (1u32 << n),
{
    let m = ((1u32 << n) - 1u32) as u32;
    let y = x & m;
    assert forall|j: int| 0 <= j < 32 implies #[trigger] bit32(x ^ y, j) == false by {
        let jj = j as u32;
        assert(((x ^ (x & m)) >> jj) & 1u32 == (if jj < n {
            0u32
        } else {
            (x >> jj) & 1u32
        })) by (bit_vector)
            requires
                m == ((1u32 << n) - 1u32) as u32,
                n <= 10,
                jj < 32,
        ;
        if jj >= n {
            assert(!bit32(x, j));
        }
    }
    let z = x ^ y;
    assert(forall|j: u32| j < 32 ==> #[trigger] ((z >> j) & 1u32) != 1u32) by {
        assert forall|j: u32| j < 32 implies #[trigger] ((z >> j) & 1u32) != 1u32 by {
            assert(!bit32(z, j as int));
        }
    }
    assert(z == 0u32) by {
        assert(((z >> 0u32) & 1u32) != 1u32);
        lemma_u32_zero(z);
    }
    assert(x ^ (x & m) == 0u32 ==> x < (1u32 << n)) by (bit_vector)
        requires
            m == ((1u32 << n) - 1u32) as u32,
            n <= 10,
    ;
}

/// A 32-bit value with no bit set is zero.
proof fn lemma_u32_zero(z: u32)
    requires
        forall|j: u32| j < 32 ==> #[trigger] ((z >> j) & 1u32) != 1u32,
    ensures
        z == 0,
{
    let b0 = (z >> 0u32) & 1u32;
    assert(((z >> 0u32) & 1u32) != 1u32);
    assert(((z >> 1u32) & 1u32) != 1u32);
    assert(((z >> 2u32) & 1u32) != 1u32);
    assert(((z >> 3u32) & 1u32) != 1u32);
    assert(((z >> 4u32) & 1u32) != 1u32);
    assert(((z >> 5u32) & 1u32) != 1u32);
    assert(((z >> 6u32) & 1u32) != 1u32);
    assert(((z >> 7u32) & 1u32) != 1u32);
    assert(((z >> 8u32) & 1u32) != 1u32);
    assert(((z >> 9u32) & 1u32) != 1u32);
    assert(((z >> 10u32) & 1u32) != 1u32);
    assert(((z >> 11u32) & 1u32) != 1u32);
    assert(((z >> 12u32) & 1u32) != 1u32);
    assert(((z >> 13u32) & 1u32) != 1u32);
    assert(((z >> 14u32) & 1u32) != 1u32);
    assert(((z >> 15u32) & 1u32) != 1u32);
    assert(((z >> 16u32) & 1u32) != 1u32);
    assert(((z >> 17u32) & 1u32) != 1u32);
    assert(((z >> 18u32) & 1u32) != 1u32);
    assert(((z >> 19u32) & 1u32) != 1u32);
    assert(((z >> 20u32) & 1u32) != 1u32);
    assert(((z >> 21u32) & 1u32) != 1u32);
    assert(((z >> 22u32) & 1u32) != 1u32);
    assert(((z >> 23u32) & 1u32) != 1u32);
    assert(((z >> 24u32) & 1u32) != 1u32);
    assert(((z >> 25u32) & 1u32) != 1u32);
    assert(((z >> 26u32) & 1u32) != 1u32);
    assert(((z >> 27u32) & 1u32) != 1u32);
    assert(((z >> 28u32) & 1u32) != 1u32);
    assert(((z >> 29u32) & 1u32) != 1u32);
    assert(((z >> 30u32) & 1u32) != 1u32);
    assert(((z >> 31u32) & 1u32) != 1u32);
    assert(z == 0u32) by (bit_vector)
        requires
            ((z >> 0u32) & 1u32) != 1u32,
            ((z >> 1u32) & 1u32) != 1u32,
            ((z >> 2u32) & 1u32) != 1u32,
            ((z >> 3u32) & 1u32) != 1u32,
            ((z >> 4u32) & 1u32) != 1u32,
            ((z >> 5u32) & 1u32) != 1u32,
            ((z >> 6u32) & 1u32) != 1u32,
            ((z >> 7u32) & 1u32) != 1u32,
            ((z >> 8u32) & 1u32) != 1u32,
            ((z >> 9u32) & 1u32) != 1u32,
            ((z >> 10u32) & 1u32) != 1u32,
            ((z >> 11u32) & 1u32) != 1u32,
            ((z >> 12u32) & 1u32) != 1u32,
            ((z >> 13u32) & 1u32) != 1u32,
            ((z >> 14u32) & 1u32) != 1u32,
            ((z >> 15u32) & 1u32) != 1u32,
            ((z >> 16u32) & 1u32) != 1u32,
            ((z >> 17u32) & 1u32) != 1u32,
            ((z >> 18u32) & 1u32) != 1u32,
            ((z >> 19u32) & 1u32) != 1u32,
            ((z >> 20u32) & 1u32) != 1u32,
            ((z >> 21u32) & 1u32) != 1u32,
            ((z >> 22u32) & 1u32) != 1u32,
            ((z >> 23u32) & 1u32) != 1u32,
            ((z >> 24u32) & 1u32) != 1u32,
            ((z >> 25u32) & 1u32) != 1u32,
            ((z >> 26u32) & 1u32) != 1u32,
            ((z >> 27u32) & 1u32) != 1u32,
            ((z >> 28u32) & 1u32) != 1u32,
            ((z >> 29u32) & 1u32) != 1u32,
            ((z >> 30u32) & 1u32) != 1u32,
            ((z >> 31u32) & 1u32) != 1u32,
    ;
}

/// Which of the three sliding patterns to compute.
enum Slide {
    Rook,
    CannonCapture,
    CannonBeyond,
}

spec fn slide_set(kind: Slide, s: int, occ: Set<int>) -> Set<int> {
    match kind {
        Slide::Rook => rook_set(s, occ),
        Slide::CannonCapture => cannon_capture_set(s, occ),
        Slide::CannonBeyond => cannon_beyond_attack_set(s, occ),
    }
}

/// Computes the sliding pattern `kind` of a piece on `square` from the rank and file
/// occupancy of `occupied`.
fn sliding_attacks(kind: Slide, square: Square, occupied: Bitboard) -> (b: Bitboard)
    ensures
        b@ == slide_set(kind, square.idx(), occupied@),
{
    let idx = square.index() as usize;
    let f = idx % 9;
    let r = idx / 9;
    let rank_occ = rank_bits(occupied.raw(), r);
    let file_occ = gather_file_bits(occupied.raw(), f) as u32;
    proof {
        assert(line_of(rank_occ) =~= rank_line(occupied@, r as int));
        assert(line_of(file_occ) =~= file_line(occupied@, f as int));
    }
    let (rank_mask, file_mask) = match kind {
        Slide::Rook => (rook_ray(f as i8, 9, rank_occ), rook_ray(r as i8, 10, file_occ)),
        Slide::CannonCapture => (cannon_ray(f as i8, 9, rank_occ), cannon_ray(r as i8, 10, file_occ)),
        Slide::CannonBeyond => (
            cannon_beyond_attack(f as i8, 9, rank_occ),
            cannon_beyond_attack(r as i8, 10, file_occ),
        ),
    };
    proof {
        // The masks only hold points of their lines.
        assert forall|j: int| 9 <= j < 32 implies !#[trigger] bit32(rank_mask, j) by {
            assert(!mask_set(rank_mask).contains(j));
        }
        assert forall|j: int| 10 <= j < 32 implies !#[trigger] bit32(file_mask, j) by {
            assert(!mask_set(file_mask).contains(j));
        }
        lemma_high_bits_clear(rank_mask, 9);
        lemma_high_bits_clear(file_mask, 10);
        assert((1u32 << 9u32) == 512u32 && (1u32 << 10u32) == 1024u32) by (bit_vector);
    }
    let rank_bb = rank_mask_bitboard(rank_mask, r);
    let file_bb = file_mask_bitboard(file_mask, f);
    rank_bb.const_or(file_bb)
}

/// Whether some square of `bb` lies on the rank or the file of `square`.
pub fn shares_line(square: Square, bb: Bitboard) -> (r: bool)
    ensures
        !r ==> forall|t: int|
            #[trigger] bb@.contains(t) ==> !(0 <= t < 90 && (Square::rank_of(t) == Square::rank_of(
                square.idx(),
            ) || Square::file_of(t) == Square::file_of(square.idx()))),
{
    let idx = square.index() as usize;
    let f = idx % 9;
    let r = idx / 9;
    let on_rank = rank_bits(bb.0, r);
    let on_file = gather_file_bits(bb.0, f);
    let shares = on_rank != 0 || on_file != 0;
    proof {
        if !shares {
            assert forall|t: int| #[trigger] bb@.contains(t) implies !(0 <= t < 90 && (
            Square::rank_of(t) == Square::rank_of(square.idx()) || Square::file_of(t)
                == Square::file_of(square.idx()))) by {
                if 0 <= t < 90 && Square::rank_of(t) == r {
                    let j = t % 9;
                    assert(t == r * 9 + j);
                    lemma_bit32_zero(j);
                    assert(bit32(on_rank, j) == bit(bb.0, r * 9 + j));
                }
                if 0 <= t < 90 && Square::file_of(t) == f {
                    let j = t / 9;
                    assert(t == j * 9 + f);
                    lemma_bit32_zero(j);
                    assert(bit32(on_file as u32, j) == bit(bb.0, j * 9 + f));
                }
            }
        }
    }
    shares
}

/// All squares a rook on `sq` reaches given the occupancy `occ`: along its rank and
/// file, stopping on the first blocker in each direction (included). Friendly
/// pieces are not filtered.
pub fn rook_attacks(sq: Square, occ: Bitboard) -> (b: Bitboard)
    ensures
        b@ == rook_set(sq.idx(), occ@),
{
    sliding_attacks(Slide::Rook, sq, occ)
}

/// Squares a cannon on `sq` can capture on given `occ`: occupied squares along its
/// rank or file with exactly one piece (the screen) in between. Quiet moves are not
/// included. Friendly pieces are not filtered.
pub fn cannon_captures(sq: Square, occ: Bitboard) -> (b: Bitboard)
    ensures
        b@ == cannon_capture_set(sq.idx(), occ@),
{
    sliding_attacks(Slide::CannonCapture, sq, occ)
}

/// The full cannon attack ray: all squares behind exactly one screen, up to and
/// including the second piece.
pub fn cannon_beyond_attacks(square: Square, occupied: Bitboard) -> (b: Bitboard)
    ensures
        b@ == cannon_beyond_attack_set(square.idx(), occupied@),
{
    sliding_attacks(Slide::CannonBeyond, square, occupied)
}

} // verus!

verus! {

/// Whether squares `a` and `b` share a file or a rank.
pub open spec fn same_line(a: int, b: int) -> bool {
    Square::file_of(a) == Square::file_of(b) || Square::rank_of(a) == Square::rank_of(b)
}

/// The squares on the way from `s1` to `s2`: on a shared file or rank, the squares
/// strictly between them plus `s2` (for `s1 == s2`, the whole file and rank); for a
/// knight's jump, the leg square plus `s2`; otherwise none.
pub open spec fn between_spec(s1: int, s2: int) -> Set<int> {
    let f1 = Square::file_of(s1);
    let r1 = Square::rank_of(s1);
    let f2 = Square::file_of(s2);
    let r2 = Square::rank_of(s2);
    let dr = crate::leapers::abs(r2 - r1);
    let df = crate::leapers::abs(f2 - f1);
    if same_line(s1, s2) {
        rook_set(s1, set![s2]).intersect(rook_set(s2, set![s1])).insert(s2)
    } else if (dr == 2 && df == 1) || (dr == 1 && df == 2) {
        let leg_r = if dr == 2 {
            (r1 + r2) / 2
        } else {
            r2
        };
        let leg_f = if df == 2 {
            (f1 + f2) / 2
        } else {
            f2
        };
        set![leg_r * 9 + leg_f, s2]
    } else {
        Set::empty()
    }
}

/// The squares on the way from `from` to `to` (see [`between_spec`]).
#[verifier::rlimit(40)]
pub fn squares_between(from: Square, to: Square) -> (r: Bitboard)
    ensures
        r@ == between_spec(from.idx(), to.idx()),
{
    let f1 = from.file().index() as i8;
    let r1 = from.rank().index() as i8;
    let f2 = to.file().index() as i8;
    let r2 = to.rank().index() as i8;
    if f1 == f2 || r1 == r2 {
        let r = rook_attacks(from, Bitboard::from_square(to)).const_and(
            rook_attacks(to, Bitboard::from_square(from)),
        ).const_or(Bitboard::from_square(to));
        proof {
            assert(r@ =~= between_spec(from.idx(), to.idx()));
        }
        r
    } else {
        let dr = if r2 >= r1 {
            r2 - r1
        } else {
            r1 - r2
        };
        let df = if f2 >= f1 {
            f2 - f1
        } else {
            f1 - f2
        };
        if (dr == 2 && df == 1) || (dr == 1 && df == 2) {
            let leg_r = if dr == 2 {
                (r1 + r2) / 2
            } else {
                r2
            };
            let leg_f = if df == 2 {
                (f1 + f2) / 2
            } else {
                f2
            };
            let leg = Square::from_repr((leg_r * 9 + leg_f) as u8).unwrap();
            let r = Bitboard::from_square(leg).const_or(Bitboard::from_square(to));
            proof {
                assert(r@ =~= between_spec(from.idx(), to.idx()));
            }
            r
        } else {
            let r = Bitboard::new();
            proof {
                assert(r@ =~= between_spec(from.idx(), to.idx()));
            }
            r
        }
    }
}

/// The squares from `s2` on, away from `s1`, along their shared file or rank: `s2`
/// and the squares a cannon on `s1` would reach behind the screen `s2`; none off
/// a shared line.
pub open spec fn beyond_spec(s1: int, s2: int) -> Set<int> {
    if same_line(s1, s2) {
        cannon_beyond_attack_set(s1, set![s2]).insert(s2)
    } else {
        Set::empty()
    }
}

/// The squares from `to` on, away from `from`, along their shared file or rank
/// (see [`beyond_spec`]).
pub fn squares_beyond(from: Square, to: Square) -> (r: Bitboard)
    ensures
        r@ == beyond_spec(from.idx(), to.idx()),
{
    if from.file().index() == to.file().index() || from.rank().index() == to.rank().index() {
        let r = cannon_beyond_attacks(from, Bitboard::from_square(to)).const_or(Bitboard::from_square(to));
        proof {
            assert(r@ =~= beyond_spec(from.idx(), to.idx()));
        }
        r
    } else {
        let r = Bitboard::new();
        proof {
            assert(r@ =~= beyond_spec(from.idx(), to.idx()));
        }
        r
    }
}

/// The squares of the line through `s1` and `s2`: on a shared file or rank, the
/// squares both reach on an empty board plus the two squares; none otherwise.
pub open spec fn in_line_spec(s1: int, s2: int) -> Set<int> {
    if same_line(s1, s2) {
        rook_set(s1, Set::empty()).intersect(rook_set(s2, Set::empty())).insert(s1).insert(s2)
    } else {
        Set::empty()
    }
}

/// The squares of the line through `from` and `to` (see [`in_line_spec`]).
pub fn squares_in_line(from: Square, to: Square) -> (r: Bitboard)
    ensures
        r@ == in_line_spec(from.idx(), to.idx()),
{
    if from.file().index() == to.file().index() || from.rank().index() == to.rank().index() {
        let r = rook_attacks(from, Bitboard::new()).const_and(rook_attacks(to, Bitboard::new())).const_or(
            Bitboard::from_square(from),
        ).const_or(Bitboard::from_square(to));
        proof {
            assert(r@ =~= in_line_spec(from.idx(), to.idx()));
        }
        r
    } else {
        let r = Bitboard::new();
        proof {
            assert(r@ =~= in_line_spec(from.idx(), to.idx()));
        }
        r
    }
}

} // verus!

verus! {

/// The squares a cannon on `square` captures on (same as [`cannon_captures`]).
pub fn cannon_attacks(square: Square, occupied: Bitboard) -> (b: Bitboard)
    ensures
        b@ == cannon_capture_set(square.idx(), occupied@),
{
    cannon_captures(square, occupied)
}

} // verus!
