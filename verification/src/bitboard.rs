//! Bitboards: sets of board squares packed into the low 90 bits of a `u128`.
use crate::types::{
    File, Rank, Side, Square, ascii_str, lemma_file_idx, lemma_rank_idx, lemma_square_from_idx,
    lemma_square_idx, rank_digit,
};
use vstd::prelude::*;
use vstd::string::StringExecFns;

verus! {

broadcast use {lemma_square_idx, lemma_square_from_idx, lemma_file_idx, lemma_rank_idx};

/// Whether bit `i` of `x` is set.
pub open spec fn bit(x: u128, i: int) -> bool {
    0 <= i < 128 && (x >> (i as u128)) & 1u128 == 1u128
}

/// The set of indices `0 <= i < 90` that lie on the board.
pub open spec fn on_board(s: Set<int>) -> bool {
    forall|i: int| #[trigger] s.contains(i) ==> 0 <= i < 90
}

/// The squares of rank `r`.
pub open spec fn rank_set(r: int) -> Set<int> {
    Set::new(|i: int| 0 <= i < 90 && Square::rank_of(i) == r)
}

/// The squares of file `f`.
pub open spec fn file_set(f: int) -> Set<int> {
    Set::new(|i: int| 0 <= i < 90 && Square::file_of(i) == f)
}

/// The squares of the ranks `lo..=hi`.
pub open spec fn ranks_set(lo: int, hi: int) -> Set<int> {
    Set::new(|i: int| 0 <= i < 90 && lo <= Square::rank_of(i) <= hi)
}

/// The half of the board that belongs to `side` (ranks 0..=4 for Red, 5..=9 for Black).
pub open spec fn side_set(side: Side) -> Set<int> {
    if side == Side::Red {
        ranks_set(0, 4)
    } else {
        ranks_set(5, 9)
    }
}

/// The palace of `side`: files d..=f of ranks 0..=2 (Red) or 7..=9 (Black).
pub open spec fn palace_set(side: Side) -> Set<int> {
    Set::new(
        |i: int|
            0 <= i < 90 && 3 <= Square::file_of(i) <= 5 && (if side == Side::Red {
                Square::rank_of(i) <= 2
            } else {
                Square::rank_of(i) >= 7
            }),
    )
}

/// The files a, c, e, g and i, on which the pawns start.
pub open spec fn pawn_file_set() -> Set<int> {
    Set::new(|i: int| 0 <= i < 90 && Square::file_of(i) % 2 == 0)
}

/// The squares a pawn of `side` can ever stand on: its starting files on the two
/// ranks before the river, and the whole opposing half.
pub open spec fn pawn_set(side: Side) -> Set<int> {
    let own = if side == Side::Red {
        ranks_set(3, 4)
    } else {
        ranks_set(5, 6)
    };
    pawn_file_set().intersect(own).union(side_set(side.opp()))
}

/// Number of set bits among the lowest `n` bits of `x`.
pub open spec fn bits_count(x: u128, n: int) -> nat
    decreases n,
{
    if n <= 0 {
        0
    } else {
        bits_count(x, n - 1) + if bit(x, n - 1) {
            1nat
        } else {
            0nat
        }
    }
}

/// Bits of a union, intersection, difference or complement.
pub broadcast proof fn lemma_bit_ops(a: u128, b: u128, i: int)
    requires
        0 <= i < 128,
    ensures
        #[trigger] bit(a | b, i) == (bit(a, i) || bit(b, i)),
        #[trigger] bit(a & b, i) == (bit(a, i) && bit(b, i)),
        #[trigger] bit(a ^ b, i) == (bit(a, i) != bit(b, i)),
        #[trigger] bit(!a, i) == !bit(a, i),
{
    lemma_bit_ops_u128(a, b, i as u128);
}

/// Bits of a union, intersection, difference or complement, at shift `s`.
proof fn lemma_bit_ops_u128(a: u128, b: u128, s: u128)
    by (bit_vector)
    requires
        s < 128,
    ensures
        ((a | b) >> s) & 1u128 == 1u128 <==> ((a >> s) & 1u128 == 1u128 || (b >> s) & 1u128
            == 1u128),
        ((a & b) >> s) & 1u128 == 1u128 <==> ((a >> s) & 1u128 == 1u128 && (b >> s) & 1u128
            == 1u128),
        ((a ^ b) >> s) & 1u128 == 1u128 <==> ((a >> s) & 1u128 == 1u128) != ((b >> s) & 1u128
            == 1u128),
        ((!a) >> s) & 1u128 == 1u128 <==> !((a >> s) & 1u128 == 1u128),
{
}

/// The bits of a single shifted one.
pub broadcast proof fn lemma_bit_single(s: u128, i: int)
    requires
        s < 128,
    ensures
        #[trigger] bit(1u128 << s, i) == (i == s),
{
    if 0 <= i < 128 {
        let j = i as u128;
        assert(((1u128 << s) >> j) & 1u128 == 1u128 <==> j == s) by (bit_vector)
            requires
                s < 128,
                j < 128,
        ;
    }
}

/// A value is zero exactly when none of its bits is set.
pub proof fn lemma_zero_iff_no_bits(x: u128)
    ensures
        x == 0 <==> forall|i: int| 0 <= i < 128 ==> !#[trigger] bit(x, i),
{
    if x == 0 {
        assert forall|i: int| 0 <= i < 128 implies !#[trigger] bit(x, i) by {
            let j = i as u128;
            assert((0u128 >> j) & 1u128 == 0u128) by (bit_vector);
        }
    } else {
        let k = lowest_bit(x);
        assert(bit(x, k));
    }
}

/// Two values are equal when all their bits agree.
pub proof fn lemma_bits_ext(x: u128, y: u128)
    requires
        forall|i: int| 0 <= i < 128 ==> #[trigger] bit(x, i) == bit(y, i),
    ensures
        x == y,
{
    assert forall|i: int| 0 <= i < 128 implies !#[trigger] bit(x ^ y, i) by {
        lemma_bit_ops(x, y, i);
    }
    lemma_zero_iff_no_bits(x ^ y);
    assert(x ^ y == 0u128 ==> x == y) by (bit_vector);
}

/// The bits of a 128-bit value are those of its low and high 64-bit halves.
proof fn lemma_halves(x: u128, lo: u64, hi: u64, j: u64)
    by (bit_vector)
    requires
        lo == x as u64,
        hi == (x >> 64u128) as u64,
        j < 64,
    ensures
        (x >> (j as u128)) & 1u128 == ((lo >> j) & 1u64) as u128,
        (x >> ((j + 64) as u128)) & 1u128 == ((hi >> j) & 1u64) as u128,
        x != 0 ==> (lo != 0 || hi != 0),
        lo == 0 ==> (x >> (j as u128)) & 1u128 == 0u128,
{
}

/// The index of the lowest set bit of a nonzero value.
pub proof fn lowest_bit(x: u128) -> (k: int)
    requires
        x != 0,
    ensures
        0 <= k < 128,
        bit(x, k),
        forall|j: int| 0 <= j < k ==> !#[trigger] bit(x, j),
{
    let lo = x as u64;
    let hi = (x >> 64u128) as u64;
    lemma_halves(x, lo, hi, 0);
    vstd::std_specs::bits::axiom_u64_trailing_zeros(lo);
    vstd::std_specs::bits::axiom_u64_trailing_zeros(hi);
    if lo != 0 {
        let t = lo.trailing_zeros() as u64;
        assert(t < 64);
        assert((lo >> t) & 1u64 == 1u64);
        lemma_halves(x, lo, hi, t);
        assert forall|j: int| 0 <= j < t implies !#[trigger] bit(x, j) by {
            let jj = j as u64;
            assert((lo >> jj) & 1u64 == 0u64);
            lemma_halves(x, lo, hi, jj);
        }
        t as int
    } else {
        let t = hi.trailing_zeros() as u64;
        assert(t < 64);
        assert((hi >> t) & 1u64 == 1u64);
        lemma_halves(x, lo, hi, t);
        assert forall|j: int| 0 <= j < t + 64 implies !#[trigger] bit(x, j) by {
            if j < 64 {
                lemma_halves(x, lo, hi, j as u64);
            } else {
                let jj = (j - 64) as u64;
                assert((hi >> jj) & 1u64 == 0u64);
                lemma_halves(x, lo, hi, jj);
            }
        }
        t + 64
    }
}

/// The index of the lowest set bit of a nonzero value.
fn lsb_index(x: u128) -> (t: u32)
    requires
        x != 0,
    ensures
        t < 128,
        bit(x, t as int),
        forall|j: int| 0 <= j < t ==> !#[trigger] bit(x, j),
{
    #[verifier::truncate]
    let lo = x as u64;
    #[verifier::truncate]
    let hi = (x >> 64) as u64;
    proof {
        lemma_halves(x, lo, hi, 0);
        vstd::std_specs::bits::axiom_u64_trailing_zeros(lo);
        vstd::std_specs::bits::axiom_u64_trailing_zeros(hi);
    }
    if lo != 0 {
        let t = lo.trailing_zeros();
        proof {
            lemma_halves(x, lo, hi, t as u64);
            assert forall|j: int| 0 <= j < t implies !#[trigger] bit(x, j) by {
                let jj = j as u64;
                assert((lo >> jj) & 1u64 == 0u64);
                lemma_halves(x, lo, hi, jj);
            }
        }
        t
    } else {
        let t0 = hi.trailing_zeros();
        let t = t0 + 64;
        proof {
            lemma_halves(x, lo, hi, t0 as u64);
            assert forall|j: int| 0 <= j < t implies !#[trigger] bit(x, j) by {
                if j < 64 {
                    lemma_halves(x, lo, hi, j as u64);
                } else {
                    let jj = (j - 64) as u64;
                    assert((hi >> jj) & 1u64 == 0u64);
                    lemma_halves(x, lo, hi, jj);
                }
            }
        }
        t
    }
}

/// A set of board squares, one bit per square: bit `i` stands for the square with
/// numeric representation `i`. Only the low 90 bits correspond to squares.
#[derive(Clone, Copy, PartialEq, Eq, Structural, Debug)]
pub struct Bitboard(pub u128);

impl View for Bitboard {
    type V = Set<int>;

    open spec fn view(&self) -> Set<int> {
        Set::new(|i: int| bit(self.0, i))
    }
}

/// Bitboards holding the same squares are equal.
pub proof fn lemma_bitboard_ext(a: Bitboard, b: Bitboard)
    requires
        a@ == b@,
    ensures
        a == b,
{
    assert forall|i: int| 0 <= i < 128 implies #[trigger] bit(a.0, i) == bit(b.0, i) by {
        assert(a@.contains(i) == bit(a.0, i));
        assert(b@.contains(i) == bit(b.0, i));
        assert(a@.contains(i) == b@.contains(i));
    }
    lemma_bits_ext(a.0, b.0);
}

impl Bitboard {
    /// Whether the bitboard only holds squares of the board.
    pub open spec fn on_board(self) -> bool {
        on_board(self@)
    }

    /// Creates an empty bitboard.
    pub fn new() -> (r: Bitboard)
        ensures
            r@ == Set::<int>::empty(),
            r.0 == 0,
    {
        proof {
            lemma_zero_iff_no_bits(0);
        }
        let r = Bitboard(0);
        assert(r@ =~= Set::<int>::empty());
        r
    }

    /// Makes a bitboard directly from a raw `u128` value.
    pub fn from_raw(bitboard: u128) -> (r: Bitboard)
        ensures
            r.0 == bitboard,
    {
        Bitboard(bitboard)
    }

    /// The bitboard holding the single square `square`.
    pub fn from_square(square: Square) -> (r: Bitboard)
        ensures
            r@ == Set::<int>::empty().insert(square.idx()),
    {
        let s = square.index() as u128;
        let r = Bitboard(1u128 << s);
        assert forall|i: int| #[trigger] r@.contains(i) == (i == square.idx()) by {
            lemma_bit_single(s, i);
        }
        assert(r@ =~= Set::<int>::empty().insert(square.idx()));
        r
    }

    /// The raw `u128` value of the bitboard.
    pub fn raw(&self) -> (r: u128)
        ensures
            r == self.0,
    {
        self.0
    }

    /// Whether no square is set.
    pub fn is_empty(&self) -> (r: bool)
        ensures
            r == (self@ == Set::<int>::empty()),
            r == (self.0 == 0),
    {
        proof {
            lemma_zero_iff_no_bits(self.0);
            if self.0 != 0 {
                let k = lowest_bit(self.0);
                assert(self@.contains(k));
            } else {
                assert(self@ =~= Set::<int>::empty());
            }
        }
        self.0 == 0
    }

    /// Whether `square` is set.
    pub fn is_occupied(&self, square: Square) -> (r: bool)
        ensures
            r == self@.contains(square.idx()),
    {
        let s = square.index() as u128;
        let x = self.0;
        assert(((x & (1u128 << s)) != 0) == ((x >> s) & 1u128 == 1u128)) by (bit_vector)
            requires
                s < 128,
        ;
        (self.0 & (1u128 << s)) != 0
    }

    /// Whether `square` is set (same as [`Bitboard::is_occupied`]).
    pub fn contains(&self, square: Square) -> (r: bool)
        ensures
            r == self@.contains(square.idx()),
    {
        self.is_occupied(square)
    }

    /// Sets `square`.
    pub fn set_bit(&mut self, square: Square)
        ensures
            final(self)@ == old(self)@.insert(square.idx()),
    {
        let s = square.index() as u128;
        let old_x = self.0;
        self.0 = self.0 | (1u128 << s);
        assert forall|i: int| #[trigger] self@.contains(i) == old(self)@.insert(square.idx()).contains(i) by {
            if 0 <= i < 128 {
                lemma_bit_ops(old_x, 1u128 << s, i);
                lemma_bit_single(s, i);
            }
        }
        assert(self@ =~= old(self)@.insert(square.idx()));
    }

    /// Clears `square`.
    pub fn clear_bit(&mut self, square: Square)
        ensures
            final(self)@ == old(self)@.remove(square.idx()),
    {
        let s = square.index() as u128;
        let old_x = self.0;
        self.0 = self.0 & !(1u128 << s);
        assert forall|i: int| #[trigger] self@.contains(i) == old(self)@.remove(square.idx()).contains(i) by {
            if 0 <= i < 128 {
                lemma_bit_ops(old_x, !(1u128 << s), i);
                lemma_bit_ops(1u128 << s, 0, i);
                lemma_bit_single(s, i);
            }
        }
        assert(self@ =~= old(self)@.remove(square.idx()));
    }

    /// The number of set bits.
    pub fn count_ones(&self) -> (r: u32)
        ensures
            r == bits_count(self.0, 128),
    {
        let mut n: u32 = 0;
        let mut i: u32 = 0;
        while i < 128
            invariant
                i <= 128,
                n == bits_count(self.0, i as int),
                n <= i,
            decreases 128 - i,
        {
            let x = self.0;
            let s = i as u128;
            assert(((x >> s) & 1u128 == 1u128) == ((x >> s) & 1u128 != 0u128)) by (bit_vector);
            if (self.0 >> s) & 1 != 0 {
                n = n + 1;
            }
            i = i + 1;
        }
        n
    }

    /// Removes the lowest set bit and returns its square, or `None` when no bit is
    /// set or the lowest set bit is not a board square.
    pub fn pop_lsb(&mut self) -> (r: Option<Square>)
        ensures
            old(self).0 == 0 ==> r is None && *final(self) == *old(self),
            old(self).0 != 0 ==> exists|k: int|
                0 <= k < 128 && #[trigger] old(self)@.contains(k) && (forall|j: int|
                    0 <= j < k ==> !old(self)@.contains(j)) && final(self)@ == old(self)@.remove(k)
                    && (if k < 90 {
                    r == Some(Square::from_idx(k))
                } else {
                    r is None
                }),
            r matches Some(sq) ==> old(self)@.contains(sq.idx()) && final(self)@ == old(
                self,
            )@.remove(sq.idx()) && forall|j: int| 0 <= j < sq.idx() ==> !old(self)@.contains(j),
            r is None ==> forall|j: int| 0 <= j < 90 ==> !old(self)@.contains(j),
            final(self)@.subset_of(old(self)@),
    {
        if self.0 == 0 {
            proof {
                lemma_zero_iff_no_bits(self.0);
            }
            None
        } else {
            let x = self.0;
            let t = lsb_index(x);
            let ghost k = t as int;
            let new_x = x & (x - 1);
            proof {
                let kk = t as u128;
                let mask = ((1u128 << kk) - 1u128) as u128;
                assert forall|i: int| 0 <= i < 128 implies !#[trigger] bit(x & mask, i) by {
                    let ii = i as u128;
                    assert(((mask >> ii) & 1u128 == 1u128) == (ii < kk)) by (bit_vector)
                        requires
                            mask == ((1u128 << kk) - 1u128) as u128,
                            kk < 128,
                            ii < 128,
                    ;
                    lemma_bit_ops(x, mask, i);
                }
                lemma_zero_iff_no_bits(x & mask);
                assert forall|i: int| 0 <= i < 128 implies #[trigger] bit(new_x, i) == (bit(x, i) && i
                    != k) by {
                    let ii = i as u128;
                    assert(((x >> kk) & 1u128 == 1u128 && (x & mask) == 0u128) ==> (((x & ((x
                        - 1u128) as u128)) >> ii) & 1u128 == 1u128 <==> ((x >> ii) & 1u128 == 1u128
                        && ii != kk))) by (bit_vector)
                        requires
                            mask == ((1u128 << kk) - 1u128) as u128,
                            kk < 128,
                            ii < 128,
                    ;
                }
            }
            self.0 = new_x;
            proof {
                assert(self@ =~= old(self)@.remove(k));
            }
            let r = Square::from_repr(t as u8);
            proof {
                assert(old(self)@.contains(k));
            }
            r
        }
    }

    /// Union of two bitboards.
    pub fn const_or(&self, b: Bitboard) -> (r: Bitboard)
        ensures
            r@ == self@.union(b@),
            r.0 == self.0 | b.0,
    {
        let r = Bitboard(self.0 | b.0);
        assert forall|i: int| #[trigger] r@.contains(i) == self@.union(b@).contains(i) by {
            if 0 <= i < 128 {
                lemma_bit_ops(self.0, b.0, i);
            }
        }
        assert(r@ =~= self@.union(b@));
        r
    }

    /// Intersection of two bitboards.
    pub fn const_and(&self, b: Bitboard) -> (r: Bitboard)
        ensures
            r@ == self@.intersect(b@),
            r.0 == self.0 & b.0,
    {
        let r = Bitboard(self.0 & b.0);
        assert forall|i: int| #[trigger] r@.contains(i) == self@.intersect(b@).contains(i) by {
            if 0 <= i < 128 {
                lemma_bit_ops(self.0, b.0, i);
            }
        }
        assert(r@ =~= self@.intersect(b@));
        r
    }

    /// Symmetric difference of two bitboards.
    pub fn const_xor(&self, b: Bitboard) -> (r: Bitboard)
        ensures
            r@ == self@.difference(b@).union(b@.difference(self@)),
            r.0 == self.0 ^ b.0,
    {
        let r = Bitboard(self.0 ^ b.0);
        assert forall|i: int| #[trigger] r@.contains(i) == self@.difference(b@).union(
            b@.difference(self@),
        ).contains(i) by {
            if 0 <= i < 128 {
                lemma_bit_ops(self.0, b.0, i);
            }
        }
        assert(r@ =~= self@.difference(b@).union(b@.difference(self@)));
        r
    }

    /// The squares of `self` that are not in `b` (`self & !b`).
    pub fn and_not(&self, b: Bitboard) -> (r: Bitboard)
        ensures
            r@ == self@.difference(b@),
            r.0 == self.0 & !b.0,
    {
        let r = Bitboard(self.0 & !b.0);
        assert forall|i: int| #[trigger] r@.contains(i) == self@.difference(b@).contains(i) by {
            if 0 <= i < 128 {
                lemma_bit_ops(self.0, !b.0, i);
                lemma_bit_ops(b.0, 0, i);
            }
        }
        assert(r@ =~= self@.difference(b@));
        r
    }

    /// Complement of all 128 bits.
    pub fn const_not(&self) -> (r: Bitboard)
        ensures
            forall|i: int| 0 <= i < 128 ==> (#[trigger] r@.contains(i) <==> !self@.contains(i)),
            r.0 == !self.0,
    {
        let r = Bitboard(!self.0);
        assert forall|i: int| 0 <= i < 128 implies (#[trigger] r@.contains(i) <==> !self@.contains(
            i,
        )) by {
            lemma_bit_ops(self.0, 0, i);
        }
        r
    }

    /// The bitboard of the whole rank `r`.
    pub fn from_rank(r: Rank) -> (b: Bitboard)
        ensures
            b@ == rank_set(r.idx()),
    {
        let s = (r.index() as u128) * 9;
        let b = Bitboard(0x1FFu128 << s);
        assert forall|i: int| #[trigger] b@.contains(i) == rank_set(r.idx()).contains(i) by {
            if 0 <= i < 128 {
                let ii = i as u128;
                assert(((0x1FFu128 << s) >> ii) & 1u128 == 1u128 <==> (s <= ii && ii < s + 9))
                    by (bit_vector)
                    requires
                        s <= 81,
                        ii < 128,
                ;
            }
        }
        assert(b@ =~= rank_set(r.idx()));
        b
    }

    /// The bitboard of the whole file `f`.
    pub fn from_file(f: File) -> (b: Bitboard)
        ensures
            b@ == file_set(f.idx()),
    {
        let fi = f.index();
        let mut bits: u128 = 0;
        let mut r: u8 = 0;
        proof {
            lemma_zero_iff_no_bits(0);
        }
        while r < 10
            invariant
                r <= 10,
                fi == f.idx(),
                fi < 9,
                forall|i: int|
                    0 <= i < 128 ==> #[trigger] bit(bits, i) == (0 <= i < 90 && Square::file_of(i)
                        == fi && Square::rank_of(i) < r),
            decreases 10 - r,
        {
            let idx = (r * 9 + fi) as u128;
            let old_bits = bits;
            bits = bits | (1u128 << idx);
            assert forall|i: int| 0 <= i < 128 implies #[trigger] bit(bits, i) == (0 <= i < 90
                && Square::file_of(i) == fi && Square::rank_of(i) < r + 1) by {
                lemma_bit_ops(old_bits, 1u128 << idx, i);
                lemma_bit_single(idx, i);
            }
            r = r + 1;
        }
        let b = Bitboard(bits);
        assert(b@ =~= file_set(f.idx()));
        b
    }

    /// The half of the board that belongs to `side` (five ranks).
    pub fn side(side: Side) -> (b: Bitboard)
        ensures
            b@ == side_set(side),
    {
        let b = match side {
            Side::Red => Self::from_rank(Rank::R0).const_or(Self::from_rank(Rank::R1)).const_or(
                Self::from_rank(Rank::R2),
            ).const_or(Self::from_rank(Rank::R3)).const_or(Self::from_rank(Rank::R4)),
            Side::Black => Self::from_rank(Rank::R5).const_or(Self::from_rank(Rank::R6)).const_or(
                Self::from_rank(Rank::R7),
            ).const_or(Self::from_rank(Rank::R8)).const_or(Self::from_rank(Rank::R9)),
        };
        assert(b@ =~= side_set(side));
        b
    }

    /// The palace of `side`.
    pub fn palace(side: Side) -> (b: Bitboard)
        ensures
            b@ == palace_set(side),
    {
        let ranks = match side {
            Side::Red => Self::from_rank(Rank::R0).const_or(Self::from_rank(Rank::R1)).const_or(
                Self::from_rank(Rank::R2),
            ),
            Side::Black => Self::from_rank(Rank::R7).const_or(Self::from_rank(Rank::R8)).const_or(
                Self::from_rank(Rank::R9),
            ),
        };
        let b = ranks.const_and(
            Self::from_file(File::FD).const_or(Self::from_file(File::FE)).const_or(
                Self::from_file(File::FF),
            ),
        );
        assert(b@ =~= palace_set(side));
        b
    }

    /// Both palaces.
    pub fn palaces() -> (b: Bitboard)
        ensures
            b@ == palace_set(Side::Red).union(palace_set(Side::Black)),
    {
        Self::palace(Side::Red).const_or(Self::palace(Side::Black))
    }

    /// The files a, c, e, g and i, on which the pawns start.
    pub fn pawn_file() -> (b: Bitboard)
        ensures
            b@ == pawn_file_set(),
    {
        let b = Self::from_file(File::FA).const_or(Self::from_file(File::FC)).const_or(
            Self::from_file(File::FE),
        ).const_or(Self::from_file(File::FG)).const_or(Self::from_file(File::FI));
        assert(b@ =~= pawn_file_set());
        b
    }

    /// The squares a pawn of `side` can ever stand on: its starting files on its two
    /// ranks before the river, and the whole opposing half of the board.
    pub fn pawn(side: Side) -> (b: Bitboard)
        ensures
            b@ == pawn_set(side),
    {
        let other_side = Self::side(side.opposite());
        let own = match side {
            Side::Red => Self::from_rank(Rank::R3).const_or(Self::from_rank(Rank::R4)),
            Side::Black => Self::from_rank(Rank::R5).const_or(Self::from_rank(Rank::R6)),
        };
        let my_side = Self::pawn_file().const_and(own);
        let b = my_side.const_or(other_side);
        assert(own@ =~= (if side == Side::Red {
            ranks_set(3, 4)
        } else {
            ranks_set(5, 6)
        }));
        b
    }
}

} // verus!

verus! {

/// The line drawn between ranks.
pub open spec fn rank_separator() -> Seq<char> {
    "+---+---+---+---+---+---+---+---+---+\n"@
}

/// The cell of square `sq`: marked `X` when `s` holds it.
pub open spec fn cell_text(s: Set<int>, sq: int) -> Seq<char> {
    if s.contains(sq) {
        "| X "@
    } else {
        "|   "@
    }
}

/// The cells of the first `n` files of rank `r`.
pub open spec fn row_cells(s: Set<int>, r: int, n: int) -> Seq<char>
    decreases n,
{
    if n <= 0 {
        Seq::empty()
    } else {
        row_cells(s, r, n - 1) + cell_text(s, r * 9 + n - 1)
    }
}

/// Rank `r` drawn: its cells, its number, and the separator below.
pub open spec fn row_text(s: Set<int>, r: int) -> Seq<char> {
    row_cells(s, r, 9) + "| "@ + seq![rank_digit(r)] + "\n"@ + rank_separator()
}

/// The first `k` ranks drawn, from rank 9 down.
pub open spec fn rows_text(s: Set<int>, k: int) -> Seq<char>
    decreases k,
{
    if k <= 0 {
        Seq::empty()
    } else {
        rows_text(s, k - 1) + row_text(s, 10 - k)
    }
}

/// The board drawn with the squares of `s` marked, rank 9 on top, with the file
/// letters below.
pub open spec fn board_text(s: Set<int>) -> Seq<char> {
    rank_separator() + rows_text(s, 10) + "  a   b   c   d   e   f   g   h   i\n"@
}

impl Bitboard {
    /// The squares of rank `r` (same as [`Bitboard::from_rank`]).
    pub fn rank(r: Rank) -> (b: Bitboard)
        ensures
            b@ == rank_set(r.idx()),
    {
        Bitboard::from_rank(r)
    }

    /// The squares of file `f` (same as [`Bitboard::from_file`]).
    pub fn file(f: File) -> (b: Bitboard)
        ensures
            b@ == file_set(f.idx()),
    {
        Bitboard::from_file(f)
    }
}

impl Bitboard {
    /// The board drawn in text with the squares of the bitboard marked `X` (see
    /// [`board_text`]).
    pub fn to_string(&self) -> (r: String)
        ensures
            r@ == board_text(self@),
    {
        let mut out = String::from_str("+---+---+---+---+---+---+---+---+---+\n");
        let mut k: u8 = 0;
        while k < 10
            invariant
                k <= 10,
                out@ == rank_separator() + rows_text(self@, k as int),
            decreases 10 - k,
        {
            let rank = 9 - k;
            let ghost before = out@;
            let mut file: u8 = 0;
            while file < 9
                invariant
                    file <= 9,
                    rank == 9 - k,
                    k < 10,
                    out@ == before + row_cells(self@, rank as int, file as int),
                decreases 9 - file,
            {
                let sq = Square::from_repr(rank * 9 + file).unwrap();
                if self.is_occupied(sq) {
                    out.append("| X ");
                } else {
                    out.append("|   ");
                }
                proof {
                    assert(out@ =~= before + row_cells(self@, rank as int, file as int + 1));
                }
                file = file + 1;
            }
            out.append("| ");
            let digit = ascii_str(48 + rank);
            out.append(digit.as_str());
            out.append("\n");
            out.append("+---+---+---+---+---+---+---+---+---+\n");
            proof {
                assert(rank_separator() == "+---+---+---+---+---+---+---+---+---+\n"@);
                assert(out@ =~= rank_separator() + rows_text(self@, k as int + 1)) by {
                    assert(rows_text(self@, k as int + 1) == rows_text(self@, k as int) + row_text(self@, rank as int));
                }
            }
            k = k + 1;
        }
        out.append("  a   b   c   d   e   f   g   h   i\n");
        proof {
            assert(out@ =~= board_text(self@));
        }
        out
    }
}

} // verus!
