//! Sliding moves along a single line (a rank or a file) of at most ten points.
//!
//! A line is described by an occupancy predicate over the points `0..len`; the
//! functions here compute, as bit masks over the line, the points a rook or a
//! cannon standing at `pos` reaches.
use vstd::prelude::*;

verus! {

/// Whether bit `i` of `x` is set.
pub open spec fn bit32(x: u32, i: int) -> bool {
    0 <= i < 32 && (x >> (i as u32)) & 1u32 == 1u32
}

/// The line occupancy described by the bits of `x`.
pub open spec fn line_of(x: u32) -> spec_fn(int) -> bool {
    |j: int| bit32(x, j)
}

/// Number of occupied points strictly between `a` and `b` (for `a < b`).
pub open spec fn count_between(line: spec_fn(int) -> bool, a: int, b: int) -> nat
    decreases b - a,
{
    if a + 1 >= b {
        0
    } else {
        (if line(a + 1) {
            1nat
        } else {
            0nat
        }) + count_between(line, a + 1, b)
    }
}

/// Number of occupied points strictly between `p` and `j`, in either order.
pub open spec fn between(line: spec_fn(int) -> bool, p: int, j: int) -> nat {
    if j < p {
        count_between(line, j, p)
    } else {
        count_between(line, p, j)
    }
}

/// Points a rook at `pos` reaches on a line of `len` points: every other point with
/// no occupied point in between (the first blocker on each side included).
pub open spec fn rook_ray_set(line: spec_fn(int) -> bool, pos: int, len: int) -> Set<int> {
    Set::new(|j: int| 0 <= j < len && j != pos && between(line, pos, j) == 0)
}

/// Points a cannon at `pos` captures on: occupied points with exactly one occupied
/// point (the screen) in between.
pub open spec fn cannon_ray_set(line: spec_fn(int) -> bool, pos: int, len: int) -> Set<int> {
    Set::new(|j: int| 0 <= j < len && j != pos && line(j) && between(line, pos, j) == 1)
}

/// Points behind exactly one screen: all points with exactly one occupied point in
/// between, up to and including the next piece.
pub open spec fn cannon_beyond_set(line: spec_fn(int) -> bool, pos: int, len: int) -> Set<int> {
    Set::new(|j: int| 0 <= j < len && j != pos && between(line, pos, j) == 1)
}

/// The set of points whose bit is set in `mask`.
pub open spec fn mask_set(mask: u32) -> Set<int> {
    Set::new(|j: int| bit32(mask, j))
}

/// No occupied point lies strictly between `a` and `b` exactly when the count is 0.
pub proof fn lemma_count_between_zero(line: spec_fn(int) -> bool, a: int, b: int)
    ensures
        (count_between(line, a, b) == 0) == (forall|j: int| a < j < b ==> !#[trigger] line(j)),
    decreases b - a,
{
    if a + 1 < b {
        lemma_count_between_zero(line, a + 1, b);
    }
}

/// Whether `u` is the only occupied point strictly between `a` and `b`.
pub open spec fn only_point(line: spec_fn(int) -> bool, a: int, b: int, u: int) -> bool {
    a < u < b && line(u) && forall|v: int| a < v < b && #[trigger] line(v) ==> v == u
}

/// Exactly one occupied point lies strictly between `a` and `b` exactly when the
/// count is 1.
pub proof fn lemma_count_between_one(line: spec_fn(int) -> bool, a: int, b: int)
    ensures
        (count_between(line, a, b) == 1) == (exists|u: int| #[trigger] only_point(line, a, b, u)),
    decreases b - a,
{
    if a + 1 < b {
        lemma_count_between_one(line, a + 1, b);
        lemma_count_between_zero(line, a + 1, b);
        if line(a + 1) {
            if count_between(line, a, b) == 1 {
                assert(count_between(line, a + 1, b) == 0);
                assert(only_point(line, a, b, a + 1));
            } else if exists|u: int| #[trigger] only_point(line, a, b, u) {
                let u = choose|u: int| #[trigger] only_point(line, a, b, u);
                assert(u == a + 1);
                assert forall|j: int| a + 1 < j < b implies !#[trigger] line(j) by {
                    if line(j) {
                        assert(j == u);
                    }
                }
                assert(count_between(line, a + 1, b) == 0);
            }
        } else {
            if count_between(line, a, b) == 1 {
                let u = choose|u: int| #[trigger] only_point(line, a + 1, b, u);
                assert(only_point(line, a, b, u));
            } else if exists|u: int| #[trigger] only_point(line, a, b, u) {
                let u = choose|u: int| #[trigger] only_point(line, a, b, u);
                assert(only_point(line, a + 1, b, u));
            }
        }
    }
}

/// Adding a point at the far end of a range.
pub proof fn lemma_count_between_extend(line: spec_fn(int) -> bool, a: int, b: int)
    requires
        a < b,
    ensures
        count_between(line, a, b + 1) == count_between(line, a, b) + (if line(b) {
            1nat
        } else {
            0nat
        }),
    decreases b - a,
{
    if a + 1 < b {
        lemma_count_between_extend(line, a + 1, b);
    } else {
        assert(count_between(line, a + 1, b + 1) == 0);
    }
}

/// The count only depends on the points strictly inside the range.
pub proof fn lemma_count_between_congruent(
    l1: spec_fn(int) -> bool,
    l2: spec_fn(int) -> bool,
    a: int,
    b: int,
)
    requires
        forall|j: int| a < j < b ==> #[trigger] l1(j) == l2(j),
    ensures
        count_between(l1, a, b) == count_between(l2, a, b),
    decreases b - a,
{
    if a + 1 < b {
        lemma_count_between_congruent(l1, l2, a + 1, b);
    }
}

/// Widening a range never decreases the count; an occupied point strictly inside the
/// wider part adds at least one.
pub proof fn lemma_count_between_mono(line: spec_fn(int) -> bool, a: int, c: int, b: int)
    requires
        a <= c < b,
    ensures
        count_between(line, a, b) >= count_between(line, c, b) + (if a < c && line(c) {
            1nat
        } else {
            0nat
        }),
    decreases c - a,
{
    if a < c {
        lemma_count_between_mono(line, a + 1, c, b);
        if a + 1 == c {
        }
    }
}

/// Symmetric version of [`lemma_count_between_mono`] for the upper end.
pub proof fn lemma_count_between_mono_hi(line: spec_fn(int) -> bool, a: int, c: int, b: int)
    requires
        a < c <= b,
    ensures
        count_between(line, a, b) >= count_between(line, a, c) + (if c < b && line(c) {
            1nat
        } else {
            0nat
        }),
    decreases b - c,
{
    if c < b {
        lemma_count_between_mono_hi(line, a, c + 1, b);
        lemma_count_between_extend(line, a, c);
    }
}

proof fn lemma_bit32_single(s: u32, i: int)
    requires
        s < 32,
    ensures
        bit32(1u32 << s, i) == (i == s),
{
    if 0 <= i < 32 {
        let j = i as u32;
        assert(((1u32 << s) >> j) & 1u32 == 1u32 <==> j == s) by (bit_vector)
            requires
                s < 32,
                j < 32,
        ;
    }
}

proof fn lemma_bit32_or(a: u32, b: u32, i: int)
    ensures
        bit32(a | b, i) == (bit32(a, i) || bit32(b, i)),
{
    if 0 <= i < 32 {
        let s = i as u32;
        assert(((a | b) >> s) & 1u32 == 1u32 <==> ((a >> s) & 1u32 == 1u32 || (b >> s) & 1u32
            == 1u32)) by (bit_vector)
            requires
                s < 32,
        ;
    }
}

pub proof fn lemma_bit32_zero(i: int)
    ensures
        !bit32(0, i),
{
    if 0 <= i < 32 {
        let s = i as u32;
        assert((0u32 >> s) & 1u32 == 0u32) by (bit_vector);
    }
}

/// Whether point `i` of `occ` is occupied.
fn occupied_at(occ: u32, i: i8) -> (r: bool)
    requires
        0 <= i < 32,
    ensures
        r == bit32(occ, i as int),
{
    let s = i as u32;
    assert(((occ & (1u32 << s)) != 0) == ((occ >> s) & 1u32 == 1u32)) by (bit_vector)
        requires
            s < 32,
    ;
    (occ & (1u32 << s)) != 0
}

/// Rook ray: slides outward from `pos` in both directions, stopping at (and
/// including) the first occupied point on each side.
pub fn rook_ray(pos: i8, len: i8, occ: u32) -> (mask: u32)
    requires
        0 <= pos < len <= 10,
    ensures
        mask_set(mask) == rook_ray_set(line_of(occ), pos as int, len as int),
{
    let ghost line = line_of(occ);
    let mut mask: u32 = 0;
    // Slide toward point 0.
    let mut i: i8 = pos - 1;
    let mut blocked = false;
    proof {
        assert forall|j: int| #[trigger] bit32(mask, j) == false by {
            lemma_bit32_zero(j);
        }
    }
    while i >= 0 && !blocked
        invariant
            0 <= pos < len <= 10,
            -1 <= i < pos,
            line == line_of(occ),
            !blocked ==> count_between(line, i as int, pos as int) == 0,
            blocked ==> i + 1 < pos && line(i + 1) && count_between(line, i + 1, pos as int) == 0,
            forall|j: int| #[trigger] bit32(mask, j) == (i < j < pos),
        decreases i + 1,
    {
        let old_mask = mask;
        mask = mask | (1u32 << (i as u32));
        proof {
            assert forall|j: int| #[trigger] bit32(mask, j) == (i <= j < pos) by {
                lemma_bit32_or(old_mask, 1u32 << (i as u32), j);
                lemma_bit32_single(i as u32, j);
            }
        }
        if occupied_at(occ, i) {
            blocked = true;
        }
        i = i - 1;
        proof {
            if !blocked {
                assert(count_between(line, i as int, pos as int) == 0);
            }
        }
    }
    let ghost lo = i;
    let ghost lo_blocked = blocked;
    // Slide toward point len - 1.
    let mut i: i8 = pos + 1;
    let mut blocked = false;
    while i < len && !blocked
        invariant
            0 <= pos < len <= 10,
            pos < i <= len,
            line == line_of(occ),
            !blocked ==> count_between(line, pos as int, i as int) == 0,
            blocked ==> pos < i - 1 && line(i - 1) && count_between(line, pos as int, i - 1) == 0,
            forall|j: int| #[trigger] bit32(mask, j) == ((lo < j < pos) || (pos < j < i)),
        decreases len - i,
    {
        let old_mask = mask;
        mask = mask | (1u32 << (i as u32));
        proof {
            assert forall|j: int| #[trigger] bit32(mask, j) == ((lo < j < pos) || (pos < j <= i)) by {
                lemma_bit32_or(old_mask, 1u32 << (i as u32), j);
                lemma_bit32_single(i as u32, j);
            }
            lemma_count_between_extend(line, pos as int, i as int);
        }
        if occupied_at(occ, i) {
            blocked = true;
        }
        i = i + 1;
    }
    let ghost hi = i;
    proof {
        let spec_set = rook_ray_set(line, pos as int, len as int);
        assert forall|j: int| #[trigger] mask_set(mask).contains(j) == spec_set.contains(j) by {
            if j < pos {
                if lo < j {
                    if lo_blocked {
                        lemma_count_between_mono(line, lo + 1, j, pos as int);
                    } else {
                        lemma_count_between_mono(line, lo as int, j, pos as int);
                    }
                } else if 0 <= j {
                    assert(lo_blocked);
                    lemma_count_between_mono(line, j, lo + 1, pos as int);
                }
            } else if j > pos {
                if j < hi {
                    if blocked {
                        lemma_count_between_mono_hi(line, pos as int, j, hi - 1);
                    } else {
                        lemma_count_between_mono_hi(line, pos as int, j, hi as int);
                    }
                } else if j < len {
                    assert(blocked);
                    lemma_count_between_mono_hi(line, pos as int, hi - 1, j);
                }
            }
        }
        assert(mask_set(mask) =~= spec_set);
    }
    mask
}

/// Cannon capture ray: on each side, skips the first occupied point (the screen) and
/// marks the next occupied point beyond it (the capture target).
pub fn cannon_ray(pos: i8, len: i8, occ: u32) -> (mask: u32)
    requires
        0 <= pos < len <= 10,
    ensures
        mask_set(mask) == cannon_ray_set(line_of(occ), pos as int, len as int),
{
    let ghost line = line_of(occ);
    let mut mask: u32 = 0;
    proof {
        assert forall|j: int| #[trigger] bit32(mask, j) == false by {
            lemma_bit32_zero(j);
        }
    }
    // Toward point 0.
    let mut i: i8 = pos - 1;
    let mut screen = false;
    let mut done = false;
    while i >= 0 && !done
        invariant
            0 <= pos < len <= 10,
            -1 <= i < pos,
            line == line_of(occ),
            !done ==> count_between(line, i as int, pos as int) == (if screen {
                1nat
            } else {
                0nat
            }),
            done ==> i + 1 < pos && line(i + 1) && count_between(line, i + 1, pos as int) == 1,
            forall|j: int|
                #[trigger] bit32(mask, j) == (i < j < pos && line(j) && count_between(
                    line,
                    j,
                    pos as int,
                ) == 1),
        decreases i + 1,
    {
        if occupied_at(occ, i) {
            if screen {
                let old_mask = mask;
                mask = mask | (1u32 << (i as u32));
                proof {
                    assert forall|j: int| #[trigger] bit32(mask, j) == (i <= j < pos && line(j)
                        && count_between(line, j, pos as int) == 1) by {
                        lemma_bit32_or(old_mask, 1u32 << (i as u32), j);
                        lemma_bit32_single(i as u32, j);
                    }
                }
                done = true;
            } else {
                screen = true;
            }
        }
        i = i - 1;
    }
    let ghost lo = i;
    let ghost lo_done = done;
    let ghost lo_mask = mask;
    // Toward point len - 1.
    let mut i: i8 = pos + 1;
    let mut screen = false;
    let mut done = false;
    while i < len && !done
        invariant
            0 <= pos < len <= 10,
            pos < i <= len,
            line == line_of(occ),
            !done ==> count_between(line, pos as int, i as int) == (if screen {
                1nat
            } else {
                0nat
            }),
            done ==> pos < i - 1 && line(i - 1) && count_between(line, pos as int, i - 1) == 1,
            forall|j: int|
                #[trigger] bit32(mask, j) == (bit32(lo_mask, j) || (pos < j < i && line(j)
                    && count_between(line, pos as int, j) == 1)),
        decreases len - i,
    {
        proof {
            lemma_count_between_extend(line, pos as int, i as int);
        }
        if occupied_at(occ, i) {
            if screen {
                let old_mask = mask;
                mask = mask | (1u32 << (i as u32));
                proof {
                    assert forall|j: int| #[trigger] bit32(mask, j) == (bit32(lo_mask, j) || (pos
                        < j <= i && line(j) && count_between(line, pos as int, j) == 1)) by {
                        lemma_bit32_or(old_mask, 1u32 << (i as u32), j);
                        lemma_bit32_single(i as u32, j);
                    }
                }
                done = true;
            } else {
                screen = true;
            }
        }
        i = i + 1;
    }
    let ghost hi = i;
    proof {
        let spec_set = cannon_ray_set(line, pos as int, len as int);
        assert forall|j: int| #[trigger] mask_set(mask).contains(j) == spec_set.contains(j) by {
            if 0 <= j < pos {
                if j <= lo {
                    if lo_done {
                        lemma_count_between_mono(line, j, lo + 1, pos as int);
                        if j < lo + 1 {
                            assert(count_between(line, j, pos as int) >= 2);
                        }
                    }
                }
            } else if pos < j < len {
                if j >= hi {
                    assert(done);
                    if j > hi - 1 {
                        lemma_count_between_mono_hi(line, pos as int, hi - 1, j);
                    }
                }
            }
        }
        assert(mask_set(mask) =~= spec_set);
    }
    mask
}

/// Cannon attack ray: on each side, every point strictly behind the first occupied
/// point (the screen), up to and including the next occupied point.
pub fn cannon_beyond_attack(pos: i8, len: i8, occ: u32) -> (mask: u32)
    requires
        0 <= pos < len <= 10,
    ensures
        mask_set(mask) == cannon_beyond_set(line_of(occ), pos as int, len as int),
{
    let ghost line = line_of(occ);
    let mut mask: u32 = 0;
    proof {
        assert forall|j: int| #[trigger] bit32(mask, j) == false by {
            lemma_bit32_zero(j);
        }
    }
    // Toward point 0.
    let mut i: i8 = pos - 1;
    let mut screen = false;
    let mut done = false;
    while i >= 0 && !done
        invariant
            0 <= pos < len <= 10,
            -1 <= i < pos,
            line == line_of(occ),
            !done ==> count_between(line, i as int, pos as int) == (if screen {
                1nat
            } else {
                0nat
            }),
            done ==> i + 1 < pos && line(i + 1) && count_between(line, i + 1, pos as int) == 1,
            forall|j: int|
                #[trigger] bit32(mask, j) == (i < j < pos && count_between(line, j, pos as int)
                    == 1),
        decreases i + 1,
    {
        if screen {
            let old_mask = mask;
            mask = mask | (1u32 << (i as u32));
            proof {
                assert forall|j: int| #[trigger] bit32(mask, j) == (i <= j < pos && count_between(
                    line,
                    j,
                    pos as int,
                ) == 1) by {
                    lemma_bit32_or(old_mask, 1u32 << (i as u32), j);
                    lemma_bit32_single(i as u32, j);
                }
            }
        }
        if occupied_at(occ, i) {
            if screen {
                done = true;
            } else {
                screen = true;
            }
        }
        i = i - 1;
    }
    let ghost lo = i;
    let ghost lo_done = done;
    let ghost lo_mask = mask;
    // Toward point len - 1.
    let mut i: i8 = pos + 1;
    let mut screen = false;
    let mut done = false;
    while i < len && !done
        invariant
            0 <= pos < len <= 10,
            pos < i <= len,
            line == line_of(occ),
            !done ==> count_between(line, pos as int, i as int) == (if screen {
                1nat
            } else {
                0nat
            }),
            done ==> pos < i - 1 && line(i - 1) && count_between(line, pos as int, i - 1) == 1,
            forall|j: int|
                #[trigger] bit32(mask, j) == (bit32(lo_mask, j) || (pos < j < i && count_between(
                    line,
                    pos as int,
                    j,
                ) == 1)),
        decreases len - i,
    {
        proof {
            lemma_count_between_extend(line, pos as int, i as int);
        }
        if screen {
            let old_mask = mask;
            mask = mask | (1u32 << (i as u32));
            proof {
                assert forall|j: int| #[trigger] bit32(mask, j) == (bit32(lo_mask, j) || (pos < j
                    <= i && count_between(line, pos as int, j) == 1)) by {
                    lemma_bit32_or(old_mask, 1u32 << (i as u32), j);
                    lemma_bit32_single(i as u32, j);
                }
            }
        }
        if occupied_at(occ, i) {
            if screen {
                done = true;
            } else {
                screen = true;
            }
        }
        i = i + 1;
    }
    let ghost hi = i;
    proof {
        let spec_set = cannon_beyond_set(line, pos as int, len as int);
        assert forall|j: int| #[trigger] mask_set(mask).contains(j) == spec_set.contains(j) by {
            if 0 <= j < pos {
                if j <= lo {
                    if lo_done {
                        lemma_count_between_mono(line, j, lo + 1, pos as int);
                    }
                }
            } else if pos < j < len {
                if j >= hi {
                    assert(done);
                    lemma_count_between_mono_hi(line, pos as int, hi - 1, j);
                }
            }
        }
        assert(mask_set(mask) =~= spec_set);
    }
    mask
}

} // verus!
