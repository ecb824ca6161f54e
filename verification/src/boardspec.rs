//! Mathematical description of a board (the piece on each of the 90 squares) and of
//! the quantities a position keeps up to date incrementally: piece sets, piece
//! counts, the Zobrist hash, the tapered score and the game phase.
use crate::eval::values::{phase_weight_spec, piece_value_spec};
use crate::types::{Piece, PieceType, Side};
use vstd::prelude::*;

verus! {

/// The squares holding a piece.
pub open spec fn occ_set(b: Seq<Option<Piece>>) -> Set<int> {
    Set::new(|s: int| 0 <= s < b.len() && b[s] is Some)
}

/// The squares holding a piece of side `c`.
pub open spec fn color_set(b: Seq<Option<Piece>>, c: Side) -> Set<int> {
    Set::new(|s: int| 0 <= s < b.len() && b[s] is Some && b[s]->0.color_spec() == c)
}

/// The squares holding a piece of type `t`.
pub open spec fn type_set(b: Seq<Option<Piece>>, t: PieceType) -> Set<int> {
    Set::new(|s: int| 0 <= s < b.len() && b[s] is Some && b[s]->0.piece_type_spec() == t)
}

/// The squares holding the piece `p`.
pub open spec fn piece_set(b: Seq<Option<Piece>>, p: Piece) -> Set<int> {
    Set::new(|s: int| 0 <= s < b.len() && b[s] == Some(p))
}

/// Number of the first `n` squares that hold the piece `p`.
pub open spec fn count_fold(b: Seq<Option<Piece>>, p: Piece, n: int) -> nat
    decreases n,
{
    if n <= 0 {
        0
    } else {
        count_fold(b, p, n - 1) + if b[n - 1] == Some(p) {
            1nat
        } else {
            0nat
        }
    }
}

/// Number of squares holding the piece `p`.
pub open spec fn count_spec(b: Seq<Option<Piece>>, p: Piece) -> nat {
    count_fold(b, p, b.len() as int)
}

/// The multiplier of the Knuth MMIX linear congruential generator.
pub open spec fn lcg_mul() -> u64 {
    6364136223846793005u64
}

/// The increment of the Knuth MMIX linear congruential generator.
pub open spec fn lcg_inc() -> u64 {
    1442695040888963407u64
}

/// One step of the generator.
pub open spec fn lcg_step(x: u64) -> u64 {
    (((x as nat * lcg_mul() as nat) % 0x1_0000_0000_0000_0000 + lcg_inc() as nat)
        % 0x1_0000_0000_0000_0000) as u64
}

/// The state of the generator after `n` steps from `seed`.
pub open spec fn lcg_iter(seed: u64, n: nat) -> u64
    decreases n,
{
    if n == 0 {
        seed
    } else {
        lcg_step(lcg_iter(seed, (n - 1) as nat))
    }
}

/// The seed of the Zobrist keys.
pub open spec fn zobrist_seed() -> u64 {
    (202416124u64 ^ 202400076u64) ^ 2416167u64
}

/// Number of Zobrist keys: one per (piece representation, square) pair for the 15
/// piece representations, then one for the side to move.
pub open spec fn zobrist_len() -> int {
    1351int
}

/// The Zobrist keys: the successive outputs of the generator from the seed.
pub open spec fn zobrist_keys() -> Seq<u64> {
    Seq::new(zobrist_len() as nat, |i: int| lcg_iter(zobrist_seed(), (i + 1) as nat))
}

/// The key of the side to move (XOR-ed in when Black is to move).
pub open spec fn side_key(keys: Seq<u64>) -> u64 {
    keys[1350int]
}

/// The key of a square's content (0 for an empty square).
pub open spec fn square_key(keys: Seq<u64>, x: Option<Piece>, s: int) -> u64 {
    match x {
        Some(p) => keys[p.idx() * 90 + s],
        None => 0,
    }
}

/// XOR of the keys of the first `n` squares.
pub open spec fn hash_fold(b: Seq<Option<Piece>>, keys: Seq<u64>, n: int) -> u64
    decreases n,
{
    if n <= 0 {
        0
    } else {
        hash_fold(b, keys, n - 1) ^ square_key(keys, b[n - 1], n - 1)
    }
}

/// The Zobrist hash of a board with `side` to move.
pub open spec fn hash_spec(b: Seq<Option<Piece>>, keys: Seq<u64>, side: Side) -> u64 {
    if side == Side::Black {
        hash_fold(b, keys, b.len() as int) ^ side_key(keys)
    } else {
        hash_fold(b, keys, b.len() as int)
    }
}

/// The signed contribution of a square's content to the score, from Red's side.
pub open spec fn square_score(x: Option<Piece>, s: int) -> (int, int) {
    match x {
        Some(p) => {
            let v = piece_value_spec(p, s);
            if p.color_spec() == Side::Red {
                v
            } else {
                (-v.0, -v.1)
            }
        },
        None => (0, 0),
    }
}

/// Sum of the contributions of the first `n` squares.
pub open spec fn score_fold(b: Seq<Option<Piece>>, n: int) -> (int, int)
    decreases n,
{
    if n <= 0 {
        (0, 0)
    } else {
        let a = score_fold(b, n - 1);
        let c = square_score(b[n - 1], n - 1);
        (a.0 + c.0, a.1 + c.1)
    }
}

/// The (middlegame, endgame) score of a board, from Red's side.
pub open spec fn score_spec(b: Seq<Option<Piece>>) -> (int, int) {
    score_fold(b, b.len() as int)
}

/// The phase weight of a square's content.
pub open spec fn square_phase(x: Option<Piece>) -> int {
    match x {
        Some(p) => phase_weight_spec(p.piece_type_spec()),
        None => 0,
    }
}

/// Sum of the phase weights of the first `n` squares.
pub open spec fn phase_fold(b: Seq<Option<Piece>>, n: int) -> int
    decreases n,
{
    if n <= 0 {
        0
    } else {
        phase_fold(b, n - 1) + square_phase(b[n - 1])
    }
}

/// The game phase of a board: the sum of the phase weights of its pieces.
pub open spec fn phase_spec(b: Seq<Option<Piece>>) -> int {
    phase_fold(b, b.len() as int)
}

/// Changing square `i` changes the count of `p` by the difference of the two contents.
pub proof fn lemma_count_update(b: Seq<Option<Piece>>, p: Piece, i: int, x: Option<Piece>, n: int)
    requires
        0 <= i < b.len(),
        0 <= n <= b.len(),
    ensures
        count_fold(b.update(i, x), p, n) + (if i < n && b[i] == Some(p) {
            1int
        } else {
            0int
        }) == count_fold(b, p, n) + (if i < n && x == Some(p) {
            1int
        } else {
            0int
        }),
    decreases n,
{
    if n > 0 {
        lemma_count_update(b, p, i, x, n - 1);
    }
}

/// Counts never exceed the number of squares considered.
pub proof fn lemma_count_bound(b: Seq<Option<Piece>>, p: Piece, n: int)
    requires
        0 <= n,
    ensures
        count_fold(b, p, n) <= n,
    decreases n,
{
    if n > 0 {
        lemma_count_bound(b, p, n - 1);
    }
}

/// A square holding `p` makes the count positive.
pub proof fn lemma_count_pos(b: Seq<Option<Piece>>, p: Piece, i: int, n: int)
    requires
        0 <= i < n <= b.len(),
        b[i] == Some(p),
    ensures
        count_fold(b, p, n) >= 1,
    decreases n,
{
    if n - 1 > i {
        lemma_count_pos(b, p, i, n - 1);
    }
}

/// Exclusive or is commutative and associative, self-inverse, with 0 as identity.
pub proof fn lemma_xor_props(a: u64, b: u64, c: u64)
    by (bit_vector)
    ensures
        (a ^ b) ^ c == (a ^ c) ^ b,
        (a ^ b) ^ b == a,
        a ^ 0 == a,
        ((a ^ b) ^ c) ^ b == a ^ c,
        (a ^ b) ^ c == a ^ (b ^ c),
        0u64 ^ 0u64 == 0u64,
{
}

/// Changing square `i` changes the hash by the keys of the old and the new content.
pub proof fn lemma_hash_update(
    b: Seq<Option<Piece>>,
    keys: Seq<u64>,
    i: int,
    x: Option<Piece>,
    n: int,
)
    requires
        0 <= i < n <= b.len(),
    ensures
        hash_fold(b.update(i, x), keys, n) == (hash_fold(b, keys, n) ^ square_key(keys, b[i], i))
            ^ square_key(keys, x, i),
    decreases n,
{
    let b2 = b.update(i, x);
    let h = hash_fold(b, keys, n - 1);
    let ko = square_key(keys, b[i], i);
    let kn = square_key(keys, x, i);
    if n - 1 == i {
        assert(hash_fold(b2, keys, n - 1) == h) by {
            lemma_hash_prefix_eq(b, b2, keys, n - 1);
        }
        lemma_xor_props(h, ko, kn);
        lemma_xor_props(h ^ ko, ko, 0);
        lemma_xor_props(h, ko, 0);
        assert(((h ^ ko) ^ ko) ^ kn == h ^ kn);
    } else {
        lemma_hash_update(b, keys, i, x, n - 1);
        let last = square_key(keys, b[n - 1], n - 1);
        assert(b2[n - 1] == b[n - 1]);
        lemma_xor_props(h, ko, last);
        lemma_xor_props(h ^ ko, kn, last);
        lemma_xor_props(h ^ last, ko, kn);
        assert(((h ^ ko) ^ kn) ^ last == ((h ^ last) ^ ko) ^ kn);
    }
}

/// Boards agreeing on the first `n` squares have the same partial hash.
pub proof fn lemma_hash_prefix_eq(b1: Seq<Option<Piece>>, b2: Seq<Option<Piece>>, keys: Seq<u64>, n: int)
    requires
        0 <= n <= b1.len(),
        n <= b2.len(),
        forall|j: int| 0 <= j < n ==> #[trigger] b1[j] == b2[j],
    ensures
        hash_fold(b1, keys, n) == hash_fold(b2, keys, n),
    decreases n,
{
    if n > 0 {
        lemma_hash_prefix_eq(b1, b2, keys, n - 1);
    }
}

/// Changing square `i` changes the score by the contributions of the old and the new
/// content.
pub proof fn lemma_score_update(b: Seq<Option<Piece>>, i: int, x: Option<Piece>, n: int)
    requires
        0 <= i < b.len(),
        0 <= n <= b.len(),
    ensures
        score_fold(b.update(i, x), n).0 == score_fold(b, n).0 + (if i < n {
            square_score(x, i).0 - square_score(b[i], i).0
        } else {
            0
        }),
        score_fold(b.update(i, x), n).1 == score_fold(b, n).1 + (if i < n {
            square_score(x, i).1 - square_score(b[i], i).1
        } else {
            0
        }),
    decreases n,
{
    if n > 0 {
        lemma_score_update(b, i, x, n - 1);
    }
}

/// Changing square `i` changes the phase by the weights of the old and the new content.
pub proof fn lemma_phase_update(b: Seq<Option<Piece>>, i: int, x: Option<Piece>, n: int)
    requires
        0 <= i < b.len(),
        0 <= n <= b.len(),
    ensures
        phase_fold(b.update(i, x), n) == phase_fold(b, n) + (if i < n {
            square_phase(x) - square_phase(b[i])
        } else {
            0
        }),
    decreases n,
{
    if n > 0 {
        lemma_phase_update(b, i, x, n - 1);
    }
}

/// Bounds of the partial score: each square contributes at most 985 in magnitude.
pub proof fn lemma_score_bounds(b: Seq<Option<Piece>>, n: int)
    requires
        0 <= n <= b.len(),
        b.len() == 90,
    ensures
        -985 * n <= score_fold(b, n).0 <= 985 * n,
        -985 * n <= score_fold(b, n).1 <= 985 * n,
    decreases n,
{
    if n > 0 {
        lemma_score_bounds(b, n - 1);
        if let Some(p) = b[n - 1] {
            crate::eval::values::lemma_piece_value_bounds(p, n - 1);
        }
    }
}

/// Bounds of the partial phase: each square weighs at most 2.
pub proof fn lemma_phase_bounds(b: Seq<Option<Piece>>, n: int)
    requires
        0 <= n <= b.len(),
    ensures
        0 <= phase_fold(b, n) <= 2 * n,
    decreases n,
{
    if n > 0 {
        lemma_phase_bounds(b, n - 1);
    }
}

} // verus!
