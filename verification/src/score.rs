//! Search scores, mate scores and tapered (middlegame/endgame) score pairs.
use vstd::prelude::*;

verus! {

/// An evaluation or search score, in centipawns.
pub type Score = i32;

/// The maximum search ply.
pub const MAX_PLY: usize = 128;

/// The maximum iterative-deepening depth.
pub const MAX_DEPTH: usize = 64;

pub const ZERO: Score = 0;

pub const DRAW: Score = 0;

/// The score of a side that mates immediately.
pub const MATE: Score = 32000;

/// A bound above every reachable score.
pub const INFINITY: Score = 32001;

/// The lowest score that still denotes a forced mate (`MATE - MAX_PLY`).
pub const MATE_IN_MAX_PLY: Score = 31872;

/// The highest score that still denotes being mated (`-MATE + MAX_PLY`).
pub const MATED_IN_MAX_PLY: Score = -31872;

/// Whether the score is a forced mate for the side to move.
pub fn is_winning(value: Score) -> (r: bool)
    ensures
        r == (value >= MATE_IN_MAX_PLY),
{
    value >= MATE_IN_MAX_PLY
}

/// Whether the score is a forced mate against the side to move.
pub fn is_losing(value: Score) -> (r: bool)
    ensures
        r == (value <= MATED_IN_MAX_PLY),
{
    value <= MATED_IN_MAX_PLY
}

/// The score relative to the root made independent of the ply it was found at:
/// mate scores are moved away from zero by `ply`, other scores are unchanged.
pub open spec fn ply_independent_spec(value: int, ply: int) -> int {
    if value >= MATE_IN_MAX_PLY {
        value + ply
    } else if value <= MATED_IN_MAX_PLY {
        value - ply
    } else {
        value
    }
}

/// The inverse adjustment of [`ply_independent_spec`]: mate scores are moved toward
/// zero by `ply`.
pub open spec fn ply_dependent_spec(value: int, ply: int) -> int {
    if value >= MATE_IN_MAX_PLY {
        value - ply
    } else if value <= MATED_IN_MAX_PLY {
        value + ply
    } else {
        value
    }
}

/// Scores that stay within the bounds of a search.
pub open spec fn in_search_range(value: int) -> bool {
    -INFINITY <= value <= INFINITY
}

/// Makes a score independent of the ply at which it was found, for storing in the
/// transposition table.
pub fn ply_independent(value: Score, ply: u8) -> (r: Score)
    requires
        in_search_range(value as int),
    ensures
        r == ply_independent_spec(value as int, ply as int),
{
    if is_winning(value) {
        value + ply as Score
    } else if is_losing(value) {
        value - ply as Score
    } else {
        value
    }
}

/// Makes a stored score relative to the ply at which it is probed.
pub fn ply_dependent(value: Score, ply: u8) -> (r: Score)
    requires
        -INFINITY - 256 <= value <= INFINITY + 256,
    ensures
        r == ply_dependent_spec(value as int, ply as int),
{
    if is_winning(value) {
        value - ply as Score
    } else if is_losing(value) {
        value + ply as Score
    } else {
        value
    }
}

/// Storing a score and probing it back at the same ply gives the score back, as long
/// as the adjustment does not move it across the mate thresholds.
pub proof fn lemma_ply_round_trip(value: int, ply: int)
    requires
        0 <= ply < 256,
        in_search_range(value),
        value < MATED_IN_MAX_PLY - ply || value > MATED_IN_MAX_PLY,
    ensures
        ply_dependent_spec(ply_independent_spec(value, ply), ply) == value,
{
}

/// The number of plies until the side to move mates or is mated, or `None` for
/// scores that are not mate scores.
pub fn ply_to_mate_or_mated(value: Score) -> (r: Option<u8>)
    requires
        in_search_range(value as int),
    ensures
        value >= MATE_IN_MAX_PLY ==> r == Some((MATE - value) as u8),
        value <= MATED_IN_MAX_PLY ==> r == Some((value + MATE) as u8),
        MATED_IN_MAX_PLY < value < MATE_IN_MAX_PLY ==> r is None,
{
    if is_winning(value) {
        #[verifier::truncate]
        let r = (MATE - value) as u8;
        Some(r)
    } else if is_losing(value) {
        #[verifier::truncate]
        let r = (value + MATE) as u8;
        Some(r)
    } else {
        None
    }
}

/// The score of mating in `ply` plies.
pub fn mate_in(ply: u8) -> (r: Score)
    ensures
        r == MATE - ply,
{
    MATE - ply as Score
}

/// The score of being mated in `ply` plies.
pub fn mated_in(ply: u8) -> (r: Score)
    ensures
        r == -MATE + ply,
{
    -MATE + ply as Score
}

/// A pair of middlegame and endgame scores, blended by game phase.
#[derive(Clone, Copy, PartialEq, Eq, Structural, Debug)]
pub struct PackedScore {
    pub mg: i32,
    pub eg: i32,
}

/// Bound on the magnitude of the parts of a score that can be added or subtracted
/// without overflow.
pub open spec fn small(x: int) -> bool {
    -0x3FFF_FFFF <= x <= 0x3FFF_FFFF
}

impl PackedScore {
    /// A score pair.
    pub fn new(mg: i32, eg: i32) -> (r: PackedScore)
        ensures
            r.mg == mg,
            r.eg == eg,
    {
        PackedScore { mg, eg }
    }

    /// The zero score pair.
    pub fn zero() -> (r: PackedScore)
        ensures
            r.mg == 0,
            r.eg == 0,
    {
        PackedScore { mg: 0, eg: 0 }
    }

    /// Component-wise sum.
    pub fn add(self, other: PackedScore) -> (r: PackedScore)
        requires
            small(self.mg as int) && small(self.eg as int),
            small(other.mg as int) && small(other.eg as int),
        ensures
            r.mg == self.mg + other.mg,
            r.eg == self.eg + other.eg,
    {
        PackedScore { mg: self.mg + other.mg, eg: self.eg + other.eg }
    }

    /// Component-wise difference.
    pub fn sub(self, other: PackedScore) -> (r: PackedScore)
        requires
            small(self.mg as int) && small(self.eg as int),
            small(other.mg as int) && small(other.eg as int),
        ensures
            r.mg == self.mg - other.mg,
            r.eg == self.eg - other.eg,
    {
        PackedScore { mg: self.mg - other.mg, eg: self.eg - other.eg }
    }

    /// Both components multiplied by `sign`, which is 1 or -1.
    pub fn signed(self, sign: i32) -> (r: PackedScore)
        requires
            sign == 1 || sign == -1,
            small(self.mg as int) && small(self.eg as int),
        ensures
            r.mg == (if sign == 1 { self.mg as int } else { -self.mg }),
            r.eg == (if sign == 1 { self.eg as int } else { -self.eg }),
    {
        if sign == 1 {
            self
        } else {
            PackedScore { mg: -self.mg, eg: -self.eg }
        }
    }
}

} // verus!
