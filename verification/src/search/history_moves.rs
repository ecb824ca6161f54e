//! The history heuristic: a score per side and (origin, destination) pair,
//! raised for quiet moves that cause cutoffs and lowered for those that do not.
use crate::types::{Move, Side};
use vstd::prelude::*;

verus! {

/// The divisor applied to every score when a new search starts.
pub const DECAY_RATE: i32 = 8;

/// The slot of side `color` and move from `from` to `to`.
pub open spec fn history_slot(color: Side, from: int, to: int) -> int {
    color.idx() * 8100 + from * 90 + to
}

/// `v` divided by `d`, rounded toward zero.
pub open spec fn div_toward_zero(v: int, d: int) -> int {
    if v >= 0 {
        v / d
    } else {
        -((-v) / d)
    }
}

/// History scores for each side and (origin, destination) pair.
pub struct HistoryMoves {
    table: Vec<i32>,
}

impl HistoryMoves {
    /// The scores, indexed by [`history_slot`].
    pub closed spec fn scores(&self) -> Seq<i32> {
        self.table@
    }

    /// The score of move `m` for side `color`.
    pub open spec fn score_of(&self, color: Side, m: Move) -> i32 {
        self.scores()[history_slot(color, m.from_idx(), m.to_idx())]
    }

    /// All scores zero.
    pub fn new() -> (r: HistoryMoves)
        ensures
            r.scores().len() == 16200,
            forall|i: int| 0 <= i < 16200 ==> #[trigger] r.scores()[i] == 0,
    {
        let mut table: Vec<i32> = Vec::new();
        let mut i: usize = 0;
        while i < 16200
            invariant
                i <= 16200,
                table@.len() == i,
                forall|j: int| 0 <= j < i ==> #[trigger] table@[j] == 0,
            decreases 16200 - i,
        {
            table.push(0);
            i = i + 1;
        }
        HistoryMoves { table }
    }

    /// The score of move `mv` for side `color`.
    pub fn get(&self, color: Side, mv: Move) -> (r: i32)
        requires
            self.scores().len() == 16200,
            mv.valid(),
        ensures
            r == self.score_of(color, mv),
    {
        let i = color.index() * 8100 + mv.square_from().index() as usize * 90 + mv.square_to().index() as usize;
        self.table[i]
    }

    /// Raises the score of `mv` for `color` by the square of `depth`.
    pub fn increase(&mut self, color: Side, mv: Move, depth: i8)
        requires
            old(self).scores().len() == 16200,
            mv.valid(),
            old(self).score_of(color, mv) + depth * depth <= i32::MAX,
        ensures
            final(self).scores() == old(self).scores().update(
                history_slot(color, mv.from_idx(), mv.to_idx()),
                (old(self).score_of(color, mv) + depth * depth) as i32,
            ),
    {
        let d = depth as i32;
        assert(0 <= d * d <= 16384) by (nonlinear_arith)
            requires
                -128 <= d <= 127,
        ;
        let bonus = d * d;
        let i = color.index() * 8100 + mv.square_from().index() as usize * 90 + mv.square_to().index() as usize;
        let v = self.table[i];
        self.table.set(i, v + bonus);
    }

    /// Lowers the score of `mv` for `color` by the square of `depth`.
    pub fn decrease(&mut self, color: Side, mv: Move, depth: i8)
        requires
            old(self).scores().len() == 16200,
            mv.valid(),
            old(self).score_of(color, mv) - depth * depth >= i32::MIN,
        ensures
            final(self).scores() == old(self).scores().update(
                history_slot(color, mv.from_idx(), mv.to_idx()),
                (old(self).score_of(color, mv) - depth * depth) as i32,
            ),
    {
        let d = depth as i32;
        assert(0 <= d * d <= 16384) by (nonlinear_arith)
            requires
                -128 <= d <= 127,
        ;
        let bonus = d * d;
        let i = color.index() * 8100 + mv.square_from().index() as usize * 90 + mv.square_to().index() as usize;
        let v = self.table[i];
        self.table.set(i, v - bonus);
    }

    /// Divides every score by [`DECAY_RATE`], rounding toward zero, so that old
    /// scores fade.
    pub fn decay(&mut self)
        ensures
            final(self).scores().len() == old(self).scores().len(),
            forall|i: int|
                0 <= i < old(self).scores().len() ==> #[trigger] final(self).scores()[i]
                    == div_toward_zero(old(self).scores()[i] as int, DECAY_RATE as int),
    {
        let n = self.table.len();
        let mut i: usize = 0;
        while i < n
            invariant
                i <= n,
                n == self.table@.len(),
                n == old(self).scores().len(),
                forall|j: int|
                    0 <= j < i ==> #[trigger] self.table@[j] == div_toward_zero(
                        old(self).scores()[j] as int,
                        DECAY_RATE as int,
                    ),
                forall|j: int| i <= j < n ==> #[trigger] self.table@[j] == old(self).scores()[j],
            decreases n - i,
        {
            let v = self.table[i];
            self.table.set(i, v / DECAY_RATE);
            i = i + 1;
        }
    }
}

impl Default for HistoryMoves {
    /// All scores zero (see [`HistoryMoves::new`]).
    fn default() -> (r: HistoryMoves)
        ensures
            r.scores().len() == 16200,
            forall|i: int| 0 <= i < 16200 ==> #[trigger] r.scores()[i] == 0,
    {
        HistoryMoves::new()
    }
}

} // verus!
