//! The killer heuristic: per search ply, the last two quiet moves that caused a
//! beta cutoff, tried early in move ordering.
use crate::score::MAX_PLY;
use crate::types::Move;
use vstd::prelude::*;

verus! {

/// Two killer moves per ply, the most recent first.
pub struct KillerMoves {
    table: Vec<(Option<Move>, Option<Move>)>,
}

impl KillerMoves {
    /// The killer moves of each ply.
    pub closed spec fn slots(&self) -> Seq<(Option<Move>, Option<Move>)> {
        self.table@
    }

    /// A table with no killer move at any of the `MAX_PLY` plies.
    pub fn new() -> (r: KillerMoves)
        ensures
            r.slots().len() == MAX_PLY,
            forall|i: int| 0 <= i < MAX_PLY ==> #[trigger] r.slots()[i] == (None::<Move>, None::<Move>),
    {
        let mut table: Vec<(Option<Move>, Option<Move>)> = Vec::new();
        let mut i: usize = 0;
        while i < MAX_PLY
            invariant
                i <= MAX_PLY,
                table@.len() == i,
                forall|j: int| 0 <= j < i ==> #[trigger] table@[j] == (None::<Move>, None::<Move>),
            decreases MAX_PLY - i,
        {
            table.push((None, None));
            i = i + 1;
        }
        KillerMoves { table }
    }

    /// The killer moves after recording `mv` at ply `ply`: it becomes the newest,
    /// the previous newest the second, unless it already was the newest.
    pub open spec fn updated_slots(&self, mv: Move, ply: int) -> Seq<(Option<Move>, Option<Move>)> {
        if self.slots()[ply].0 == Some(mv) {
            self.slots()
        } else {
            self.slots().update(ply, (Some(mv), self.slots()[ply].0))
        }
    }

    /// Whether `mv` is one of the two killer moves of ply `ply`.
    pub open spec fn is_killer(&self, mv: Move, ply: int) -> bool {
        self.slots()[ply].0 == Some(mv) || self.slots()[ply].1 == Some(mv)
    }

    /// Records `mv` as the newest killer move of ply `ply`, the previous newest
    /// becoming the second; nothing changes when `mv` is already the newest.
    pub fn update(&mut self, mv: Move, ply: u8)
        requires
            ply < old(self).slots().len(),
        ensures
            final(self).slots() == old(self).updated_slots(mv, ply as int),
    {
        let i = ply as usize;
        let (first, _) = self.table[i];
        if first != Some(mv) {
            self.table.set(i, (Some(mv), first));
        }
    }

    /// Whether `mv` is a killer move of ply `ply`.
    pub fn contains(&self, mv: Move, ply: u8) -> (r: bool)
        requires
            ply < self.slots().len(),
        ensures
            r == self.is_killer(mv, ply as int),
    {
        let (first, second) = self.table[ply as usize];
        first == Some(mv) || second == Some(mv)
    }
}

impl Default for KillerMoves {
    /// The empty table (see [`KillerMoves::new`]).
    fn default() -> (r: KillerMoves)
        ensures
            r.slots().len() == MAX_PLY,
            forall|i: int| 0 <= i < MAX_PLY ==> #[trigger] r.slots()[i] == (None::<Move>, None::<Move>),
    {
        KillerMoves::new()
    }
}


/// A move just recorded at a ply is a killer move there, and the other plies keep
/// their killer moves.
pub proof fn lemma_killer_after_update(k0: &KillerMoves, k1: &KillerMoves, mv: Move, ply: int)
    requires
        0 <= ply < k0.slots().len(),
        k1.slots() == k0.updated_slots(mv, ply),
    ensures
        k1.is_killer(mv, ply),
        k1.slots()[ply].0 == Some(mv),
        forall|p: int| 0 <= p < k0.slots().len() && p != ply ==> #[trigger] k1.slots()[p] == k0.slots()[p],
{
}

} // verus!
