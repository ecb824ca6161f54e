//! The triangular principal-variation table: for each ply, the best line of moves
//! found from there.
use crate::movelist::{MoveList, move_list_clear, move_list_get, move_list_items, move_list_len, move_list_new, move_list_push};
use crate::score::MAX_PLY;
use crate::types::Move;
use vstd::prelude::*;

verus! {

/// One line of moves per ply `0..=MAX_PLY`; the last line stays empty.
pub struct PrincipalVariationTable {
    data: Vec<MoveList>,
}

impl PrincipalVariationTable {
    /// The line of each ply.
    pub closed spec fn lines(&self) -> Seq<Seq<Move>> {
        self.data@.map_values(|l: MoveList| move_list_items(l))
    }

    /// One line per ply `0..=MAX_PLY`, the line of ply `p` holding at most
    /// `MAX_PLY - p` moves (so the last one is empty).
    pub open spec fn wf(&self) -> bool {
        &&& self.lines().len() == MAX_PLY + 1
        &&& forall|p: int| 0 <= p <= MAX_PLY ==> #[trigger] self.lines()[p].len() <= MAX_PLY - p
    }

    /// A table of empty lines.
    pub fn new() -> (r: PrincipalVariationTable)
        ensures
            r.wf(),
            forall|p: int| 0 <= p <= MAX_PLY ==> #[trigger] r.lines()[p] == Seq::<Move>::empty(),
    {
        let mut data: Vec<MoveList> = Vec::new();
        let mut i: usize = 0;
        while i <= MAX_PLY
            invariant
                i <= MAX_PLY + 1,
                data@.len() == i,
                forall|p: int| 0 <= p < i ==> #[trigger] move_list_items(data@[p]) == Seq::<Move>::empty(),
            decreases MAX_PLY + 1 - i,
        {
            data.push(move_list_new());
            i = i + 1;
        }
        PrincipalVariationTable { data }
    }

    /// The line of ply `ply`.
    pub fn get_line(&self, ply: u8) -> (r: Vec<Move>)
        requires
            self.wf(),
            ply <= MAX_PLY,
        ensures
            r@ == self.lines()[ply as int],
    {
        let line = &self.data[ply as usize];
        let n = move_list_len(line);
        let mut r: Vec<Move> = Vec::new();
        let mut j: usize = 0;
        while j < n
            invariant
                j <= n,
                n == move_list_items(*line).len(),
                r@ == move_list_items(*line).take(j as int),
            decreases n - j,
        {
            r.push(move_list_get(line, j));
            proof {
                assert(move_list_items(*line).take(j + 1) =~= move_list_items(*line).take(j as int).push(
                    move_list_items(*line)[j as int],
                ));
            }
            j = j + 1;
        }
        proof {
            assert(move_list_items(*line).take(n as int) =~= move_list_items(*line));
        }
        r
    }

    /// Empties the line of ply `ply`.
    pub fn clear_line(&mut self, ply: u8)
        requires
            old(self).wf(),
            ply <= MAX_PLY,
        ensures
            final(self).wf(),
            final(self).lines() == old(self).lines().update(ply as int, Seq::<Move>::empty()),
    {
        let mut empty = move_list_new();
        move_list_clear(&mut empty);
        self.data.set(ply as usize, empty);
        proof {
            assert(self.lines() =~= old(self).lines().update(ply as int, Seq::<Move>::empty()));
        }
    }

    /// Records `best_move` as the best move of ply `ply`: its line becomes that
    /// move followed by the line of the next ply.
    pub fn update_best_move(&mut self, ply: u8, best_move: Move)
        requires
            old(self).wf(),
            ply < MAX_PLY,
        ensures
            final(self).wf(),
            final(self).lines() == old(self).lines().update(
                ply as int,
                seq![best_move] + old(self).lines()[ply + 1],
            ),
    {
        let ghost lines0 = self.lines();
        let mut line = move_list_new();
        move_list_push(&mut line, best_move);
        let next = &self.data[ply as usize + 1];
        let n = move_list_len(next);
        proof {
            assert(lines0[ply + 1] == move_list_items(*next));
            assert(n <= MAX_PLY - (ply + 1));
        }
        let mut j: usize = 0;
        while j < n
            invariant
                j <= n,
                n == move_list_items(*next).len(),
                n + ply + 1 <= MAX_PLY,
                move_list_items(line) == seq![best_move] + move_list_items(*next).take(j as int),
            decreases n - j,
        {
            move_list_push(&mut line, move_list_get(next, j));
            proof {
                assert(move_list_items(*next).take(j + 1) =~= move_list_items(*next).take(j as int).push(
                    move_list_items(*next)[j as int],
                ));
            }
            j = j + 1;
        }
        proof {
            assert(move_list_items(*next).take(n as int) =~= move_list_items(*next));
        }
        self.data.set(ply as usize, line);
        proof {
            assert(self.lines() =~= lines0.update(ply as int, seq![best_move] + lines0[ply + 1]));
        }
    }
}

impl Default for PrincipalVariationTable {
    /// A table of empty lines.
    fn default() -> (r: PrincipalVariationTable)
        ensures
            r.wf(),
            forall|p: int| 0 <= p <= MAX_PLY ==> #[trigger] r.lines()[p] == Seq::<Move>::empty(),
    {
        PrincipalVariationTable::new()
    }
}

/// Recording a best move at a ply and then at the ply before gives the earlier ply
/// the line of both moves followed by the line two plies on: best lines propagate
/// toward the root.
pub proof fn lemma_pv_propagation(
    t0: &PrincipalVariationTable,
    t1: &PrincipalVariationTable,
    t2: &PrincipalVariationTable,
    ply: int,
    m1: Move,
    m0: Move,
)
    requires
        t0.wf(),
        1 <= ply < MAX_PLY,
        t1.lines() == t0.lines().update(ply, seq![m1] + t0.lines()[ply + 1]),
        t2.lines() == t1.lines().update(ply - 1, seq![m0] + t1.lines()[ply]),
    ensures
        t2.lines()[ply - 1] == seq![m0, m1] + t0.lines()[ply + 1],
        t2.lines()[ply] == seq![m1] + t0.lines()[ply + 1],
{
    assert(t2.lines()[ply - 1] =~= seq![m0, m1] + t0.lines()[ply + 1]);
}

} // verus!
