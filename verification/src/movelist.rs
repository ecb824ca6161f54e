//! Move lists: fixed-capacity vectors of moves held on the stack.
use crate::movegen::{keep_move, keep_spec, movable_from};
use crate::position::Position;
use crate::types::{Move, MoveGenType};
use arrayvec::ArrayVec;
use vstd::prelude::*;

verus! {

/// `arrayvec::ArrayVec`, a vector with a fixed capacity `CAP` stored inline.
#[verifier::external_type_specification]
#[verifier::external_body]
#[verifier::reject_recursive_types(T)]
pub struct ExArrayVec<T, const CAP: usize>(ArrayVec<T, CAP>);

/// A list of at most 128 moves, without heap allocation.
pub type MoveList = ArrayVec<Move, 128>;

/// The moves held by a move list, in order.
pub uninterp spec fn move_list_items(l: ArrayVec<Move, 128>) -> Seq<Move>;

/// `ArrayVec::new`: an empty list.
#[verifier::external_body]
pub(crate) fn move_list_new() -> (r: MoveList)
    ensures
        move_list_items(r) == Seq::<Move>::empty(),
{
    ArrayVec::new()
}

/// `ArrayVec::len`: the number of moves held, never above the capacity 128.
#[verifier::external_body]
pub(crate) fn move_list_len(l: &MoveList) -> (r: usize)
    ensures
        r == move_list_items(*l).len(),
        r <= 128,
{
    l.len()
}

/// `ArrayVec::push`: appends a move; the list must not be full.
#[verifier::external_body]
pub(crate) fn move_list_push(l: &mut MoveList, m: Move)
    requires
        move_list_items(*old(l)).len() < 128,
    ensures
        move_list_items(*final(l)) == move_list_items(*old(l)).push(m),
{
    l.push(m)
}

/// Indexing (through `Deref` to a slice): the move at position `i`.
#[verifier::external_body]
pub(crate) fn move_list_get(l: &MoveList, i: usize) -> (r: Move)
    requires
        i < move_list_items(*l).len(),
    ensures
        r == move_list_items(*l)[i as int],
{
    l[i]
}

/// `ArrayVec::clear`: removes every move.
#[verifier::external_body]
pub(crate) fn move_list_clear(l: &mut MoveList)
    ensures
        move_list_items(*final(l)) == Seq::<Move>::empty(),
{
    l.clear()
}

/// `ArrayVec::retain`, called with the predicate [`keep_move`]: keeps, in their
/// order, the moves that move generation of type `gen_type` keeps for `pos`, and
/// drops the others. The predicate is called once per move, on moves that each move
/// a piece of `pos`.
#[verifier::external_body]
pub(crate) fn move_list_retain_kept(l: &mut MoveList, pos: &Position, gen_type: MoveGenType)
    requires
        pos.tables_wf(),
        movable_from(pos, move_list_items(*old(l)), 0),
    ensures
        move_list_items(*final(l)) == move_list_items(*old(l)).filter(
            |m: Move| keep_spec(pos, gen_type, m),
        ),
{
    l.retain(|m| keep_move(pos, gen_type, *m))
}

} // verus!
