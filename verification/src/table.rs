//! Fixed-length tables in specifications: how to write one from a function
//! of the position, and how to read a placement backwards.

use vstd::prelude::*;

verus! {

/// The array that holds `f(i)` at each position `i` of the eight corners.
#[verifier::opaque]
pub open spec fn table8(f: spec_fn(int) -> usize) -> [usize; 8] {
    [f(0), f(1), f(2), f(3), f(4), f(5), f(6), f(7)]
}

/// The array that holds `f(i)` at each position `i` of the twelve edges.
#[verifier::opaque]
pub open spec fn table12(f: spec_fn(int) -> usize) -> [usize; 12] {
    [f(0), f(1), f(2), f(3), f(4), f(5), f(6), f(7), f(8), f(9), f(10), f(11)]
}

/// Reading a corner table gives back the function it was made from.
pub broadcast proof fn lemma_table8_index(f: spec_fn(int) -> usize, i: int)
    requires
        0 <= i < 8,
    ensures
        #[trigger] table8(f)[i] == f(i),
{
    reveal(table8);
}

/// Reading an edge table gives back the function it was made from.
pub broadcast proof fn lemma_table12_index(f: spec_fn(int) -> usize, i: int)
    requires
        0 <= i < 12,
    ensures
        #[trigger] table12(f)[i] == f(i),
{
    reveal(table12);
}

pub broadcast group group_table_index {
    lemma_table8_index,
    lemma_table12_index,
}

/// What holds at each of the eight corner positions holds at all of them.
pub proof fn lemma_each8(p: spec_fn(int) -> bool)
    requires
        p(0),
        p(1),
        p(2),
        p(3),
        p(4),
        p(5),
        p(6),
        p(7),
    ensures
        forall|i: int| 0 <= i < 8 ==> #[trigger] p(i),
{
}

/// What holds at each of the twelve edge positions holds at all of them.
pub proof fn lemma_each12(p: spec_fn(int) -> bool)
    requires
        p(0),
        p(1),
        p(2),
        p(3),
        p(4),
        p(5),
        p(6),
        p(7),
        p(8),
        p(9),
        p(10),
        p(11),
    ensures
        forall|i: int| 0 <= i < 12 ==> #[trigger] p(i),
{
}

/// The slot of `placement` in which `piece` sits.
pub open spec fn slot_of(placement: Seq<usize>, piece: int) -> int {
    choose|i: int| 0 <= i < placement.len() && placement[i] == piece
}

/// Every piece sits in some slot: a placement without repetition reaches
/// each of its `n` slots.
pub proof fn lemma_placement_onto(placement: Seq<usize>, piece: int)
    requires
        placement.no_duplicates(),
        forall|i: int| 0 <= i < placement.len() ==> #[trigger] placement[i] < placement.len(),
        0 <= piece < placement.len(),
    ensures
        0 <= slot_of(placement, piece) < placement.len(),
        placement[slot_of(placement, piece)] == piece,
{
    let n = placement.len() as int;
    let pieces = placement.map_values(|p: usize| p as int);
    assert(pieces.no_duplicates());
    pieces.unique_seq_to_set();
    vstd::set_lib::lemma_int_range(0, n);
    let all = vstd::set_lib::set_int_range(0, n);
    assert(pieces.to_set().subset_of(all)) by {
        assert forall|p: int| pieces.to_set().contains(p) implies all.contains(p) by {
            let i = choose|i: int| 0 <= i < pieces.len() && pieces[i] == p;
            assert(placement[i] < placement.len());
        }
    }
    vstd::set_lib::lemma_len_subset(pieces.to_set(), all);
    vstd::set_lib::lemma_subset_equality(pieces.to_set(), all);
    assert(all.contains(piece));
    assert(pieces.contains(piece));
    let i = choose|i: int| 0 <= i < pieces.len() && pieces[i] == piece;
    assert(placement[i] == piece);
}

} // verus!
