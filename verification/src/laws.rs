//! Book-level laws that relate several operations. Laws about a single
//! operation — the no-zero-entries invariant, and that the best bid and
//! best ask are the extreme keys of their sides — are stated directly in
//! the `ensures` clauses of the operations in `book`.

use vstd::prelude::*;

verus! {

/// Round trip: adding quantity at a price absent from a side and then
/// withdrawing it in full restores the side's mapping. `add_bid(p, n)` on
/// such a side yields `m.insert(p, n)`, and `remove_bid(p, n)` — whose
/// validation succeeds, since `n` then rests at `p` on the bid side —
/// drives the level to zero and evicts it, yielding `m.insert(p, n).remove(p)`,
/// which is `m` again. The same holds of `add_ask` and `remove_ask`.
pub proof fn lemma_add_remove_round_trip(m: Map<u32, u32>, price: u32, amount: u32)
    requires
        !m.dom().contains(price),
    ensures
        m.insert(price, amount).remove(price) == m,
{
    assert(m.insert(price, amount).remove(price) =~= m);
}

} // verus!
