//! Properties of the entity graph and of its transfer rule.

use vstd::prelude::*;
use crate::resource::{MAX_AMOUNT, sat_add};
use crate::entities::{EntitiesView, pull, pull_from};

verus! {

/// In every well-formed state, `b` is upstream of `a` exactly when `a` is
/// downstream of `b`, and `b` is downstream of `a` exactly when `a` is
/// upstream of `b`. `Entities::new` starts well formed and `insert` and
/// `update` keep it so, so this holds after any sequence of insertions.
pub proof fn lemma_adjacency_symmetric(v: EntitiesView, a: int, b: int)
    requires
        v.well_formed(),
        0 <= a < v.len(),
        0 <= b < v.len(),
    ensures
        v.upstream[a].contains(b as usize) <==> v.downstream[b].contains(a as usize),
        v.downstream[a].contains(b as usize) <==> v.upstream[b].contains(a as usize),
{
    assert(v.upstream[b].contains(a as usize) <==> v.downstream[a].contains(b as usize));
}

/// In every well-formed state no entity is its own upstream or downstream.
pub proof fn lemma_no_self_loops(v: EntitiesView, a: int)
    requires
        v.well_formed(),
        0 <= a < v.len(),
    ensures
        !v.upstream[a].contains(a as usize),
        !v.downstream[a].contains(a as usize),
{
    if v.upstream[a].contains(a as usize) {
        let k = choose|k: int| 0 <= k < v.upstream[a].len() && v.upstream[a][k] == a as usize;
        assert(v.upstream[a][k] != a);
    }
    if v.downstream[a].contains(a as usize) {
        let k = choose|k: int| 0 <= k < v.downstream[a].len() && v.downstream[a][k] == a as usize;
        assert(v.downstream[a][k] != a);
    }
}

/// One transfer from source `u` into a sink `i` that is not full moves
/// `moved`: the sink's wanted amount when the source holds that much, else
/// all of the source. The source loses exactly `moved` (so a partial transfer
/// empties it), the sink gains `moved` up to the maximum, and no other holding
/// changes. Where the sink does not saturate, what the sink gains is exactly
/// what the source loses.
pub proof fn lemma_transfer(has: Seq<u8>, w: u8, i: int, u: int)
    requires
        0 <= i < has.len(),
        0 <= u < has.len(),
        i != u,
        has[i] != MAX_AMOUNT,
    ensures
        ({
            let moved: u8 = if has[u] >= w { w } else { has[u] };
            let after = pull(has, w, i, u);
            &&& after.len() == has.len()
            &&& after[u] == has[u] - moved
            &&& after[i] == sat_add(has[i], moved)
            &&& has[u] < w ==> after[u] == 0
            &&& has[i] + moved <= MAX_AMOUNT ==> after[i] - has[i] == has[u] - after[u]
            &&& forall|j: int| 0 <= j < has.len() && j != i && j != u ==> after[j] == has[j]
        }),
{
}

/// Once sink `i` is full, its remaining pulls of the tick change nothing.
pub proof fn lemma_full_sink_takes_nothing(has: Seq<u8>, w: u8, i: int, ups: Seq<usize>, j: nat, k: nat)
    requires
        0 <= i < has.len(),
        j <= k <= ups.len(),
        pull_from(has, w, i, ups, j)[i] == MAX_AMOUNT,
    ensures
        pull_from(has, w, i, ups, k) == pull_from(has, w, i, ups, j),
    decreases k - j,
{
    if k > j {
        lemma_full_sink_takes_nothing(has, w, i, ups, j, (k - 1) as nat);
    }
}

} // verus!
