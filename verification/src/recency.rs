//! The order in which the records of a tile are merged: the most recently
//! written first.

use crate::sort::{
    descending_order, lemma_descending_order_of_two, spec_descending_order, spec_key_ints,
    spec_place_ints,
};
use vstd::prelude::*;

verus! {

/// The time at which a file was last written, in seconds and nanoseconds
/// since the Unix epoch.
#[derive(Clone, Copy, Debug, PartialEq, Eq, Structural)]
pub struct Mtime {
    pub secs: i64,
    pub nanos: u32,
}

/// Whether `a` is later than `b`.
pub open spec fn spec_newer(a: Mtime, b: Mtime) -> bool {
    a.secs > b.secs || (a.secs == b.secs && a.nanos > b.nanos)
}

/// A number that is larger for a later time.
pub open spec fn spec_mtime_key(mtime: Mtime) -> int {
    mtime.secs * 0x1_0000_0000 + mtime.nanos
}

pub open spec fn spec_mtime_keys(mtimes: Seq<Mtime>) -> Seq<int> {
    Seq::new(mtimes.len(), |i: int| spec_mtime_key(mtimes[i]))
}

/// A later time has the larger key.
pub proof fn lemma_mtime_key(a: Mtime, b: Mtime)
    ensures
        spec_newer(a, b) <==> spec_mtime_key(a) > spec_mtime_key(b),
{
}

/// The places of the first `n` records in the order of merging: the most
/// recent first, records of one time in the order given.
pub open spec fn spec_recency_order(mtimes: Seq<Mtime>, n: int) -> Seq<int> {
    spec_descending_order(spec_mtime_keys(mtimes), n)
}

/// Whether the record `a` is merged before the record `b`: it is newer, or
/// as new and comes first among the candidates.
pub open spec fn spec_merged_before(mtimes: Seq<Mtime>, a: int, b: int) -> bool {
    spec_newer(mtimes[a], mtimes[b]) || (!spec_newer(mtimes[b], mtimes[a]) && a < b)
}

/// Whether `order` lists the first `n` records in the order of merging:
/// each of them once, every record before those it is merged before.
pub open spec fn spec_is_recency_order(mtimes: Seq<Mtime>, order: Seq<int>, n: int) -> bool {
    &&& order.len() == n
    &&& forall|i: int| 0 <= i < n ==> 0 <= #[trigger] order[i] < n
    &&& forall|k: int| 0 <= k < n ==> order.contains(k)
    &&& forall|i: int, j: int|
        0 <= i < j < n ==> spec_merged_before(mtimes, #[trigger] order[i], #[trigger] order[j])
}

/// The order of merging lists each record once, newer records first,
/// records of one time in the order given.
pub proof fn lemma_recency_order(mtimes: Seq<Mtime>, n: int)
    requires
        0 <= n <= mtimes.len(),
    ensures
        spec_is_recency_order(mtimes, spec_recency_order(mtimes, n), n),
{
    let keys = spec_mtime_keys(mtimes);
    let order = spec_recency_order(mtimes, n);
    crate::sort::lemma_descending_order(keys, n);
    assert forall|i: int, j: int| 0 <= i < j < n implies spec_merged_before(
        mtimes,
        #[trigger] order[i],
        #[trigger] order[j],
    ) by {
        assert(crate::sort::spec_goes_before(keys, order[i], order[j]));
        lemma_mtime_key(mtimes[order[i]], mtimes[order[j]]);
        lemma_mtime_key(mtimes[order[j]], mtimes[order[i]]);
    }
}

/// The order of two records: the second comes first only if it is newer.
pub proof fn lemma_order_of_two(mtimes: Seq<Mtime>)
    requires
        mtimes.len() == 2,
    ensures
        spec_recency_order(mtimes, 2) == if spec_newer(mtimes[1], mtimes[0]) {
            seq![1int, 0int]
        } else {
            seq![0int, 1int]
        },
{
    lemma_descending_order_of_two(spec_mtime_keys(mtimes));
    lemma_mtime_key(mtimes[1], mtimes[0]);
}

/// Whether `a` is later than `b`.
pub fn newer(a: Mtime, b: Mtime) -> (r: bool)
    ensures
        r == spec_newer(a, b),
{
    a.secs > b.secs || (a.secs == b.secs && a.nanos > b.nanos)
}

/// The order in which to merge records written at the times `mtimes`: the
/// places of the records, the most recent first, records of one time in
/// the order given.
pub fn recency_order(mtimes: &Vec<Mtime>) -> (order: Vec<usize>)
    ensures
        order@.len() == mtimes@.len(),
        spec_place_ints(order@) == spec_recency_order(mtimes@, mtimes@.len() as int),
        spec_is_recency_order(mtimes@, spec_place_ints(order@), mtimes@.len() as int),
        forall|i: int| 0 <= i < order@.len() ==> #[trigger] order@[i] < mtimes@.len(),
{
    let mut keys: Vec<i128> = Vec::new();
    let mut i: usize = 0;
    while i < mtimes.len()
        invariant
            i <= mtimes@.len(),
            keys@.len() == i,
            forall|j: int| 0 <= j < i ==> #[trigger] keys@[j] == spec_mtime_key(mtimes@[j]),
        decreases mtimes@.len() - i,
    {
        let mtime: Mtime = mtimes[i];
        keys.push(mtime.secs as i128 * 0x1_0000_0000 + mtime.nanos as i128);
        i += 1;
    }
    assert(spec_key_ints(keys@) =~= spec_mtime_keys(mtimes@));
    proof {
        lemma_recency_order(mtimes@, mtimes@.len() as int);
    }
    descending_order(&keys)
}

} // verus!
