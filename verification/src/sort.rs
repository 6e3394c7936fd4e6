//! Ordering by a key, the largest first, equal keys in the order given.

use vstd::prelude::*;

verus! {

/// Whether the item `a` goes before the item `b`: its key is larger, or as
/// large and `a` comes first.
pub open spec fn spec_goes_before(keys: Seq<int>, a: int, b: int) -> bool {
    keys[a] > keys[b] || (keys[a] == keys[b] && a < b)
}

/// Whether `order` lists the first `n` items by descending key: each of
/// them once, every item before those it goes before.
pub open spec fn spec_is_descending_order(keys: Seq<int>, order: Seq<int>, n: int) -> bool {
    &&& order.len() == n
    &&& forall|i: int| 0 <= i < n ==> 0 <= #[trigger] order[i] < n
    &&& forall|k: int| 0 <= k < n ==> order.contains(k)
    &&& forall|i: int, j: int|
        0 <= i < j < n ==> spec_goes_before(keys, #[trigger] order[i], #[trigger] order[j])
}

/// `order` with the item `idx` put in: behind every item whose key is not
/// smaller.
pub open spec fn spec_insert_descending(keys: Seq<int>, order: Seq<int>, idx: int) -> Seq<int>
    decreases order.len(),
{
    if order.len() == 0 {
        seq![idx]
    } else if keys[idx] > keys[order.last()] {
        spec_insert_descending(keys, order.drop_last(), idx).push(order.last())
    } else {
        order.push(idx)
    }
}

/// The first `n` items by descending key.
pub open spec fn spec_descending_order(keys: Seq<int>, n: int) -> Seq<int>
    decreases n,
{
    if n <= 0 {
        Seq::empty()
    } else {
        spec_insert_descending(keys, spec_descending_order(keys, n - 1), n - 1)
    }
}

/// Putting an item in is inserting it before the items of smaller key.
pub proof fn lemma_insert_at(keys: Seq<int>, order: Seq<int>, idx: int, pos: int)
    requires
        0 <= pos <= order.len(),
        forall|j: int| pos <= j < order.len() ==> keys[idx] > keys[#[trigger] order[j]],
        pos > 0 ==> keys[idx] <= keys[order[pos - 1]],
    ensures
        spec_insert_descending(keys, order, idx) == order.insert(pos, idx),
    decreases order.len(),
{
    if order.len() == 0 {
        assert(order.insert(pos, idx) =~= seq![idx]);
    } else if pos == order.len() {
        assert(order.insert(pos, idx) =~= order.push(idx));
    } else {
        let shorter = order.drop_last();
        assert(keys[idx] > keys[order[order.len() - 1]]);
        assert forall|j: int| pos <= j < shorter.len() implies keys[idx] > keys[#[trigger] shorter[j]] by {
            assert(shorter[j] == order[j]);
        }
        if pos > 0 {
            assert(shorter[pos - 1] == order[pos - 1]);
        }
        lemma_insert_at(keys, shorter, idx, pos);
        assert(shorter.insert(pos, idx).push(order.last()) =~= order.insert(pos, idx));
    }
}

/// The place at which an item is put in: behind the last item whose key
/// is not smaller.
pub proof fn lemma_insert_place(keys: Seq<int>, order: Seq<int>, idx: int) -> (pos: int)
    ensures
        0 <= pos <= order.len(),
        forall|j: int| pos <= j < order.len() ==> keys[idx] > keys[#[trigger] order[j]],
        pos > 0 ==> keys[idx] <= keys[order[pos - 1]],
    decreases order.len(),
{
    if order.len() == 0 {
        0
    } else if keys[idx] > keys[order.last()] {
        let pos = lemma_insert_place(keys, order.drop_last(), idx);
        assert forall|j: int| pos <= j < order.len() implies keys[idx] > keys[#[trigger] order[j]] by {
            if j < order.len() - 1 {
                assert(order.drop_last()[j] == order[j]);
            }
        }
        if pos > 0 {
            assert(order.drop_last()[pos - 1] == order[pos - 1]);
        }
        pos
    } else {
        order.len() as int
    }
}

/// The descending order is what it is meant to be: it lists each item
/// once, larger keys first, items of one key in the order given.
pub proof fn lemma_descending_order(keys: Seq<int>, n: int)
    requires
        0 <= n <= keys.len(),
    ensures
        spec_is_descending_order(keys, spec_descending_order(keys, n), n),
    decreases n,
{
    if n > 0 {
        lemma_descending_order(keys, n - 1);
        let before = spec_descending_order(keys, n - 1);
        let idx = n - 1;
        let pos = lemma_insert_place(keys, before, idx);
        lemma_insert_at(keys, before, idx, pos);
        let after = before.insert(pos, idx);
        assert forall|k: int| 0 <= k < n implies after.contains(k) by {
            if k == idx {
                assert(after[pos] == k);
            } else {
                assert(before.contains(k));
                let i = choose|i: int| 0 <= i < before.len() && before[i] == k;
                if i < pos {
                    assert(after[i] == k);
                } else {
                    assert(after[i + 1] == k);
                }
            }
        }
        assert forall|i: int, j: int| 0 <= i < j < n implies spec_goes_before(
            keys,
            #[trigger] after[i],
            #[trigger] after[j],
        ) by {
            if j == pos {
                assert(after[i] == before[i]);
                if i < pos - 1 {
                    assert(spec_goes_before(keys, before[i], before[pos - 1]));
                }
            } else if i == pos {
                assert(after[j] == before[j - 1]);
            } else {
                let bi = if i < pos {
                    i
                } else {
                    i - 1
                };
                let bj = if j < pos {
                    j
                } else {
                    j - 1
                };
                assert(after[i] == before[bi] && after[j] == before[bj]);
            }
        }
    }
}

/// The order of two items: the second comes first only if its key is
/// larger.
pub proof fn lemma_descending_order_of_two(keys: Seq<int>)
    requires
        keys.len() == 2,
    ensures
        spec_descending_order(keys, 2) == if keys[1] > keys[0] {
            seq![1int, 0int]
        } else {
            seq![0int, 1int]
        },
{
    reveal_with_fuel(spec_descending_order, 3);
    let one = spec_descending_order(keys, 1);
    assert(one =~= seq![0int]);
    assert(one.drop_last() =~= Seq::<int>::empty());
    assert(one.last() == 0);
    let two = spec_insert_descending(keys, one, 1);
    if keys[1] > keys[0] {
        assert(spec_insert_descending(keys, one.drop_last(), 1) =~= seq![1int]);
        assert(two =~= seq![1int, 0int]);
    } else {
        assert(two =~= seq![0int, 1int]);
    }
}

pub open spec fn spec_key_ints(keys: Seq<i128>) -> Seq<int> {
    Seq::new(keys.len(), |i: int| keys[i] as int)
}

pub open spec fn spec_place_ints(order: Seq<usize>) -> Seq<int> {
    Seq::new(order.len(), |i: int| order[i] as int)
}

/// The places of the items by descending key, items of one key in the
/// order given.
pub fn descending_order(keys: &Vec<i128>) -> (order: Vec<usize>)
    ensures
        order@.len() == keys@.len(),
        spec_place_ints(order@) == spec_descending_order(spec_key_ints(keys@), keys@.len() as int),
        spec_is_descending_order(spec_key_ints(keys@), spec_place_ints(order@), keys@.len() as int),
        forall|i: int| 0 <= i < order@.len() ==> #[trigger] order@[i] < keys@.len(),
{
    let ghost ints = spec_key_ints(keys@);
    let mut order: Vec<usize> = Vec::new();
    let mut idx: usize = 0;
    assert(spec_place_ints(order@) =~= spec_descending_order(ints, 0));
    while idx < keys.len()
        invariant
            idx <= keys@.len(),
            ints == spec_key_ints(keys@),
            order@.len() == idx,
            forall|i: int| 0 <= i < order@.len() ==> #[trigger] order@[i] < idx,
            spec_place_ints(order@) == spec_descending_order(ints, idx as int),
        decreases keys@.len() - idx,
    {
        let ghost before = spec_place_ints(order@);
        let mut pos: usize = order.len();
        while pos > 0 && keys[idx] > keys[order[pos - 1]]
            invariant
                pos <= order@.len(),
                idx < keys@.len(),
                ints == spec_key_ints(keys@),
                forall|i: int| 0 <= i < order@.len() ==> #[trigger] order@[i] < idx,
                before == spec_place_ints(order@),
                forall|j: int| pos <= j < before.len() ==> ints[idx as int] > ints[#[trigger] before[j]],
            decreases pos,
        {
            assert(before[pos - 1] == order@[pos - 1]);
            pos -= 1;
        }
        proof {
            if pos > 0 {
                assert(before[pos - 1] == order@[pos - 1]);
            }
            lemma_insert_at(ints, before, idx as int, pos as int);
        }
        order.insert(pos, idx);
        assert(spec_place_ints(order@) =~= before.insert(pos as int, idx as int));
        idx += 1;
    }
    proof {
        lemma_descending_order(ints, keys@.len() as int);
    }
    order
}

} // verus!
