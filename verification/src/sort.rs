//! Stable ordering by a key, largest key first (the order `sort_by(|a, b| b.cmp(a))` gives).
use vstd::prelude::*;

verus! {

/// `order` lists every index of `keys` exactly once, keys never increase along it,
/// and indices with equal keys keep their relative order.
pub open spec fn is_stable_desc_order(keys: Seq<i64>, order: Seq<int>) -> bool {
    &&& order.len() == keys.len()
    &&& forall|i: int| 0 <= i < order.len() ==> 0 <= #[trigger] order[i] < keys.len()
    &&& forall|i: int, j: int| 0 <= i < j < order.len() ==> order[i] != order[j]
    &&& forall|i: int, j: int|
        0 <= i < j < order.len() ==> keys[#[trigger] order[i]] >= keys[#[trigger] order[j]]
    &&& forall|i: int, j: int|
        0 <= i < j < order.len() && keys[#[trigger] order[i]] == keys[#[trigger] order[j]]
            ==> order[i] < order[j]
}

/// The view of an index vector as integers.
pub open spec fn idx_view(v: Seq<usize>) -> Seq<int> {
    v.map_values(|x: usize| x as int)
}

/// Partial order invariant: `order` is a stable descending order of the first `n` keys.
pub open spec fn is_stable_desc_prefix(keys: Seq<i64>, order: Seq<int>, n: int) -> bool {
    &&& order.len() == n
    &&& forall|i: int| 0 <= i < order.len() ==> 0 <= #[trigger] order[i] < n
    &&& forall|i: int, j: int| 0 <= i < j < order.len() ==> order[i] != order[j]
    &&& forall|i: int, j: int|
        0 <= i < j < order.len() ==> keys[#[trigger] order[i]] >= keys[#[trigger] order[j]]
    &&& forall|i: int, j: int|
        0 <= i < j < order.len() && keys[#[trigger] order[i]] == keys[#[trigger] order[j]]
            ==> order[i] < order[j]
}

/// Indices of `keys` in stable descending order of their keys.
pub fn stable_desc_order(keys: &Vec<i64>) -> (r: Vec<usize>)
    ensures
        is_stable_desc_order(keys@, idx_view(r@)),
{
    let mut order: Vec<usize> = Vec::new();
    let mut i: usize = 0;
    while i < keys.len()
        invariant
            i <= keys.len(),
            is_stable_desc_prefix(keys@, idx_view(order@), i as int),
        decreases keys.len() - i,
    {
        let k = keys[i];
        proof {
            assert forall|q: int| 0 <= q < order@.len() implies (#[trigger] order@[q] as int) < i by {
                assert(idx_view(order@)[q] == order@[q] as int);
            }
        }
        // first position whose key is strictly smaller than k
        let mut p: usize = 0;
        while p < order.len() && keys[order[p]] >= k
            invariant
                p <= order.len(),
                i < keys.len(),
                is_stable_desc_prefix(keys@, idx_view(order@), i as int),
                forall|q: int| 0 <= q < order@.len() ==> (#[trigger] order@[q] as int) < i,
                forall|q: int| 0 <= q < p ==> keys@[#[trigger] idx_view(order@)[q]] >= k,
            decreases order.len() - p,
        {
            p = p + 1;
        }
        let ghost old_order = idx_view(order@);
        proof {
            assert forall|q: int| p <= q < order@.len() implies keys@[#[trigger] old_order[q]] < k by {
                if p < order@.len() {
                    assert(keys@[old_order[p as int]] < k);
                    if q > p {
                        assert(keys@[old_order[p as int]] >= keys@[old_order[q]]);
                    }
                }
            }
        }
        order.insert(p, i);
        proof {
            let nv = idx_view(order@);
            assert(nv =~= old_order.insert(p as int, i as int));
            assert forall|a: int, b: int| 0 <= a < b < nv.len() implies nv[a] != nv[b] by {
                if a < p && b < p {
                } else if a < p && b == p {
                } else if a < p && b > p {
                    assert(nv[b] == old_order[b - 1]);
                } else if a == p {
                    assert(nv[b] == old_order[b - 1]);
                } else {
                    assert(nv[a] == old_order[a - 1]);
                    assert(nv[b] == old_order[b - 1]);
                }
            }
            assert forall|a: int, b: int|
                0 <= a < b < nv.len() implies keys@[#[trigger] nv[a]] >= keys@[#[trigger] nv[b]] by {
                if a < p && b < p {
                } else if a < p && b == p {
                } else if a < p && b > p {
                    assert(nv[b] == old_order[b - 1]);
                } else if a == p {
                    assert(nv[b] == old_order[b - 1]);
                } else {
                    assert(nv[a] == old_order[a - 1]);
                    assert(nv[b] == old_order[b - 1]);
                }
            }
            assert forall|a: int, b: int|
                0 <= a < b < nv.len() && keys@[#[trigger] nv[a]] == keys@[#[trigger] nv[b]]
                    implies nv[a] < nv[b] by {
                if a < p && b < p {
                } else if a < p && b == p {
                } else if a < p && b > p {
                    assert(nv[b] == old_order[b - 1]);
                } else if a == p {
                    assert(nv[b] == old_order[b - 1]);
                } else {
                    assert(nv[a] == old_order[a - 1]);
                    assert(nv[b] == old_order[b - 1]);
                }
            }
            assert forall|a: int| 0 <= a < nv.len() implies 0 <= #[trigger] nv[a] < i + 1 by {
                if a > p {
                    assert(nv[a] == old_order[a - 1]);
                }
            }
        }
        i = i + 1;
    }
    order
}

} // verus!
