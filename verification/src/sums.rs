//! Wrapping sums and maxima of sequences: they do not change when the elements are
//! listed in another order, and a sum over a concatenation adds the sums of its parts.
use vstd::prelude::*;
use crate::json::wadd;
use crate::dsh::{max0, tokens_add, tokens_sum, tokens_zero, wsum, Tokens};

verus! {

/// `order` lists every position below `n` exactly once.
pub open spec fn is_perm(order: Seq<int>, n: int) -> bool {
    &&& order.len() == n
    &&& forall|i: int| 0 <= i < n ==> 0 <= #[trigger] order[i] < n
    &&& forall|i: int, j: int| 0 <= i < j < n ==> order[i] != order[j]
}

/// `out` lists the elements of `src` in the order `order`.
pub open spec fn reorders<T>(out: Seq<T>, src: Seq<T>, order: Seq<int>) -> bool {
    &&& out.len() == src.len()
    &&& is_perm(order, src.len() as int)
    &&& forall|i: int| 0 <= i < out.len() ==> #[trigger] out[i] == src[order[i]]
}

/// Positions of a list that lost its element at `k`.
pub open spec fn shift_past(order: Seq<int>, k: int) -> Seq<int> {
    order.map_values(|o: int| if o < k { o } else { o - 1 })
}

/// Taking the last element off a reordering leaves a reordering of the rest.
pub proof fn lemma_reorder_step<T>(out: Seq<T>, src: Seq<T>, order: Seq<int>)
    requires
        reorders(out, src, order),
        out.len() > 0,
    ensures
        0 <= order.last() < src.len(),
        out.last() == src[order.last()],
        reorders(out.drop_last(), src.remove(order.last()), shift_past(order.drop_last(), order.last())),
{
    let n = src.len() as int;
    let k = order.last();
    assert(order[n - 1] == k);
    let o2 = shift_past(order.drop_last(), k);
    let s2 = src.remove(k);
    assert forall|i: int| 0 <= i < n - 1 implies 0 <= #[trigger] o2[i] < n - 1 by {
        assert(order[i] != order[n - 1]);
        assert(0 <= order[i] < n);
    }
    assert forall|i: int, j: int| 0 <= i < j < n - 1 implies o2[i] != o2[j] by {
        assert(order[i] != order[j]);
        assert(order[i] != order[n - 1]);
        assert(order[j] != order[n - 1]);
    }
    assert forall|i: int| 0 <= i < n - 1 implies #[trigger] out.drop_last()[i] == s2[o2[i]] by {
        assert(out[i] == src[order[i]]);
        assert(order[i] != order[n - 1]);
        assert(0 <= order[i] < n);
    }
}

/// Wrapping addition may take its summands in any order.
pub proof fn lemma_wadd_swap(a: i64, b: i64, c: i64)
    ensures
        wadd(wadd(a, b), c) == wadd(wadd(a, c), b),
        wadd(a, b) == wadd(b, a),
        wadd(wadd(a, b), c) == wadd(a, wadd(b, c)),
        wadd(0, a) == a,
{
    assert(wadd(wadd(a, b), c) == wadd(wadd(a, c), b)) by (bit_vector);
    assert(wadd(a, b) == wadd(b, a)) by (bit_vector);
    assert(wadd(wadd(a, b), c) == wadd(a, wadd(b, c))) by (bit_vector);
    assert(wadd(0, a) == a) by (bit_vector);
}

/// Token addition may take its summands in any order.
pub proof fn lemma_tokens_swap(a: Tokens, b: Tokens, c: Tokens)
    ensures
        tokens_add(tokens_add(a, b), c) == tokens_add(tokens_add(a, c), b),
        tokens_add(a, b) == tokens_add(b, a),
        tokens_add(tokens_add(a, b), c) == tokens_add(a, tokens_add(b, c)),
        tokens_add(tokens_zero(), a) == a,
{
    lemma_wadd_swap(a.input, b.input, c.input);
    lemma_wadd_swap(a.cache, b.cache, c.cache);
    lemma_wadd_swap(a.output, b.output, c.output);
    lemma_wadd_swap(a.reasoning, b.reasoning, c.reasoning);
}

/// A sum is the sum without one element, plus that element.
pub proof fn lemma_wsum_remove(s: Seq<i64>, k: int)
    requires
        0 <= k < s.len(),
    ensures
        wsum(s) == wadd(wsum(s.remove(k)), s[k]),
    decreases s.len(),
{
    if k == s.len() - 1 {
        assert(s.remove(k) =~= s.drop_last());
    } else {
        lemma_wsum_remove(s.drop_last(), k);
        assert(s.drop_last().remove(k) =~= s.remove(k).drop_last());
        assert(s.remove(k).last() == s.last());
        lemma_wadd_swap(wsum(s.remove(k).drop_last()), s[k], s.last());
    }
}

/// A reordered sequence has the same sum.
pub proof fn lemma_wsum_reorder(out: Seq<i64>, src: Seq<i64>, order: Seq<int>)
    requires
        reorders(out, src, order),
    ensures
        wsum(out) == wsum(src),
    decreases out.len(),
{
    if out.len() > 0 {
        lemma_reorder_step(out, src, order);
        let k = order.last();
        lemma_wsum_reorder(out.drop_last(), src.remove(k), shift_past(order.drop_last(), k));
        lemma_wsum_remove(src, k);
    }
}

/// The larger of two values.
pub open spec fn larger(a: i64, b: i64) -> i64 {
    if b > a {
        b
    } else {
        a
    }
}

/// A maximum is the larger of the maximum without one element and that element.
pub proof fn lemma_max0_remove(s: Seq<i64>, k: int)
    requires
        0 <= k < s.len(),
    ensures
        max0(s) == larger(max0(s.remove(k)), s[k]),
    decreases s.len(),
{
    if k == s.len() - 1 {
        assert(s.remove(k) =~= s.drop_last());
    } else {
        lemma_max0_remove(s.drop_last(), k);
        assert(s.drop_last().remove(k) =~= s.remove(k).drop_last());
        assert(s.remove(k).last() == s.last());
    }
}

/// A reordered sequence has the same maximum.
pub proof fn lemma_max0_reorder(out: Seq<i64>, src: Seq<i64>, order: Seq<int>)
    requires
        reorders(out, src, order),
    ensures
        max0(out) == max0(src),
    decreases out.len(),
{
    if out.len() > 0 {
        lemma_reorder_step(out, src, order);
        let k = order.last();
        lemma_max0_reorder(out.drop_last(), src.remove(k), shift_past(order.drop_last(), k));
        lemma_max0_remove(src, k);
    }
}

/// A token sum is the sum without one element, plus that element.
pub proof fn lemma_tokens_remove(s: Seq<Tokens>, k: int)
    requires
        0 <= k < s.len(),
    ensures
        tokens_sum(s) == tokens_add(tokens_sum(s.remove(k)), s[k]),
    decreases s.len(),
{
    if k == s.len() - 1 {
        assert(s.remove(k) =~= s.drop_last());
    } else {
        lemma_tokens_remove(s.drop_last(), k);
        assert(s.drop_last().remove(k) =~= s.remove(k).drop_last());
        assert(s.remove(k).last() == s.last());
        lemma_tokens_swap(tokens_sum(s.remove(k).drop_last()), s[k], s.last());
    }
}

/// A reordered sequence of tokens has the same sum.
pub proof fn lemma_tokens_reorder(out: Seq<Tokens>, src: Seq<Tokens>, order: Seq<int>)
    requires
        reorders(out, src, order),
    ensures
        tokens_sum(out) == tokens_sum(src),
    decreases out.len(),
{
    if out.len() > 0 {
        lemma_reorder_step(out, src, order);
        let k = order.last();
        lemma_tokens_reorder(out.drop_last(), src.remove(k), shift_past(order.drop_last(), k));
        lemma_tokens_remove(src, k);
    }
}

/// Adding `t` to one element adds `t` to the sum.
pub proof fn lemma_tokens_update(s: Seq<Tokens>, i: int, t: Tokens)
    requires
        0 <= i < s.len(),
    ensures
        tokens_sum(s.update(i, tokens_add(s[i], t))) == tokens_add(tokens_sum(s), t),
    decreases s.len(),
{
    let u = s.update(i, tokens_add(s[i], t));
    if i == s.len() - 1 {
        assert(u.drop_last() =~= s.drop_last());
        lemma_tokens_swap(tokens_sum(s.drop_last()), s[i], t);
    } else {
        lemma_tokens_update(s.drop_last(), i, t);
        assert(u.drop_last() =~= s.drop_last().update(i, tokens_add(s[i], t)));
        assert(u.last() == s.last());
        lemma_tokens_swap(tokens_sum(s.drop_last()), t, s.last());
    }
}

/// The sum over a concatenation adds the sums of the parts.
pub proof fn lemma_tokens_concat(a: Seq<Tokens>, b: Seq<Tokens>)
    ensures
        tokens_sum(a + b) == tokens_add(tokens_sum(a), tokens_sum(b)),
    decreases b.len(),
{
    if b.len() == 0 {
        assert(a + b =~= a);
        lemma_tokens_swap(tokens_zero(), tokens_sum(a), tokens_zero());
    } else {
        lemma_tokens_concat(a, b.drop_last());
        assert((a + b).drop_last() =~= a + b.drop_last());
        assert((a + b).last() == b.last());
        lemma_tokens_swap(tokens_sum(a), tokens_sum(b.drop_last()), b.last());
    }
}

/// The wrapping sum over a concatenation adds the sums of the parts.
pub proof fn lemma_wsum_concat(a: Seq<i64>, b: Seq<i64>)
    ensures
        wsum(a + b) == wadd(wsum(a), wsum(b)),
    decreases b.len(),
{
    if b.len() == 0 {
        assert(a + b =~= a);
        lemma_wadd_swap(0, wsum(a), 0);
    } else {
        lemma_wsum_concat(a, b.drop_last());
        assert((a + b).drop_last() =~= a + b.drop_last());
        assert((a + b).last() == b.last());
        lemma_wadd_swap(wsum(a), wsum(b.drop_last()), b.last());
    }
}

} // verus!
