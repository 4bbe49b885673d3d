//! String-keyed association lists: each key at most once, in order of first insertion;
//! a later insertion under the same key replaces the value in place.
use vstd::prelude::*;

verus! {

/// The first position of key `k`, or -1.
pub open spec fn kv_index<V>(s: Seq<(Seq<char>, V)>, k: Seq<char>) -> int
    decreases s.len(),
{
    if s.len() == 0 {
        -1
    } else if s.last().0 == k && kv_index(s.drop_last(), k) < 0 {
        s.len() - 1
    } else {
        kv_index(s.drop_last(), k)
    }
}

/// `s` with `k` bound to `v`.
pub open spec fn kv_put<V>(s: Seq<(Seq<char>, V)>, k: Seq<char>, v: V) -> Seq<(Seq<char>, V)> {
    let i = kv_index(s, k);
    if i < 0 {
        s.push((k, v))
    } else {
        s.update(i, (k, v))
    }
}

/// The value bound to `k`.
pub open spec fn kv_get<V>(s: Seq<(Seq<char>, V)>, k: Seq<char>) -> Option<V> {
    let i = kv_index(s, k);
    if i < 0 {
        None
    } else {
        Some(s[i].1)
    }
}

/// Keys and values by their views.
pub open spec fn kv_view<V: View>(v: Seq<(String, V)>) -> Seq<(Seq<char>, V::V)> {
    v.map_values(|p: (String, V)| (p.0@, p.1@))
}

/// No key occurs twice.
pub open spec fn kv_unique<V>(s: Seq<(Seq<char>, V)>) -> bool {
    forall|i: int, j: int| 0 <= i < j < s.len() ==> s[i].0 != s[j].0
}

/// Reading back after a put: the key put reads the value put, every other key reads
/// what it read before.
pub proof fn law_kv_read_after_put<V>(s: Seq<(Seq<char>, V)>, k: Seq<char>, v: V, q: Seq<char>)
    ensures
        kv_get(kv_put(s, k, v), q) == if q == k {
            Some(v)
        } else {
            kv_get(s, q)
        },
{
    lemma_kv_index(s, k);
    lemma_kv_index(s, q);
    let t = kv_put(s, k, v);
    lemma_kv_index(t, q);
    let iq = kv_index(s, q);
    let tq = kv_index(t, q);
    if q == k {
        if kv_index(s, k) >= 0 {
            assert(t[kv_index(s, k)].0 == q);
            if tq < kv_index(s, k) {
                assert(t[tq] == s[tq]);
            }
        } else {
            assert(t[s.len() as int].0 == q);
            if tq < s.len() {
                assert(t[tq] == s[tq]);
            }
        }
    } else {
        if iq >= 0 {
            assert(t[iq] == s[iq]);
            if tq >= 0 && tq < iq {
                assert(t[tq] == s[tq]);
            }
        } else {
            if tq >= 0 {
                if tq < s.len() {
                    assert(t[tq] == s[tq] || t[tq].0 == k);
                }
            }
        }
    }
}

/// `kv_index` is the first position holding `k`.
pub proof fn lemma_kv_index<V>(s: Seq<(Seq<char>, V)>, k: Seq<char>)
    ensures
        -1 <= kv_index(s, k) < s.len(),
        kv_index(s, k) >= 0 ==> s[kv_index(s, k)].0 == k,
        forall|j: int|
            #![trigger s[j]]
            0 <= j < s.len() && (kv_index(s, k) < 0 || j < kv_index(s, k)) ==> s[j].0 != k,
    decreases s.len(),
{
    if s.len() > 0 {
        lemma_kv_index(s.drop_last(), k);
        assert forall|j: int| 0 <= j < s.len() - 1 implies #[trigger] s[j] == s.drop_last()[j] by {}
    }
}

/// A put never makes a key occur twice.
pub proof fn law_kv_put_keeps_keys_unique<V>(s: Seq<(Seq<char>, V)>, k: Seq<char>, v: V)
    requires
        kv_unique(s),
    ensures
        kv_unique(kv_put(s, k, v)),
{
    lemma_kv_index(s, k);
    let t = kv_put(s, k, v);
    assert forall|i: int, j: int| 0 <= i < j < t.len() implies t[i].0 != t[j].0 by {
        if kv_index(s, k) < 0 {
            if j == s.len() {
                assert(s[i].0 != k);
            }
        } else {
            let x = kv_index(s, k);
            if i == x {
                assert(s[j].0 != s[x].0);
            } else if j == x {
                assert(s[i].0 != s[x].0);
            }
        }
    }
}

/// Position of `k` in `m`.
pub fn kv_find<V: View>(m: &Vec<(String, V)>, k: &String) -> (r: Option<usize>)
    ensures
        match r {
            Some(i) => kv_index(kv_view(m@), k@) == i as int,
            None => kv_index(kv_view(m@), k@) == -1,
        },
{
    let mut i: usize = 0;
    while i < m.len()
        invariant
            i <= m.len(),
            forall|j: int| #![trigger kv_view(m@)[j]] 0 <= j < i ==> kv_view(m@)[j].0 != k@,
        decreases m.len() - i,
    {
        if m[i].0 == *k {
            assert(kv_view(m@)[i as int].0 == k@);
            proof {
                lemma_kv_index(kv_view(m@), k@);
            }
            return Some(i);
        }
        i = i + 1;
    }
    proof {
        lemma_kv_index(kv_view(m@), k@);
    }
    None
}

/// Binds `k` to `v` in `m`.
pub fn kv_insert<V: View>(m: &mut Vec<(String, V)>, k: String, v: V)
    ensures
        kv_view(final(m)@) == kv_put(kv_view(old(m)@), k@, v@),
{
    proof {
        lemma_kv_index(kv_view(m@), k@);
    }
    let ghost kv = k@;
    let ghost vv = v@;
    match kv_find(m, &k) {
        Some(i) => {
            m.set(i, (k, v));
            assert(kv_view(m@) =~= kv_put(kv_view(old(m)@), kv, vv));
        },
        None => {
            m.push((k, v));
            assert(kv_view(m@) =~= kv_put(kv_view(old(m)@), kv, vv));
        },
    }
}

/// The value bound to `k` in `m`.
pub fn kv_lookup<'a, V: View>(m: &'a Vec<(String, V)>, k: &String) -> (r: Option<&'a V>)
    ensures
        match r {
            Some(v) => kv_get(kv_view(m@), k@) == Some(v@),
            None => kv_get(kv_view(m@), k@) is None,
        },
{
    proof {
        lemma_kv_index(kv_view(m@), k@);
    }
    match kv_find(m, k) {
        Some(i) => Some(&m[i].1),
        None => None,
    }
}

} // verus!
