//! Strictly increasing sequences of `u32` keys: insertion that keeps them
//! sorted and free of repeats, and the fact that such a sequence is fixed by
//! its set of elements.

use vstd::prelude::*;
use std::collections::HashMap;

verus! {

/// Each element is smaller than the next: sorted, with no value twice.
pub open spec fn strictly_increasing(s: Seq<u32>) -> bool {
    forall|i: int, j: int| 0 <= i < j < s.len() ==> s[i] < s[j]
}

/// Inserts `x` into the strictly increasing `v`, unless it is already there.
pub fn insert_sorted(v: &mut Vec<u32>, x: u32)
    requires
        strictly_increasing(old(v)@),
    ensures
        strictly_increasing(final(v)@),
        final(v)@.to_set() == old(v)@.to_set().insert(x),
{
    let ghost s = v@;
    let mut p: usize = 0;
    while p < v.len() && v[p] < x
        invariant
            v@ == s,
            p <= s.len(),
            forall|k: int| 0 <= k < p ==> s[k] < x,
        decreases s.len() - p,
    {
        p = p + 1;
    }
    if p < v.len() && v[p] == x {
        assert(s.to_set() =~= s.to_set().insert(x)) by {
            assert(s.contains(x)) by {
                assert(s[p as int] == x);
            }
        }
        return;
    }
    v.insert(p, x);
    proof {
        let t = s.insert(p as int, x);
        s.insert_ensures(p as int, x);
        assert(v@ == t);
        assert forall|i: int, j: int| 0 <= i < j < t.len() implies t[i] < t[j] by {
            if j < p {
            } else if j == p {
                assert(t[i] == s[i]);
            } else if i < p {
                assert(t[j] == s[j - 1]);
                assert(s[j - 1] > x);
            } else if i == p {
                assert(t[j] == s[j - 1]);
            } else {
                assert(t[i] == s[i - 1]);
                assert(t[j] == s[j - 1]);
            }
        }
        assert forall|a: u32| t.contains(a) <==> (s.contains(a) || a == x) by {
            if t.contains(a) {
                let k = choose|k: int| 0 <= k < t.len() && t[k] == a;
                if k < p {
                    assert(s[k] == a);
                } else if k > p {
                    assert(s[k - 1] == a);
                }
            }
            if s.contains(a) {
                let k = choose|k: int| 0 <= k < s.len() && s[k] == a;
                if k < p {
                    assert(t[k] == a);
                } else {
                    assert(t[k + 1] == a);
                }
            }
            if a == x {
                assert(t[p as int] == x);
            }
        }
        assert(t.to_set() =~= s.to_set().insert(x));
    }
}

/// Two strictly increasing sequences with the same elements are equal.
pub proof fn lemma_sorted_set_unique(a: Seq<u32>, b: Seq<u32>)
    requires
        strictly_increasing(a),
        strictly_increasing(b),
        a.to_set() == b.to_set(),
    ensures
        a == b,
    decreases a.len(),
{
    if a.len() == 0 {
        if b.len() > 0 {
            assert(b.to_set().contains(b[0]));
            assert(!a.to_set().contains(b[0]));
        }
        assert(a =~= b);
    } else {
        if b.len() == 0 {
            assert(a.to_set().contains(a[0]));
            assert(!b.to_set().contains(a[0]));
        }
        assert(a.to_set().contains(a[0]));
        assert(b.to_set().contains(b[0]));
        assert(b.contains(a[0]));
        assert(a.contains(b[0]));
        let ka = choose|k: int| 0 <= k < a.len() && a[k] == b[0];
        let kb = choose|k: int| 0 <= k < b.len() && b[k] == a[0];
        if ka > 0 {
            assert(a[0] < a[ka]);
            if kb > 0 {
                assert(b[0] < b[kb]);
            }
        }
        assert(a[0] == b[0]);
        let a1 = a.drop_first();
        let b1 = b.drop_first();
        assert forall|x: u32| a1.contains(x) <==> b1.contains(x) by {
            if a1.contains(x) {
                let k = choose|k: int| 0 <= k < a1.len() && a1[k] == x;
                assert(a[k + 1] == x);
                assert(x > a[0]);
                assert(a.contains(x));
                assert(b.to_set().contains(x));
                let m = choose|m: int| 0 <= m < b.len() && b[m] == x;
                assert(m > 0);
                assert(b1[m - 1] == x);
            }
            if b1.contains(x) {
                let k = choose|k: int| 0 <= k < b1.len() && b1[k] == x;
                assert(b[k + 1] == x);
                assert(x > b[0]);
                assert(b.contains(x));
                assert(a.to_set().contains(x));
                let m = choose|m: int| 0 <= m < a.len() && a[m] == x;
                assert(m > 0);
                assert(a1[m - 1] == x);
            }
        }
        assert(a1.to_set() =~= b1.to_set());
        lemma_sorted_set_unique(a1, b1);
        assert(a =~= b) by {
            assert forall|i: int| 0 <= i < a.len() implies a[i] == b[i] by {
                if i > 0 {
                    assert(a[i] == a1[i - 1]);
                    assert(b[i] == b1[i - 1]);
                }
            }
        }
    }
}


/// Appending `x` to a sequence adds `x` to its set of elements.
pub proof fn lemma_push_to_set<A>(s: Seq<A>, x: A)
    ensures
        s.push(x).to_set() == s.to_set().insert(x),
{
    let t = s.push(x);
    assert forall|a: A| t.contains(a) <==> s.contains(a) || a == x by {
        if t.contains(a) {
            let j = choose|j: int| 0 <= j < t.len() && t[j] == a;
            if j < s.len() {
                assert(s[j] == a);
            }
        }
        if s.contains(a) {
            let j = choose|j: int| 0 <= j < s.len() && s[j] == a;
            assert(t[j] == a);
        }
        if a == x {
            assert(t[s.len() as int] == a);
        }
    }
    assert(t.to_set() =~= s.to_set().insert(x));
}

/// The values of `m` listed in the strictly increasing order of its keys:
/// there is one entry per key, and each key's value stands at the key's
/// position.
pub proof fn lemma_listing_by_keys<V>(m: Map<u32, V>, keys: Seq<u32>, out: Seq<V>)
    requires
        strictly_increasing(keys),
        keys.to_set() == m.dom(),
        out.len() == keys.len(),
        forall|j: int| 0 <= j < keys.len() ==> #[trigger] out[j] == m[keys[j]],
    ensures
        out.len() == m.dom().len(),
        forall|j: int| 0 <= j < out.len() ==> m.contains_key(#[trigger] keys[j]) && out[j] == m[keys[j]],
        forall|k: u32|
            m.contains_key(k) ==> exists|j: int| 0 <= j < out.len() && #[trigger] keys[j] == k,
{
    assert(keys.no_duplicates()) by {
        assert forall|a: int, b: int| 0 <= a < keys.len() && 0 <= b < keys.len() && a != b implies keys[a] != keys[b] by {
            if b < a {
                assert(keys[b] < keys[a]);
            }
        }
    }
    keys.unique_seq_to_set();
    assert forall|j: int| 0 <= j < out.len() implies m.contains_key(#[trigger] keys[j]) && out[j] == m[keys[j]] by {
        assert(keys.to_set().contains(keys[j]));
    }
    assert forall|k: u32| m.contains_key(k) implies exists|j: int| 0 <= j < out.len() && #[trigger] keys[j] == k by {
        assert(keys.to_set().contains(k));
    }
}

/// The keys of `m` in increasing order.
pub fn sorted_keys<V>(m: &HashMap<u32, V>) -> (r: Vec<u32>)
    ensures
        strictly_increasing(r@),
        r@.to_set() == m@.dom(),
{
    broadcast use vstd::std_specs::hash::group_hash_axioms;
    let mut r: Vec<u32> = Vec::new();
    assert(r@.to_set() =~= Set::<u32>::empty());
    proof {
        vstd::std_specs::hash::axiom_spec_keys_iter(m);
    }
    for k in it: m.keys()
        invariant
            strictly_increasing(r@),
            r@.to_set() == it.seq().take(it.index()).unref().to_set(),
            it.seq().unref().to_set() == m@.dom(),
            it.index() == it.seq().len() ==> r@.to_set() == m@.dom(),
    {
        let ghost before = it.seq().take(it.index()).unref();
        insert_sorted(&mut r, *k);
        proof {
            let after = it.seq().take(it.index() + 1).unref();
            assert(after =~= before.push(*k));
            lemma_push_to_set(before, *k);
            assert(it.index() + 1 == it.seq().len() ==> it.seq().take(it.index() + 1) =~= it.seq());
        }
    }
    r
}

} // verus!
