//! Ordering records by a text key, as a stable sort does.
use vstd::prelude::*;
use crate::daemon::{insertion_point, lemma_text_le_total, lemma_text_le_trans, text_le};

verus! {

/// Records in order of their keys.
pub open spec fn sorted_by<T>(s: Seq<T>, key: spec_fn(T) -> Seq<char>) -> bool {
    forall|i: int, j: int| 0 <= i < j < s.len() ==> text_le(key(#[trigger] s[i]), key(#[trigger] s[j]))
}

/// The first position from `j` on in `s` whose key is greater than `k`
/// (the length of `s` when there is none).
pub open spec fn first_greater<T>(s: Seq<T>, k: Seq<char>, key: spec_fn(T) -> Seq<char>, j: int) -> int
    decreases s.len() - j,
{
    if j < 0 || j >= s.len() {
        s.len() as int
    } else if !text_le(key(s[j]), k) {
        j
    } else {
        first_greater(s, k, key, j + 1)
    }
}

/// Records in the order a stable sort by key gives them: each record, in
/// turn, goes after every earlier one whose key is not greater than its own.
pub open spec fn stable_sorted<T>(s: Seq<T>, key: spec_fn(T) -> Seq<char>) -> Seq<T>
    decreases s.len(),
{
    if s.len() == 0 {
        s
    } else {
        let t = stable_sorted(s.drop_last(), key);
        t.insert(first_greater(t, key(s.last()), key, 0), s.last())
    }
}

proof fn lemma_first_greater<T>(s: Seq<T>, k: Seq<char>, key: spec_fn(T) -> Seq<char>, j: int, i: int)
    requires
        0 <= i <= j <= s.len(),
        forall|q: int| 0 <= q < j ==> text_le(key(#[trigger] s[q]), k),
        j < s.len() ==> !text_le(key(s[j]), k),
    ensures
        first_greater(s, k, key, i) == j,
    decreases j - i,
{
    if i < j {
        lemma_first_greater(s, k, key, j, i + 1);
    }
}

/// Sort records by their keys (`keys[i]` is the key of `items[i]`); records
/// with equal keys keep their order.
pub fn sort_keyed<T>(items: Vec<T>, keys: Vec<Vec<char>>, Ghost(key): Ghost<spec_fn(T) -> Seq<char>>) -> (r: Vec<T>)
    requires
        keys@.len() == items@.len(),
        forall|i: int| 0 <= i < items@.len() ==> (#[trigger] keys@[i])@ == key(items@[i]),
    ensures
        r@ == stable_sorted(items@, key),
        sorted_by(r@, key),
        r@.to_multiset() == items@.to_multiset(),
{
    broadcast use vstd::seq_lib::group_to_multiset_ensures;
    let ghost all = items@;
    let ghost allk = keys@;
    let mut rest = items;
    let mut rest_keys = keys;
    let mut out: Vec<T> = Vec::new();
    let mut out_keys: Vec<Vec<char>> = Vec::new();
    assert(all.subrange(0, 0) =~= Seq::<T>::empty());
    assert(all.subrange(0, all.len() as int) =~= all);
    assert(allk.subrange(0, allk.len() as int) =~= allk);
    let ghost mut k: int = 0;
    while rest.len() > 0
        invariant
            0 <= k <= all.len(),
            allk.len() == all.len(),
            forall|i: int| 0 <= i < all.len() ==> (#[trigger] allk[i])@ == key(all[i]),
            rest@ == all.subrange(k, all.len() as int),
            rest_keys@ == allk.subrange(k, all.len() as int),
            out_keys@.len() == out@.len(),
            forall|q: int| 0 <= q < out_keys@.len() ==> (#[trigger] out_keys@[q])@ == key(out@[q]),
            sorted_by(out@, key),
            out@ == stable_sorted(all.subrange(0, k), key),
            out@.to_multiset() == all.subrange(0, k).to_multiset(),
        decreases rest@.len(),
    {
        let x = rest.remove(0);
        let xk = rest_keys.remove(0);
        assert(x == all[k] && xk == allk[k]);
        let j = insertion_point(&out_keys, &xk);
        let ghost before = out@;
        let ghost kbefore = out_keys@;
        proof {
            assert forall|q: int| 0 <= q < j implies text_le(key(#[trigger] before[q]), key(x)) by {
                assert(kbefore[q]@ == key(before[q]));
            }
            if j < before.len() {
                assert(kbefore[j as int]@ == key(before[j as int]));
                lemma_text_le_total(key(x), key(before[j as int]));
            }
            assert forall|q: int| j <= q < before.len() implies text_le(key(x), key(#[trigger] before[q])) by {
                if q > j {
                    lemma_text_le_trans(key(x), key(before[j as int]), key(before[q]));
                }
            }
        }
        proof {
            assert forall|q: int| 0 <= q < j implies text_le(key(#[trigger] before[q]), key(x)) by {
                assert(kbefore[q]@ == key(before[q]));
            }
            if j < before.len() {
                assert(kbefore[j as int]@ == key(before[j as int]));
            }
            lemma_first_greater(before, key(x), key, j as int, 0);
            let s1 = all.subrange(0, k + 1);
            assert(s1.drop_last() =~= all.subrange(0, k));
            assert(s1.last() == x);
        }
        out.insert(j, x);
        out_keys.insert(j, xk);
        assert(out@ == before.insert(j as int, x));
        assert forall|p: int, q: int| 0 <= p < q < out@.len() implies text_le(key(#[trigger] out@[p]), key(#[trigger] out@[q])) by {
            if q < j {
                assert(out@[p] == before[p] && out@[q] == before[q]);
            } else if q == j {
                assert(out@[p] == before[p]);
            } else if p == j {
                assert(out@[q] == before[q - 1]);
            } else if p < j {
                assert(out@[p] == before[p] && out@[q] == before[q - 1]);
            } else {
                assert(out@[p] == before[p - 1] && out@[q] == before[q - 1]);
            }
        }
        assert forall|q: int| 0 <= q < out_keys@.len() implies (#[trigger] out_keys@[q])@ == key(out@[q]) by {
            if q < j {
                assert(out_keys@[q] == kbefore[q] && out@[q] == before[q]);
            } else if q > j {
                assert(out_keys@[q] == kbefore[q - 1] && out@[q] == before[q - 1]);
            }
        }
        proof {
            vstd::seq_lib::to_multiset_insert(before, j as int, x);
            vstd::seq_lib::to_multiset_build(all.subrange(0, k), all[k]);
            assert(all.subrange(0, k + 1) =~= all.subrange(0, k).push(all[k]));
            assert(rest@ =~= all.subrange(k + 1, all.len() as int));
            assert(rest_keys@ =~= allk.subrange(k + 1, all.len() as int));
            k = k + 1;
        }
    }
    assert(all.subrange(0, k) =~= all);
    out
}

/// No two records share a value of `f`.
pub open spec fn distinct_by<T>(s: Seq<T>, f: spec_fn(T) -> Seq<char>) -> bool {
    forall|i: int, j: int| 0 <= i < j < s.len() ==> f(#[trigger] s[i]) != f(#[trigger] s[j])
}

proof fn lemma_first_greater_props<T>(t: Seq<T>, k: Seq<char>, key: spec_fn(T) -> Seq<char>, i: int)
    requires
        0 <= i <= t.len(),
    ensures
        i <= first_greater(t, k, key, i) <= t.len(),
        forall|q: int| i <= q < first_greater(t, k, key, i) ==> text_le(key(#[trigger] t[q]), k),
        first_greater(t, k, key, i) < t.len() ==> !text_le(key(t[first_greater(t, k, key, i)]), k),
    decreases t.len() - i,
{
    if i < t.len() && text_le(key(t[i]), k) {
        lemma_first_greater_props(t, k, key, i + 1);
    }
}

/// A stable sort gives the same records, in order of their keys; records
/// distinct by some value stay distinct.
pub proof fn lemma_stable_sorted<T>(s: Seq<T>, key: spec_fn(T) -> Seq<char>, f: spec_fn(T) -> Seq<char>)
    ensures
        stable_sorted(s, key).len() == s.len(),
        sorted_by(stable_sorted(s, key), key),
        forall|y: T|
            #![trigger stable_sorted(s, key).contains(y)]
            #![trigger s.contains(y)]
            stable_sorted(s, key).contains(y) <==> s.contains(y),
        distinct_by(s, f) ==> distinct_by(stable_sorted(s, key), f),
    decreases s.len(),
{
    if s.len() > 0 {
        let r = s.drop_last();
        let x = s.last();
        lemma_stable_sorted(r, key, f);
        let t0 = stable_sorted(r, key);
        lemma_first_greater_props(t0, key(x), key, 0);
        let j = first_greater(t0, key(x), key, 0);
        let t = stable_sorted(s, key);
        assert(t == t0.insert(j, x));
        if j < t0.len() {
            lemma_text_le_total(key(x), key(t0[j]));
        }
        assert forall|q: int| j <= q < t0.len() implies text_le(key(x), key(#[trigger] t0[q])) by {
            if q > j {
                lemma_text_le_trans(key(x), key(t0[j]), key(t0[q]));
            }
        }
        assert forall|p: int, q: int| 0 <= p < q < t.len() implies text_le(key(#[trigger] t[p]), key(#[trigger] t[q])) by {
            if q < j {
                assert(t[p] == t0[p] && t[q] == t0[q]);
            } else if q == j {
                assert(t[p] == t0[p]);
            } else if p == j {
                assert(t[q] == t0[q - 1]);
            } else if p < j {
                assert(t[p] == t0[p] && t[q] == t0[q - 1]);
                lemma_text_le_trans(key(t0[p]), key(x), key(t0[q - 1]));
            } else {
                assert(t[p] == t0[p - 1] && t[q] == t0[q - 1]);
            }
        }
        assert forall|y: T| t.contains(y) <==> s.contains(y) by {
            if t.contains(y) {
                let q = choose|q: int| 0 <= q < t.len() && t[q] == y;
                if q == j {
                    assert(s[s.len() - 1] == y);
                    assert(s.contains(y));
                } else {
                    let qq = if q < j { q } else { q - 1 };
                    assert(t[q] == t0[qq]);
                    assert(t0.contains(y));
                    assert(r.contains(y));
                    let z = choose|z: int| 0 <= z < r.len() && r[z] == y;
                    assert(r[z] == s[z]);
                    assert(s[z] == y);
                    assert(s.contains(y));
                }
            }
            if s.contains(y) {
                let z = choose|z: int| 0 <= z < s.len() && s[z] == y;
                if z == s.len() - 1 {
                    assert(t[j] == y);
                    assert(t.contains(y));
                } else {
                    assert(r[z] == y);
                    assert(r.contains(y));
                    let q = choose|q: int| 0 <= q < t0.len() && t0[q] == y;
                    let qq = if q < j { q } else { q + 1 };
                    assert(t[qq] == y);
                    assert(t.contains(y));
                }
            }
        }
        if distinct_by(s, f) {
            assert forall|p: int, q: int| 0 <= p < q < r.len() implies f(#[trigger] r[p]) != f(#[trigger] r[q]) by {
                assert(r[p] == s[p] && r[q] == s[q]);
            }
            assert forall|p: int, q: int| 0 <= p < q < t.len() implies f(#[trigger] t[p]) != f(#[trigger] t[q]) by {
                if p != j && q != j {
                    let pp = if p < j { p } else { p - 1 };
                    let qq = if q < j { q } else { q - 1 };
                    assert(t[p] == t0[pp] && t[q] == t0[qq]);
                } else {
                    let o = if p == j { q } else { p };
                    let oo = if o < j { o } else { o - 1 };
                    assert(t[o] == t0[oo]);
                    assert(t0.contains(t0[oo]));
                    let z = choose|z: int| 0 <= z < r.len() && r[z] == t0[oo];
                    assert(s[z] == r[z]);
                    assert(s[s.len() - 1] == x);
                    assert(f(s[z]) != f(s[s.len() - 1]));
                }
            }
        }
    }
}

} // verus!
