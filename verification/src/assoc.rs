//! Specification-level association lists: sequences of key/value pairs with
//! unique keys. The storage, subscription and alias tables are all modelled
//! as such sequences, so their contracts share these functions and lemmas.

use vstd::prelude::*;

verus! {

/// All keys in the sequence are distinct.
pub open spec fn assoc_wf<K, V>(s: Seq<(K, V)>) -> bool {
    forall|i: int, j: int| 0 <= i < j < s.len() ==> s[i].0 != s[j].0
}

/// Whether some entry has key `k`.
pub open spec fn assoc_contains<K, V>(s: Seq<(K, V)>, k: K) -> bool {
    exists|i: int| 0 <= i < s.len() && s[i].0 == k
}

/// The value of the first entry with key `k`, if any.
pub open spec fn assoc_get<K, V>(s: Seq<(K, V)>, k: K) -> Option<V>
    decreases s.len(),
{
    if s.len() == 0 {
        None
    } else if s[0].0 == k {
        Some(s[0].1)
    } else {
        assoc_get(s.drop_first(), k)
    }
}

/// Replace the value of the first entry with key `k`, or append a new entry.
pub open spec fn assoc_insert<K, V>(s: Seq<(K, V)>, k: K, v: V) -> Seq<(K, V)>
    decreases s.len(),
{
    if s.len() == 0 {
        seq![(k, v)]
    } else if s[0].0 == k {
        seq![(k, v)] + s.drop_first()
    } else {
        seq![s[0]] + assoc_insert(s.drop_first(), k, v)
    }
}

/// Remove the first entry with key `k`, if any.
pub open spec fn assoc_remove<K, V>(s: Seq<(K, V)>, k: K) -> Seq<(K, V)>
    decreases s.len(),
{
    if s.len() == 0 {
        s
    } else if s[0].0 == k {
        s.drop_first()
    } else {
        seq![s[0]] + assoc_remove(s.drop_first(), k)
    }
}

pub proof fn lemma_get_some_iff_contains<K, V>(s: Seq<(K, V)>, k: K)
    ensures
        assoc_get(s, k) is Some <==> assoc_contains(s, k),
    decreases s.len(),
{
    if s.len() > 0 {
        if s[0].0 == k {
        } else {
            lemma_get_some_iff_contains(s.drop_first(), k);
            assert(assoc_contains(s.drop_first(), k) ==> assoc_contains(s, k)) by {
                if assoc_contains(s.drop_first(), k) {
                    let i = choose|i: int|
                        0 <= i < s.drop_first().len() && s.drop_first()[i].0 == k;
                    assert(s[i + 1].0 == k);
                }
            }
            assert(assoc_contains(s, k) ==> assoc_contains(s.drop_first(), k)) by {
                if assoc_contains(s, k) {
                    let i = choose|i: int| 0 <= i < s.len() && s[i].0 == k;
                    assert(i != 0);
                    assert(s.drop_first()[i - 1].0 == k);
                }
            }
        }
    }
}

/// A successful lookup returns a value that is stored in the sequence.
pub proof fn lemma_get_is_entry<K, V>(s: Seq<(K, V)>, k: K)
    requires
        assoc_get(s, k) is Some,
    ensures
        exists|i: int| 0 <= i < s.len() && s[i] == (k, assoc_get(s, k)->Some_0),
    decreases s.len(),
{
    if s.len() > 0 {
        if s[0].0 == k {
            assert(s[0] == (k, assoc_get(s, k)->Some_0));
        } else {
            lemma_get_is_entry(s.drop_first(), k);
            let i = choose|i: int|
                0 <= i < s.drop_first().len() && s.drop_first()[i] == (
                k,
                assoc_get(s.drop_first(), k)->Some_0,
                );
            assert(s[i + 1] == (k, assoc_get(s, k)->Some_0));
        }
    }
}

/// A linear scan that stops at the first matching index computes `assoc_get`.
pub proof fn lemma_get_by_index<K, V>(s: Seq<(K, V)>, k: K, i: int)
    requires
        0 <= i < s.len(),
        s[i].0 == k,
        forall|j: int| 0 <= j < i ==> s[j].0 != k,
    ensures
        assoc_get(s, k) == Some(s[i].1),
    decreases s.len(),
{
    if i == 0 {
    } else {
        lemma_get_by_index(s.drop_first(), k, i - 1);
    }
}

pub proof fn lemma_get_none<K, V>(s: Seq<(K, V)>, k: K)
    requires
        forall|j: int| 0 <= j < s.len() ==> s[j].0 != k,
    ensures
        assoc_get(s, k) == None::<V>,
    decreases s.len(),
{
    if s.len() > 0 {
        lemma_get_none(s.drop_first(), k);
    }
}

pub proof fn lemma_get_insert_same<K, V>(s: Seq<(K, V)>, k: K, v: V)
    ensures
        assoc_get(assoc_insert(s, k, v), k) == Some(v),
    decreases s.len(),
{
    if s.len() == 0 {
    } else if s[0].0 == k {
    } else {
        lemma_get_insert_same(s.drop_first(), k, v);
        assert(assoc_insert(s, k, v).drop_first() =~= assoc_insert(s.drop_first(), k, v));
    }
}

pub proof fn lemma_get_insert_other<K, V>(s: Seq<(K, V)>, k: K, v: V, k2: K)
    requires
        k2 != k,
    ensures
        assoc_get(assoc_insert(s, k, v), k2) == assoc_get(s, k2),
    decreases s.len(),
{
    let r = assoc_insert(s, k, v);
    if s.len() == 0 {
        assert(r[0] == (k, v));
        assert(r.drop_first().len() == 0);
        assert(assoc_get(r, k2) == assoc_get(r.drop_first(), k2));
    } else if s[0].0 == k {
        assert(r[0] == (k, v));
        assert(r.drop_first() =~= s.drop_first());
        assert(assoc_get(r, k2) == assoc_get(s.drop_first(), k2));
        assert(assoc_get(s, k2) == assoc_get(s.drop_first(), k2));
    } else {
        lemma_get_insert_other(s.drop_first(), k, v, k2);
        assert(r[0] == s[0]);
        assert(r.drop_first() =~= assoc_insert(s.drop_first(), k, v));
        if s[0].0 == k2 {
        } else {
            assert(assoc_get(r, k2) == assoc_get(assoc_insert(s.drop_first(), k, v), k2));
        }
    }
}

pub proof fn lemma_get_remove_other<K, V>(s: Seq<(K, V)>, k: K, k2: K)
    requires
        k2 != k,
        assoc_wf(s),
    ensures
        assoc_get(assoc_remove(s, k), k2) == assoc_get(s, k2),
    decreases s.len(),
{
    if s.len() == 0 {
    } else if s[0].0 == k {
    } else {
        assert(assoc_wf(s.drop_first())) by {
            assert(forall|i: int, j: int|
                0 <= i < j < s.drop_first().len() ==> s.drop_first()[i].0 != s.drop_first()[j].0);
        }
        lemma_get_remove_other(s.drop_first(), k, k2);
        assert(assoc_remove(s, k).drop_first() =~= assoc_remove(s.drop_first(), k));
    }
}

pub proof fn lemma_get_remove_same<K, V>(s: Seq<(K, V)>, k: K)
    requires
        assoc_wf(s),
    ensures
        assoc_get(assoc_remove(s, k), k) == None::<V>,
    decreases s.len(),
{
    if s.len() == 0 {
    } else if s[0].0 == k {
        assert(forall|j: int|
            0 <= j < s.drop_first().len() ==> s.drop_first()[j].0 != k) by {
            assert(forall|j: int| 0 <= j < s.drop_first().len() ==> s.drop_first()[j] == s[j + 1]);
        }
        lemma_get_none(s.drop_first(), k);
    } else {
        assert(assoc_wf(s.drop_first()));
        lemma_get_remove_same(s.drop_first(), k);
        assert(assoc_remove(s, k).drop_first() =~= assoc_remove(s.drop_first(), k));
    }
}

pub proof fn lemma_insert_wf<K, V>(s: Seq<(K, V)>, k: K, v: V)
    requires
        assoc_wf(s),
    ensures
        assoc_wf(assoc_insert(s, k, v)),
        assoc_insert(s, k, v).len() == if assoc_contains(s, k) {
            s.len() as int
        } else {
            s.len() + 1int
        },
        forall|i: int| 0 <= i < assoc_insert(s, k, v).len() ==> #[trigger] assoc_insert(s, k, v)[i]
            == (k, v) || exists|j: int| 0 <= j < s.len() && s[j] == assoc_insert(s, k, v)[i],
    decreases s.len(),
{
    let r = assoc_insert(s, k, v);
    if s.len() == 0 {
    } else if s[0].0 == k {
        assert(r =~= seq![(k, v)] + s.drop_first());
        assert forall|i: int| 0 <= i < r.len() implies #[trigger] r[i] == (k, v) || exists|j: int|
            0 <= j < s.len() && s[j] == r[i] by {
            if i > 0 {
                assert(s[i] == r[i]);
            }
        }
    } else {
        assert(assoc_wf(s.drop_first()));
        lemma_insert_wf(s.drop_first(), k, v);
        let rr = assoc_insert(s.drop_first(), k, v);
        assert(r =~= seq![s[0]] + rr);
        assert(assoc_contains(s.drop_first(), k) == assoc_contains(s, k)) by {
            lemma_get_some_iff_contains(s, k);
            lemma_get_some_iff_contains(s.drop_first(), k);
        }
        assert forall|i: int| 0 <= i < r.len() implies #[trigger] r[i] == (k, v) || exists|j: int|
            0 <= j < s.len() && s[j] == r[i] by {
            if i == 0 {
                assert(s[0] == r[0]);
            } else {
                assert(r[i] == rr[i - 1]);
                if rr[i - 1] != (k, v) {
                    let j = choose|j: int|
                        0 <= j < s.drop_first().len() && s.drop_first()[j] == rr[i - 1];
                    assert(s[j + 1] == rr[i - 1]);
                }
            }
        }
        assert(assoc_wf(r)) by {
            assert forall|i: int, j: int| 0 <= i < j < r.len() implies r[i].0 != r[j].0 by {
                if i == 0 {
                    // head key differs from k and from every key of the tail
                    if r[j].0 == s[0].0 {
                        assert(rr[j - 1].0 == s[0].0);
                        if rr[j - 1] == (k, v) {
                        } else {
                            let m = choose|m: int|
                                0 <= m < s.drop_first().len() && s.drop_first()[m] == rr[j - 1];
                            assert(s[m + 1].0 == s[0].0);
                        }
                    }
                } else {
                    assert(r[i] == rr[i - 1]);
                    assert(r[j] == rr[j - 1]);
                }
            }
        }
    }
}

pub proof fn lemma_remove_wf<K, V>(s: Seq<(K, V)>, k: K)
    requires
        assoc_wf(s),
    ensures
        assoc_wf(assoc_remove(s, k)),
        assoc_remove(s, k).len() == if assoc_contains(s, k) {
            s.len() - 1
        } else {
            s.len() as int
        },
        forall|i: int| 0 <= i < assoc_remove(s, k).len() ==> (exists|j: int|
            0 <= j < s.len() && s[j] == #[trigger] assoc_remove(s, k)[i]) && assoc_remove(s, k)[i].0
            != k,
    decreases s.len(),
{
    let r = assoc_remove(s, k);
    if s.len() == 0 {
    } else if s[0].0 == k {
        assert(r =~= s.drop_first());
        assert(assoc_contains(s, k));
        assert forall|i: int| 0 <= i < r.len() implies (exists|j: int|
            0 <= j < s.len() && s[j] == #[trigger] r[i]) && r[i].0 != k by {
            assert(s[i + 1] == r[i]);
        }
        assert(assoc_wf(r));
    } else {
        assert(assoc_wf(s.drop_first()));
        lemma_remove_wf(s.drop_first(), k);
        let rr = assoc_remove(s.drop_first(), k);
        assert(r =~= seq![s[0]] + rr);
        assert(assoc_contains(s.drop_first(), k) == assoc_contains(s, k)) by {
            lemma_get_some_iff_contains(s, k);
            lemma_get_some_iff_contains(s.drop_first(), k);
        }
        assert forall|i: int| 0 <= i < r.len() implies (exists|j: int|
            0 <= j < s.len() && s[j] == #[trigger] r[i]) && r[i].0 != k by {
            if i == 0 {
                assert(s[0] == r[0]);
            } else {
                assert(r[i] == rr[i - 1]);
                let j = choose|j: int|
                    0 <= j < s.drop_first().len() && s.drop_first()[j] == rr[i - 1];
                assert(s[j + 1] == rr[i - 1]);
            }
        }
        assert(assoc_wf(r)) by {
            assert forall|i: int, j: int| 0 <= i < j < r.len() implies r[i].0 != r[j].0 by {
                if i == 0 {
                    if r[j].0 == s[0].0 {
                        let m = choose|m: int|
                            0 <= m < s.drop_first().len() && s.drop_first()[m] == rr[j - 1];
                        assert(s[m + 1].0 == s[0].0);
                    }
                } else {
                    assert(r[i] == rr[i - 1]);
                    assert(r[j] == rr[j - 1]);
                }
            }
        }
    }
}

/// Inserting a fresh key and removing it again restores the sequence.
pub proof fn lemma_insert_then_remove_fresh<K, V>(s: Seq<(K, V)>, k: K, v: V)
    requires
        !assoc_contains(s, k),
    ensures
        assoc_remove(assoc_insert(s, k, v), k) =~= s,
    decreases s.len(),
{
    if s.len() == 0 {
    } else {
        assert(s[0].0 != k);
        assert(!assoc_contains(s.drop_first(), k)) by {
            if assoc_contains(s.drop_first(), k) {
                let i = choose|i: int| 0 <= i < s.drop_first().len() && s.drop_first()[i].0 == k;
                assert(s[i + 1].0 == k);
            }
        }
        lemma_insert_then_remove_fresh(s.drop_first(), k, v);
        assert(assoc_insert(s, k, v).drop_first() =~= assoc_insert(s.drop_first(), k, v));
        assert(assoc_remove(assoc_insert(s, k, v), k) =~= seq![s[0]] + assoc_remove(
            assoc_insert(s.drop_first(), k, v),
            k,
        ));
        assert(seq![s[0]] + s.drop_first() =~= s);
    }
}

/// Replacing at the first index with key `k` computes `assoc_insert`.
pub proof fn lemma_insert_at_first_index<K, V>(s: Seq<(K, V)>, k: K, v: V, i: int)
    requires
        0 <= i < s.len(),
        s[i].0 == k,
        forall|j: int| 0 <= j < i ==> s[j].0 != k,
    ensures
        assoc_insert(s, k, v) =~= s.update(i, (k, v)),
    decreases s.len(),
{
    if i == 0 {
        assert(assoc_insert(s, k, v) =~= seq![(k, v)] + s.drop_first());
        assert(seq![(k, v)] + s.drop_first() =~= s.update(0, (k, v)));
    } else {
        lemma_insert_at_first_index(s.drop_first(), k, v, i - 1);
        assert(assoc_insert(s, k, v) =~= seq![s[0]] + assoc_insert(s.drop_first(), k, v));
        assert(seq![s[0]] + s.drop_first().update(i - 1, (k, v)) =~= s.update(i, (k, v)));
    }
}

/// Appending a fresh key computes `assoc_insert`.
pub proof fn lemma_insert_absent<K, V>(s: Seq<(K, V)>, k: K, v: V)
    requires
        forall|j: int| 0 <= j < s.len() ==> s[j].0 != k,
    ensures
        assoc_insert(s, k, v) =~= s.push((k, v)),
    decreases s.len(),
{
    if s.len() == 0 {
        assert(assoc_insert(s, k, v) =~= s.push((k, v)));
    } else {
        lemma_insert_absent(s.drop_first(), k, v);
        assert(assoc_insert(s, k, v) =~= seq![s[0]] + assoc_insert(s.drop_first(), k, v));
        assert(seq![s[0]] + s.drop_first().push((k, v)) =~= s.push((k, v)));
    }
}

/// Deleting the first index with key `k` computes `assoc_remove`.
pub proof fn lemma_remove_at_first_index<K, V>(s: Seq<(K, V)>, k: K, i: int)
    requires
        0 <= i < s.len(),
        s[i].0 == k,
        forall|j: int| 0 <= j < i ==> s[j].0 != k,
    ensures
        assoc_remove(s, k) =~= s.remove(i),
    decreases s.len(),
{
    if i == 0 {
        assert(assoc_remove(s, k) =~= s.drop_first());
        assert(s.drop_first() =~= s.remove(0));
    } else {
        lemma_remove_at_first_index(s.drop_first(), k, i - 1);
        assert(assoc_remove(s, k) =~= seq![s[0]] + assoc_remove(s.drop_first(), k));
        assert(seq![s[0]] + s.drop_first().remove(i - 1) =~= s.remove(i));
    }
}

/// A second insert at the same key overwrites the first.
pub proof fn lemma_insert_insert<K, V>(s: Seq<(K, V)>, k: K, a: V, b: V)
    ensures
        assoc_insert(assoc_insert(s, k, a), k, b) =~= assoc_insert(s, k, b),
    decreases s.len(),
{
    if s.len() == 0 {
    } else if s[0].0 == k {
        assert(assoc_insert(s, k, a) =~= seq![(k, a)] + s.drop_first());
        assert(assoc_insert(assoc_insert(s, k, a), k, b) =~= seq![(k, b)] + s.drop_first());
    } else {
        lemma_insert_insert(s.drop_first(), k, a, b);
        assert(assoc_insert(s, k, a).drop_first() =~= assoc_insert(s.drop_first(), k, a));
        assert(assoc_insert(assoc_insert(s, k, a), k, b) =~= seq![s[0]] + assoc_insert(
            assoc_insert(s.drop_first(), k, a),
            k,
            b,
        ));
        assert(assoc_insert(s, k, b) =~= seq![s[0]] + assoc_insert(s.drop_first(), k, b));
    }
}

/// Removing a key right after inserting it removes the prior entry too.
pub proof fn lemma_remove_insert<K, V>(s: Seq<(K, V)>, k: K, v: V)
    ensures
        assoc_remove(assoc_insert(s, k, v), k) =~= assoc_remove(s, k),
    decreases s.len(),
{
    if s.len() == 0 {
        assert(assoc_insert(s, k, v) =~= seq![(k, v)]);
        assert(assoc_remove(assoc_insert(s, k, v), k) =~= s);
    } else if s[0].0 == k {
        assert(assoc_insert(s, k, v) =~= seq![(k, v)] + s.drop_first());
        assert(assoc_remove(assoc_insert(s, k, v), k) =~= s.drop_first());
    } else {
        lemma_remove_insert(s.drop_first(), k, v);
        assert(assoc_insert(s, k, v).drop_first() =~= assoc_insert(s.drop_first(), k, v));
        assert(assoc_remove(assoc_insert(s, k, v), k) =~= seq![s[0]] + assoc_remove(
            assoc_insert(s.drop_first(), k, v),
            k,
        ));
        assert(assoc_remove(s, k) =~= seq![s[0]] + assoc_remove(s.drop_first(), k));
    }
}

/// Re-inserting the value already stored leaves the sequence unchanged.
pub proof fn lemma_insert_same_value<K, V>(s: Seq<(K, V)>, k: K, v: V)
    requires
        assoc_get(s, k) == Some(v),
    ensures
        assoc_insert(s, k, v) =~= s,
    decreases s.len(),
{
    if s.len() > 0 {
        if s[0].0 == k {
            assert(assoc_insert(s, k, v) =~= seq![(k, v)] + s.drop_first());
            assert(s[0] == (k, v));
            assert(seq![(k, v)] + s.drop_first() =~= s);
        } else {
            lemma_insert_same_value(s.drop_first(), k, v);
            assert(assoc_insert(s, k, v) =~= seq![s[0]] + assoc_insert(s.drop_first(), k, v));
            assert(seq![s[0]] + s.drop_first() =~= s);
        }
    }
}

/// Removing an absent key is a no-op.
pub proof fn lemma_remove_absent<K, V>(s: Seq<(K, V)>, k: K)
    requires
        !assoc_contains(s, k),
    ensures
        assoc_remove(s, k) =~= s,
    decreases s.len(),
{
    if s.len() > 0 {
        assert(s[0].0 != k);
        assert(!assoc_contains(s.drop_first(), k)) by {
            if assoc_contains(s.drop_first(), k) {
                let i = choose|i: int| 0 <= i < s.drop_first().len() && s.drop_first()[i].0 == k;
                assert(s[i + 1].0 == k);
            }
        }
        lemma_remove_absent(s.drop_first(), k);
        assert(assoc_remove(s, k) =~= seq![s[0]] + s.drop_first());
        assert(seq![s[0]] + s.drop_first() =~= s);
    }
}

} // verus!
