//! Lists of key/value entries used as maps: a later insertion under a key already present
//! replaces its value, as `HashMap::insert` does.
use vstd::prelude::*;

verus! {

/// The value of the first entry with key `k`.
pub open spec fn lookup<K, V>(entries: Seq<(K, V)>, k: K) -> Option<V>
    decreases entries.len(),
{
    if entries.len() == 0 {
        None
    } else if entries[0].0 == k {
        Some(entries[0].1)
    } else {
        lookup(entries.drop_first(), k)
    }
}

/// No key occurs twice.
pub open spec fn keys_distinct<K, V>(entries: Seq<(K, V)>) -> bool {
    forall|i: int, j: int| 0 <= i < j < entries.len() ==> entries[i].0 != entries[j].0
}

/// The entry at `i` is what `lookup` finds for its key, when keys are distinct.
pub proof fn lemma_lookup_at<K, V>(entries: Seq<(K, V)>, i: int)
    requires
        keys_distinct(entries),
        0 <= i < entries.len(),
    ensures
        lookup(entries, entries[i].0) == Some(entries[i].1),
    decreases entries.len(),
{
    if i > 0 {
        let rest = entries.drop_first();
        assert(keys_distinct(rest)) by {
            assert forall|a: int, b: int| 0 <= a < b < rest.len() implies rest[a].0 != rest[b].0 by {
                assert(rest[a] == entries[a + 1] && rest[b] == entries[b + 1]);
            }
        }
        assert(rest[i - 1] == entries[i]);
        lemma_lookup_at(rest, i - 1);
    }
}

/// `lookup` finds nothing for a key that no entry has.
pub proof fn lemma_lookup_absent<K, V>(entries: Seq<(K, V)>, k: K)
    requires
        forall|i: int| 0 <= i < entries.len() ==> entries[i].0 != k,
    ensures
        lookup(entries, k) is None,
    decreases entries.len(),
{
    if entries.len() > 0 {
        let rest = entries.drop_first();
        assert forall|i: int| 0 <= i < rest.len() implies rest[i].0 != k by {
            assert(rest[i] == entries[i + 1]);
        }
        lemma_lookup_absent(rest, k);
    }
}

/// `lookup` finds something only for a key that some entry has.
pub proof fn lemma_lookup_present<K, V>(entries: Seq<(K, V)>, k: K)
    requires
        lookup(entries, k) is Some,
    ensures
        exists|i: int| 0 <= i < entries.len() && entries[i].0 == k && entries[i].1 == lookup(entries, k)->0,
    decreases entries.len(),
{
    if entries[0].0 != k {
        let rest = entries.drop_first();
        lemma_lookup_present(rest, k);
        let i = choose|i: int| 0 <= i < rest.len() && rest[i].0 == k && rest[i].1 == lookup(rest, k)->0;
        assert(entries[i + 1] == rest[i]);
    }
}

/// After replacing the value of the entry at `i`, the map holds the new value under that key
/// and is unchanged elsewhere.
pub proof fn lemma_lookup_update<K, V>(entries: Seq<(K, V)>, i: int, v: V)
    requires
        keys_distinct(entries),
        0 <= i < entries.len(),
    ensures
        keys_distinct(entries.update(i, (entries[i].0, v))),
        forall|k: K| #[trigger] lookup(entries.update(i, (entries[i].0, v)), k) == if k == entries[i].0 {
            Some(v)
        } else {
            lookup(entries, k)
        },
{
    let e2 = entries.update(i, (entries[i].0, v));
    assert forall|a: int, b: int| 0 <= a < b < e2.len() implies e2[a].0 != e2[b].0 by {}
    assert forall|k: K| #[trigger] lookup(e2, k) == if k == entries[i].0 {
        Some(v)
    } else {
        lookup(entries, k)
    } by {
        if k == entries[i].0 {
            lemma_lookup_at(e2, i);
        } else {
            lemma_same_lookup_except(entries, e2, k);
        }
    }
}

/// Two lists with the same keys in the same places, and the same values at every entry with
/// key `k`, give `k` the same value.
proof fn lemma_same_lookup_except<K, V>(a: Seq<(K, V)>, b: Seq<(K, V)>, k: K)
    requires
        a.len() == b.len(),
        forall|i: int| 0 <= i < a.len() ==> a[i].0 == b[i].0,
        forall|i: int| 0 <= i < a.len() && a[i].0 == k ==> a[i].1 == b[i].1,
    ensures
        lookup(a, k) == lookup(b, k),
    decreases a.len(),
{
    if a.len() > 0 {
        let ra = a.drop_first();
        let rb = b.drop_first();
        assert forall|i: int| 0 <= i < ra.len() implies ra[i].0 == rb[i].0 by {
            assert(ra[i] == a[i + 1] && rb[i] == b[i + 1]);
        }
        assert forall|i: int| 0 <= i < ra.len() && ra[i].0 == k implies ra[i].1 == rb[i].1 by {
            assert(ra[i] == a[i + 1] && rb[i] == b[i + 1]);
        }
        lemma_same_lookup_except(ra, rb, k);
    }
}

/// Appending an entry under a new key adds it and leaves every other key as it was.
pub proof fn lemma_lookup_push<K, V>(entries: Seq<(K, V)>, k: K, v: V)
    requires
        keys_distinct(entries),
        lookup(entries, k) is None,
    ensures
        keys_distinct(entries.push((k, v))),
        forall|q: K| #[trigger] lookup(entries.push((k, v)), q) == if q == k {
            Some(v)
        } else {
            lookup(entries, q)
        },
{
    let e2 = entries.push((k, v));
    assert forall|i: int| 0 <= i < entries.len() implies entries[i].0 != k by {
        if entries[i].0 == k {
            lemma_lookup_at(entries, i);
        }
    }
    assert forall|a: int, b: int| 0 <= a < b < e2.len() implies e2[a].0 != e2[b].0 by {}
    assert forall|q: K| #[trigger] lookup(e2, q) == if q == k {
        Some(v)
    } else {
        lookup(entries, q)
    } by {
        if q == k {
            lemma_lookup_at(e2, entries.len() as int);
        } else {
            lemma_lookup_push_other(entries, k, v, q);
        }
    }
}

proof fn lemma_lookup_push_other<K, V>(entries: Seq<(K, V)>, k: K, v: V, q: K)
    requires
        q != k,
    ensures
        lookup(entries.push((k, v)), q) == lookup(entries, q),
    decreases entries.len(),
{
    if entries.len() > 0 {
        assert(entries.push((k, v))[0] == entries[0]);
        assert(entries.push((k, v)).drop_first() =~= entries.drop_first().push((k, v)));
        lemma_lookup_push_other(entries.drop_first(), k, v, q);
    } else {
        let e2 = entries.push((k, v));
        assert(e2[0] == (k, v));
        assert(e2.drop_first() =~= Seq::<(K, V)>::empty());
        assert(lookup(e2, q) == lookup(e2.drop_first(), q));
        assert(lookup(Seq::<(K, V)>::empty(), q) is None);
    }
}

/// `lookup` finds the entry at `i` when no earlier entry has its key.
pub proof fn lemma_lookup_first<K, V>(entries: Seq<(K, V)>, i: int)
    requires
        0 <= i < entries.len(),
        forall|j: int| 0 <= j < i ==> (#[trigger] entries[j]).0 != entries[i].0,
    ensures
        lookup(entries, entries[i].0) == Some(entries[i].1),
    decreases i,
{
    if i > 0 {
        let rest = entries.drop_first();
        assert(rest[i - 1] == entries[i]);
        assert forall|j: int| 0 <= j < i - 1 implies (#[trigger] rest[j]).0 != rest[i - 1].0 by {
            assert(rest[j] == entries[j + 1]);
        }
        assert(entries[0].0 != entries[i].0);
        lemma_lookup_first(rest, i - 1);
    }
}

/// Removing the entry at `i` drops its key and leaves every other key as it was.
pub proof fn lemma_lookup_remove<K, V>(entries: Seq<(K, V)>, i: int)
    requires
        keys_distinct(entries),
        0 <= i < entries.len(),
    ensures
        keys_distinct(entries.remove(i)),
        forall|k: K| #[trigger] lookup(entries.remove(i), k) == if k == entries[i].0 {
            None
        } else {
            lookup(entries, k)
        },
{
    let e2 = entries.remove(i);
    assert forall|a: int, b: int| 0 <= a < b < e2.len() implies e2[a].0 != e2[b].0 by {
        let a0 = if a < i { a } else { a + 1 };
        let b0 = if b < i { b } else { b + 1 };
        assert(e2[a] == entries[a0] && e2[b] == entries[b0]);
    }
    assert forall|k: K| #[trigger] lookup(e2, k) == if k == entries[i].0 {
        None
    } else {
        lookup(entries, k)
    } by {
        if k == entries[i].0 {
            assert forall|j: int| 0 <= j < e2.len() implies e2[j].0 != k by {
                let j0 = if j < i { j } else { j + 1 };
                assert(e2[j] == entries[j0]);
            }
            lemma_lookup_absent(e2, k);
        } else {
            match lookup(entries, k) {
                Some(v) => {
                    lemma_lookup_present(entries, k);
                    let j = choose|j: int| 0 <= j < entries.len() && entries[j].0 == k && entries[j].1 == lookup(entries, k)->0;
                    let j2 = if j < i { j } else { j - 1 };
                    assert(e2[j2] == entries[j]);
                    lemma_lookup_at(e2, j2);
                },
                None => {
                    assert forall|j: int| 0 <= j < e2.len() implies e2[j].0 != k by {
                        let j0 = if j < i { j } else { j + 1 };
                        assert(e2[j] == entries[j0]);
                        if entries[j0].0 == k {
                            lemma_lookup_at(entries, j0);
                        }
                    }
                    lemma_lookup_absent(e2, k);
                },
            }
        }
    }
}

/// `lookup` finds something for a key that some entry has.
pub proof fn lemma_lookup_has<K, V>(entries: Seq<(K, V)>, j: int)
    requires
        0 <= j < entries.len(),
    ensures
        lookup(entries, entries[j].0) is Some,
    decreases j,
{
    if j > 0 && entries[0].0 != entries[j].0 {
        assert(entries.drop_first()[j - 1] == entries[j]);
        lemma_lookup_has(entries.drop_first(), j - 1);
    }
}

} // verus!
