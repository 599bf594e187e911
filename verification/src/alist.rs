//! Association lists: sequences of key-value pairs with distinct keys, the
//! mapping structure behind the buffer pool's page table and its
//! per-container page counters.

use vstd::prelude::*;

verus! {

/// The value bound to `k`: that of the first pair holding `k`.
pub open spec fn alookup<K, V>(s: Seq<(K, V)>, k: K) -> Option<V>
    decreases s.len(),
{
    if s.len() == 0 {
        None
    } else if s[0].0 == k {
        Some(s[0].1)
    } else {
        alookup(s.drop_first(), k)
    }
}

/// No two pairs bind the same key.
pub open spec fn keys_distinct<K, V>(s: Seq<(K, V)>) -> bool {
    forall|i: int, j: int| 0 <= i < j < s.len() ==> (#[trigger] s[i]).0 != (#[trigger] s[j]).0
}

/// A key found at index `i`, with no earlier pair binding it, is what the
/// lookup returns.
pub proof fn lemma_alookup_index<K, V>(s: Seq<(K, V)>, k: K, i: int)
    requires
        0 <= i < s.len(),
        s[i].0 == k,
        forall|j: int| 0 <= j < i ==> (#[trigger] s[j]).0 != k,
    ensures
        alookup(s, k) == Some(s[i].1),
    decreases s.len(),
{
    if i == 0 {
    } else {
        assert(s[0].0 != k);
        assert forall|j: int| 0 <= j < i - 1 implies (#[trigger] s.drop_first()[j]).0 != k by {
            assert(s.drop_first()[j] == s[j + 1]);
        }
        assert(s.drop_first()[i - 1] == s[i]);
        lemma_alookup_index(s.drop_first(), k, i - 1);
    }
}

/// A key no pair binds is not found.
pub proof fn lemma_alookup_not_found<K, V>(s: Seq<(K, V)>, k: K)
    requires
        forall|j: int| 0 <= j < s.len() ==> (#[trigger] s[j]).0 != k,
    ensures
        alookup(s, k) is None,
    decreases s.len(),
{
    if s.len() > 0 {
        assert forall|j: int| 0 <= j < s.len() - 1 implies (#[trigger] s.drop_first()[j]).0 != k by {
            assert(s.drop_first()[j] == s[j + 1]);
        }
        lemma_alookup_not_found(s.drop_first(), k);
    }
}

/// A found key is bound by some pair of the list.
pub proof fn lemma_alookup_witness<K, V>(s: Seq<(K, V)>, k: K)
    requires
        alookup(s, k) is Some,
    ensures
        exists|i: int|
            0 <= i < s.len() && (#[trigger] s[i]).0 == k && s[i].1 == alookup(s, k).unwrap(),
    decreases s.len(),
{
    if s[0].0 == k {
        assert(s[0].0 == k && s[0].1 == alookup(s, k).unwrap());
    } else {
        lemma_alookup_witness(s.drop_first(), k);
        let i = choose|i: int|
            0 <= i < s.drop_first().len() && (#[trigger] s.drop_first()[i]).0 == k
                && s.drop_first()[i].1 == alookup(s.drop_first(), k).unwrap();
        assert(s[i + 1] == s.drop_first()[i]);
        assert(s[i + 1].0 == k && s[i + 1].1 == alookup(s, k).unwrap());
    }
}

/// Appending a pair binds its key only where the key was absent, and leaves
/// every other key's binding as it was.
pub proof fn lemma_alookup_push<K, V>(s: Seq<(K, V)>, k: K, v: V, k2: K)
    ensures
        alookup(s.push((k, v)), k2) == (if alookup(s, k2) is Some {
            alookup(s, k2)
        } else if k2 == k {
            Some(v)
        } else {
            None::<V>
        }),
    decreases s.len(),
{
    if s.len() == 0 {
        assert(s.push((k, v))[0] == (k, v));
        assert(s.push((k, v)).len() == 1);
        if k2 == k {
            assert(alookup(s.push((k, v)), k2) == Some(v));
        } else {
            assert(s.push((k, v)).drop_first() =~= Seq::<(K, V)>::empty());
            assert(alookup(s.push((k, v)), k2) == alookup(Seq::<(K, V)>::empty(), k2));
        }
    } else {
        assert(s.push((k, v))[0] == s[0]);
        if s[0].0 == k2 {
            assert(alookup(s.push((k, v)), k2) == Some(s[0].1));
            assert(alookup(s, k2) == Some(s[0].1));
        } else {
            assert(s.push((k, v)).drop_first() =~= s.drop_first().push((k, v)));
            lemma_alookup_push(s.drop_first(), k, v, k2);
            assert(alookup(s, k2) == alookup(s.drop_first(), k2));
            assert(alookup(s.push((k, v)), k2) == alookup(s.drop_first().push((k, v)), k2));
        }
    }
}

/// Rebinding the pair that holds `k` changes only `k`'s binding.
pub proof fn lemma_alookup_update<K, V>(s: Seq<(K, V)>, i: int, k: K, v: V, k2: K)
    requires
        keys_distinct(s),
        0 <= i < s.len(),
        s[i].0 == k,
    ensures
        alookup(s.update(i, (k, v)), k2) == (if k2 == k {
            Some(v)
        } else {
            alookup(s, k2)
        }),
    decreases s.len(),
{
    if i == 0 {
        assert(s.update(i, (k, v))[0] == (k, v));
        if k2 != k {
            assert(s.update(i, (k, v)).drop_first() =~= s.drop_first());
        }
    } else {
        assert(s.update(i, (k, v))[0] == s[0]);
        assert(s[0].0 != k);
        assert(s.update(i, (k, v)).drop_first() =~= s.drop_first().update(i - 1, (k, v)));
        assert forall|a: int, b: int|
            0 <= a < b < s.drop_first().len() implies (#[trigger] s.drop_first()[a]).0 != (
        #[trigger] s.drop_first()[b]).0 by {
            assert(s.drop_first()[a] == s[a + 1]);
            assert(s.drop_first()[b] == s[b + 1]);
        }
        assert(s.drop_first()[i - 1] == s[i]);
        lemma_alookup_update(s.drop_first(), i - 1, k, v, k2);
        if s[0].0 == k2 {
        }
    }
}

/// Removing the pair that holds `k` unbinds `k` and nothing else.
pub proof fn lemma_alookup_remove<K, V>(s: Seq<(K, V)>, i: int, k2: K)
    requires
        keys_distinct(s),
        0 <= i < s.len(),
    ensures
        alookup(s.remove(i), k2) == (if k2 == s[i].0 {
            None::<V>
        } else {
            alookup(s, k2)
        }),
    decreases s.len(),
{
    if k2 == s[i].0 {
        assert forall|j: int| 0 <= j < s.remove(i).len() implies (#[trigger] s.remove(i)[j]).0
            != k2 by {
            if j < i {
                assert(s.remove(i)[j] == s[j]);
            } else {
                assert(s.remove(i)[j] == s[j + 1]);
            }
        }
        lemma_alookup_not_found(s.remove(i), k2);
    } else {
        match alookup(s, k2) {
            Some(v) => {
                lemma_alookup_witness(s, k2);
                let w = choose|w: int|
                    0 <= w < s.len() && (#[trigger] s[w]).0 == k2 && s[w].1 == alookup(
                        s,
                        k2,
                    ).unwrap();
                // the witness survives the removal, shifted when behind it
                let w2 = if w < i {
                    w
                } else {
                    w - 1
                };
                assert(s.remove(i)[w2] == s[w]);
                assert forall|j: int| 0 <= j < w2 implies (#[trigger] s.remove(i)[j]).0 != k2 by {
                    let jo = if j < i {
                        j
                    } else {
                        j + 1
                    };
                    assert(s.remove(i)[j] == s[jo]);
                    if s[jo].0 == k2 {
                        // two distinct pairs binding the same key
                        assert(jo != w);
                        if jo < w {
                            assert(s[jo].0 != s[w].0);
                        } else {
                            assert(s[w].0 != s[jo].0);
                        }
                    }
                }
                lemma_alookup_index(s.remove(i), k2, w2);
            },
            None => {
                assert forall|j: int| 0 <= j < s.len() implies (#[trigger] s[j]).0 != k2 by {
                    if s[j].0 == k2 {
                        lemma_alookup_index_found(s, k2, j);
                    }
                }
                assert forall|j: int| 0 <= j < s.remove(i).len() implies (#[trigger] s.remove(
                    i,
                )[j]).0 != k2 by {
                    if j < i {
                        assert(s.remove(i)[j] == s[j]);
                    } else {
                        assert(s.remove(i)[j] == s[j + 1]);
                    }
                }
                lemma_alookup_not_found(s.remove(i), k2);
            },
        }
    }
}

/// A key bound by some pair is found.
pub proof fn lemma_alookup_index_found<K, V>(s: Seq<(K, V)>, k: K, i: int)
    requires
        0 <= i < s.len(),
        s[i].0 == k,
    ensures
        alookup(s, k) is Some,
    decreases s.len(),
{
    if i == 0 {
    } else if s[0].0 == k {
    } else {
        assert(s.drop_first()[i - 1] == s[i]);
        lemma_alookup_index_found(s.drop_first(), k, i - 1);
    }
}

} // verus!
