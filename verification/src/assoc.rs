//! Association sequences: the mathematical model shared by every keyed
//! store in the crate.  A store is a sequence of `(key, value)` pairs;
//! `assoc_get` is its reading as a partial map.

use vstd::prelude::*;

verus! {

/// The value of the first pair in `s` whose key is `k`, if any.
pub open spec fn assoc_get<K, V>(s: Seq<(K, V)>, k: K) -> Option<V>
    decreases s.len(),
{
    if s.len() == 0 {
        None
    } else if s[0].0 == k {
        Some(s[0].1)
    } else {
        assoc_get(s.drop_first(), k)
    }
}

/// No two pairs of `s` share a key.
pub open spec fn unique_keys<K, V>(s: Seq<(K, V)>) -> bool {
    forall|i: int, j: int| 0 <= i < j < s.len() ==> s[i].0 != s[j].0
}

pub proof fn lemma_unique_drop_first<K, V>(s: Seq<(K, V)>)
    requires
        s.len() > 0,
        unique_keys(s),
    ensures
        unique_keys(s.drop_first()),
{
    assert forall|i: int, j: int| 0 <= i < j < s.drop_first().len() implies s.drop_first()[i].0
        != s.drop_first()[j].0 by {
        assert(s.drop_first()[i] == s[i + 1]);
        assert(s.drop_first()[j] == s[j + 1]);
    }
}

/// A pair whose key does not recur earlier in `s` is the one `assoc_get` finds.
pub proof fn lemma_assoc_get_first<K, V>(s: Seq<(K, V)>, i: int)
    requires
        0 <= i < s.len(),
        forall|j: int| 0 <= j < i ==> s[j].0 != s[i].0,
    ensures
        assoc_get(s, s[i].0) == Some(s[i].1),
    decreases s.len(),
{
    if i > 0 {
        assert forall|j: int| 0 <= j < i - 1 implies (#[trigger] s.drop_first()[j]).0
            != s.drop_first()[i - 1].0 by {
            assert(s.drop_first()[j] == s[j + 1]);
            assert(s.drop_first()[i - 1] == s[i]);
        }
        assert(s.drop_first()[i - 1] == s[i]);
        lemma_assoc_get_first(s.drop_first(), i - 1);
    }
}

/// A key held by no pair of `s` is absent from the map reading.
pub proof fn lemma_assoc_get_absent<K, V>(s: Seq<(K, V)>, k: K)
    requires
        forall|i: int| 0 <= i < s.len() ==> s[i].0 != k,
    ensures
        assoc_get(s, k) is None,
    decreases s.len(),
{
    if s.len() > 0 {
        assert forall|i: int| 0 <= i < s.drop_first().len() implies s.drop_first()[i].0 != k by {
            assert(s.drop_first()[i] == s[i + 1]);
        }
        lemma_assoc_get_absent(s.drop_first(), k);
    }
}

/// A present map reading comes from a pair at some index.
pub proof fn lemma_assoc_get_some_index<K, V>(s: Seq<(K, V)>, k: K)
    requires
        assoc_get(s, k) is Some,
    ensures
        exists|i: int| 0 <= i < s.len() && #[trigger] s[i] == (k, assoc_get(s, k)->0),
    decreases s.len(),
{
    if s[0].0 == k {
        assert(s[0] == (k, assoc_get(s, k)->0));
    } else {
        lemma_assoc_get_some_index(s.drop_first(), k);
        let i = choose|i: int|
            0 <= i < s.drop_first().len() && #[trigger] s.drop_first()[i] == (
            k,
            assoc_get(s.drop_first(), k)->0,
            );
        assert(s[i + 1] == s.drop_first()[i]);
    }
}

/// An absent map reading means no pair of `s` holds the key.
pub proof fn lemma_assoc_get_none_implies_absent<K, V>(s: Seq<(K, V)>, k: K)
    requires
        assoc_get(s, k) is None,
    ensures
        forall|i: int| 0 <= i < s.len() ==> s[i].0 != k,
    decreases s.len(),
{
    if s.len() > 0 {
        lemma_assoc_get_none_implies_absent(s.drop_first(), k);
        assert forall|i: int| 0 <= i < s.len() implies s[i].0 != k by {
            if i > 0 {
                assert(s.drop_first()[i - 1] == s[i]);
            }
        }
    }
}

/// Replacing the value at index `i` (key kept) rewrites that key's reading
/// and no other.
pub proof fn lemma_assoc_get_update<K, V>(s: Seq<(K, V)>, i: int, v: (K, V))
    requires
        unique_keys(s),
        0 <= i < s.len(),
        s[i].0 == v.0,
    ensures
        unique_keys(s.update(i, v)),
        forall|k: K| #[trigger] assoc_get(s.update(i, v), k) == if k == v.0 {
            Some(v.1)
        } else {
            assoc_get(s, k)
        },
    decreases s.len(),
{
    let t = s.update(i, v);
    assert forall|x: int, y: int| 0 <= x < y < t.len() implies t[x].0 != t[y].0 by {
        assert(t[x].0 == s[x].0);
        assert(t[y].0 == s[y].0);
    }
    if i == 0 {
        assert forall|k: K| #[trigger] assoc_get(t, k) == if k == v.0 {
            Some(v.1)
        } else {
            assoc_get(s, k)
        } by {
            assert(t[0] == v);
            assert(t.drop_first() =~= s.drop_first());
            if k == v.0 {
                assert(assoc_get(t, k) == Some(t[0].1));
            } else {
                assert(assoc_get(t, k) == assoc_get(t.drop_first(), k));
                assert(assoc_get(s, k) == assoc_get(s.drop_first(), k));
            }
        }
    } else {
        lemma_unique_drop_first(s);
        assert(s.drop_first()[i - 1] == s[i]);
        lemma_assoc_get_update(s.drop_first(), i - 1, v);
        assert forall|k: K| #[trigger] assoc_get(t, k) == if k == v.0 {
            Some(v.1)
        } else {
            assoc_get(s, k)
        } by {
            assert(t[0] == s[0]);
            assert(t.drop_first() =~= s.drop_first().update(i - 1, v));
            if s[0].0 == k {
                assert(s[i].0 != s[0].0);
                assert(assoc_get(t, k) == Some(t[0].1));
                assert(assoc_get(s, k) == Some(s[0].1));
            } else {
                assert(assoc_get(t, k) == assoc_get(s.drop_first().update(i - 1, v), k));
                assert(assoc_get(s, k) == assoc_get(s.drop_first(), k));
            }
        }
    }
}

/// Appending a pair with a fresh key adds exactly that key's reading.
pub proof fn lemma_assoc_get_push<K, V>(s: Seq<(K, V)>, v: (K, V))
    requires
        unique_keys(s),
        assoc_get(s, v.0) is None,
    ensures
        unique_keys(s.push(v)),
        forall|k: K| #[trigger] assoc_get(s.push(v), k) == if k == v.0 {
            Some(v.1)
        } else {
            assoc_get(s, k)
        },
    decreases s.len(),
{
    let t = s.push(v);
    lemma_assoc_get_none_implies_absent(s, v.0);
    assert forall|x: int, y: int| 0 <= x < y < t.len() implies t[x].0 != t[y].0 by {
        if y < s.len() {
            assert(t[x] == s[x]);
            assert(t[y] == s[y]);
        } else {
            assert(t[x] == s[x]);
            assert(t[y] == v);
        }
    }
    if s.len() == 0 {
        assert forall|k: K| #[trigger] assoc_get(t, k) == if k == v.0 {
            Some(v.1)
        } else {
            assoc_get(s, k)
        } by {
            assert(t[0] == v);
            assert(t.drop_first() =~= Seq::<(K, V)>::empty());
            if k == v.0 {
                assert(assoc_get(t, k) == Some(t[0].1));
            } else {
                assert(assoc_get(t, k) == assoc_get(t.drop_first(), k));
                assert(assoc_get(t.drop_first(), k) is None);
            }
        }
    } else {
        lemma_unique_drop_first(s);
        lemma_assoc_get_push(s.drop_first(), v);
        assert forall|k: K| #[trigger] assoc_get(t, k) == if k == v.0 {
            Some(v.1)
        } else {
            assoc_get(s, k)
        } by {
            assert(t[0] == s[0]);
            assert(t.drop_first() =~= s.drop_first().push(v));
            if s[0].0 == k {
                assert(assoc_get(t, k) == Some(t[0].1));
                assert(assoc_get(s, k) == Some(s[0].1));
            } else {
                assert(assoc_get(t, k) == assoc_get(s.drop_first().push(v), k));
                assert(assoc_get(s, k) == assoc_get(s.drop_first(), k));
            }
        }
    }
}

/// Removing the pair at index `i` erases exactly that key's reading.
pub proof fn lemma_assoc_get_remove<K, V>(s: Seq<(K, V)>, i: int)
    requires
        unique_keys(s),
        0 <= i < s.len(),
    ensures
        unique_keys(s.remove(i)),
        forall|k: K| #[trigger] assoc_get(s.remove(i), k) == if k == s[i].0 {
            None::<V>
        } else {
            assoc_get(s, k)
        },
    decreases s.len(),
{
    let t = s.remove(i);
    assert forall|x: int, y: int| 0 <= x < y < t.len() implies t[x].0 != t[y].0 by {
        let x0 = if x < i { x } else { x + 1 };
        let y0 = if y < i { y } else { y + 1 };
        assert(t[x] == s[x0]);
        assert(t[y] == s[y0]);
    }
    if i == 0 {
        assert(t =~= s.drop_first());
        assert forall|k: K| #[trigger] assoc_get(t, k) == if k == s[0].0 {
            None::<V>
        } else {
            assoc_get(s, k)
        } by {
            if k == s[0].0 {
                assert forall|j: int| 0 <= j < t.len() implies (#[trigger] t[j]).0 != k by {
                    assert(t[j] == s[j + 1]);
                }
                lemma_assoc_get_absent(t, k);
            } else {
                assert(assoc_get(s, k) == assoc_get(s.drop_first(), k));
            }
        }
    } else {
        lemma_unique_drop_first(s);
        assert(s.drop_first()[i - 1] == s[i]);
        lemma_assoc_get_remove(s.drop_first(), i - 1);
        assert forall|k: K| #[trigger] assoc_get(t, k) == if k == s[i].0 {
            None::<V>
        } else {
            assoc_get(s, k)
        } by {
            assert(t[0] == s[0]);
            assert(t.drop_first() =~= s.drop_first().remove(i - 1));
            if s[0].0 == k {
                assert(s[i].0 != s[0].0);
                assert(assoc_get(t, k) == Some(t[0].1));
                assert(assoc_get(s, k) == Some(s[0].1));
            } else {
                assert(assoc_get(t, k) == assoc_get(s.drop_first().remove(i - 1), k));
                assert(assoc_get(s, k) == assoc_get(s.drop_first(), k));
            }
        }
    }
}

} // verus!
