//! Association sequences: the model behind every keyed store of this crate.
//! Lookup is first-match; stores that remove entries keep their keys unique.

use vstd::prelude::*;

verus! {

/// The value bound to `key`: the first entry of `s` whose key matches.
pub open spec fn assoc_find<K, V>(s: Seq<(K, V)>, key: K) -> Option<V>
    decreases s.len(),
{
    if s.len() == 0 {
        None
    } else if s.first().0 == key {
        Some(s.first().1)
    } else {
        assoc_find(s.drop_first(), key)
    }
}

/// Whether `s` binds `key`.
pub open spec fn assoc_contains<K, V>(s: Seq<(K, V)>, key: K) -> bool {
    assoc_find(s, key) is Some
}

/// Whether the keys of `s` are pairwise distinct.
pub open spec fn assoc_unique<K, V>(s: Seq<(K, V)>) -> bool {
    forall|i: int, j: int| 0 <= i < j < s.len() ==> s[i].0 != s[j].0
}

/// `key` is unbound exactly when no entry carries it.
pub proof fn lemma_assoc_find_none<K, V>(s: Seq<(K, V)>, key: K)
    ensures
        (assoc_find(s, key) is None) <==> (forall|i: int| 0 <= i < s.len() ==> s[i].0 != key),
    decreases s.len(),
{
    if s.len() > 0 {
        lemma_assoc_find_none(s.drop_first(), key);
        assert(forall|i: int|
            0 <= i < s.drop_first().len() ==> s.drop_first()[i] == s[i + 1]);
        if s.first().0 != key && (assoc_find(s.drop_first(), key) is None) {
            assert forall|i: int| 0 <= i < s.len() implies s[i].0 != key by {
                if i > 0 {
                    assert(s.drop_first()[i - 1] == s[i]);
                }
            }
        }
    }
}

/// A bound value sits at some entry.
pub proof fn lemma_assoc_find_some_index<K, V>(s: Seq<(K, V)>, key: K)
    requires
        assoc_find(s, key) is Some,
    ensures
        exists|i: int|
            0 <= i < s.len() && #[trigger] s[i].0 == key && s[i].1 == assoc_find(s, key)->0,
    decreases s.len(),
{
    if s.first().0 == key {
        assert(s[0].0 == key && s[0].1 == assoc_find(s, key)->0);
    } else {
        lemma_assoc_find_some_index(s.drop_first(), key);
        let i = choose|i: int|
            0 <= i < s.drop_first().len() && #[trigger] s.drop_first()[i].0 == key
                && s.drop_first()[i].1 == assoc_find(s.drop_first(), key)->0;
        assert(s[i + 1] == s.drop_first()[i]);
        assert(s[i + 1].0 == key && s[i + 1].1 == assoc_find(s, key)->0);
    }
}

/// Lookup skips a prefix that does not carry the key.
pub proof fn lemma_assoc_find_skip<K, V>(s: Seq<(K, V)>, key: K, n: int)
    requires
        0 <= n <= s.len(),
        forall|i: int| 0 <= i < n ==> s[i].0 != key,
    ensures
        assoc_find(s, key) == assoc_find(s.skip(n), key),
    decreases n,
{
    if n > 0 {
        assert(s.drop_first() =~= s.skip(1));
        assert(forall|i: int|
            0 <= i < n - 1 ==> s.skip(1)[i] == s[i + 1]);
        lemma_assoc_find_skip(s.skip(1), key, n - 1);
        assert(s.skip(1).skip(n - 1) =~= s.skip(n));
    } else {
        assert(s.skip(0) =~= s);
    }
}

/// Appending a fresh binding: the new key is bound to the new value and
/// every other key keeps its binding.
pub proof fn lemma_assoc_find_push<K, V>(s: Seq<(K, V)>, key: K, value: V, other: K)
    ensures
        assoc_find(s, other) is Some ==> assoc_find(s.push((key, value)), other) == assoc_find(
            s,
            other,
        ),
        assoc_find(s, other) is None && other == key ==> assoc_find(s.push((key, value)), other)
            == Some(value),
        assoc_find(s, other) is None && other != key ==> assoc_find(s.push((key, value)), other)
            is None,
    decreases s.len(),
{
    if s.len() == 0 {
        assert(s.push((key, value)).first() == (key, value));
        assert(s.push((key, value)).drop_first() =~= Seq::<(K, V)>::empty());
        assert(assoc_find(Seq::<(K, V)>::empty(), other) is None);
    } else {
        assert(s.push((key, value)).first() == s.first());
        assert(s.push((key, value)).drop_first() =~= s.drop_first().push((key, value)));
        lemma_assoc_find_push(s.drop_first(), key, value, other);
        if s.first().0 == other {
            assert(assoc_find(s, other) == Some(s.first().1));
        } else {
            assert(assoc_find(s, other) == assoc_find(s.drop_first(), other));
            assert(assoc_find(s.push((key, value)), other) == assoc_find(
                s.drop_first().push((key, value)),
                other,
            ));
        }
    }
}

/// Overwriting the value at the first entry that carries `key`: that key is
/// rebound and every other key keeps its binding.
pub proof fn lemma_assoc_find_update<K, V>(s: Seq<(K, V)>, n: int, value: V, other: K)
    requires
        0 <= n < s.len(),
        forall|i: int| 0 <= i < n ==> s[i].0 != s[n].0,
    ensures
        assoc_find(s.update(n, (s[n].0, value)), s[n].0) == Some(value),
        other != s[n].0 ==> assoc_find(s.update(n, (s[n].0, value)), other) == assoc_find(s, other),
    decreases n,
{
    let t = s.update(n, (s[n].0, value));
    if n == 0 {
        assert(t.first() == (s[0].0, value));
        if other != s[n].0 {
            if s.first().0 == other {
            } else {
                assert(t.drop_first() =~= s.drop_first());
            }
        }
    } else {
        assert(t.first() == s.first());
        assert(t.drop_first() =~= s.drop_first().update(n - 1, (s[n].0, value)));
        assert(forall|i: int| 0 <= i < n - 1 ==> s.drop_first()[i] == s[i + 1]);
        assert(s.drop_first()[n - 1] == s[n]);
        lemma_assoc_find_update(s.drop_first(), n - 1, value, other);
    }
}

/// With distinct keys, a binding pins the entry: any entry carrying the key
/// carries the bound value.
pub proof fn lemma_assoc_unique_at<K, V>(s: Seq<(K, V)>, n: int)
    requires
        assoc_unique(s),
        0 <= n < s.len(),
    ensures
        assoc_find(s, s[n].0) == Some(s[n].1),
    decreases n,
{
    if n == 0 {
    } else {
        assert(s.first().0 != s[n].0);
        assert(forall|i: int, j: int|
            0 <= i < j < s.drop_first().len() ==> s.drop_first()[i] == s[i + 1]
                && s.drop_first()[j] == s[j + 1]);
        assert(assoc_unique(s.drop_first()));
        assert(s.drop_first()[n - 1] == s[n]);
        lemma_assoc_unique_at(s.drop_first(), n - 1);
    }
}

} // verus!
