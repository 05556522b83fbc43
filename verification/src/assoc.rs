//! Lists of key-value pairs, read as maps.
//!
//! The shared state keeps its maps as lists in which no key occurs twice.
//! This module says which map such a list is, and what pushing, replacing
//! and removing an entry does to that map.

use vstd::prelude::*;

verus! {

/// Whether some entry of the list has the key.
pub open spec fn has_key<K, V>(s: Seq<(K, V)>, k: K) -> bool {
    exists|i: int| 0 <= i < s.len() && (#[trigger] s[i]).0 == k
}

/// The place of an entry with the key, where there is one.
pub open spec fn index_of_key<K, V>(s: Seq<(K, V)>, k: K) -> int {
    choose|i: int| 0 <= i < s.len() && (#[trigger] s[i]).0 == k
}

/// No key occurs in two entries.
pub open spec fn distinct_keys<K, V>(s: Seq<(K, V)>) -> bool {
    forall|i: int, j: int| 0 <= i < j < s.len() ==> (#[trigger] s[i]).0 != (#[trigger] s[j]).0
}

/// The map that the list spells.
pub open spec fn as_map<K, V>(s: Seq<(K, V)>) -> Map<K, V> {
    Map::new(|k: K| has_key(s, k), |k: K| s[index_of_key(s, k)].1)
}

/// An entry of the list is an entry of the map.
pub proof fn lemma_entry<K, V>(s: Seq<(K, V)>, i: int)
    requires
        distinct_keys(s),
        0 <= i < s.len(),
    ensures
        as_map(s).contains_key(s[i].0),
        as_map(s)[s[i].0] == s[i].1,
        index_of_key(s, s[i].0) == i,
{
    let k = s[i].0;
    assert(has_key(s, k));
    let j = index_of_key(s, k);
    assert(0 <= j < s.len() && s[j].0 == k);
    if j < i {
        assert(s[j].0 != s[i].0);
    } else if i < j {
        assert(s[i].0 != s[j].0);
    }
}

/// A key of no entry is no key of the map.
pub proof fn lemma_no_entry<K, V>(s: Seq<(K, V)>, k: K)
    requires
        forall|i: int| 0 <= i < s.len() ==> (#[trigger] s[i]).0 != k,
    ensures
        !as_map(s).contains_key(k),
        !has_key(s, k),
{
}

/// A key of the map is the key of some entry.
pub proof fn lemma_key_has_entry<K, V>(s: Seq<(K, V)>, k: K)
    requires
        as_map(s).contains_key(k),
    ensures
        0 <= index_of_key(s, k) < s.len(),
        s[index_of_key(s, k)].0 == k,
        as_map(s)[k] == s[index_of_key(s, k)].1,
{
    assert(has_key(s, k));
}

/// Pushing an entry with a new key inserts it into the map.
pub proof fn lemma_push<K, V>(s: Seq<(K, V)>, k: K, v: V)
    requires
        distinct_keys(s),
        !as_map(s).contains_key(k),
    ensures
        distinct_keys(s.push((k, v))),
        as_map(s.push((k, v))) == as_map(s).insert(k, v),
{
    let t = s.push((k, v));
    assert forall|i: int, j: int| 0 <= i < j < t.len() implies (#[trigger] t[i]).0 != (
    #[trigger] t[j]).0 by {
        if j == s.len() {
            assert(t[i] == s[i]);
            if s[i].0 == k {
                assert(has_key(s, k));
            }
        } else {
            assert(t[i] == s[i] && t[j] == s[j]);
        }
    }
    assert forall|x: K| as_map(t).contains_key(x) <==> as_map(s).insert(k, v).contains_key(
        x,
    ) by {
        if has_key(t, x) {
            let i = index_of_key(t, x);
            if i < s.len() {
                assert(s[i] == t[i]);
                assert(has_key(s, x));
            }
        }
        if has_key(s, x) {
            let i = index_of_key(s, x);
            assert(t[i] == s[i]);
        }
        if x == k {
            assert(t[s.len() as int].0 == k);
        }
    }
    assert forall|x: K| as_map(t).contains_key(x) implies as_map(t)[x] == as_map(s).insert(
        k,
        v,
    )[x] by {
        lemma_key_has_entry(t, x);
        let i = index_of_key(t, x);
        if i < s.len() {
            assert(s[i] == t[i]);
            lemma_entry(s, i);
        }
    }
    assert(as_map(t) =~= as_map(s).insert(k, v));
}

/// Replacing the value of an entry replaces it in the map.
pub proof fn lemma_update<K, V>(s: Seq<(K, V)>, i: int, v: V)
    requires
        distinct_keys(s),
        0 <= i < s.len(),
    ensures
        distinct_keys(s.update(i, (s[i].0, v))),
        as_map(s.update(i, (s[i].0, v))) == as_map(s).insert(s[i].0, v),
{
    let k = s[i].0;
    let t = s.update(i, (k, v));
    assert forall|a: int, b: int| 0 <= a < b < t.len() implies (#[trigger] t[a]).0 != (
    #[trigger] t[b]).0 by {
        assert(t[a].0 == s[a].0 && t[b].0 == s[b].0);
    }
    assert forall|x: K| as_map(t).contains_key(x) <==> as_map(s).insert(k, v).contains_key(
        x,
    ) by {
        if has_key(t, x) {
            let j = index_of_key(t, x);
            assert(s[j].0 == t[j].0);
        }
        if has_key(s, x) {
            let j = index_of_key(s, x);
            assert(t[j].0 == s[j].0);
        }
        if x == k {
            assert(t[i].0 == k);
        }
    }
    assert forall|x: K| as_map(t).contains_key(x) implies as_map(t)[x] == as_map(s).insert(
        k,
        v,
    )[x] by {
        lemma_key_has_entry(t, x);
        let j = index_of_key(t, x);
        lemma_entry(t, j);
        if j != i {
            assert(t[j] == s[j]);
            lemma_entry(s, j);
            if s[j].0 == k {
                lemma_entry(s, i);
            }
        }
    }
    assert(as_map(t) =~= as_map(s).insert(k, v));
}

/// Removing an entry removes its key from the map.
pub proof fn lemma_remove<K, V>(s: Seq<(K, V)>, i: int)
    requires
        distinct_keys(s),
        0 <= i < s.len(),
    ensures
        distinct_keys(s.remove(i)),
        as_map(s.remove(i)) == as_map(s).remove(s[i].0),
{
    let k = s[i].0;
    let t = s.remove(i);
    assert forall|a: int, b: int| 0 <= a < b < t.len() implies (#[trigger] t[a]).0 != (
    #[trigger] t[b]).0 by {
        let a2 = if a < i { a } else { a + 1 };
        let b2 = if b < i { b } else { b + 1 };
        assert(t[a] == s[a2] && t[b] == s[b2]);
    }
    assert forall|x: K| as_map(t).contains_key(x) <==> as_map(s).remove(k).contains_key(x) by {
        if has_key(t, x) {
            let j = index_of_key(t, x);
            let j2 = if j < i { j } else { j + 1 };
            assert(t[j] == s[j2]);
            assert(has_key(s, x));
            if x == k {
                lemma_entry(s, i);
                lemma_entry(s, j2);
            }
        }
        if has_key(s, x) && x != k {
            let j = index_of_key(s, x);
            let j2 = if j < i { j } else { j - 1 };
            assert(t[j2] == s[j]);
        }
    }
    assert forall|x: K| as_map(t).contains_key(x) implies as_map(t)[x] == as_map(s).remove(
        k,
    )[x] by {
        lemma_key_has_entry(t, x);
        let j = index_of_key(t, x);
        let j2 = if j < i { j } else { j + 1 };
        assert(t[j] == s[j2]);
        lemma_entry(s, j2);
    }
    assert(as_map(t) =~= as_map(s).remove(k));
}

/// The map has as many entries as the list.
pub proof fn lemma_len<K, V>(s: Seq<(K, V)>)
    requires
        distinct_keys(s),
    ensures
        as_map(s).dom().finite(),
        as_map(s).dom().len() == s.len(),
    decreases s.len(),
{
    if s.len() == 0 {
        assert(as_map(s).dom() =~= Set::<K>::empty());
    } else {
        let front = s.drop_last();
        let last = s.last();
        assert forall|i: int, j: int| 0 <= i < j < front.len() implies (#[trigger] front[i]).0 != (
        #[trigger] front[j]).0 by {
            assert(front[i] == s[i] && front[j] == s[j]);
        }
        assert forall|i: int| 0 <= i < front.len() implies (#[trigger] front[i]).0 != last.0 by {
            assert(front[i] == s[i]);
            assert(s[s.len() - 1] == last);
        }
        lemma_no_entry(front, last.0);
        lemma_len(front);
        lemma_push(front, last.0, last.1);
        assert(front.push((last.0, last.1)) =~= s);
        assert(as_map(s).dom() =~= as_map(front).dom().insert(last.0));
    }
}

} // verus!
