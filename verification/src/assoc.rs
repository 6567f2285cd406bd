//! Association lists: sequences of (key, value) pairs that the bot keeps in
//! insertion order, with at most one entry per key.  The guild table, the tier
//! table of a guild and the company table of a tier are all of this shape.
use vstd::prelude::*;

verus! {

/// The keys of an association list, in order.
pub open spec fn keys_of<K, V>(s: Seq<(K, V)>) -> Seq<K> {
    s.map_values(|p: (K, V)| p.0)
}

/// Position of the first entry whose key is `k`.
pub open spec fn key_pos<K, V>(s: Seq<(K, V)>, k: K) -> Option<int> {
    keys_of(s).index_of_first(k)
}

/// Whether some entry has the key `k`.
pub open spec fn has_key<K, V>(s: Seq<(K, V)>, k: K) -> bool {
    keys_of(s).contains(k)
}

/// No key occurs twice.
pub open spec fn keys_unique<K, V>(s: Seq<(K, V)>) -> bool {
    keys_of(s).no_duplicates()
}

/// The value stored under `k`, if any.
pub open spec fn lookup<K, V>(s: Seq<(K, V)>, k: K) -> Option<V> {
    match key_pos(s, k) {
        Some(i) => Some(s[i].1),
        None => None,
    }
}

/// Stores `v` under `k`: the entry of `k` is replaced in place, or a new entry
/// is appended at the end.
pub open spec fn insert_entry<K, V>(s: Seq<(K, V)>, k: K, v: V) -> Seq<(K, V)> {
    match key_pos(s, k) {
        Some(i) => s.update(i, (k, v)),
        None => s.push((k, v)),
    }
}

/// Drops the entry of `k`, keeping the order of the others.
pub open spec fn remove_entry<K, V>(s: Seq<(K, V)>, k: K) -> Seq<(K, V)> {
    match key_pos(s, k) {
        Some(i) => s.remove(i),
        None => s,
    }
}

/// The first entry with key `k` sits at `i`.
pub proof fn lemma_key_pos_at<K, V>(s: Seq<(K, V)>, k: K, i: int)
    requires
        0 <= i < s.len(),
        s[i].0 == k,
        forall|j: int| 0 <= j < i ==> s[j].0 != k,
    ensures
        key_pos(s, k) == Some(i),
        has_key(s, k),
{
    let ks = keys_of(s);
    assert(ks[i] == k);
    ks.index_of_first_ensures(k);
    match ks.index_of_first(k) {
        Some(p) => {
            if p < i {
                assert(ks[p] == s[p].0);
            } else if p > i {
            }
        },
        None => {
            assert(ks.contains(k));
        },
    }
}

/// No entry has the key `k`.
pub proof fn lemma_key_pos_none<K, V>(s: Seq<(K, V)>, k: K)
    requires
        forall|j: int| 0 <= j < s.len() ==> s[j].0 != k,
    ensures
        key_pos(s, k) == None::<int>,
        !has_key(s, k),
{
    let ks = keys_of(s);
    ks.index_of_first_ensures(k);
    if ks.contains(k) {
        let j = choose|j: int| 0 <= j < ks.len() && ks[j] == k;
        assert(s[j].0 == k);
    }
}

/// What `key_pos` tells of the list.
pub proof fn lemma_key_pos_facts<K, V>(s: Seq<(K, V)>, k: K)
    ensures
        match key_pos(s, k) {
            Some(i) => 0 <= i < s.len() && s[i].0 == k && (forall|j: int|
                0 <= j < i ==> s[j].0 != k),
            None => forall|j: int| 0 <= j < s.len() ==> s[j].0 != k,
        },
        has_key(s, k) <==> key_pos(s, k) is Some,
{
    let ks = keys_of(s);
    ks.index_of_first_ensures(k);
    match key_pos(s, k) {
        Some(i) => {
            assert forall|j: int| 0 <= j < i implies s[j].0 != k by {
                assert(ks[j] == s[j].0);
            }
        },
        None => {
            assert forall|j: int| 0 <= j < s.len() implies s[j].0 != k by {
                assert(ks[j] == s[j].0);
            }
        },
    }
}

/// Law: a value stored under a key is what a lookup of that key gives back.
pub proof fn law_lookup_after_insert<K, V>(s: Seq<(K, V)>, k: K, v: V)
    ensures
        lookup(insert_entry(s, k, v), k) == Some(v),
{
    lemma_key_pos_facts(s, k);
    let t = insert_entry(s, k, v);
    match key_pos(s, k) {
        Some(i) => {
            assert forall|j: int| 0 <= j < i implies t[j].0 != k by {}
            lemma_key_pos_at(t, k, i);
        },
        None => {
            assert forall|j: int| 0 <= j < s.len() implies t[j].0 != k by {}
            lemma_key_pos_at(t, k, s.len() as int);
        },
    }
}

/// Law: storing under one key leaves the lookup of every other key unchanged.
pub proof fn law_lookup_other_after_insert<K, V>(s: Seq<(K, V)>, k: K, v: V, k2: K)
    requires
        k2 != k,
    ensures
        lookup(insert_entry(s, k, v), k2) == lookup(s, k2),
{
    lemma_key_pos_facts(s, k);
    lemma_key_pos_facts(s, k2);
    let t = insert_entry(s, k, v);
    match key_pos(s, k2) {
        Some(i) => {
            assert forall|j: int| 0 <= j < i implies t[j].0 != k2 by {}
            lemma_key_pos_at(t, k2, i);
        },
        None => {
            assert forall|j: int| 0 <= j < t.len() implies t[j].0 != k2 by {}
            lemma_key_pos_none(t, k2);
        },
    }
}

/// Law: storing keeps the keys unique.
pub proof fn law_insert_keeps_unique<K, V>(s: Seq<(K, V)>, k: K, v: V)
    requires
        keys_unique(s),
    ensures
        keys_unique(insert_entry(s, k, v)),
{
    lemma_key_pos_facts(s, k);
    let t = insert_entry(s, k, v);
    let ks = keys_of(s);
    let kt = keys_of(t);
    assert forall|a: int, b: int| 0 <= a < kt.len() && 0 <= b < kt.len() && a != b implies kt[a]
        != kt[b] by {
        assert(kt[a] == t[a].0);
        assert(kt[b] == t[b].0);
        if a < s.len() {
            assert(ks[a] == s[a].0);
        }
        if b < s.len() {
            assert(ks[b] == s[b].0);
        }
    }
}

/// Law: removing keeps the keys unique, and no entry of the removed key is left.
pub proof fn law_remove_keeps_unique<K, V>(s: Seq<(K, V)>, k: K)
    requires
        keys_unique(s),
    ensures
        keys_unique(remove_entry(s, k)),
        lookup(remove_entry(s, k), k) == None::<V>,
        !has_key(remove_entry(s, k), k),
{
    lemma_key_pos_facts(s, k);
    let t = remove_entry(s, k);
    let ks = keys_of(s);
    let kt = keys_of(t);
    match key_pos(s, k) {
        Some(i) => {
            assert forall|a: int, b: int|
                0 <= a < kt.len() && 0 <= b < kt.len() && a != b implies kt[a] != kt[b] by {
                assert(kt[a] == t[a].0);
                assert(kt[b] == t[b].0);
                let a2 = if a < i { a } else { a + 1 };
                let b2 = if b < i { b } else { b + 1 };
                assert(t[a] == s[a2]);
                assert(t[b] == s[b2]);
                assert(ks[a2] == s[a2].0);
                assert(ks[b2] == s[b2].0);
            }
            assert forall|j: int| 0 <= j < t.len() implies t[j].0 != k by {
                let j2 = if j < i { j } else { j + 1 };
                assert(t[j] == s[j2]);
                assert(ks[j2] == s[j2].0);
                assert(ks[i] == s[i].0);
            }
            lemma_key_pos_none(t, k);
        },
        None => {
            lemma_key_pos_none(t, k);
        },
    }
}

/// Law: removing one key leaves the lookup of every other key unchanged.
pub proof fn law_lookup_other_after_remove<K, V>(s: Seq<(K, V)>, k: K, k2: K)
    requires
        k2 != k,
    ensures
        lookup(remove_entry(s, k), k2) == lookup(s, k2),
{
    lemma_key_pos_facts(s, k);
    lemma_key_pos_facts(s, k2);
    let t = remove_entry(s, k);
    match key_pos(s, k) {
        Some(i) => {
            match key_pos(s, k2) {
                Some(p) => {
                    let p2 = if p < i { p } else { p - 1 };
                    assert(p != i);
                    assert(t[p2] == s[p]);
                    assert forall|j: int| 0 <= j < p2 implies t[j].0 != k2 by {
                        let j2 = if j < i { j } else { j + 1 };
                        assert(t[j] == s[j2]);
                    }
                    lemma_key_pos_at(t, k2, p2);
                },
                None => {
                    assert forall|j: int| 0 <= j < t.len() implies t[j].0 != k2 by {
                        let j2 = if j < i { j } else { j + 1 };
                        assert(t[j] == s[j2]);
                    }
                    lemma_key_pos_none(t, k2);
                },
            }
        },
        None => {},
    }
}

/// Law: storing a new key and removing it again gives back the list as it was.
pub proof fn law_remove_undoes_insert<K, V>(s: Seq<(K, V)>, k: K, v: V)
    requires
        !has_key(s, k),
    ensures
        remove_entry(insert_entry(s, k, v), k) == s,
{
    lemma_key_pos_facts(s, k);
    let t = insert_entry(s, k, v);
    assert forall|j: int| 0 <= j < s.len() implies t[j].0 != k by {}
    lemma_key_pos_at(t, k, s.len() as int);
    assert(t.remove(s.len() as int) =~= s);
}

/// The first occurrence of `x` in `s` is at `i`.
pub proof fn lemma_first_index_at<A>(s: Seq<A>, x: A, i: int)
    requires
        0 <= i < s.len(),
        s[i] == x,
        forall|j: int| 0 <= j < i ==> s[j] != x,
    ensures
        s.index_of_first(x) == Some(i),
{
    s.index_of_first_ensures(x);
    match s.index_of_first(x) {
        Some(p) => {
            if p < i {
            } else if p > i {
            }
        },
        None => {
            assert(s.contains(x));
        },
    }
}

/// `x` does not occur in `s`.
pub proof fn lemma_first_index_none<A>(s: Seq<A>, x: A)
    requires
        forall|j: int| 0 <= j < s.len() ==> s[j] != x,
    ensures
        s.index_of_first(x) == None::<int>,
{
    s.index_of_first_ensures(x);
    if s.contains(x) {
        let j = choose|j: int| 0 <= j < s.len() && s[j] == x;
        assert(s[j] == x);
    }
}

} // verus!
