//! Association lists keyed by strings, viewed as maps.

use vstd::prelude::*;

verus! {

/// The map that a list of `(key, value)` pairs stands for, each value seen
/// through `f`; a later pair wins over an earlier one with the same key.
pub open spec fn map_of<V, W>(s: Seq<(String, V)>, f: spec_fn(V) -> W) -> Map<Seq<char>, W>
    decreases s.len(),
{
    if s.len() == 0 {
        Map::empty()
    } else {
        map_of(s.drop_last(), f).insert(s.last().0@, f(s.last().1))
    }
}

/// No two pairs share a key.
pub open spec fn keys_unique<V>(s: Seq<(String, V)>) -> bool {
    forall|i: int, j: int| 0 <= i < j < s.len() ==> s[i].0@ != s[j].0@
}

/// Adding a pair at the end sets its key in the map.
pub proof fn lemma_map_of_push<V, W>(s: Seq<(String, V)>, p: (String, V), f: spec_fn(V) -> W)
    ensures
        map_of(s.push(p), f) == map_of(s, f).insert(p.0@, f(p.1)),
{
    assert(s.push(p).drop_last() =~= s);
}

/// Every key of the map comes from a pair, and each pair's value is found
/// under its key when keys are unique.
pub proof fn lemma_map_of_lookup<V, W>(s: Seq<(String, V)>, f: spec_fn(V) -> W)
    ensures
        forall|k: Seq<char>| #[trigger]
            map_of(s, f).contains_key(k) <==> exists|i: int| 0 <= i < s.len() && s[i].0@ == k,
        keys_unique(s) ==> forall|i: int|
            0 <= i < s.len() ==> #[trigger] map_of(s, f)[s[i].0@] == f(s[i].1),
    decreases s.len(),
{
    if s.len() > 0 {
        let t = s.drop_last();
        lemma_map_of_lookup(t, f);
        assert forall|k: Seq<char>| #[trigger]
            map_of(s, f).contains_key(k) <==> exists|i: int| 0 <= i < s.len() && s[i].0@ == k by {
            if map_of(s, f).contains_key(k) && k != s.last().0@ {
                assert(map_of(t, f).contains_key(k));
                let i = choose|i: int| 0 <= i < t.len() && t[i].0@ == k;
                assert(s[i] == t[i]);
            }
            if exists|i: int| 0 <= i < s.len() && s[i].0@ == k {
                let i = choose|i: int| 0 <= i < s.len() && s[i].0@ == k;
                if i < t.len() {
                    assert(t[i] == s[i]);
                    assert(map_of(t, f).contains_key(k));
                }
            }
        }
        if keys_unique(s) {
            assert(keys_unique(t)) by {
                assert forall|i: int, j: int| 0 <= i < j < t.len() implies t[i].0@ != t[j].0@ by {
                    assert(t[i] == s[i] && t[j] == s[j]);
                }
            }
            assert forall|i: int| 0 <= i < s.len() implies #[trigger] map_of(s, f)[s[i].0@] == f(
                s[i].1,
            ) by {
                if i < t.len() {
                    assert(t[i] == s[i]);
                    assert(s[i].0@ != s[s.len() - 1].0@);
                    assert(map_of(t, f)[t[i].0@] == f(t[i].1));
                }
            }
        }
    }
}

/// Replacing the value of the pair at `i` by one under the same key
/// replaces the map's value under that key.
pub proof fn lemma_map_of_update<V, W>(s: Seq<(String, V)>, i: int, p: (String, V), f: spec_fn(V) -> W)
    requires
        keys_unique(s),
        0 <= i < s.len(),
        p.0@ == s[i].0@,
    ensures
        map_of(s.update(i, p), f) == map_of(s, f).insert(p.0@, f(p.1)),
        keys_unique(s.update(i, p)),
    decreases s.len(),
{
    let u = s.update(i, p);
    assert(keys_unique(u)) by {
        assert forall|a: int, b: int| 0 <= a < b < u.len() implies u[a].0@ != u[b].0@ by {
            assert(u[a].0@ == s[a].0@ && u[b].0@ == s[b].0@);
        }
    }
    let t = s.drop_last();
    if i == s.len() - 1 {
        assert(u.drop_last() =~= t);
        assert(map_of(u, f) =~= map_of(s, f).insert(p.0@, f(p.1)));
    } else {
        assert(keys_unique(t)) by {
            assert forall|a: int, b: int| 0 <= a < b < t.len() implies t[a].0@ != t[b].0@ by {
                assert(t[a] == s[a] && t[b] == s[b]);
            }
        }
        lemma_map_of_update(t, i, p, f);
        assert(u.drop_last() =~= t.update(i, p));
        assert(s.last().0@ != p.0@);
        assert(map_of(u, f) =~= map_of(s, f).insert(p.0@, f(p.1)));
    }
}

/// Removing the pair at `i` removes its key from the map.
pub proof fn lemma_map_of_remove<V, W>(s: Seq<(String, V)>, i: int, f: spec_fn(V) -> W)
    requires
        keys_unique(s),
        0 <= i < s.len(),
    ensures
        map_of(s.remove(i), f) == map_of(s, f).remove(s[i].0@),
        keys_unique(s.remove(i)),
    decreases s.len(),
{
    let r = s.remove(i);
    let k = s[i].0@;
    assert(keys_unique(r)) by {
        assert forall|a: int, b: int| 0 <= a < b < r.len() implies r[a].0@ != r[b].0@ by {
            let a2 = if a < i { a } else { a + 1 };
            let b2 = if b < i { b } else { b + 1 };
            assert(r[a] == s[a2] && r[b] == s[b2]);
        }
    }
    let t = s.drop_last();
    assert(keys_unique(t)) by {
        assert forall|a: int, b: int| 0 <= a < b < t.len() implies t[a].0@ != t[b].0@ by {
            assert(t[a] == s[a] && t[b] == s[b]);
        }
    }
    lemma_map_of_lookup(t, f);
    if i == s.len() - 1 {
        assert(r =~= t);
        assert forall|j: int| 0 <= j < t.len() implies t[j].0@ != k by {
            assert(t[j] == s[j]);
        }
        assert(!map_of(t, f).contains_key(k));
        assert(map_of(r, f) =~= map_of(s, f).remove(k));
    } else {
        lemma_map_of_remove(t, i, f);
        assert(r.drop_last() =~= t.remove(i));
        assert(r.last() == s.last());
        assert(s.last().0@ != k);
        assert(map_of(r, f) =~= map_of(s, f).remove(k));
    }
}

/// Adding a pair under a new key keeps the keys unique.
pub proof fn lemma_keys_unique_push<V>(s: Seq<(String, V)>, p: (String, V))
    requires
        keys_unique(s),
        forall|i: int| 0 <= i < s.len() ==> s[i].0@ != p.0@,
    ensures
        keys_unique(s.push(p)),
{
    let u = s.push(p);
    assert forall|a: int, b: int| 0 <= a < b < u.len() implies u[a].0@ != u[b].0@ by {
        assert(u[a] == s[a]);
    }
}

/// Sets the value under `key`: the pair with that key is replaced in place,
/// or a new pair is added at the end. Returns where the key was found.
pub fn set_entry<V>(entries: &mut Vec<(String, V)>, key: String, value: V) -> (r: Option<usize>)
    requires
        keys_unique(old(entries)@),
    ensures
        keys_unique(final(entries)@),
        match r {
            Some(i) => i < old(entries)@.len() && old(entries)@[i as int].0@ == key@
                && final(entries)@ == old(entries)@.update(i as int, (key, value)),
            None => (forall|i: int|
                0 <= i < old(entries)@.len() ==> old(entries)@[i].0@ != key@)
                && final(entries)@ == old(entries)@.push((key, value)),
        },
{
    let pos = position_of(entries, &key);
    match pos {
        Some(i) => {
            let ghost before = entries@;
            let _ = entries.remove(i);
            entries.insert(i, (key, value));
            assert(entries@ =~= before.update(i as int, (key, value)));
            proof {
                lemma_map_of_update(before, i as int, (key, value), |v: V| v);
            }
        },
        None => {
            proof {
                lemma_keys_unique_push(entries@, (key, value));
            }
            entries.push((key, value));
        },
    }
    pos
}

/// The position of the pair with key `key`, if there is one.
pub fn position_of<V>(entries: &Vec<(String, V)>, key: &String) -> (r: Option<usize>)
    ensures
        match r {
            Some(i) => i < entries@.len() && entries@[i as int].0@ == key@,
            None => forall|i: int| 0 <= i < entries@.len() ==> entries@[i].0@ != key@,
        },
{
    let mut i: usize = 0;
    while i < entries.len()
        invariant
            i <= entries@.len(),
            forall|j: int| 0 <= j < i ==> entries@[j].0@ != key@,
        decreases entries@.len() - i,
    {
        if entries[i].0 == *key {
            return Some(i);
        }
        i = i + 1;
    }
    None
}

} // verus!
