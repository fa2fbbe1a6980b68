//! Association lists with map semantics.
//!
//! The stores in this crate (points by id, postings by term, aliases by
//! name) are lists of key/value pairs with unique keys, read as a `Map`
//! from key text to value.  The operations here are the only ways the
//! stores are touched, so every caller reasons at the map level.

use vstd::prelude::*;

verus! {

/// The map read of a pair list: later pairs win (lists kept unique make
/// this immaterial).
pub open spec fn spec_assoc_map<V>(pairs: Seq<(String, V)>) -> Map<Seq<char>, V>
    decreases pairs.len(),
{
    if pairs.len() == 0 {
        Map::empty()
    } else {
        spec_assoc_map(pairs.drop_last()).insert(pairs.last().0@, pairs.last().1)
    }
}

/// No two pairs share a key.
pub open spec fn spec_assoc_unique<V>(pairs: Seq<(String, V)>) -> bool {
    forall|i: int, j: int|
        0 <= i < j < pairs.len() ==> (#[trigger] pairs[i]).0@ != (#[trigger] pairs[j]).0@
}

/// A key occurs in the map read exactly when some pair carries it.
pub proof fn lemma_assoc_contains<V>(pairs: Seq<(String, V)>, k: Seq<char>)
    ensures
        spec_assoc_map(pairs).contains_key(k) <==> exists|i: int|
            0 <= i < pairs.len() && (#[trigger] pairs[i]).0@ == k,
    decreases pairs.len(),
{
    if pairs.len() > 0 {
        lemma_assoc_contains(pairs.drop_last(), k);
        if pairs.last().0@ == k {
            assert(pairs[pairs.len() - 1].0@ == k);
        } else {
            if exists|i: int| 0 <= i < pairs.len() && (#[trigger] pairs[i]).0@ == k {
                let i = choose|i: int| 0 <= i < pairs.len() && (#[trigger] pairs[i]).0@ == k;
                assert(pairs.drop_last()[i] == pairs[i]);
            }
        }
    }
}

/// Under uniqueness, the pair at `i` is what the map holds for its key.
pub proof fn lemma_assoc_index<V>(pairs: Seq<(String, V)>, i: int)
    requires
        spec_assoc_unique(pairs),
        0 <= i < pairs.len(),
    ensures
        spec_assoc_map(pairs).contains_key(pairs[i].0@),
        spec_assoc_map(pairs)[pairs[i].0@] == pairs[i].1,
    decreases pairs.len(),
{
    if i == pairs.len() - 1 {
    } else {
        assert(pairs.drop_last()[i] == pairs[i]);
        lemma_assoc_index(pairs.drop_last(), i);
        assert(pairs[pairs.len() - 1].0@ != pairs[i].0@);
    }
}

/// Under uniqueness, the map read has one entry per pair.
pub proof fn lemma_assoc_len<V>(pairs: Seq<(String, V)>)
    requires
        spec_assoc_unique(pairs),
    ensures
        spec_assoc_map(pairs).dom().finite(),
        spec_assoc_map(pairs).len() == pairs.len(),
    decreases pairs.len(),
{
    if pairs.len() > 0 {
        lemma_assoc_len(pairs.drop_last());
        lemma_assoc_contains(pairs.drop_last(), pairs.last().0@);
        assert(forall|i: int|
            0 <= i < pairs.drop_last().len() ==> (#[trigger] pairs.drop_last()[i]) == pairs[i]);
    }
}

/// Replacing the value at `i` (keeping the key text) rewrites the map entry.
pub proof fn lemma_assoc_update<V>(pairs: Seq<(String, V)>, i: int, key: String, val: V)
    requires
        spec_assoc_unique(pairs),
        0 <= i < pairs.len(),
        key@ == pairs[i].0@,
    ensures
        spec_assoc_unique(pairs.update(i, (key, val))),
        spec_assoc_map(pairs.update(i, (key, val))) == spec_assoc_map(pairs).insert(key@, val),
    decreases pairs.len(),
{
    let updated = pairs.update(i, (key, val));
    assert(forall|j: int| 0 <= j < pairs.len() ==> (#[trigger] updated[j]).0@ == pairs[j].0@);
    if i == pairs.len() - 1 {
        assert(updated.drop_last() =~= pairs.drop_last());
        assert(spec_assoc_map(updated) =~= spec_assoc_map(pairs).insert(key@, val));
    } else {
        assert(updated.drop_last() =~= pairs.drop_last().update(i, (key, val)));
        assert(pairs.drop_last()[i] == pairs[i]);
        lemma_assoc_update(pairs.drop_last(), i, key, val);
        assert(updated.last() == pairs.last());
        assert(pairs.last().0@ != key@);
        assert(spec_assoc_map(updated) =~= spec_assoc_map(pairs).insert(key@, val));
    }
}

/// Removing the pair at `i` removes its key from the map.
pub proof fn lemma_assoc_remove<V>(pairs: Seq<(String, V)>, i: int)
    requires
        spec_assoc_unique(pairs),
        0 <= i < pairs.len(),
    ensures
        spec_assoc_unique(pairs.remove(i)),
        spec_assoc_map(pairs.remove(i)) == spec_assoc_map(pairs).remove(pairs[i].0@),
    decreases pairs.len(),
{
    let removed = pairs.remove(i);
    assert(forall|j: int|
        0 <= j < removed.len() ==> (#[trigger] removed[j]) == if j < i {
            pairs[j]
        } else {
            pairs[j + 1]
        });
    if i == pairs.len() - 1 {
        assert(removed =~= pairs.drop_last());
        lemma_assoc_contains(pairs.drop_last(), pairs[i].0@);
        assert(spec_assoc_map(pairs.drop_last()) =~= spec_assoc_map(pairs).remove(pairs[i].0@));
    } else {
        lemma_assoc_remove(pairs.drop_last(), i);
        assert(removed.drop_last() =~= pairs.drop_last().remove(i));
        assert(removed.last() == pairs.last());
        assert(pairs.drop_last()[i] == pairs[i]);
        assert(pairs.last().0@ != pairs[i].0@);
        assert(spec_assoc_map(removed) =~= spec_assoc_map(pairs).remove(pairs[i].0@));
    }
}

/// Appending a fresh key adds its entry to the map.
pub proof fn lemma_assoc_push<V>(pairs: Seq<(String, V)>, key: String, val: V)
    requires
        spec_assoc_unique(pairs),
        forall|i: int| 0 <= i < pairs.len() ==> (#[trigger] pairs[i]).0@ != key@,
    ensures
        spec_assoc_unique(pairs.push((key, val))),
        spec_assoc_map(pairs.push((key, val))) == spec_assoc_map(pairs).insert(key@, val),
{
    let pushed = pairs.push((key, val));
    assert(pushed.drop_last() =~= pairs);
    assert(forall|j: int| 0 <= j < pairs.len() ==> (#[trigger] pushed[j]) == pairs[j]);
}

/// Find the position of `key`, if present.
pub fn assoc_find<V>(pairs: &Vec<(String, V)>, key: &str) -> (r: Option<usize>)
    ensures
        match r {
            Some(i) => i < pairs@.len() && pairs@[i as int].0@ == key@,
            None => forall|i: int| 0 <= i < pairs@.len() ==> (#[trigger] pairs@[i]).0@ != key@,
        },
{
    let n = pairs.len();
    let mut i: usize = 0;
    while i < n
        invariant
            i <= n == pairs@.len(),
            forall|k: int| 0 <= k < i ==> (#[trigger] pairs@[k]).0@ != key@,
        decreases n - i,
    {
        if crate::json::str_eq(pairs[i].0.as_str(), key) {
            return Some(i);
        }
        i = i + 1;
    }
    None
}

/// Borrow the value stored under `key`, if any.
pub fn assoc_get<'a, V>(pairs: &'a Vec<(String, V)>, key: &str) -> (r: Option<&'a V>)
    requires
        spec_assoc_unique(pairs@),
    ensures
        match r {
            Some(v) => spec_assoc_map(pairs@).contains_key(key@) && spec_assoc_map(pairs@)[key@]
                == *v,
            None => !spec_assoc_map(pairs@).contains_key(key@),
        },
{
    let found = assoc_find(pairs, key);
    proof {
        lemma_assoc_contains(pairs@, key@);
    }
    match found {
        Some(i) => {
            proof {
                lemma_assoc_index(pairs@, i as int);
            }
            Some(&pairs[i].1)
        },
        None => None,
    }
}

/// Whether `key` is stored.
pub fn assoc_contains<V>(pairs: &Vec<(String, V)>, key: &str) -> (r: bool)
    requires
        spec_assoc_unique(pairs@),
    ensures
        r == spec_assoc_map(pairs@).contains_key(key@),
{
    let found = assoc_find(pairs, key);
    proof {
        lemma_assoc_contains(pairs@, key@);
    }
    match found {
        Some(i) => {
            proof {
                lemma_assoc_index(pairs@, i as int);
            }
            true
        },
        None => false,
    }
}

/// Store `val` under `key`, replacing any previous value.
pub fn assoc_set<V>(pairs: &mut Vec<(String, V)>, key: String, val: V)
    requires
        spec_assoc_unique(old(pairs)@),
    ensures
        spec_assoc_unique(final(pairs)@),
        spec_assoc_map(final(pairs)@) == spec_assoc_map(old(pairs)@).insert(key@, val),
        final(pairs)@.len() == old(pairs)@.len() + (
            if spec_assoc_map(old(pairs)@).contains_key(key@) {
                0int
            } else {
                1int
            }
        ),
{
    let found = assoc_find(pairs, key.as_str());
    proof {
        lemma_assoc_contains(pairs@, key@);
    }
    match found {
        Some(i) => {
            proof {
                lemma_assoc_index(pairs@, i as int);
                lemma_assoc_update(pairs@, i as int, key, val);
            }
            pairs.set(i, (key, val));
        },
        None => {
            proof {
                lemma_assoc_push(pairs@, key, val);
            }
            pairs.push((key, val));
        },
    }
}

/// Take the value stored under `key` out, if any.
pub fn assoc_remove<V>(pairs: &mut Vec<(String, V)>, key: &str) -> (r: Option<V>)
    requires
        spec_assoc_unique(old(pairs)@),
    ensures
        spec_assoc_unique(final(pairs)@),
        spec_assoc_map(final(pairs)@) == spec_assoc_map(old(pairs)@).remove(key@),
        r is Some <==> spec_assoc_map(old(pairs)@).contains_key(key@),
        match r {
            Some(v) => spec_assoc_map(old(pairs)@)[key@] == v && final(pairs)@.len() == old(
                pairs,
            )@.len() - 1,
            None => final(pairs)@ == old(pairs)@,
        },
{
    let found = assoc_find(pairs, key);
    proof {
        lemma_assoc_contains(pairs@, key@);
    }
    match found {
        Some(i) => {
            proof {
                lemma_assoc_index(pairs@, i as int);
                lemma_assoc_remove(pairs@, i as int);
            }
            let (_, v) = pairs.remove(i);
            Some(v)
        },
        None => {
            proof {
                assert(spec_assoc_map(pairs@).remove(key@) =~= spec_assoc_map(pairs@));
            }
            None
        },
    }
}

} // verus!
