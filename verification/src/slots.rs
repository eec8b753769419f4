//! Lists of key-value slots in which no key occurs twice, and the maps they
//! stand for.

use vstd::prelude::*;

verus! {

/// No key occurs in two slots.
pub open spec fn distinct_keys<K, V>(s: Seq<(K, V)>) -> bool {
    forall|i: int, j: int| 0 <= i < j < s.len() ==> s[i].0 != s[j].0
}

/// Whether some slot has the key `d`.
pub open spec fn has_key<K, V>(s: Seq<(K, V)>, d: K) -> bool {
    exists|i: int| 0 <= i < s.len() && #[trigger] s[i].0 == d
}

/// The place of a slot with the key `d`, if there is one.
pub open spec fn key_index<K, V>(s: Seq<(K, V)>, d: K) -> int {
    choose|i: int| 0 <= i < s.len() && #[trigger] s[i].0 == d
}

/// The map that a list of slots stands for: each key with the value of its
/// slot.
pub open spec fn slots_map<K, V>(s: Seq<(K, V)>) -> Map<K, V> {
    Map::new(|d: K| has_key(s, d), |d: K| s[key_index(s, d)].1)
}

/// The map has each slot's key, with the slot's value.
pub proof fn lemma_slot_lookup<K, V>(s: Seq<(K, V)>, i: int)
    requires
        distinct_keys(s),
        0 <= i < s.len(),
    ensures
        slots_map(s).contains_key(s[i].0),
        slots_map(s)[s[i].0] == s[i].1,
{
    let d = s[i].0;
    assert(has_key(s, d));
    let k = key_index(s, d);
    assert(0 <= k < s.len() && s[k].0 == d);
    if k < i {
        assert(s[k].0 != s[i].0);
    } else if i < k {
        assert(s[i].0 != s[k].0);
    }
}

/// The map has as many keys as there are slots.
pub proof fn lemma_slots_finite<K, V>(s: Seq<(K, V)>)
    requires
        distinct_keys(s),
    ensures
        slots_map(s).dom().finite(),
        slots_map(s).dom().len() == s.len(),
    decreases s.len(),
{
    if s.len() == 0 {
        assert(slots_map(s).dom() =~= Set::<K>::empty());
    } else {
        let t = s.drop_last();
        let last = s.last();
        assert(distinct_keys(t)) by {
            assert forall|i: int, j: int| 0 <= i < j < t.len() implies t[i].0 != t[j].0 by {
                assert(s[i].0 != s[j].0);
            }
        }
        lemma_slots_finite(t);
        assert(!has_key(t, last.0)) by {
            if has_key(t, last.0) {
                let k = key_index(t, last.0);
                assert(s[k].0 != s[s.len() - 1].0);
            }
        }
        assert(slots_map(s).dom() =~= slots_map(t).dom().insert(last.0)) by {
            assert forall|d: K| has_key(s, d) <==> (has_key(t, d) || d == last.0) by {
                if has_key(s, d) {
                    let k = key_index(s, d);
                    if k < t.len() {
                        assert(t[k].0 == d);
                    }
                }
                if has_key(t, d) {
                    let k = key_index(t, d);
                    assert(s[k].0 == d);
                }
                if d == last.0 {
                    assert(s[s.len() - 1].0 == d);
                }
            }
        }
    }
}

/// A new value in a slot is an insertion under the slot's key.
pub proof fn lemma_same_keys_update<K, V>(s: Seq<(K, V)>, i: int, entry: V)
    requires
        distinct_keys(s),
        0 <= i < s.len(),
        distinct_keys(s.update(i, (s[i].0, entry))),
    ensures
        slots_map(s.update(i, (s[i].0, entry))) == slots_map(s).insert(s[i].0, entry),
{
    let t = s.update(i, (s[i].0, entry));
    assert forall|d: K| has_key(t, d) == has_key(s, d) by {
        if has_key(t, d) {
            let k = key_index(t, d);
            assert(s[k].0 == d);
        }
        if has_key(s, d) {
            let k = key_index(s, d);
            assert(t[k].0 == d);
        }
    }
    assert forall|d: K| has_key(t, d) implies #[trigger] slots_map(t)[d] == slots_map(
        s,
    ).insert(s[i].0, entry)[d] by {
        let k = key_index(t, d);
        lemma_slot_lookup(t, k);
        lemma_slot_lookup(s, k);
    }
    assert(slots_map(t) =~= slots_map(s).insert(s[i].0, entry));
}

/// A new slot with a new key is an insertion.
pub proof fn lemma_push_slot<K, V>(s: Seq<(K, V)>, d: K, entry: V)
    requires
        distinct_keys(s),
        forall|i: int| 0 <= i < s.len() ==> s[i].0 != d,
    ensures
        distinct_keys(s.push((d, entry))),
        slots_map(s.push((d, entry))) == slots_map(s).insert(d, entry),
{
    let t = s.push((d, entry));
    assert(distinct_keys(t)) by {
        assert forall|a: int, b: int| 0 <= a < b < t.len() implies t[a].0 != t[b].0 by {
            if b < s.len() {
                assert(s[a].0 != s[b].0);
            }
        }
    }
    assert forall|k: K| has_key(t, k) == (has_key(s, k) || k == d) by {
        if has_key(t, k) {
            let j = key_index(t, k);
            if j < s.len() {
                assert(s[j].0 == k);
            }
        }
        if has_key(s, k) {
            let j = key_index(s, k);
            assert(t[j].0 == k);
        }
        if k == d {
            assert(t[s.len() as int].0 == k);
        }
    }
    assert forall|k: K| has_key(t, k) implies #[trigger] slots_map(t)[k] == slots_map(
        s,
    ).insert(d, entry)[k] by {
        let j = key_index(t, k);
        lemma_slot_lookup(t, j);
        if j < s.len() {
            lemma_slot_lookup(s, j);
        }
    }
    assert(slots_map(t) =~= slots_map(s).insert(d, entry));
}

/// Taking out a slot removes its key.
pub proof fn lemma_remove_slot<K, V>(s: Seq<(K, V)>, i: int)
    requires
        distinct_keys(s),
        0 <= i < s.len(),
    ensures
        distinct_keys(s.remove(i)),
        slots_map(s.remove(i)) == slots_map(s).remove(s[i].0),
{
    let t = s.remove(i);
    let d = s[i].0;
    assert(distinct_keys(t)) by {
        assert forall|a: int, b: int| 0 <= a < b < t.len() implies t[a].0 != t[b].0 by {
            let a2 = if a < i { a } else { a + 1 };
            let b2 = if b < i { b } else { b + 1 };
            assert(s[a2].0 != s[b2].0);
        }
    }
    assert forall|k: K| has_key(t, k) == (has_key(s, k) && k != d) by {
        if has_key(t, k) {
            let j = key_index(t, k);
            let j2 = if j < i { j } else { j + 1 };
            assert(s[j2].0 == k);
            if j2 < i {
                assert(s[j2].0 != s[i].0);
            } else {
                assert(s[i].0 != s[j2].0);
            }
        }
        if has_key(s, k) && k != d {
            let j = key_index(s, k);
            let j2 = if j < i { j } else { j - 1 };
            assert(t[j2].0 == k);
        }
    }
    assert forall|k: K| has_key(t, k) implies #[trigger] slots_map(t)[k] == slots_map(
        s,
    ).remove(d)[k] by {
        let j = key_index(t, k);
        let j2 = if j < i { j } else { j + 1 };
        lemma_slot_lookup(t, j);
        lemma_slot_lookup(s, j2);
    }
    assert(slots_map(t) =~= slots_map(s).remove(d));
}

} // verus!
