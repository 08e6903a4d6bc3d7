use vstd::prelude::*;

verus! {

/// The map that a list of key-value entries stands for: each key is bound to
/// the value of its last entry.
pub open spec fn entries_map<K: View, V>(s: Seq<(K, V)>) -> Map<K::V, V>
    decreases s.len(),
{
    if s.len() == 0 {
        Map::empty()
    } else {
        entries_map(s.drop_last()).insert(s.last().0@, s.last().1)
    }
}

/// No two entries have the same key.
pub open spec fn keys_unique<K: View, V>(s: Seq<(K, V)>) -> bool {
    forall|i: int, j: int| 0 <= i < j < s.len() ==> s[i].0@ != s[j].0@
}

/// A key is bound exactly when an entry has it, and with unique keys it is
/// bound to the value of that entry.
pub proof fn lemma_entries_map<K: View, V>(s: Seq<(K, V)>)
    ensures
        forall|k: K::V| #[trigger]
            entries_map(s).contains_key(k) <==> exists|i: int| 0 <= i < s.len() && s[i].0@ == k,
        keys_unique(s) ==> forall|i: int|
            0 <= i < s.len() ==> #[trigger] entries_map(s)[s[i].0@] == s[i].1,
    decreases s.len(),
{
    if s.len() > 0 {
        let p = s.drop_last();
        lemma_entries_map(p);
        assert forall|k: K::V| #[trigger]
            entries_map(s).contains_key(k) <==> exists|i: int| 0 <= i < s.len() && s[i].0@ == k by {
            if k == s.last().0@ {
                assert(s[s.len() - 1].0@ == k);
            }
            if entries_map(s).contains_key(k) && k != s.last().0@ {
                assert(entries_map(p).contains_key(k));
                let i = choose|i: int| 0 <= i < p.len() && p[i].0@ == k;
                assert(p[i] == s[i]);
                assert(s[i].0@ == k);
            }
            if exists|i: int| 0 <= i < s.len() && s[i].0@ == k {
                let i = choose|i: int| 0 <= i < s.len() && s[i].0@ == k;
                if i < p.len() {
                    assert(p[i] == s[i]);
                    assert(p[i].0@ == k);
                    assert(entries_map(p).contains_key(k));
                }
            }
        }
        if keys_unique(s) {
            assert(keys_unique(p));
            assert forall|i: int| 0 <= i < s.len() implies #[trigger] entries_map(s)[s[i].0@]
                == s[i].1 by {
                if i < p.len() {
                    assert(p[i] == s[i]);
                    assert(entries_map(p)[p[i].0@] == p[i].1);
                    assert(s[i].0@ != s[s.len() - 1].0@);
                }
            }
        }
    }
}

/// Replacing the value of an entry rebinds its key and keeps keys unique.
pub proof fn lemma_entries_map_update<K: View, V>(s: Seq<(K, V)>, j: int, e: (K, V))
    requires
        keys_unique(s),
        0 <= j < s.len(),
        s[j].0@ == e.0@,
    ensures
        keys_unique(s.update(j, e)),
        entries_map(s.update(j, e)) =~= entries_map(s).insert(e.0@, e.1),
{
    let t = s.update(j, e);
    assert(keys_unique(t));
    lemma_entries_map(s);
    lemma_entries_map(t);
    assert forall|k: K::V| #[trigger] entries_map(t).contains_key(k) <==> entries_map(s).insert(
        e.0@,
        e.1,
    ).contains_key(k) by {
        if exists|i: int| 0 <= i < s.len() && s[i].0@ == k {
            let i = choose|i: int| 0 <= i < s.len() && s[i].0@ == k;
            assert(t[i].0@ == k);
        }
        if exists|i: int| 0 <= i < t.len() && t[i].0@ == k {
            let i = choose|i: int| 0 <= i < t.len() && t[i].0@ == k;
            assert(s[i].0@ == k);
        }
    }
    assert forall|k: K::V| #[trigger] entries_map(t).contains_key(k) implies entries_map(t)[k]
        == entries_map(s).insert(e.0@, e.1)[k] by {
        let i = choose|i: int| 0 <= i < t.len() && t[i].0@ == k;
        assert(entries_map(t)[t[i].0@] == t[i].1);
        if i != j {
            assert(entries_map(s)[s[i].0@] == s[i].1);
        }
    }
}

/// Appending an entry with a new key binds it and keeps keys unique.
pub proof fn lemma_entries_map_push<K: View, V>(s: Seq<(K, V)>, e: (K, V))
    requires
        keys_unique(s),
        !entries_map(s).contains_key(e.0@),
    ensures
        keys_unique(s.push(e)),
        entries_map(s.push(e)) == entries_map(s).insert(e.0@, e.1),
{
    lemma_entries_map(s);
    let t = s.push(e);
    assert(t.drop_last() =~= s);
    assert forall|i: int, j: int| 0 <= i < j < t.len() implies t[i].0@ != t[j].0@ by {
        if j == s.len() {
            assert(s[i].0@ != e.0@);
        }
    }
}

/// Keys whose equality can be tested, in agreement with their views.
pub trait EntryKey: View + Sized {
    fn same_key(&self, other: &Self) -> (r: bool)
        ensures
            r == (self@ == other@),
    ;
}

impl EntryKey for String {
    fn same_key(&self, other: &Self) -> (r: bool) {
        *self == *other
    }
}

/// The list of entries with `key` bound to `value`: the entry with that key
/// is replaced, or, when there is none, the entry is appended.
pub open spec fn entry_set<K: View, V>(s: Seq<(K, V)>, key: K, value: V) -> Seq<(K, V)> {
    if exists|i: int| 0 <= i < s.len() && #[trigger] s[i].0@ == key@ {
        let i = choose|i: int| 0 <= i < s.len() && #[trigger] s[i].0@ == key@;
        s.update(i, (key, value))
    } else {
        s.push((key, value))
    }
}

/// Binds `key` to `value` in a list of entries with unique keys:
/// replaces the value of the entry with that key, or appends an entry.
pub fn insert_entry<K: EntryKey, V>(entries: &mut Vec<(K, V)>, key: K, value: V)
    requires
        keys_unique(old(entries)@),
    ensures
        keys_unique(final(entries)@),
        entries_map(final(entries)@) == entries_map(old(entries)@).insert(key@, value),
        final(entries)@ == entry_set(old(entries)@, key, value),
{
    let mut i: usize = 0;
    while i < entries.len()
        invariant
            i <= entries.len(),
            entries@ == old(entries)@,
            keys_unique(entries@),
            forall|k: int| 0 <= k < i ==> entries@[k].0@ != key@,
        decreases entries.len() - i,
    {
        if entries[i].0.same_key(&key) {
            proof {
                lemma_entries_map_update(entries@, i as int, (key, value));
                let j = choose|j: int| 0 <= j < entries@.len() && #[trigger] entries@[j].0@ == key@;
                assert(entries@[i as int].0@ == key@);
                if j != i {
                    if j < i {
                        assert(entries@[j].0@ != entries@[i as int].0@);
                    } else {
                        assert(entries@[i as int].0@ != entries@[j].0@);
                    }
                }
            }
            entries.set(i, (key, value));
            return;
        }
        i = i + 1;
    }
    proof {
        lemma_entries_map(entries@);
        lemma_entries_map_push(entries@, (key, value));
    }
    entries.push((key, value));
}

/// Removing an entry with a key unbinds the key and keeps keys unique.
pub proof fn lemma_entries_map_remove<K: View, V>(s: Seq<(K, V)>, j: int)
    requires
        keys_unique(s),
        0 <= j < s.len(),
    ensures
        keys_unique(s.remove(j)),
        entries_map(s.remove(j)) =~= entries_map(s).remove(s[j].0@),
{
    let t = s.remove(j);
    assert forall|a: int, b: int| 0 <= a < b < t.len() implies t[a].0@ != t[b].0@ by {
        let a2 = if a < j { a } else { a + 1 };
        let b2 = if b < j { b } else { b + 1 };
        assert(t[a] == s[a2]);
        assert(t[b] == s[b2]);
    }
    lemma_entries_map(s);
    lemma_entries_map(t);
    let k0 = s[j].0@;
    assert forall|k: K::V| #[trigger] entries_map(t).contains_key(k) <==> entries_map(s).remove(
        k0,
    ).contains_key(k) by {
        if exists|i: int| 0 <= i < t.len() && t[i].0@ == k {
            let i = choose|i: int| 0 <= i < t.len() && t[i].0@ == k;
            let i2 = if i < j { i } else { i + 1 };
            assert(t[i] == s[i2]);
            assert(s[i2].0@ == k);
        }
        if entries_map(s).contains_key(k) && k != k0 {
            let i = choose|i: int| 0 <= i < s.len() && s[i].0@ == k;
            let i2 = if i < j { i } else { i - 1 };
            assert(t[i2] == s[i]);
            assert(t[i2].0@ == k);
        }
    }
    assert forall|k: K::V| #[trigger] entries_map(t).contains_key(k) implies entries_map(t)[k]
        == entries_map(s)[k] by {
        let i = choose|i: int| 0 <= i < t.len() && t[i].0@ == k;
        let i2 = if i < j { i } else { i + 1 };
        assert(t[i] == s[i2]);
        assert(entries_map(t)[t[i].0@] == t[i].1);
        assert(entries_map(s)[s[i2].0@] == s[i2].1);
    }
}

/// Takes the entry for `key` out of a list of entries with unique keys,
/// giving back its value, if there is one.
pub fn take_entry<K: EntryKey, V>(entries: &mut Vec<(K, V)>, key: &K) -> (r: Option<V>)
    requires
        keys_unique(old(entries)@),
    ensures
        keys_unique(final(entries)@),
        entries_map(final(entries)@) == entries_map(old(entries)@).remove(key@),
        r == (if entries_map(old(entries)@).contains_key(key@) {
            Some(entries_map(old(entries)@)[key@])
        } else {
            None
        }),
{
    let mut i: usize = 0;
    while i < entries.len()
        invariant
            i <= entries.len(),
            entries@ == old(entries)@,
            keys_unique(entries@),
            forall|k: int| 0 <= k < i ==> entries@[k].0@ != key@,
        decreases entries.len() - i,
    {
        if entries[i].0.same_key(key) {
            proof {
                lemma_entries_map_remove(entries@, i as int);
                lemma_entries_map(entries@);
            }
            let (_, v) = entries.remove(i);
            return Some(v);
        }
        i = i + 1;
    }
    proof {
        lemma_entries_map(entries@);
        assert(entries_map(entries@).remove(key@) =~= entries_map(entries@));
    }
    None
}

/// The value bound to `key` in a list of entries, if any.
pub fn get_entry<'a, K: EntryKey, V>(entries: &'a Vec<(K, V)>, key: &K) -> (r: Option<&'a V>)
    requires
        keys_unique(entries@),
    ensures
        r is Some <==> entries_map(entries@).contains_key(key@),
        r matches Some(v) ==> *v == entries_map(entries@)[key@],
{
    let mut i: usize = 0;
    while i < entries.len()
        invariant
            i <= entries.len(),
            keys_unique(entries@),
            forall|k: int| 0 <= k < i ==> entries@[k].0@ != key@,
        decreases entries.len() - i,
    {
        if entries[i].0.same_key(key) {
            proof {
                lemma_entries_map(entries@);
                assert(entries@[i as int].0@ == key@);
            }
            return Some(&entries[i].1);
        }
        i = i + 1;
    }
    proof {
        lemma_entries_map(entries@);
    }
    None
}

/// Whether a list of entries has an entry for `key`.
pub fn has_entry<K: EntryKey, V>(entries: &Vec<(K, V)>, key: &K) -> (r: bool)
    ensures
        r == entries_map(entries@).contains_key(key@),
{
    let mut i: usize = 0;
    while i < entries.len()
        invariant
            i <= entries.len(),
            forall|k: int| 0 <= k < i ==> entries@[k].0@ != key@,
        decreases entries.len() - i,
    {
        if entries[i].0.same_key(key) {
            proof {
                lemma_entries_map(entries@);
                assert(entries@[i as int].0@ == key@);
            }
            return true;
        }
        i = i + 1;
    }
    proof {
        lemma_entries_map(entries@);
    }
    false
}

} // verus!
