//! A map from texts to values whose keys are kept in byte order, and walked in that order.

use crate::text::{precedes, same_text, text_before, text_order};
use vstd::prelude::*;
use vstd::string::*;

verus! {

/// Whether keys come in strict byte order.
pub open spec fn ascending(keys: Seq<Seq<char>>) -> bool {
    forall|i: int, j: int| 0 <= i < j < keys.len() ==> text_before(keys[i], keys[j])
}

/// Whether `keys` lists the members of `names` in strict byte order.
pub open spec fn lists(keys: Seq<Seq<char>>, names: Set<Seq<char>>) -> bool {
    ascending(keys) && keys.to_set() == names
}

/// The members of a finite set of texts in byte order.
pub open spec fn in_order(names: Set<Seq<char>>) -> Seq<Seq<char>> {
    choose|keys: Seq<Seq<char>>| lists(keys, names)
}

/// A set of texts has one listing in byte order.
pub proof fn one_listing(a: Seq<Seq<char>>, b: Seq<Seq<char>>)
    requires
        ascending(a),
        ascending(b),
        a.to_set() == b.to_set(),
    ensures
        a == b,
    decreases a.len(),
{
    if a.len() == 0 {
        if b.len() > 0 {
            assert(b.to_set().contains(b[0]));
            assert(a.to_set().contains(b[0]));
        }
        assert(a =~= b);
    } else {
        assert(a.to_set().contains(a[0]));
        assert(b.to_set().contains(a[0]));
        let j = choose|j: int| 0 <= j < b.len() && b[j] == a[0];
        assert(b.to_set().contains(b[0]));
        assert(a.to_set().contains(b[0]));
        let i = choose|i: int| 0 <= i < a.len() && a[i] == b[0];
        if a[0] != b[0] {
            text_order(a[0], b[0], a[0]);
            assert(text_before(b[0], b[j]));
            assert(text_before(a[0], a[i]));
        }
        let p = a.subrange(1, a.len() as int);
        let q = b.subrange(1, b.len() as int);
        assert forall|x: Seq<char>| p.to_set().contains(x) == q.to_set().contains(x) by {
            text_order(a[0], a[0], a[0]);
            if p.to_set().contains(x) {
                let k = choose|k: int| 0 <= k < p.len() && p[k] == x;
                assert(a[k + 1] == x);
                assert(text_before(a[0], a[k + 1]));
                assert(a.to_set().contains(x));
                let l = choose|l: int| 0 <= l < b.len() && b[l] == x;
                assert(q[l - 1] == x);
            }
            if q.to_set().contains(x) {
                let k = choose|k: int| 0 <= k < q.len() && q[k] == x;
                assert(b[k + 1] == x);
                assert(text_before(b[0], b[k + 1]));
                assert(b.to_set().contains(x));
                let l = choose|l: int| 0 <= l < a.len() && a[l] == x;
                assert(p[l - 1] == x);
            }
        }
        assert(p.to_set() =~= q.to_set());
        one_listing(p, q);
        assert(a =~= seq![a[0]] + p);
        assert(b =~= seq![b[0]] + q);
    }
}

proof fn placed(keys: Seq<Seq<char>>, name: Seq<char>) -> (all: Seq<Seq<char>>)
    requires
        ascending(keys),
        !keys.contains(name),
    ensures
        ascending(all),
        all.to_set() == keys.to_set().insert(name),
    decreases keys.len(),
{
    if keys.len() == 0 {
        let all = seq![name];
        assert forall|x: Seq<char>| all.to_set().contains(x) == keys.to_set().insert(name).contains(
            x,
        ) by {
            if x == name {
                assert(all[0] == x);
            }
        }
        assert(all.to_set() =~= keys.to_set().insert(name));
        all
    } else {
        let first = keys[0];
        assert(keys.contains(first));
        text_order(name, first, name);
        let rest = keys.subrange(1, keys.len() as int);
        assert forall|x: Seq<char>| #[trigger] keys.contains(x) <==> x == first || rest.contains(
            x,
        ) by {
            if keys.contains(x) && x != first {
                let i = keys.index_of(x);
                assert(rest[i - 1] == x);
            }
            if rest.contains(x) {
                let i = rest.index_of(x);
                assert(keys[i + 1] == x);
            }
        }
        let tail = if text_before(name, first) {
            keys
        } else {
            placed(rest, name)
        };
        let head = if text_before(name, first) {
            name
        } else {
            first
        };
        let all = seq![head] + tail;
        assert forall|x: Seq<char>| #[trigger] tail.contains(x) implies text_before(head, x) by {
            assert(tail.to_set().contains(x));
            if text_before(name, first) {
                let i = keys.index_of(x);
                text_order(name, first, keys[i]);
                if i > 0 {
                    assert(text_before(keys[0], keys[i]));
                }
            } else if x != name {
                assert(rest.to_set().contains(x));
                let i = rest.index_of(x);
                assert(text_before(keys[0], keys[i + 1]));
            }
        }
        assert forall|i: int, j: int| 0 <= i < j < all.len() implies text_before(all[i], all[j]) by {
            assert(all[j] == tail[j - 1]);
            assert(tail.contains(tail[j - 1]));
            if i > 0 {
                assert(all[i] == tail[i - 1]);
            }
        }
        assert forall|x: Seq<char>| all.to_set().contains(x) == keys.to_set().insert(name).contains(
            x,
        ) by {
            if all.contains(x) {
                let i = all.index_of(x);
                if i > 0 {
                    assert(tail[i - 1] == x);
                    assert(tail.to_set().contains(x));
                }
            }
            if tail.to_set().contains(x) {
                let i = tail.index_of(x);
                assert(all[i + 1] == x);
            }
            if x == head {
                assert(all[0] == x);
            }
            assert(keys.to_set().contains(x) == keys.contains(x));
            assert(rest.to_set().contains(x) == rest.contains(x));
            assert(tail.to_set().contains(x) == tail.contains(x));
        }
        assert(all.to_set() =~= keys.to_set().insert(name));
        all
    }
}

/// Every finite set of texts can be listed in byte order.
pub proof fn every_finite_set_is_listed(names: Set<Seq<char>>)
    requires
        names.finite(),
    ensures
        lists(in_order(names), names),
    decreases names.len(),
{
    if names.len() == 0 {
        names.lemma_len0_is_empty();
        let none = Seq::<Seq<char>>::empty();
        assert(none.to_set() =~= names);
        assert(lists(none, names));
    } else {
        let name = names.choose();
        let fewer = names.remove(name);
        every_finite_set_is_listed(fewer);
        let keys = in_order(fewer);
        if keys.contains(name) {
            assert(keys.to_set().contains(name));
        }
        let all = placed(keys, name);
        assert(all.to_set() =~= names);
        assert(lists(all, names));
    }
}

/// An ordered map from texts to values. The one of the standard library is specified only for
/// keys whose order is known to the verifier, which that of texts is not.
#[derive(Debug)]
pub struct Table<V> {
    entries: Vec<(String, V)>,
}

/// The keys of some entries.
pub open spec fn keys_of<V>(entries: Seq<(String, V)>) -> Seq<Seq<char>> {
    entries.map_values(|entry: (String, V)| entry.0@)
}

/// What some entries with different keys hold.
pub open spec fn held<V>(entries: Seq<(String, V)>) -> Map<Seq<char>, V> {
    Map::new(
        |key: Seq<char>| keys_of(entries).contains(key),
        |key: Seq<char>| entries[keys_of(entries).index_of(key)].1,
    )
}

proof fn held_at<V>(entries: Seq<(String, V)>, i: int)
    requires
        ascending(keys_of(entries)),
        0 <= i < entries.len(),
    ensures
        held(entries).dom().contains(entries[i].0@),
        held(entries)[entries[i].0@] == entries[i].1,
{
    let keys = keys_of(entries);
    let key = entries[i].0@;
    assert(keys[i] == key);
    assert(keys.contains(key));
    let j = keys.index_of(key);
    text_order(key, key, key);
    if i < j {
        assert(text_before(keys[i], keys[j]));
    } else if j < i {
        assert(text_before(keys[j], keys[i]));
    }
}

proof fn held_is<V>(entries: Seq<(String, V)>, map: Map<Seq<char>, V>)
    requires
        ascending(keys_of(entries)),
        forall|i: int|
            0 <= i < entries.len() ==> map.dom().contains((#[trigger] entries[i]).0@)
                && map[entries[i].0@] == entries[i].1,
        forall|key: Seq<char>| map.dom().contains(key) ==> #[trigger] keys_of(entries).contains(key),
    ensures
        held(entries) == map,
{
    let keys = keys_of(entries);
    assert forall|key: Seq<char>| held(entries).dom().contains(key) == map.dom().contains(key) by {
        if keys.contains(key) {
            let i = keys.index_of(key);
            assert(entries[i].0@ == key);
        }
        if map.dom().contains(key) {
            assert(keys.contains(key));
        }
    }
    assert forall|key: Seq<char>| held(entries).dom().contains(key) implies held(entries)[key]
        == map[key] by {
        let i = keys.index_of(key);
        assert(entries[i].0@ == key);
        held_at(entries, i);
    }
    assert(held(entries) =~= map);
}

impl<V> Table<V> {
    #[verifier::type_invariant]
    closed spec fn ordered(self) -> bool {
        ascending(keys_of(self.entries@))
    }

    /// The values by key.
    pub closed spec fn view(&self) -> Map<Seq<char>, V> {
        held(self.entries@)
    }

    /// The keys in byte order.
    pub closed spec fn keys(&self) -> Seq<Seq<char>> {
        keys_of(self.entries@)
    }

    /// An empty table.
    pub fn new() -> (table: Self)
        ensures
            table@ == Map::<Seq<char>, V>::empty(),
            table.keys() == Seq::<Seq<char>>::empty(),
    {
        let table = Table { entries: Vec::new() };
        assert(table.keys() =~= Seq::<Seq<char>>::empty());
        assert(table@ =~= Map::<Seq<char>, V>::empty());
        table
    }

    /// How many keys the table holds.
    pub fn len(&self) -> (count: usize)
        ensures
            count == self.keys().len(),
            count == self@.dom().len(),
            self@.dom().finite(),
            self.keys() == in_order(self@.dom()),
            lists(self.keys(), self@.dom()),
            forall|i: int|
                0 <= i < self.keys().len() ==> self@.dom().contains(#[trigger] self.keys()[i]),
    {
        proof {
            use_type_invariant(self);
            let keys = self.keys();
            assert(keys.to_set() =~= self@.dom());
            assert(lists(keys, self@.dom()));
            let listed = in_order(self@.dom());
            assert(lists(listed, self@.dom()));
            one_listing(listed, keys);
            assert(keys.no_duplicates()) by {
                assert forall|i: int, j: int|
                    0 <= i < keys.len() && 0 <= j < keys.len() && i != j implies keys[i]
                    != keys[j] by {
                    text_order(keys[i], keys[j], keys[i]);
                    if i < j {
                        assert(text_before(keys[i], keys[j]));
                    } else {
                        assert(text_before(keys[j], keys[i]));
                    }
                }
            }
            keys.unique_seq_to_set();
            assert forall|i: int| 0 <= i < keys.len() implies self@.dom().contains(
                #[trigger] keys[i],
            ) by {
                assert(keys.contains(keys[i]));
            }
        }
        self.entries.len()
    }

    /// The key at a position of the byte order, and its value.
    pub fn at(&self, i: usize) -> (entry: (&str, &V))
        requires
            i < self.keys().len(),
        ensures
            entry.0@ == self.keys()[i as int],
            self@.dom().contains(self.keys()[i as int]),
            *entry.1 == self@[self.keys()[i as int]],
    {
        proof {
            use_type_invariant(self);
            held_at(self.entries@, i as int);
        }
        let entry = &self.entries[i];
        (entry.0.as_str(), &entry.1)
    }

    fn position(&self, key: &str) -> (found: (usize, bool))
        ensures
            found.0 <= self.entries@.len(),
            forall|j: int| 0 <= j < found.0 ==> text_before(#[trigger] self.keys()[j], key@),
            found.1 ==> found.0 < self.entries@.len() && self.keys()[found.0 as int] == key@,
            !found.1 ==> !self@.dom().contains(key@) && forall|j: int|
                found.0 <= j < self.entries@.len() ==> text_before(key@, #[trigger] self.keys()[j]),
    {
        proof {
            use_type_invariant(self);
        }
        let mut i: usize = 0;
        while i < self.entries.len() && precedes(self.entries[i].0.as_str(), key)
            invariant
                i <= self.entries@.len(),
                forall|j: int| 0 <= j < i ==> text_before(#[trigger] self.keys()[j], key@),
            decreases self.entries@.len() - i,
        {
            assert(self.keys()[i as int] == self.entries@[i as int].0@);
            i = i + 1;
        }
        if i < self.entries.len() && same_text(self.entries[i].0.as_str(), key) {
            assert(self.keys()[i as int] == self.entries@[i as int].0@);
            return (i, true);
        }
        proof {
            let keys = self.keys();
            assert forall|j: int| i <= j < keys.len() implies text_before(
                key@,
                #[trigger] keys[j],
            ) by {
                assert(keys[i as int] == self.entries@[i as int].0@);
                text_order(key@, keys[i as int], keys[j]);
                if i < j {
                    assert(text_before(keys[i as int], keys[j]));
                }
            }
            if keys.contains(key@) {
                let j = keys.index_of(key@);
                text_order(key@, key@, key@);
                if j < i {
                    assert(text_before(keys[j], key@));
                } else {
                    assert(text_before(key@, keys[j]));
                }
            }
        }
        (i, false)
    }

    /// The value of a key.
    pub fn get(&self, key: &str) -> (value: Option<&V>)
        ensures
            value is Some <==> self@.dom().contains(key@),
            value matches Some(found) ==> *found == self@[key@],
    {
        let (i, found) = self.position(key);
        proof {
            use_type_invariant(self);
        }
        if found {
            proof {
                held_at(self.entries@, i as int);
                assert(self.keys()[i as int] == self.entries@[i as int].0@);
            }
            Some(&self.entries[i].1)
        } else {
            None
        }
    }

    /// Whether the table holds a key.
    pub fn contains(&self, key: &str) -> (found: bool)
        ensures
            found == self@.dom().contains(key@),
    {
        self.get(key).is_some()
    }

    /// Whether the table holds nothing.
    pub fn is_empty(&self) -> (empty: bool)
        ensures
            empty == (self@.dom() == Set::<Seq<char>>::empty()),
            empty == (self.keys().len() == 0),
    {
        let count: usize = self.len();
        proof {
            if count == 0 {
                self@.dom().lemma_len0_is_empty();
            }
        }
        count == 0
    }

    /// Sets the value of a key.
    pub fn insert(&mut self, key: String, value: V)
        ensures
            final(self)@ == old(self)@.insert(key@, value),
    {
        let (i, found) = self.position(key.as_str());
        proof {
            use_type_invariant(&*self);
        }
        let ghost before = self.entries@;
        let ghost map = self@;
        let ghost ks = self.keys();
        let mut entries: Vec<(String, V)> = Vec::new();
        std::mem::swap(&mut entries, &mut self.entries);
        if found {
            let _ = entries.remove(i);
        }
        entries.insert(i, (key, value));
        proof {
            let after = entries@;
            let keys = keys_of(before);
            assert forall|a: int| 0 <= a < before.len() implies keys[a] == (#[trigger] before[a]).0@ by {}
            if found {
                assert(after =~= before.update(i as int, (key, value)));
                assert(keys_of(after) =~= keys);
                assert forall|a: int| 0 <= a < after.len() implies map.insert(
                    key@,
                    value,
                ).dom().contains((#[trigger] after[a]).0@) && map.insert(key@, value)[after[a].0@]
                    == after[a].1 by {
                    if a != i {
                        assert(after[a] == before[a]);
                        held_at(before, a);
                        text_order(keys[a], keys[i as int], keys[a]);
                        if a < i {
                            assert(text_before(keys[a], keys[i as int]));
                        } else {
                            assert(text_before(keys[i as int], keys[a]));
                        }
                    }
                }
                assert forall|k: Seq<char>| map.insert(key@, value).dom().contains(k)
                    implies #[trigger] keys_of(after).contains(k) by {
                    if k == key@ {
                        assert(keys_of(after)[i as int] == k);
                    } else {
                        assert(keys.contains(k));
                    }
                }
            } else {
                assert(after =~= before.insert(i as int, (key, value)));
                assert(keys_of(after) =~= keys.insert(i as int, key@));
                let fresh = keys_of(after);
                assert forall|a: int, b: int| 0 <= a < b < fresh.len() implies text_before(
                    fresh[a],
                    fresh[b],
                ) by {
                    let p = if a < i {
                        a
                    } else {
                        a - 1
                    };
                    let q = if b < i {
                        b
                    } else {
                        b - 1
                    };
                    if a == i {
                        assert(fresh[b] == ks[q]);
                    } else if b == i {
                        assert(fresh[a] == ks[p]);
                    } else {
                        assert(fresh[a] == keys[p]);
                        assert(fresh[b] == keys[q]);
                    }
                }
                assert forall|a: int| 0 <= a < after.len() implies map.insert(
                    key@,
                    value,
                ).dom().contains((#[trigger] after[a]).0@) && map.insert(key@, value)[after[a].0@]
                    == after[a].1 by {
                    if a != i {
                        let p = if a < i {
                            a
                        } else {
                            a - 1
                        };
                        assert(after[a] == before[p]);
                        held_at(before, p);
                        assert(keys[p] == before[p].0@);
                        assert(keys.contains(keys[p]));
                    }
                }
                assert forall|k: Seq<char>| map.insert(key@, value).dom().contains(k)
                    implies #[trigger] fresh.contains(k) by {
                    if k == key@ {
                        assert(fresh[i as int] == k);
                    } else {
                        assert(keys.contains(k));
                        let p = keys.index_of(k);
                        if p < i {
                            assert(fresh[p] == k);
                        } else {
                            assert(fresh[p + 1] == k);
                        }
                    }
                }
            }
            held_is(after, map.insert(key@, value));
        }
        self.entries = entries;
    }

    /// Removes a key and its value.
    pub fn remove(&mut self, key: &str) -> (removed: Option<V>)
        ensures
            final(self)@ == old(self)@.remove(key@),
            removed is Some <==> old(self)@.dom().contains(key@),
            removed matches Some(value) ==> value == old(self)@[key@],
    {
        let (i, found) = self.position(key);
        proof {
            use_type_invariant(&*self);
        }
        let ghost before = self.entries@;
        let ghost map = self@;
        if !found {
            assert(self@ =~= map.remove(key@));
            return None;
        }
        proof {
            held_at(before, i as int);
            assert(keys_of(before)[i as int] == before[i as int].0@);
        }
        let mut entries: Vec<(String, V)> = Vec::new();
        std::mem::swap(&mut entries, &mut self.entries);
        let (_, removed) = entries.remove(i);
        proof {
            let after = entries@;
            let keys = keys_of(before);
            assert(after =~= before.remove(i as int));
            let fresh = keys_of(after);
            assert(fresh =~= keys.remove(i as int));
            assert forall|a: int, b: int| 0 <= a < b < fresh.len() implies text_before(
                fresh[a],
                fresh[b],
            ) by {
                let p = if a < i {
                    a
                } else {
                    a + 1
                };
                let q = if b < i {
                    b
                } else {
                    b + 1
                };
                assert(fresh[a] == keys[p]);
                assert(fresh[b] == keys[q]);
            }
            assert forall|a: int| 0 <= a < after.len() implies map.remove(key@).dom().contains(
                (#[trigger] after[a]).0@,
            ) && map.remove(key@)[after[a].0@] == after[a].1 by {
                let p = if a < i {
                    a
                } else {
                    a + 1
                };
                assert(after[a] == before[p]);
                held_at(before, p);
                assert(keys[p] == before[p].0@);
                text_order(keys[p], keys[i as int], keys[p]);
                if p < i {
                    assert(text_before(keys[p], keys[i as int]));
                } else {
                    assert(text_before(keys[i as int], keys[p]));
                }
            }
            assert forall|k: Seq<char>| map.remove(key@).dom().contains(k)
                implies #[trigger] fresh.contains(k) by {
                assert(keys.contains(k));
                let p = keys.index_of(k);
                if p < i {
                    assert(fresh[p] == k);
                } else {
                    assert(fresh[p - 1] == k);
                }
            }
            held_is(after, map.remove(key@));
        }
        self.entries = entries;
        Some(removed)
    }

}

/// Whether two tables have the same keys.
pub fn same_names<A, B>(left: &Table<A>, right: &Table<B>) -> (same: bool)
    ensures
        same == (left@.dom() == right@.dom()),
{
    let count: usize = left.len();
    if count != right.len() {
        return false;
    }
    let ghost keys = left.keys();
    let ghost others = right.keys();
    let mut i: usize = 0;
    while i < count
        invariant
            i <= count,
            keys == left.keys(),
            others == right.keys(),
            count == keys.len(),
            count == others.len(),
            lists(keys, left@.dom()),
            lists(others, right@.dom()),
            keys == in_order(left@.dom()),
            others == in_order(right@.dom()),
            forall|j: int| 0 <= j < i ==> #[trigger] keys[j] == others[j],
        decreases count - i,
    {
        let (a, _) = left.at(i);
        let (b, _) = right.at(i);
        if !same_text(a, b) {
            return false;
        }
        i = i + 1;
    }
    assert(keys =~= others);
    true
}

} // verus!
