//! Maps from `u32` keys that are walked in ascending order of their keys: what the walk of a
//! map is, and a map that is kept as a sorted vector.

use vstd::prelude::*;

verus! {

/// The keys grow from each entry to the next.
pub open spec fn ascending<V>(entries: Seq<(u32, V)>) -> bool {
    forall|i: int, j: int|
        0 <= i < j < entries.len() ==> (#[trigger] entries[i]).0 < (#[trigger] entries[j]).0
}

/// Some entry has the key `key`.
pub open spec fn has_key<V>(entries: Seq<(u32, V)>, key: u32) -> bool {
    exists|i: int| 0 <= i < entries.len() && (#[trigger] entries[i]).0 == key
}

/// The values of the entries by their keys.
pub open spec fn by_key<V>(entries: Seq<(u32, V)>) -> Map<u32, V> {
    Map::new(
        |key: u32| has_key(entries, key),
        |key: u32|
            entries[choose|i: int| 0 <= i < entries.len() && (#[trigger] entries[i]).0 == key].1,
    )
}

/// The number of entries whose key is below `key`.
pub open spec fn count_below<V>(entries: Seq<(u32, V)>, key: u32) -> nat
    decreases entries.len(),
{
    if entries.len() == 0 {
        0
    } else {
        count_below(entries.drop_last(), key) + if entries.last().0 < key {
            1nat
        } else {
            0nat
        }
    }
}

/// In an ascending sequence the entries below a key are the first ones.
pub proof fn lemma_count_below<V>(entries: Seq<(u32, V)>, key: u32, at: int)
    requires
        ascending(entries),
        0 <= at <= entries.len(),
        forall|i: int| 0 <= i < at ==> (#[trigger] entries[i]).0 < key,
        forall|i: int| at <= i < entries.len() ==> (#[trigger] entries[i]).0 >= key,
    ensures
        count_below(entries, key) == at,
    decreases entries.len(),
{
    if entries.len() > 0 {
        let rest = entries.drop_last();
        if at == entries.len() {
            lemma_count_below(rest, key, at - 1);
        } else {
            lemma_count_below(rest, key, at);
        }
    }
}

/// In an ascending sequence each entry is the one found by its key.
pub proof fn lemma_by_key<V>(entries: Seq<(u32, V)>, i: int)
    requires
        ascending(entries),
        0 <= i < entries.len(),
    ensures
        by_key(entries).contains_key(entries[i].0),
        by_key(entries)[entries[i].0] == entries[i].1,
{
    let key = entries[i].0;
    let j = choose|j: int| 0 <= j < entries.len() && (#[trigger] entries[j]).0 == key;
    assert(j == i);
}

/// Taking an entry out of an ascending sequence takes its key out of the map.
proof fn lemma_removed<V>(before: Seq<(u32, V)>, at: int)
    requires
        ascending(before),
        0 <= at < before.len(),
    ensures
        ascending(before.remove(at)),
        by_key(before.remove(at)) == by_key(before).remove(before[at].0),
{
    let after = before.remove(at);
    let key = before[at].0;
    assert(ascending(after));
    assert forall|k: u32| has_key(after, k) <==> (k != key && has_key(before, k)) by {
        if k != key && has_key(before, k) {
            let i = choose|i: int| 0 <= i < before.len() && (#[trigger] before[i]).0 == k;
            if i < at {
                assert(after[i].0 == k);
            } else {
                assert(after[i - 1].0 == k);
            }
        }
    }
    assert forall|k: u32| has_key(after, k) implies by_key(after)[k] == by_key(before).remove(
        key,
    )[k] by {
        let i = choose|i: int| 0 <= i < after.len() && (#[trigger] after[i]).0 == k;
        lemma_by_key(after, i);
        if i < at {
            lemma_by_key(before, i);
        } else {
            lemma_by_key(before, i + 1);
        }
    }
}

/// Putting an entry with a new key where the order has it adds it to the map.
proof fn lemma_inserted<V>(before: Seq<(u32, V)>, at: int, key: u32, value: V)
    requires
        ascending(before),
        0 <= at <= before.len(),
        forall|i: int| 0 <= i < at ==> (#[trigger] before[i]).0 < key,
        forall|i: int| at <= i < before.len() ==> (#[trigger] before[i]).0 > key,
    ensures
        ascending(before.insert(at, (key, value))),
        by_key(before.insert(at, (key, value))) == by_key(before).insert(key, value),
{
    let after = before.insert(at, (key, value));
    assert(ascending(after));
    assert forall|k: u32| has_key(after, k) <==> (k == key || has_key(before, k)) by {
        if k == key {
            assert(after[at].0 == k);
        } else if has_key(before, k) {
            let i = choose|i: int| 0 <= i < before.len() && (#[trigger] before[i]).0 == k;
            if i < at {
                assert(after[i].0 == k);
            } else {
                assert(after[i + 1].0 == k);
            }
        }
    }
    assert forall|k: u32| has_key(after, k) implies by_key(after)[k] == by_key(before).insert(
        key,
        value,
    )[k] by {
        let i = choose|i: int| 0 <= i < after.len() && (#[trigger] after[i]).0 == k;
        lemma_by_key(after, i);
        if i < at {
            lemma_by_key(before, i);
        } else if i > at {
            lemma_by_key(before, i - 1);
        }
    }
}

/// The map fixes the walk: two ascending sequences with the same values by the same keys are
/// one sequence.
pub proof fn lemma_same_map_same_entries<V>(first: Seq<(u32, V)>, second: Seq<(u32, V)>)
    requires
        ascending(first),
        ascending(second),
        by_key(first) == by_key(second),
    ensures
        first == second,
    decreases first.len(),
{
    if first.len() == 0 {
        if second.len() > 0 {
            lemma_by_key(second, 0);
            assert(has_key(first, second[0].0));
        }
        assert(first =~= second);
    } else {
        let last = first.len() - 1;
        lemma_by_key(first, last);
        assert(has_key(second, first[last].0));
        let at = choose|at: int| 0 <= at < second.len() && (#[trigger] second[at]).0 == first[last].0;
        lemma_by_key(second, at);
        // The greatest key of either sequence is the greatest key of the other.
        if at < second.len() - 1 {
            lemma_by_key(second, second.len() - 1);
            assert(has_key(first, second[second.len() - 1].0));
            let back = choose|back: int|
                0 <= back < first.len() && (#[trigger] first[back]).0 == second[second.len()
                    - 1].0;
            assert(second[at].0 < second[second.len() - 1].0);
            if back < last {
                assert(first[back].0 < first[last].0);
            }
        }
        lemma_removed(first, last);
        lemma_removed(second, at);
        assert(first.remove(last) =~= first.drop_last());
        assert(second.remove(at) =~= second.drop_last());
        lemma_same_map_same_entries(first.drop_last(), second.drop_last());
        assert(first =~= first.drop_last().push(first[last]));
        assert(second =~= second.drop_last().push(second[at]));
    }
}

/// Where a key would stand in an ascending sequence: after the entries with smaller keys and
/// before the others.
proof fn lemma_split<V>(entries: Seq<(u32, V)>, key: u32) -> (at: int)
    requires
        ascending(entries),
    ensures
        0 <= at <= entries.len(),
        forall|i: int| 0 <= i < at ==> (#[trigger] entries[i]).0 < key,
        forall|i: int| at <= i < entries.len() ==> (#[trigger] entries[i]).0 >= key,
    decreases entries.len(),
{
    if entries.len() == 0 {
        0
    } else if entries.last().0 < key {
        assert forall|i: int| 0 <= i < entries.len() implies (#[trigger] entries[i]).0 < key by {
            if i < entries.len() - 1 {
                assert(entries[i].0 < entries[entries.len() - 1].0);
            }
        }
        entries.len() as int
    } else {
        let rest = entries.drop_last();
        assert forall|i: int, j: int| 0 <= i < j < rest.len() implies (#[trigger] rest[i]).0 < (
        #[trigger] rest[j]).0 by {
            assert(entries[i].0 < entries[j].0);
        }
        let at = lemma_split(rest, key);
        assert forall|i: int| 0 <= i < at implies (#[trigger] entries[i]).0 < key by {
            assert(rest[i].0 < key);
        }
        assert forall|i: int| at <= i < entries.len() implies (#[trigger] entries[i]).0
            >= key by {
            if i < entries.len() - 1 {
                assert(rest[i].0 >= key);
            }
        }
        at
    }
}

/// An ascending sequence has as many entries as its map has keys.
pub proof fn lemma_by_key_len<V>(entries: Seq<(u32, V)>)
    requires
        ascending(entries),
    ensures
        by_key(entries).dom().finite(),
        by_key(entries).dom().len() == entries.len(),
    decreases entries.len(),
{
    if entries.len() == 0 {
        assert(by_key(entries).dom() =~= Set::empty());
    } else {
        let last = entries.len() - 1;
        lemma_by_key(entries, last);
        lemma_removed(entries, last);
        assert(entries.remove(last) =~= entries.drop_last());
        lemma_by_key_len(entries.drop_last());
        assert(by_key(entries).dom() =~= by_key(entries.drop_last()).dom().insert(
            entries[last].0,
        ));
    }
}

/// Every finite map has its entries in an ascending sequence.
pub proof fn lemma_ascending_exists<V>(map: Map<u32, V>)
    requires
        map.dom().finite(),
    ensures
        exists|entries: Seq<(u32, V)>| ascending(entries) && #[trigger] by_key(entries) == map,
    decreases map.dom().len(),
{
    if map.dom().len() == 0 {
        let entries = Seq::<(u32, V)>::empty();
        assert(map.dom() =~= Set::empty());
        assert(by_key(entries) =~= map);
    } else {
        let key = map.dom().choose();
        let rest = map.remove(key);
        lemma_ascending_exists(rest);
        let entries = choose|entries: Seq<(u32, V)>|
            ascending(entries) && #[trigger] by_key(entries) == rest;
        let at = lemma_split(entries, key);
        assert forall|i: int| at <= i < entries.len() implies (#[trigger] entries[i]).0 > key by {
            lemma_by_key(entries, i);
        }
        lemma_inserted(entries, at, key, map[key]);
        assert(rest.insert(key, map[key]) =~= map);
        assert(by_key(entries.insert(at, (key, map[key]))) == map);
    }
}

/// The entries of a finite map in ascending order of their keys.
pub open spec fn in_order<V>(map: Map<u32, V>) -> Seq<(u32, V)> {
    choose|entries: Seq<(u32, V)>| ascending(entries) && #[trigger] by_key(entries) == map
}

/// The entries of a finite map in order are ascending, they are the entries of the map, and
/// they are as many as the map has keys.
pub proof fn lemma_in_order<V>(map: Map<u32, V>)
    requires
        map.dom().finite(),
    ensures
        ascending(in_order(map)),
        by_key(in_order(map)) == map,
        in_order(map).len() == map.dom().len(),
{
    lemma_ascending_exists(map);
    lemma_by_key_len(in_order(map));
}

/// A map from `u32` keys to values, walked in ascending order of the keys.
#[derive(Debug)]
pub struct SortedMap<V> {
    entries: Vec<(u32, V)>,
}

impl<V> View for SortedMap<V> {
    type V = Map<u32, V>;

    /// The values by their keys.
    open spec fn view(&self) -> Map<u32, V> {
        by_key(self.entries())
    }
}

impl<V> SortedMap<V> {
    /// The entries in the order in which they are walked.
    pub closed spec fn entries(&self) -> Seq<(u32, V)> {
        self.entries@
    }

    /// No key occurs twice, and the entries stand in ascending order of their keys.
    pub open spec fn wf(&self) -> bool {
        ascending(self.entries())
    }

    /// The map without entries.
    pub fn new() -> (map: Self)
        ensures
            map.wf(),
            map.entries() == Seq::<(u32, V)>::empty(),
            map@ == Map::<u32, V>::empty(),
    {
        let map = SortedMap { entries: Vec::new() };
        map
    }

    /// The number of entries.
    pub fn len(&self) -> (n: usize)
        ensures
            n == self.entries().len(),
    {
        self.entries.len()
    }

    /// The entry at `index`, counted in ascending order of the keys.
    pub fn entry(&self, index: usize) -> (entry: &(u32, V))
        requires
            index < self.entries().len(),
        ensures
            *entry == self.entries()[index as int],
    {
        &self.entries[index]
    }

    /// The number of entries whose key is below `key`, which is the index of the first entry
    /// whose key is `key` or above.
    pub fn position(&self, key: u32) -> (at: usize)
        requires
            self.wf(),
        ensures
            at == count_below(self.entries(), key),
            at <= self.entries().len(),
            forall|i: int| 0 <= i < at ==> (#[trigger] self.entries()[i]).0 < key,
            forall|i: int| at <= i < self.entries().len() ==> (#[trigger] self.entries()[i]).0 >= key,
            self@.contains_key(key) <==> at < self.entries().len() && self.entries()[at as int].0
                == key,
    {
        let mut low: usize = 0;
        let mut high: usize = self.entries.len();
        while low < high
            invariant
                low <= high <= self.entries().len(),
                self.wf(),
                forall|i: int| 0 <= i < low ==> (#[trigger] self.entries()[i]).0 < key,
                forall|i: int|
                    high <= i < self.entries().len() ==> (#[trigger] self.entries()[i]).0 >= key,
            decreases high - low,
        {
            let middle = low + (high - low) / 2;
            if self.entries[middle].0 < key {
                low = middle + 1;
            } else {
                high = middle;
            }
        }
        proof {
            lemma_count_below(self.entries(), key, low as int);
        }
        low
    }

    /// Takes the value of `key` out of the map, if it has one.
    pub fn remove(&mut self, key: u32) -> (value: Option<V>)
        requires
            old(self).wf(),
        ensures
            final(self).wf(),
            final(self)@ == old(self)@.remove(key),
            value == if old(self)@.contains_key(key) {
                Some(old(self)@[key])
            } else {
                None
            },
    {
        let at = self.position(key);
        if at < self.entries.len() && self.entries[at].0 == key {
            proof {
                lemma_by_key(self.entries(), at as int);
                lemma_removed(self.entries(), at as int);
            }
            let (_, value) = self.entries.remove(at);
            Some(value)
        } else {
            None
        }
    }

    /// Gives `key` the value `value`, in place of the one it had, if any.
    pub fn insert(&mut self, key: u32, value: V)
        requires
            old(self).wf(),
        ensures
            final(self).wf(),
            final(self)@ == old(self)@.insert(key, value),
    {
        let _ = self.remove(key);
        let at = self.position(key);
        proof {
            lemma_inserted(self.entries(), at as int, key, value);
        }
        self.entries.insert(at, (key, value));
    }
}

} // verus!
