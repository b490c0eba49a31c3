//! The order in which the partitions of a catalog are joined: ascending by the start of their
//! range, as the map that holds them is walked.

use super::Partition;
use crate::utils::sorted_map::{
    by_key, has_key, in_order, lemma_by_key, lemma_in_order, lemma_same_map_same_entries,
};
use std::collections::BTreeMap;
use vstd::prelude::*;
use vstd::std_specs::btree::{axiom_increasing_seq_meaning, increasing_seq};
use vstd::std_specs::cmp::OrdSpec;
use vstd::std_specs::iter::IteratorSpec;

verus! {

/// The partitions of a catalog in ascending order of the start of their range.
pub open spec fn partitions_of(catalog: Map<u32, Partition>) -> Seq<Partition> {
    in_order(catalog).map_values(|entry: (u32, Partition)| entry.1)
}

/// What the references point to.
pub open spec fn pointed_to(partitions: Seq<&Partition>) -> Seq<Partition> {
    partitions.map_values(|partition: &Partition| *partition)
}

/// Walks the map in the order of its keys.
pub fn walk<'a>(partitions: &'a BTreeMap<u32, Partition>) -> (walked: Vec<&'a Partition>)
    ensures
        pointed_to(walked@) == partitions_of(partitions@),
{
    let mut walked: Vec<&'a Partition> = Vec::new();
    let ghost all = partitions.iter().remaining();
    for entry in iter: partitions.iter()
        invariant
            iter.seq() == all,
            all == partitions.iter().remaining(),
            walked@.len() == iter.index(),
            forall|i: int| 0 <= i < walked@.len() ==> (#[trigger] walked@[i]) == all[i].1,
    {
        walked.push(entry.1);
    }
    proof {
        let entries = all.map_values(|entry: (&u32, &Partition)| (*entry.0, *entry.1));
        let keys = all.map_values(|entry: (&u32, &Partition)| *entry.0);
        assert(increasing_seq(keys));
        axiom_increasing_seq_meaning::<u32>(keys);
        assert forall|i: int, j: int| 0 <= i < j < entries.len() implies (
        #[trigger] entries[i]).0 < (#[trigger] entries[j]).0 by {
            assert(keys[i] == entries[i].0 && keys[j] == entries[j].0);
            assert(keys[i].cmp_spec(&keys[j]) is Less);
        }
        assert forall|start: u32| #[trigger]
            by_key(entries).dom().contains(start) == partitions@.dom().contains(start) && (
            partitions@.dom().contains(start) ==> by_key(entries)[start] == partitions@[start]) by {
            if has_key(entries, start) {
                let i = choose|i: int|
                    0 <= i < entries.len() && (#[trigger] entries[i]).0 == start;
                assert(partitions@.contains_key(*all[i].0));
                lemma_by_key(entries, i);
            }
            if partitions@.contains_key(start) {
                assert(all.contains((&start, &partitions@[start])));
                let i = choose|i: int|
                    0 <= i < all.len() && all[i] == (&start, &partitions@[start]);
                assert(entries[i].0 == start);
                lemma_by_key(entries, i);
            }
        }
        assert(by_key(entries) =~= partitions@);
        lemma_in_order(partitions@);
        lemma_same_map_same_entries(entries, in_order(partitions@));
        assert(pointed_to(walked@) =~= partitions_of(partitions@));
    }
    walked
}

} // verus!
