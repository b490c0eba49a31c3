//! The table of colours by effective temperature.

use crate::utils::sorted_map::{lemma_by_key, SortedMap};
use vstd::prelude::*;

verus! {

/// Colours at chosen temperatures, in kelvin. What a colour is, is left to the user of the
/// table.
#[derive(Debug)]
pub struct TeffColorTable<C> {
    data: SortedMap<C>,
}

impl<C> View for TeffColorTable<C> {
    type V = Map<u32, C>;

    closed spec fn view(&self) -> Map<u32, C> {
        self.data@
    }
}

impl<C> TeffColorTable<C> {
    /// The temperatures stand in ascending order.
    pub closed spec fn wf(&self) -> bool {
        self.data.wf()
    }

    /// The table without colours.
    pub fn new() -> (table: Self)
        ensures
            table.wf(),
            table@ == Map::<u32, C>::empty(),
    {
        TeffColorTable { data: SortedMap::new() }
    }

    /// Gives the temperature `t_eff` the colour `color`, in place of the one it had, if any.
    pub fn insert(&mut self, t_eff: u32, color: C)
        requires
            old(self).wf(),
        ensures
            final(self).wf(),
            final(self)@ == old(self)@.insert(t_eff, color),
    {
        self.data.insert(t_eff, color);
    }

    /// The two entries that the colour at `t_eff` lies between: the one with the greatest
    /// temperature below `t_eff`, and the one with the least temperature that is `t_eff` or
    /// above. `None` where the table has no temperature below `t_eff`, or none at or above it.
    pub fn get(&self, t_eff: u32) -> (bounds: Option<(&(u32, C), &(u32, C))>)
        requires
            self.wf(),
        ensures
            match bounds {
                Some((lower, upper)) => {
                    &&& lower.0 < t_eff <= upper.0
                    &&& self@.contains_key(lower.0) && self@[lower.0] == lower.1
                    &&& self@.contains_key(upper.0) && self@[upper.0] == upper.1
                    &&& forall|t: u32| #[trigger]
                        self@.contains_key(t) ==> t <= lower.0 || upper.0 <= t
                },
                None => {
                    ||| forall|t: u32| #[trigger] self@.contains_key(t) ==> t < t_eff
                    ||| forall|t: u32| #[trigger] self@.contains_key(t) ==> t >= t_eff
                },
            },
    {
        let at = self.data.position(t_eff);
        proof {
            let entries = self.data.entries();
            assert forall|t: u32| #[trigger] self@.contains_key(t) implies (at > 0 ==> t
                <= entries[at - 1].0 || t >= t_eff) && (at == 0 ==> t >= t_eff) && (at
                == entries.len() ==> t < t_eff) && (at < entries.len() ==> t < t_eff
                || entries[at as int].0 <= t) by {
                // The entry with this temperature stands before or after the gap.
                let i = choose|i: int| 0 <= i < entries.len() && (#[trigger] entries[i]).0 == t;
                if i < at - 1 {
                    assert(entries[i].0 < entries[at - 1].0);
                }
                if i > at {
                    assert(entries[at as int].0 < entries[i].0);
                }
            }
        }
        if at == 0 || at == self.data.len() {
            return None;
        }
        proof {
            lemma_by_key(self.data.entries(), at - 1);
            lemma_by_key(self.data.entries(), at as int);
        }
        Some((self.data.entry(at - 1), self.data.entry(at)))
    }
}

} // verus!
