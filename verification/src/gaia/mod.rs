//! The partitioned catalog and the engine that joins its two tables.

pub mod file_name;
pub mod order;
pub mod records;
pub mod stream;

use std::path::PathBuf;
use vstd::prelude::*;

use self::file_name::{
    file_name_parts, parse_file_name, range_at, ASTROPHYSICAL_PARAMETERS, GAIA_SOURCE,
};
pub use self::records::{Action, Event, Record, Records, Row, State};
use self::order::{partitions_of, pointed_to, walk};
use crate::utils::sorted_map::{in_order, lemma_by_key, lemma_in_order};
use std::collections::BTreeMap;

verus! {

/// A file-system path. It is carried from the directory listing to whoever opens the file and is
/// never looked into.
#[verifier::external_type_specification]
#[verifier::external_body]
pub struct ExPathBuf(PathBuf);

/// A half-open interval `[start, end)` of the spatial index that names a partition.
#[derive(Clone, Copy, Debug)]
pub struct HealPixRange {
    pub start: u32,
    pub end: u32,
}

/// One slice of the catalog: its range and the file of each table, where there is one.
#[derive(Debug)]
pub struct Partition {
    pub healpix_range: HealPixRange,
    pub gaia_source: Option<PathBuf>,
    pub astrophysical_parameters: Option<PathBuf>,
}

/// One entry of the catalog's directory.
#[derive(Debug)]
pub struct Entry {
    pub file_name: String,
    pub path: PathBuf,
}

/// A table of the catalog.
#[derive(Clone, Copy, Debug, PartialEq, Eq, Structural)]
pub enum Table {
    /// The primary table.
    GaiaSource,
    /// The secondary table.
    AstrophysicalParameters,
}

/// The table and the start of the range that a file of the catalog is named by; `None` for a
/// name of another shape and for a name of any other table.
pub open spec fn catalog_file(file_name: Seq<char>) -> Option<(Table, u32)> {
    match file_name_parts(file_name) {
        Some((prefix, healpix_range)) => if prefix == GAIA_SOURCE@ {
            Some((Table::GaiaSource, healpix_range.start))
        } else if prefix == ASTROPHYSICAL_PARAMETERS@ {
            Some((Table::AstrophysicalParameters, healpix_range.start))
        } else {
            None
        },
        None => None,
    }
}

/// The catalog after `path` became the file of `table` for the partition that starts at
/// `start`: the partition is looked up, or made with no files, and given the file.
pub open spec fn with_table_file(
    catalog: Map<u32, Partition>,
    table: Table,
    start: u32,
    path: PathBuf,
) -> Map<u32, Partition> {
    let partition = if catalog.contains_key(start) {
        catalog[start]
    } else {
        Partition { healpix_range: range_at(start), gaia_source: None, astrophysical_parameters: None }
    };
    catalog.insert(
        start,
        match table {
            Table::GaiaSource => Partition { gaia_source: Some(path), ..partition },
            Table::AstrophysicalParameters => Partition {
                astrophysical_parameters: Some(path),
                ..partition
            },
        },
    )
}

/// The catalog after the file `file_name` at `path` was found. A name that is not that of a
/// file of one of the two tables changes nothing.
pub open spec fn with_file(
    catalog: Map<u32, Partition>,
    file_name: Seq<char>,
    path: PathBuf,
) -> Map<u32, Partition> {
    match catalog_file(file_name) {
        None => catalog,
        Some((table, start)) => with_table_file(catalog, table, start, path),
    }
}

/// The catalog that a directory with these entries holds, the entries taken in order.
pub open spec fn catalog_of(entries: Seq<Entry>) -> Map<u32, Partition>
    decreases entries.len(),
{
    if entries.len() == 0 {
        Map::empty()
    } else {
        with_file(catalog_of(entries.drop_last()), entries.last().file_name@, entries.last().path)
    }
}

/// The path of the last of `entries` that is a file of `table` for the partition that starts
/// at `start`, if there is such an entry.
pub open spec fn last_file(entries: Seq<Entry>, table: Table, start: u32) -> Option<PathBuf>
    decreases entries.len(),
{
    if entries.len() == 0 {
        None
    } else if catalog_file(entries.last().file_name@) == Some((table, start)) {
        Some(entries.last().path)
    } else {
        last_file(entries.drop_last(), table, start)
    }
}

/// The catalog of a directory has a partition for each start that a file of one of the two
/// tables names, and no other. The partition has the range that the start names, and of each
/// table the file that was found last for it.
pub proof fn lemma_catalog_of(entries: Seq<Entry>, start: u32)
    ensures
        catalog_of(entries).contains_key(start) <==> last_file(entries, Table::GaiaSource, start)
            is Some || last_file(entries, Table::AstrophysicalParameters, start) is Some,
        catalog_of(entries).contains_key(start) ==> catalog_of(entries)[start] == (Partition {
            healpix_range: range_at(start),
            gaia_source: last_file(entries, Table::GaiaSource, start),
            astrophysical_parameters: last_file(entries, Table::AstrophysicalParameters, start),
        }),
    decreases entries.len(),
{
    if entries.len() > 0 {
        lemma_catalog_of(entries.drop_last(), start);
    }
}

/// A directory without a file of either table has a catalog without partitions, whatever
/// else it holds.
pub proof fn lemma_other_names_are_ignored(entries: Seq<Entry>)
    requires
        forall|i: int|
            0 <= i < entries.len() ==> catalog_file((#[trigger] entries[i]).file_name@) is None,
    ensures
        catalog_of(entries) == Map::<u32, Partition>::empty(),
    decreases entries.len(),
{
    if entries.len() > 0 {
        assert(catalog_file(entries[entries.len() - 1].file_name@) is None);
        assert forall|i: int| 0 <= i < entries.drop_last().len() implies catalog_file(
            (#[trigger] entries.drop_last()[i]).file_name@,
        ) is None by {
            assert(entries[i] == entries.drop_last()[i]);
        }
        lemma_other_names_are_ignored(entries.drop_last());
    }
}

/// No two of `entries` are files of one table for one partition.
pub open spec fn one_file_each(entries: Seq<Entry>) -> bool {
    forall|i: int, j: int|
        0 <= i < j < entries.len() && catalog_file((#[trigger] entries[i]).file_name@) is Some
            ==> catalog_file(entries[i].file_name@) != catalog_file(
            (#[trigger] entries[j]).file_name@,
        )
}

/// The last file of a table for a partition is one of the entries; and where no two entries
/// are files of one table for one partition, it is the only such entry.
pub proof fn lemma_last_file(entries: Seq<Entry>, table: Table, start: u32)
    ensures
        last_file(entries, table, start) matches Some(path) ==> exists|i: int|
            0 <= i < entries.len() && catalog_file((#[trigger] entries[i]).file_name@) == Some(
                (table, start),
            ) && entries[i].path == path,
        one_file_each(entries) ==> forall|i: int|
            0 <= i < entries.len() && catalog_file((#[trigger] entries[i]).file_name@) == Some(
                (table, start),
            ) ==> last_file(entries, table, start) == Some(entries[i].path),
    decreases entries.len(),
{
    if entries.len() > 0 {
        let rest = entries.drop_last();
        lemma_last_file(rest, table, start);
        if last_file(entries, table, start) is Some {
            if catalog_file(entries.last().file_name@) == Some((table, start)) {
                assert(entries[entries.len() - 1].path == entries.last().path);
            } else {
                let i = choose|i: int|
                    0 <= i < rest.len() && catalog_file((#[trigger] rest[i]).file_name@) == Some(
                        (table, start),
                    ) && rest[i].path == last_file(rest, table, start)->Some_0;
                assert(entries[i] == rest[i]);
            }
        }
        if one_file_each(entries) {
            assert(one_file_each(rest)) by {
                assert forall|i: int, j: int|
                    0 <= i < j < rest.len() && catalog_file((#[trigger] rest[i]).file_name@)
                        is Some implies catalog_file(rest[i].file_name@) != catalog_file(
                    (#[trigger] rest[j]).file_name@,
                ) by {
                    assert(entries[i] == rest[i] && entries[j] == rest[j]);
                }
            }
            assert forall|i: int|
                0 <= i < entries.len() && catalog_file((#[trigger] entries[i]).file_name@)
                    == Some((table, start)) implies last_file(entries, table, start) == Some(
                entries[i].path,
            ) by {
                if i < entries.len() - 1 {
                    assert(entries[i] == rest[i]);
                    assert(catalog_file(entries[i].file_name@) != catalog_file(
                        entries[entries.len() - 1].file_name@,
                    ));
                }
            }
        }
    }
}

/// Where no two entries of a directory are files of one table for one partition, the catalog
/// does not depend on the order in which the entries are listed.
pub proof fn lemma_catalog_in_any_order(first: Seq<Entry>, second: Seq<Entry>)
    requires
        one_file_each(first),
        one_file_each(second),
        forall|entry: Entry| first.contains(entry) <==> second.contains(entry),
    ensures
        catalog_of(first) == catalog_of(second),
{
    assert forall|table: Table, start: u32|
        last_file(first, table, start) == last_file(second, table, start) by {
        lemma_last_file(first, table, start);
        lemma_last_file(second, table, start);
        if last_file(first, table, start) is Some {
            let i = choose|i: int|
                0 <= i < first.len() && catalog_file((#[trigger] first[i]).file_name@) == Some(
                    (table, start),
                ) && first[i].path == last_file(first, table, start)->Some_0;
            assert(first.contains(first[i]));
            let j = choose|j: int| 0 <= j < second.len() && second[j] == first[i];
            assert(catalog_file(second[j].file_name@) == Some((table, start)));
        }
        if last_file(second, table, start) is Some {
            let j = choose|j: int|
                0 <= j < second.len() && catalog_file((#[trigger] second[j]).file_name@) == Some(
                    (table, start),
                ) && second[j].path == last_file(second, table, start)->Some_0;
            assert(second.contains(second[j]));
            let i = choose|i: int| 0 <= i < first.len() && first[i] == second[j];
            assert(catalog_file(first[i].file_name@) == Some((table, start)));
        }
    }
    assert forall|start: u32|
        #[trigger] catalog_of(first).dom().contains(start) == catalog_of(second).dom().contains(
            start,
        ) && (catalog_of(first).dom().contains(start) ==> catalog_of(first)[start] == catalog_of(
            second,
        )[start]) by {
        lemma_catalog_of(first, start);
        lemma_catalog_of(second, start);
        assert(last_file(first, Table::GaiaSource, start) == last_file(
            second,
            Table::GaiaSource,
            start,
        ));
        assert(last_file(first, Table::AstrophysicalParameters, start) == last_file(
            second,
            Table::AstrophysicalParameters,
            start,
        ));
    }
    assert(catalog_of(first) =~= catalog_of(second));
}

/// The partitions of a catalog, in ascending order of the start of their range.
#[derive(Debug)]
pub struct Data {
    partitions: BTreeMap<u32, Partition>,
}

impl View for Data {
    type V = Map<u32, Partition>;

    /// The partitions by the start of their range.
    closed spec fn view(&self) -> Map<u32, Partition> {
        self.partitions@
    }
}

impl Data {
    /// The partitions in the order in which they are joined: ascending by the start of their
    /// range.
    pub open spec fn partitions(&self) -> Seq<Partition> {
        partitions_of(self@)
    }

    /// The catalog has finitely many partitions, each under the start of its range.
    pub open spec fn wf(&self) -> bool {
        &&& self@.dom().finite()
        &&& forall|start: u32| #[trigger]
            self@.contains_key(start) ==> self@[start].healpix_range.start == start
    }

    /// The partitions are joined in ascending order of the start of their range, and each is
    /// the one that the catalog has for that start.
    pub proof fn lemma_partitions(&self, i: int, j: int)
        requires
            self.wf(),
            0 <= i <= j < self.partitions().len(),
        ensures
            self@.contains_key(self.partitions()[i].healpix_range.start),
            self@[self.partitions()[i].healpix_range.start] == self.partitions()[i],
            i < j ==> self.partitions()[i].healpix_range.start
                < self.partitions()[j].healpix_range.start,
    {
        lemma_in_order(self@);
        lemma_by_key(in_order(self@), i);
        lemma_by_key(in_order(self@), j);
    }

    /// There are as many partitions to join as the catalog has starts, and the partition of
    /// each start is among them.
    pub proof fn lemma_every_partition(&self, start: u32)
        requires
            self.wf(),
        ensures
            self.partitions().len() == self@.dom().len(),
            self@.contains_key(start) ==> exists|i: int|
                0 <= i < self.partitions().len() && #[trigger] self.partitions()[i]
                    == self@[start],
    {
        lemma_in_order(self@);
        if self@.contains_key(start) {
            let entries = in_order(self@);
            let i = choose|i: int| 0 <= i < entries.len() && (#[trigger] entries[i]).0 == start;
            lemma_by_key(entries, i);
            assert(self.partitions()[i] == self@[start]);
        }
    }

    /// The catalog fixes the order in which its partitions are joined: two catalogs with the
    /// same partitions by the same starts have them in the same order.
    pub proof fn lemma_same_catalog_same_order(&self, other: &Data)
        requires
            self@ == other@,
        ensures
            self.partitions() == other.partitions(),
    {
    }

    /// The catalog without partitions.
    pub fn new() -> (data: Self)
        ensures
            data.wf(),
            data.partitions() == Seq::<Partition>::empty(),
            data@ == Map::<u32, Partition>::empty(),
    {
        let data = Data { partitions: BTreeMap::new() };
        proof {
            lemma_in_order(data@);
            assert(data@.dom() =~= Set::empty());
            assert(data.partitions() =~= Seq::<Partition>::empty());
        }
        data
    }

    /// The catalog of a directory with the given entries.
    pub fn open(entries: Vec<Entry>) -> (data: Self)
        ensures
            data.wf(),
            data@ == catalog_of(entries@),
    {
        let mut data = Data::new();
        let ghost all = entries@;
        for entry in iter: entries.into_iter()
            invariant
                iter.seq() == all,
                data.wf(),
                data@ == catalog_of(all.take(iter.index() as int)),
        {
            proof {
                let n = iter.index() as int;
                assert(all.take(n + 1).drop_last() =~= all.take(n));
            }
            data.add_file(entry.file_name.as_str(), entry.path);
        }
        assert(all.take(all.len() as int) =~= all);
        data
    }

    /// The number of partitions.
    pub fn len(&self) -> (n: usize)
        ensures
            n == self.partitions().len(),
    {
        proof {
            lemma_in_order(self@);
        }
        self.partitions.len()
    }

    /// The partitions in the order in which they are joined.
    pub fn in_order(&self) -> (partitions: Vec<&Partition>)
        ensures
            pointed_to(partitions@) == self.partitions(),
    {
        walk(&self.partitions)
    }

    /// The partition at `index`, counted in ascending order of `start`.
    pub fn partition(&self, index: usize) -> (partition: &Partition)
        requires
            index < self.partitions().len(),
        ensures
            *partition == self.partitions()[index as int],
    {
        let partitions = walk(&self.partitions);
        assert(pointed_to(partitions@)[index as int] == *partitions@[index as int]);
        partitions[index]
    }

    /// Makes `path` the file of `table` for the partition that starts at `start`.
    pub fn add_table_file(&mut self, table: Table, start: u32, path: PathBuf)
        requires
            old(self).wf(),
        ensures
            final(self).wf(),
            final(self)@ == with_table_file(old(self)@, table, start, path),
    {
        let mut partition = match self.partitions.remove(&start) {
            Some(partition) => partition,
            None => Partition {
                healpix_range: HealPixRange { start, end: start },
                gaia_source: None,
                astrophysical_parameters: None,
            },
        };
        match table {
            Table::GaiaSource => {
                partition.gaia_source = Some(path);
            },
            Table::AstrophysicalParameters => {
                partition.astrophysical_parameters = Some(path);
            },
        }
        let _ = self.partitions.insert(start, partition);
        assert(self@ =~= with_table_file(old(self)@, table, start, path));
    }

    /// Takes in one file of the catalog's directory.
    pub fn add_file(&mut self, file_name: &str, path: PathBuf)
        requires
            old(self).wf(),
        ensures
            final(self).wf(),
            final(self)@ == with_file(old(self)@, file_name@, path),
    {
        let (prefix, healpix_range) = match parse_file_name(file_name) {
            Some(parsed) => parsed,
            None => {
                return ;
            },
        };
        if prefix == GAIA_SOURCE.to_owned() {
            self.add_table_file(Table::GaiaSource, healpix_range.start, path);
        } else if prefix == ASTROPHYSICAL_PARAMETERS.to_owned() {
            self.add_table_file(Table::AstrophysicalParameters, healpix_range.start, path);
        }
    }

    /// The stream of joined records over this catalog, positioned before its first partition.
    pub fn records<'a, P, S>(&'a self) -> (records: Records<'a, P, S>)
        ensures
            records.wf(),
            records.partitions() == self.partitions(),
            records@ == State::<P, S>::start(),
            records@.wf(records.partitions()),
    {
        Records::new(self)
    }
}

} // verus!
