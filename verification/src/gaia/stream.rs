//! What the engine yields over a whole catalog, and what holds of it.
//!
//! `stream` runs the engine's decisions against the rows that the files hold, answering each
//! request to read with the next unread row. `merge_join` says what a partition gives in one
//! recursion over its two tables. The two are proved equal, and the laws of the join are
//! proved of `merge_join`.

use super::records::{Action, Event, Record, Row, State};
use super::{Data, HealPixRange, Partition};
use vstd::prelude::*;

verus! {

/// What the files of a catalog hold: the rows of each table in each partition, in file order.
/// Where a partition has no file for a table, the entry is not looked at.
pub struct Tables<P, S> {
    pub gaia_source: Seq<Seq<Row<P>>>,
    pub astrophysical_parameters: Seq<Seq<Row<S>>>,
}

impl<P, S> Tables<P, S> {
    /// The primary rows of partition `index`; none where it has no primary file.
    pub open spec fn gaia_source_rows(self, partitions: Seq<Partition>, index: int) -> Seq<Row<P>> {
        if partitions[index].gaia_source is Some {
            self.gaia_source[index]
        } else {
            Seq::empty()
        }
    }

    /// The secondary rows of partition `index`; none where it has no secondary file.
    pub open spec fn astrophysical_parameters_rows(
        self,
        partitions: Seq<Partition>,
        index: int,
    ) -> Seq<Row<S>> {
        if partitions[index].astrophysical_parameters is Some {
            self.astrophysical_parameters[index]
        } else {
            Seq::empty()
        }
    }
}

/// The join of one partition: the records and the reports of missing primary rows, in the order
/// in which they come.
///
/// A secondary row whose key is below that of the next primary row, or that comes after the last
/// primary row, is reported and dropped. Else the next primary row is yielded, together with the
/// next secondary row if their keys are equal.
pub open spec fn merge_join<P, S>(
    healpix_range: HealPixRange,
    gaia_source: Seq<Row<P>>,
    astrophysical_parameters: Seq<Row<S>>,
) -> Seq<Action<P, S>>
    decreases gaia_source.len() + astrophysical_parameters.len(),
{
    if astrophysical_parameters.len() > 0 && (gaia_source.len() == 0
        || gaia_source[0].source_id > astrophysical_parameters[0].source_id) {
        seq![Action::MissingGaiaSource(astrophysical_parameters[0].source_id)] + merge_join(
            healpix_range,
            gaia_source,
            astrophysical_parameters.skip(1),
        )
    } else if gaia_source.len() > 0 {
        if astrophysical_parameters.len() > 0 && gaia_source[0].source_id
            == astrophysical_parameters[0].source_id {
            seq![
                Action::Record(
                    Record {
                        healpix_range,
                        gaia_source: gaia_source[0],
                        astrophysical_parameters: Some(astrophysical_parameters[0]),
                    },
                ),
            ] + merge_join(healpix_range, gaia_source.skip(1), astrophysical_parameters.skip(1))
        } else {
            seq![
                Action::Record(
                    Record {
                        healpix_range,
                        gaia_source: gaia_source[0],
                        astrophysical_parameters: None,
                    },
                ),
            ] + merge_join(healpix_range, gaia_source.skip(1), astrophysical_parameters)
        }
    } else {
        Seq::empty()
    }
}

/// The join of the partitions from `index` on, one after the other.
pub open spec fn joined_from<P, S>(
    partitions: Seq<Partition>,
    tables: Tables<P, S>,
    index: nat,
) -> Seq<Action<P, S>>
    decreases partitions.len() - index,
{
    if index < partitions.len() {
        merge_join(
            partitions[index as int].healpix_range,
            tables.gaia_source_rows(partitions, index as int),
            tables.astrophysical_parameters_rows(partitions, index as int),
        ) + joined_from(partitions, tables, index + 1)
    } else {
        Seq::empty()
    }
}

/// How much is left to do within the current partition.
pub open spec fn weight<P, S>(
    state: State<P, S>,
    gaia_source: Seq<Row<P>>,
    astrophysical_parameters: Seq<Row<S>>,
) -> nat {
    2 * gaia_source.len() + 2 * astrophysical_parameters.len() + (if state.gaia_source_open {
        1nat
    } else {
        0nat
    }) + (if state.astrophysical_parameters_open {
        1nat
    } else {
        0nat
    }) + (if state.gaia_source is Some {
        1nat
    } else {
        0nat
    }) + (if state.astrophysical_parameters is Some {
        1nat
    } else {
        0nat
    })
}

/// The records and reports that the engine gives from `state` on, when each request is
/// answered from the files: `Open` makes the rows of that partition the unread ones, a request
/// to read is answered with the first unread row of that table, or with `None` when there is
/// none, and every other action is followed by `Event::Resume`.
///
/// `gaia_source` and `astrophysical_parameters` are the unread rows of the open sources.
pub open spec fn stream<P, S>(
    partitions: Seq<Partition>,
    tables: Tables<P, S>,
    state: State<P, S>,
    gaia_source: Seq<Row<P>>,
    astrophysical_parameters: Seq<Row<S>>,
) -> Seq<Action<P, S>>
    decreases partitions.len() - state.position, weight(state, gaia_source, astrophysical_parameters),
{
    let (next, action) = state.decide(partitions);
    match action {
        Action::Open(_) => stream(
            partitions,
            tables,
            next,
            tables.gaia_source[state.position as int],
            tables.astrophysical_parameters[state.position as int],
        ),
        Action::ReadGaiaSource => if gaia_source.len() > 0 {
            stream(
                partitions,
                tables,
                next.accept(Event::GaiaSource(Some(gaia_source[0]))),
                gaia_source.skip(1),
                astrophysical_parameters,
            )
        } else {
            stream(
                partitions,
                tables,
                next.accept(Event::GaiaSource(None)),
                gaia_source,
                astrophysical_parameters,
            )
        },
        Action::ReadAstrophysicalParameters => if astrophysical_parameters.len() > 0 {
            stream(
                partitions,
                tables,
                next.accept(Event::AstrophysicalParameters(Some(astrophysical_parameters[0]))),
                gaia_source,
                astrophysical_parameters.skip(1),
            )
        } else {
            stream(
                partitions,
                tables,
                next.accept(Event::AstrophysicalParameters(None)),
                gaia_source,
                astrophysical_parameters,
            )
        },
        Action::MissingGaiaSource(_) | Action::Record(_) => seq![action] + stream(
            partitions,
            tables,
            next,
            gaia_source,
            astrophysical_parameters,
        ),
        Action::End => Seq::empty(),
    }
}

/// The primary rows that are still to come in the current partition: the buffered one, then the
/// unread ones of an open source.
pub open spec fn gaia_source_ahead<P, S>(state: State<P, S>, unread: Seq<Row<P>>) -> Seq<Row<P>> {
    (match state.gaia_source {
        Some(row) => seq![row],
        None => Seq::empty(),
    }) + (if state.gaia_source_open {
        unread
    } else {
        Seq::empty()
    })
}

/// The secondary rows that are still to come in the current partition: the buffered one, then
/// the unread ones of an open source.
pub open spec fn astrophysical_parameters_ahead<P, S>(
    state: State<P, S>,
    unread: Seq<Row<S>>,
) -> Seq<Row<S>> {
    (match state.astrophysical_parameters {
        Some(row) => seq![row],
        None => Seq::empty(),
    }) + (if state.astrophysical_parameters_open {
        unread
    } else {
        Seq::empty()
    })
}

/// From any state the engine gives the join of what is left of the current partition, and then
/// the join of each partition that follows.
pub proof fn lemma_stream_is_merge_join<P, S>(
    partitions: Seq<Partition>,
    tables: Tables<P, S>,
    state: State<P, S>,
    gaia_source: Seq<Row<P>>,
    astrophysical_parameters: Seq<Row<S>>,
)
    requires
        state.wf(partitions),
    ensures
        stream(partitions, tables, state, gaia_source, astrophysical_parameters) == merge_join(
            state.healpix_range(partitions),
            gaia_source_ahead(state, gaia_source),
            astrophysical_parameters_ahead(state, astrophysical_parameters),
        ) + joined_from(partitions, tables, state.position),
    decreases partitions.len() - state.position, weight(state, gaia_source, astrophysical_parameters),
{
    let gaia_ahead = gaia_source_ahead(state, gaia_source);
    let astro_ahead = astrophysical_parameters_ahead(state, astrophysical_parameters);
    let (next, action) = state.decide(partitions);
    if !state.gaia_source_open && !state.astrophysical_parameters_open {
        if state.position < partitions.len() {
            let index = state.position as int;
            lemma_stream_is_merge_join(
                partitions,
                tables,
                next,
                tables.gaia_source[index],
                tables.astrophysical_parameters[index],
            );
            assert(gaia_source_ahead(next, tables.gaia_source[index])
                =~= tables.gaia_source_rows(partitions, index));
            assert(astrophysical_parameters_ahead(next, tables.astrophysical_parameters[index])
                =~= tables.astrophysical_parameters_rows(partitions, index));
        }
    } else if state.gaia_source_open && state.gaia_source is None {
        if gaia_source.len() > 0 {
            let fed = next.accept(Event::GaiaSource(Some(gaia_source[0])));
            lemma_stream_is_merge_join(
                partitions,
                tables,
                fed,
                gaia_source.skip(1),
                astrophysical_parameters,
            );
            assert(gaia_source_ahead(fed, gaia_source.skip(1)) =~= gaia_ahead);
        } else {
            let fed = next.accept(Event::GaiaSource(None));
            lemma_stream_is_merge_join(
                partitions,
                tables,
                fed,
                gaia_source,
                astrophysical_parameters,
            );
        }
    } else if state.astrophysical_parameters_open && state.astrophysical_parameters is None {
        if astrophysical_parameters.len() > 0 {
            let fed = next.accept(
                Event::AstrophysicalParameters(Some(astrophysical_parameters[0])),
            );
            lemma_stream_is_merge_join(
                partitions,
                tables,
                fed,
                gaia_source,
                astrophysical_parameters.skip(1),
            );
            assert(astrophysical_parameters_ahead(fed, astrophysical_parameters.skip(1))
                =~= astro_ahead);
        } else {
            let fed = next.accept(Event::AstrophysicalParameters(None));
            lemma_stream_is_merge_join(
                partitions,
                tables,
                fed,
                gaia_source,
                astrophysical_parameters,
            );
        }
    } else {
        lemma_stream_is_merge_join(
            partitions,
            tables,
            next,
            gaia_source,
            astrophysical_parameters,
        );
        if state.gaia_source is Some && next.gaia_source is None {
            assert(gaia_source_ahead(next, gaia_source) =~= gaia_ahead.skip(1));
        }
        if state.astrophysical_parameters is Some && next.astrophysical_parameters is None {
            assert(astrophysical_parameters_ahead(next, astrophysical_parameters)
                =~= astro_ahead.skip(1));
        }
    }
}

/// A run from the start gives the join of every partition in turn, whatever rows were lying
/// unread before: the stream is a function of the partitions and of what their files hold, so
/// a second run over the same catalog gives the same records and reports in the same order.
pub proof fn lemma_rerun_is_identical<P, S>(
    partitions: Seq<Partition>,
    tables: Tables<P, S>,
    first_gaia_source: Seq<Row<P>>,
    first_astrophysical_parameters: Seq<Row<S>>,
    second_gaia_source: Seq<Row<P>>,
    second_astrophysical_parameters: Seq<Row<S>>,
)
    ensures
        stream(
            partitions,
            tables,
            State::start(),
            first_gaia_source,
            first_astrophysical_parameters,
        ) == joined_from(partitions, tables, 0),
        stream(
            partitions,
            tables,
            State::start(),
            first_gaia_source,
            first_astrophysical_parameters,
        ) == stream(
            partitions,
            tables,
            State::start(),
            second_gaia_source,
            second_astrophysical_parameters,
        ),
{
    lemma_skip_file(
        partitions,
        tables,
        State::start(),
        first_gaia_source,
        first_astrophysical_parameters,
    );
    lemma_skip_file(
        partitions,
        tables,
        State::start(),
        second_gaia_source,
        second_astrophysical_parameters,
    );
}

/// After `skip_file` the engine gives the join of the partitions that were not started yet and
/// nothing else: neither the buffered rows nor the unread rows of the abandoned partition
/// come out.
pub proof fn lemma_skip_file<P, S>(
    partitions: Seq<Partition>,
    tables: Tables<P, S>,
    state: State<P, S>,
    gaia_source: Seq<Row<P>>,
    astrophysical_parameters: Seq<Row<S>>,
)
    requires
        state.wf(partitions),
    ensures
        stream(partitions, tables, state.skip_file(), gaia_source, astrophysical_parameters)
            == joined_from(partitions, tables, state.position),
{
    let skipped = state.skip_file();
    lemma_stream_is_merge_join(partitions, tables, skipped, gaia_source, astrophysical_parameters);
    assert(merge_join::<P, S>(
        skipped.healpix_range(partitions),
        Seq::empty(),
        Seq::empty(),
    ) =~= Seq::empty());
}

/// Every record that comes after `skip_file` belongs to a partition that starts after the
/// abandoned one.
pub proof fn lemma_skip_file_leaves_the_partition<P, S>(
    data: Data,
    tables: Tables<P, S>,
    state: State<P, S>,
    gaia_source: Seq<Row<P>>,
    astrophysical_parameters: Seq<Row<S>>,
    k: int,
)
    requires
        data.wf(),
        state.wf(data.partitions()),
        state.position > 0,
        0 <= k < stream(
            data.partitions(),
            tables,
            state.skip_file(),
            gaia_source,
            astrophysical_parameters,
        ).len(),
        stream(
            data.partitions(),
            tables,
            state.skip_file(),
            gaia_source,
            astrophysical_parameters,
        )[k] is Record,
    ensures
        stream(
            data.partitions(),
            tables,
            state.skip_file(),
            gaia_source,
            astrophysical_parameters,
        )[k]->Record_0.healpix_range.start > state.healpix_range(
            data.partitions(),
        ).start,
{
    let partitions = data.partitions();
    lemma_skip_file(partitions, tables, state, gaia_source, astrophysical_parameters);
    lemma_joined_from_ranges(partitions, tables, state.position, k);
    let record = joined_from(partitions, tables, state.position)[k]->Record_0;
    let i = choose|i: int|
        state.position <= i < partitions.len() && record.healpix_range
            == #[trigger] partitions[i].healpix_range;
    data.lemma_partitions(state.position - 1, i);
}

/// Every record of the join of the partitions from `index` on carries the range of one of
/// those partitions.
pub proof fn lemma_joined_from_ranges<P, S>(
    partitions: Seq<Partition>,
    tables: Tables<P, S>,
    index: nat,
    k: int,
)
    requires
        0 <= k < joined_from(partitions, tables, index).len(),
        joined_from(partitions, tables, index)[k] is Record,
    ensures
        exists|i: int|
            index <= i < partitions.len() && joined_from(
                partitions,
                tables,
                index,
            )[k]->Record_0.healpix_range == #[trigger] partitions[i].healpix_range,
    decreases partitions.len() - index,
{
    if index < partitions.len() {
        let head = merge_join(
            partitions[index as int].healpix_range,
            tables.gaia_source_rows(partitions, index as int),
            tables.astrophysical_parameters_rows(partitions, index as int),
        );
        if k < head.len() {
            lemma_records_are_joined(
                partitions[index as int].healpix_range,
                tables.gaia_source_rows(partitions, index as int),
                tables.astrophysical_parameters_rows(partitions, index as int),
                k,
            );
        } else {
            lemma_joined_from_ranges(partitions, tables, index + 1, k - head.len());
        }
    }
}

/// Every record of a partition's join carries the partition's range and a row of its primary
/// table; the secondary row, where there is one, has the key of the primary row.
pub proof fn lemma_records_are_joined<P, S>(
    healpix_range: HealPixRange,
    gaia_source: Seq<Row<P>>,
    astrophysical_parameters: Seq<Row<S>>,
    k: int,
)
    requires
        0 <= k < merge_join(healpix_range, gaia_source, astrophysical_parameters).len(),
        merge_join(healpix_range, gaia_source, astrophysical_parameters)[k] is Record,
    ensures
        ({
            let record = merge_join(
                healpix_range,
                gaia_source,
                astrophysical_parameters,
            )[k]->Record_0;
            &&& record.healpix_range == healpix_range
            &&& gaia_source.contains(record.gaia_source)
            &&& record.astrophysical_parameters matches Some(row) ==> {
                &&& astrophysical_parameters.contains(row)
                &&& row.source_id == record.gaia_source.source_id
            }
        }),
    decreases gaia_source.len() + astrophysical_parameters.len(),
{
    if astrophysical_parameters.len() > 0 && (gaia_source.len() == 0
        || gaia_source[0].source_id > astrophysical_parameters[0].source_id) {
        lemma_records_are_joined(
            healpix_range,
            gaia_source,
            astrophysical_parameters.skip(1),
            k - 1,
        );
    } else if gaia_source.len() > 0 && k > 0 {
        let rest = if astrophysical_parameters.len() > 0 && gaia_source[0].source_id
            == astrophysical_parameters[0].source_id {
            astrophysical_parameters.skip(1)
        } else {
            astrophysical_parameters
        };
        lemma_records_are_joined(healpix_range, gaia_source.skip(1), rest, k - 1);
    }
}

/// The primary rows that the records among `actions` carry, in order.
pub open spec fn gaia_source_of<P, S>(actions: Seq<Action<P, S>>) -> Seq<Row<P>>
    decreases actions.len(),
{
    if actions.len() == 0 {
        Seq::empty()
    } else {
        (match actions[0] {
            Action::Record(record) => seq![record.gaia_source],
            _ => Seq::empty(),
        }) + gaia_source_of(actions.skip(1))
    }
}

/// Every primary row of a partition is yielded exactly once, and in the order of the file,
/// whatever the secondary table holds.
pub proof fn lemma_every_gaia_source_once<P, S>(
    healpix_range: HealPixRange,
    gaia_source: Seq<Row<P>>,
    astrophysical_parameters: Seq<Row<S>>,
)
    ensures
        gaia_source_of(merge_join(healpix_range, gaia_source, astrophysical_parameters))
            == gaia_source,
    decreases gaia_source.len() + astrophysical_parameters.len(),
{
    let joined = merge_join(healpix_range, gaia_source, astrophysical_parameters);
    if astrophysical_parameters.len() > 0 && (gaia_source.len() == 0
        || gaia_source[0].source_id > astrophysical_parameters[0].source_id) {
        let tail = merge_join(healpix_range, gaia_source, astrophysical_parameters.skip(1));
        lemma_every_gaia_source_once(healpix_range, gaia_source, astrophysical_parameters.skip(1));
        assert(joined.skip(1) =~= tail);
    } else if gaia_source.len() > 0 {
        let rest = if astrophysical_parameters.len() > 0 && gaia_source[0].source_id
            == astrophysical_parameters[0].source_id {
            astrophysical_parameters.skip(1)
        } else {
            astrophysical_parameters
        };
        let tail = merge_join(healpix_range, gaia_source.skip(1), rest);
        lemma_every_gaia_source_once(healpix_range, gaia_source.skip(1), rest);
        assert(joined.skip(1) =~= tail);
    }
}

/// A partition with no secondary rows yields each primary row once, in order, with no
/// secondary row, and reports nothing.
pub proof fn lemma_gaia_source_only<P, S>(healpix_range: HealPixRange, gaia_source: Seq<Row<P>>)
    ensures
        merge_join::<P, S>(healpix_range, gaia_source, Seq::empty()) == Seq::new(
            gaia_source.len(),
            |i: int|
                Action::Record(
                    Record::<P, S> {
                        healpix_range,
                        gaia_source: gaia_source[i],
                        astrophysical_parameters: None,
                    },
                ),
        ),
    decreases gaia_source.len(),
{
    if gaia_source.len() > 0 {
        lemma_gaia_source_only::<P, S>(healpix_range, gaia_source.skip(1));
    }
}

/// A partition with no primary rows yields no record and reports every secondary row, in
/// order.
pub proof fn lemma_astrophysical_parameters_only<P, S>(
    healpix_range: HealPixRange,
    astrophysical_parameters: Seq<Row<S>>,
)
    ensures
        merge_join::<P, S>(healpix_range, Seq::empty(), astrophysical_parameters) == Seq::new(
            astrophysical_parameters.len(),
            |j: int| Action::<P, S>::MissingGaiaSource(astrophysical_parameters[j].source_id),
        ),
    decreases astrophysical_parameters.len(),
{
    if astrophysical_parameters.len() > 0 {
        lemma_astrophysical_parameters_only::<P, S>(
            healpix_range,
            astrophysical_parameters.skip(1),
        );
    }
}

/// A partition with a primary file only gives each row of that file once, in order, with no
/// secondary row, and reports nothing.
pub proof fn lemma_partition_with_gaia_source_only<P, S>(
    partitions: Seq<Partition>,
    tables: Tables<P, S>,
    index: int,
)
    requires
        0 <= index < partitions.len(),
        partitions[index].gaia_source is Some,
        partitions[index].astrophysical_parameters is None,
    ensures
        merge_join(
            partitions[index].healpix_range,
            tables.gaia_source_rows(partitions, index),
            tables.astrophysical_parameters_rows(partitions, index),
        ) == Seq::new(
            tables.gaia_source[index].len(),
            |i: int|
                Action::Record(
                    Record::<P, S> {
                        healpix_range: partitions[index].healpix_range,
                        gaia_source: tables.gaia_source[index][i],
                        astrophysical_parameters: None,
                    },
                ),
        ),
{
    lemma_gaia_source_only::<P, S>(partitions[index].healpix_range, tables.gaia_source[index]);
}

/// A partition with a secondary file only gives no record and reports each row of that file,
/// in order.
pub proof fn lemma_partition_with_astrophysical_parameters_only<P, S>(
    partitions: Seq<Partition>,
    tables: Tables<P, S>,
    index: int,
)
    requires
        0 <= index < partitions.len(),
        partitions[index].gaia_source is None,
        partitions[index].astrophysical_parameters is Some,
    ensures
        merge_join(
            partitions[index].healpix_range,
            tables.gaia_source_rows(partitions, index),
            tables.astrophysical_parameters_rows(partitions, index),
        ) == Seq::new(
            tables.astrophysical_parameters[index].len(),
            |j: int|
                Action::<P, S>::MissingGaiaSource(
                    tables.astrophysical_parameters[index][j].source_id,
                ),
        ),
{
    lemma_astrophysical_parameters_only::<P, S>(
        partitions[index].healpix_range,
        tables.astrophysical_parameters[index],
    );
}

/// The keys of `rows` never fall from one row to the next.
pub open spec fn sorted<T>(rows: Seq<Row<T>>) -> bool {
    forall|i: int, j: int|
        0 <= i <= j < rows.len() ==> (#[trigger] rows[i]).source_id <= (
        #[trigger] rows[j]).source_id
}

/// Where the primary table of a partition is sorted by key, the keys of the records never fall
/// from one record to the next, whatever the secondary table holds.
pub proof fn lemma_records_are_sorted<P, S>(
    healpix_range: HealPixRange,
    gaia_source: Seq<Row<P>>,
    astrophysical_parameters: Seq<Row<S>>,
    first: int,
    second: int,
)
    requires
        sorted(gaia_source),
        0 <= first <= second < merge_join(
            healpix_range,
            gaia_source,
            astrophysical_parameters,
        ).len(),
        merge_join(healpix_range, gaia_source, astrophysical_parameters)[first] is Record,
        merge_join(healpix_range, gaia_source, astrophysical_parameters)[second] is Record,
    ensures
        merge_join(
            healpix_range,
            gaia_source,
            astrophysical_parameters,
        )[first]->Record_0.gaia_source.source_id <= merge_join(
            healpix_range,
            gaia_source,
            astrophysical_parameters,
        )[second]->Record_0.gaia_source.source_id,
    decreases gaia_source.len() + astrophysical_parameters.len(),
{
    if astrophysical_parameters.len() > 0 && (gaia_source.len() == 0
        || gaia_source[0].source_id > astrophysical_parameters[0].source_id) {
        lemma_records_are_sorted(
            healpix_range,
            gaia_source,
            astrophysical_parameters.skip(1),
            first - 1,
            second - 1,
        );
    } else if gaia_source.len() > 0 && first < second {
        let rest = if astrophysical_parameters.len() > 0 && gaia_source[0].source_id
            == astrophysical_parameters[0].source_id {
            astrophysical_parameters.skip(1)
        } else {
            astrophysical_parameters
        };
        let gaia_rest = gaia_source.skip(1);
        assert(sorted(gaia_rest));
        if first == 0 {
            lemma_records_are_joined(healpix_range, gaia_rest, rest, second - 1);
        } else {
            lemma_records_are_sorted(healpix_range, gaia_rest, rest, first - 1, second - 1);
        }
    }
}

/// The keys of `rows` grow from each row to the next.
pub open spec fn strictly_increasing<T>(rows: Seq<Row<T>>) -> bool {
    forall|i: int, j: int|
        0 <= i < j < rows.len() ==> (#[trigger] rows[i]).source_id < (#[trigger] rows[j]).source_id
}

/// Some row of `rows` has the key `source_id`.
pub open spec fn has_key<T>(rows: Seq<Row<T>>, source_id: u64) -> bool {
    exists|i: int| 0 <= i < rows.len() && (#[trigger] rows[i]).source_id == source_id
}

/// The two tables hold the same set of keys.
pub open spec fn same_keys<P, S>(
    gaia_source: Seq<Row<P>>,
    astrophysical_parameters: Seq<Row<S>>,
) -> bool {
    &&& forall|i: int|
        0 <= i < gaia_source.len() ==> has_key(
            astrophysical_parameters,
            (#[trigger] gaia_source[i]).source_id,
        )
    &&& forall|j: int|
        0 <= j < astrophysical_parameters.len() ==> has_key(
            gaia_source,
            (#[trigger] astrophysical_parameters[j]).source_id,
        )
}

/// Where both tables of a partition are sorted by key without repetition and hold the same
/// keys, every primary row is yielded with its secondary row, nothing is reported, and the keys
/// of the records grow from each record to the next.
pub proof fn lemma_identical_keys<P, S>(
    healpix_range: HealPixRange,
    gaia_source: Seq<Row<P>>,
    astrophysical_parameters: Seq<Row<S>>,
)
    requires
        strictly_increasing(gaia_source),
        strictly_increasing(astrophysical_parameters),
        same_keys(gaia_source, astrophysical_parameters),
    ensures
        gaia_source.len() == astrophysical_parameters.len(),
        merge_join(healpix_range, gaia_source, astrophysical_parameters) == Seq::new(
            gaia_source.len(),
            |i: int|
                Action::Record(
                    Record {
                        healpix_range,
                        gaia_source: gaia_source[i],
                        astrophysical_parameters: Some(astrophysical_parameters[i]),
                    },
                ),
        ),
        forall|i: int, j: int|
            #![trigger
                merge_join(healpix_range, gaia_source, astrophysical_parameters)[i],
                merge_join(healpix_range, gaia_source, astrophysical_parameters)[j],
            ]
            0 <= i < j < gaia_source.len() ==> merge_join(
                healpix_range,
                gaia_source,
                astrophysical_parameters,
            )[i]->Record_0.gaia_source.source_id < merge_join(
                healpix_range,
                gaia_source,
                astrophysical_parameters,
            )[j]->Record_0.gaia_source.source_id,
    decreases gaia_source.len() + astrophysical_parameters.len(),
{
    if gaia_source.len() > 0 {
        let gaia_rest = gaia_source.skip(1);
        let astro_rest = astrophysical_parameters.skip(1);
        // The first key of each table is in the other, at or after its first row.
        assert(gaia_source[0].source_id == astrophysical_parameters[0].source_id) by {
            let j = choose|j: int|
                0 <= j < astrophysical_parameters.len() && (
                #[trigger] astrophysical_parameters[j]).source_id == gaia_source[0].source_id;
            let i = choose|i: int|
                0 <= i < gaia_source.len() && (#[trigger] gaia_source[i]).source_id
                    == astrophysical_parameters[0].source_id;
        }
        assert(strictly_increasing(gaia_rest)) by {
            assert forall|i: int, j: int| 0 <= i < j < gaia_rest.len() implies (
            #[trigger] gaia_rest[i]).source_id < (#[trigger] gaia_rest[j]).source_id by {
                assert(gaia_source[i + 1].source_id < gaia_source[j + 1].source_id);
            }
        }
        assert(strictly_increasing(astro_rest)) by {
            assert forall|i: int, j: int| 0 <= i < j < astro_rest.len() implies (
            #[trigger] astro_rest[i]).source_id < (#[trigger] astro_rest[j]).source_id by {
                assert(astrophysical_parameters[i + 1].source_id < astrophysical_parameters[j
                    + 1].source_id);
            }
        }
        // A later key of either table is in the other after its first row.
        assert(same_keys(gaia_rest, astro_rest)) by {
            assert forall|i: int| 0 <= i < gaia_rest.len() implies has_key(
                astro_rest,
                (#[trigger] gaia_rest[i]).source_id,
            ) by {
                assert(gaia_source[0].source_id < gaia_source[i + 1].source_id);
                let j = choose|j: int|
                    0 <= j < astrophysical_parameters.len() && (
                    #[trigger] astrophysical_parameters[j]).source_id == gaia_source[i
                        + 1].source_id;
                assert(astro_rest[j - 1].source_id == gaia_rest[i].source_id);
            }
            assert forall|j: int| 0 <= j < astro_rest.len() implies has_key(
                gaia_rest,
                (#[trigger] astro_rest[j]).source_id,
            ) by {
                assert(astrophysical_parameters[0].source_id < astrophysical_parameters[j
                    + 1].source_id);
                let i = choose|i: int|
                    0 <= i < gaia_source.len() && (#[trigger] gaia_source[i]).source_id
                        == astrophysical_parameters[j + 1].source_id;
                assert(gaia_rest[i - 1].source_id == astro_rest[j].source_id);
            }
        }
        lemma_identical_keys(healpix_range, gaia_rest, astro_rest);
    }
}

/// Every secondary row of a partition either comes out in a record or is reported.
pub proof fn lemma_every_astrophysical_parameters_accounted<P, S>(
    healpix_range: HealPixRange,
    gaia_source: Seq<Row<P>>,
    astrophysical_parameters: Seq<Row<S>>,
    j: int,
)
    requires
        0 <= j < astrophysical_parameters.len(),
    ensures
        ({
            let joined = merge_join(healpix_range, gaia_source, astrophysical_parameters);
            ||| joined.contains(Action::MissingGaiaSource(astrophysical_parameters[j].source_id))
            ||| exists|k: int|
                0 <= k < joined.len() && (#[trigger] joined[k]) is Record
                    && joined[k]->Record_0.astrophysical_parameters == Some(
                    astrophysical_parameters[j],
                )
        }),
    decreases gaia_source.len() + astrophysical_parameters.len(),
{
    let joined = merge_join(healpix_range, gaia_source, astrophysical_parameters);
    let report = Action::<P, S>::MissingGaiaSource(astrophysical_parameters[j].source_id);
    if gaia_source.len() == 0 || gaia_source[0].source_id > astrophysical_parameters[0].source_id {
        if j == 0 {
            assert(joined[0] == report);
        } else {
            let rest = astrophysical_parameters.skip(1);
            let tail = merge_join(healpix_range, gaia_source, rest);
            lemma_every_astrophysical_parameters_accounted(healpix_range, gaia_source, rest, j - 1);
            assert(joined.skip(1) =~= tail);
            lemma_tail_to_whole(joined, tail, report, Some(astrophysical_parameters[j]));
        }
    } else {
        let matched = gaia_source[0].source_id == astrophysical_parameters[0].source_id;
        if !matched || j > 0 {
            let rest = if matched {
                astrophysical_parameters.skip(1)
            } else {
                astrophysical_parameters
            };
            let at = if matched {
                j - 1
            } else {
                j
            };
            let tail = merge_join(healpix_range, gaia_source.skip(1), rest);
            lemma_every_astrophysical_parameters_accounted(
                healpix_range,
                gaia_source.skip(1),
                rest,
                at,
            );
            assert(joined.skip(1) =~= tail);
            lemma_tail_to_whole(joined, tail, report, Some(astrophysical_parameters[j]));
        }
    }
}

/// What is found in all but the first action is found in all of them.
proof fn lemma_tail_to_whole<P, S>(
    joined: Seq<Action<P, S>>,
    tail: Seq<Action<P, S>>,
    report: Action<P, S>,
    row: Option<Row<S>>,
)
    requires
        joined.len() > 0,
        joined.skip(1) == tail,
    ensures
        tail.contains(report) ==> joined.contains(report),
        (exists|k: int|
            0 <= k < tail.len() && (#[trigger] tail[k]) is Record
                && tail[k]->Record_0.astrophysical_parameters == row) ==> (exists|k: int|
            0 <= k < joined.len() && (#[trigger] joined[k]) is Record
                && joined[k]->Record_0.astrophysical_parameters == row),
{
    if tail.contains(report) {
        let k = choose|k: int| 0 <= k < tail.len() && tail[k] == report;
        assert(joined[k + 1] == report);
    }
    if exists|k: int|
        0 <= k < tail.len() && (#[trigger] tail[k]) is Record
            && tail[k]->Record_0.astrophysical_parameters == row {
        let k = choose|k: int|
            0 <= k < tail.len() && (#[trigger] tail[k]) is Record
                && tail[k]->Record_0.astrophysical_parameters == row;
        assert(joined[k + 1] == tail[k]);
    }
}

/// A secondary row whose key is above every key of the partition's primary table is reported
/// and is in no record.
pub proof fn lemma_orphan_is_dropped<P, S>(
    healpix_range: HealPixRange,
    gaia_source: Seq<Row<P>>,
    astrophysical_parameters: Seq<Row<S>>,
    j: int,
)
    requires
        0 <= j < astrophysical_parameters.len(),
        forall|i: int|
            0 <= i < gaia_source.len() ==> (#[trigger] gaia_source[i]).source_id
                < astrophysical_parameters[j].source_id,
    ensures
        ({
            let joined = merge_join(healpix_range, gaia_source, astrophysical_parameters);
            &&& joined.contains(Action::MissingGaiaSource(astrophysical_parameters[j].source_id))
            &&& forall|k: int|
                0 <= k < joined.len() && (#[trigger] joined[k]) is Record
                    && joined[k]->Record_0.astrophysical_parameters is Some
                    ==> joined[k]->Record_0.astrophysical_parameters->Some_0.source_id
                    != astrophysical_parameters[j].source_id
        }),
{
    let joined = merge_join(healpix_range, gaia_source, astrophysical_parameters);
    assert forall|k: int|
        0 <= k < joined.len() && (#[trigger] joined[k]) is Record
            && joined[k]->Record_0.astrophysical_parameters is Some
            implies joined[k]->Record_0.astrophysical_parameters->Some_0.source_id
        != astrophysical_parameters[j].source_id by {
        lemma_records_are_joined(healpix_range, gaia_source, astrophysical_parameters, k);
        let row = joined[k]->Record_0.gaia_source;
        let i = choose|i: int| 0 <= i < gaia_source.len() && gaia_source[i] == row;
        assert(gaia_source[i].source_id < astrophysical_parameters[j].source_id);
    }
    lemma_every_astrophysical_parameters_accounted(
        healpix_range,
        gaia_source,
        astrophysical_parameters,
        j,
    );
}

/// How many of `rows` have the key `source_id`.
pub open spec fn rows_with_key<T>(rows: Seq<Row<T>>, source_id: u64) -> nat
    decreases rows.len(),
{
    if rows.len() == 0 {
        0
    } else {
        (if rows[0].source_id == source_id {
            1nat
        } else {
            0nat
        }) + rows_with_key(rows.skip(1), source_id)
    }
}

/// How many times `actions` report a secondary row with the key `source_id`.
pub open spec fn reports_of<P, S>(actions: Seq<Action<P, S>>, source_id: u64) -> nat
    decreases actions.len(),
{
    if actions.len() == 0 {
        0
    } else {
        (if actions[0] == Action::<P, S>::MissingGaiaSource(source_id) {
            1nat
        } else {
            0nat
        }) + reports_of(actions.skip(1), source_id)
    }
}

/// How many records among `actions` carry a secondary row with the key `source_id`.
pub open spec fn joined_with_key<P, S>(actions: Seq<Action<P, S>>, source_id: u64) -> nat
    decreases actions.len(),
{
    if actions.len() == 0 {
        0
    } else {
        (if actions[0] is Record && actions[0]->Record_0.astrophysical_parameters is Some
            && actions[0]->Record_0.astrophysical_parameters->Some_0.source_id == source_id {
            1nat
        } else {
            0nat
        }) + joined_with_key(actions.skip(1), source_id)
    }
}

/// Every secondary row of a partition is accounted for exactly once: as often as a key occurs
/// in the secondary table, it is reported or comes out in a record.
pub proof fn lemma_every_astrophysical_parameters_once<P, S>(
    healpix_range: HealPixRange,
    gaia_source: Seq<Row<P>>,
    astrophysical_parameters: Seq<Row<S>>,
    source_id: u64,
)
    ensures
        reports_of(
            merge_join(healpix_range, gaia_source, astrophysical_parameters),
            source_id,
        ) + joined_with_key(
            merge_join(healpix_range, gaia_source, astrophysical_parameters),
            source_id,
        ) == rows_with_key(astrophysical_parameters, source_id),
    decreases gaia_source.len() + astrophysical_parameters.len(),
{
    let joined = merge_join(healpix_range, gaia_source, astrophysical_parameters);
    if astrophysical_parameters.len() > 0 && (gaia_source.len() == 0
        || gaia_source[0].source_id > astrophysical_parameters[0].source_id) {
        let rest = astrophysical_parameters.skip(1);
        lemma_every_astrophysical_parameters_once(healpix_range, gaia_source, rest, source_id);
        assert(joined.skip(1) =~= merge_join(healpix_range, gaia_source, rest));
    } else if gaia_source.len() > 0 {
        let rest = if astrophysical_parameters.len() > 0 && gaia_source[0].source_id
            == astrophysical_parameters[0].source_id {
            astrophysical_parameters.skip(1)
        } else {
            astrophysical_parameters
        };
        lemma_every_astrophysical_parameters_once(
            healpix_range,
            gaia_source.skip(1),
            rest,
            source_id,
        );
        assert(joined.skip(1) =~= merge_join(healpix_range, gaia_source.skip(1), rest));
    }
}

/// A key above every key of the primary table is in no record.
pub proof fn lemma_no_record_above<P, S>(
    healpix_range: HealPixRange,
    gaia_source: Seq<Row<P>>,
    astrophysical_parameters: Seq<Row<S>>,
    source_id: u64,
)
    requires
        forall|i: int|
            0 <= i < gaia_source.len() ==> (#[trigger] gaia_source[i]).source_id < source_id,
    ensures
        joined_with_key(
            merge_join(healpix_range, gaia_source, astrophysical_parameters),
            source_id,
        ) == 0,
    decreases gaia_source.len() + astrophysical_parameters.len(),
{
    let joined = merge_join(healpix_range, gaia_source, astrophysical_parameters);
    if astrophysical_parameters.len() > 0 && (gaia_source.len() == 0
        || gaia_source[0].source_id > astrophysical_parameters[0].source_id) {
        let rest = astrophysical_parameters.skip(1);
        lemma_no_record_above(healpix_range, gaia_source, rest, source_id);
        assert(joined.skip(1) =~= merge_join(healpix_range, gaia_source, rest));
    } else if gaia_source.len() > 0 {
        let rest = if astrophysical_parameters.len() > 0 && gaia_source[0].source_id
            == astrophysical_parameters[0].source_id {
            astrophysical_parameters.skip(1)
        } else {
            astrophysical_parameters
        };
        assert(gaia_source[0].source_id < source_id);
        assert forall|i: int| 0 <= i < gaia_source.skip(1).len() implies (
        #[trigger] gaia_source.skip(1)[i]).source_id < source_id by {
            assert(gaia_source[i + 1].source_id < source_id);
        }
        lemma_no_record_above(healpix_range, gaia_source.skip(1), rest, source_id);
        assert(joined.skip(1) =~= merge_join(healpix_range, gaia_source.skip(1), rest));
    }
}

/// In a table that is sorted by key without repetition, the key of each row occurs once.
pub proof fn lemma_key_occurs_once<T>(rows: Seq<Row<T>>, j: int)
    requires
        strictly_increasing(rows),
        0 <= j < rows.len(),
    ensures
        rows_with_key(rows, rows[j].source_id) == 1,
    decreases rows.len(),
{
    let rest = rows.skip(1);
    assert forall|a: int, b: int| 0 <= a < b < rest.len() implies (#[trigger] rest[a]).source_id
        < (#[trigger] rest[b]).source_id by {
        assert(rows[a + 1].source_id < rows[b + 1].source_id);
    }
    if j == 0 {
        assert forall|i: int| 0 <= i < rest.len() implies (#[trigger] rest[i]).source_id
            != rows[0].source_id by {
            assert(rows[0].source_id < rows[i + 1].source_id);
        }
        lemma_key_does_not_occur(rest, rows[0].source_id);
    } else {
        assert(rows[0].source_id < rows[j].source_id);
        lemma_key_occurs_once(rest, j - 1);
    }
}

/// A key that no row has occurs in none.
proof fn lemma_key_does_not_occur<T>(rows: Seq<Row<T>>, source_id: u64)
    requires
        forall|i: int| 0 <= i < rows.len() ==> (#[trigger] rows[i]).source_id != source_id,
    ensures
        rows_with_key(rows, source_id) == 0,
    decreases rows.len(),
{
    if rows.len() > 0 {
        assert(rows[0].source_id != source_id);
        assert forall|i: int| 0 <= i < rows.skip(1).len() implies (
        #[trigger] rows.skip(1)[i]).source_id != source_id by {
            assert(rows[i + 1].source_id != source_id);
        }
        lemma_key_does_not_occur(rows.skip(1), source_id);
    }
}

/// A secondary row whose key is above every key of the partition's primary table is reported
/// as often as the key occurs in the secondary table: once, where that table is sorted by key
/// without repetition.
pub proof fn lemma_orphan_is_reported_once<P, S>(
    healpix_range: HealPixRange,
    gaia_source: Seq<Row<P>>,
    astrophysical_parameters: Seq<Row<S>>,
    j: int,
)
    requires
        0 <= j < astrophysical_parameters.len(),
        forall|i: int|
            0 <= i < gaia_source.len() ==> (#[trigger] gaia_source[i]).source_id
                < astrophysical_parameters[j].source_id,
    ensures
        reports_of(
            merge_join(healpix_range, gaia_source, astrophysical_parameters),
            astrophysical_parameters[j].source_id,
        ) == rows_with_key(astrophysical_parameters, astrophysical_parameters[j].source_id),
        strictly_increasing(astrophysical_parameters) ==> reports_of(
            merge_join(healpix_range, gaia_source, astrophysical_parameters),
            astrophysical_parameters[j].source_id,
        ) == 1,
{
    let source_id = astrophysical_parameters[j].source_id;
    lemma_every_astrophysical_parameters_once(
        healpix_range,
        gaia_source,
        astrophysical_parameters,
        source_id,
    );
    lemma_no_record_above(healpix_range, gaia_source, astrophysical_parameters, source_id);
    if strictly_increasing(astrophysical_parameters) {
        lemma_key_occurs_once(astrophysical_parameters, j);
    }
}

} // verus!
