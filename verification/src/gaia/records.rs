//! The merge-join engine: one buffered row per table, joined by key, partition after partition.
//!
//! The engine performs no input or output. `Records::read_record` takes what the caller last
//! read for it and answers with what to do next: open a partition's files, read a row of one
//! table, report a row without a partner, hand out a joined record, or stop.

use super::order::pointed_to;
use super::{Data, HealPixRange, Partition};
use vstd::prelude::*;

verus! {

/// One row of a table: the key it is joined by, and the rest of it, carried along unread.
#[derive(Clone, Debug)]
pub struct Row<T> {
    pub source_id: u64,
    pub fields: T,
}

/// A row of the primary table with the row of the secondary table that has the same key, if
/// there is one.
#[derive(Clone, Debug)]
pub struct Record<P, S> {
    pub healpix_range: HealPixRange,
    pub gaia_source: Row<P>,
    pub astrophysical_parameters: Option<Row<S>>,
}

/// What the caller hands to the engine.
#[derive(Debug)]
pub enum Event<P, S> {
    /// Nothing was read since the last call.
    Resume,
    /// The primary source was read: a row, or `None` at its end.
    GaiaSource(Option<Row<P>>),
    /// The secondary source was read: a row, or `None` at its end.
    AstrophysicalParameters(Option<Row<S>>),
}

/// What the engine asks of the caller.
#[derive(Debug)]
pub enum Action<P, S> {
    /// Open the files of the partition with this index; they are the sources from now on.
    Open(usize),
    /// Read one row from the primary source and hand it in.
    ReadGaiaSource,
    /// Read one row from the secondary source and hand it in.
    ReadAstrophysicalParameters,
    /// A secondary row with this key has no primary row; it was dropped.
    MissingGaiaSource(u64),
    /// The next joined record.
    Record(Record<P, S>),
    /// The stream has ended.
    End,
}

/// The engine as a value: how many partitions were started, which sources are open, and the row
/// buffered on each side.
pub struct State<P, S> {
    pub position: nat,
    pub gaia_source_open: bool,
    pub astrophysical_parameters_open: bool,
    pub gaia_source: Option<Row<P>>,
    pub astrophysical_parameters: Option<Row<S>>,
}

impl<P, S> State<P, S> {
    /// Before the first partition.
    pub open spec fn start() -> Self {
        State {
            position: 0,
            gaia_source_open: false,
            astrophysical_parameters_open: false,
            gaia_source: None,
            astrophysical_parameters: None,
        }
    }

    /// A closed source has nothing buffered, and a source is open only within a partition.
    pub open spec fn wf(self, partitions: Seq<Partition>) -> bool {
        &&& self.position <= partitions.len()
        &&& !self.gaia_source_open ==> self.gaia_source is None
        &&& !self.astrophysical_parameters_open ==> self.astrophysical_parameters is None
        &&& self.gaia_source_open || self.astrophysical_parameters_open ==> self.position > 0
    }

    /// The range of the partition that was started last.
    pub open spec fn healpix_range(self, partitions: Seq<Partition>) -> HealPixRange
        recommends
            0 < self.position <= partitions.len(),
    {
        partitions[self.position - 1].healpix_range
    }

    /// The state after the caller handed in `event`. A row, or the end of a source, is taken
    /// only from an open source whose buffer is empty; anything else leaves the state as it is.
    pub open spec fn accept(self, event: Event<P, S>) -> Self {
        match event {
            Event::Resume => self,
            Event::GaiaSource(row) => {
                if self.gaia_source_open && self.gaia_source is None {
                    match row {
                        Some(_) => State { gaia_source: row, ..self },
                        None => State { gaia_source_open: false, ..self },
                    }
                } else {
                    self
                }
            },
            Event::AstrophysicalParameters(row) => {
                if self.astrophysical_parameters_open && self.astrophysical_parameters is None {
                    match row {
                        Some(_) => State { astrophysical_parameters: row, ..self },
                        None => State { astrophysical_parameters_open: false, ..self },
                    }
                } else {
                    self
                }
            },
        }
    }

    /// The state with both sources closed and both buffers empty, at the same position.
    pub open spec fn skip_file(self) -> Self {
        State {
            gaia_source_open: false,
            astrophysical_parameters_open: false,
            gaia_source: None,
            astrophysical_parameters: None,
            ..self
        }
    }

    /// The next state and what is asked of the caller.
    ///
    /// With no source open the next partition is started, or the stream ends. Else an empty
    /// buffer of an open source is filled, the primary one first. Else the buffers decide: equal
    /// keys give a joined record; a smaller primary key gives the primary row alone and keeps
    /// the secondary row; a greater one, or no primary row at all, drops the secondary row and
    /// reports it.
    pub open spec fn decide(self, partitions: Seq<Partition>) -> (Self, Action<P, S>) {
        if !self.gaia_source_open && !self.astrophysical_parameters_open {
            if self.position < partitions.len() {
                let partition = partitions[self.position as int];
                (
                    State {
                        position: self.position + 1,
                        gaia_source_open: partition.gaia_source is Some,
                        astrophysical_parameters_open: partition.astrophysical_parameters is Some,
                        gaia_source: None,
                        astrophysical_parameters: None,
                    },
                    Action::Open(self.position as usize),
                )
            } else {
                (self, Action::End)
            }
        } else if self.gaia_source_open && self.gaia_source is None {
            (self, Action::ReadGaiaSource)
        } else if self.astrophysical_parameters_open && self.astrophysical_parameters is None {
            (self, Action::ReadAstrophysicalParameters)
        } else {
            let healpix_range = self.healpix_range(partitions);
            match (self.gaia_source, self.astrophysical_parameters) {
                (Some(gaia_source), Some(astrophysical_parameters)) => {
                    if gaia_source.source_id == astrophysical_parameters.source_id {
                        (
                            State { gaia_source: None, astrophysical_parameters: None, ..self },
                            Action::Record(
                                Record {
                                    healpix_range,
                                    gaia_source,
                                    astrophysical_parameters: Some(astrophysical_parameters),
                                },
                            ),
                        )
                    } else if gaia_source.source_id < astrophysical_parameters.source_id {
                        (
                            State { gaia_source: None, ..self },
                            Action::Record(
                                Record { healpix_range, gaia_source, astrophysical_parameters: None },
                            ),
                        )
                    } else {
                        (
                            State { astrophysical_parameters: None, ..self },
                            Action::MissingGaiaSource(astrophysical_parameters.source_id),
                        )
                    }
                },
                (Some(gaia_source), None) => (
                    State { gaia_source: None, ..self },
                    Action::Record(
                        Record { healpix_range, gaia_source, astrophysical_parameters: None },
                    ),
                ),
                (None, Some(astrophysical_parameters)) => (
                    State { astrophysical_parameters: None, ..self },
                    Action::MissingGaiaSource(astrophysical_parameters.source_id),
                ),
                (None, None) => (self, Action::End),
            }
        }
    }

    /// One call of the engine: the event is taken in, then the next action is decided.
    pub open spec fn step(self, partitions: Seq<Partition>, event: Event<P, S>) -> (
        Self,
        Action<P, S>,
    ) {
        self.accept(event).decide(partitions)
    }
}

/// The count of started partitions never goes back and never passes the number of partitions,
/// whatever the engine is handed and whenever a file is skipped; and when the engine says that
/// the stream has ended, every partition was started.
pub proof fn lemma_progress<P, S>(state: State<P, S>, partitions: Seq<Partition>, event: Event<P, S>)
    requires
        state.wf(partitions),
    ensures
        state.step(partitions, event).0.wf(partitions),
        state.position <= state.step(partitions, event).0.position <= partitions.len(),
        state.step(partitions, event).1 is End ==> state.step(partitions, event).0.position
            == partitions.len(),
        state.skip_file().wf(partitions),
        state.skip_file().position == state.position,
{
}

/// A row is asked for only from an open source whose buffer is empty, and a row that was
/// handed in stays in its buffer until the engine gives it out or drops it: no row is read
/// over another.
pub proof fn lemma_buffers_are_filled_when_empty<P, S>(
    state: State<P, S>,
    partitions: Seq<Partition>,
    event: Event<P, S>,
)
    ensures
        state.decide(partitions).1 is ReadGaiaSource ==> state.gaia_source_open
            && state.gaia_source is None && state.decide(partitions).0 == state,
        state.decide(partitions).1 is ReadAstrophysicalParameters
            ==> state.astrophysical_parameters_open && state.astrophysical_parameters is None
            && state.decide(partitions).0 == state,
        state.gaia_source is Some ==> state.accept(event).gaia_source == state.gaia_source,
        state.astrophysical_parameters is Some ==> state.accept(event).astrophysical_parameters
            == state.astrophysical_parameters,
{
}

/// Which sources are open. The sources themselves are the caller's.
struct Readers {
    gaia_source: bool,
    astrophysical_parameters: bool,
}

/// The row that was read ahead on each side.
struct Buffers<P, S> {
    gaia_source: Option<Row<P>>,
    astrophysical_parameters: Option<Row<S>>,
}

/// The stream of joined records over a catalog.
pub struct Records<'a, P, S> {
    partitions: Vec<&'a Partition>,
    position: usize,
    current_healpix_range: Option<HealPixRange>,
    readers: Readers,
    buffers: Buffers<P, S>,
}

impl<'a, P, S> View for Records<'a, P, S> {
    type V = State<P, S>;

    closed spec fn view(&self) -> State<P, S> {
        State {
            position: self.position as nat,
            gaia_source_open: self.readers.gaia_source,
            astrophysical_parameters_open: self.readers.astrophysical_parameters,
            gaia_source: self.buffers.gaia_source,
            astrophysical_parameters: self.buffers.astrophysical_parameters,
        }
    }
}

impl<'a, P, S> Records<'a, P, S> {
    /// The partitions that the stream runs over.
    pub closed spec fn partitions(&self) -> Seq<Partition> {
        pointed_to(self.partitions@)
    }

    /// The state is well formed and the range at hand is that of the partition started last.
    pub closed spec fn wf(&self) -> bool {
        &&& self@.wf(self.partitions())
        &&& self.position > 0 ==> self.current_healpix_range == Some(
            self@.healpix_range(self.partitions()),
        )
    }

    /// The state of a well-formed stream is well formed over its partitions.
    pub proof fn lemma_wf(&self)
        requires
            self.wf(),
        ensures
            self@.wf(self.partitions()),
    {
    }

    /// The stream over `data`, positioned before its first partition.
    pub fn new(data: &'a Data) -> (records: Self)
        ensures
            records.wf(),
            records.partitions() == data.partitions(),
            records@ == State::<P, S>::start(),
            records@.wf(records.partitions()),
    {
        Records {
            partitions: data.in_order(),
            position: 0,
            current_healpix_range: None,
            readers: Readers { gaia_source: false, astrophysical_parameters: false },
            buffers: Buffers { gaia_source: None, astrophysical_parameters: None },
        }
    }

    /// The partition at `index` in the order in which the partitions are joined.
    pub fn partition(&self, index: usize) -> (partition: &'a Partition)
        requires
            index < self.partitions().len(),
        ensures
            *partition == self.partitions()[index as int],
    {
        let partition = self.partitions[index];
        assert(pointed_to(self.partitions@)[index as int] == *partition);
        partition
    }

    /// Takes in what the caller read and says what to do next.
    ///
    /// Start with `Event::Resume`. After `Action::ReadGaiaSource` hand in
    /// `Event::GaiaSource` with the row read, or with `None` at the end of the file; likewise
    /// for the secondary table. After every other action but `Action::End`, hand in
    /// `Event::Resume`.
    pub fn read_record(&mut self, event: Event<P, S>) -> (action: Action<P, S>)
        requires
            old(self).wf(),
        ensures
            final(self).wf(),
            final(self)@.wf(final(self).partitions()),
            final(self).partitions() == old(self).partitions(),
            (final(self)@, action) == old(self)@.step(old(self).partitions(), event),
            old(self)@.position <= final(self)@.position <= final(self).partitions().len(),
            action is End ==> final(self)@.position == final(self).partitions().len(),
    {
        match event {
            Event::Resume => {},
            Event::GaiaSource(row) => {
                if self.readers.gaia_source && self.buffers.gaia_source.is_none() {
                    match row {
                        Some(row) => {
                            self.buffers.gaia_source = Some(row);
                        },
                        None => {
                            self.readers.gaia_source = false;
                        },
                    }
                }
            },
            Event::AstrophysicalParameters(row) => {
                if self.readers.astrophysical_parameters
                    && self.buffers.astrophysical_parameters.is_none() {
                    match row {
                        Some(row) => {
                            self.buffers.astrophysical_parameters = Some(row);
                        },
                        None => {
                            self.readers.astrophysical_parameters = false;
                        },
                    }
                }
            },
        }
        if !self.readers.gaia_source && !self.readers.astrophysical_parameters {
            if self.position < self.partitions.len() {
                let index = self.position;
                let partition = self.partitions[index];
                assert(pointed_to(self.partitions@)[index as int] == *partition);
                self.current_healpix_range = Some(partition.healpix_range);
                self.readers.gaia_source = partition.gaia_source.is_some();
                self.readers.astrophysical_parameters =
                    partition.astrophysical_parameters.is_some();
                self.position = index + 1;
                return Action::Open(index);
            } else {
                return Action::End;
            }
        }
        if self.readers.gaia_source && self.buffers.gaia_source.is_none() {
            return Action::ReadGaiaSource;
        }
        if self.readers.astrophysical_parameters
            && self.buffers.astrophysical_parameters.is_none() {
            return Action::ReadAstrophysicalParameters;
        }
        let healpix_range = self.current_healpix_range.unwrap();
        let gaia_source = self.buffers.gaia_source.take();
        let astrophysical_parameters = self.buffers.astrophysical_parameters.take();
        match (gaia_source, astrophysical_parameters) {
            (Some(gaia_source), Some(astrophysical_parameters)) => {
                if gaia_source.source_id == astrophysical_parameters.source_id {
                    Action::Record(
                        Record {
                            healpix_range,
                            gaia_source,
                            astrophysical_parameters: Some(astrophysical_parameters),
                        },
                    )
                } else if gaia_source.source_id < astrophysical_parameters.source_id {
                    self.buffers.astrophysical_parameters = Some(astrophysical_parameters);
                    Action::Record(
                        Record { healpix_range, gaia_source, astrophysical_parameters: None },
                    )
                } else {
                    self.buffers.gaia_source = Some(gaia_source);
                    Action::MissingGaiaSource(astrophysical_parameters.source_id)
                }
            },
            (Some(gaia_source), None) => Action::Record(
                Record { healpix_range, gaia_source, astrophysical_parameters: None },
            ),
            (None, Some(astrophysical_parameters)) => Action::MissingGaiaSource(
                astrophysical_parameters.source_id,
            ),
            (None, None) => Action::End,
        }
    }

    /// Abandons the rest of the current partition: both sources are closed and both buffers
    /// emptied. The next call of `read_record` goes on with the next partition.
    pub fn skip_file(&mut self)
        requires
            old(self).wf(),
        ensures
            final(self).wf(),
            final(self)@.wf(final(self).partitions()),
            final(self).partitions() == old(self).partitions(),
            final(self)@ == old(self)@.skip_file(),
    {
        self.readers.gaia_source = false;
        self.readers.astrophysical_parameters = false;
        self.buffers.gaia_source = None;
        self.buffers.astrophysical_parameters = None;
    }

    /// How many partitions were started, and how many there are.
    pub fn progress(&self) -> (progress: (usize, usize))
        requires
            self.wf(),
        ensures
            progress.0 == self@.position,
            progress.1 == self.partitions().len(),
            progress.0 <= progress.1,
    {
        (self.position, self.partitions.len())
    }
}

} // verus!
