//! The file of records that the views are drawn from.
//!
//! The file begins with the number of its records in eight bytes; each record takes 48 bytes.
//! All numbers stand with their most significant byte first.

use crate::gaia::HealPixRange;
use crate::utils::bytes::{
    be_bytes, be_value, lemma_be_bytes_len, lemma_be_value_of_be_bytes, lemma_pow256, read_u32,
    read_u64, write_be,
};
use vstd::prelude::*;

verus! {

/// One star as it is drawn. The floating-point fields are carried as their bit patterns:
/// `parallax`, `longitude` and `latitude` as those of 64-bit numbers, `t_eff` and
/// `apparent_magnitude` as those of 32-bit numbers.
#[derive(Clone, Copy, Debug)]
pub struct Record {
    pub source_id: u64,
    pub healpix_range: HealPixRange,
    pub parallax: u64,
    pub longitude: u64,
    pub latitude: u64,
    pub t_eff: u32,
    pub apparent_magnitude: u32,
}

/// The number of bytes that a record takes.
pub const RECORD_SIZE: usize = 48;

/// The number of bytes before the first record.
pub const HEADER_SIZE: usize = 8;

/// The file ended within a number.
#[derive(Clone, Copy, Debug, PartialEq, Eq, Structural)]
pub struct UnexpectedEof;

impl Record {
    /// The bytes that write the record.
    pub open spec fn bytes(self) -> Seq<u8> {
        be_bytes(self.source_id as nat, 8) + be_bytes(self.healpix_range.start as nat, 4)
            + be_bytes(self.healpix_range.end as nat, 4) + be_bytes(self.parallax as nat, 8)
            + be_bytes(self.longitude as nat, 8) + be_bytes(self.latitude as nat, 8) + be_bytes(
            self.t_eff as nat,
            4,
        ) + be_bytes(self.apparent_magnitude as nat, 4)
    }

    /// The record that the first 48 bytes of `bytes` write; `None` where there are fewer.
    pub open spec fn of_bytes(bytes: Seq<u8>) -> Option<Record> {
        if bytes.len() < RECORD_SIZE {
            None
        } else {
            Some(
                Record {
                    source_id: be_value(bytes.subrange(0, 8)) as u64,
                    healpix_range: HealPixRange {
                        start: be_value(bytes.subrange(8, 12)) as u32,
                        end: be_value(bytes.subrange(12, 16)) as u32,
                    },
                    parallax: be_value(bytes.subrange(16, 24)) as u64,
                    longitude: be_value(bytes.subrange(24, 32)) as u64,
                    latitude: be_value(bytes.subrange(32, 40)) as u64,
                    t_eff: be_value(bytes.subrange(40, 44)) as u32,
                    apparent_magnitude: be_value(bytes.subrange(44, 48)) as u32,
                },
            )
        }
    }

    /// A record takes 48 bytes, and reading what was written gives the record back.
    pub proof fn lemma_read_write(self)
        ensures
            self.bytes().len() == RECORD_SIZE,
            Record::of_bytes(self.bytes()) == Some(self),
    {
        let bytes = self.bytes();
        lemma_pow256();
        lemma_be_bytes_len(self.source_id as nat, 8);
        lemma_be_bytes_len(self.healpix_range.start as nat, 4);
        lemma_be_bytes_len(self.healpix_range.end as nat, 4);
        lemma_be_bytes_len(self.parallax as nat, 8);
        lemma_be_bytes_len(self.longitude as nat, 8);
        lemma_be_bytes_len(self.latitude as nat, 8);
        lemma_be_bytes_len(self.t_eff as nat, 4);
        lemma_be_bytes_len(self.apparent_magnitude as nat, 4);
        lemma_be_value_of_be_bytes(self.source_id as nat, 8);
        lemma_be_value_of_be_bytes(self.healpix_range.start as nat, 4);
        lemma_be_value_of_be_bytes(self.healpix_range.end as nat, 4);
        lemma_be_value_of_be_bytes(self.parallax as nat, 8);
        lemma_be_value_of_be_bytes(self.longitude as nat, 8);
        lemma_be_value_of_be_bytes(self.latitude as nat, 8);
        lemma_be_value_of_be_bytes(self.t_eff as nat, 4);
        lemma_be_value_of_be_bytes(self.apparent_magnitude as nat, 4);
        assert(bytes.subrange(0, 8) =~= be_bytes(self.source_id as nat, 8));
        assert(bytes.subrange(8, 12) =~= be_bytes(self.healpix_range.start as nat, 4));
        assert(bytes.subrange(12, 16) =~= be_bytes(self.healpix_range.end as nat, 4));
        assert(bytes.subrange(16, 24) =~= be_bytes(self.parallax as nat, 8));
        assert(bytes.subrange(24, 32) =~= be_bytes(self.longitude as nat, 8));
        assert(bytes.subrange(32, 40) =~= be_bytes(self.latitude as nat, 8));
        assert(bytes.subrange(40, 44) =~= be_bytes(self.t_eff as nat, 4));
        assert(bytes.subrange(44, 48) =~= be_bytes(self.apparent_magnitude as nat, 4));
    }

    /// The record of a star of the catalog, if the catalog has all that is drawn of it.
    pub fn from_gaia(
        source_id: u64,
        healpix_range: HealPixRange,
        parallax: Option<u64>,
        longitude: Option<u64>,
        latitude: Option<u64>,
        t_eff: Option<u32>,
        apparent_magnitude: Option<u32>,
    ) -> (record: Option<Record>)
        ensures
            record == match (parallax, longitude, latitude, t_eff, apparent_magnitude) {
                (
                    Some(parallax),
                    Some(longitude),
                    Some(latitude),
                    Some(t_eff),
                    Some(apparent_magnitude),
                ) => Some(
                    Record {
                        source_id,
                        healpix_range,
                        parallax,
                        longitude,
                        latitude,
                        t_eff,
                        apparent_magnitude,
                    },
                ),
                _ => None,
            },
    {
        match (parallax, longitude, latitude, t_eff, apparent_magnitude) {
            (
                Some(parallax),
                Some(longitude),
                Some(latitude),
                Some(t_eff),
                Some(apparent_magnitude),
            ) => Some(
                Record {
                    source_id,
                    healpix_range,
                    parallax,
                    longitude,
                    latitude,
                    t_eff,
                    apparent_magnitude,
                },
            ),
            _ => None,
        }
    }

    /// Appends the bytes of the record to `out`.
    pub fn write(&self, out: &mut Vec<u8>)
        ensures
            final(out)@ == old(out)@ + self.bytes(),
    {
        write_be(out, self.source_id, 8);
        write_be(out, self.healpix_range.start as u64, 4);
        write_be(out, self.healpix_range.end as u64, 4);
        write_be(out, self.parallax, 8);
        write_be(out, self.longitude, 8);
        write_be(out, self.latitude, 8);
        write_be(out, self.t_eff as u64, 4);
        write_be(out, self.apparent_magnitude as u64, 4);
    }

    /// Reads a record from the first 48 bytes of `bytes`.
    pub fn read(bytes: &[u8]) -> (record: Result<Record, UnexpectedEof>)
        ensures
            match record {
                Ok(record) => Record::of_bytes(bytes@) == Some(record),
                Err(_) => Record::of_bytes(bytes@) is None,
            },
    {
        if bytes.len() < RECORD_SIZE {
            return Err(UnexpectedEof);
        }
        Ok(
            Record {
                source_id: read_u64(bytes, 0),
                healpix_range: HealPixRange { start: read_u32(bytes, 8), end: read_u32(bytes, 12) },
                parallax: read_u64(bytes, 16),
                longitude: read_u64(bytes, 24),
                latitude: read_u64(bytes, 32),
                t_eff: read_u32(bytes, 40),
                apparent_magnitude: read_u32(bytes, 44),
            },
        )
    }
}

/// The place within a file of records: how many it holds and how many were read.
#[derive(Debug)]
pub struct RecordReader {
    num_records: u64,
    num_read: u64,
}

impl RecordReader {
    /// How many records the file holds.
    pub closed spec fn spec_num_records(&self) -> u64 {
        self.num_records
    }

    /// How many records were read.
    pub closed spec fn spec_num_read(&self) -> u64 {
        self.num_read
    }

    /// Starts on a file that begins with the bytes `header`: the number of its records.
    pub fn open(header: &[u8]) -> (reader: Result<Self, UnexpectedEof>)
        ensures
            match reader {
                Ok(reader) => header@.len() >= HEADER_SIZE && reader.spec_num_records()
                    == be_value(header@.subrange(0, 8)) && reader.spec_num_read() == 0,
                Err(_) => header@.len() < HEADER_SIZE,
            },
    {
        if header.len() < HEADER_SIZE {
            return Err(UnexpectedEof);
        }
        Ok(RecordReader { num_records: read_u64(header, 0), num_read: 0 })
    }

    /// Reads the next record from its bytes. `Ok(None)` says that every record of the file
    /// was read already. An error leaves the reader where it was.
    pub fn read_record(&mut self, bytes: &[u8]) -> (record: Result<Option<Record>, UnexpectedEof>)
        ensures
            final(self).spec_num_records() == old(self).spec_num_records(),
            match record {
                Ok(Some(record)) => old(self).spec_num_read() < old(self).spec_num_records()
                    && Record::of_bytes(bytes@) == Some(record) && final(self).spec_num_read()
                    == old(self).spec_num_read() + 1,
                Ok(None) => old(self).spec_num_read() >= old(self).spec_num_records() && final(self).spec_num_read() == old(self).spec_num_read(),
                Err(_) => old(self).spec_num_read() < old(self).spec_num_records()
                    && Record::of_bytes(bytes@) is None && final(self).spec_num_read() == old(self).spec_num_read(),
            },
    {
        if self.num_read >= self.num_records {
            return Ok(None);
        }
        match Record::read(bytes) {
            Ok(record) => {
                self.num_read = self.num_read + 1;
                Ok(Some(record))
            },
            Err(error) => Err(error),
        }
    }

    /// How many records the file holds.
    pub fn num_records(&self) -> (n: u64)
        ensures
            n == self.spec_num_records(),
    {
        self.num_records
    }

    /// How many records were read.
    pub fn num_read(&self) -> (n: u64)
        ensures
            n == self.spec_num_read(),
    {
        self.num_read
    }
}

/// The counts that an export keeps: the records written in all, and those written since the
/// last change of file, of which there are to be no more than a limit.
#[derive(Clone, Copy, Debug)]
pub struct Export {
    pub count: u64,
    pub count_per_file: u64,
    pub limit_per_file: u64,
}

impl Export {
    /// Before the first record.
    pub fn new(limit_per_file: u64) -> (export: Self)
        ensures
            export == (Export { count: 0, count_per_file: 0, limit_per_file }),
    {
        Export { count: 0, count_per_file: 0, limit_per_file }
    }

    /// The counts after one more record was written, and whether the rest of the file that it
    /// came from is to be skipped: it is when the file has given as many records as the limit
    /// allows, and the count for the file starts again.
    pub open spec fn after_record(self) -> (Export, bool) {
        if self.count_per_file + 1 >= self.limit_per_file {
            (Export { count: (self.count + 1) as u64, count_per_file: 0, ..self }, true)
        } else {
            (
                Export {
                    count: (self.count + 1) as u64,
                    count_per_file: (self.count_per_file + 1) as u64,
                    ..self
                },
                false,
            )
        }
    }

    /// Counts one written record and says whether to skip the rest of its file.
    pub fn record_written(&mut self) -> (skip: bool)
        requires
            old(self).count < u64::MAX,
            old(self).count_per_file < u64::MAX,
        ensures
            (*final(self), skip) == old(self).after_record(),
    {
        self.count = self.count + 1;
        self.count_per_file = self.count_per_file + 1;
        if self.count_per_file >= self.limit_per_file {
            self.count_per_file = 0;
            true
        } else {
            false
        }
    }

    /// The bytes that the file of records begins with: the number of records written.
    pub fn header(&self) -> (header: Vec<u8>)
        ensures
            header@ == be_bytes(self.count as nat, 8),
    {
        let mut header = Vec::new();
        write_be(&mut header, self.count, 8);
        header
    }
}

} // verus!
