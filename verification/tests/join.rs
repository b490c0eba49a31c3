use std::collections::HashMap;
use std::path::PathBuf;

use via_tool::gaia::{Action, Data, Entry, Event, Record, Records, Row};

/// What one run gave: the records as (range start, range end, key, key of the secondary row),
/// and the keys that were reported as missing.
struct Outcome {
    records: Vec<(u32, u32, u64, Option<u64>)>,
    missing: Vec<u64>,
}

/// Answers the engine's requests from tables held in memory.
struct Driver<'a> {
    data: &'a Data,
    files: &'a HashMap<PathBuf, Vec<u64>>,
    records: Records<'a, String, String>,
    gaia_source: Option<std::slice::Iter<'a, u64>>,
    astrophysical_parameters: Option<std::slice::Iter<'a, u64>>,
    missing: Vec<u64>,
}

impl<'a> Driver<'a> {
    fn new(data: &'a Data, files: &'a HashMap<PathBuf, Vec<u64>>) -> Self {
        Driver {
            data,
            files,
            records: data.records(),
            gaia_source: None,
            astrophysical_parameters: None,
            missing: Vec::new(),
        }
    }

    fn next(&mut self) -> Option<Record<String, String>> {
        let mut event = Event::Resume;
        loop {
            match self.records.read_record(event) {
                Action::Open(index) => {
                    let partition = self.data.partition(index);
                    self.gaia_source =
                        partition.gaia_source.as_ref().map(|path| self.files[path].iter());
                    self.astrophysical_parameters = partition
                        .astrophysical_parameters
                        .as_ref()
                        .map(|path| self.files[path].iter());
                    event = Event::Resume;
                }
                Action::ReadGaiaSource => {
                    let row = self.gaia_source.as_mut().unwrap().next();
                    event = Event::GaiaSource(
                        row.map(|key| Row { source_id: *key, fields: format!("g{key}") }),
                    );
                }
                Action::ReadAstrophysicalParameters => {
                    let row = self.astrophysical_parameters.as_mut().unwrap().next();
                    event = Event::AstrophysicalParameters(
                        row.map(|key| Row { source_id: *key, fields: format!("a{key}") }),
                    );
                }
                Action::MissingGaiaSource(key) => {
                    self.missing.push(key);
                    event = Event::Resume;
                }
                Action::Record(record) => return Some(record),
                Action::End => return None,
            }
        }
    }

    fn skip_file(&mut self) {
        self.records.skip_file();
        self.gaia_source = None;
        self.astrophysical_parameters = None;
    }

    fn progress(&self) -> (usize, usize) {
        self.records.progress()
    }
}

fn catalog(names: &[&str]) -> Data {
    Data::open(
        names
            .iter()
            .map(|name| Entry { file_name: name.to_string(), path: PathBuf::from(name) })
            .collect(),
    )
}

fn files(tables: &[(&str, &[u64])]) -> HashMap<PathBuf, Vec<u64>> {
    tables.iter().map(|(name, keys)| (PathBuf::from(name), keys.to_vec())).collect()
}

fn run(data: &Data, files: &HashMap<PathBuf, Vec<u64>>) -> Outcome {
    let mut driver = Driver::new(data, files);
    let mut records = Vec::new();
    while let Some(record) = driver.next() {
        assert_eq!(record.gaia_source.fields, format!("g{}", record.gaia_source.source_id));
        if let Some(row) = &record.astrophysical_parameters {
            assert_eq!(row.fields, format!("a{}", row.source_id));
        }
        records.push((
            record.healpix_range.start,
            record.healpix_range.end,
            record.gaia_source.source_id,
            record.astrophysical_parameters.map(|row| row.source_id),
        ));
    }
    Outcome { records, missing: driver.missing }
}

#[test]
fn joins_one_partition_and_reports_the_orphan() {
    let data = catalog(&["GaiaSource_0-10.csv.gz", "AstrophysicalParameters_0-10.csv.gz"]);
    let files = files(&[
        ("GaiaSource_0-10.csv.gz", &[1, 2, 3]),
        ("AstrophysicalParameters_0-10.csv.gz", &[2, 3, 4]),
    ]);
    let outcome = run(&data, &files);
    assert_eq!(outcome.records, vec![(0, 0, 1, None), (0, 0, 2, Some(2)), (0, 0, 3, Some(3))]);
    assert_eq!(outcome.missing, vec![4]);
}

#[test]
fn secondary_file_alone_yields_nothing_and_reports_each_row() {
    let data = catalog(&["AstrophysicalParameters_5-6.csv.gz"]);
    let files = files(&[("AstrophysicalParameters_5-6.csv.gz", &[7, 8, 9])]);
    let outcome = run(&data, &files);
    assert!(outcome.records.is_empty());
    assert_eq!(outcome.missing, vec![7, 8, 9]);
}

#[test]
fn progress_counts_started_partitions() {
    let data = catalog(&[
        "GaiaSource_0-10.csv.gz",
        "GaiaSource_10-20.csv.gz",
        "AstrophysicalParameters_10-20.csv.gz",
    ]);
    let files = files(&[
        ("GaiaSource_0-10.csv.gz", &[1, 2]),
        ("GaiaSource_10-20.csv.gz", &[5, 6]),
        ("AstrophysicalParameters_10-20.csv.gz", &[5, 6]),
    ]);
    let mut driver = Driver::new(&data, &files);
    assert_eq!(driver.progress(), (0, 2));
    let first = driver.next().unwrap();
    assert_eq!((first.healpix_range.start, first.gaia_source.source_id), (0, 1));
    assert_eq!(driver.progress(), (1, 2));
    let second = driver.next().unwrap();
    assert_eq!(second.gaia_source.source_id, 2);
    assert!(second.astrophysical_parameters.is_none());
    assert_eq!(driver.progress(), (1, 2));
    let third = driver.next().unwrap();
    assert_eq!((third.healpix_range.start, third.gaia_source.source_id), (10, 5));
    assert_eq!(third.astrophysical_parameters.unwrap().source_id, 5);
    assert_eq!(driver.progress(), (2, 2));
    assert_eq!(driver.next().unwrap().gaia_source.source_id, 6);
    assert!(driver.next().is_none());
    assert_eq!(driver.progress(), (2, 2));
    assert!(driver.missing.is_empty());
}

#[test]
fn primary_file_alone_yields_every_row_once_in_order() {
    let data = catalog(&["GaiaSource_3-4.csv.gz"]);
    let files = files(&[("GaiaSource_3-4.csv.gz", &[10, 11, 11, 40])]);
    let outcome = run(&data, &files);
    assert_eq!(
        outcome.records,
        vec![(3, 3, 10, None), (3, 3, 11, None), (3, 3, 11, None), (3, 3, 40, None)]
    );
    assert!(outcome.missing.is_empty());
}

#[test]
fn identical_keys_join_every_row() {
    let data = catalog(&["AstrophysicalParameters_0-1.csv.gz", "GaiaSource_0-1.csv.gz"]);
    let files = files(&[
        ("GaiaSource_0-1.csv.gz", &[2, 3, 5, 8]),
        ("AstrophysicalParameters_0-1.csv.gz", &[2, 3, 5, 8]),
    ]);
    let outcome = run(&data, &files);
    assert_eq!(
        outcome.records,
        vec![(0, 0, 2, Some(2)), (0, 0, 3, Some(3)), (0, 0, 5, Some(5)), (0, 0, 8, Some(8))]
    );
    assert!(outcome.missing.is_empty());
    for pair in outcome.records.windows(2) {
        assert!(pair[0].2 < pair[1].2);
    }
}

#[test]
fn orphans_between_and_after_primary_rows_are_dropped() {
    let data = catalog(&["GaiaSource_0-1.csv.gz", "AstrophysicalParameters_0-1.csv.gz"]);
    let files = files(&[
        ("GaiaSource_0-1.csv.gz", &[1, 5]),
        ("AstrophysicalParameters_0-1.csv.gz", &[3, 5, 6, 9]),
    ]);
    let outcome = run(&data, &files);
    assert_eq!(outcome.records, vec![(0, 0, 1, None), (0, 0, 5, Some(5))]);
    assert_eq!(outcome.missing, vec![3, 6, 9]);
}

#[test]
fn orphan_before_the_first_primary_row_is_dropped() {
    let data = catalog(&["GaiaSource_0-1.csv.gz", "AstrophysicalParameters_0-1.csv.gz"]);
    let files = files(&[
        ("GaiaSource_0-1.csv.gz", &[4]),
        ("AstrophysicalParameters_0-1.csv.gz", &[1, 2, 4]),
    ]);
    let outcome = run(&data, &files);
    assert_eq!(outcome.records, vec![(0, 0, 4, Some(4))]);
    assert_eq!(outcome.missing, vec![1, 2]);
}

#[test]
fn empty_catalog_ends_at_once() {
    let data = catalog(&[]);
    let files = files(&[]);
    let mut driver = Driver::new(&data, &files);
    assert_eq!(driver.progress(), (0, 0));
    assert!(driver.next().is_none());
    assert!(driver.next().is_none());
    assert_eq!(driver.progress(), (0, 0));
}

#[test]
fn file_of_another_table_makes_no_partition() {
    let data = catalog(&["Foo_0-10.csv.gz"]);
    assert_eq!(data.len(), 0);
    let none = files(&[]);
    let mut driver = Driver::new(&data, &none);
    assert_eq!(driver.progress(), (0, 0));
    assert!(driver.next().is_none());
    assert_eq!(driver.progress(), (0, 0));
    let data = catalog(&["Other_1-2.csv.gz", "GaiaSource_7-8.csv.gz"]);
    assert_eq!(data.len(), 1);
    let files = files(&[("GaiaSource_7-8.csv.gz", &[1])]);
    let mut driver = Driver::new(&data, &files);
    assert_eq!(driver.progress(), (0, 1));
    let record = driver.next().unwrap();
    assert_eq!((record.healpix_range.start, record.gaia_source.source_id), (7, 1));
    assert_eq!(driver.progress(), (1, 1));
    assert!(driver.next().is_none());
}

#[test]
fn empty_files_yield_nothing() {
    let data = catalog(&["GaiaSource_0-1.csv.gz", "AstrophysicalParameters_0-1.csv.gz"]);
    let files =
        files(&[("GaiaSource_0-1.csv.gz", &[]), ("AstrophysicalParameters_0-1.csv.gz", &[])]);
    let outcome = run(&data, &files);
    assert!(outcome.records.is_empty());
    assert!(outcome.missing.is_empty());
}

#[test]
fn skip_file_abandons_the_rest_of_the_partition() {
    let data = catalog(&[
        "GaiaSource_0-10.csv.gz",
        "AstrophysicalParameters_0-10.csv.gz",
        "GaiaSource_10-20.csv.gz",
        "AstrophysicalParameters_10-20.csv.gz",
    ]);
    let files = files(&[
        ("GaiaSource_0-10.csv.gz", &[1, 2, 3, 4]),
        ("AstrophysicalParameters_0-10.csv.gz", &[2, 3, 4, 5]),
        ("GaiaSource_10-20.csv.gz", &[3, 4]),
        ("AstrophysicalParameters_10-20.csv.gz", &[4]),
    ]);
    let mut driver = Driver::new(&data, &files);
    let first = driver.next().unwrap();
    assert_eq!(first.gaia_source.source_id, 1);
    assert!(first.astrophysical_parameters.is_none());
    // The secondary row with key 2 is buffered now; it must not be joined with anything later.
    driver.skip_file();
    assert_eq!(driver.progress(), (1, 2));
    let second = driver.next().unwrap();
    assert_eq!((second.healpix_range.start, second.healpix_range.end), (10, 10));
    assert_eq!(second.gaia_source.source_id, 3);
    assert!(second.astrophysical_parameters.is_none());
    let third = driver.next().unwrap();
    assert_eq!(third.healpix_range.start, 10);
    assert_eq!(third.gaia_source.source_id, 4);
    assert_eq!(third.astrophysical_parameters.unwrap().source_id, 4);
    assert!(driver.next().is_none());
    assert!(driver.missing.is_empty());
}

#[test]
fn skip_file_on_the_last_partition_ends_the_stream() {
    let data = catalog(&["GaiaSource_0-10.csv.gz"]);
    let files = files(&[("GaiaSource_0-10.csv.gz", &[1, 2, 3])]);
    let mut driver = Driver::new(&data, &files);
    assert_eq!(driver.next().unwrap().gaia_source.source_id, 1);
    driver.skip_file();
    assert!(driver.next().is_none());
    assert_eq!(driver.progress(), (1, 1));
}

#[test]
fn skip_file_before_the_first_record_changes_nothing() {
    let data = catalog(&["GaiaSource_0-10.csv.gz"]);
    let files = files(&[("GaiaSource_0-10.csv.gz", &[1])]);
    let mut driver = Driver::new(&data, &files);
    driver.skip_file();
    assert_eq!(driver.progress(), (0, 1));
    assert_eq!(driver.next().unwrap().gaia_source.source_id, 1);
    assert!(driver.next().is_none());
}

#[test]
fn progress_never_goes_back_and_ends_at_the_total() {
    let data = catalog(&[
        "GaiaSource_0-1.csv.gz",
        "AstrophysicalParameters_1-2.csv.gz",
        "GaiaSource_2-3.csv.gz",
        "AstrophysicalParameters_2-3.csv.gz",
    ]);
    let files = files(&[
        ("GaiaSource_0-1.csv.gz", &[1, 2]),
        ("AstrophysicalParameters_1-2.csv.gz", &[1]),
        ("GaiaSource_2-3.csv.gz", &[1, 3]),
        ("AstrophysicalParameters_2-3.csv.gz", &[2, 3]),
    ]);
    let mut driver = Driver::new(&data, &files);
    let mut last = driver.progress();
    assert_eq!(last, (0, 3));
    let mut seen = vec![last];
    while driver.next().is_some() {
        let now = driver.progress();
        assert!(last.0 <= now.0 && now.0 <= now.1 && now.1 == 3);
        last = now;
        seen.push(now);
    }
    assert_eq!(driver.progress(), (3, 3));
    assert_eq!(seen, vec![(0, 3), (1, 3), (1, 3), (3, 3), (3, 3)]);
    assert_eq!(driver.missing, vec![1, 2]);
}

#[test]
fn a_second_run_gives_the_same_stream() {
    let data = catalog(&[
        "GaiaSource_0-1.csv.gz",
        "AstrophysicalParameters_0-1.csv.gz",
        "GaiaSource_5-9.csv.gz",
    ]);
    let files = files(&[
        ("GaiaSource_0-1.csv.gz", &[1, 4, 6]),
        ("AstrophysicalParameters_0-1.csv.gz", &[2, 4, 7]),
        ("GaiaSource_5-9.csv.gz", &[9]),
    ]);
    let first = run(&data, &files);
    let second = run(&data, &files);
    assert_eq!(first.records, second.records);
    assert_eq!(first.missing, second.missing);
    assert_eq!(
        first.records,
        vec![(0, 0, 1, None), (0, 0, 4, Some(4)), (0, 0, 6, None), (5, 5, 9, None)]
    );
    assert_eq!(first.missing, vec![2, 7]);
}

#[test]
fn rows_that_were_not_asked_for_are_not_taken() {
    let data = catalog(&["GaiaSource_0-1.csv.gz"]);
    let mut records: Records<String, String> = data.records();
    assert!(matches!(records.read_record(Event::Resume), Action::Open(0)));
    // No secondary source is open: the row is not taken.
    let row = Row { source_id: 1, fields: String::from("a1") };
    assert!(matches!(
        records.read_record(Event::AstrophysicalParameters(Some(row))),
        Action::ReadGaiaSource
    ));
    let row = Row { source_id: 5, fields: String::from("g5") };
    match records.read_record(Event::GaiaSource(Some(row))) {
        Action::Record(record) => {
            assert_eq!(record.gaia_source.source_id, 5);
            assert_eq!(record.gaia_source.fields, "g5");
            assert!(record.astrophysical_parameters.is_none());
        }
        other => panic!("{other:?}"),
    }
    assert!(matches!(records.read_record(Event::Resume), Action::ReadGaiaSource));
    // Asking again without an answer asks again.
    assert!(matches!(records.read_record(Event::Resume), Action::ReadGaiaSource));
    assert!(matches!(records.read_record(Event::GaiaSource(None)), Action::End));
    // The source is closed: a late row is not taken.
    let row = Row { source_id: 6, fields: String::from("g6") };
    assert!(matches!(records.read_record(Event::GaiaSource(Some(row))), Action::End));
    assert_eq!(records.progress(), (1, 1));
}

#[test]
fn a_greater_primary_key_keeps_the_primary_row() {
    let data = catalog(&["GaiaSource_0-1.csv.gz", "AstrophysicalParameters_0-1.csv.gz"]);
    let mut records: Records<u8, u8> = data.records();
    assert!(matches!(records.read_record(Event::Resume), Action::Open(0)));
    assert!(matches!(records.read_record(Event::Resume), Action::ReadGaiaSource));
    assert!(matches!(
        records.read_record(Event::GaiaSource(Some(Row { source_id: 9, fields: 0 }))),
        Action::ReadAstrophysicalParameters
    ));
    assert!(matches!(
        records.read_record(Event::AstrophysicalParameters(Some(Row { source_id: 7, fields: 1 }))),
        Action::MissingGaiaSource(7)
    ));
    assert!(matches!(records.read_record(Event::Resume), Action::ReadAstrophysicalParameters));
    match records
        .read_record(Event::AstrophysicalParameters(Some(Row { source_id: 9, fields: 2 })))
    {
        Action::Record(record) => {
            assert_eq!(record.gaia_source.fields, 0);
            assert_eq!(record.astrophysical_parameters.unwrap().fields, 2);
        }
        other => panic!("{other:?}"),
    }
}
