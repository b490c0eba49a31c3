use via_tool::utils::bytes::{read_be, read_u16, read_u32, read_u64, write_be};
use via_tool::utils::decimal::parse_u32;
use via_tool::utils::sorted_map::SortedMap;
use via_tool::utils::teff_color::TeffColorTable;
use via_tool::utils::text::{ends_with, split_after, starts_with};

#[test]
fn decimal_numbers_are_read() {
    assert_eq!(parse_u32("0"), Some(0));
    assert_eq!(parse_u32("7"), Some(7));
    assert_eq!(parse_u32("000123"), Some(123));
    assert_eq!(parse_u32("+42"), Some(42));
    assert_eq!(parse_u32("4294967295"), Some(4294967295));
    assert_eq!(parse_u32("+4294967295"), Some(4294967295));
}

#[test]
fn what_is_no_decimal_number_is_refused() {
    assert_eq!(parse_u32(""), None);
    assert_eq!(parse_u32("+"), None);
    assert_eq!(parse_u32("-1"), None);
    assert_eq!(parse_u32("++1"), None);
    assert_eq!(parse_u32("1+"), None);
    assert_eq!(parse_u32(" 1"), None);
    assert_eq!(parse_u32("1 "), None);
    assert_eq!(parse_u32("12a"), None);
    assert_eq!(parse_u32("1.5"), None);
    assert_eq!(parse_u32("\u{663}"), None);
    assert_eq!(parse_u32("4294967296"), None);
    assert_eq!(parse_u32("4294967300"), None);
    assert_eq!(parse_u32("42949672950"), None);
    assert_eq!(parse_u32("99999999999999999999999999"), None);
}

#[test]
fn decimal_numbers_are_read_as_the_standard_library_reads_them() {
    for text in ["0", "+0", "12", "4294967295", "4294967296", "", "+", "-3", "x", "1_000", "٣"] {
        assert_eq!(parse_u32(text), text.parse::<u32>().ok(), "{text:?}");
    }
}

#[test]
fn text_is_compared_at_its_ends() {
    assert!(starts_with("$data/catalog/particles/", "$data/"));
    assert!(starts_with("abc", ""));
    assert!(starts_with("abc", "abc"));
    assert!(!starts_with("abc", "abcd"));
    assert!(!starts_with("abc", "b"));
    assert!(starts_with("äöü", "ä"));
    assert!(ends_with("$data/catalog/particles/", "/particles/"));
    assert!(ends_with("abc", ""));
    assert!(ends_with("abc", "abc"));
    assert!(!ends_with("abc", "xabc"));
    assert!(!ends_with("abc", "b"));
    assert!(ends_with("äöü", "öü"));
}

#[test]
fn text_is_split_after_the_first_separator() {
    assert_eq!(split_after("catalog/particles/", '/'), Some("particles/"));
    assert_eq!(split_after("/x", '/'), Some("x"));
    assert_eq!(split_after("x/", '/'), Some(""));
    assert_eq!(split_after("äö/ü/", '/'), Some("ü/"));
    assert_eq!(split_after("x", '/'), None);
    assert_eq!(split_after("", '/'), None);
}

#[test]
fn numbers_are_read_most_significant_byte_first() {
    let bytes = [0x01, 0x02, 0x03, 0x04, 0x05, 0x06, 0x07, 0x08, 0xff];
    assert_eq!(read_u16(&bytes, 0), 0x0102);
    assert_eq!(read_u16(&bytes, 7), 0x08ff);
    assert_eq!(read_u32(&bytes, 0), 0x0102_0304);
    assert_eq!(read_u32(&bytes, 5), 0x0607_08ff);
    assert_eq!(read_u64(&bytes, 0), 0x0102_0304_0506_0708);
    assert_eq!(read_u64(&bytes, 1), 0x0203_0405_0607_08ff);
    assert_eq!(read_be(&bytes, 3, 0), 0);
    assert_eq!(read_be(&bytes, 3, 1), 4);
    assert_eq!(read_be(&bytes, 3, 3), 0x04_0506);
    assert_eq!(read_u64(&[0xff; 8], 0), u64::MAX);
}

#[test]
fn numbers_are_written_most_significant_byte_first() {
    let mut out = vec![9];
    write_be(&mut out, 0x0102_0304, 4);
    write_be(&mut out, 0x0a0b, 2);
    write_be(&mut out, 5, 0);
    write_be(&mut out, u64::MAX, 8);
    write_be(&mut out, 0x1234_5678, 2);
    assert_eq!(
        out,
        vec![9, 1, 2, 3, 4, 0x0a, 0x0b, 255, 255, 255, 255, 255, 255, 255, 255, 0x56, 0x78]
    );
    assert_eq!(read_u32(&out, 1), 0x0102_0304);
    let mut out = Vec::new();
    write_be(&mut out, 0x0102_0304_0506_0708, 8);
    assert_eq!(out, 0x0102_0304_0506_0708u64.to_be_bytes());
    assert_eq!(read_u64(&out, 0), 0x0102_0304_0506_0708);
}

#[test]
fn sorted_map_keeps_its_keys_in_order() {
    let mut map = SortedMap::new();
    for key in [5u32, 1, 9, 3, 7, 1] {
        map.insert(key, key * 10);
    }
    assert_eq!(map.len(), 5);
    let entries: Vec<(u32, u32)> = (0..map.len()).map(|i| *map.entry(i)).collect();
    assert_eq!(entries, vec![(1, 10), (3, 30), (5, 50), (7, 70), (9, 90)]);
    map.insert(5, 55);
    assert_eq!(*map.entry(2), (5, 55));
    assert_eq!(map.position(0), 0);
    assert_eq!(map.position(1), 0);
    assert_eq!(map.position(2), 1);
    assert_eq!(map.position(9), 4);
    assert_eq!(map.position(10), 5);
    assert_eq!(map.remove(3), Some(30));
    assert_eq!(map.remove(3), None);
    assert_eq!(map.remove(4), None);
    assert_eq!(map.len(), 4);
    assert_eq!(map.position(5), 1);
}

#[test]
fn colour_lies_between_the_temperatures_around_it() {
    let mut table = TeffColorTable::new();
    table.insert(3000, "red");
    table.insert(9000, "blue");
    table.insert(6000, "white");
    assert_eq!(table.get(3001), Some((&(3000, "red"), &(6000, "white"))));
    assert_eq!(table.get(6000), Some((&(3000, "red"), &(6000, "white"))));
    assert_eq!(table.get(6001), Some((&(6000, "white"), &(9000, "blue"))));
    assert_eq!(table.get(9000), Some((&(6000, "white"), &(9000, "blue"))));
    table.insert(6000, "yellow");
    assert_eq!(table.get(4500), Some((&(3000, "red"), &(6000, "yellow"))));
}

#[test]
fn colour_outside_the_table_is_none() {
    let mut table = TeffColorTable::new();
    assert_eq!(table.get(5000), None);
    table.insert(3000, 1u8);
    assert_eq!(table.get(5000), None);
    assert_eq!(table.get(3000), None);
    assert_eq!(table.get(0), None);
    table.insert(9000, 2u8);
    assert_eq!(table.get(3000), None);
    assert_eq!(table.get(2999), None);
    assert_eq!(table.get(9001), None);
    assert_eq!(table.get(u32::MAX), None);
    assert_eq!(table.get(9000), Some((&(3000, 1), &(9000, 2))));
}
