//! The names of the catalog's files: `{table}_{start}-{end}.csv.gz`.
//!
//! A partition is named by the start of its range, and the start is all that is read of it.

use super::HealPixRange;
use crate::utils::decimal::{parse_u32, u32_of};
use vstd::prelude::*;

verus! {

/// The regular expression that a file name has to match: the table's name, an underscore, and
/// the two bounds of the range with a hyphen between them, before the extension.
pub const FILE_NAME_PATTERN: &'static str = "^(\\w+)_(\\d+)-(\\d+).csv.gz$";

/// The name of the primary table.
pub const GAIA_SOURCE: &'static str = "GaiaSource";

/// The name of the secondary table.
pub const ASTROPHYSICAL_PARAMETERS: &'static str = "AstrophysicalParameters";

/// What the regular expression `pattern` captures in `haystack`, as the `regex` crate finds it:
/// `None` where the pattern does not compile or matches nowhere; else one entry for each group,
/// the whole match being group 0, with the text that the group matched, or `None` for a group
/// that took no part in the match.
pub uninterp spec fn regex_captures(pattern: Seq<char>, haystack: Seq<char>) -> Option<
    Seq<Option<Seq<char>>>,
>;

/// Compiles `pattern` with `regex::Regex::new` and searches `haystack` with `Regex::captures`.
/// Nothing is proved of the result: it is taken to be `regex_captures` of the two texts.
#[verifier::external_body]
fn captures(pattern: &str, haystack: &str) -> (groups: Option<Vec<Option<String>>>)
    ensures
        groups.deep_view() == regex_captures(pattern@, haystack@),
{
    let regex = regex::Regex::new(pattern).ok()?;
    let captures = regex.captures(haystack)?;
    Some(captures.iter().map(|group| group.map(|found| found.as_str().to_owned())).collect())
}

/// The range that is named by its start alone: both of its bounds are `start`.
pub open spec fn range_at(start: u32) -> HealPixRange {
    HealPixRange { start, end: start }
}

/// The table name and the range that the groups of a matched file name give: group 1 is the
/// table's name, and group 2, which has to be a `u32`, is the start that names the range. The
/// second number of the name is matched and not read.
pub open spec fn range_of_groups(groups: Seq<Option<Seq<char>>>) -> Option<
    (Seq<char>, HealPixRange),
> {
    if groups.len() > 2 {
        match (groups[1], groups[2]) {
            (Some(prefix), Some(start)) => match u32_of(start) {
                Some(start) => Some((prefix, range_at(start))),
                None => None,
            },
            _ => None,
        }
    } else {
        None
    }
}

/// The table name and the range that a file name gives, or `None` for a name that is not that
/// of a catalog file.
pub open spec fn file_name_parts(file_name: Seq<char>) -> Option<(Seq<char>, HealPixRange)> {
    match regex_captures(FILE_NAME_PATTERN@, file_name) {
        Some(groups) => range_of_groups(groups),
        None => None,
    }
}

/// Reads the table name and the range from the groups that a file name's match captured.
pub fn partition_of_groups(groups: &Vec<Option<String>>) -> (parsed: Option<
    (String, HealPixRange),
>)
    ensures
        match parsed {
            Some((prefix, healpix_range)) => range_of_groups(groups.deep_view()) == Some(
                (prefix@, healpix_range),
            ),
            None => range_of_groups(groups.deep_view()) is None,
        },
{
    if groups.len() <= 2 {
        return None;
    }
    match (&groups[1], &groups[2]) {
        (Some(prefix), Some(start)) => {
            match parse_u32(start.as_str()) {
                Some(start) => Some((prefix.clone(), HealPixRange { start, end: start })),
                None => None,
            }
        },
        _ => None,
    }
}

/// Reads the table name and the range from a file name.
pub fn parse_file_name(file_name: &str) -> (parsed: Option<(String, HealPixRange)>)
    ensures
        match parsed {
            Some((prefix, healpix_range)) => file_name_parts(file_name@) == Some(
                (prefix@, healpix_range),
            ),
            None => file_name_parts(file_name@) is None,
        },
{
    match captures(FILE_NAME_PATTERN, file_name) {
        Some(groups) => partition_of_groups(&groups),
        None => None,
    }
}

} // verus!
