//! A star catalog in key-sorted partitions, joined table to table.
//!
//! `gaia` holds the catalog of partitions and the engine that joins the rows of its two tables
//! in one ordered stream. `gaiasky` reads the particle files of a data set, `render` the file of
//! records that is drawn from and the image that is drawn on, and `utils` what they share.
//!
//! Nothing here reads or writes a file: the caller reads bytes and rows and hands them in.

pub mod gaia;
pub mod gaiasky;
pub mod render;
pub mod utils;
