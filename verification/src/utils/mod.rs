//! Small pieces that the rest of the library shares.

pub mod bytes;
pub mod decimal;
pub mod sorted_map;
pub mod teff_color;
pub mod text;
