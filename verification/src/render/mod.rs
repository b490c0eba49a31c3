//! Drawing the catalog: the views, and the file of records that they are drawn from.

pub mod canvas;
pub mod record;
pub mod view;

pub use self::canvas::Canvas;
pub use self::record::{Export, Record, RecordReader, UnexpectedEof, HEADER_SIZE, RECORD_SIZE};
pub use self::view::View;
