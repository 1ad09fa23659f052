//! Zero-copy, bounds-checked decoding of a chunked binary log container
//! format: a checked byte cursor, a lazy header-field decoder, the
//! header-then-data record decoding protocol and the index record.
pub mod cursor;
pub mod error;
pub mod header_field_iter;
pub mod index_data;

pub use cursor::Cursor;
pub use error::{Error, OutOfBounds};
pub use header_field_iter::HeaderFieldIterator;
pub use index_data::{IndexData, IndexDataEntriesIterator, IndexDataEntry, IndexDataHeader};
