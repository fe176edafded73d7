//! Streaming decode core of a ClickHouse client: a rolling byte buffer, the
//! column header of a `RowBinaryWithNamesAndTypes` response, and the cursors
//! that turn a chunked response body into rows.
//!
//! Nothing here waits or does I/O. A cursor is handed each thing that arrived
//! from the transport as an [`response::Event`] and answers with what is
//! ready, or that it needs the next event.

pub mod bytes_ext;
pub mod columns_header;
pub mod cursors;
pub mod error;
pub mod leb128;
pub mod response;
pub mod row;
pub mod row_metadata;

pub use crate::cursors::raw::RawCursor;
pub use crate::cursors::row::RowCursor;
pub use crate::error::Error;
pub use crate::row::RowRead;
