//! A positional, append-only collection of variable-length byte records.
//!
//! The collection ("table") is a sequence of records addressable by zero-based
//! position. Record lengths live in an index, persisted whole as a header
//! image; record bytes live, concatenated and unframed, in a data image whose
//! layout the index alone describes. Only the tail may change: records are
//! appended with `push` and removed with `pop`; any position may be read with
//! `get`, and `iter` scans all positions with a running offset.
//!
//! The table itself does no file handling: it is opened from the two images a
//! caller read, and `write_header` hands back the bytes the header file must
//! hold. A caller that persists the table mirrors each mutation onto the data
//! file: `push` appends the record's bytes at the tail, `pop` truncates them
//! away.

pub mod codec;
pub mod error;
pub mod iter;
pub mod laws;
pub mod layout;
pub mod table;

pub use error::Error;
pub use iter::TableIterator;
pub use table::Table;
