//! Typed records stored in an append-only log of string field/value pairs:
//! the codec between a record and its field map, and the read path that
//! rebuilds records from raw log entries.
pub mod decimal;
pub mod record;
pub mod entry;
