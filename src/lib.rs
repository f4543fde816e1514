//! Conversion of CSV rows into line-protocol records for a time-series store.
//!
//! One column of the table is the record's tag, every other column becomes a
//! quoted string field. Reading the file and sending the records are left to
//! the caller; the library decides what is sent, in which order, and what a
//! failed delivery means for the rest of the run.

pub mod error;
pub mod escape;
pub mod line;
pub mod table;
pub mod import;
