//! Reader for the systemd journal on-disk file format.
//!
//! A journal file is a magic-prefixed header followed by an arena of
//! variable-length objects linked by byte offsets.  This crate parses the
//! header and the objects, decodes the filename scheme that groups files
//! into logical journals, and walks the chain of entry arrays to produce
//! the entries of a journal in sequence-number order, crossing from
//! archived files to the live file without duplicating or dropping
//! entries.
//!
//! All parsing works over in-memory byte buffers; reading those buffers
//! from disk (or any other store) is left to the embedding application.

pub mod codec;
pub mod error;
pub mod filename;
pub mod hexfmt;
pub mod header;
pub mod monotonic;
pub mod objects;
pub mod order;
pub mod reader;
pub mod tables;
pub mod writer;
