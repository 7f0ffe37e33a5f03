//! The writer surface: creation options for new journal files.
//!
//! Writing journal files is a separate concern that this crate only
//! declares; the options below mirror what systemd uses when it creates
//! a file, and a writer collaborator consumes them.

use vstd::prelude::*;

verus! {

/// The compression algorithm a writer applies to new data objects.
#[derive(Debug, Clone, Copy, PartialEq, Eq, Structural)]
pub enum Compression {
    /// XZ.
    Xz,
    /// LZ4.
    Lz4,
    /// Zstd.
    Zstd,
}

impl Default for Compression {
    /// Writers compress with Zstd unless told otherwise.
    fn default() -> (r: Self)
        ensures
            r == Compression::Zstd,
    {
        Compression::Zstd
    }
}

/// Options used when creating new journal files.  The machine ID, boot
/// ID and scope are required; the rest defaults as systemd does.
#[derive(Debug, Clone, PartialEq, Eq)]
pub struct CreateOptions {
    /// The machine ID of the writing system.
    pub machine_id: u128,
    /// The current boot ID of the writing system.
    pub boot_id: u128,
    /// Scope of the journal: groups files into one logical journal.
    pub scope: Vec<u8>,
    /// Whether to seal the journal with forward secure sealing.
    pub seal: bool,
    /// Whether to use the compact binary format.
    pub compact: bool,
    /// The compression for new objects; none for uncompressed.
    pub compression: Option<Compression>,
    /// Item capacity of the data hash table.
    pub data_hash_table_capacity: u64,
    /// Item capacity of the field hash table.
    pub field_hash_table_capacity: u64,
}

impl CreateOptions {
    /// Options with systemd's defaults: unsealed, compact,
    /// Zstd-compressed, 2048 data buckets and 333 field buckets.
    pub fn new(machine_id: u128, boot_id: u128, scope: Vec<u8>) -> (r: CreateOptions)
        ensures
            r.machine_id == machine_id,
            r.boot_id == boot_id,
            r.scope@ == scope@,
            r.seal == false,
            r.compact == true,
            r.compression == Some(Compression::Zstd),
            r.data_hash_table_capacity == 2048,
            r.field_hash_table_capacity == 333,
    {
        CreateOptions {
            machine_id,
            boot_id,
            scope,
            seal: false,
            compact: true,
            compression: Some(Compression::Zstd),
            data_hash_table_capacity: 2048,
            field_hash_table_capacity: 333,
        }
    }

    /// The same options with sealing chosen.
    pub fn with_seal(self, seal: bool) -> (r: CreateOptions)
        ensures
            r == (CreateOptions { seal, ..self }),
    {
        CreateOptions { seal, ..self }
    }

    /// The same options with the binary format chosen.
    pub fn with_compact(self, compact: bool) -> (r: CreateOptions)
        ensures
            r == (CreateOptions { compact, ..self }),
    {
        CreateOptions { compact, ..self }
    }

    /// The same options with the compression chosen.
    pub fn with_compression(self, compression: Option<Compression>) -> (r: CreateOptions)
        ensures
            r == (CreateOptions { compression, ..self }),
    {
        CreateOptions { compression, ..self }
    }

    /// The same options with the data hash table capacity chosen.
    pub fn with_data_hash_table_capacity(self, data_hash_table_capacity: u64) -> (r: CreateOptions)
        ensures
            r == (CreateOptions { data_hash_table_capacity, ..self }),
    {
        CreateOptions { data_hash_table_capacity, ..self }
    }

    /// The same options with the field hash table capacity chosen.
    pub fn with_field_hash_table_capacity(self, field_hash_table_capacity: u64) -> (r:
        CreateOptions)
        ensures
            r == (CreateOptions { field_hash_table_capacity, ..self }),
    {
        CreateOptions { field_hash_table_capacity, ..self }
    }
}

/// A journal writer bound to a backing store: records its options and
/// whether the store has been prepared.  Preparing, writing entries and
/// sealing belong to the writer collaborator, which is out of this
/// crate's scope.
#[derive(Debug)]
pub struct JournalWriter<T> {
    pub options: CreateOptions,
    pub io: T,
    pub prepared: bool,
}

impl<T> JournalWriter<T> {
    /// A writer over `io` with the given options; does no I/O.
    pub fn with_options(io: T, options: CreateOptions) -> (r: JournalWriter<T>)
        ensures
            r.options == options,
            r.io == io,
            r.prepared == false,
    {
        JournalWriter { options, io, prepared: false }
    }
}

} // verus!
