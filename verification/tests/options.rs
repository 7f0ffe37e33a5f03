//! Writer options, hash tables, monotonic timestamps and error kinds.

use journald_format::error::JournalError;
use journald_format::monotonic::Monotonic;
use journald_format::tables::{HashItem, HashTable};
use journald_format::writer::{Compression, CreateOptions, JournalWriter};

#[test]
fn test_create_options_defaults() {
    let opts = CreateOptions::new(1, 2, b"system".to_vec());
    assert_eq!(opts.machine_id, 1);
    assert_eq!(opts.boot_id, 2);
    assert_eq!(opts.scope, b"system".to_vec());
    assert!(!opts.seal);
    assert!(opts.compact);
    assert_eq!(opts.compression, Some(Compression::Zstd));
    assert_eq!(opts.data_hash_table_capacity, 2048);
    assert_eq!(opts.field_hash_table_capacity, 333);
}

#[test]
fn test_create_options_builders() {
    let opts = CreateOptions::new(1, 2, b"system".to_vec())
        .with_seal(true)
        .with_compact(false)
        .with_compression(Some(Compression::Lz4))
        .with_data_hash_table_capacity(16)
        .with_field_hash_table_capacity(8);
    assert!(opts.seal);
    assert!(!opts.compact);
    assert_eq!(opts.compression, Some(Compression::Lz4));
    assert_eq!(opts.data_hash_table_capacity, 16);
    assert_eq!(opts.field_hash_table_capacity, 8);
    assert_eq!(opts.machine_id, 1);
}

#[test]
fn test_compression_default() {
    assert_eq!(Compression::default(), Compression::Zstd);
}

#[test]
fn test_journal_writer_with_options() {
    let opts = CreateOptions::new(1, 2, b"system".to_vec());
    let writer = JournalWriter::with_options((), opts.clone());
    assert_eq!(writer.options, opts);
    assert!(!writer.prepared);
}

#[test]
fn test_hash_table_items() {
    // a table of two buckets right after a 208-byte dummy region
    let mut bytes = vec![0u8; 208 + 32];
    bytes[208..216].copy_from_slice(&300u64.to_le_bytes());
    bytes[216..224].copy_from_slice(&400u64.to_le_bytes());
    // second bucket stays empty (zero)
    let table = HashTable { offset: 208, size: 32 };
    assert_eq!(table.capacity(), 2);
    assert_eq!(
        table.items(&bytes).unwrap(),
        vec![
            HashItem { head_hash_offset: Some(300), tail_hash_offset: Some(400) },
            HashItem { head_hash_offset: None, tail_hash_offset: None },
        ]
    );
    assert_eq!(table.count(&bytes), Ok(2));
    // a table lying beyond the end of the file is truncation
    let table = HashTable { offset: 208, size: 64 };
    assert_eq!(table.items(&bytes), Err(JournalError::UnexpectedEof));
}

#[test]
fn test_monotonic() {
    assert_eq!(Monotonic::new(0), None);
    assert_eq!(Monotonic::new(5), Some(Monotonic(5)));
    assert_eq!(Monotonic(5).to_timestamp(100), 105);
    assert_eq!(Monotonic(5).to_timestamp(u64::MAX - 2), u64::MAX);
}

#[test]
fn test_error_describe() {
    assert_eq!(JournalError::InvalidData.describe(), "invalid data");
    assert_eq!(JournalError::NotFound.describe(), "not found");
    assert_eq!(JournalError::NotConnected.describe(), "not connected");
    assert_eq!(JournalError::UnexpectedEof.describe(), "unexpected end of file");
}
