//! Header parsing: the 272-byte fixture, magic, flag and version gating.

use journald_format::error::JournalError;
use journald_format::header::{Header, State};

const HEADER_DATA: &[u8] = &[
    0x4c, 0x50, 0x4b, 0x53, 0x48, 0x48, 0x52, 0x48, 0x02, 0x00, 0x00, 0x00, 0x1c, 0x00, 0x00,
    0x00, 0x01, 0x00, 0x00, 0x00, 0x00, 0x00, 0x00, 0x00, 0xa0, 0x71, 0x3a, 0xc1, 0x94, 0xe5,
    0x40, 0xcc, 0xa6, 0x62, 0xd1, 0x98, 0x8b, 0x5d, 0xd9, 0x24, 0xc4, 0x44, 0xc7, 0x1c, 0x03,
    0x8d, 0x45, 0xb0, 0xaf, 0x20, 0x14, 0x44, 0xa8, 0x3b, 0x91, 0xc9, 0x82, 0xed, 0xa8, 0xaf,
    0x55, 0x80, 0x4a, 0xbe, 0x8e, 0xca, 0x8e, 0xfb, 0x40, 0x72, 0xc6, 0x98, 0xae, 0x25, 0x7a,
    0x22, 0x4b, 0x70, 0x40, 0x5a, 0x90, 0x42, 0xa9, 0x9a, 0xef, 0x05, 0x7c, 0xe0, 0x10, 0x01,
    0x00, 0x00, 0x00, 0x00, 0x00, 0x00, 0xf0, 0xfe, 0x7f, 0x02, 0x00, 0x00, 0x00, 0x00, 0x00,
    0x16, 0x00, 0x00, 0x00, 0x00, 0x00, 0x00, 0x80, 0xe3, 0x38, 0x00, 0x00, 0x00, 0x00, 0x00,
    0x20, 0x01, 0x00, 0x00, 0x00, 0x00, 0x00, 0x00, 0xd0, 0x14, 0x00, 0x00, 0x00, 0x00, 0x00,
    0x00, 0x70, 0x17, 0x68, 0x02, 0x00, 0x00, 0x00, 0x00, 0x87, 0x4e, 0x03, 0x00, 0x00, 0x00,
    0x00, 0x00, 0xe8, 0x4a, 0x01, 0x00, 0x00, 0x00, 0x00, 0x00, 0x75, 0x12, 0x2f, 0x00, 0x00,
    0x00, 0x00, 0x00, 0x94, 0x59, 0x2d, 0x00, 0x00, 0x00, 0x00, 0x00, 0x98, 0x09, 0x39, 0x00,
    0x00, 0x00, 0x00, 0x00, 0x84, 0x11, 0x3e, 0x05, 0x68, 0x23, 0x06, 0x00, 0x23, 0xff, 0xf7,
    0x14, 0x92, 0x23, 0x06, 0x00, 0xf6, 0x6f, 0x55, 0x54, 0x56, 0x00, 0x00, 0x00, 0xa4, 0x8e,
    0x01, 0x00, 0x00, 0x00, 0x00, 0x00, 0x6c, 0x00, 0x00, 0x00, 0x00, 0x00, 0x00, 0x00, 0x00,
    0x00, 0x00, 0x00, 0x00, 0x00, 0x00, 0x00, 0x8d, 0x74, 0x00, 0x00, 0x00, 0x00, 0x00, 0x00,
    0x04, 0x00, 0x00, 0x00, 0x00, 0x00, 0x00, 0x00, 0x02, 0x00, 0x00, 0x00, 0x00, 0x00, 0x00,
    0x00, 0x18, 0x16, 0xf3, 0x00, 0xda, 0xdb, 0x00, 0x00, 0x70, 0x17, 0x68, 0x02, 0x00, 0x00,
    0x00, 0x00, 0x05, 0x00, 0x00, 0x00, 0x00, 0x00, 0x00, 0x00, 0xe0, 0x14, 0x00, 0x00, 0x00,
    0x00, 0x00, 0x00, 0x00, 0x00, 0x00, 0x00, 0x00, 0x00, 0x00, 0x00, 0x00, 0x00, 0x00, 0x00,
];

#[test]
fn test_header_parse() {
    let header = Header::read(HEADER_DATA).unwrap();
    assert_eq!(
        header,
        Header {
            compatible_flags: journald_format::header::COMPAT_TAIL_ENTRY_BOOT_ID,
            incompatible_flags: journald_format::header::INCOMPAT_KEYED_HASH
                | journald_format::header::INCOMPAT_COMPRESSED_ZSTD
                | journald_format::header::INCOMPAT_COMPACT,
            state: State::Online,
            file_id: u128::from_le_bytes([
                0xa0, 0x71, 0x3a, 0xc1, 0x94, 0xe5, 0x40, 0xcc, 0xa6, 0x62, 0xd1, 0x98, 0x8b,
                0x5d, 0xd9, 0x24
            ]),
            machine_id: u128::from_le_bytes([
                0xc4, 0x44, 0xc7, 0x1c, 0x03, 0x8d, 0x45, 0xb0, 0xaf, 0x20, 0x14, 0x44, 0xa8,
                0x3b, 0x91, 0xc9
            ]),
            tail_entry_boot_id: Some(u128::from_le_bytes([
                0x82, 0xed, 0xa8, 0xaf, 0x55, 0x80, 0x4a, 0xbe, 0x8e, 0xca, 0x8e, 0xfb, 0x40,
                0x72, 0xc6, 0x98,
            ])),
            seqnum_id: u128::from_le_bytes([
                0xae, 0x25, 0x7a, 0x22, 0x4b, 0x70, 0x40, 0x5a, 0x90, 0x42, 0xa9, 0x9a, 0xef,
                0x05, 0x7c, 0xe0,
            ]),
            header_size: 272,
            arena_size: 41942768,
            data_hash_table_offset: 5632,
            data_hash_table_size: 233016 * 16,
            field_hash_table_offset: 288,
            field_hash_table_size: 333 * 16,
            tail_object_offset: 40376176,
            n_objects: 216711,
            n_entries: 84712,
            tail_entry_seqnum: Some(3084917),
            head_entry_seqnum: Some(2972052),
            entry_array_offset: 3738008,
            head_entry_realtime: Some(1727779531788676),
            tail_entry_realtime: Some(1727960184258339),
            tail_entry_monotonic: Some(370782072822),
            n_data: Some(102052),
            n_fields: Some(108),
            n_tags: Some(0),
            n_entry_arrays: Some(29837),
            data_hash_chain_depth: Some(4),
            field_hash_chain_depth: Some(2),
            tail_entry_array_offset: Some(15930904),
            tail_entry_array_n_entries: Some(56282),
            tail_entry_offset: Some(40376176),
        }
    );
    assert!(header.is_compact());
    assert_eq!(header.sizeof_entry_array_item(), 4);
    assert_eq!(header.sizeof_entry_object_item(), 4);
    assert_eq!(header.data_hash_table().capacity(), 233016);
    assert_eq!(header.field_hash_table().capacity(), 333);
}

#[test]
fn test_header_bad_magic() {
    let mut data = HEADER_DATA.to_vec();
    data[0] = 0x4d;
    assert_eq!(Header::read(&data), Err(JournalError::InvalidData));
    let zeros = vec![0u8; 272];
    assert_eq!(Header::read(&zeros), Err(JournalError::InvalidData));
}

#[test]
fn test_header_truncated() {
    assert_eq!(Header::read(&[]), Err(JournalError::UnexpectedEof));
    assert_eq!(Header::read(&HEADER_DATA[..207]), Err(JournalError::UnexpectedEof));
    // the declared size is 272, so 208 bytes are not enough
    assert_eq!(Header::read(&HEADER_DATA[..208]), Err(JournalError::UnexpectedEof));
}

#[test]
fn test_header_flag_gating() {
    // every known incompatible bit alone parses
    for bit in [0x1u32, 0x2, 0x4, 0x8, 0x10] {
        let mut data = HEADER_DATA.to_vec();
        data[12..16].copy_from_slice(&bit.to_le_bytes());
        let parsed = Header::read(&data).unwrap();
        assert_eq!(parsed.incompatible_flags, bit);
    }
    // any unknown incompatible bit refuses the file
    for bit in [0x20u32, 0x40, 0x8000_0000] {
        let mut data = HEADER_DATA.to_vec();
        data[12..16].copy_from_slice(&bit.to_le_bytes());
        assert_eq!(Header::read(&data), Err(JournalError::InvalidData));
    }
    // unknown compatible bits are accepted silently and masked off
    let mut data = HEADER_DATA.to_vec();
    data[8..12].copy_from_slice(&0xffff_ffffu32.to_le_bytes());
    let parsed = Header::read(&data).unwrap();
    assert_eq!(parsed.compatible_flags, 0x7);
}

#[test]
fn test_header_bad_state() {
    let mut data = HEADER_DATA.to_vec();
    data[16] = 3;
    assert_eq!(Header::read(&data), Err(JournalError::InvalidData));
}

#[test]
fn test_header_zero_required_field() {
    // zeroing the seqnum_id (a required nonzero field) refuses the file
    let mut data = HEADER_DATA.to_vec();
    data[72..88].fill(0);
    assert_eq!(Header::read(&data), Err(JournalError::InvalidData));
    // zeroing the entry array offset refuses the file
    let mut data = HEADER_DATA.to_vec();
    data[176..184].fill(0);
    assert_eq!(Header::read(&data), Err(JournalError::InvalidData));
}

#[test]
fn test_header_version_gating() {
    // for each defensible header size, parsing succeeds and exactly the
    // fields within the size are present
    for size in [208u64, 216, 224, 232, 240, 248, 256, 260, 264, 272] {
        let mut data = HEADER_DATA.to_vec();
        data[88..96].copy_from_slice(&size.to_le_bytes());
        let h = Header::read(&data).unwrap();
        assert_eq!(h.header_size, size);
        assert_eq!(h.n_data.is_some(), size > 208, "n_data at {size}");
        assert_eq!(h.n_fields.is_some(), size > 216, "n_fields at {size}");
        assert_eq!(h.n_tags.is_some(), size > 224, "n_tags at {size}");
        assert_eq!(h.n_entry_arrays.is_some(), size > 232, "n_entry_arrays at {size}");
        assert_eq!(h.data_hash_chain_depth.is_some(), size > 240, "data chain at {size}");
        assert_eq!(h.field_hash_chain_depth.is_some(), size > 248, "field chain at {size}");
        if size <= 256 {
            assert!(h.tail_entry_array_offset.is_none());
        }
        if size <= 260 {
            assert!(h.tail_entry_array_n_entries.is_none());
        }
        if size <= 264 {
            assert!(h.tail_entry_offset.is_none());
        }
    }
}

#[test]
fn test_header_filename_info() {
    let header = Header::read(HEADER_DATA).unwrap();
    let info = header.filename_info();
    match info {
        journald_format::filename::FilenameInfo::Archived {
            machine_id,
            scope,
            file_seqnum,
            head_seqnum,
            head_realtime,
        } => {
            assert_eq!(machine_id, header.machine_id);
            assert_eq!(scope, Vec::<u8>::new());
            assert_eq!(file_seqnum, header.seqnum_id);
            assert_eq!(head_seqnum, 2972052);
            assert_eq!(head_realtime, 1727779531788676);
        },
        _ => panic!("expected an archived filename"),
    }
}
