//! The filename scheme: parsing, building, the prefix, round trips and
//! the sort order.

use journald_format::filename::{make_filename, make_prefix, parse_filename, FilenameInfo, JournalSelection};
use journald_format::order::filename_cmp;
use std::cmp::Ordering;

#[test]
fn test_parse_filename_latest() {
    assert_eq!(
        parse_filename(b"/var/log/journal/c444c71c038d45b0af201444a83b91c9/system.journal"),
        Some(FilenameInfo::Latest {
            machine_id: 0xc444c71c038d45b0af201444a83b91c9,
            scope: b"system".to_vec(),
        })
    );
}

#[test]
fn test_parse_filename_archived() {
    assert_eq!(
        parse_filename(
            b"/var/log/journal/c444c71c038d45b0af201444a83b91c9/system@ae257a224b70405a9042a99aef057ce0-00000000002d5994-00062368053e1184.journal"
        ),
        Some(FilenameInfo::Archived {
            machine_id: 0xc444c71c038d45b0af201444a83b91c9,
            scope: b"system".to_vec(),
            file_seqnum: 0xae257a224b70405a9042a99aef057ce0,
            head_seqnum: 0x00000000002d5994,
            head_realtime: 0x00062368053e1184,
        })
    );
}

#[test]
fn test_make_filename_latest() {
    assert_eq!(
        make_filename(&FilenameInfo::Latest {
            machine_id: 0xc444c71c038d45b0af201444a83b91c9,
            scope: b"system".to_vec(),
        }),
        b"c444c71c038d45b0af201444a83b91c9/system.journal".to_vec(),
    );
}

#[test]
fn test_make_filename_archived() {
    assert_eq!(
        make_filename(&FilenameInfo::Archived {
            machine_id: 0xc444c71c038d45b0af201444a83b91c9,
            scope: b"system".to_vec(),
            file_seqnum: 0xae257a224b70405a9042a99aef057ce0,
            head_seqnum: 0x00000000002d5994,
            head_realtime: 0x00062368053e1184,
        }),
        b"c444c71c038d45b0af201444a83b91c9/system@ae257a224b70405a9042a99aef057ce0-00000000002d5994-00062368053e1184.journal".to_vec(),
    );
}

#[test]
fn test_make_prefix() {
    assert_eq!(
        make_prefix(&JournalSelection {
            machine_id: 0xc444c71c038d45b0af201444a83b91c9,
            scope: b"system".to_vec(),
        }),
        b"c444c71c038d45b0af201444a83b91c9/system@".to_vec(),
    );
}

#[test]
fn test_filename_roundtrip_values() {
    let latest = FilenameInfo::Latest { machine_id: 7, scope: b"user-1000".to_vec() };
    assert_eq!(parse_filename(&make_filename(&latest)), Some(latest));
    let archived = FilenameInfo::Archived {
        machine_id: u128::MAX,
        scope: b"system".to_vec(),
        file_seqnum: 1,
        head_seqnum: u64::MAX,
        head_realtime: 0,
    };
    assert_eq!(parse_filename(&make_filename(&archived)), Some(archived));
}

#[test]
fn test_parse_filename_rejects() {
    // the fss sidecar file is never a journal
    assert_eq!(parse_filename(b"c444c71c038d45b0af201444a83b91c9/fss"), None);
    // no machine directory
    assert_eq!(parse_filename(b"system.journal"), None);
    // machine component of the wrong width
    assert_eq!(parse_filename(b"c444c71c/system.journal"), None);
    // machine component that is not hex
    assert_eq!(
        parse_filename(b"x444c71c038d45b0af201444a83b91c9/system.journal"),
        None
    );
    // a zero head sequence number is not a valid archived name
    assert_eq!(
        parse_filename(
            b"c444c71c038d45b0af201444a83b91c9/system@ae257a224b70405a9042a99aef057ce0-0000000000000000-00062368053e1184.journal"
        ),
        None
    );
}

#[test]
fn test_parse_filename_hex_case_insensitive() {
    assert_eq!(
        parse_filename(b"C444C71C038D45B0AF201444A83B91C9/system.journal"),
        Some(FilenameInfo::Latest {
            machine_id: 0xc444c71c038d45b0af201444a83b91c9,
            scope: b"system".to_vec(),
        })
    );
}

#[test]
fn test_filename_order() {
    let archived_early = FilenameInfo::Archived {
        machine_id: 1,
        scope: b"system".to_vec(),
        file_seqnum: 9,
        head_seqnum: 50,
        head_realtime: 100,
    };
    let archived_same_time_lower_seq = FilenameInfo::Archived {
        machine_id: 1,
        scope: b"system".to_vec(),
        file_seqnum: 9,
        head_seqnum: 10,
        head_realtime: 200,
    };
    let archived_late = FilenameInfo::Archived {
        machine_id: 1,
        scope: b"system".to_vec(),
        file_seqnum: 2,
        head_seqnum: 60,
        head_realtime: 200,
    };
    let latest = FilenameInfo::Latest { machine_id: 1, scope: b"system".to_vec() };
    // head realtime decides first
    assert_eq!(filename_cmp(&archived_early, &archived_late), Ordering::Less);
    // then head seqnum
    assert_eq!(
        filename_cmp(&archived_same_time_lower_seq, &archived_late),
        Ordering::Less
    );
    // archived files precede the live file
    assert_eq!(filename_cmp(&archived_late, &latest), Ordering::Less);
    assert_eq!(filename_cmp(&latest, &archived_early), Ordering::Greater);
    assert_eq!(filename_cmp(&latest, &latest.clone()), Ordering::Equal);
}
