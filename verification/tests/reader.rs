//! End-to-end reading: selection, seeking, the entry iterator across
//! arrays and files, and payload materialization.

use journald_format::error::JournalError;
use journald_format::filename::JournalSelection;
use journald_format::reader::{JournalReader, MemoryJournal, Seek, StoredFile};

const MACHINE: u128 = 0xc444c71c038d45b0af201444a83b91c9;
const MACHINE_HEX: &[u8] = b"c444c71c038d45b0af201444a83b91c9";

/// Incrementally built journal file image (regular, non-compact mode).
struct FileImage {
    bytes: Vec<u8>,
}

impl FileImage {
    /// A 208-byte header; offsets that must be nonzero point at
    /// placeholder values and the entry-array offset is patched later.
    fn new() -> FileImage {
        let mut bytes = vec![0u8; 208];
        bytes[0..8].copy_from_slice(b"LPKSHHRH");
        // compatible_flags 0, incompatible_flags 0 (regular mode)
        bytes[16] = 2; // state: archived
        bytes[24..40].copy_from_slice(&1u128.to_le_bytes()); // file_id
        bytes[40..56].copy_from_slice(&MACHINE.to_le_bytes()); // machine_id
        bytes[72..88].copy_from_slice(&2u128.to_le_bytes()); // seqnum_id
        bytes[88..96].copy_from_slice(&208u64.to_le_bytes()); // header_size
        bytes[96..104].copy_from_slice(&1u64.to_le_bytes()); // arena_size
        bytes[104..112].copy_from_slice(&208u64.to_le_bytes()); // data hash table offset
        bytes[112..120].copy_from_slice(&16u64.to_le_bytes()); // data hash table size
        bytes[120..128].copy_from_slice(&208u64.to_le_bytes()); // field hash table offset
        bytes[128..136].copy_from_slice(&16u64.to_le_bytes()); // field hash table size
        bytes[136..144].copy_from_slice(&208u64.to_le_bytes()); // tail object offset
        bytes[144..152].copy_from_slice(&64u64.to_le_bytes()); // n_objects (chain fuel)
        FileImage { bytes }
    }

    fn set_state(&mut self, state: u8) {
        self.bytes[16] = state;
    }

    fn set_compact(&mut self) {
        self.bytes[12..16].copy_from_slice(&0x10u32.to_le_bytes());
    }

    fn set_entry_array_offset(&mut self, off: u64) {
        self.bytes[176..184].copy_from_slice(&off.to_le_bytes());
    }

    fn set_entry_bounds(&mut self, head: u64, tail: u64) {
        self.bytes[160..168].copy_from_slice(&tail.to_le_bytes());
        self.bytes[168..176].copy_from_slice(&head.to_le_bytes());
        self.bytes[184..192].copy_from_slice(&(head * 1000).to_le_bytes());
        self.bytes[192..200].copy_from_slice(&(tail * 1000).to_le_bytes());
        self.bytes[200..208].copy_from_slice(&tail.to_le_bytes()); // tail monotonic
        self.bytes[56..72].copy_from_slice(&0xbu128.to_le_bytes()); // tail boot id
    }

    fn here(&self) -> u64 {
        self.bytes.len() as u64
    }

    fn push_object_header(&mut self, otype: u8, size: u64) {
        self.bytes.push(otype);
        self.bytes.extend_from_slice(&[0u8; 7]); // uncompressed, reserved
        self.bytes.extend_from_slice(&size.to_le_bytes());
    }

    /// A data object with the given payload; returns its offset.
    fn push_data(&mut self, payload: &[u8], compact: bool) -> u64 {
        let off = self.here();
        let sub = if compact { 56 } else { 48 };
        self.push_object_header(1, 16 + sub + payload.len() as u64);
        self.bytes.extend_from_slice(&[0u8; 48]); // data sub-header
        if compact {
            self.bytes.extend_from_slice(&[0u8; 8]); // compact payload header
        }
        self.bytes.extend_from_slice(payload);
        off
    }

    /// An entry object referencing the given data offsets; returns its
    /// offset.
    fn push_entry(&mut self, seqnum: u64, data_offsets: &[u64], compact: bool) -> u64 {
        let off = self.here();
        let item = if compact { 4 } else { 16 };
        self.push_object_header(3, 16 + 48 + item * data_offsets.len() as u64);
        self.bytes.extend_from_slice(&seqnum.to_le_bytes());
        self.bytes.extend_from_slice(&(seqnum * 1000).to_le_bytes()); // realtime
        self.bytes.extend_from_slice(&seqnum.to_le_bytes()); // monotonic
        self.bytes.extend_from_slice(&0xbu128.to_le_bytes()); // boot id
        self.bytes.extend_from_slice(&0u64.to_le_bytes()); // xor hash
        for d in data_offsets {
            if compact {
                self.bytes.extend_from_slice(&(*d as u32).to_le_bytes());
            } else {
                self.bytes.extend_from_slice(&d.to_le_bytes());
                self.bytes.extend_from_slice(&0u64.to_le_bytes()); // hash
            }
        }
        off
    }

    /// An entry array over the given entry offsets plus trailing zero
    /// slots; returns its offset.
    fn push_array(&mut self, entry_offsets: &[u64], zero_slots: usize, next: u64, compact: bool) -> u64 {
        let off = self.here();
        let item = if compact { 4 } else { 8 };
        let slots = entry_offsets.len() + zero_slots;
        self.push_object_header(6, 16 + 8 + item * slots as u64);
        self.bytes.extend_from_slice(&next.to_le_bytes());
        for e in entry_offsets {
            if compact {
                self.bytes.extend_from_slice(&(*e as u32).to_le_bytes());
            } else {
                self.bytes.extend_from_slice(&e.to_le_bytes());
            }
        }
        for _ in 0..zero_slots {
            if compact {
                self.bytes.extend_from_slice(&0u32.to_le_bytes());
            } else {
                self.bytes.extend_from_slice(&0u64.to_le_bytes());
            }
        }
        off
    }
}

/// A one-array journal file holding the given sequence numbers.
fn simple_file(seqnums: &[u64], compact: bool, live: bool) -> Vec<u8> {
    let mut f = FileImage::new();
    if compact {
        f.set_compact();
    }
    if live {
        f.set_state(1);
    }
    let data = f.push_data(b"k=v", compact);
    let entries: Vec<u64> = seqnums.iter().map(|s| f.push_entry(*s, &[data], compact)).collect();
    let array = f.push_array(&entries, 0, 0, compact);
    f.set_entry_array_offset(array);
    if let (Some(head), Some(tail)) = (seqnums.first(), seqnums.last()) {
        f.set_entry_bounds(*head, *tail);
    }
    f.bytes
}

fn live_path() -> Vec<u8> {
    let mut p = MACHINE_HEX.to_vec();
    p.extend_from_slice(b"/system.journal");
    p
}

fn archived_path(head_seqnum: u64, head_realtime: u64) -> Vec<u8> {
    let mut p = MACHINE_HEX.to_vec();
    p.extend_from_slice(b"/system@000000000000000000000000000000aa-");
    p.extend_from_slice(format!("{head_seqnum:016x}").as_bytes());
    p.push(b'-');
    p.extend_from_slice(format!("{head_realtime:016x}").as_bytes());
    p.extend_from_slice(b".journal");
    p
}

fn selection() -> JournalSelection {
    JournalSelection { machine_id: MACHINE, scope: b"system".to_vec() }
}

fn seqnums(entries: &[journald_format::objects::entry::Entry]) -> Vec<u64> {
    entries.iter().map(|e| e.header.seqnum).collect()
}

#[test]
fn test_single_file_entries() {
    // a one-file journal with a single entry array of two entries
    let io = MemoryJournal::new(vec![StoredFile {
        path: live_path(),
        bytes: simple_file(&[5, 7], false, true),
    }]);
    let mut reader = JournalReader::new(io);
    reader.select(selection()).unwrap();
    let entries = reader.entries().unwrap();
    assert_eq!(seqnums(&entries), vec![5, 7]);
    // the iterator is exhausted: reading again yields nothing
    assert_eq!(reader.entries().unwrap(), vec![]);
}

#[test]
fn test_single_file_entries_compact() {
    let io = MemoryJournal::new(vec![StoredFile {
        path: live_path(),
        bytes: simple_file(&[5, 7], true, true),
    }]);
    let mut reader = JournalReader::new(io);
    reader.select(selection()).unwrap();
    let entries = reader.entries().unwrap();
    assert_eq!(seqnums(&entries), vec![5, 7]);
}

#[test]
fn test_zero_item_ends_array() {
    // an array of capacity 4 whose third slot is zero yields
    // min(first_zero_index, capacity) = 2 entries
    let mut f = FileImage::new();
    f.set_state(1);
    let data = f.push_data(b"k=v", false);
    let e1 = f.push_entry(1, &[data], false);
    let e2 = f.push_entry(2, &[data], false);
    let array = f.push_array(&[e1, e2], 2, 0, false);
    f.set_entry_array_offset(array);
    f.set_entry_bounds(1, 2);
    let io = MemoryJournal::new(vec![StoredFile { path: live_path(), bytes: f.bytes }]);
    let mut reader = JournalReader::new(io);
    reader.select(selection()).unwrap();
    assert_eq!(seqnums(&reader.entries().unwrap()), vec![1, 2]);
}

#[test]
fn test_chained_arrays() {
    let mut f = FileImage::new();
    f.set_state(1);
    let data = f.push_data(b"k=v", false);
    let e1 = f.push_entry(1, &[data], false);
    let e2 = f.push_entry(2, &[data], false);
    let e3 = f.push_entry(3, &[data], false);
    let second = f.push_array(&[e3], 0, 0, false);
    let first = f.push_array(&[e1, e2], 0, second, false);
    f.set_entry_array_offset(first);
    f.set_entry_bounds(1, 3);
    let io = MemoryJournal::new(vec![StoredFile { path: live_path(), bytes: f.bytes }]);
    let mut reader = JournalReader::new(io);
    reader.select(selection()).unwrap();
    assert_eq!(seqnums(&reader.entries().unwrap()), vec![1, 2, 3]);
}

#[test]
fn test_array_loop_detected() {
    // an entry array chained to itself must not hang the iterator
    let mut f = FileImage::new();
    f.set_state(1);
    let data = f.push_data(b"k=v", false);
    let e1 = f.push_entry(1, &[data], false);
    let array_at = f.here();
    f.push_array(&[e1], 0, array_at, false);
    f.set_entry_array_offset(array_at);
    f.set_entry_bounds(1, 1);
    let io = MemoryJournal::new(vec![StoredFile { path: live_path(), bytes: f.bytes }]);
    let mut reader = JournalReader::new(io);
    reader.select(selection()).unwrap();
    assert_eq!(reader.entries(), Err(JournalError::InvalidData));
}

#[test]
fn test_cross_file_entries() {
    // archived file with entries 1..=10 (head 1), live file with 11..=20:
    // seeking to the oldest yields 1..=20 in order, then terminates
    let archived: Vec<u64> = (1..=10).collect();
    let live: Vec<u64> = (11..=20).collect();
    let io = MemoryJournal::new(vec![
        StoredFile { path: live_path(), bytes: simple_file(&live, false, true) },
        StoredFile {
            path: archived_path(1, 1000),
            bytes: simple_file(&archived, false, false),
        },
    ]);
    let mut reader = JournalReader::new(io);
    reader.select(selection()).unwrap();
    reader.seek(Seek::Oldest).unwrap();
    let entries = reader.entries().unwrap();
    assert_eq!(seqnums(&entries), (1..=20).collect::<Vec<u64>>());
}

#[test]
fn test_cross_file_three_files() {
    let io = MemoryJournal::new(vec![
        StoredFile { path: live_path(), bytes: simple_file(&[31, 32], false, true) },
        StoredFile {
            path: archived_path(21, 21000),
            bytes: simple_file(&[21, 22], false, false),
        },
        StoredFile {
            path: archived_path(11, 11000),
            bytes: simple_file(&[11, 12], false, false),
        },
    ]);
    let mut reader = JournalReader::new(io);
    reader.select(selection()).unwrap();
    reader.seek(Seek::Oldest).unwrap();
    let entries = reader.entries().unwrap();
    assert_eq!(seqnums(&entries), vec![11, 12, 21, 22, 31, 32]);
}

#[test]
fn test_seek_newest_yields_nothing() {
    let io = MemoryJournal::new(vec![StoredFile {
        path: live_path(),
        bytes: simple_file(&[5, 7], false, true),
    }]);
    let mut reader = JournalReader::new(io);
    reader.select(selection()).unwrap();
    reader.seek(Seek::Newest).unwrap();
    assert_eq!(reader.entries().unwrap(), vec![]);
}

#[test]
fn test_select_not_found() {
    let io = MemoryJournal::new(vec![]);
    let mut reader = JournalReader::new(io);
    assert_eq!(
        reader.select(selection()),
        Err(JournalError::NotFound)
    );
    assert!(reader.selection().is_none());
}

#[test]
fn test_seek_requires_selection() {
    let io = MemoryJournal::new(vec![StoredFile {
        path: live_path(),
        bytes: simple_file(&[5], false, true),
    }]);
    let mut reader = JournalReader::new(io);
    assert_eq!(reader.seek(Seek::Oldest), Err(JournalError::NotConnected));
}

#[test]
fn test_select_falls_back_to_archived() {
    // no live file: selecting opens the archived file
    let io = MemoryJournal::new(vec![StoredFile {
        path: archived_path(1, 1000),
        bytes: simple_file(&[1, 2], false, false),
    }]);
    let mut reader = JournalReader::new(io);
    reader.select(selection()).unwrap();
    assert_eq!(reader.selection(), Some(&selection()));
    // after the archived file is exhausted the iterator moves on to the
    // live file, whose absence surfaces as not-found
    assert_eq!(reader.entries(), Err(JournalError::NotFound));
    // the position has reached the end: a further read ends cleanly
    assert_eq!(reader.entries().unwrap(), vec![]);
}

#[test]
fn test_list() {
    let mut other = MACHINE_HEX.to_vec();
    other.extend_from_slice(b"/user-1000.journal");
    let io = MemoryJournal::new(vec![
        StoredFile { path: live_path(), bytes: vec![] },
        StoredFile { path: archived_path(1, 1000), bytes: vec![] },
        StoredFile { path: other, bytes: vec![] },
        // the fss sidecar is ignored
        StoredFile { path: b"c444c71c038d45b0af201444a83b91c9/fss".to_vec(), bytes: vec![] },
    ]);
    let reader = JournalReader::new(io);
    let mut listed = reader.list();
    listed.sort_by(|a, b| (a.machine_id, a.scope.clone()).cmp(&(b.machine_id, b.scope.clone())));
    assert_eq!(
        listed,
        vec![
            JournalSelection { machine_id: MACHINE, scope: b"system".to_vec() },
            JournalSelection { machine_id: MACHINE, scope: b"user-1000".to_vec() },
        ]
    );
}

#[test]
fn test_list_files_sorted() {
    let io = MemoryJournal::new(vec![
        StoredFile { path: live_path(), bytes: vec![] },
        StoredFile { path: archived_path(21, 21000), bytes: vec![] },
        StoredFile { path: archived_path(11, 11000), bytes: vec![] },
    ]);
    let prefix = {
        let mut p = MACHINE_HEX.to_vec();
        p.extend_from_slice(b"/system");
        p
    };
    let sorted = io.list_files_sorted(Some(&prefix));
    assert_eq!(sorted.len(), 3);
    // archived files first, by head realtime, the live file last
    match &sorted[0] {
        journald_format::filename::FilenameInfo::Archived { head_seqnum, .. } => {
            assert_eq!(*head_seqnum, 11)
        },
        _ => panic!("expected archived first"),
    }
    match &sorted[1] {
        journald_format::filename::FilenameInfo::Archived { head_seqnum, .. } => {
            assert_eq!(*head_seqnum, 21)
        },
        _ => panic!("expected archived second"),
    }
    assert!(matches!(
        sorted[2],
        journald_format::filename::FilenameInfo::Latest { .. }
    ));
}

#[test]
fn test_entry_data_round_trip() {
    let mut f = FileImage::new();
    f.set_state(1);
    let data = f.push_data(b"MESSAGE=hello", false);
    let e1 = f.push_entry(1, &[data], false);
    let array = f.push_array(&[e1], 0, 0, false);
    f.set_entry_array_offset(array);
    f.set_entry_bounds(1, 1);
    let io = MemoryJournal::new(vec![StoredFile { path: live_path(), bytes: f.bytes }]);
    let mut reader = JournalReader::new(io);
    reader.select(selection()).unwrap();
    let entries = reader.entries().unwrap();
    assert_eq!(entries.len(), 1);
    let data = reader.entry_data(&entries[0]).unwrap();
    assert_eq!(data.len(), 1);
    match &data[0].payload {
        journald_format::objects::data::DataPayload::KeyValue { key, value } => {
            assert_eq!(key, b"MESSAGE");
            assert_eq!(value, b"hello");
        },
        _ => panic!("expected a plain payload"),
    }
}

#[test]
fn test_entry_data_missing_equals() {
    // a payload without `=` is malformed
    let mut f = FileImage::new();
    f.set_state(1);
    let data = f.push_data(b"MESSAGE", false);
    let e1 = f.push_entry(1, &[data], false);
    let array = f.push_array(&[e1], 0, 0, false);
    f.set_entry_array_offset(array);
    f.set_entry_bounds(1, 1);
    let io = MemoryJournal::new(vec![StoredFile { path: live_path(), bytes: f.bytes }]);
    let mut reader = JournalReader::new(io);
    reader.select(selection()).unwrap();
    let entries = reader.entries().unwrap();
    assert_eq!(reader.entry_data(&entries[0]), Err(JournalError::InvalidData));
}

#[test]
fn test_entry_data_compact() {
    let mut f = FileImage::new();
    f.set_state(1);
    f.set_compact();
    let data = f.push_data(b"K=V", true);
    let e1 = f.push_entry(3, &[data], true);
    let array = f.push_array(&[e1], 0, 0, true);
    f.set_entry_array_offset(array);
    f.set_entry_bounds(3, 3);
    let io = MemoryJournal::new(vec![StoredFile { path: live_path(), bytes: f.bytes }]);
    let mut reader = JournalReader::new(io);
    reader.select(selection()).unwrap();
    let entries = reader.entries().unwrap();
    let data = reader.entry_data(&entries[0]).unwrap();
    match &data[0].payload {
        journald_format::objects::data::DataPayload::KeyValue { key, value } => {
            assert_eq!(key, b"K");
            assert_eq!(value, b"V");
        },
        _ => panic!("expected a plain payload"),
    }
    assert!(data[0].entry_array.is_some());
}

#[test]
fn test_wrong_object_type() {
    // the entry array offset pointing at a data object is invalid data
    let mut f = FileImage::new();
    f.set_state(1);
    let data = f.push_data(b"k=v", false);
    f.set_entry_array_offset(data);
    let io = MemoryJournal::new(vec![StoredFile { path: live_path(), bytes: f.bytes }]);
    let mut reader = JournalReader::new(io);
    reader.select(selection()).unwrap();
    assert_eq!(reader.entries(), Err(JournalError::InvalidData));
}

#[test]
fn test_truncated_file() {
    let mut bytes = simple_file(&[5, 7], false, true);
    bytes.truncate(250);
    // entry array offset now lies beyond the end of the file
    let io = MemoryJournal::new(vec![StoredFile { path: live_path(), bytes }]);
    let mut reader = JournalReader::new(io);
    reader.select(selection()).unwrap();
    assert_eq!(reader.entries(), Err(JournalError::UnexpectedEof));
}

#[test]
fn test_bounded_reads() {
    let bytes = simple_file(&[5], false, true);
    let total = bytes.len();
    let mut io = MemoryJournal::new(vec![StoredFile { path: live_path(), bytes: bytes.clone() }]);
    // nothing is open yet
    assert_eq!(io.read_some_at(208, 4), Err(JournalError::NotConnected));
    io.open(&live_path()).unwrap();
    assert_eq!(io.read_some_at(208, 4).unwrap(), bytes[208..212].to_vec());
    // reads below the header floor are corrupt links
    assert_eq!(io.read_some_at(100, 4), Err(JournalError::InvalidData));
    // reads past the end are truncation
    assert_eq!(io.read_some_at(208, total as u64), Err(JournalError::UnexpectedEof));
    // a bounded read returns everything up to its cap
    assert_eq!(io.read_bounded(208, 272).unwrap(), bytes[..272.min(total)].to_vec());
    assert_eq!(io.read_bounded(total + 1, total + 2), Err(JournalError::UnexpectedEof));
}
