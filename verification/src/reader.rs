//! The journal reader: directory storage, file selection, and the entry
//! iterator.
//!
//! Storage is an in-memory directory snapshot: every candidate file's
//! relative path and full contents.  An embedding application fills it
//! from whatever medium it reads (the shipped binary works from a local
//! directory).  All journal logic below — selection, header loading, the
//! entry-array walk, the cross-file handoff and payload materialization
//! — is pure computation over those bytes.

use vstd::prelude::*;
use crate::error::JournalError;
use crate::filename::{
    make_filename, make_prefix, parse_filename, spec_make_filename, spec_make_prefix, FilenameInfo,
    FilenameInfoView, JournalSelection, JournalSelectionView,
};
use crate::order::{filenames_sorted, sort_filenames};

verus! {

/// One file of the directory snapshot: its path relative to the journal
/// root, and its entire contents.
#[derive(Debug, Clone, PartialEq, Eq)]
pub struct StoredFile {
    pub path: Vec<u8>,
    pub bytes: Vec<u8>,
}

/// Mathematical model of a [`StoredFile`].
pub struct StoredFileView {
    pub path: Seq<u8>,
    pub bytes: Seq<u8>,
}

impl View for StoredFile {
    type V = StoredFileView;

    open spec fn view(&self) -> StoredFileView {
        StoredFileView { path: self.path@, bytes: self.bytes@ }
    }
}

/// An in-memory journal directory with at most one file open at a time.
#[derive(Debug, Clone, PartialEq, Eq)]
pub struct MemoryJournal {
    pub files: Vec<StoredFile>,
    /// Index of the open file, if any.
    pub open: Option<usize>,
}

/// Mathematical model of a [`MemoryJournal`].
pub struct MemoryJournalView {
    pub files: Seq<StoredFileView>,
    pub open: Option<int>,
}

impl View for MemoryJournal {
    type V = MemoryJournalView;

    open spec fn view(&self) -> MemoryJournalView {
        MemoryJournalView {
            files: Seq::new(self.files@.len(), |i: int| self.files@[i]@),
            open: match self.open {
                Some(i) => Some(i as int),
                None => None,
            },
        }
    }
}

/// Whether `p` is a prefix of `s`.
pub open spec fn spec_is_prefix(p: Seq<u8>, s: Seq<u8>) -> bool {
    p.len() <= s.len() && s.subrange(0, p.len() as int) == p
}

/// Whether `p` is a prefix of `s`.
pub fn is_prefix(p: &[u8], s: &[u8]) -> (r: bool)
    ensures
        r == spec_is_prefix(p@, s@),
{
    let pn = p.len();
    let sn = s.len();
    if pn > sn {
        proof {
            assert(!spec_is_prefix(p@, s@));
        }
        return false;
    }
    let mut i: usize = 0;
    while i < pn
        invariant
            i <= pn,
            pn == p@.len() <= s@.len() == sn,
            s@.subrange(0, i as int) == p@.subrange(0, i as int),
        decreases pn - i,
    {
        if p[i] != s[i] {
            proof {
                assert(s@.subrange(0, pn as int)[i as int] == s@[i as int]);
                assert(s@.subrange(0, pn as int) != p@);
            }
            return false;
        }
        i += 1;
        proof {
            assert(s@.subrange(0, i as int) =~= s@.subrange(0, i - 1).push(s@[i - 1]));
            assert(p@.subrange(0, i as int) =~= p@.subrange(0, i - 1).push(p@[i - 1]));
        }
    }
    proof {
        assert(p@.subrange(0, pn as int) =~= p@);
        assert(s@.subrange(0, pn as int) =~= p@);
    }
    true
}

/// Whether the stored file at `f` is listed under `prefix`: its path
/// matches the prefix (if one is given) and parses as a journal
/// filename.
pub open spec fn spec_listed(f: StoredFileView, prefix: Option<Seq<u8>>) -> bool {
    &&& match prefix {
        Some(p) => spec_is_prefix(p, f.path),
        None => true,
    }
    &&& crate::filename::spec_parse_filename(f.path) is Some
}

/// The parsed filenames of the files listed under `prefix`, in
/// directory order.
pub open spec fn spec_list_files(files: Seq<StoredFileView>, prefix: Option<Seq<u8>>) -> Seq<
    FilenameInfoView,
>
    decreases files.len(),
{
    if files.len() == 0 {
        Seq::empty()
    } else {
        let rest = spec_list_files(files.drop_last(), prefix);
        if spec_listed(files.last(), prefix) {
            rest.push(crate::filename::spec_parse_filename(files.last().path).unwrap())
        } else {
            rest
        }
    }
}

/// Whether the filename at position `i` of `r` appears in `listed`.
pub open spec fn came_from_listing(r: Seq<FilenameInfo>, listed: Seq<FilenameInfoView>, i: int) -> bool {
    exists|j: int| 0 <= j < listed.len() && r[i]@ == listed[j]
}

/// Whether the listed filename at position `k` appears in `r`.
pub open spec fn listing_reached(r: Seq<FilenameInfo>, listed: Seq<FilenameInfoView>, k: int) -> bool {
    exists|i: int| 0 <= i < r.len() && (#[trigger] r[i])@ == listed[k]
}

/// The first index at or after `from` whose file has exactly the path
/// `path`.
pub open spec fn spec_find_path(files: Seq<StoredFileView>, path: Seq<u8>, from: int) -> Option<int>
    decreases files.len() - from,
{
    if from < 0 || from >= files.len() {
        None
    } else if files[from].path == path {
        Some(from)
    } else {
        spec_find_path(files, path, from + 1)
    }
}

impl MemoryJournal {
    /// The open index, when set, names a stored file.
    pub open spec fn wf(self) -> bool {
        match self.open {
            Some(i) => i < self.files@.len(),
            None => true,
        }
    }

    /// A directory snapshot with no file open.
    pub fn new(files: Vec<StoredFile>) -> (r: MemoryJournal)
        ensures
            r@.files.len() == files@.len(),
            forall|i: int| 0 <= i < files@.len() ==> r@.files[i] == files@[i]@,
            r@.open is None,
            r.wf(),
    {
        MemoryJournal { files, open: None }
    }

    /// Open the file stored at exactly `path` (the first such file).
    /// Fails with not-found when no file has that path; the previously
    /// open file then stays open.
    pub fn open(&mut self, path: &[u8]) -> (r: Result<(), JournalError>)
        requires
            old(self).wf(),
        ensures
            final(self).wf(),
            final(self).files == old(self).files,
            match spec_find_path(old(self)@.files, path@, 0) {
                Some(i) => r == Ok::<(), JournalError>(()) && final(self)@.open == Some(i),
                None => r == Err::<(), JournalError>(JournalError::NotFound) && final(self).open
                    == old(self).open,
            },
    {
        let n = self.files.len();
        let mut i: usize = 0;
        while i < n
            invariant
                i <= n,
                self == old(self),
                n == self.files@.len(),
                self@.files.len() == n,
                spec_find_path(self@.files, path@, 0) == spec_find_path(self@.files, path@, i as int),
            decreases n - i,
        {
            proof {
                assert(self@.files[i as int].path == self.files@[i as int].path@);
            }
            if crate::reader::bytes_eq(&self.files[i].path, path) {
                self.open = Some(i);
                return Ok(());
            }
            i += 1;
        }
        Err(JournalError::NotFound)
    }

    /// Close the open file, if any; idempotent.
    pub fn close(&mut self)
        ensures
            final(self).wf(),
            final(self).files == old(self).files,
            final(self).open is None,
    {
        self.open = None;
    }

    /// The path of the open file, if one is open.
    pub fn current(&self) -> (r: Option<&Vec<u8>>)
        requires
            self.wf(),
        ensures
            match self@.open {
                Some(i) => r matches Some(p) && p@ == self@.files[i].path,
                None => r is None,
            },
    {
        match self.open {
            Some(i) => Some(&self.files[i].path),
            None => None,
        }
    }

    /// The contents of the open file; not-connected when none is open.
    pub fn current_bytes(&self) -> (r: Result<&Vec<u8>, JournalError>)
        requires
            self.wf(),
        ensures
            match self@.open {
                Some(i) => r matches Ok(b) && b@ == self@.files[i].bytes,
                None => r == Err::<&Vec<u8>, JournalError>(JournalError::NotConnected),
            },
    {
        match self.open {
            Some(i) => Ok(&self.files[i].bytes),
            None => Err(JournalError::NotConnected),
        }
    }

    /// Read exactly `size` bytes at `offset` of the open file.  Offsets
    /// below the smallest header size never hold an object (a corrupt
    /// link is caught before it can reach the file header).
    pub fn read_some_at(&self, offset: u64, size: u64) -> (r: Result<Vec<u8>, JournalError>)
        requires
            self.wf(),
        ensures
            match self@.open {
                None => r == Err::<Vec<u8>, JournalError>(JournalError::NotConnected),
                Some(i) => match crate::objects::spec_bounds(self@.files[i].bytes, offset, size) {
                    Ok(_) => r matches Ok(v) && v@ == self@.files[i].bytes.subrange(
                        offset as int,
                        offset + size,
                    ),
                    Err(e) => r == Err::<Vec<u8>, JournalError>(e),
                },
            },
    {
        let bytes = match self.current_bytes() {
            Err(e) => {
                return Err(e);
            },
            Ok(b) => b,
        };
        if let Err(e) = crate::objects::check_bounds(bytes.as_slice(), offset, size) {
            return Err(e);
        }
        Ok(
            vstd::slice::slice_to_vec(
                vstd::slice::slice_subrange(
                    bytes.as_slice(),
                    offset as usize,
                    (offset + size) as usize,
                ),
            ),
        )
    }

    /// Read at least `min` and at most `max` bytes from the start of the
    /// open file; a file shorter than `min` is truncated.
    pub fn read_bounded(&self, min: usize, max: usize) -> (r: Result<Vec<u8>, JournalError>)
        requires
            self.wf(),
            min <= max,
        ensures
            match self@.open {
                None => r == Err::<Vec<u8>, JournalError>(JournalError::NotConnected),
                Some(i) => {
                    let n = self@.files[i].bytes.len();
                    if n < min {
                        r == Err::<Vec<u8>, JournalError>(JournalError::UnexpectedEof)
                    } else {
                        r matches Ok(v) && v@ == self@.files[i].bytes.take(
                            if n < max {
                                n as int
                            } else {
                                max as int
                            },
                        )
                    }
                },
            },
    {
        let bytes = match self.current_bytes() {
            Err(e) => {
                return Err(e);
            },
            Ok(b) => b,
        };
        let n = bytes.len();
        if n < min {
            return Err(JournalError::UnexpectedEof);
        }
        let end = if n < max {
            n
        } else {
            max
        };
        Ok(vstd::slice::slice_to_vec(vstd::slice::slice_subrange(bytes.as_slice(), 0, end)))
    }

    /// Every parsable journal filename under `prefix` (all files when no
    /// prefix is given), in directory order.
    pub fn list_files(&self, prefix: Option<&Vec<u8>>) -> (r: Vec<FilenameInfo>)
        ensures
            r@.len() == spec_list_files(self@.files, spec_prefix_view(prefix)).len(),
            forall|i: int|
                0 <= i < r@.len() ==> r@[i]@ == spec_list_files(
                    self@.files,
                    spec_prefix_view(prefix),
                )[i],
    {
        let ghost pv = spec_prefix_view(prefix);
        let n = self.files.len();
        let mut out: Vec<FilenameInfo> = Vec::new();
        let mut i: usize = 0;
        proof {
            assert(self@.files.subrange(0, 0) =~= Seq::<StoredFileView>::empty());
        }
        while i < n
            invariant
                i <= n,
                n == self.files@.len(),
                self@.files.len() == n,
                pv == spec_prefix_view(prefix),
                out@.len() == spec_list_files(self@.files.subrange(0, i as int), pv).len(),
                forall|j: int|
                    0 <= j < out@.len() ==> out@[j]@ == spec_list_files(
                        self@.files.subrange(0, i as int),
                        pv,
                    )[j],
            decreases n - i,
        {
            let ghost pre = self@.files.subrange(0, i as int);
            let file = &self.files[i];
            proof {
                assert(self@.files[i as int] == file@);
                assert(self@.files.subrange(0, i + 1).drop_last() =~= pre);
                assert(self@.files.subrange(0, i + 1).last() == file@);
            }
            let keep = match prefix {
                Some(p) => is_prefix(p.as_slice(), file.path.as_slice()),
                None => true,
            };
            if keep {
                match parse_filename(file.path.as_slice()) {
                    Some(info) => {
                        out.push(info);
                    },
                    None => {},
                }
            }
            i += 1;
        }
        proof {
            assert(self@.files.subrange(0, n as int) =~= self@.files);
        }
        out
    }

    /// As [`list_files`](Self::list_files), but in the filename order:
    /// archived files first, each ordered by
    /// `(head_realtime, head_seqnum, file_seqnum, scope, machine_id)`.
    pub fn list_files_sorted(&self, prefix: Option<&Vec<u8>>) -> (r: Vec<FilenameInfo>)
        ensures
            filenames_sorted(r@),
            r@.len() == spec_list_files(self@.files, spec_prefix_view(prefix)).len(),
            crate::order::filename_views(r@).to_multiset() == spec_list_files(
                self@.files,
                spec_prefix_view(prefix),
            ).to_multiset(),
            forall|i: int|
                0 <= i < r@.len() ==> #[trigger] came_from_listing(
                    r@,
                    spec_list_files(self@.files, spec_prefix_view(prefix)),
                    i,
                ),
            forall|k: int|
                0 <= k < r@.len() ==> #[trigger] listing_reached(
                    r@,
                    spec_list_files(self@.files, spec_prefix_view(prefix)),
                    k,
                ),
    {
        let listed = self.list_files(prefix);
        let ghost listed_view = listed@;
        let r = sort_filenames(listed);
        proof {
            broadcast use vstd::seq_lib::group_to_multiset_ensures;

            assert(crate::order::filename_views(listed_view) =~= spec_list_files(
                self@.files,
                spec_prefix_view(prefix),
            ));

            assert forall|i: int| 0 <= i < r@.len() implies #[trigger] came_from_listing(
                r@,
                spec_list_files(self@.files, spec_prefix_view(prefix)),
                i,
            ) by {
                assert(r@.to_multiset().contains(r@[i]));
                assert(listed_view.to_multiset().contains(r@[i]));
                assert(listed_view.contains(r@[i]));
                let j = choose|j: int| 0 <= j < listed_view.len() && listed_view[j] == r@[i];
                assert(r@[i]@ == spec_list_files(self@.files, spec_prefix_view(prefix))[j]);
            }
            assert forall|k: int| 0 <= k < r@.len() implies #[trigger] listing_reached(
                r@,
                spec_list_files(self@.files, spec_prefix_view(prefix)),
                k,
            ) by {
                assert(listed_view.to_multiset().contains(listed_view[k]));
                assert(r@.to_multiset().contains(listed_view[k]));
                assert(r@.contains(listed_view[k]));
                let i = choose|i: int| 0 <= i < r@.len() && r@[i] == listed_view[k];
                assert((r@[i])@ == spec_list_files(self@.files, spec_prefix_view(prefix))[k]);
            }
        }
        r
    }
}

/// The view of an optional path prefix.
pub open spec fn spec_prefix_view(prefix: Option<&Vec<u8>>) -> Option<Seq<u8>> {
    match prefix {
        Some(p) => Some(p@),
        None => None,
    }
}

/// Where the reader stands in the current file: `index: Some(n)` means
/// the next item to yield is the `n`-th item of the entry array at
/// `entry_array_offset`; `None` means the chain must be chased before
/// anything more can be yielded.
#[derive(Debug, Clone, Copy, PartialEq, Eq, Structural)]
pub struct Position {
    pub entry_array_offset: u64,
    pub index: Option<u64>,
}

/// The loaded state of the open file: its parsed header and the cursor.
#[derive(Debug, Clone, Copy, PartialEq, Eq, Structural)]
pub struct CurrentFile {
    pub header: crate::header::Header,
    pub position: Position,
}

/// Where a read session starts in a freshly loaded file.
pub open spec fn spec_initial_position(h: crate::header::Header) -> Position {
    Position { entry_array_offset: h.entry_array_offset, index: Some(0) }
}

/// What chasing the chain link of the entry array at `off` yields:
/// the offset of the next array, if the array has one.
pub open spec fn spec_next_array(s: Seq<u8>, off: u64) -> Result<Option<u64>, JournalError> {
    match crate::objects::spec_read_object_header(s, off) {
        Err(e) => Err(e),
        Ok(o) => {
            if o.object_type != crate::objects::ObjectType::EntryArray {
                Err(JournalError::InvalidData)
            } else {
                match crate::objects::entry_array::spec_read_entry_array_header(
                    s,
                    (off + 16) as u64,
                ) {
                    Err(e) => Err(e),
                    Ok(ah) => Ok(ah.next_entry_array_offset),
                }
            }
        },
    }
}

/// The offset of the last array of the chain starting at `off`, found by
/// chasing at most `fuel` links; a longer chain is treated as a loop in
/// a malformed file.
pub open spec fn spec_chain_end(s: Seq<u8>, off: u64, fuel: nat) -> Result<u64, JournalError>
    decreases fuel,
{
    match spec_next_array(s, off) {
        Err(e) => Err(e),
        Ok(None) => Ok(off),
        Ok(Some(next)) => {
            if fuel == 0 {
                Err(JournalError::InvalidData)
            } else {
                spec_chain_end(s, next, (fuel - 1) as nat)
            }
        },
    }
}

/// How the reader is asked to position itself.
#[derive(Debug, Clone, Copy)]
pub enum Seek {
    /// Just after the newest entry.
    Newest,
    /// Just before the oldest entry.
    Oldest,
    /// At the entry closest to the given timestamp (reserved).
    Timestamp(u64),
    /// At the entry closest to the given sequence number (reserved).
    Seqnum(u64),
    /// At the start of the given boot (reserved).
    BootId(u128),
    /// A number of entries before or after the current position
    /// (reserved).
    Entries(i64),
}

impl From<FilenameInfo> for JournalSelection {
    /// The logical journal a filename belongs to.
    fn from(info: FilenameInfo) -> (r: Self) {
        match info {
            FilenameInfo::Latest { machine_id, scope } => JournalSelection { machine_id, scope },
            FilenameInfo::Archived { machine_id, scope, .. } => JournalSelection {
                machine_id,
                scope,
            },
        }
    }
}

impl vstd::std_specs::convert::FromSpecImpl<FilenameInfo> for JournalSelection {
    open spec fn obeys_from_spec() -> bool {
        true
    }

    open spec fn from_spec(info: FilenameInfo) -> JournalSelection {
        match info {
            FilenameInfo::Latest { machine_id, scope } => JournalSelection { machine_id, scope },
            FilenameInfo::Archived { machine_id, scope, .. } => JournalSelection {
                machine_id,
                scope,
            },
        }
    }
}

/// A journal read session: the storage, the chosen journal, and the
/// loaded state of the file being read.
#[derive(Debug)]
pub struct JournalReader {
    pub io: MemoryJournal,
    pub select: Option<JournalSelection>,
    pub current: Option<CurrentFile>,
}

impl JournalReader {
    /// The storage is sound, a loaded file is an open file, and a
    /// recorded selection leaves room for filename building.
    pub open spec fn wf(self) -> bool {
        &&& self.io.wf()
        &&& self.current is Some ==> self.io.open is Some
        &&& match self.select {
            Some(sel) => sel.scope@.len() + 200 <= usize::MAX,
            None => true,
        }
    }

    /// A fresh read session over the given storage: nothing selected,
    /// nothing loaded, no I/O done.
    pub fn new(io: MemoryJournal) -> (r: JournalReader)
        requires
            io.wf(),
        ensures
            r.wf(),
            r.io == io,
            r.select is None,
            r.current is None,
    {
        JournalReader { io, select: None, current: None }
    }

    /// The journal currently selected, if any.
    pub fn selection(&self) -> (r: Option<&JournalSelection>)
        ensures
            match self.select {
                Some(s) => r matches Some(x) && x == s,
                None => r is None,
            },
    {
        self.select.as_ref()
    }

    /// The selections of every journal the storage holds, without
    /// duplicates: every listed file's journal appears exactly once.
    pub fn list(&self) -> (r: Vec<JournalSelection>)
        ensures
            forall|i: int, j: int| 0 <= i < j < r@.len() ==> r@[i]@ != r@[j]@,
            forall|a: int|
                0 <= a < r@.len() ==> #[trigger] selection_from(
                    r@,
                    spec_list_files(self.io@.files, None),
                    a,
                ),
            forall|k: int|
                0 <= k < spec_list_files(self.io@.files, None).len() ==> selection_listed(
                    r@,
                    #[trigger] spec_list_files(self.io@.files, None)[k],
                ),
    {
        let infos = self.io.list_files(None);
        let ghost listing = spec_list_files(self.io@.files, None);
        let mut out: Vec<JournalSelection> = Vec::new();
        let n = infos.len();
        let mut i: usize = 0;
        while i < n
            invariant
                i <= n,
                n == infos@.len() == listing.len(),
                listing == spec_list_files(self.io@.files, None),
                forall|j: int| 0 <= j < n ==> infos@[j]@ == listing[j],
                forall|a: int, b: int| 0 <= a < b < out@.len() ==> out@[a]@ != out@[b]@,
                forall|a: int| 0 <= a < out@.len() ==> #[trigger] selection_from(out@, listing, a),
                forall|k: int| 0 <= k < i ==> selection_listed(out@, #[trigger] listing[k]),
            decreases n - i,
        {
            let info = &infos[i];
            let (machine_id, scope): (u128, &Vec<u8>) = match info {
                FilenameInfo::Latest { machine_id, scope } => (*machine_id, scope),
                FilenameInfo::Archived { machine_id, scope, .. } => (*machine_id, scope),
            };
            let ghost vsel = JournalSelectionView { machine_id, scope: scope@ };
            proof {
                assert(spec_selection_of(listing[i as int]) == vsel);
            }
            let mut seen = false;
            let m = out.len();
            let mut j: usize = 0;
            while j < m
                invariant
                    j <= m,
                    m == out@.len(),
                    vsel == (JournalSelectionView { machine_id, scope: scope@ }),
                    seen <==> exists|b: int| 0 <= b < j && (#[trigger] out@[b])@ == vsel,
                decreases m - j,
            {
                let cand = &out[j];
                if cand.machine_id == machine_id && bytes_eq(&cand.scope, scope.as_slice()) {
                    proof {
                        assert((out@[j as int])@ == vsel);
                    }
                    seen = true;
                }
                j += 1;
            }
            let ghost before = out@;
            if !seen {
                out.push(
                    JournalSelection {
                        machine_id,
                        scope: vstd::slice::slice_to_vec(scope.as_slice()),
                    },
                );
                proof {
                    assert((out@[out@.len() - 1])@ == vsel);
                }
            }
            proof {
                if seen {
                    let b = choose|b: int| 0 <= b < before.len() && (#[trigger] before[b])@ == vsel;
                    assert((out@[b])@ == vsel);
                }
                assert(selection_listed(out@, listing[i as int]));
                assert forall|k: int| 0 <= k < i + 1 implies selection_listed(
                    out@,
                    #[trigger] listing[k],
                ) by {
                    if k < i {
                        let a = choose|a: int|
                            0 <= a < before.len() && (#[trigger] before[a])@ == spec_selection_of(
                                listing[k],
                            );
                        assert((out@[a])@ == spec_selection_of(listing[k]));
                    }
                }
                assert forall|a: int| 0 <= a < out@.len() implies #[trigger] selection_from(
                    out@,
                    listing,
                    a,
                ) by {
                    if a < before.len() {
                        assert(selection_from(before, listing, a));
                        let k = choose|k: int|
                            0 <= k < listing.len() && before[a]@ == spec_selection_of(
                                #[trigger] listing[k],
                            );
                        assert(out@[a]@ == spec_selection_of(listing[k]));
                    } else {
                        assert(out@[a]@ == spec_selection_of(listing[i as int]));
                    }
                }
            }
            i += 1;
        }
        out
    }
}

/// Whether some element of `out` is the selection of `info`.
pub open spec fn selection_listed(out: Seq<JournalSelection>, info: FilenameInfoView) -> bool {
    exists|a: int| 0 <= a < out.len() && (#[trigger] out[a])@ == spec_selection_of(info)
}

/// Whether element `a` of `out` is the selection of some listed file.
pub open spec fn selection_from(out: Seq<JournalSelection>, listing: Seq<FilenameInfoView>, a: int) -> bool {
    exists|k: int| 0 <= k < listing.len() && out[a]@ == spec_selection_of(#[trigger] listing[k])
}

/// The selection a filename belongs to.
pub open spec fn spec_selection_of(info: FilenameInfoView) -> JournalSelectionView {
    match info {
        FilenameInfoView::Latest { machine_id, scope } => JournalSelectionView {
            machine_id,
            scope,
        },
        FilenameInfoView::Archived { machine_id, scope, .. } => JournalSelectionView {
            machine_id,
            scope,
        },
    }
}

impl MemoryJournalView {
    /// Shorthand for the stored files of the model.
    pub open spec fn files_of(self) -> Seq<StoredFileView> {
        self.files
    }
}


impl JournalReader {
    /// The selected journal and its archive prefix; not-connected when
    /// nothing is selected.
    fn selected_journal(&self) -> (r: Result<(JournalSelection, Vec<u8>), JournalError>)
        requires
            self.wf(),
        ensures
            match self.select {
                Some(sel) => r matches Ok((s, p)) && s@ == sel@ && p@ == spec_make_prefix(sel@),
                None => r == Err::<(JournalSelection, Vec<u8>), JournalError>(
                    JournalError::NotConnected,
                ),
            },
    {
        match &self.select {
            Some(sel) => {
                let prefix = make_prefix(sel);
                Ok((
                    JournalSelection {
                        machine_id: sel.machine_id,
                        scope: vstd::slice::slice_to_vec(sel.scope.as_slice()),
                    },
                    prefix,
                ))
            },
            None => Err(JournalError::NotConnected),
        }
    }

    /// Parse the open file's header and set the position to the head of
    /// its entry-array chain.  Not-connected without an open file; on
    /// any error the loaded state is unchanged.
    fn load(&mut self) -> (r: Result<(), JournalError>)
        requires
            old(self).wf(),
        ensures
            final(self).wf(),
            final(self).io == old(self).io,
            final(self).select == old(self).select,
            match old(self).spec_open_header() {
                Err(e) => r == Err::<(), JournalError>(e) && final(self).current == old(self).current,
                Ok(h) => r == Ok::<(), JournalError>(()) && final(self).current == Some(
                    CurrentFile { header: h, position: spec_initial_position(h) },
                ),
            },
    {
        let bytes = match self.io.current_bytes() {
            Err(e) => {
                return Err(e);
            },
            Ok(b) => b,
        };
        let header = match crate::header::Header::read(bytes.as_slice()) {
            Err(e) => {
                return Err(e);
            },
            Ok(h) => h,
        };
        self.current = Some(
            CurrentFile {
                header,
                position: Position { entry_array_offset: header.entry_array_offset, index: Some(0) },
            },
        );
        Ok(())
    }

    /// Load the open file unless one is already loaded.
    fn load_if_needed(&mut self) -> (r: Result<(), JournalError>)
        requires
            old(self).wf(),
        ensures
            final(self).wf(),
            final(self).io == old(self).io,
            final(self).select == old(self).select,
            old(self).current is Some ==> r == Ok::<(), JournalError>(()) && final(self).current
                == old(self).current,
            old(self).current is None ==> match old(self).spec_open_header() {
                Err(e) => r == Err::<(), JournalError>(e) && final(self).current is None,
                Ok(h) => r == Ok::<(), JournalError>(()) && final(self).current == Some(
                    CurrentFile { header: h, position: spec_initial_position(h) },
                ),
            },
            r is Ok ==> final(self).current is Some,
    {
        if self.current.is_none() {
            self.load()
        } else {
            Ok(())
        }
    }

    /// Move the position to the start of the next entry array of the
    /// chain.  Returns false, without moving, when the current array is
    /// the last; checks that the current position names an entry array.
    fn next_entry_array(&mut self) -> (r: Result<bool, JournalError>)
        requires
            old(self).wf(),
            old(self).current is Some,
        ensures
            final(self).wf(),
            final(self).io == old(self).io,
            final(self).select == old(self).select,
            final(self).current is Some,
            final(self).current.unwrap().header == old(self).current.unwrap().header,
            match spec_next_array(
                old(self).spec_open_bytes(),
                old(self).current.unwrap().position.entry_array_offset,
            ) {
                Err(e) => r == Err::<bool, JournalError>(e) && final(self).current == old(self).current,
                Ok(None) => r == Ok::<bool, JournalError>(false) && final(self).current == old(self).current,
                Ok(Some(next)) => r == Ok::<bool, JournalError>(true) && final(self).current.unwrap().position == (Position { entry_array_offset: next, index: Some(0u64) }),
            },
    {
        let off = match &self.current {
            Some(c) => c.position.entry_array_offset,
            None => {
                return Err(JournalError::NotConnected);
            },
        };
        let bytes = match self.io.current_bytes() {
            Err(e) => {
                return Err(e);
            },
            Ok(b) => b,
        };
        let _len = bytes.len();
        let o = match crate::objects::ObjectHeader::read_at(bytes.as_slice(), off) {
            Err(e) => {
                return Err(e);
            },
            Ok(o) => o,
        };
        if let Err(e) = o.check_type(crate::objects::ObjectType::EntryArray) {
            return Err(e);
        }
        let ah = match crate::objects::entry_array::EntryArrayObjectHeader::read_at(
            bytes.as_slice(),
            off + 16,
        ) {
            Err(e) => {
                return Err(e);
            },
            Ok(a) => a,
        };
        match ah.next_entry_array_offset {
            Some(next) => {
                let header = match &self.current {
                    Some(c) => c.header,
                    None => {
                        return Err(JournalError::NotConnected);
                    },
                };
                self.current = Some(
                    CurrentFile {
                        header,
                        position: Position { entry_array_offset: next, index: Some(0) },
                    },
                );
                Ok(true)
            },
            None => Ok(false),
        }
    }

    /// Chase the chain of entry arrays to its last member and park the
    /// position there with no index, so that nothing more is yielded.
    /// A chain longer than the file's object count is a loop in a
    /// malformed file and is reported as invalid data.
    fn skip_to_end(&mut self) -> (r: Result<(), JournalError>)
        requires
            old(self).wf(),
            old(self).current is Some,
        ensures
            final(self).wf(),
            final(self).io == old(self).io,
            final(self).select == old(self).select,
            final(self).current is Some,
            final(self).current.unwrap().header == old(self).current.unwrap().header,
            match spec_chain_end(
                old(self).spec_open_bytes(),
                old(self).current.unwrap().position.entry_array_offset,
                old(self).current.unwrap().header.n_objects as nat,
            ) {
                Err(e) => r == Err::<(), JournalError>(e),
                Ok(end) => r == Ok::<(), JournalError>(()) && final(self).current.unwrap().position
                    == (Position { entry_array_offset: end, index: None::<u64> }),
            },
    {
        let ghost bytes = self.spec_open_bytes();
        let mut fuel: u64 = match &self.current {
            Some(c) => c.header.n_objects,
            None => 0,
        };
        loop
            invariant_except_break
                self.wf(),
                self.current is Some,
                self.io == old(self).io,
                self.select == old(self).select,
                self.current.unwrap().header == old(self).current.unwrap().header,
                bytes == self.spec_open_bytes(),
                spec_chain_end(
                    bytes,
                    old(self).current.unwrap().position.entry_array_offset,
                    old(self).current.unwrap().header.n_objects as nat,
                ) == spec_chain_end(
                    bytes,
                    self.current.unwrap().position.entry_array_offset,
                    fuel as nat,
                ),
            ensures
                self.wf(),
                self.current is Some,
                self.io == old(self).io,
                self.select == old(self).select,
                self.current.unwrap().header == old(self).current.unwrap().header,
                spec_chain_end(
                    bytes,
                    old(self).current.unwrap().position.entry_array_offset,
                    old(self).current.unwrap().header.n_objects as nat,
                ) == Ok::<u64, JournalError>(
                    self.current.unwrap().position.entry_array_offset,
                ),
            decreases fuel,
        {
            let more = match self.next_entry_array() {
                Err(e) => {
                    return Err(e);
                },
                Ok(m) => m,
            };
            if !more {
                break;
            }
            if fuel == 0 {
                return Err(JournalError::InvalidData);
            }
            fuel = fuel - 1;
        }
        let (header, off) = match &self.current {
            Some(c) => (c.header, c.position.entry_array_offset),
            None => {
                return Err(JournalError::NotConnected);
            },
        };
        self.current = Some(
            CurrentFile { header, position: Position { entry_array_offset: off, index: None } },
        );
        Ok(())
    }
}

impl JournalReader {
    /// The header that loading the open file would yield.
    pub open spec fn spec_open_header(self) -> Result<crate::header::Header, JournalError> {
        match self.io@.open {
            Some(i) => crate::header::spec_parse_header(self.io@.files[i].bytes),
            None => Err(JournalError::NotConnected),
        }
    }

    /// The bytes of the open file (empty when none is open).
    pub open spec fn spec_open_bytes(self) -> Seq<u8> {
        match self.io@.open {
            Some(i) => self.io@.files[i].bytes,
            None => Seq::empty(),
        }
    }
}

impl JournalReader {
    /// Bind the reader to a journal: open its live file, or — when none
    /// exists — the first archived file listed under its prefix.  Any
    /// failure leaves the reader unselected; success records the
    /// selection and invalidates any loaded position.
    pub fn select(&mut self, journal: JournalSelection) -> (r: Result<(), JournalError>)
        requires
            old(self).wf(),
            journal.scope@.len() + 200 <= usize::MAX,
        ensures
            final(self).wf(),
            final(self).io.files == old(self).io.files,
            final(self).current is None,
            match r {
                Ok(_) => final(self).select matches Some(s) && s@ == journal@,
                Err(_) => final(self).select is None,
            },
            match spec_find_path(
                old(self).io@.files,
                spec_make_filename(
                    FilenameInfoView::Latest { machine_id: journal.machine_id, scope: journal.scope@ },
                ),
                0,
            ) {
                Some(i) => r == Ok::<(), JournalError>(()) && final(self).io@.open == Some(i),
                None => {
                    let listed = spec_list_files(
                        old(self).io@.files,
                        Some(spec_make_prefix(journal@)),
                    );
                    if listed.len() == 0 || listed[0].scope().len() + 200 > usize::MAX {
                        r == Err::<(), JournalError>(JournalError::NotFound) && final(self).io@.open is None
                    } else {
                        match spec_find_path(
                            old(self).io@.files,
                            spec_make_filename(listed[0]),
                            0,
                        ) {
                            Some(j) => r == Ok::<(), JournalError>(()) && final(self).io@.open
                                == Some(j),
                            None => r == Err::<(), JournalError>(JournalError::NotFound) && final(self).io@.open is None,
                        }
                    }
                },
            },
    {
        self.io.close();
        self.select = None;
        self.current = None;
        let latest = make_filename(
            &FilenameInfo::Latest {
                machine_id: journal.machine_id,
                scope: vstd::slice::slice_to_vec(journal.scope.as_slice()),
            },
        );
        if let Err(_) = self.io.open(latest.as_slice()) {
            let prefix = make_prefix(&journal);
            let files = self.io.list_files(Some(&prefix));
            if files.len() == 0 {
                return Err(JournalError::NotFound);
            }
            let first = &files[0];
            let name = make_filename_bounded(first);
            let name = match name {
                Some(n) => n,
                None => {
                    return Err(JournalError::NotFound);
                },
            };
            if let Err(e) = self.io.open(name.as_slice()) {
                return Err(e);
            }
        }
        self.select = Some(journal);
        Ok(())
    }

    /// Position the reader: `Oldest` opens the least file of the
    /// selection and loads it; `Newest` opens the live file, loads it,
    /// and parks the position after its last entry array.  The other
    /// variants are a reserved extension surface.
    pub fn seek(&mut self, seek: Seek) -> (r: Result<(), JournalError>)
        requires
            old(self).wf(),
            seek is Oldest || seek is Newest,
        ensures
            final(self).wf(),
            final(self).io.files == old(self).io.files,
            final(self).select == old(self).select,
            old(self).select is None ==> r == Err::<(), JournalError>(JournalError::NotConnected),
            r is Ok ==> final(self).current is Some,
            r is Err && seek is Oldest ==> final(self).current == old(self).current,
            r is Err && seek is Newest ==> (final(self).current == old(self).current || (final(self).current matches Some(cf) && final(self).spec_open_header() == Ok::<
                crate::header::Header,
                JournalError,
            >(cf.header))),
            r is Ok && seek is Oldest ==> final(self).current.unwrap().position
                == spec_initial_position(final(self).current.unwrap().header) && final(self).spec_open_header() == Ok::<crate::header::Header, JournalError>(
                final(self).current.unwrap().header,
            ),
            r is Ok && seek is Newest ==> final(self).current.unwrap().position.index is None
                && final(self).spec_open_header() == Ok::<crate::header::Header, JournalError>(
                final(self).current.unwrap().header,
            ) && final(self).io@.open == spec_find_path(
                old(self).io@.files,
                spec_make_filename(
                    FilenameInfoView::Latest {
                        machine_id: old(self).select.unwrap().machine_id,
                        scope: old(self).select.unwrap().scope@,
                    },
                ),
                0,
            ),
            old(self).select is Some && seek is Newest ==> (match spec_find_path(
                old(self).io@.files,
                spec_make_filename(
                    FilenameInfoView::Latest {
                        machine_id: old(self).select.unwrap().machine_id,
                        scope: old(self).select.unwrap().scope@,
                    },
                ),
                0,
            ) {
                None => r == Err::<(), JournalError>(JournalError::NotFound),
                Some(j) => match crate::header::spec_parse_header(old(self).io@.files[j].bytes) {
                    Err(e) => r == Err::<(), JournalError>(e),
                    Ok(h) => match spec_chain_end(
                        old(self).io@.files[j].bytes,
                        h.entry_array_offset,
                        h.n_objects as nat,
                    ) {
                        Err(e) => r == Err::<(), JournalError>(e),
                        Ok(end) => r == Ok::<(), JournalError>(()) && final(self).current == Some(
                            CurrentFile {
                                header: h,
                                position: Position { entry_array_offset: end, index: None },
                            },
                        ),
                    },
                },
            }),
            old(self).select is Some && seek is Oldest && spec_list_files(
                old(self).io@.files,
                Some(spec_make_prefix(old(self).select.unwrap()@)),
            ).len() == 0 ==> r == Err::<(), JournalError>(JournalError::NotFound),
            old(self).select is Some && seek is Oldest && spec_list_files(
                old(self).io@.files,
                Some(spec_make_prefix(old(self).select.unwrap()@)),
            ).len() > 0 ==> ({
                let listed = spec_list_files(
                    old(self).io@.files,
                    Some(spec_make_prefix(old(self).select.unwrap()@)),
                );
                let least = spec_min_file(listed);
                if least.scope().len() + 200 > usize::MAX {
                    r == Err::<(), JournalError>(JournalError::NotFound)
                } else {
                    match spec_find_path(old(self).io@.files, spec_make_filename(least), 0) {
                        None => r == Err::<(), JournalError>(JournalError::NotFound),
                        Some(j) => match crate::header::spec_parse_header(
                            old(self).io@.files[j].bytes,
                        ) {
                            Err(e) => r == Err::<(), JournalError>(e),
                            Ok(h) => r == Ok::<(), JournalError>(()) && final(self).io@.open
                                == Some(j) && final(self).current == Some(
                                CurrentFile { header: h, position: spec_initial_position(h) },
                            ),
                        },
                    }
                }
            }),
            r is Ok && seek is Oldest ==> exists|m: FilenameInfoView|
                #[trigger] is_least_listed(
                    old(self).io@.files,
                    spec_make_prefix(old(self).select.unwrap()@),
                    m,
                ) && final(self).io@.open == spec_find_path(
                    old(self).io@.files,
                    spec_make_filename(m),
                    0,
                ),
    {
        let (selected, prefix) = match self.selected_journal() {
            Err(e) => {
                return Err(e);
            },
            Ok(sp) => sp,
        };
        match seek {
            Seek::Oldest => {
                let files = self.io.list_files_sorted(Some(&prefix));
                if files.len() == 0 {
                    return Err(JournalError::NotFound);
                }
                let ghost listed = spec_list_files(
                    self.io@.files,
                    Some(spec_make_prefix(self.select.unwrap()@)),
                );
                let oldest = &files[0];
                proof {
                    assert(crate::reader::came_from_listing(files@, listed, 0));
                    let j = choose|j: int| 0 <= j < listed.len() && files@[0]@ == listed[j];
                    assert(listed[j] == files@[0]@);
                    assert(listed.contains(files@[0]@));
                    assert forall|k: int| 0 <= k < listed.len() implies crate::order::file_le(
                        files@[0]@,
                        #[trigger] listed[k],
                    ) by {
                        assert(listing_reached(files@, listed, k));
                        let a = choose|a: int| 0 <= a < files@.len() && (#[trigger] files@[a])@ == listed[k];
                        if a == 0 {
                            crate::order::lemma_file_le_refl(files@[0]@);
                        } else {
                            assert(crate::order::file_le(files@[0]@, files@[a]@));
                        }
                    }
                    assert(is_least_listed(
                        self.io@.files,
                        spec_make_prefix(self.select.unwrap()@),
                        files@[0]@,
                    ));
                    lemma_min_unique(listed, files@[0]@);
                }
                let name = match make_filename_bounded(oldest) {
                    Some(n) => n,
                    None => {
                        return Err(JournalError::NotFound);
                    },
                };
                if let Err(e) = self.io.open(name.as_slice()) {
                    return Err(e);
                }
                if let Err(e) = self.load() {
                    return Err(e);
                }
                Ok(())
            },
            Seek::Newest => {
                let latest = make_filename(
                    &FilenameInfo::Latest {
                        machine_id: selected.machine_id,
                        scope: selected.scope,
                    },
                );
                if let Err(e) = self.io.open(latest.as_slice()) {
                    return Err(e);
                }
                if let Err(e) = self.load() {
                    return Err(e);
                }
                if let Err(e) = self.skip_to_end() {
                    return Err(e);
                }
                Ok(())
            },
            // the remaining variants are excluded by the precondition:
            // they are a reserved extension surface
            _ => Err(JournalError::NotConnected),
        }
    }
}

/// Whether `m` is a least filename (in the filename order) among those
/// listed under `prefix`.
pub open spec fn is_least_listed(
    files: Seq<StoredFileView>,
    prefix: Seq<u8>,
    m: FilenameInfoView,
) -> bool {
    let listed = spec_list_files(files, Some(prefix));
    &&& listed.contains(m)
    &&& forall|k: int| 0 <= k < listed.len() ==> crate::order::file_le(m, #[trigger] listed[k])
}

/// Build the path a filename names, unless its scope is so long that
/// the path length would not be representable (no real journal comes
/// within nine orders of magnitude of that).
pub fn make_filename_bounded(info: &FilenameInfo) -> (r: Option<Vec<u8>>)
    ensures
        match r {
            Some(v) => v@ == spec_make_filename(info@) && info@.scope().len() + 200 <= usize::MAX,
            None => info@.scope().len() + 200 > usize::MAX,
        },
{
    let scope_len = match info {
        FilenameInfo::Latest { scope, .. } => scope.len(),
        FilenameInfo::Archived { scope, .. } => scope.len(),
    };
    if scope_len > usize::MAX - 200 {
        return None;
    }
    Some(make_filename(info))
}

/// Stride of one entry-array item: 4 bytes compact, 8 regular.
pub open spec fn spec_array_stride(compact: bool) -> u64 {
    if compact {
        4
    } else {
        8
    }
}

/// How many items the entry array described by `o` has room for.
pub open spec fn spec_array_capacity(o: crate::objects::ObjectHeader, compact: bool) -> u64 {
    if o.spec_payload_size() >= 8 {
        (((o.spec_payload_size() - 8) as u64) / spec_array_stride(compact)) as u64
    } else {
        0
    }
}

/// The entries named by the items of one array, from item `i` on: each
/// nonzero item offset is resolved to its entry object; a zero item or
/// the capacity ends the array.
pub open spec fn spec_drain(
    s: Seq<u8>,
    compact: bool,
    items_start: u64,
    cap: u64,
    i: u64,
) -> Result<Seq<crate::objects::entry::EntryView>, JournalError>
    decreases cap - i,
{
    if i >= cap {
        Ok(Seq::empty())
    } else if items_start + i * spec_array_stride(compact) > u64::MAX {
        Err(JournalError::UnexpectedEof)
    } else {
        match crate::objects::entry_array::spec_read_array_item(
            s,
            (items_start + i * spec_array_stride(compact)) as u64,
            compact,
        ) {
            Err(e) => Err(e),
            Ok(entry_off) => {
                if entry_off == 0 {
                    Ok(Seq::empty())
                } else {
                    match crate::objects::entry::spec_read_entry(s, entry_off, compact) {
                        Err(e) => Err(e),
                        Ok(ev) => {
                            match spec_drain(s, compact, items_start, cap, (i + 1) as u64) {
                                Err(e) => Err(e),
                                Ok(rest) => Ok(seq![ev] + rest),
                            }
                        },
                    }
                }
            },
        }
    }
}

/// The remaining entries of a file from position `(off, idx)`: the rest
/// of the current array, then every later array of the chain.  Yields
/// the entries and the offset of the last array; a chain longer than
/// `fuel` links is a loop in a malformed file.
pub open spec fn spec_walk(
    s: Seq<u8>,
    compact: bool,
    off: u64,
    idx: Option<u64>,
    fuel: nat,
) -> Result<(Seq<crate::objects::entry::EntryView>, u64), JournalError>
    decreases fuel,
{
    match crate::objects::spec_read_object_header(s, off) {
        Err(e) => Err(e),
        Ok(o) => {
            if o.object_type != crate::objects::ObjectType::EntryArray {
                Err(JournalError::InvalidData)
            } else {
                let drained = match idx {
                    None => Ok(Seq::empty()),
                    Some(i) => {
                        if off + 24 > u64::MAX {
                            Err(JournalError::UnexpectedEof)
                        } else {
                            spec_drain(
                                s,
                                compact,
                                (off + 24) as u64,
                                spec_array_capacity(o, compact),
                                i,
                            )
                        }
                    },
                };
                match drained {
                    Err(e) => Err(e),
                    Ok(got) => {
                        match crate::objects::entry_array::spec_read_entry_array_header(
                            s,
                            (off + 16) as u64,
                        ) {
                            Err(e) => Err(e),
                            Ok(ah) => {
                                match ah.next_entry_array_offset {
                                    None => Ok((got, off)),
                                    Some(next) => {
                                        if fuel == 0 {
                                            Err(JournalError::InvalidData)
                                        } else {
                                            match spec_walk(
                                                s,
                                                compact,
                                                next,
                                                Some(0u64),
                                                (fuel - 1) as nat,
                                            ) {
                                                Err(e) => Err(e),
                                                Ok((more, end)) => Ok((got + more, end)),
                                            }
                                        }
                                    },
                                }
                            },
                        }
                    },
                }
            }
        },
    }
}

/// Prepend already-yielded entries to the outcome of the rest of a walk.
pub open spec fn spec_walk_join(
    done: Seq<crate::objects::entry::EntryView>,
    rest: Result<(Seq<crate::objects::entry::EntryView>, u64), JournalError>,
) -> Result<(Seq<crate::objects::entry::EntryView>, u64), JournalError> {
    match rest {
        Ok((more, end)) => Ok((done + more, end)),
        Err(e) => Err(e),
    }
}

/// The models of a vector of entries.
pub open spec fn entry_views(v: Seq<crate::objects::entry::Entry>) -> Seq<
    crate::objects::entry::EntryView,
> {
    Seq::new(v.len(), |i: int| v[i]@)
}

/// Walk the open file from `pos` to its end, appending every entry to
/// `out` and leaving `pos` on the last array with no index.
fn collect_file_entries(
    bytes: &[u8],
    header: &crate::header::Header,
    pos: &mut Position,
    out: &mut Vec<crate::objects::entry::Entry>,
) -> (r: Result<(), JournalError>)
    ensures
        match r {
            Ok(_) => {
                &&& spec_walk(
                    bytes@,
                    header.spec_is_compact(),
                    old(pos).entry_array_offset,
                    old(pos).index,
                    header.n_objects as nat,
                ) == Ok::<(Seq<crate::objects::entry::EntryView>, u64), JournalError>(
                    (
                        entry_views(final(out)@).skip(old(out)@.len() as int),
                        final(pos).entry_array_offset,
                    ),
                )
                &&& final(pos).index is None
                &&& final(out)@.len() >= old(out)@.len()
                &&& final(out)@.subrange(0, old(out)@.len() as int) == old(out)@
            },
            Err(e) => spec_walk(
                bytes@,
                header.spec_is_compact(),
                old(pos).entry_array_offset,
                old(pos).index,
                header.n_objects as nat,
            ) == Err::<(Seq<crate::objects::entry::EntryView>, u64), JournalError>(e),
        },
{
    let compact = header.is_compact();
    let ghost walk0 = spec_walk(
        bytes@,
        compact,
        pos.entry_array_offset,
        pos.index,
        header.n_objects as nat,
    );
    let ghost base = out@;
    let mut fuel: u64 = header.n_objects;
    let _len = bytes.len();
    loop
        invariant_except_break
            base == old(out)@,
            bytes@.len() <= usize::MAX,
            walk0 == spec_walk(
                bytes@,
                compact,
                old(pos).entry_array_offset,
                old(pos).index,
                header.n_objects as nat,
            ),
            out@.len() >= base.len(),
            out@.subrange(0, base.len() as int) == base,
            walk0 == spec_walk_join(
                entry_views(out@).skip(base.len() as int),
                spec_walk(
                    bytes@,
                    compact,
                    pos.entry_array_offset,
                    pos.index,
                    fuel as nat,
                ),
            ),
            compact == header.spec_is_compact(),
        ensures
            out@.len() >= base.len(),
            out@.subrange(0, base.len() as int) == base,
            pos.index is None,
            walk0 == Ok::<(Seq<crate::objects::entry::EntryView>, u64), JournalError>(
                (entry_views(out@).skip(base.len() as int), pos.entry_array_offset),
            ),
        decreases fuel,
    {
        let off = pos.entry_array_offset;
        let o = match crate::objects::ObjectHeader::read_at(bytes, off) {
            Err(e) => {
                return Err(e);
            },
            Ok(o) => o,
        };
        if let Err(e) = o.check_type(crate::objects::ObjectType::EntryArray) {
            return Err(e);
        }
        if let Some(start_index) = pos.index {
            if off > u64::MAX - 24 {
                return Err(JournalError::UnexpectedEof);
            }
            let items_start = off + 24;
            let stride: u64 = if compact {
                4
            } else {
                8
            };
            let payload = o.payload_size();
            let cap: u64 = if payload >= 8 {
                (payload - 8) / stride
            } else {
                0
            };
            let mut i = start_index;
            loop
                invariant_except_break
                    items_start == off + 24,
                    off == pos.entry_array_offset,
                    pos.index == Some(start_index),
                    stride == spec_array_stride(compact),
                    compact == header.spec_is_compact(),
                    crate::objects::spec_read_object_header(bytes@, off) == Ok::<
                        crate::objects::ObjectHeader,
                        JournalError,
                    >(o),
                    o.object_type == crate::objects::ObjectType::EntryArray,
                    cap == spec_array_capacity(o, compact),
                    i >= start_index,
                    base == old(out)@,
                    bytes@.len() <= usize::MAX,
                    walk0 == spec_walk(
                        bytes@,
                        compact,
                        old(pos).entry_array_offset,
                        old(pos).index,
                        header.n_objects as nat,
                    ),
                    out@.len() >= base.len(),
                    out@.subrange(0, base.len() as int) == base,
                    walk0 == spec_walk_join(
                        entry_views(out@).skip(base.len() as int),
                        spec_walk(bytes@, compact, off, Some(i), fuel as nat),
                    ),
                ensures
                    off == pos.entry_array_offset,
                    pos.index is None,
                    out@.len() >= base.len(),
                    out@.subrange(0, base.len() as int) == base,
                    walk0 == spec_walk_join(
                        entry_views(out@).skip(base.len() as int),
                        spec_walk(bytes@, compact, off, None::<u64>, fuel as nat),
                    ),
                decreases cap - i,
            {
                if i >= cap {
                    proof {
                        lemma_walk_close(bytes@, compact, off, i, fuel as nat);
                    }
                    pos.index = None;
                    break;
                }
                proof {
                    lemma_mul_bound(i as nat, stride as nat, cap as nat);
                    assert(cap * stride <= o.spec_payload_size() - 8) by (nonlinear_arith)
                        requires
                            stride > 0,
                            o.spec_payload_size() >= 8,
                            cap == ((o.spec_payload_size() - 8) as u64) / stride,
                    ;
                }
                if items_start > u64::MAX - i * stride {
                    proof {
                        lemma_walk_idx_err(
                            bytes@,
                            compact,
                            off,
                            i,
                            fuel as nat,
                            JournalError::UnexpectedEof,
                        );
                    }
                    return Err(JournalError::UnexpectedEof);
                }
                let item_off = items_start + i * stride;
                let entry_off = match crate::objects::entry_array::read_array_item(
                    bytes,
                    item_off,
                    compact,
                ) {
                    Err(e) => {
                        proof {
                            lemma_walk_idx_err(bytes@, compact, off, i, fuel as nat, e);
                        }
                        return Err(e);
                    },
                    Ok(v) => v,
                };
                if entry_off == 0 {
                    proof {
                        lemma_walk_close(bytes@, compact, off, i, fuel as nat);
                    }
                    pos.index = None;
                    break;
                }
                let entry = match crate::objects::entry::Entry::read_at(bytes, entry_off, header) {
                    Err(e) => {
                        proof {
                            lemma_walk_idx_err(bytes@, compact, off, i, fuel as nat, e);
                        }
                        return Err(e);
                    },
                    Ok(en) => en,
                };
                let ghost before = out@;
                out.push(entry);
                proof {
                    lemma_walk_shift(bytes@, compact, off, i, fuel as nat);
                    assert(out@.subrange(0, base.len() as int) =~= base);
                    assert(entry_views(out@).skip(base.len() as int) =~= entry_views(before).skip(
                        base.len() as int,
                    ).push(entry@));
                    lemma_join_shift(
                        entry_views(before).skip(base.len() as int),
                        entry@,
                        spec_walk(bytes@, compact, off, Some((i + 1) as u64), fuel as nat),
                    );
                }
                i = i + 1;
            }
        }
        proof {
            assert(crate::objects::spec_read_object_header(bytes@, off) == Ok::<
                crate::objects::ObjectHeader,
                JournalError,
            >(o));
            assert(crate::objects::spec_bounds(bytes@, off, 16) is Ok);
            assert(off + 16 <= bytes@.len());
        }
        let ah = match crate::objects::entry_array::EntryArrayObjectHeader::read_at(
            bytes,
            off + 16,
        ) {
            Err(e) => {
                return Err(e);
            },
            Ok(a) => a,
        };
        match ah.next_entry_array_offset {
            None => {
                proof {
                    assert(spec_walk(bytes@, compact, off, None::<u64>, fuel as nat) == Ok::<
                        (Seq<crate::objects::entry::EntryView>, u64),
                        JournalError,
                    >((Seq::empty(), off)));
                    lemma_join_empty(entry_views(out@).skip(base.len() as int), off);
                }
                break;
            },
            Some(next) => {
                if fuel == 0 {
                    return Err(JournalError::InvalidData);
                }
                proof {
                    assert(spec_walk(bytes@, compact, off, None::<u64>, fuel as nat)
                        == spec_walk_join(
                        Seq::empty(),
                        spec_walk(bytes@, compact, next, Some(0u64), (fuel - 1) as nat),
                    ));
                    lemma_join_assoc(
                        entry_views(out@).skip(base.len() as int),
                        Seq::empty(),
                        spec_walk(bytes@, compact, next, Some(0u64), (fuel - 1) as nat),
                    );
                }
                fuel = fuel - 1;
                pos.entry_array_offset = next;
                pos.index = Some(0);
            },
        }
    }
    Ok(())
}

/// `i * stride` stays small while `i` is below the capacity (which a
/// file of representable size bounds).
proof fn lemma_mul_bound(i: nat, stride: nat, cap: nat)
    requires
        i < cap,
        stride >= 1,
    ensures
        i * stride < cap * stride,
    decreases 0nat,
{
    vstd::arithmetic::mul::lemma_mul_strict_inequality(i as int, cap as int, stride as int);
}

/// A read error at item `i` is the walk's error.
proof fn lemma_walk_idx_err(s: Seq<u8>, compact: bool, off: u64, i: u64, fuel: nat, e: JournalError)
    requires
        crate::objects::spec_read_object_header(s, off) matches Ok(o) && o.object_type
            == crate::objects::ObjectType::EntryArray,
        off + 24 <= u64::MAX,
        ({
            let o = crate::objects::spec_read_object_header(s, off).unwrap();
            let cap = spec_array_capacity(o, compact);
            &&& i < cap
            &&& if (off + 24) as u64 + i * spec_array_stride(compact) > u64::MAX {
                e == JournalError::UnexpectedEof
            } else {
                match crate::objects::entry_array::spec_read_array_item(
                    s,
                    ((off + 24) as u64 + i * spec_array_stride(compact)) as u64,
                    compact,
                ) {
                    Err(e2) => e == e2,
                    Ok(entry_off) => entry_off != 0
                        && crate::objects::entry::spec_read_entry(s, entry_off, compact) == Err::<
                        crate::objects::entry::EntryView,
                        JournalError,
                    >(e),
                }
            }
        }),
    ensures
        spec_walk(s, compact, off, Some(i), fuel) == Err::<
            (Seq<crate::objects::entry::EntryView>, u64),
            JournalError,
        >(e),
{
}

/// Reaching the capacity or a zero item parks the walk exactly where a
/// position without an index stands.
proof fn lemma_walk_close(s: Seq<u8>, compact: bool, off: u64, i: u64, fuel: nat)
    requires
        crate::objects::spec_read_object_header(s, off) matches Ok(o) && o.object_type
            == crate::objects::ObjectType::EntryArray,
        off + 24 <= u64::MAX,
        ({
            let o = crate::objects::spec_read_object_header(s, off).unwrap();
            let cap = spec_array_capacity(o, compact);
            i >= cap || (
            (off + 24) as u64 + i * spec_array_stride(compact) <= u64::MAX
                && crate::objects::entry_array::spec_read_array_item(
                s,
                ((off + 24) as u64 + i * spec_array_stride(compact)) as u64,
                compact,
            ) == Ok::<u64, JournalError>(0u64))
        }),
    ensures
        spec_walk(s, compact, off, Some(i), fuel) == spec_walk(s, compact, off, None::<u64>, fuel),
{
}

/// Yielding one entry advances the walk by one item.
proof fn lemma_walk_shift(s: Seq<u8>, compact: bool, off: u64, i: u64, fuel: nat)
    requires
        crate::objects::spec_read_object_header(s, off) matches Ok(o) && o.object_type
            == crate::objects::ObjectType::EntryArray,
        off + 24 <= u64::MAX,
        i < u64::MAX,
        ({
            let o = crate::objects::spec_read_object_header(s, off).unwrap();
            let cap = spec_array_capacity(o, compact);
            &&& i < cap
            &&& (off + 24) as u64 + i * spec_array_stride(compact) <= u64::MAX
            &&& match crate::objects::entry_array::spec_read_array_item(
                s,
                ((off + 24) as u64 + i * spec_array_stride(compact)) as u64,
                compact,
            ) {
                Ok(entry_off) => entry_off != 0 && crate::objects::entry::spec_read_entry(
                    s,
                    entry_off,
                    compact,
                ) is Ok,
                Err(_) => false,
            }
        }),
    ensures
        ({
            let o = crate::objects::spec_read_object_header(s, off).unwrap();
            let entry_off = crate::objects::entry_array::spec_read_array_item(
                s,
                ((off + 24) as u64 + i * spec_array_stride(compact)) as u64,
                compact,
            ).unwrap();
            let ev = crate::objects::entry::spec_read_entry(s, entry_off, compact).unwrap();
            spec_walk(s, compact, off, Some(i), fuel) == spec_walk_join(
                seq![ev],
                spec_walk(s, compact, off, Some((i + 1) as u64), fuel),
            )
        }),
{
    let o = crate::objects::spec_read_object_header(s, off).unwrap();
    let cap = spec_array_capacity(o, compact);
    let entry_off = crate::objects::entry_array::spec_read_array_item(
        s,
        ((off + 24) as u64 + i * spec_array_stride(compact)) as u64,
        compact,
    ).unwrap();
    let ev = crate::objects::entry::spec_read_entry(s, entry_off, compact).unwrap();
    assert(spec_drain(s, compact, (off + 24) as u64, cap, i) == (match spec_drain(
        s,
        compact,
        (off + 24) as u64,
        cap,
        (i + 1) as u64,
    ) {
        Err(e) => Err::<Seq<crate::objects::entry::EntryView>, JournalError>(e),
        Ok(rest) => Ok::<Seq<crate::objects::entry::EntryView>, JournalError>(seq![ev] + rest),
    }));
    match spec_drain(s, compact, (off + 24) as u64, cap, (i + 1) as u64) {
        Err(_) => {},
        Ok(rest) => {
            match crate::objects::entry_array::spec_read_entry_array_header(s, (off + 16) as u64) {
                Err(_) => {},
                Ok(ah) => {
                    match ah.next_entry_array_offset {
                        None => {
                            assert(spec_walk(s, compact, off, Some(i), fuel) == Ok::<
                                (Seq<crate::objects::entry::EntryView>, u64),
                                JournalError,
                            >((seq![ev] + rest, off)));
                        },
                        Some(next) => {
                            if fuel > 0 {
                                match spec_walk(s, compact, next, Some(0u64), (fuel - 1) as nat) {
                                    Err(_) => {},
                                    Ok((more, end)) => {
                                        assert((seq![ev] + rest) + more =~= seq![ev] + (rest
                                            + more));
                                    },
                                }
                            }
                        },
                    }
                },
            }
        },
    }
}

/// Joining is associative in its sequence argument.
proof fn lemma_join_assoc(
    a: Seq<crate::objects::entry::EntryView>,
    b: Seq<crate::objects::entry::EntryView>,
    rest: Result<(Seq<crate::objects::entry::EntryView>, u64), JournalError>,
)
    ensures
        spec_walk_join(a, spec_walk_join(b, rest)) == spec_walk_join(a + b, rest),
{
    match rest {
        Ok((more, end)) => {
            assert(a + (b + more) =~= (a + b) + more);
        },
        Err(_) => {},
    }
}

/// Pushing the yielded entry onto the accumulator matches prepending it
/// to the remaining walk.
proof fn lemma_join_shift(
    done: Seq<crate::objects::entry::EntryView>,
    ev: crate::objects::entry::EntryView,
    rest: Result<(Seq<crate::objects::entry::EntryView>, u64), JournalError>,
)
    ensures
        spec_walk_join(done, spec_walk_join(seq![ev], rest)) == spec_walk_join(done.push(ev), rest),
{
    match rest {
        Ok((more, end)) => {
            assert(done + (seq![ev] + more) =~= done.push(ev) + more);
        },
        Err(_) => {},
    }
}

/// A walk with nothing more to yield joins to its accumulator alone.
proof fn lemma_join_empty(done: Seq<crate::objects::entry::EntryView>, off: u64)
    ensures
        spec_walk_join(
            done,
            Ok::<(Seq<crate::objects::entry::EntryView>, u64), JournalError>((Seq::empty(), off)),
        ) == Ok::<(Seq<crate::objects::entry::EntryView>, u64), JournalError>((done, off)),
{
    assert(done + Seq::<crate::objects::entry::EntryView>::empty() =~= done);
}

/// The data objects an entry's items name, each materialized, in item
/// order.
pub open spec fn spec_entry_data(s: Seq<u8>, objects: Seq<u32>, compact: bool) -> Result<
    Seq<crate::objects::data::DataView>,
    JournalError,
>
    decreases objects.len(),
{
    if objects.len() == 0 {
        Ok(Seq::empty())
    } else {
        match crate::objects::data::spec_read_data(s, objects[0] as u64, compact) {
            Err(e) => Err(e),
            Ok(d) => {
                match spec_entry_data(s, objects.skip(1), compact) {
                    Err(e) => Err(e),
                    Ok(rest) => Ok(seq![d] + rest),
                }
            },
        }
    }
}

/// The models of a vector of data objects.
pub open spec fn data_views(v: Seq<crate::objects::data::Data>) -> Seq<
    crate::objects::data::DataView,
> {
    Seq::new(v.len(), |i: int| v[i]@)
}

impl JournalReader {
    /// Read every remaining entry, in order: the rest of the current
    /// file, then — whenever entries were yielded — the least archived
    /// file whose head sequence number lies beyond the last entry, and
    /// finally the live file once the archived files are exhausted.
    /// More rotations than the directory has files is a loop in
    /// malformed storage and is reported as invalid data.
    ///
    /// The result is exactly what [`spec_entries_outcome`] names for the
    /// starting state: the run of the session, or its first error.
    /// Over storage that holds one ordered logical journal
    /// (`dir_ordered`), reading from a fresh position therefore yields
    /// strictly increasing sequence numbers: entries are in order within
    /// each file and across the archived/live boundary, and none is
    /// repeated.
    #[verifier::rlimit(100)]
    #[verifier::spinoff_prover]
    pub fn entries(&mut self) -> (r: Result<Vec<crate::objects::entry::Entry>, JournalError>)
        requires
            old(self).wf(),
        ensures
            final(self).wf(),
            final(self).io.files == old(self).io.files,
            final(self).select == old(self).select,
            r is Ok ==> final(self).current is Some
                && final(self).current.unwrap().position.index is None,
            match spec_entries_outcome(*old(self)) {
                Ok(run) => r matches Ok(v) && entry_views(v@) == run,
                Err(e) => r == Err::<Vec<crate::objects::entry::Entry>, JournalError>(e),
            },
            ({
                &&& dir_ordered(old(self).io@.files)
                &&& old(self).position_fresh()
                &&& match old(self).select {
                    Some(sel) => FilenameInfoView::valid_scope(sel.scope@),
                    None => true,
                }
                &&& r is Ok
            }) ==> strictly_increasing(entry_seqnums(r.unwrap()@)),
    {
        let ghost hyp = dir_ordered(old(self).io@.files) && old(self).position_fresh() && (
        match old(self).select {
            Some(sel) => FilenameInfoView::valid_scope(sel.scope@),
            None => true,
        });
        let ghost outcome0 = spec_entries_outcome(*old(self));
        let ghost files0 = self.io@.files;
        let ghost selv = spec_select_view(self.select);
        if let Err(e) = self.load_if_needed() {
            return Err(e);
        }
        let mut out: Vec<crate::objects::entry::Entry> = Vec::new();
        let mut files_fuel: u64 = self.io.files.len() as u64;
        proof {
            assert(files_fuel as nat == files0.len());
            let s0 = spec_session(
                files0,
                selv,
                self.io@.open.unwrap(),
                self.current.unwrap().header,
                self.current.unwrap().position,
                spec_last_seqnum(out@),
                files_fuel as nat,
            );
            assert(outcome0 == s0);
            assert(spec_session_join(entry_views(out@), s0) == s0) by {
                match s0 {
                    Ok(more) => {
                        assert(entry_views(out@) + more =~= more);
                    },
                    Err(_) => {},
                }
            }
        }
        loop
            invariant_except_break
                self.wf(),
                self.current is Some,
                self.io@.open is Some,
                self.io.files == old(self).io.files,
                self.select == old(self).select,
                self.io@.files == old(self).io@.files,
                files0 == self.io@.files,
                selv == spec_select_view(self.select),
                outcome0 == spec_entries_outcome(*old(self)),
                outcome0 == spec_session_join(
                    entry_views(out@),
                    spec_session(
                        files0,
                        selv,
                        self.io@.open.unwrap(),
                        self.current.unwrap().header,
                        self.current.unwrap().position,
                        spec_last_seqnum(out@),
                        files_fuel as nat,
                    ),
                ),
                hyp == (dir_ordered(old(self).io@.files) && old(self).position_fresh() && (
                match old(self).select {
                    Some(sel) => FilenameInfoView::valid_scope(sel.scope@),
                    None => true,
                })),
                hyp ==> self.position_fresh(),
                hyp ==> strictly_increasing(entry_seqnums(out@)),
                hyp && out@.len() > 0 ==> self.cur_entries_beyond(
                    entry_seqnums(out@)[out@.len() - 1],
                ),
            ensures
                self.wf(),
                self.current is Some,
                self.io.files == old(self).io.files,
                self.select == old(self).select,
                self.current.unwrap().position.index is None,
                outcome0 == Ok::<Seq<crate::objects::entry::EntryView>, JournalError>(
                    entry_views(out@),
                ),
                hyp ==> strictly_increasing(entry_seqnums(out@)),
            decreases files_fuel,
        {
            let cf = match &self.current {
                Some(c) => *c,
                None => {
                    return Err(JournalError::NotConnected);
                },
            };
            let mut posn = cf.position;
            let ghost out_before = out@;
            let ghost oi = self.io@.open.unwrap();
            let ghost fuel0 = files_fuel as nat;
            let ghost session_here = spec_session(
                files0,
                selv,
                oi,
                cf.header,
                cf.position,
                spec_last_seqnum(out_before),
                fuel0,
            );
            let walk = {
                let bytes = match self.io.current_bytes() {
                    Err(e) => {
                        return Err(e);
                    },
                    Ok(b) => b,
                };
                collect_file_entries(bytes.as_slice(), &cf.header, &mut posn, &mut out)
            };
            if let Err(e) = walk {
                proof {
                    assert(session_here == Err::<
                        Seq<crate::objects::entry::EntryView>,
                        JournalError,
                    >(e)) by {
                        reveal(spec_session);
                    }
                }
                return Err(e);
            }
            let ghost got = entry_views(out@).skip(out_before.len() as int);
            proof {
                assert(spec_walk(
                    files0[oi].bytes,
                    cf.header.spec_is_compact(),
                    cf.position.entry_array_offset,
                    cf.position.index,
                    cf.header.n_objects as nat,
                ) == Ok::<(Seq<crate::objects::entry::EntryView>, u64), JournalError>(
                    (got, posn.entry_array_offset),
                ));
                if got.len() == 0 {
                    assert(out@ =~= out_before);
                } else {
                    assert(out@[out@.len() - 1] == out@[out_before.len() + (got.len() - 1)]);
                    assert(got[got.len() - 1] == entry_views(out@)[out@.len() - 1]);
                }
                assert(spec_last_seqnum(out@) == (if got.len() > 0 {
                    Some(got[got.len() - 1].header.seqnum)
                } else {
                    spec_last_seqnum(out_before)
                }));
            }
            proof {
                if hyp {
                    let f = self.io@.files[oi];
                    lemma_dir_file_ordered(files0, oi);
                    lemma_append_file_entries(f, cf.header, out_before, out@, posn.entry_array_offset);
                }
            }
            self.current = Some(CurrentFile { header: cf.header, position: posn });
            if out.len() == 0 {
                proof {
                    assert(got.len() == 0 && out_before.len() == 0);
                    assert(session_here == Ok::<
                        Seq<crate::objects::entry::EntryView>,
                        JournalError,
                    >(got)) by {
                        reveal(spec_session);
                    }
                    assert(entry_views(out_before) + got =~= entry_views(out@));
                    assert(got =~= entry_views(out@));
                }
                break;
            }
            let seq = out[out.len() - 1].header.seqnum;
            proof {
                assert(seq == entry_seqnums(out@)[out@.len() - 1]);
                assert(spec_last_seqnum(out@) == Some(seq));
            }
            proof {
                if hyp && named_archived(files0[oi]) {
                    let f = files0[oi];
                    lemma_dir_file_ordered(files0, oi);
                    lemma_exhausted_archived(f, cf.header, got, posn.entry_array_offset);
                    assert(seq == entries_of(f)[entries_of(f).len() - 1].header.seqnum);
                }
            }
            let ghost tgt = spec_handoff_target(files0, selv, oi, seq);
            let step = self.session_handoff(seq, Ghost(files0));
            match step {
                Err(e) => {
                    proof {
                        assert(session_here == Err::<
                            Seq<crate::objects::entry::EntryView>,
                            JournalError,
                        >(e)) by {
                            reveal(spec_session);
                            reveal(spec_session_open);
                        }
                    }
                    return Err(e);
                },
                Ok(false) => {
                    proof {
                        assert(session_here == Ok::<
                            Seq<crate::objects::entry::EntryView>,
                            JournalError,
                        >(got)) by {
                            reveal(spec_session);
                        }
                        assert(entry_views(out_before) + got =~= entry_views(out@));
                    }
                    break;
                },
                Ok(true) => {
                    if files_fuel == 0 {
                        proof {
                            assert(session_here == Err::<
                                Seq<crate::objects::entry::EntryView>,
                                JournalError,
                            >(JournalError::InvalidData)) by {
                                reveal(spec_session);
                                reveal(spec_session_open);
                            }
                        }
                        return Err(JournalError::InvalidData);
                    }
                    proof {
                        reveal(spec_session);
                        reveal(spec_session_open);
                        match tgt {
                            Ok(Some(name)) => {
                                let cont = spec_session_open(
                                    files0,
                                    selv,
                                    name,
                                    spec_last_seqnum(out@),
                                    fuel0,
                                );
                                assert(session_here == spec_session_join(got, cont));
                                lemma_session_continue(
                                    outcome0,
                                    entry_views(out_before),
                                    got,
                                    session_here,
                                    cont,
                                );
                                assert(entry_views(out_before) + got =~= entry_views(out@));
                                assert(cont == spec_session(
                                    files0,
                                    selv,
                                    self.io@.open.unwrap(),
                                    self.current.unwrap().header,
                                    self.current.unwrap().position,
                                    spec_last_seqnum(out@),
                                    (fuel0 - 1) as nat,
                                ));
                            },
                            _ => {
                                assert(false);
                            },
                        }
                    }
                    files_fuel = files_fuel - 1;
                },
            }
        }
        Ok(out)
    }

    /// Materialize the data objects of one entry out of the loaded
    /// file.
    pub fn entry_data(&self, entry: &crate::objects::entry::Entry) -> (r: Result<
        Vec<crate::objects::data::Data>,
        JournalError,
    >)
        requires
            self.wf(),
            self.current is Some,
        ensures
            match r {
                Ok(v) => spec_entry_data(
                    self.spec_open_bytes(),
                    entry.objects@,
                    self.current.unwrap().header.spec_is_compact(),
                ) == Ok::<Seq<crate::objects::data::DataView>, JournalError>(data_views(v@)),
                Err(e) => spec_entry_data(
                    self.spec_open_bytes(),
                    entry.objects@,
                    self.current.unwrap().header.spec_is_compact(),
                ) == Err::<Seq<crate::objects::data::DataView>, JournalError>(e),
            },
    {
        let compact = match &self.current {
            Some(c) => c.header.is_compact(),
            None => {
                return Err(JournalError::NotConnected);
            },
        };
        let bytes = match self.io.current_bytes() {
            Err(e) => {
                return Err(e);
            },
            Ok(b) => b,
        };
        let n = entry.objects.len();
        let mut out: Vec<crate::objects::data::Data> = Vec::new();
        let mut i: usize = 0;
        proof {
            assert(entry.objects@.skip(0) =~= entry.objects@);
        }
        while i < n
            invariant
                i <= n,
                n == entry.objects@.len(),
                compact == self.current.unwrap().header.spec_is_compact(),
                bytes@ == self.spec_open_bytes(),
                out@.len() == i,
                spec_entry_data(bytes@, entry.objects@, compact) == (match spec_entry_data(
                    bytes@,
                    entry.objects@.skip(i as int),
                    compact,
                ) {
                    Ok(rest) => Ok::<Seq<crate::objects::data::DataView>, JournalError>(
                        data_views(out@) + rest,
                    ),
                    Err(e) => Err::<Seq<crate::objects::data::DataView>, JournalError>(e),
                }),
            decreases n - i,
        {
            let off = entry.objects[i];
            let ghost tail = entry.objects@.skip(i as int);
            proof {
                assert(tail[0] == entry.objects@[i as int]);
            }
            let d = match crate::objects::data::Data::read_at(bytes.as_slice(), off as u64, compact) {
                Err(e) => {
                    return Err(e);
                },
                Ok(d) => d,
            };
            let ghost before = out@;
            out.push(d);
            i += 1;
            proof {
                assert(entry.objects@.skip(i - 1).skip(1) =~= entry.objects@.skip(i as int));
                match spec_entry_data(bytes@, entry.objects@.skip(i as int), compact) {
                    Ok(rest) => {
                        assert(data_views(out@) =~= data_views(before).push(d@));
                        assert(data_views(before) + (seq![d@] + rest) =~= data_views(out@) + rest);
                    },
                    Err(_) => {},
                }
            }
        }
        proof {
            assert(entry.objects@.skip(n as int) =~= Seq::<u32>::empty());
            assert(data_views(out@) + Seq::<crate::objects::data::DataView>::empty() =~= data_views(
                out@,
            ));
        }
        Ok(out)
    }
}

/// Capacity bound: a traversal of one entry array yields exactly
/// `min(first_zero_index, capacity)` entries, counted from the starting
/// index — one entry per item before the first zero item, none at or
/// beyond the capacity.
pub proof fn lemma_array_capacity_bound(
    s: Seq<u8>,
    compact: bool,
    items_start: u64,
    cap: u64,
    i: u64,
)
    requires
        i <= cap,
        spec_drain(s, compact, items_start, cap, i) is Ok,
    ensures
        ({
            let es = spec_drain(s, compact, items_start, cap, i).unwrap();
            &&& i + es.len() <= cap
            &&& forall|j: int|
                0 <= j < es.len() ==> (#[trigger] crate::objects::entry_array::spec_read_array_item(
                    s,
                    (items_start + (i + j) * spec_array_stride(compact)) as u64,
                    compact,
                ) matches Ok(v) && v != 0)
            &&& i + es.len() < cap ==> crate::objects::entry_array::spec_read_array_item(
                s,
                (items_start + (i + es.len()) * spec_array_stride(compact)) as u64,
                compact,
            ) == Ok::<u64, JournalError>(0u64)
        }),
    decreases cap - i,
{
    let es = spec_drain(s, compact, items_start, cap, i).unwrap();
    if i >= cap {
        assert(es.len() == 0);
    } else if items_start + i * spec_array_stride(compact) > u64::MAX {
        assert(false);
    } else {
        match crate::objects::entry_array::spec_read_array_item(
            s,
            (items_start + i * spec_array_stride(compact)) as u64,
            compact,
        ) {
            Err(_) => {
                assert(false);
            },
            Ok(v) => {
                if v == 0 {
                    assert(es.len() == 0);
                } else {
                    lemma_array_capacity_bound(s, compact, items_start, cap, (i + 1) as u64);
                    let rest = spec_drain(s, compact, items_start, cap, (i + 1) as u64).unwrap();
                    assert(es == seq![
                        crate::objects::entry::spec_read_entry(s, v, compact).unwrap(),
                    ] + rest);
                    assert forall|j: int|
                        0 <= j < es.len() implies (#[trigger] crate::objects::entry_array::spec_read_array_item(
                        s,
                        (items_start + (i + j) * spec_array_stride(compact)) as u64,
                        compact,
                    ) matches Ok(w) && w != 0) by {
                        if j > 0 {
                            assert((crate::objects::entry_array::spec_read_array_item(
                                s,
                                (items_start + ((i + 1) + (j - 1)) * spec_array_stride(compact)) as u64,
                                compact,
                            ) matches Ok(w) && w != 0));
                            assert((i + 1) + (j - 1) == i + j);
                        }
                    }
                    assert((i + 1) + rest.len() == i + es.len());
                }
            },
        }
    }
}

/// The sequence numbers of a run of entries.
pub open spec fn entry_seqnums(v: Seq<crate::objects::entry::Entry>) -> Seq<u64> {
    Seq::new(v.len(), |i: int| v[i].header.seqnum)
}

/// Strictly ascending, no value repeated.
pub open spec fn strictly_increasing(s: Seq<u64>) -> bool {
    forall|i: int, j: int| 0 <= i < j < s.len() ==> s[i] < s[j]
}

/// The whole walk of one stored file, from the head of its entry-array
/// chain.
#[verifier::opaque]
pub open spec fn spec_file_walk(f: StoredFileView) -> Result<
    (Seq<crate::objects::entry::EntryView>, u64),
    JournalError,
> {
    match crate::header::spec_parse_header(f.bytes) {
        Err(e) => Err(e),
        Ok(h) => spec_walk(
            f.bytes,
            h.spec_is_compact(),
            h.entry_array_offset,
            Some(0u64),
            h.n_objects as nat,
        ),
    }
}

/// The entries a stored file holds (empty when it cannot be walked).
#[verifier::opaque]
pub open spec fn entries_of(f: StoredFileView) -> Seq<crate::objects::entry::EntryView> {
    match spec_file_walk(f) {
        Ok((es, _)) => es,
        Err(_) => Seq::empty(),
    }
}

/// Whether the file's name parses as an archived journal filename.
#[verifier::opaque]
pub open spec fn named_archived(f: StoredFileView) -> bool {
    match crate::filename::spec_parse_filename(f.path) {
        Some(info) => info is Archived,
        None => false,
    }
}

/// Whether the file's name parses as a live journal filename.
#[verifier::opaque]
pub open spec fn named_latest(f: StoredFileView) -> bool {
    match crate::filename::spec_parse_filename(f.path) {
        Some(info) => info is Latest,
        None => false,
    }
}

/// The ordering invariant one journal file promises: its entries carry
/// strictly increasing sequence numbers, and an archived file's entries
/// exist and lie at or beyond the head sequence number its name claims.
#[verifier::opaque]
pub open spec fn file_ordered(f: StoredFileView) -> bool {
    match spec_file_walk(f) {
        Ok((es, _)) => {
            &&& strictly_increasing(Seq::new(es.len(), |i: int| es[i].header.seqnum))
            &&& match crate::filename::spec_parse_filename(f.path) {
                Some(crate::filename::FilenameInfoView::Archived { head_seqnum, .. }) => {
                    &&& es.len() > 0
                    &&& forall|i: int| 0 <= i < es.len() ==> es[i].header.seqnum >= head_seqnum
                },
                _ => true,
            }
        },
        Err(_) => true,
    }
}

/// Whether every entry of the live file `l` lies strictly beyond every
/// entry of the archived file `a`.
#[verifier::opaque]
pub open spec fn dominates(a: StoredFileView, l: StoredFileView) -> bool {
    forall|x: int, y: int|
        0 <= x < entries_of(a).len() && 0 <= y < entries_of(l).len() ==> (#[trigger] entries_of(
            a,
        )[x]).header.seqnum < (#[trigger] entries_of(l)[y]).header.seqnum
}

/// The ordering invariant of a whole directory holding one logical
/// journal: every file is internally ordered, and the live file
/// continues where the archived history ends.
#[verifier::opaque]
pub open spec fn dir_ordered(files: Seq<StoredFileView>) -> bool {
    &&& forall|k: int| 0 <= k < files.len() ==> file_ordered(#[trigger] files[k])
    &&& forall|k: int, j: int|
        0 <= k < files.len() && 0 <= j < files.len() && #[trigger] named_archived(files[k])
            && #[trigger] named_latest(files[j]) ==> dominates(files[k], files[j])
}

impl JournalReader {
    /// Whether every entry of the open file lies strictly beyond `last`.
    pub open spec fn cur_entries_beyond(self, last: u64) -> bool {
        match self.io@.open {
            Some(oi) => forall|y: int|
                0 <= y < entries_of(self.io@.files[oi]).len() ==> (#[trigger] entries_of(
                    self.io@.files[oi],
                )[y]).header.seqnum > last,
            None => true,
        }
    }

    /// Whether the loaded state points at the start of the open file:
    /// the header is the open file's and the position is initial.
    pub open spec fn position_fresh(self) -> bool {
        match self.current {
            None => true,
            Some(cf) => self.spec_open_header() == Ok::<crate::header::Header, JournalError>(
                cf.header,
            ) && cf.position == spec_initial_position(cf.header),
        }
    }
}

/// Where `spec_find_path` points, that file carries the path.
proof fn lemma_find_path_inverse(files: Seq<StoredFileView>, path: Seq<u8>, from: int)
    requires
        0 <= from,
    ensures
        match spec_find_path(files, path, from) {
            Some(j) => from <= j < files.len() && files[j].path == path,
            None => true,
        },
    decreases files.len() - from,
{
    if from < files.len() && files[from].path != path {
        lemma_find_path_inverse(files, path, from + 1);
    }
}

/// Every listed filename is the well-formed parse of some stored file.
proof fn lemma_listed_wf(files: Seq<StoredFileView>, prefix: Option<Seq<u8>>, k: int)
    requires
        0 <= k < spec_list_files(files, prefix).len(),
    ensures
        spec_list_files(files, prefix)[k].wf(),
    decreases files.len(),
{
    let listed = spec_list_files(files, prefix);
    let rest = spec_list_files(files.drop_last(), prefix);
    if spec_listed(files.last(), prefix) && k == listed.len() - 1 {
        crate::filename::lemma_parse_filename_wf(files.last().path);
    } else {
        lemma_listed_wf(files.drop_last(), prefix, k);
    }
}

/// A strictly increasing run repeats nothing: reading across the
/// archival/live boundary never yields an entry twice.
pub proof fn lemma_increasing_distinct(s: Seq<u64>)
    requires
        strictly_increasing(s),
    ensures
        forall|i: int, j: int| 0 <= i < j < s.len() ==> s[i] != s[j],
{
}

/// Appending a run whose members all lie beyond the last element keeps
/// strict ascent.
proof fn lemma_concat_increasing(a: Seq<u64>, b: Seq<u64>)
    requires
        strictly_increasing(a),
        strictly_increasing(b),
        a.len() > 0 && b.len() > 0 ==> forall|y: int| 0 <= y < b.len() ==> a[a.len() - 1] < b[y],
    ensures
        strictly_increasing(a + b),
{
    assert forall|i: int, j: int| 0 <= i < j < (a + b).len() implies (a + b)[i] < (a + b)[j] by {
        if j < a.len() {
        } else if i >= a.len() {
            assert((a + b)[i] == b[i - a.len()]);
            assert((a + b)[j] == b[j - a.len()]);
        } else {
            assert((a + b)[i] == a[i]);
            assert((a + b)[j] == b[j - a.len()]);
            assert(a[i] <= a[a.len() - 1]) by {
                if i < a.len() - 1 {
                    assert(a[i] < a[a.len() - 1]);
                }
            }
        }
    }
}

/// Whether an archived filename is a handoff candidate: its head
/// sequence number lies strictly beyond the last yielded entry.
pub open spec fn is_candidate(info: FilenameInfoView, seq: u64) -> bool {
    match info {
        FilenameInfoView::Archived { head_seqnum, .. } => head_seqnum > seq,
        FilenameInfoView::Latest { .. } => false,
    }
}

/// The handoff candidates among the listed filenames, in listing order.
pub open spec fn spec_candidates(listed: Seq<FilenameInfoView>, seq: u64) -> Seq<FilenameInfoView>
    decreases listed.len(),
{
    if listed.len() == 0 {
        Seq::empty()
    } else {
        let rest = spec_candidates(listed.drop_last(), seq);
        if is_candidate(listed.last(), seq) {
            rest.push(listed.last())
        } else {
            rest
        }
    }
}

/// The least filename of a nonempty run, by the filename order (equal
/// keys carry equal values, so the choice is unambiguous).
pub open spec fn spec_min_file(s: Seq<FilenameInfoView>) -> FilenameInfoView
    recommends
        s.len() > 0,
    decreases s.len(),
{
    if s.len() <= 1 {
        s[0]
    } else {
        let m = spec_min_file(s.drop_last());
        if crate::order::file_lt(s.last(), m) {
            s.last()
        } else {
            m
        }
    }
}


/// Where the session turns after exhausting a file, given the last
/// yielded sequence number: the path of the least archived candidate,
/// the live file's path when the current file is archived and no
/// candidate remains, or nowhere.
pub open spec fn spec_handoff_target(
    files: Seq<StoredFileView>,
    select: Option<JournalSelectionView>,
    open: int,
    seq: u64,
) -> Result<Option<Seq<u8>>, JournalError> {
    match select {
        None => Err(JournalError::NotConnected),
        Some(sel) => {
            let listed = spec_list_files(files, Some(spec_make_prefix(sel)));
            let cands = spec_candidates(listed, seq);
            if cands.len() > 0 {
                let c = spec_min_file(cands);
                if c.scope().len() + 200 > usize::MAX {
                    Err(JournalError::NotFound)
                } else {
                    Ok(Some(spec_make_filename(c)))
                }
            } else {
                let cur_archived = match crate::filename::spec_parse_filename(files[open].path) {
                    Some(info) => info is Archived,
                    None => false,
                };
                if !cur_archived {
                    Ok(None)
                } else {
                    Ok(
                        Some(
                            spec_make_filename(
                                FilenameInfoView::Latest {
                                    machine_id: sel.machine_id,
                                    scope: sel.scope,
                                },
                            ),
                        ),
                    )
                }
            }
        },
    }
}

/// What one reading session yields from a loaded file to the end of the
/// journal: the remaining walk of the loaded file, then — for as long as
/// anything has been yielded — the least archived file whose name's head
/// sequence number lies beyond the last entry, and the live file once
/// the current file is archived and no candidate remains.  `last` is the
/// sequence number of the last entry yielded before this file, `fuel`
/// bounds the rotations.
#[verifier::opaque]
pub open spec fn spec_session(
    files: Seq<StoredFileView>,
    select: Option<JournalSelectionView>,
    open: int,
    header: crate::header::Header,
    pos: Position,
    last: Option<u64>,
    fuel: nat,
) -> Result<Seq<crate::objects::entry::EntryView>, JournalError>
    recommends
        0 <= open < files.len(),
    decreases fuel, 1int,
{
    match spec_walk(
        files[open].bytes,
        header.spec_is_compact(),
        pos.entry_array_offset,
        pos.index,
        header.n_objects as nat,
    ) {
        Err(e) => Err(e),
        Ok((got, _)) => {
            let last2 = if got.len() > 0 {
                Some(got[got.len() - 1].header.seqnum)
            } else {
                last
            };
            match last2 {
                None => Ok(got),
                Some(seq) => match spec_handoff_target(files, select, open, seq) {
                    Err(e) => Err(e),
                    Ok(None) => Ok(got),
                    Ok(Some(name)) => match spec_session_open(files, select, name, last2, fuel) {
                        Err(e) => Err(e),
                        Ok(more) => Ok(got + more),
                    },
                },
            }
        },
    }
}

/// Open the file stored at exactly `name`, load its header, and read it
/// to the end of the journal.
#[verifier::opaque]
pub open spec fn spec_session_open(
    files: Seq<StoredFileView>,
    select: Option<JournalSelectionView>,
    name: Seq<u8>,
    last: Option<u64>,
    fuel: nat,
) -> Result<Seq<crate::objects::entry::EntryView>, JournalError>
    decreases fuel, 0int,
{
    match spec_find_path(files, name, 0) {
        None => Err(JournalError::NotFound),
        Some(j) => match crate::header::spec_parse_header(files[j].bytes) {
            Err(e) => Err(e),
            Ok(h) => {
                if fuel == 0 {
                    Err(JournalError::InvalidData)
                } else {
                    spec_session(
                        files,
                        select,
                        j,
                        h,
                        spec_initial_position(h),
                        last,
                        (fuel - 1) as nat,
                    )
                }
            },
        },
    }
}

/// What the whole of `entries` yields for a reader state: nothing can be
/// read without an open file; otherwise the session runs from the loaded
/// state, or from a freshly parsed header when none is loaded yet.
pub open spec fn spec_entries_outcome(r0: JournalReader) -> Result<
    Seq<crate::objects::entry::EntryView>,
    JournalError,
> {
    let selv = spec_select_view(r0.select);
    match r0.io@.open {
        None => Err(JournalError::NotConnected),
        Some(oi) => match r0.current {
            Some(cf0) => spec_session(
                r0.io@.files,
                selv,
                oi,
                cf0.header,
                cf0.position,
                None,
                r0.io@.files.len(),
            ),
            None => match crate::header::spec_parse_header(r0.io@.files[oi].bytes) {
                Err(e) => Err(e),
                Ok(h) => spec_session(
                    r0.io@.files,
                    selv,
                    oi,
                    h,
                    spec_initial_position(h),
                    None,
                    r0.io@.files.len(),
                ),
            },
        },
    }
}

/// Prepend already-yielded entries to the outcome of the rest of a
/// session.
pub open spec fn spec_session_join(
    done: Seq<crate::objects::entry::EntryView>,
    rest: Result<Seq<crate::objects::entry::EntryView>, JournalError>,
) -> Result<Seq<crate::objects::entry::EntryView>, JournalError> {
    match rest {
        Ok(more) => Ok(done + more),
        Err(e) => Err(e),
    }
}


/// The model of an optional selection.
pub open spec fn spec_select_view(s: Option<JournalSelection>) -> Option<JournalSelectionView> {
    match s {
        Some(sel) => Some(sel@),
        None => None,
    }
}

/// The sequence number of the last entry of a run, if any.
pub open spec fn spec_last_seqnum(v: Seq<crate::objects::entry::Entry>) -> Option<u64> {
    if v.len() > 0 {
        Some(v[v.len() - 1].header.seqnum)
    } else {
        None
    }
}

/// Stepping the session into the next file: what was yielded so far
/// plus this file's entries joins with the continuation.
proof fn lemma_session_continue(
    outcome0: Result<Seq<crate::objects::entry::EntryView>, JournalError>,
    done: Seq<crate::objects::entry::EntryView>,
    got: Seq<crate::objects::entry::EntryView>,
    session_here: Result<Seq<crate::objects::entry::EntryView>, JournalError>,
    cont: Result<Seq<crate::objects::entry::EntryView>, JournalError>,
)
    requires
        outcome0 == spec_session_join(done, session_here),
        session_here == spec_session_join(got, cont),
    ensures
        outcome0 == spec_session_join(done + got, cont),
{
    lemma_session_join_assoc(done, got, cont);
}


/// Appending one ordered file's walk to an ordered run whose last entry
/// every new entry exceeds keeps the run ordered.
proof fn lemma_append_file_entries(
    f: StoredFileView,
    header: crate::header::Header,
    out_before: Seq<crate::objects::entry::Entry>,
    out_now: Seq<crate::objects::entry::Entry>,
    end: u64,
)
    requires
        file_ordered(f),
        crate::header::spec_parse_header(f.bytes) == Ok::<crate::header::Header, JournalError>(
            header,
        ),
        spec_walk(
            f.bytes,
            header.spec_is_compact(),
            header.entry_array_offset,
            Some(0u64),
            header.n_objects as nat,
        ) == Ok::<(Seq<crate::objects::entry::EntryView>, u64), JournalError>(
            (entry_views(out_now).skip(out_before.len() as int), end),
        ),
        out_now.len() >= out_before.len(),
        out_now.subrange(0, out_before.len() as int) == out_before,
        strictly_increasing(entry_seqnums(out_before)),
        out_before.len() > 0 ==> forall|y: int|
            0 <= y < entries_of(f).len() ==> (#[trigger] entries_of(f)[y]).header.seqnum
                > entry_seqnums(out_before)[out_before.len() - 1],
    ensures
        strictly_increasing(entry_seqnums(out_now)),
        entries_of(f) == entry_views(out_now).skip(out_before.len() as int),
{
    reveal(spec_file_walk);
    reveal(entries_of);
    reveal(file_ordered);
    assert(spec_file_walk(f) == Ok::<(Seq<crate::objects::entry::EntryView>, u64), JournalError>(
        (entry_views(out_now).skip(out_before.len() as int), end),
    ));
    let fresh_entries = entries_of(f);
    assert(fresh_entries == entry_views(out_now).skip(out_before.len() as int));
    let new_seqs = entry_seqnums(out_now).skip(out_before.len() as int);
    assert(new_seqs =~= Seq::new(fresh_entries.len(), |i: int| fresh_entries[i].header.seqnum))
        by {
        assert(forall|i: int|
            0 <= i < new_seqs.len() ==> new_seqs[i] == entry_seqnums(out_now)[out_before.len()
                + i]);
        assert(forall|i: int|
            0 <= i < fresh_entries.len() ==> fresh_entries[i] == entry_views(out_now)[
                out_before.len() + i
            ]);
    }
    assert(strictly_increasing(new_seqs));
    if out_before.len() > 0 {
        assert(forall|y: int|
            0 <= y < new_seqs.len() ==> entry_seqnums(out_before)[out_before.len() - 1]
                < new_seqs[y]);
    }
    assert(entry_seqnums(out_before) =~= entry_seqnums(out_now).take(out_before.len() as int)) by {
        assert(forall|i: int| 0 <= i < out_before.len() ==> out_now[i] == out_before[i]);
    }
    lemma_concat_increasing(entry_seqnums(out_before), new_seqs);
    assert(entry_seqnums(out_now) =~= entry_seqnums(out_before) + new_seqs);
}

/// The file a handoff candidate names holds only entries beyond the last
/// yielded sequence number: its name's head lies beyond it and an
/// ordered archived file holds nothing below its head.
proof fn lemma_candidate_beyond(
    files: Seq<StoredFileView>,
    prefix: Seq<u8>,
    bidx: int,
    name: Seq<u8>,
    j: int,
    seq: u64,
)
    requires
        dir_ordered(files),
        0 <= bidx < spec_list_files(files, Some(prefix)).len(),
        is_candidate(spec_list_files(files, Some(prefix))[bidx], seq),
        name == spec_make_filename(spec_list_files(files, Some(prefix))[bidx]),
        0 <= j < files.len(),
        files[j].path == name,
    ensures
        forall|y: int|
            0 <= y < entries_of(files[j]).len() ==> (#[trigger] entries_of(files[j])[y]).header.seqnum
                > seq,
{
    reveal(dir_ordered);
    reveal(file_ordered);
    reveal(entries_of);
    reveal(named_archived);
    reveal(spec_file_walk);
    let c = spec_list_files(files, Some(prefix))[bidx];
    lemma_listed_wf(files, Some(prefix), bidx);
    crate::filename::lemma_filename_roundtrip(c);
    assert(named_archived(files[j]));
    assert(file_ordered(files[j]));
    assert forall|y: int| 0 <= y < entries_of(files[j]).len() implies (#[trigger] entries_of(
        files[j],
    )[y]).header.seqnum > seq by {
        assert(entries_of(files[j])[y].header.seqnum >= c->Archived_head_seqnum);
    }
}

/// The live file holds only entries beyond the last entry of an
/// archived file that was just read to its end.
proof fn lemma_live_beyond(
    files: Seq<StoredFileView>,
    last_file: StoredFileView,
    sel: JournalSelectionView,
    j: int,
    seq: u64,
)
    requires
        dir_ordered(files),
        FilenameInfoView::valid_scope(sel.scope),
        exists|k: int| 0 <= k < files.len() && files[k] == last_file,
        named_archived(last_file),
        entries_of(last_file).len() > 0,
        seq == entries_of(last_file)[entries_of(last_file).len() - 1].header.seqnum,
        0 <= j < files.len(),
        files[j].path == spec_make_filename(
            FilenameInfoView::Latest { machine_id: sel.machine_id, scope: sel.scope },
        ),
    ensures
        forall|y: int|
            0 <= y < entries_of(files[j]).len() ==> (#[trigger] entries_of(files[j])[y]).header.seqnum
                > seq,
{
    reveal(dir_ordered);
    reveal(named_archived);
    reveal(named_latest);
    reveal(dominates);
    let lv = FilenameInfoView::Latest { machine_id: sel.machine_id, scope: sel.scope };
    crate::filename::lemma_filename_roundtrip(lv);
    assert(named_latest(files[j]));
    let k = choose|k: int| 0 <= k < files.len() && files[k] == last_file;
    assert(named_archived(files[k]));
    assert(dominates(files[k], files[j]));
    assert forall|y: int| 0 <= y < entries_of(files[j]).len() implies (#[trigger] entries_of(
        files[j],
    )[y]).header.seqnum > seq by {
        assert(entries_of(last_file)[entries_of(last_file).len() - 1].header.seqnum < entries_of(
            files[j],
        )[y].header.seqnum);
    }
}

/// The position of the least handoff candidate among the listed
/// filenames: the length of the listing when there is none.
fn find_best_candidate(infos: &Vec<FilenameInfo>, seq: u64, Ghost(listed): Ghost<Seq<FilenameInfoView>>) -> (best: usize)
    requires
        infos@.len() == listed.len(),
        forall|i: int| 0 <= i < listed.len() ==> infos@[i]@ == listed[i],
    ensures
        best <= infos@.len(),
        (best == infos@.len()) <==> spec_candidates(listed, seq).len() == 0,
        best < infos@.len() ==> is_candidate(infos@[best as int]@, seq) && infos@[best as int]@
            == spec_min_file(spec_candidates(listed, seq)),
{
    let m = infos.len();
    let mut best: usize = m;
    let mut k: usize = 0;
    proof {
        assert(listed.take(0) =~= Seq::<FilenameInfoView>::empty());
    }
    while k < m
        invariant
            k <= m,
            m == infos@.len() == listed.len(),
            forall|i: int| 0 <= i < m ==> infos@[i]@ == listed[i],
            best <= m,
            (best == m) <==> spec_candidates(listed.take(k as int), seq).len() == 0,
            best < m ==> is_candidate(infos@[best as int]@, seq) && infos@[best as int]@
                == spec_min_file(spec_candidates(listed.take(k as int), seq)),
        decreases m - k,
    {
        let ghost ck = spec_candidates(listed.take(k as int), seq);
        proof {
            assert(listed.take(k + 1).drop_last() =~= listed.take(k as int));
            assert(listed.take(k + 1).last() == listed[k as int]);
        }
        let candidate = match &infos[k] {
            FilenameInfo::Archived { head_seqnum, .. } => *head_seqnum > seq,
            FilenameInfo::Latest { .. } => false,
        };
        if candidate {
            proof {
                assert(spec_candidates(listed.take(k + 1), seq) =~= ck.push(listed[k as int]));
                if ck.len() > 0 {
                    assert(ck.push(listed[k as int]).drop_last() =~= ck);
                    assert(ck.push(listed[k as int]).last() == listed[k as int]);
                }
            }
            if best == m {
                best = k;
            } else {
                let c = crate::order::filename_cmp(&infos[k], &infos[best]);
                if matches!(c, core::cmp::Ordering::Less) {
                    best = k;
                }
            }
        } else {
            proof {
                assert(spec_candidates(listed.take(k + 1), seq) =~= ck);
            }
        }
        k += 1;
    }
    proof {
        assert(listed.take(m as int) =~= listed);
    }
    best
}


/// The least element of a nonempty run is one of its members.
proof fn lemma_min_member(s: Seq<FilenameInfoView>)
    requires
        s.len() > 0,
    ensures
        exists|i: int| 0 <= i < s.len() && s[i] == spec_min_file(s),
    decreases s.len(),
{
    if s.len() > 1 {
        let m = spec_min_file(s.drop_last());
        if !crate::order::file_lt(s.last(), m) {
            lemma_min_member(s.drop_last());
            let i = choose|i: int| 0 <= i < s.drop_last().len() && s.drop_last()[i] == m;
            assert(s[i] == m);
        }
    }
}

/// Every handoff candidate is a listed filename whose head lies beyond
/// the last yielded sequence number.
proof fn lemma_candidates_member(listed: Seq<FilenameInfoView>, seq: u64, x: FilenameInfoView)
    requires
        exists|i: int|
            0 <= i < spec_candidates(listed, seq).len() && spec_candidates(listed, seq)[i] == x,
    ensures
        exists|i: int| 0 <= i < listed.len() && listed[i] == x && is_candidate(listed[i], seq),
    decreases listed.len(),
{
    let cands = spec_candidates(listed, seq);
    let rest = spec_candidates(listed.drop_last(), seq);
    let i = choose|i: int| 0 <= i < cands.len() && cands[i] == x;
    if is_candidate(listed.last(), seq) && i == cands.len() - 1 {
        assert(listed[listed.len() - 1] == x);
    } else {
        assert(rest[i] == x);
        lemma_candidates_member(listed.drop_last(), seq, x);
        let k = choose|k: int|
            0 <= k < listed.drop_last().len() && listed.drop_last()[k] == x && is_candidate(
                listed.drop_last()[k],
                seq,
            );
        assert(listed[k] == x);
    }
}

/// The least handoff candidate is itself a listed candidate.
proof fn lemma_min_is_listed(listed: Seq<FilenameInfoView>, seq: u64)
    requires
        spec_candidates(listed, seq).len() > 0,
    ensures
        exists|bidx: int|
            0 <= bidx < listed.len() && listed[bidx] == spec_min_file(
                spec_candidates(listed, seq),
            ) && is_candidate(listed[bidx], seq),
{
    let cands = spec_candidates(listed, seq);
    lemma_min_member(cands);
    lemma_candidates_member(listed, seq, spec_min_file(cands));
    let bidx = choose|i: int|
        0 <= i < listed.len() && listed[i] == spec_min_file(cands) && is_candidate(
            listed[i],
            seq,
        );
    assert(0 <= bidx < listed.len() && listed[bidx] == spec_min_file(cands) && is_candidate(
        listed[bidx],
        seq,
    ));
}


impl JournalReader {
    /// Decide and perform one cross-file handoff after a file has been
    /// exhausted with `seq` as the last yielded sequence number: open
    /// and load the file that [`spec_handoff_target`] names, or report
    /// that the session is over (`Ok(false)`).
    fn session_handoff(&mut self, seq: u64, Ghost(files0): Ghost<Seq<StoredFileView>>) -> (r:
        Result<bool, JournalError>)
        requires
            old(self).wf(),
            old(self).current is Some,
            old(self).io@.open is Some,
            files0 == old(self).io@.files,
        ensures
            final(self).wf(),
            final(self).io.files == old(self).io.files,
            final(self).select == old(self).select,
            final(self).io@.files == files0,
            match spec_handoff_target(
                files0,
                spec_select_view(old(self).select),
                old(self).io@.open.unwrap(),
                seq,
            ) {
                Err(e) => r == Err::<bool, JournalError>(e),
                Ok(None) => r == Ok::<bool, JournalError>(false) && final(self).io@.open == old(
                    self,
                ).io@.open && final(self).current == old(self).current,
                Ok(Some(name)) => match spec_find_path(files0, name, 0) {
                    None => r == Err::<bool, JournalError>(JournalError::NotFound),
                    Some(j) => match crate::header::spec_parse_header(files0[j].bytes) {
                        Err(e) => r == Err::<bool, JournalError>(e),
                        Ok(h) => r == Ok::<bool, JournalError>(true) && final(self).io@.open
                            == Some(j) && final(self).current == Some(
                            CurrentFile { header: h, position: spec_initial_position(h) },
                        ),
                    },
                },
            },
            r == Ok::<bool, JournalError>(true) ==> final(self).position_fresh(),
            ({
                &&& dir_ordered(files0)
                &&& match spec_select_view(old(self).select) {
                    Some(sel) => FilenameInfoView::valid_scope(sel.scope),
                    None => true,
                }
                &&& (named_archived(files0[old(self).io@.open.unwrap()]) ==> entries_of(
                    files0[old(self).io@.open.unwrap()],
                ).len() > 0 && seq == entries_of(files0[old(self).io@.open.unwrap()])[entries_of(
                    files0[old(self).io@.open.unwrap()],
                ).len() - 1].header.seqnum)
                &&& r == Ok::<bool, JournalError>(true)
            }) ==> final(self).cur_entries_beyond(seq),
    {
        let ghost oi = self.io@.open.unwrap();
        let ghost hyp = dir_ordered(files0) && (match spec_select_view(self.select) {
            Some(sel) => FilenameInfoView::valid_scope(sel.scope),
            None => true,
        }) && (named_archived(files0[oi]) ==> entries_of(files0[oi]).len() > 0 && seq
            == entries_of(files0[oi])[entries_of(files0[oi]).len() - 1].header.seqnum);
        let (selected, prefix) = match self.selected_journal() {
            Err(e) => {
                return Err(e);
            },
            Ok(sp) => sp,
        };
        let infos = self.io.list_files(Some(&prefix));
        let ghost listed = spec_list_files(self.io@.files, Some(prefix@));
        let ghost cands = spec_candidates(listed, seq);
        let m = infos.len();
        let best = find_best_candidate(&infos, seq, Ghost(listed));
        if best < m {
            let name = match make_filename_bounded(&infos[best]) {
                None => {
                    return Err(JournalError::NotFound);
                },
                Some(n) => n,
            };
            let ghost c = infos@[best as int]@;
            if let Err(e) = self.io.open(name.as_slice()) {
                return Err(e);
            }
            proof {
                if hyp {
                    let j = self.io@.open.unwrap();
                    lemma_find_path_inverse(self.io@.files, name@, 0);
                    lemma_min_is_listed(listed, seq);
                    let bidx = choose|bidx: int|
                        0 <= bidx < listed.len() && listed[bidx] == spec_min_file(cands)
                            && is_candidate(listed[bidx], seq);
                    lemma_candidate_beyond(files0, prefix@, bidx, name@, j, seq);
                }
            }
            if let Err(e) = self.load() {
                return Err(e);
            }
            Ok(true)
        } else {
            let archived = match self.io.current() {
                Some(p) => match parse_filename(p.as_slice()) {
                    Some(info) => info.is_archived(),
                    None => false,
                },
                None => false,
            };
            if !archived {
                return Ok(false);
            }
            let ghost last_file = self.io@.files[oi];
            let latest = make_filename(
                &FilenameInfo::Latest { machine_id: selected.machine_id, scope: selected.scope },
            );
            if let Err(e) = self.io.open(latest.as_slice()) {
                return Err(e);
            }
            proof {
                if hyp {
                    reveal(named_archived);
                    let sel = self.select.unwrap();
                    let j = self.io@.open.unwrap();
                    lemma_find_path_inverse(self.io@.files, latest@, 0);
                    assert(named_archived(last_file));
                    assert(exists|k: int| 0 <= k < files0.len() && files0[k] == last_file) by {
                        assert(files0[oi] == last_file);
                    }
                    lemma_live_beyond(files0, last_file, sel@, j, seq);
                }
            }
            if let Err(e) = self.load() {
                return Err(e);
            }
            Ok(true)
        }
    }
}


/// Every file of an ordered directory is itself ordered.
proof fn lemma_dir_file_ordered(files: Seq<StoredFileView>, k: int)
    requires
        dir_ordered(files),
        0 <= k < files.len(),
    ensures
        file_ordered(files[k]),
{
    reveal(dir_ordered);
}

/// An ordered, archived-named file that was walked to its end yielded
/// its whole entry run, which is never empty.
proof fn lemma_exhausted_archived(
    f: StoredFileView,
    header: crate::header::Header,
    got: Seq<crate::objects::entry::EntryView>,
    end: u64,
)
    requires
        file_ordered(f),
        named_archived(f),
        crate::header::spec_parse_header(f.bytes) == Ok::<crate::header::Header, JournalError>(
            header,
        ),
        spec_walk(
            f.bytes,
            header.spec_is_compact(),
            header.entry_array_offset,
            Some(0u64),
            header.n_objects as nat,
        ) == Ok::<(Seq<crate::objects::entry::EntryView>, u64), JournalError>((got, end)),
    ensures
        entries_of(f) == got,
        got.len() > 0,
{
    reveal(spec_file_walk);
    reveal(entries_of);
    reveal(file_ordered);
    reveal(named_archived);
}


/// The least filename of a run lies at or below every member.
proof fn lemma_min_is_least(s: Seq<FilenameInfoView>)
    requires
        s.len() > 0,
    ensures
        forall|k: int| 0 <= k < s.len() ==> crate::order::file_le(spec_min_file(s), #[trigger] s[k]),
    decreases s.len(),
{
    if s.len() == 1 {
        crate::order::lemma_file_le_refl(s[0]);
    } else {
        let m = spec_min_file(s.drop_last());
        lemma_min_is_least(s.drop_last());
        assert forall|k: int| 0 <= k < s.len() implies crate::order::file_le(
            spec_min_file(s),
            #[trigger] s[k],
        ) by {
            if crate::order::file_lt(s.last(), m) {
                if k < s.len() - 1 {
                    assert(crate::order::file_le(m, s.drop_last()[k]));
                    crate::order::lemma_file_lt_le_trans(s.last(), m, s[k]);
                } else {
                    crate::order::lemma_file_le_refl(s.last());
                }
            } else {
                if k < s.len() - 1 {
                    assert(crate::order::file_le(m, s.drop_last()[k]));
                } else {
                    if !crate::order::file_lt(m, s.last()) {
                        crate::order::lemma_file_lt_total(s.last(), m);
                        crate::order::lemma_file_eq_is_eq(s.last(), m);
                    }
                    crate::order::lemma_file_le_refl(m);
                }
            }
        }
    }
}

/// A member that lies at or below every member is the least one.
proof fn lemma_min_unique(s: Seq<FilenameInfoView>, x: FilenameInfoView)
    requires
        s.len() > 0,
        exists|i: int| 0 <= i < s.len() && s[i] == x,
        forall|k: int| 0 <= k < s.len() ==> crate::order::file_le(x, #[trigger] s[k]),
    ensures
        x == spec_min_file(s),
{
    lemma_min_member(s);
    lemma_min_is_least(s);
    let m = spec_min_file(s);
    let i = choose|i: int| 0 <= i < s.len() && s[i] == x;
    assert(crate::order::file_le(x, m)) by {
        let j = choose|j: int| 0 <= j < s.len() && s[j] == m;
        assert(crate::order::file_le(x, s[j]));
    }
    assert(crate::order::file_le(m, x)) by {
        assert(crate::order::file_le(m, s[i]));
    }
    if crate::order::file_lt(x, m) {
        crate::order::lemma_file_lt_asym(x, m);
        crate::order::lemma_file_eq_is_eq(m, x);
    } else if crate::order::file_lt(m, x) {
        crate::order::lemma_file_lt_asym(m, x);
        crate::order::lemma_file_eq_is_eq(x, m);
    } else {
        crate::order::lemma_file_lt_total(x, m);
        crate::order::lemma_file_eq_is_eq(x, m);
    }
}

/// Session joining is associative in its sequence argument.
proof fn lemma_session_join_assoc(
    a: Seq<crate::objects::entry::EntryView>,
    b: Seq<crate::objects::entry::EntryView>,
    rest: Result<Seq<crate::objects::entry::EntryView>, JournalError>,
)
    ensures
        spec_session_join(a, spec_session_join(b, rest)) == spec_session_join(a + b, rest),
{
    match rest {
        Ok(more) => {
            assert(a + (b + more) =~= (a + b) + more);
        },
        Err(_) => {},
    }
}

/// Whether two byte strings are equal.
pub fn bytes_eq(a: &Vec<u8>, b: &[u8]) -> (r: bool)
    ensures
        r == (a@ == b@),
{
    let an = a.len();
    let bn = b.len();
    if an != bn {
        proof {
            assert(a@ != b@);
        }
        return false;
    }
    let mut i: usize = 0;
    while i < an
        invariant
            i <= an,
            an == a@.len() && an == b@.len(),
            forall|j: int| 0 <= j < i ==> a@[j] == b@[j],
        decreases an - i,
    {
        if a[i] != b[i] {
            return false;
        }
        i += 1;
    }
    proof {
        assert(a@ =~= b@);
    }
    true
}

} // verus!
