//! The journal filename scheme.
//!
//! A live file is named `<machine-id-hex>/<scope>.journal`; an archived
//! file is named
//! `<machine-id-hex>/<scope>@<file-seqnum-hex>-<head-seqnum-hex>-<head-realtime-hex>.journal`.
//! Identifiers are 32 lowercase hex digits, sequence numbers and
//! timestamps 16, most significant digit first.  Paths are byte strings;
//! parsing looks only at the last two path components, ignores the
//! extension, accepts upper-case hex digits, and rejects the `fss`
//! sidecar file.

use vstd::prelude::*;
use vstd::slice::{slice_subrange, slice_to_vec};
use crate::hexfmt::{
    all_hex_digits, hex_seq, hex_value, lemma_hex_seq_digits, lemma_hex_value_bound, parse_hex,
    pow16, push_hex,
};

verus! {

pub const SLASH: u8 = 0x2f;

pub const AT: u8 = 0x40;

pub const DASH: u8 = 0x2d;

pub const DOT: u8 = 0x2e;

/// The bytes of the `.journal` extension.
pub open spec fn journal_suffix() -> Seq<u8> {
    seq![0x2eu8, 0x6au8, 0x6fu8, 0x75u8, 0x72u8, 0x6eu8, 0x61u8, 0x6cu8]
}

/// The bytes of the `fss` sidecar filename, which is never a journal.
pub open spec fn fss_name() -> Seq<u8> {
    seq![0x66u8, 0x73u8, 0x73u8]
}

/// A logical journal: one machine identifier and one scope (for systemd,
/// `system` or `user-<uid>`).  The scope is a byte string.
#[derive(Debug, Clone, PartialEq, Eq, Hash)]
pub struct JournalSelection {
    pub machine_id: u128,
    pub scope: Vec<u8>,
}

/// Mathematical model of a [`JournalSelection`].
pub struct JournalSelectionView {
    pub machine_id: u128,
    pub scope: Seq<u8>,
}

impl View for JournalSelection {
    type V = JournalSelectionView;

    open spec fn view(&self) -> JournalSelectionView {
        JournalSelectionView { machine_id: self.machine_id, scope: self.scope@ }
    }
}

/// Information carried by a journal filename.
///
/// Timestamps are UTC microseconds since the Unix epoch; sequence
/// numbers and identifiers of an archived file are nonzero.
#[derive(Debug, Clone, PartialEq, Eq)]
pub enum FilenameInfo {
    Archived {
        machine_id: u128,
        scope: Vec<u8>,
        file_seqnum: u128,
        head_seqnum: u64,
        head_realtime: u64,
    },
    Latest { machine_id: u128, scope: Vec<u8> },
}

/// Mathematical model of a [`FilenameInfo`].
pub enum FilenameInfoView {
    Archived {
        machine_id: u128,
        scope: Seq<u8>,
        file_seqnum: u128,
        head_seqnum: u64,
        head_realtime: u64,
    },
    Latest { machine_id: u128, scope: Seq<u8> },
}

impl View for FilenameInfo {
    type V = FilenameInfoView;

    open spec fn view(&self) -> FilenameInfoView {
        match self {
            FilenameInfo::Archived { machine_id, scope, file_seqnum, head_seqnum, head_realtime } =>
                FilenameInfoView::Archived {
                    machine_id: *machine_id,
                    scope: scope@,
                    file_seqnum: *file_seqnum,
                    head_seqnum: *head_seqnum,
                    head_realtime: *head_realtime,
                },
            FilenameInfo::Latest { machine_id, scope } => FilenameInfoView::Latest {
                machine_id: *machine_id,
                scope: scope@,
            },
        }
    }
}

impl FilenameInfoView {
    pub open spec fn machine_id(self) -> u128 {
        match self {
            FilenameInfoView::Archived { machine_id, .. } => machine_id,
            FilenameInfoView::Latest { machine_id, .. } => machine_id,
        }
    }

    pub open spec fn scope(self) -> Seq<u8> {
        match self {
            FilenameInfoView::Archived { scope, .. } => scope,
            FilenameInfoView::Latest { scope, .. } => scope,
        }
    }

    /// A scope an archived filename can carry: no path separator and no
    /// `@` (the separators that bound it).
    pub open spec fn valid_scope_archived(scope: Seq<u8>) -> bool {
        &&& forall|i: int| 0 <= i < scope.len() ==> scope[i] != SLASH
        &&& forall|i: int| 0 <= i < scope.len() ==> scope[i] != AT
    }

    /// A scope a live filename can carry: additionally no `.` (which
    /// would start the extension early) and not the reserved name `fss`.
    pub open spec fn valid_scope(scope: Seq<u8>) -> bool {
        &&& Self::valid_scope_archived(scope)
        &&& forall|i: int| 0 <= i < scope.len() ==> scope[i] != DOT
        &&& scope != fss_name()
    }

    /// Well-formedness: the scope is valid for the variant and the
    /// archived identifiers are nonzero.
    pub open spec fn wf(self) -> bool {
        match self {
            FilenameInfoView::Archived { scope, file_seqnum, head_seqnum, .. } => {
                &&& Self::valid_scope_archived(scope)
                &&& file_seqnum != 0
                &&& head_seqnum != 0
            },
            FilenameInfoView::Latest { scope, .. } => Self::valid_scope(scope),
        }
    }
}

impl FilenameInfo {
    /// Whether this names a rotated, immutable file.
    pub fn is_archived(&self) -> (r: bool)
        ensures
            r == (self@ is Archived),
    {
        match self {
            FilenameInfo::Archived { .. } => true,
            _ => false,
        }
    }

    /// Whether this names the live, writable file.
    pub fn is_latest(&self) -> (r: bool)
        ensures
            r == (self@ is Latest),
    {
        match self {
            FilenameInfo::Latest { .. } => true,
            _ => false,
        }
    }
}

/// The filename encoding of `info`.
pub open spec fn spec_make_filename(info: FilenameInfoView) -> Seq<u8> {
    match info {
        FilenameInfoView::Latest { machine_id, scope } => hex_seq(machine_id as nat, 32) + seq![
            SLASH,
        ] + scope + journal_suffix(),
        FilenameInfoView::Archived { machine_id, scope, file_seqnum, head_seqnum, head_realtime } =>
            hex_seq(machine_id as nat, 32) + seq![SLASH] + scope + seq![AT] + hex_seq(
                file_seqnum as nat,
                32,
            ) + seq![DASH] + hex_seq(head_seqnum as nat, 16) + seq![DASH] + hex_seq(
                head_realtime as nat,
                16,
            ) + journal_suffix(),
    }
}

/// The filename prefix shared by all archived files of a selection.
pub open spec fn spec_make_prefix(sel: JournalSelectionView) -> Seq<u8> {
    hex_seq(sel.machine_id as nat, 32) + seq![SLASH] + sel.scope + seq![AT]
}

/// Append the `.journal` extension.
fn push_journal_suffix(out: &mut Vec<u8>)
    requires
        old(out)@.len() + 8 <= usize::MAX,
    ensures
        final(out)@ == old(out)@ + journal_suffix(),
{
    out.push(0x2e);
    out.push(0x6a);
    out.push(0x6f);
    out.push(0x75);
    out.push(0x72);
    out.push(0x6e);
    out.push(0x61);
    out.push(0x6c);
    assert(final(out)@ =~= old(out)@ + journal_suffix());
}

/// Append all of `s`.
fn push_bytes(out: &mut Vec<u8>, s: &Vec<u8>)
    requires
        old(out)@.len() + s@.len() <= usize::MAX,
    ensures
        final(out)@ == old(out)@ + s@,
{
    let n = s.len();
    let mut i: usize = 0;
    while i < n
        invariant
            i <= n,
            n == s@.len(),
            out@.len() == old(out)@.len() + i,
            out@ =~= old(out)@ + s@.subrange(0, i as int),
        decreases n - i,
    {
        let b = s[i];
        out.push(b);
        i += 1;
    }
    assert(final(out)@ =~= old(out)@ + s@);
}

/// Build the relative path of the file that `info` names.
pub fn make_filename(info: &FilenameInfo) -> (r: Vec<u8>)
    requires
        info@.scope().len() + 200 <= usize::MAX,
    ensures
        r@ == spec_make_filename(info@),
{
    let mut out: Vec<u8> = Vec::new();
    match info {
        FilenameInfo::Latest { machine_id, scope } => {
            push_hex(&mut out, *machine_id, 32);
            out.push(SLASH);
            push_bytes(&mut out, scope);
            push_journal_suffix(&mut out);
            assert(out@ =~= spec_make_filename(info@));
        },
        FilenameInfo::Archived { machine_id, scope, file_seqnum, head_seqnum, head_realtime } => {
            push_hex(&mut out, *machine_id, 32);
            out.push(SLASH);
            push_bytes(&mut out, scope);
            out.push(AT);
            push_hex(&mut out, *file_seqnum, 32);
            out.push(DASH);
            push_hex(&mut out, *head_seqnum as u128, 16);
            out.push(DASH);
            push_hex(&mut out, *head_realtime as u128, 16);
            push_journal_suffix(&mut out);
            assert(out@ =~= spec_make_filename(info@));
        },
    }
    out
}

/// Build the path prefix under which all archived files of `sel` lie.
pub fn make_prefix(sel: &JournalSelection) -> (r: Vec<u8>)
    requires
        sel.scope@.len() + 200 <= usize::MAX,
    ensures
        r@ == spec_make_prefix(sel@),
{
    let mut out: Vec<u8> = Vec::new();
    push_hex(&mut out, sel.machine_id, 32);
    out.push(SLASH);
    push_bytes(&mut out, &sel.scope);
    out.push(AT);
    assert(out@ =~= spec_make_prefix(sel@));
    out
}

/// Index of the first occurrence of `b` in `s` at or after `from`.
pub open spec fn find_from(s: Seq<u8>, from: int, b: u8) -> Option<int>
    recommends
        0 <= from,
    decreases s.len() - from,
{
    if from < 0 || from >= s.len() {
        None
    } else if s[from] == b {
        Some(from)
    } else {
        find_from(s, from + 1, b)
    }
}

/// Index of the last occurrence of `b` in `s`.
pub open spec fn rfind(s: Seq<u8>, b: u8) -> Option<int>
    decreases s.len(),
{
    if s.len() == 0 {
        None
    } else if s.last() == b {
        Some(s.len() - 1)
    } else {
        rfind(s.drop_last(), b)
    }
}

/// Parse the final path component `name` (the filename proper), the
/// machine identifier having already been decoded.
pub open spec fn spec_parse_name(machine_id: u128, name: Seq<u8>) -> Option<FilenameInfoView> {
    match find_from(name, 0, AT) {
        None => {
            let scope = match find_from(name, 0, DOT) {
                None => name,
                Some(d) => name.subrange(0, d),
            };
            if scope == fss_name() {
                None
            } else {
                Some(FilenameInfoView::Latest { machine_id, scope })
            }
        },
        Some(at) => {
            let scope = name.subrange(0, at);
            let rest = name.subrange(at + 1, name.len() as int);
            match find_from(rest, 0, DASH) {
                None => None,
                Some(d1) => {
                    let fs = rest.subrange(0, d1);
                    let rest2 = rest.subrange(d1 + 1, rest.len() as int);
                    match find_from(rest2, 0, DASH) {
                        None => None,
                        Some(d2) => {
                            let hs = rest2.subrange(0, d2);
                            let rest3 = rest2.subrange(d2 + 1, rest2.len() as int);
                            let hr = match find_from(rest3, 0, DOT) {
                                None => rest3,
                                Some(d3) => rest3.subrange(0, d3),
                            };
                            spec_parse_archived(machine_id, scope, fs, hs, hr)
                        },
                    }
                },
            }
        },
    }
}

/// Decode the three hex fields of an archived filename.
pub open spec fn spec_parse_archived(
    machine_id: u128,
    scope: Seq<u8>,
    fs: Seq<u8>,
    hs: Seq<u8>,
    hr: Seq<u8>,
) -> Option<FilenameInfoView> {
    if fs.len() == 32 && all_hex_digits(fs) && hs.len() == 16 && all_hex_digits(hs) && hr.len()
        == 16 && all_hex_digits(hr) {
        let file_seqnum = hex_value(fs) as u128;
        let head_seqnum = hex_value(hs) as u64;
        let head_realtime = hex_value(hr) as u64;
        if file_seqnum != 0 && head_seqnum != 0 {
            Some(
                FilenameInfoView::Archived {
                    machine_id,
                    scope,
                    file_seqnum,
                    head_seqnum,
                    head_realtime,
                },
            )
        } else {
            None
        }
    } else {
        None
    }
}

/// What a path decodes to: the last component is the filename, the
/// component before it the machine identifier (32 hex digits); anything
/// earlier is ignored.
pub open spec fn spec_parse_filename(s: Seq<u8>) -> Option<FilenameInfoView> {
    match rfind(s, SLASH) {
        None => None,
        Some(sl) => {
            let name = s.subrange(sl + 1, s.len() as int);
            let dir = s.subrange(0, sl);
            let mh = match rfind(dir, SLASH) {
                None => dir,
                Some(s2) => dir.subrange(s2 + 1, dir.len() as int),
            };
            if mh.len() == 32 && all_hex_digits(mh) {
                spec_parse_name(hex_value(mh) as u128, name)
            } else {
                None
            }
        },
    }
}

/// `find_from` returns the position of `b` when nothing before it (from
/// `from` on) is `b`.
proof fn lemma_find_from_at(s: Seq<u8>, from: int, b: u8, i: int)
    requires
        0 <= from <= i < s.len(),
        s[i] == b,
        forall|j: int| from <= j < i ==> s[j] != b,
    ensures
        find_from(s, from, b) == Some(i),
    decreases i - from,
{
    if from < i {
        lemma_find_from_at(s, from + 1, b, i);
    }
}

/// `find_from` finds nothing when `b` does not occur from `from` on.
proof fn lemma_find_from_none(s: Seq<u8>, from: int, b: u8)
    requires
        0 <= from,
        forall|j: int| from <= j < s.len() ==> s[j] != b,
    ensures
        find_from(s, from, b) is None,
    decreases s.len() - from,
{
    if from < s.len() {
        lemma_find_from_none(s, from + 1, b);
    }
}

/// `rfind` returns the position of `b` when nothing after it is `b`.
proof fn lemma_rfind_at(s: Seq<u8>, b: u8, i: int)
    requires
        0 <= i < s.len(),
        s[i] == b,
        forall|j: int| i < j < s.len() ==> s[j] != b,
    ensures
        rfind(s, b) == Some(i),
    decreases s.len(),
{
    if i < s.len() - 1 {
        assert(s.last() != b);
        let t = s.drop_last();
        assert(t[i] == b);
        lemma_rfind_at(t, b, i);
    }
}

/// `rfind` finds nothing when `b` does not occur in `s`.
proof fn lemma_rfind_none(s: Seq<u8>, b: u8)
    requires
        forall|j: int| 0 <= j < s.len() ==> s[j] != b,
    ensures
        rfind(s, b) is None,
    decreases s.len(),
{
    if s.len() > 0 {
        lemma_rfind_none(s.drop_last(), b);
    }
}

/// A hex digit byte is none of the separators of the filename scheme.
proof fn lemma_hex_digit_not_separator(b: u8)
    requires
        crate::hexfmt::is_hex_digit(b),
    ensures
        b != SLASH && b != AT && b != DASH && b != DOT,
{
}

/// No byte of the `.journal` extension but its leading dot is a
/// separator, and the dot comes first.
proof fn lemma_suffix_bytes()
    ensures
        journal_suffix().len() == 8,
        journal_suffix()[0] == DOT,
        forall|j: int| 0 <= j < 8 ==> journal_suffix()[j] != SLASH,
        forall|j: int| 0 <= j < 8 ==> journal_suffix()[j] != AT,
        forall|j: int| 0 <= j < 8 ==> journal_suffix()[j] != DASH,
        forall|j: int| 1 <= j < 8 ==> journal_suffix()[j] != DOT,
{
}

/// Parsing a well-formed name gives back what it was made from:
/// `parse_filename` inverts `make_filename`, for the live and the
/// archived variant alike.
pub proof fn lemma_filename_roundtrip(info: FilenameInfoView)
    requires
        info.wf(),
    ensures
        spec_parse_filename(spec_make_filename(info)) == Some(info),
{
    let s = spec_make_filename(info);
    let m = info.machine_id();
    let scope = info.scope();
    let h32 = hex_seq(m as nat, 32);
    lemma_hex_seq_digits(m as nat, 32);
    lemma_suffix_bytes();
    assert(pow16(32nat) == 0x100000000000000000000000000000000nat) by {
        reveal_with_fuel(pow16, 33);
    }
    assert(pow16(16nat) == 0x10000000000000000nat) by {
        reveal_with_fuel(pow16, 17);
    }
    crate::hexfmt::lemma_hex_roundtrip(m as nat, 32);
    assert forall|j: int| 0 <= j < 32 implies s[j] != SLASH by {
        assert(s[j] == h32[j]);
        lemma_hex_digit_not_separator(h32[j]);
    }
    match info {
        FilenameInfoView::Latest { machine_id, scope } => {
            let suffix = journal_suffix();
            assert(s.len() == 41 + scope.len());
            assert(s[32] == SLASH);
            assert forall|j: int| 32 < j < s.len() implies s[j] != SLASH by {
                if j < 33 + scope.len() {
                    assert(s[j] == scope[j - 33]);
                } else {
                    assert(s[j] == suffix[j - 33 - scope.len()]);
                }
            }
            lemma_rfind_at(s, SLASH, 32);
            let name = s.subrange(33, s.len() as int);
            let dir = s.subrange(0, 32);
            assert(dir =~= h32);
            assert forall|j: int| 0 <= j < dir.len() implies dir[j] != SLASH by {
                lemma_hex_digit_not_separator(h32[j]);
            }
            lemma_rfind_none(dir, SLASH);
            assert(name =~= scope + suffix);
            assert forall|j: int| 0 <= j < name.len() implies name[j] != AT by {
                if j < scope.len() {
                    assert(name[j] == scope[j]);
                } else {
                    assert(name[j] == suffix[j - scope.len()]);
                }
            }
            lemma_find_from_none(name, 0, AT);
            assert forall|j: int| 0 <= j < scope.len() implies name[j] != DOT by {
                assert(name[j] == scope[j]);
            }
            assert(name[scope.len() as int] == DOT);
            lemma_find_from_at(name, 0, DOT, scope.len() as int);
            assert(name.subrange(0, scope.len() as int) =~= scope);
        },
        FilenameInfoView::Archived { machine_id, scope, file_seqnum, head_seqnum, head_realtime } => {
            let suffix = journal_suffix();
            let fhex32 = hex_seq(file_seqnum as nat, 32);
            let shex16 = hex_seq(head_seqnum as nat, 16);
            let rhex16 = hex_seq(head_realtime as nat, 16);
            lemma_hex_seq_digits(file_seqnum as nat, 32);
            lemma_hex_seq_digits(head_seqnum as nat, 16);
            lemma_hex_seq_digits(head_realtime as nat, 16);
            crate::hexfmt::lemma_hex_roundtrip(file_seqnum as nat, 32);
            crate::hexfmt::lemma_hex_roundtrip(head_seqnum as nat, 16);
            crate::hexfmt::lemma_hex_roundtrip(head_realtime as nat, 16);
            let sc = scope.len() as int;
            assert(s.len() == 108 + scope.len());
            assert(s[32] == SLASH);
            assert(s[33 + sc] == AT);
            assert forall|j: int| 32 < j < s.len() implies s[j] != SLASH by {
                lemma_archived_layout_byte(info, j);
            }
            lemma_rfind_at(s, SLASH, 32);
            let name = s.subrange(33, s.len() as int);
            let dir = s.subrange(0, 32);
            assert(dir =~= h32);
            assert forall|j: int| 0 <= j < dir.len() implies dir[j] != SLASH by {
                lemma_hex_digit_not_separator(h32[j]);
            }
            lemma_rfind_none(dir, SLASH);
            assert(name =~= scope + seq![AT] + fhex32 + seq![DASH] + shex16 + seq![DASH] + rhex16 + suffix);
            assert forall|j: int| 0 <= j < sc implies name[j] != AT by {
                assert(name[j] == scope[j]);
            }
            assert(name[sc] == AT);
            lemma_find_from_at(name, 0, AT, sc);
            assert(name.subrange(0, sc) =~= scope);
            let rest = name.subrange(sc + 1, name.len() as int);
            assert(rest =~= fhex32 + seq![DASH] + shex16 + seq![DASH] + rhex16 + suffix);
            assert forall|j: int| 0 <= j < 32 implies rest[j] != DASH by {
                assert(rest[j] == fhex32[j]);
                lemma_hex_digit_not_separator(fhex32[j]);
            }
            assert(rest[32] == DASH);
            lemma_find_from_at(rest, 0, DASH, 32);
            assert(rest.subrange(0, 32) =~= fhex32);
            let rest2 = rest.subrange(33, rest.len() as int);
            assert(rest2 =~= shex16 + seq![DASH] + rhex16 + suffix);
            assert forall|j: int| 0 <= j < 16 implies rest2[j] != DASH by {
                assert(rest2[j] == shex16[j]);
                lemma_hex_digit_not_separator(shex16[j]);
            }
            assert(rest2[16] == DASH);
            lemma_find_from_at(rest2, 0, DASH, 16);
            assert(rest2.subrange(0, 16) =~= shex16);
            let rest3 = rest2.subrange(17, rest2.len() as int);
            assert(rest3 =~= rhex16 + suffix);
            assert forall|j: int| 0 <= j < 16 implies rest3[j] != DOT by {
                assert(rest3[j] == rhex16[j]);
                lemma_hex_digit_not_separator(rhex16[j]);
            }
            assert(rest3[16] == DOT);
            lemma_find_from_at(rest3, 0, DOT, 16);
            assert(rest3.subrange(0, 16) =~= rhex16);
        },
    }
}

/// No byte of an archived filename after the leading machine directory
/// is a path separator.
proof fn lemma_archived_layout_byte(info: FilenameInfoView, j: int)
    requires
        info is Archived,
        info.wf(),
        32 < j < spec_make_filename(info).len(),
    ensures
        spec_make_filename(info)[j] != SLASH,
{
    let s = spec_make_filename(info);
    match info {
        FilenameInfoView::Archived { machine_id, scope, file_seqnum, head_seqnum, head_realtime } => {
            let sc = scope.len() as int;
            let fhex32 = hex_seq(file_seqnum as nat, 32);
            let shex16 = hex_seq(head_seqnum as nat, 16);
            let rhex16 = hex_seq(head_realtime as nat, 16);
            lemma_hex_seq_digits(machine_id as nat, 32);
            lemma_hex_seq_digits(file_seqnum as nat, 32);
            lemma_hex_seq_digits(head_seqnum as nat, 16);
            lemma_hex_seq_digits(head_realtime as nat, 16);
            lemma_suffix_bytes();
            if j == 32 {
                assert(s[j] == SLASH);
            } else if j < 33 + sc {
                assert(s[j] == scope[j - 33]);
            } else if j == 33 + sc {
                assert(s[j] == AT);
            } else if j < 66 + sc {
                assert(s[j] == fhex32[j - 34 - sc]);
                lemma_hex_digit_not_separator(s[j]);
            } else if j == 66 + sc {
                assert(s[j] == DASH);
            } else if j < 83 + sc {
                assert(s[j] == shex16[j - 67 - sc]);
                lemma_hex_digit_not_separator(s[j]);
            } else if j == 83 + sc {
                assert(s[j] == DASH);
            } else if j < 100 + sc {
                assert(s[j] == rhex16[j - 84 - sc]);
                lemma_hex_digit_not_separator(s[j]);
            } else {
                assert(s[j] == journal_suffix()[j - 100 - sc]);
            }
        },
        FilenameInfoView::Latest { .. } => {},
    }
}


/// Where `find_from` points, the byte is found and nothing before it
/// matches; where it points nowhere, nothing matches at all.
pub proof fn lemma_find_from_inverse(s: Seq<u8>, from: int, b: u8)
    requires
        0 <= from,
    ensures
        match find_from(s, from, b) {
            Some(i) => from <= i < s.len() && s[i] == b && forall|j: int|
                from <= j < i ==> s[j] != b,
            None => forall|j: int| from <= j < s.len() ==> s[j] != b,
        },
    decreases s.len() - from,
{
    if from < s.len() && s[from] != b {
        lemma_find_from_inverse(s, from + 1, b);
    }
}

/// Where `rfind` points, the byte is found and nothing after it
/// matches; where it points nowhere, nothing matches at all.
pub proof fn lemma_rfind_inverse(s: Seq<u8>, b: u8)
    ensures
        match rfind(s, b) {
            Some(i) => 0 <= i < s.len() && s[i] == b && forall|j: int|
                i < j < s.len() ==> s[j] != b,
            None => forall|j: int| 0 <= j < s.len() ==> s[j] != b,
        },
    decreases s.len(),
{
    if s.len() > 0 && s.last() != b {
        lemma_rfind_inverse(s.drop_last(), b);
        assert(forall|j: int| 0 <= j < s.len() - 1 ==> s[j] == s.drop_last()[j]);
    }
}

/// Whatever parsing accepts is well-formed: its scope can survive the
/// scheme and its archived identifiers are nonzero.
pub proof fn lemma_parse_filename_wf(p: Seq<u8>)
    ensures
        match spec_parse_filename(p) {
            Some(info) => info.wf(),
            None => true,
        },
{
    match rfind(p, SLASH) {
        None => {},
        Some(sl) => {
            lemma_rfind_inverse(p, SLASH);
            let name = p.subrange(sl + 1, p.len() as int);
            assert(forall|j: int| 0 <= j < name.len() ==> name[j] == p[sl + 1 + j]);
            assert(forall|j: int| 0 <= j < name.len() ==> name[j] != SLASH);
            let dir = p.subrange(0, sl);
            let mh = match rfind(dir, SLASH) {
                None => dir,
                Some(s2) => dir.subrange(s2 + 1, dir.len() as int),
            };
            if mh.len() == 32 && all_hex_digits(mh) {
                lemma_parse_name_wf(hex_value(mh) as u128, name);
            }
        },
    }
}

/// The well-formedness of whatever parsing the filename proper accepts.
proof fn lemma_parse_name_wf(machine_id: u128, name: Seq<u8>)
    requires
        forall|j: int| 0 <= j < name.len() ==> name[j] != SLASH,
    ensures
        match spec_parse_name(machine_id, name) {
            Some(info) => info.wf(),
            None => true,
        },
{
    lemma_find_from_inverse(name, 0, AT);
    match find_from(name, 0, AT) {
        None => {
            lemma_find_from_inverse(name, 0, DOT);
            let scope = match find_from(name, 0, DOT) {
                None => name,
                Some(d) => name.subrange(0, d),
            };
            assert(forall|j: int| 0 <= j < scope.len() ==> scope[j] == name[j]);
        },
        Some(at) => {
            let scope = name.subrange(0, at);
            assert(forall|j: int| 0 <= j < scope.len() ==> scope[j] == name[j]);
        },
    }
}

/// Find the first occurrence of `b` at or after `from`.
pub fn find_byte(s: &[u8], from: usize, b: u8) -> (r: Option<usize>)
    ensures
        match r {
            Some(i) => i < s@.len() && find_from(s@, from as int, b) == Some(i as int),
            None => find_from(s@, from as int, b) is None,
        },
{
    let n = s.len();
    let mut i: usize = from;
    while i < n
        invariant
            from <= i,
            n == s@.len(),
            find_from(s@, from as int, b) == find_from(s@, i as int, b),
        decreases n - i,
    {
        if s[i] == b {
            return Some(i);
        }
        i += 1;
    }
    None
}

/// Find the last occurrence of `b` in `s`.
fn rfind_byte(s: &[u8], b: u8) -> (r: Option<usize>)
    ensures
        match r {
            Some(i) => i < s@.len() && rfind(s@, b) == Some(i as int),
            None => rfind(s@, b) is None,
        },
{
    let n = s.len();
    let mut i: usize = n;
    proof {
        assert(s@.take(n as int) =~= s@);
    }
    while i > 0
        invariant
            i <= n,
            n == s@.len(),
            rfind(s@, b) == rfind(s@.take(i as int), b),
        decreases i,
    {
        i -= 1;
        proof {
            assert(s@.take(i + 1).last() == s@[i as int]);
            assert(s@.take(i + 1).drop_last() =~= s@.take(i as int));
        }
        if s[i] == b {
            return Some(i);
        }
    }
    None
}

/// Parse a relative or absolute path into the information its filename
/// carries; `None` if the path does not follow the scheme (or names the
/// `fss` sidecar file).
pub fn parse_filename(path: &[u8]) -> (r: Option<FilenameInfo>)
    ensures
        match r {
            Some(info) => spec_parse_filename(path@) == Some(info@),
            None => spec_parse_filename(path@) is None,
        },
{
    let n = path.len();
    let sl = match rfind_byte(path, SLASH) {
        None => {
            return None;
        },
        Some(i) => i,
    };
    let name = slice_subrange(path, sl + 1, n);
    let dir = slice_subrange(path, 0, sl);
    let mh = match rfind_byte(dir, SLASH) {
        None => dir,
        Some(s2) => slice_subrange(dir, s2 + 1, sl),
    };
    if mh.len() != 32 {
        return None;
    }
    let machine_id = match parse_hex(mh) {
        None => {
            return None;
        },
        Some(v) => v,
    };
    parse_name(machine_id, name, Ghost(path@))
}

/// Parse the filename proper, `name`, for machine `machine_id`.
fn parse_name(machine_id: u128, name: &[u8], outer: Ghost<Seq<u8>>) -> (r: Option<FilenameInfo>)
    requires
        spec_parse_filename(outer@) == spec_parse_name(machine_id, name@),
    ensures
        match r {
            Some(info) => spec_parse_filename(outer@) == Some(info@),
            None => spec_parse_filename(outer@) is None,
        },
{
    let n = name.len();
    let at = match find_byte(name, 0, AT) {
        None => {
            let scope_end = match find_byte(name, 0, DOT) {
                None => n,
                Some(d) => d,
            };
            let scope = slice_subrange(name, 0, scope_end);
            proof {
                if find_from(name@, 0, DOT) is None {
                    assert(name@.subrange(0, n as int) =~= name@);
                }
            }
            if scope.len() == 3 && scope[0] == 0x66 && scope[1] == 0x73 && scope[2] == 0x73 {
                proof {
                    assert(scope@ =~= fss_name());
                }
                return None;
            }
            proof {
                assert(scope@ != fss_name()) by {
                    if scope@ == fss_name() {
                        assert(scope@.len() == 3);
                        assert(scope@[0] == 0x66 && scope@[1] == 0x73 && scope@[2] == 0x73);
                    }
                }
            }
            return Some(
                FilenameInfo::Latest { machine_id, scope: slice_to_vec(scope) },
            );
        },
        Some(i) => i,
    };
    let scope = slice_subrange(name, 0, at);
    let rest = slice_subrange(name, at + 1, n);
    let d1 = match find_byte(rest, 0, DASH) {
        None => {
            return None;
        },
        Some(i) => i,
    };
    let fs = slice_subrange(rest, 0, d1);
    let rest2 = slice_subrange(rest, d1 + 1, rest.len());
    let d2 = match find_byte(rest2, 0, DASH) {
        None => {
            return None;
        },
        Some(i) => i,
    };
    let hs = slice_subrange(rest2, 0, d2);
    let rest3 = slice_subrange(rest2, d2 + 1, rest2.len());
    let hr_end = match find_byte(rest3, 0, DOT) {
        None => rest3.len(),
        Some(d3) => d3,
    };
    let hr = slice_subrange(rest3, 0, hr_end);
    proof {
        if find_from(rest3@, 0, DOT) is None {
            assert(rest3@.subrange(0, rest3@.len() as int) =~= rest3@);
        }
    }
    if fs.len() != 32 || hs.len() != 16 || hr.len() != 16 {
        return None;
    }
    let file_seqnum = match parse_hex(fs) {
        None => {
            return None;
        },
        Some(v) => v,
    };
    let head_seqnum = match parse_hex(hs) {
        None => {
            return None;
        },
        Some(v) => v,
    };
    let head_realtime = match parse_hex(hr) {
        None => {
            return None;
        },
        Some(v) => v,
    };
    proof {
        lemma_hex_value_bound(hs@);
        lemma_hex_value_bound(hr@);
        assert(pow16(16nat) == 0x10000000000000000nat) by {
            reveal_with_fuel(pow16, 17);
        }
    }
    let head_seqnum = head_seqnum as u64;
    let head_realtime = head_realtime as u64;
    if file_seqnum == 0 || head_seqnum == 0 {
        return None;
    }
    Some(
        FilenameInfo::Archived {
            machine_id,
            scope: slice_to_vec(scope),
            file_seqnum,
            head_seqnum,
            head_realtime,
        },
    )
}

} // verus!
