//! The total order on journal filenames.
//!
//! Archived files come before the live file.  Among archived files the
//! order is by head realtime, then head sequence number, then file
//! sequence identifier, then scope (bytewise), then machine identifier;
//! among live files by scope, then machine identifier.

use vstd::prelude::*;
use core::cmp::Ordering;
use vstd::multiset::Multiset;
use crate::filename::{FilenameInfo, FilenameInfoView};

verus! {

/// Strict bytewise lexicographic order; a proper prefix sorts first.
pub open spec fn bytes_lt(a: Seq<u8>, b: Seq<u8>) -> bool
    decreases a.len(),
{
    if b.len() == 0 {
        false
    } else if a.len() == 0 {
        true
    } else if a[0] < b[0] {
        true
    } else if a[0] > b[0] {
        false
    } else {
        bytes_lt(a.skip(1), b.skip(1))
    }
}

/// `bytes_lt` is irreflexive and asymmetric.
pub proof fn lemma_bytes_lt_asym(a: Seq<u8>, b: Seq<u8>)
    requires
        bytes_lt(a, b),
    ensures
        !bytes_lt(b, a),
        a != b,
    decreases a.len(),
{
    if a.len() > 0 && b.len() > 0 && a[0] == b[0] {
        lemma_bytes_lt_asym(a.skip(1), b.skip(1));
        assert(a != b) by {
            if a == b {
                assert(a.skip(1) == b.skip(1));
            }
        }
    }
}

/// Two byte strings neither of which precedes the other are equal.
pub proof fn lemma_bytes_lt_total(a: Seq<u8>, b: Seq<u8>)
    requires
        !bytes_lt(a, b),
        !bytes_lt(b, a),
    ensures
        a == b,
    decreases a.len(),
{
    if a.len() == 0 {
        assert(b.len() == 0);
        assert(a =~= b);
    } else {
        assert(b.len() > 0);
        assert(a[0] == b[0]);
        lemma_bytes_lt_total(a.skip(1), b.skip(1));
        assert(a.skip(1).len() == a.len() - 1);
        assert(b.skip(1).len() == b.len() - 1);
        assert(a.len() == b.len());
        assert forall|i: int| 0 <= i < a.len() implies a[i] == b[i] by {
            if i >= 1 {
                assert(a[i] == a.skip(1)[i - 1]);
                assert(b[i] == b.skip(1)[i - 1]);
            }
        }
        assert(a =~= b);
    }
}

/// `bytes_lt` is transitive.
pub proof fn lemma_bytes_lt_trans(a: Seq<u8>, b: Seq<u8>, c: Seq<u8>)
    requires
        bytes_lt(a, b),
        bytes_lt(b, c),
    ensures
        bytes_lt(a, c),
    decreases a.len(),
{
    if a.len() > 0 && b.len() > 0 && c.len() > 0 && a[0] == b[0] && b[0] == c[0] {
        lemma_bytes_lt_trans(a.skip(1), b.skip(1), c.skip(1));
    }
}

/// Whether `a` sorts strictly before `b`.
pub open spec fn file_lt(a: FilenameInfoView, b: FilenameInfoView) -> bool {
    match (a, b) {
        (FilenameInfoView::Archived { .. }, FilenameInfoView::Latest { .. }) => true,
        (FilenameInfoView::Latest { .. }, FilenameInfoView::Archived { .. }) => false,
        (
            FilenameInfoView::Archived {
                machine_id: am,
                scope: asc,
                file_seqnum: af,
                head_seqnum: ah,
                head_realtime: ar,
            },
            FilenameInfoView::Archived {
                machine_id: bm,
                scope: bsc,
                file_seqnum: bf,
                head_seqnum: bh,
                head_realtime: br,
            },
        ) => {
            if ar != br {
                ar < br
            } else if ah != bh {
                ah < bh
            } else if af != bf {
                af < bf
            } else if asc != bsc {
                bytes_lt(asc, bsc)
            } else {
                am < bm
            }
        },
        (
            FilenameInfoView::Latest { machine_id: am, scope: asc },
            FilenameInfoView::Latest { machine_id: bm, scope: bsc },
        ) => {
            if asc != bsc {
                bytes_lt(asc, bsc)
            } else {
                am < bm
            }
        },
    }
}

/// Whether `a` and `b` carry the same information.
pub open spec fn file_eq(a: FilenameInfoView, b: FilenameInfoView) -> bool {
    match (a, b) {
        (
            FilenameInfoView::Archived {
                machine_id: am,
                scope: asc,
                file_seqnum: af,
                head_seqnum: ah,
                head_realtime: ar,
            },
            FilenameInfoView::Archived {
                machine_id: bm,
                scope: bsc,
                file_seqnum: bf,
                head_seqnum: bh,
                head_realtime: br,
            },
        ) => am == bm && asc == bsc && af == bf && ah == bh && ar == br,
        (
            FilenameInfoView::Latest { machine_id: am, scope: asc },
            FilenameInfoView::Latest { machine_id: bm, scope: bsc },
        ) => am == bm && asc == bsc,
        _ => false,
    }
}

/// Whether `a` sorts before `b` or equals it.
pub open spec fn file_le(a: FilenameInfoView, b: FilenameInfoView) -> bool {
    file_lt(a, b) || file_eq(a, b)
}

/// The filename order is asymmetric.
pub proof fn lemma_file_lt_asym(a: FilenameInfoView, b: FilenameInfoView)
    requires
        file_lt(a, b),
    ensures
        !file_lt(b, a),
        !file_eq(a, b),
{
    match (a, b) {
        (FilenameInfoView::Archived { scope: asc, .. }, FilenameInfoView::Archived {
            scope: bsc,
            ..
        }) => {
            if asc != bsc && bytes_lt(asc, bsc) {
                lemma_bytes_lt_asym(asc, bsc);
            }
        },
        (FilenameInfoView::Latest { scope: asc, .. }, FilenameInfoView::Latest {
            scope: bsc,
            ..
        }) => {
            if asc != bsc && bytes_lt(asc, bsc) {
                lemma_bytes_lt_asym(asc, bsc);
            }
        },
        _ => {},
    }
}

/// The filename order is total: two filenames neither of which precedes
/// the other are equal.
pub proof fn lemma_file_lt_total(a: FilenameInfoView, b: FilenameInfoView)
    requires
        !file_lt(a, b),
        !file_lt(b, a),
    ensures
        file_eq(a, b),
{
    match (a, b) {
        (FilenameInfoView::Archived { scope: asc, .. }, FilenameInfoView::Archived {
            scope: bsc,
            ..
        }) => {
            if asc != bsc {
                lemma_bytes_lt_total(asc, bsc);
            }
        },
        (FilenameInfoView::Latest { scope: asc, .. }, FilenameInfoView::Latest {
            scope: bsc,
            ..
        }) => {
            if asc != bsc {
                lemma_bytes_lt_total(asc, bsc);
            }
        },
        _ => {},
    }
}

/// The filename order is transitive.
pub proof fn lemma_file_lt_trans(a: FilenameInfoView, b: FilenameInfoView, c: FilenameInfoView)
    requires
        file_lt(a, b),
        file_lt(b, c),
    ensures
        file_lt(a, c),
{
    match (a, b, c) {
        (
            FilenameInfoView::Archived { scope: asc, .. },
            FilenameInfoView::Archived { scope: bsc, .. },
            FilenameInfoView::Archived { scope: csc, .. },
        ) => {
            if asc != bsc && bsc != csc && bytes_lt(asc, bsc) && bytes_lt(bsc, csc) {
                lemma_bytes_lt_trans(asc, bsc, csc);
                lemma_bytes_lt_asym(asc, csc);
            }
        },
        (
            FilenameInfoView::Latest { scope: asc, .. },
            FilenameInfoView::Latest { scope: bsc, .. },
            FilenameInfoView::Latest { scope: csc, .. },
        ) => {
            if asc != bsc && bsc != csc && bytes_lt(asc, bsc) && bytes_lt(bsc, csc) {
                lemma_bytes_lt_trans(asc, bsc, csc);
                lemma_bytes_lt_asym(asc, csc);
            }
        },
        _ => {},
    }
}

/// `file_le` is transitive.
pub proof fn lemma_file_le_trans(a: FilenameInfoView, b: FilenameInfoView, c: FilenameInfoView)
    requires
        file_le(a, b),
        file_le(b, c),
    ensures
        file_le(a, c),
{
    if file_lt(a, b) && file_lt(b, c) {
        lemma_file_lt_trans(a, b, c);
    }
}

/// Compare two byte strings.
fn bytes_cmp(a: &Vec<u8>, b: &Vec<u8>) -> (r: Ordering)
    ensures
        r == Ordering::Less <==> bytes_lt(a@, b@),
        r == Ordering::Equal <==> a@ == b@,
        r == Ordering::Greater <==> bytes_lt(b@, a@),
{
    let an = a.len();
    let bn = b.len();
    let n = if an < bn {
        an
    } else {
        bn
    };
    let mut i: usize = 0;
    proof {
        assert(a@.skip(0) =~= a@);
        assert(b@.skip(0) =~= b@);
        assert(a@.subrange(0, 0) =~= b@.subrange(0, 0));
    }
    while i < n
        invariant
            i <= n,
            an == a@.len(),
            bn == b@.len(),
            n == if an < bn {
                an
            } else {
                bn
            },
            bytes_lt(a@, b@) == bytes_lt(a@.skip(i as int), b@.skip(i as int)),
            bytes_lt(b@, a@) == bytes_lt(b@.skip(i as int), a@.skip(i as int)),
            a@.subrange(0, i as int) == b@.subrange(0, i as int),
        decreases n - i,
    {
        let x = a[i];
        let y = b[i];
        if x < y {
            proof {
                assert(bytes_lt(a@.skip(i as int), b@.skip(i as int)));
                lemma_bytes_lt_asym(a@, b@);
            }
            return Ordering::Less;
        }
        if x > y {
            proof {
                assert(bytes_lt(b@.skip(i as int), a@.skip(i as int)));
                lemma_bytes_lt_asym(b@, a@);
            }
            return Ordering::Greater;
        }
        i += 1;
        proof {
            assert(a@.skip(i - 1).skip(1) =~= a@.skip(i as int));
            assert(b@.skip(i - 1).skip(1) =~= b@.skip(i as int));
            assert(a@.subrange(0, i as int) =~= a@.subrange(0, i - 1).push(a@[i - 1]));
            assert(b@.subrange(0, i as int) =~= b@.subrange(0, i - 1).push(b@[i - 1]));
        }
    }
    if an < bn {
        proof {
            assert(a@.skip(i as int).len() == 0);
            assert(b@.skip(i as int).len() > 0);
            lemma_bytes_lt_asym(a@, b@);
        }
        Ordering::Less
    } else if an > bn {
        proof {
            assert(b@.skip(i as int).len() == 0);
            assert(a@.skip(i as int).len() > 0);
            lemma_bytes_lt_asym(b@, a@);
        }
        Ordering::Greater
    } else {
        proof {
            assert(a@ =~= b@) by {
                assert(a@.subrange(0, i as int) =~= a@);
                assert(b@.subrange(0, i as int) =~= b@);
            }
            assert(!bytes_lt(a@, b@) && !bytes_lt(b@, a@)) by {
                assert(a@.skip(i as int).len() == 0 && b@.skip(i as int).len() == 0);
            }
        }
        Ordering::Equal
    }
}

/// Compare two filenames in the order described above.
pub fn filename_cmp(a: &FilenameInfo, b: &FilenameInfo) -> (r: Ordering)
    ensures
        r == Ordering::Less <==> file_lt(a@, b@),
        r == Ordering::Equal <==> file_eq(a@, b@),
        r == Ordering::Greater <==> file_lt(b@, a@),
{
    proof {
        if file_lt(a@, b@) {
            lemma_file_lt_asym(a@, b@);
        }
        if file_lt(b@, a@) {
            lemma_file_lt_asym(b@, a@);
        }
        if !file_lt(a@, b@) && !file_lt(b@, a@) {
            lemma_file_lt_total(a@, b@);
        }
    }
    match (a, b) {
        (FilenameInfo::Archived { .. }, FilenameInfo::Latest { .. }) => Ordering::Less,
        (FilenameInfo::Latest { .. }, FilenameInfo::Archived { .. }) => Ordering::Greater,
        (
            FilenameInfo::Archived {
                machine_id: am,
                scope: asc,
                file_seqnum: af,
                head_seqnum: ah,
                head_realtime: ar,
            },
            FilenameInfo::Archived {
                machine_id: bm,
                scope: bsc,
                file_seqnum: bf,
                head_seqnum: bh,
                head_realtime: br,
            },
        ) => {
            if *ar != *br {
                if *ar < *br {
                    Ordering::Less
                } else {
                    Ordering::Greater
                }
            } else if *ah != *bh {
                if *ah < *bh {
                    Ordering::Less
                } else {
                    Ordering::Greater
                }
            } else if *af != *bf {
                if *af < *bf {
                    Ordering::Less
                } else {
                    Ordering::Greater
                }
            } else {
                let sc = bytes_cmp(asc, bsc);
                match sc {
                    Ordering::Less => Ordering::Less,
                    Ordering::Greater => Ordering::Greater,
                    Ordering::Equal => {
                        if *am < *bm {
                            Ordering::Less
                        } else if *am > *bm {
                            Ordering::Greater
                        } else {
                            Ordering::Equal
                        }
                    },
                }
            }
        },
        (
            FilenameInfo::Latest { machine_id: am, scope: asc },
            FilenameInfo::Latest { machine_id: bm, scope: bsc },
        ) => {
            let sc = bytes_cmp(asc, bsc);
            match sc {
                Ordering::Less => Ordering::Less,
                Ordering::Greater => Ordering::Greater,
                Ordering::Equal => {
                    if *am < *bm {
                        Ordering::Less
                    } else if *am > *bm {
                        Ordering::Greater
                    } else {
                        Ordering::Equal
                    }
                },
            }
        },
    }
}

/// Filenames that carry the same information are the same value.
pub proof fn lemma_file_eq_is_eq(a: FilenameInfoView, b: FilenameInfoView)
    requires
        file_eq(a, b),
    ensures
        a == b,
{
}

/// `file_le` holds of anything and itself.
pub proof fn lemma_file_le_refl(a: FilenameInfoView)
    ensures
        file_le(a, a),
{
}

/// A strictly smaller filename stays below anything the larger one is
/// below.
pub proof fn lemma_file_lt_le_trans(a: FilenameInfoView, b: FilenameInfoView, c: FilenameInfoView)
    requires
        file_lt(a, b),
        file_le(b, c),
    ensures
        file_le(a, c),
{
    if file_lt(b, c) {
        lemma_file_lt_trans(a, b, c);
    } else {
        lemma_file_eq_is_eq(b, c);
    }
}

/// Whether `s` is sorted by the filename order: archived files first,
/// archived files among themselves by
/// `(head_realtime, head_seqnum, file_seqnum, scope, machine_id)`.
pub open spec fn filenames_sorted(s: Seq<FilenameInfo>) -> bool {
    forall|i: int, j: int| 0 <= i < j < s.len() ==> file_le(s[i]@, s[j]@)
}

/// The models of a run of filenames.
pub open spec fn filename_views(v: Seq<FilenameInfo>) -> Seq<FilenameInfoView> {
    Seq::new(v.len(), |i: int| v[i]@)
}

/// Sort filenames into the order above.  The result holds exactly the
/// given filenames (as a multiset, of the values and of their models).
pub fn sort_filenames(v: Vec<FilenameInfo>) -> (r: Vec<FilenameInfo>)
    ensures
        filenames_sorted(r@),
        r@.to_multiset() == v@.to_multiset(),
        filename_views(r@).to_multiset() == filename_views(v@).to_multiset(),
        r@.len() == v@.len(),
{
    broadcast use vstd::seq_lib::group_to_multiset_ensures;
    broadcast use vstd::multiset::group_multiset_axioms;

    let ghost orig = v@;
    let mut rem = v;
    let mut out: Vec<FilenameInfo> = Vec::new();
    proof {
        assert(out@.to_multiset().add(rem@.to_multiset()) =~= orig.to_multiset());
        assert(filename_views(out@).to_multiset().add(filename_views(rem@).to_multiset())
            =~= filename_views(orig).to_multiset());
    }
    while rem.len() > 0
        invariant
            filenames_sorted(out@),
            forall|i: int, j: int|
                0 <= i < out@.len() && 0 <= j < rem@.len() ==> file_le(out@[i]@, rem@[j]@),
            out@.to_multiset().add(rem@.to_multiset()) == orig.to_multiset(),
            filename_views(out@).to_multiset().add(filename_views(rem@).to_multiset())
                == filename_views(orig).to_multiset(),
            out@.len() + rem@.len() == orig.len(),
        decreases rem.len(),
    {
        let n = rem.len();
        let mut min: usize = 0;
        let mut k: usize = 1;
        while k < n
            invariant
                1 <= k <= n,
                min < k,
                n == rem@.len(),
                forall|j: int| 0 <= j < k ==> file_le(rem@[min as int]@, rem@[j]@),
            decreases n - k,
        {
            let c = filename_cmp(&rem[k], &rem[min]);
            if matches!(c, Ordering::Less) {
                proof {
                    assert forall|j: int| 0 <= j < k + 1 implies file_le(rem@[k as int]@, rem@[j]@) by {
                        if j == k {
                            lemma_file_le_refl(rem@[k as int]@);
                        } else {
                            lemma_file_lt_le_trans(rem@[k as int]@, rem@[min as int]@, rem@[j]@);
                        }
                    }
                }
                min = k;
            } else {
                proof {
                    if !file_le(rem@[min as int]@, rem@[k as int]@) {
                        lemma_file_lt_total(rem@[k as int]@, rem@[min as int]@);
                    }
                    lemma_file_le_refl(rem@[min as int]@);
                }
            }
            k += 1;
        }
        let ghost rem_before = rem@;
        let x = rem.remove(min);
        let ghost out_before = out@;
        out.push(x);
        proof {
            assert forall|i: int, j: int| 0 <= i < j < out@.len() implies file_le(out@[i]@, out@[j]@) by {
                if j == out@.len() - 1 {
                    assert(out@[j] == x && x == rem_before[min as int]);
                }
            }
            assert forall|i: int, j: int|
                0 <= i < out@.len() && 0 <= j < rem@.len() implies file_le(out@[i]@, rem@[j]@) by {
                let jj: int = if j < min {
                    j
                } else {
                    j + 1
                };
                assert(rem@[j] == rem_before[jj]);
                if i < out@.len() - 1 {
                    assert(file_le(out_before[i]@, rem_before[jj]@));
                } else {
                    assert(out@[i] == rem_before[min as int]);
                }
            }
            assert(out@.to_multiset().add(rem@.to_multiset()) =~= orig.to_multiset()) by {
                assert(out@ == out_before.push(x));
                vstd::seq_lib::to_multiset_build(out_before, x);
                assert(rem@ == rem_before.remove(min as int));
                vstd::seq_lib::to_multiset_remove(rem_before, min as int);
                assert(rem_before.to_multiset().count(x) > 0) by {
                    vstd::seq_lib::to_multiset_contains(rem_before, x);
                    assert(rem_before.contains(x)) by {
                        assert(rem_before[min as int] == x);
                    }
                }
            }
            assert(filename_views(out@).to_multiset().add(filename_views(rem@).to_multiset())
                =~= filename_views(orig).to_multiset()) by {
                assert(filename_views(out@) =~= filename_views(out_before).push(x@));
                vstd::seq_lib::to_multiset_build(filename_views(out_before), x@);
                assert(filename_views(rem@) =~= filename_views(rem_before).remove(min as int));
                vstd::seq_lib::to_multiset_remove(filename_views(rem_before), min as int);
                assert(filename_views(rem_before)[min as int] == x@);
                assert(filename_views(rem_before).to_multiset().count(x@) > 0) by {
                    vstd::seq_lib::to_multiset_contains(filename_views(rem_before), x@);
                    assert(filename_views(rem_before).contains(x@)) by {
                        assert(filename_views(rem_before)[min as int] == x@);
                    }
                }
            }
        }
    }
    proof {
        assert(rem@.to_multiset() =~= Multiset::<FilenameInfo>::empty()) by {
            assert(rem@ =~= Seq::<FilenameInfo>::empty());
        }
        assert(out@.to_multiset() =~= orig.to_multiset());
        assert(filename_views(rem@).to_multiset() =~= Multiset::<FilenameInfoView>::empty()) by {
            assert(filename_views(rem@) =~= Seq::<FilenameInfoView>::empty());
        }
        assert(filename_views(out@).to_multiset() =~= filename_views(orig).to_multiset());
    }
    out
}

impl PartialOrd for FilenameInfo {
    /// Total: always `Some`, per the filename order.
    fn partial_cmp(&self, other: &Self) -> (r: Option<Ordering>)
    {
        Some(filename_cmp(self, other))
    }
}

impl vstd::std_specs::cmp::PartialOrdSpecImpl for FilenameInfo {
    open spec fn obeys_partial_cmp_spec() -> bool {
        true
    }

    open spec fn partial_cmp_spec(&self, other: &Self) -> Option<Ordering> {
        if file_lt(self@, other@) {
            Some(Ordering::Less)
        } else if file_lt(other@, self@) {
            Some(Ordering::Greater)
        } else {
            Some(Ordering::Equal)
        }
    }
}

} // verus!
