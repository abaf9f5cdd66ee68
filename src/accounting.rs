//! Read-only queries that cross-check the manifest against the files on disk.
//!
//! The caller probes the filesystem and passes `present`: one flag per
//! record, in the order of `Manifest::records`, true where that record's file
//! exists. A record whose file is missing counts as absent everywhere here.
use vstd::prelude::*;

use crate::error::CacheError;
use crate::manifest::{Manifest, views};
use crate::record::{AssetRecord, AssetRecordView};

verus! {

/// The records of `s` whose files are present, in order.
pub open spec fn available_records(s: Seq<AssetRecordView>, present: Seq<bool>) -> Seq<
    AssetRecordView,
>
    decreases s.len(),
{
    if s.len() == 0 || present.len() == 0 {
        Seq::empty()
    } else {
        let rest = available_records(s.drop_last(), present.drop_last());
        if present.last() {
            rest.push(s.last())
        } else {
            rest
        }
    }
}

/// The total size of the records of `s` whose files are present.
pub open spec fn available_bytes(s: Seq<AssetRecordView>, present: Seq<bool>) -> nat
    decreases s.len(),
{
    if s.len() == 0 || present.len() == 0 {
        0
    } else {
        let rest = available_bytes(s.drop_last(), present.drop_last());
        if present.last() {
            rest + s.last().size_bytes
        } else {
            rest
        }
    }
}

/// Some record of `s` has the key `key` and its file is present.
pub open spec fn key_available(s: Seq<AssetRecordView>, present: Seq<bool>, key: Seq<char>) -> bool {
    exists|i: int| 0 <= i < s.len() && #[trigger] s[i].key == key && present[i]
}

/// How many retained assets are usable, and how many bytes they take.
#[derive(Debug, Clone, Copy, PartialEq, Eq, Structural)]
pub struct UsageSummary {
    pub count: usize,
    pub total_bytes: u128,
}

proof fn lemma_prefix(s: Seq<AssetRecordView>, p: Seq<bool>, i: int)
    requires
        0 <= i < s.len(),
        s.len() == p.len(),
    ensures
        s.take(i + 1).drop_last() == s.take(i),
        p.take(i + 1).drop_last() == p.take(i),
        s.take(i + 1).last() == s[i],
        p.take(i + 1).last() == p[i],
{
    assert(s.take(i + 1).drop_last() =~= s.take(i));
    assert(p.take(i + 1).drop_last() =~= p.take(i));
}

/// `x` is a record of `s` whose file is present.
pub open spec fn present_record(s: Seq<AssetRecordView>, present: Seq<bool>, x: AssetRecordView) -> bool {
    exists|j: int| 0 <= j < s.len() && present[j] && s[j] == x
}

/// Every record of `available_records(s, present)` is a record of `s` whose
/// file is present.
proof fn lemma_available_from(s: Seq<AssetRecordView>, present: Seq<bool>)
    requires
        s.len() == present.len(),
    ensures
        forall|t: int|
            0 <= t < available_records(s, present).len() ==> present_record(
                s,
                present,
                #[trigger] available_records(s, present)[t],
            ),
    decreases s.len(),
{
    if s.len() > 0 {
        let a = available_records(s, present);
        let rest = available_records(s.drop_last(), present.drop_last());
        lemma_available_from(s.drop_last(), present.drop_last());
        assert forall|t: int| 0 <= t < a.len() implies present_record(s, present, #[trigger] a[t]) by {
            if t < rest.len() {
                assert(a[t] == rest[t]);
                assert(present_record(s.drop_last(), present.drop_last(), rest[t]));
                let j = choose|j: int|
                    0 <= j < s.drop_last().len() && present.drop_last()[j] && s.drop_last()[j]
                        == rest[t];
                assert(s[j] == a[t]);
            } else {
                assert(s[s.len() - 1] == a[t]);
            }
        }
    }
}

/// Clearing the flag of record `i` removes it from the count and the total
/// when it was counted, and changes nothing otherwise.
proof fn lemma_flag_cleared(s: Seq<AssetRecordView>, present: Seq<bool>, i: int)
    requires
        s.len() == present.len(),
        0 <= i < s.len(),
    ensures
        available_records(s, present.update(i, false)).len() + (if present[i] {
            1int
        } else {
            0int
        }) == available_records(s, present).len(),
        available_bytes(s, present.update(i, false)) + (if present[i] {
            s[i].size_bytes as int
        } else {
            0int
        }) == available_bytes(s, present),
    decreases s.len(),
{
    let q = present.update(i, false);
    assert(q.drop_last() =~= if i == s.len() - 1 {
        present.drop_last()
    } else {
        present.drop_last().update(i, false)
    });
    if i < s.len() - 1 {
        lemma_flag_cleared(s.drop_last(), present.drop_last(), i);
    }
}

/// A record whose file has gone missing, without any call to delete it,
/// stops counting: its key is not available, it is not listed, and the
/// usage summary drops it (one record and its size fewer, where its file
/// had been present). The manifest itself is not touched by any of these
/// queries.
pub proof fn lemma_missing_file_excluded(m: Manifest, present: Seq<bool>, i: int)
    requires
        m.wf(),
        present.len() == m.records_view().len(),
        0 <= i < present.len(),
    ensures
        ({
            let s = m.records_view();
            let q = present.update(i, false);
            &&& !key_available(s, q, s[i].key)
            &&& forall|t: int|
                0 <= t < available_records(s, q).len() ==> (#[trigger] available_records(
                    s,
                    q,
                )[t]).key != s[i].key
            &&& available_records(s, q).len() + (if present[i] {
                1int
            } else {
                0int
            }) == available_records(s, present).len()
            &&& available_bytes(s, q) + (if present[i] {
                s[i].size_bytes as int
            } else {
                0int
            }) == available_bytes(s, present)
        }),
{
    let s = m.records_view();
    let q = present.update(i, false);
    lemma_flag_cleared(s, present, i);
    lemma_available_from(s, q);
    assert forall|j: int| 0 <= j < s.len() && #[trigger] s[j].key == s[i].key implies !q[j] by {
        if j != i {
            m.lemma_unique(i, j);
        }
    }
    assert forall|t: int| 0 <= t < available_records(s, q).len() implies (
    #[trigger] available_records(s, q)[t]).key != s[i].key by {
        assert(present_record(s, q, available_records(s, q)[t]));
        let j = choose|j: int| 0 <= j < s.len() && q[j] && s[j] == available_records(s, q)[t];
        if j != i {
            m.lemma_unique(i, j);
        }
    }
}

/// Dropping a record whose file is missing from the list of records (and its
/// flag from the flags) changes nothing that the queries report: the same
/// records are listed, and the count and total are the same.
pub proof fn lemma_stale_record_adds_nothing(s: Seq<AssetRecordView>, present: Seq<bool>, i: int)
    requires
        s.len() == present.len(),
        0 <= i < s.len(),
        !present[i],
    ensures
        available_records(s.remove(i), present.remove(i)) == available_records(s, present),
        available_bytes(s.remove(i), present.remove(i)) == available_bytes(s, present),
    decreases s.len(),
{
    if i == s.len() - 1 {
        assert(s.remove(i) =~= s.drop_last());
        assert(present.remove(i) =~= present.drop_last());
    } else {
        assert(s.remove(i).drop_last() =~= s.drop_last().remove(i));
        assert(present.remove(i).drop_last() =~= present.drop_last().remove(i));
        assert(s.remove(i).last() == s.last());
        assert(present.remove(i).last() == present.last());
        lemma_stale_record_adds_nothing(s.drop_last(), present.drop_last(), i);
    }
}

/// Deleting the record of a key whose file is missing leaves the usage
/// summary and the listing as they were, where the other files stay as they
/// are: a stale record contributes nothing, with or without a delete call.
pub proof fn lemma_stale_delete_keeps_usage(
    before: Manifest,
    after: Manifest,
    present: Seq<bool>,
    i: int,
)
    requires
        present.len() == before.records_view().len(),
        0 <= i < present.len(),
        !present[i],
        after.records_view() == before.records_view().remove(i),
    ensures
        available_records(after.records_view(), present.remove(i)) == available_records(
            before.records_view(),
            present,
        ),
        available_records(after.records_view(), present.remove(i)).len() == available_records(
            before.records_view(),
            present,
        ).len(),
        available_bytes(after.records_view(), present.remove(i)) == available_bytes(
            before.records_view(),
            present,
        ),
{
    lemma_stale_record_adds_nothing(before.records_view(), present, i);
}

/// After a download of `rec` and a delete of its key, the manifest has no
/// record for the key, and the key is not available whichever files exist.
pub proof fn lemma_deleted_unavailable(
    before: Map<Seq<char>, AssetRecordView>,
    rec: AssetRecordView,
    m: Manifest,
    present: Seq<bool>,
)
    requires
        m.wf(),
        m@ == before.insert(rec.key, rec).remove(rec.key),
        present.len() == m.records_view().len(),
    ensures
        !m@.contains_key(rec.key),
        !key_available(m.records_view(), present, rec.key),
{
    let s = m.records_view();
    if key_available(s, present, rec.key) {
        let j = choose|j: int| 0 <= j < s.len() && #[trigger] s[j].key == rec.key && present[j];
        m.lemma_view_at(j);
    }
}

impl Manifest {
    /// Whether `key` has a record whose file exists.
    pub fn is_available(&self, key: &str, present: &Vec<bool>) -> (r: bool)
        requires
            self.wf(),
            present@.len() == self.records_view().len(),
        ensures
            r == key_available(self.records_view(), present@, key@),
            r ==> self@.contains_key(key@),
    {
        match self.find_present(key, present) {
            Some(_) => true,
            None => false,
        }
    }

    /// The local path of `key`'s record; `NotAvailable` where there is no
    /// record or its file is missing.
    pub fn resolve_path(&self, key: &str, present: &Vec<bool>) -> (r: Result<String, CacheError>)
        requires
            self.wf(),
            present@.len() == self.records_view().len(),
        ensures
            r is Ok <==> key_available(self.records_view(), present@, key@),
            r matches Ok(path) ==> self@.contains_key(key@) && path@ == self@[key@].local_path,
            r matches Err(e) ==> e == CacheError::NotAvailable,
    {
        match self.find_present(key, present) {
            Some(i) => {
                let recs = self.records();
                proof {
                    assert(self.records_view()[i as int] == recs@[i as int]@);
                }
                Ok(recs[i].local_path.clone())
            },
            None => Err(CacheError::NotAvailable),
        }
    }

    /// The position of `key`'s record where its file is present.
    fn find_present(&self, key: &str, present: &Vec<bool>) -> (r: Option<usize>)
        requires
            self.wf(),
            present@.len() == self.records_view().len(),
        ensures
            r is Some <==> key_available(self.records_view(), present@, key@),
            r matches Some(i) ==> i < self.records_view().len() && self.records_view()[i as int]
                == self@[key@] && self@.contains_key(key@),
    {
        let recs = self.records();
        let ghost s = self.records_view();
        let wanted = String::from_str(key);
        let mut i: usize = 0;
        while i < recs.len()
            invariant
                self.wf(),
                s == self.records_view(),
                views(recs@) == s,
                present@.len() == s.len(),
                wanted@ == key@,
                i <= s.len(),
                forall|j: int| 0 <= j < i ==> s[j].key != key@,
            decreases s.len() - i,
        {
            proof {
                assert(s[i as int] == recs@[i as int]@);
            }
            if recs[i].key == wanted {
                proof {
                    self.lemma_view_at(i as int);
                }
                if present[i] {
                    return Some(i);
                }
                proof {
                    assert forall|j: int| 0 <= j < s.len() && #[trigger] s[j].key == key@ implies !present@[j] by {
                        if j != i {
                            self.lemma_unique(i as int, j);
                        }
                    }
                }
                return None;
            }
            i = i + 1;
        }
        None
    }

    /// The records whose files exist, in stored order.
    pub fn list_available(&self, present: &Vec<bool>) -> (r: Vec<AssetRecord>)
        requires
            present@.len() == self.records_view().len(),
        ensures
            views(r@) == available_records(self.records_view(), present@),
    {
        let recs = self.records();
        let ghost s = self.records_view();
        let mut out: Vec<AssetRecord> = Vec::new();
        let mut i: usize = 0;
        while i < recs.len()
            invariant
                views(recs@) == s,
                present@.len() == s.len(),
                i <= s.len(),
                views(out@) == available_records(s.take(i as int), present@.take(i as int)),
            decreases s.len() - i,
        {
            proof {
                lemma_prefix(s, present@, i as int);
                assert(s[i as int] == recs@[i as int]@);
            }
            if present[i] {
                let ghost prev = out@;
                out.push(recs[i].duplicate());
                proof {
                    assert(views(out@) =~= views(prev).push(s[i as int]));
                }
            }
            i = i + 1;
        }
        proof {
            assert(s.take(i as int) =~= s);
            assert(present@.take(i as int) =~= present@);
        }
        out
    }

    /// How many records have their files present, and their total size.
    pub fn usage_summary(&self, present: &Vec<bool>) -> (r: UsageSummary)
        requires
            present@.len() == self.records_view().len(),
        ensures
            r.count == available_records(self.records_view(), present@).len(),
            r.total_bytes == available_bytes(self.records_view(), present@),
    {
        let recs = self.records();
        let ghost s = self.records_view();
        let mut count: usize = 0;
        let mut total: u128 = 0;
        let mut i: usize = 0;
        while i < recs.len()
            invariant
                views(recs@) == s,
                present@.len() == s.len(),
                i <= s.len(),
                count <= i,
                count == available_records(s.take(i as int), present@.take(i as int)).len(),
                total == available_bytes(s.take(i as int), present@.take(i as int)),
                total <= i * 0xffff_ffff_ffff_ffffu64,
            decreases s.len() - i,
        {
            proof {
                lemma_prefix(s, present@, i as int);
                assert(s[i as int] == recs@[i as int]@);
            }
            if present[i] {
                let size = recs[i].size_bytes;
                proof {
                    assert(total + size <= (i + 1) * 0xffff_ffff_ffff_ffffu64) by (nonlinear_arith)
                        requires
                            total <= i * 0xffff_ffff_ffff_ffffu64,
                            size <= 0xffff_ffff_ffff_ffffu64,
                    ;
                    assert((i + 1) * 0xffff_ffff_ffff_ffffu64 <= 0x1_0000_0000_0000_0000 * 0xffff_ffff_ffff_ffffu128) by (nonlinear_arith)
                        requires
                            i < 0x1_0000_0000_0000_0000int,
                    ;
                }
                total = total + size as u128;
                count = count + 1;
            }
            i = i + 1;
        }
        proof {
            assert(s.take(i as int) =~= s);
            assert(present@.take(i as int) =~= present@);
        }
        UsageSummary { count, total_bytes: total }
    }
}

} // verus!
