//! The manifest: every retained asset, at most one record per key.
use vstd::prelude::*;

use crate::error::CacheError;
use crate::record::{AssetRecord, AssetRecordView};

verus! {

/// The records of `s` viewed as a map from key to record; a later record
/// for a key shadows an earlier one.
pub open spec fn records_map(s: Seq<AssetRecordView>) -> Map<Seq<char>, AssetRecordView>
    decreases s.len(),
{
    if s.len() == 0 {
        Map::empty()
    } else {
        records_map(s.drop_last()).insert(s.last().key, s.last())
    }
}

/// No two records of `s` share a key.
pub open spec fn unique_keys(s: Seq<AssetRecordView>) -> bool {
    forall|i: int, j: int|
        0 <= i < s.len() && 0 <= j < s.len() && i != j ==> #[trigger] s[i].key != #[trigger] s[j].key
}

/// The views of a sequence of records.
pub open spec fn views(s: Seq<AssetRecord>) -> Seq<AssetRecordView> {
    s.map_values(|r: AssetRecord| r@)
}

/// Some record of `s` has the key `k`.
pub open spec fn has_key(s: Seq<AssetRecordView>, k: Seq<char>) -> bool {
    exists|i: int| 0 <= i < s.len() && #[trigger] s[i].key == k
}

/// What a map built from records with distinct keys holds.
pub proof fn lemma_records_map(s: Seq<AssetRecordView>)
    requires
        unique_keys(s),
    ensures
        forall|k: Seq<char>| #[trigger] records_map(s).contains_key(k) <==> has_key(s, k),
        forall|i: int| 0 <= i < s.len() ==> #[trigger] records_map(s)[s[i].key] == s[i],
        records_map(s).dom().finite(),
        records_map(s).len() == s.len(),
    decreases s.len(),
{
    if s.len() > 0 {
        let t = s.drop_last();
        assert(unique_keys(t));
        lemma_records_map(t);
        let m = records_map(t);
        assert forall|k: Seq<char>| #[trigger] records_map(s).contains_key(k) <==> has_key(s, k) by {
            if has_key(s, k) {
                let i = choose|i: int| 0 <= i < s.len() && #[trigger] s[i].key == k;
                if i < s.len() - 1 {
                    assert(t[i].key == k);
                }
            }
            if records_map(s).contains_key(k) && k != s.last().key {
                let i = choose|i: int| 0 <= i < t.len() && #[trigger] t[i].key == k;
                assert(s[i].key == k);
            }
        }
        assert forall|i: int| 0 <= i < s.len() implies #[trigger] records_map(s)[s[i].key] == s[i] by {
            if i < s.len() - 1 {
                assert(t[i] == s[i]);
                assert(s[i].key != s[s.len() - 1].key);
            }
        }
        assert(!m.contains_key(s.last().key)) by {
            if m.contains_key(s.last().key) {
                let i = choose|i: int| 0 <= i < t.len() && #[trigger] t[i].key == s.last().key;
                assert(s[i].key == s[s.len() - 1].key);
            }
        }
    }
}

/// Replacing a record by one with the same key replaces the key's entry.
proof fn lemma_replace(s: Seq<AssetRecordView>, i: int, r: AssetRecordView)
    requires
        unique_keys(s),
        0 <= i < s.len(),
        s[i].key == r.key,
    ensures
        unique_keys(s.update(i, r)),
        records_map(s.update(i, r)) == records_map(s).insert(r.key, r),
{
    let t = s.update(i, r);
    assert forall|a: int, b: int|
        0 <= a < t.len() && 0 <= b < t.len() && a != b implies #[trigger] t[a].key
        != #[trigger] t[b].key by {
        assert(t[a].key == s[a].key && t[b].key == s[b].key);
    }
    lemma_records_map(s);
    lemma_records_map(t);
    let m = records_map(s).insert(r.key, r);
    assert forall|k: Seq<char>| #[trigger] records_map(t).contains_key(k) <==> m.contains_key(k) by {
        if has_key(t, k) {
            let j = choose|j: int| 0 <= j < t.len() && #[trigger] t[j].key == k;
            assert(s[j].key == k);
        }
        if has_key(s, k) {
            let j = choose|j: int| 0 <= j < s.len() && #[trigger] s[j].key == k;
            assert(t[j].key == k);
        }
    }
    assert forall|k: Seq<char>| #[trigger] records_map(t).contains_key(k) implies records_map(t)[k]
        == m[k] by {
        let j = choose|j: int| 0 <= j < t.len() && #[trigger] t[j].key == k;
        assert(records_map(t)[t[j].key] == t[j]);
        if j != i {
            assert(records_map(s)[s[j].key] == s[j]);
        }
    }
    assert(records_map(t) =~= m);
}

/// Appending a record with a new key adds its entry.
proof fn lemma_append(s: Seq<AssetRecordView>, r: AssetRecordView)
    requires
        unique_keys(s),
        !has_key(s, r.key),
    ensures
        unique_keys(s.push(r)),
        records_map(s.push(r)) == records_map(s).insert(r.key, r),
{
    let t = s.push(r);
    assert forall|a: int, b: int|
        0 <= a < t.len() && 0 <= b < t.len() && a != b implies #[trigger] t[a].key
        != #[trigger] t[b].key by {
        if a == s.len() {
            assert(s[b].key == t[b].key);
        } else if b == s.len() {
            assert(s[a].key == t[a].key);
        } else {
            assert(s[a].key == t[a].key && s[b].key == t[b].key);
        }
    }
    assert(t.drop_last() =~= s);
}

/// Taking out the record at `i` takes out its key's entry.
proof fn lemma_take_out(s: Seq<AssetRecordView>, i: int)
    requires
        unique_keys(s),
        0 <= i < s.len(),
    ensures
        unique_keys(s.remove(i)),
        records_map(s.remove(i)) == records_map(s).remove(s[i].key),
{
    let t = s.remove(i);
    let gone = s[i].key;
    assert forall|a: int, b: int|
        0 <= a < t.len() && 0 <= b < t.len() && a != b implies #[trigger] t[a].key
        != #[trigger] t[b].key by {
        let sa = if a < i { a } else { a + 1 };
        let sb = if b < i { b } else { b + 1 };
        assert(t[a] == s[sa] && t[b] == s[sb]);
    }
    lemma_records_map(s);
    lemma_records_map(t);
    let m = records_map(s).remove(gone);
    assert forall|k: Seq<char>| #[trigger] records_map(t).contains_key(k) <==> m.contains_key(k) by {
        if has_key(t, k) {
            let j = choose|j: int| 0 <= j < t.len() && #[trigger] t[j].key == k;
            let sj = if j < i { j } else { j + 1 };
            assert(s[sj].key == k);
        }
        if has_key(s, k) && k != gone {
            let j = choose|j: int| 0 <= j < s.len() && #[trigger] s[j].key == k;
            if j < i {
                assert(t[j].key == k);
            } else {
                assert(j != i);
                assert(t[j - 1].key == k);
            }
        }
    }
    assert forall|k: Seq<char>| #[trigger] records_map(t).contains_key(k) implies records_map(t)[k]
        == m[k] by {
        let j = choose|j: int| 0 <= j < t.len() && #[trigger] t[j].key == k;
        let sj = if j < i { j } else { j + 1 };
        assert(t[j] == s[sj]);
        assert(records_map(t)[t[j].key] == t[j]);
        assert(records_map(s)[s[sj].key] == s[sj]);
    }
    assert(records_map(t) =~= m);
}

/// The records of a list of `(key, record)` entries.
pub open spec fn entry_records(e: Seq<(Seq<char>, AssetRecordView)>) -> Seq<AssetRecordView> {
    e.map_values(|p: (Seq<char>, AssetRecordView)| p.1)
}

/// Each entry stores its record under the record's own key, and no key
/// occurs twice: the entries describe a valid manifest.
pub open spec fn entries_consistent(e: Seq<(Seq<char>, AssetRecordView)>) -> bool {
    &&& forall|i: int| 0 <= i < e.len() ==> (#[trigger] e[i]).0 == e[i].1.key
    &&& unique_keys(entry_records(e))
}

/// The entries under which `s` is persisted: each record under its key.
pub open spec fn entries_of(s: Seq<AssetRecordView>) -> Seq<(Seq<char>, AssetRecordView)> {
    s.map_values(|r: AssetRecordView| (r.key, r))
}

/// The views of a list of entries.
pub open spec fn entry_views(e: Seq<(String, AssetRecord)>) -> Seq<(Seq<char>, AssetRecordView)> {
    e.map_values(|p: (String, AssetRecord)| (p.0@, p.1@))
}

/// Persisting a manifest as entries and reading the entries back gives the
/// same records: the entries are consistent, and they map each key to the
/// record the manifest held for it.
pub proof fn lemma_round_trip(m: Manifest)
    requires
        m.wf(),
    ensures
        entries_consistent(entries_of(m.records_view())),
        records_map(entry_records(entries_of(m.records_view()))) == m@,
{
    let s = m.records_view();
    assert(entry_records(entries_of(s)) =~= s);
}

/// The map after the records of `recs` are committed one after another,
/// starting from `m`; each commit replaces the record of its key.
pub open spec fn committed_all(m: Map<Seq<char>, AssetRecordView>, recs: Seq<AssetRecordView>) -> Map<
    Seq<char>,
    AssetRecordView,
>
    decreases recs.len(),
{
    if recs.len() == 0 {
        m
    } else {
        committed_all(m, recs.drop_last()).insert(recs.last().key, recs.last())
    }
}

/// Commits that are serialized lose no update: once downloads of distinct
/// keys have all committed, in whatever order, every one of those keys maps
/// to its own record, and every other key keeps what it had.
pub proof fn lemma_no_lost_updates(m: Map<Seq<char>, AssetRecordView>, recs: Seq<AssetRecordView>)
    requires
        unique_keys(recs),
    ensures
        forall|i: int|
            0 <= i < recs.len() ==> #[trigger] committed_all(m, recs).contains_key(recs[i].key)
                && committed_all(m, recs)[recs[i].key] == recs[i],
        forall|k: Seq<char>|
            !has_key(recs, k) ==> (#[trigger] committed_all(m, recs).contains_key(k)
                <==> m.contains_key(k)),
        forall|k: Seq<char>|
            !has_key(recs, k) && m.contains_key(k) ==> #[trigger] committed_all(m, recs)[k]
                == m[k],
    decreases recs.len(),
{
    if recs.len() > 0 {
        let t = recs.drop_last();
        assert(unique_keys(t));
        lemma_no_lost_updates(m, t);
        assert forall|i: int| 0 <= i < recs.len() implies #[trigger] committed_all(
            m,
            recs,
        ).contains_key(recs[i].key) && committed_all(m, recs)[recs[i].key] == recs[i] by {
            if i < recs.len() - 1 {
                assert(t[i] == recs[i]);
                assert(committed_all(m, t).contains_key(t[i].key));
                assert(committed_all(m, t)[t[i].key] == t[i]);
                assert(recs[i].key != recs[recs.len() - 1].key);
            }
        }
        assert forall|k: Seq<char>| !has_key(recs, k) implies (#[trigger] committed_all(
            m,
            recs,
        ).contains_key(k) <==> m.contains_key(k)) by {
            assert(recs[recs.len() - 1].key != k);
            if has_key(t, k) {
                let j = choose|j: int| 0 <= j < t.len() && #[trigger] t[j].key == k;
                assert(recs[j].key == k);
            }
            assert(committed_all(m, t).contains_key(k) <==> m.contains_key(k));
        }
        assert forall|k: Seq<char>| !has_key(recs, k) && m.contains_key(k) implies #[trigger] committed_all(
            m,
            recs,
        )[k] == m[k] by {
            assert(recs[recs.len() - 1].key != k);
            if has_key(t, k) {
                let j = choose|j: int| 0 <= j < t.len() && #[trigger] t[j].key == k;
                assert(recs[j].key == k);
            }
            assert(committed_all(m, t)[k] == m[k]);
        }
    }
}

/// Downloading a key a second time leaves exactly one record for it, the
/// second download's: the manifest is as if only the second had happened,
/// and its record count is the one after the first.
pub proof fn lemma_redownload_supersedes(
    base: Manifest,
    once: Manifest,
    twice: Manifest,
    first: AssetRecordView,
    second: AssetRecordView,
)
    requires
        base.wf(),
        once.wf(),
        twice.wf(),
        first.key == second.key,
        once@ == base@.insert(first.key, first),
        twice@ == once@.insert(second.key, second),
    ensures
        twice@ == base@.insert(second.key, second),
        twice@[second.key] == second,
        twice@.len() == once@.len(),
        exists|i: int|
            0 <= i < twice.records_view().len() && #[trigger] twice.records_view()[i] == second
                && forall|j: int|
                0 <= j < twice.records_view().len() && #[trigger] twice.records_view()[j].key
                    == second.key ==> j == i,
{
    assert(twice@ =~= base@.insert(second.key, second));
    assert(twice@.dom() =~= once@.dom());
    lemma_records_map(twice.records_view());
    let s = twice.records_view();
    assert(has_key(s, second.key));
    let i = choose|i: int| 0 <= i < s.len() && #[trigger] s[i].key == second.key;
    assert(records_map(s)[s[i].key] == s[i]);
    assert forall|j: int| 0 <= j < s.len() && #[trigger] s[j].key == second.key implies j == i by {
        if j != i {
            assert(s[j].key != s[i].key);
        }
    }
}

/// The result of deleting a key: whether a record existed, or `IoError`
/// where the record existed but its file could not be deleted or the
/// manifest without it could not be saved. The record leaves the manifest
/// in every case; the caller saves the manifest even when the file stays.
pub fn delete_outcome(existed: bool, file_gone: bool, saved: bool) -> (r: Result<bool, CacheError>)
    ensures
        !existed ==> r == Ok::<bool, CacheError>(false),
        existed && file_gone && saved ==> r == Ok::<bool, CacheError>(true),
        existed && !(file_gone && saved) ==> r == Err::<bool, CacheError>(CacheError::IoError),
{
    if !existed {
        Ok(false)
    } else if file_gone && saved {
        Ok(true)
    } else {
        Err(CacheError::IoError)
    }
}

/// The persisted set of asset records, keyed by asset key.
pub struct Manifest {
    records: Vec<AssetRecord>,
}

impl View for Manifest {
    type V = Map<Seq<char>, AssetRecordView>;

    open spec fn view(&self) -> Map<Seq<char>, AssetRecordView> {
        records_map(self.records_view())
    }
}

impl Manifest {
    /// The records in their stored order.
    pub closed spec fn records_view(&self) -> Seq<AssetRecordView> {
        views(self.records@)
    }

    /// No two records share a key.
    pub open spec fn wf(&self) -> bool {
        unique_keys(self.records_view())
    }

    /// The view of the stored record at `i` is the entry of its key.
    pub proof fn lemma_view_at(&self, i: int)
        requires
            self.wf(),
            0 <= i < self.records_view().len(),
        ensures
            self@.contains_key(self.records_view()[i].key),
            self@[self.records_view()[i].key] == self.records_view()[i],
    {
        lemma_records_map(self.records_view());
        assert(has_key(self.records_view(), self.records_view()[i].key));
    }

    /// Two stored records at different positions have different keys.
    pub proof fn lemma_unique(&self, i: int, j: int)
        requires
            self.wf(),
            0 <= i < self.records_view().len(),
            0 <= j < self.records_view().len(),
            i != j,
        ensures
            self.records_view()[i].key != self.records_view()[j].key,
    {
    }

    /// An empty manifest.
    pub fn new() -> (r: Manifest)
        ensures
            r.wf(),
            r@ == Map::<Seq<char>, AssetRecordView>::empty(),
            r.records_view().len() == 0,
    {
        let r = Manifest { records: Vec::new() };
        assert(r.records_view() =~= Seq::<AssetRecordView>::empty());
        r
    }

    /// The records in their stored order; a caller checks which of their
    /// files exist in this order.
    pub fn records(&self) -> (r: &Vec<AssetRecord>)
        ensures
            views(r@) == self.records_view(),
    {
        &self.records
    }

    /// The number of records.
    pub fn len(&self) -> (r: usize)
        requires
            self.wf(),
        ensures
            r == self@.len(),
            r == self.records_view().len(),
    {
        proof {
            lemma_records_map(self.records_view());
        }
        self.records.len()
    }

    /// The position of the record for `key`, if any.
    fn position(&self, key: &str) -> (r: Option<usize>)
        requires
            self.wf(),
        ensures
            r is None <==> !self@.contains_key(key@),
            r matches Some(i) ==> i < self.records@.len() && self.records@[i as int].key@ == key@,
    {
        proof {
            lemma_records_map(self.records_view());
        }
        let wanted = String::from_str(key);
        let mut i: usize = 0;
        while i < self.records.len()
            invariant
                i <= self.records@.len(),
                self.wf(),
                wanted@ == key@,
                forall|j: int| 0 <= j < i ==> self.records@[j].key@ != key@,
            decreases self.records@.len() - i,
        {
            if self.records[i].key == wanted {
                proof {
                    assert(self.records_view()[i as int].key == key@);
                    assert(has_key(self.records_view(), key@));
                    lemma_records_map(self.records_view());
                }
                return Some(i);
            }
            i = i + 1;
        }
        proof {
            if has_key(self.records_view(), key@) {
                let j = choose|j: int|
                    0 <= j < self.records_view().len() && #[trigger] self.records_view()[j].key
                        == key@;
                assert(self.records@[j].key@ == key@);
            }
        }
        None
    }

    /// The record for `key`, if there is one.
    pub fn get(&self, key: &str) -> (r: Option<&AssetRecord>)
        requires
            self.wf(),
        ensures
            r is Some <==> self@.contains_key(key@),
            r matches Some(rec) ==> rec@ == self@[key@] && rec@.key == key@,
    {
        match self.position(key) {
            Some(i) => {
                proof {
                    lemma_records_map(self.records_view());
                    assert(self.records_view()[i as int] == self.records@[i as int]@);
                    assert(self@[self.records_view()[i as int].key] == self.records_view()[
                        i as int]);
                }
                Some(&self.records[i])
            },
            None => None,
        }
    }

    /// Stores `rec` under its key, replacing any record the key had; returns
    /// the replaced record.
    pub fn insert(&mut self, rec: AssetRecord) -> (r: Option<AssetRecord>)
        requires
            old(self).wf(),
        ensures
            final(self).wf(),
            final(self)@ == old(self)@.insert(rec.key@, rec@),
            r is Some <==> old(self)@.contains_key(rec.key@),
            r matches Some(prev) ==> prev@ == old(self)@[rec.key@],
    {
        let ghost before = self.records_view();
        let ghost rv = rec@;
        proof {
            lemma_records_map(before);
        }
        match self.position(rec.key.as_str()) {
            Some(i) => {
                let prev = self.records.remove(i);
                self.records.insert(i, rec);
                proof {
                    assert(self.records_view() =~= before.update(i as int, rv));
                    lemma_replace(before, i as int, rv);
                    assert(before[i as int] == prev@);
                    assert(records_map(before)[before[i as int].key] == before[i as int]);
                }
                Some(prev)
            },
            None => {
                self.records.push(rec);
                proof {
                    assert(self.records_view() =~= before.push(rv));
                    lemma_append(before, rv);
                }
                None
            },
        }
    }

    /// Takes out the record for `key`; returns it, or `None` when there was none.
    pub fn remove(&mut self, key: &str) -> (r: Option<AssetRecord>)
        requires
            old(self).wf(),
        ensures
            final(self).wf(),
            final(self)@ == old(self)@.remove(key@),
            r is Some <==> old(self)@.contains_key(key@),
            r matches Some(prev) ==> prev@ == old(self)@[key@],
            r is Some ==> exists|i: int|
                0 <= i < old(self).records_view().len() && #[trigger] old(
                    self,
                ).records_view()[i].key == key@ && final(self).records_view() == old(
                    self,
                ).records_view().remove(i),
            r is None ==> final(self).records_view() == old(self).records_view(),
    {
        let ghost before = self.records_view();
        proof {
            lemma_records_map(before);
        }
        match self.position(key) {
            Some(i) => {
                let prev = self.records.remove(i);
                proof {
                    assert(self.records_view() =~= before.remove(i as int));
                    lemma_take_out(before, i as int);
                    assert(before[i as int] == prev@);
                    assert(records_map(before)[before[i as int].key] == before[i as int]);
                    assert(before[i as int].key == key@);
                    assert(before[i as int].key == key@);
                }
                Some(prev)
            },
            None => {
                proof {
                    assert(self@ =~= self@.remove(key@));
                }
                None
            },
        }
    }

    /// The manifest that `entries` describe, as read back from storage;
    /// `CorruptManifest` where an entry's key is not its record's key, or a
    /// key occurs twice.
    pub fn from_entries(entries: Vec<(String, AssetRecord)>) -> (r: Result<Manifest, CacheError>)
        ensures
            r is Ok <==> entries_consistent(entry_views(entries@)),
            r matches Ok(m) ==> m.wf() && m@ == records_map(entry_records(entry_views(entries@))),
            r matches Err(e) ==> e == CacheError::CorruptManifest,
    {
        let ghost ev = entry_views(entries@);
        let ghost recs = entry_records(ev);
        let mut m = Manifest::new();
        let mut rest = entries;
        let n = rest.len();
        let mut i: usize = 0;
        // Work from the front by draining a reversed copy.
        let mut pending: Vec<(String, AssetRecord)> = Vec::new();
        while rest.len() > 0
            invariant
                pending@.len() + rest@.len() == n,
                n == entries@.len(),
                forall|j: int| 0 <= j < rest@.len() ==> #[trigger] rest@[j] == entries@[j],
                forall|j: int| 0 <= j < pending@.len() ==> #[trigger] pending@[j] == entries@[n - 1 - j],
            decreases rest@.len(),
        {
            let e = rest.pop().unwrap();
            pending.push(e);
        }
        while pending.len() > 0
            invariant
                i + pending@.len() == n,
                n == entries@.len(),
                ev == entry_views(entries@),
                recs == entry_records(ev),
                forall|j: int| 0 <= j < pending@.len() ==> #[trigger] pending@[j] == entries@[n - 1 - j],
                m.wf(),
                m@ == records_map(recs.take(i as int)),
                entries_consistent(ev.take(i as int)),
            decreases pending@.len(),
        {
            let (key, rec) = pending.pop().unwrap();
            proof {
                assert(ev[i as int] == (key@, rec@));
                assert(recs[i as int] == rec@);
                assert(ev.take(i as int + 1) =~= ev.take(i as int).push(ev[i as int]));
                assert(recs.take(i as int + 1) =~= recs.take(i as int).push(rec@));
                assert(entry_records(ev.take(i as int)) =~= recs.take(i as int));
                assert(entry_records(ev.take(i as int + 1)) =~= recs.take(i as int + 1));
                lemma_records_map(recs.take(i as int));
            }
            if key != rec.key {
                proof {
                    assert(!entries_consistent(ev));
                }
                return Err(CacheError::CorruptManifest);
            }
            if m.get(key.as_str()).is_some() {
                proof {
                    let j = choose|j: int|
                        0 <= j < i && #[trigger] recs.take(i as int)[j].key == key@;
                    assert(recs[j].key == recs[i as int].key);
                    assert(!entries_consistent(ev));
                }
                return Err(CacheError::CorruptManifest);
            }
            proof {
                lemma_append(recs.take(i as int), rec@);
                assert(recs.take(i as int + 1).drop_last() =~= recs.take(i as int));
            }
            m.insert(rec);
            i = i + 1;
        }
        proof {
            assert(ev.take(n as int) =~= ev);
            assert(recs.take(n as int) =~= recs);
        }
        Ok(m)
    }

    /// The entries under which this manifest is persisted: each record under its key.
    pub fn to_entries(&self) -> (r: Vec<(String, AssetRecord)>)
        ensures
            entry_views(r@) == entries_of(self.records_view()),
    {
        let mut out: Vec<(String, AssetRecord)> = Vec::new();
        let mut i: usize = 0;
        while i < self.records.len()
            invariant
                i <= self.records@.len(),
                out@.len() == i,
                entry_views(out@) == entries_of(self.records_view().take(i as int)),
            decreases self.records@.len() - i,
        {
            let rec = self.records[i].duplicate();
            let key = rec.key.clone();
            let ghost prev = out@;
            out.push((key, rec));
            proof {
                assert(entry_views(out@) =~= entry_views(prev).push((key@, rec@)));
                assert(self.records_view()[i as int] == self.records@[i as int]@);
                assert(entry_views(out@)[i as int] == (self.records_view()[i as int].key,
                    self.records_view()[i as int]));
                assert(self.records_view().take(i as int + 1) =~= self.records_view().take(
                    i as int,
                ).push(self.records_view()[i as int]));
                assert(entry_views(out@) =~= entries_of(self.records_view().take(i as int + 1)));
            }
            i = i + 1;
        }
        proof {
            assert(self.records_view().take(i as int) =~= self.records_view());
        }
        out
    }
}

} // verus!
