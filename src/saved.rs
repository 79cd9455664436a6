//! The entry store in the form it is saved in: each entry with its reports
//! in one list, newest block first. Restoring merges them afresh, which
//! rebuilds the blocks (see `lemma_merge_rebuilds`).
use vstd::prelude::*;

use crate::entry::{has_name, AmsatEntry, EntryStore};
use crate::reports::{
    blocks_view, flatten_blocks, lemma_merge_rebuilds, merge_reports, merged, reports_placed, reports_view,
    AmsatReport, SatelliteDataBlock,
};

verus! {

/// One saved entry.
#[derive(Debug, Clone)]
pub struct SavedEntry {
    pub api_name: String,
    /// The entry's reports, newest block first, each block's in order.
    pub reports: Vec<AmsatReport>,
    pub last_updated: i64,
    pub last_fetch_success: Option<i64>,
    pub update_success: bool,
}

/// `s` is the saved form of `e`.
pub open spec fn saved_from(s: SavedEntry, e: AmsatEntry) -> bool {
    &&& s.api_name@ == e.api_name@
    &&& reports_view(s.reports@) == flatten_blocks(blocks_view(e.reports@))
    &&& s.last_updated == e.last_updated
    &&& s.last_fetch_success == e.last_fetch_success
    &&& s.update_success == e.update_success
}

/// `e` is the entry restored from `s` at `now`.
pub open spec fn restored_from(e: AmsatEntry, s: SavedEntry, now: i64) -> bool {
    &&& e.api_name@ == s.api_name@
    &&& blocks_view(e.reports@) == merged(Seq::empty(), reports_view(s.reports@), now as int)
    &&& e.last_updated == s.last_updated
    &&& e.last_fetch_success == s.last_fetch_success
    &&& e.update_success == s.update_success
}

/// `e` is restored from one of the saved entries.
pub open spec fn restored_by(e: AmsatEntry, saved: Seq<SavedEntry>, now: i64) -> bool {
    exists|q: int| 0 <= q < saved.len() && restored_from(e, #[trigger] saved[q], now)
}

fn flatten(bs: &Vec<SatelliteDataBlock>) -> (r: Vec<AmsatReport>)
    ensures
        reports_view(r@) == flatten_blocks(blocks_view(bs@)),
{
    let ghost bv = blocks_view(bs@);
    let mut out: Vec<AmsatReport> = Vec::new();
    let mut i: usize = 0;
    assert(bv.subrange(0, 0) =~= Seq::<crate::reports::BlockView>::empty());
    assert(reports_view(out@) =~= Seq::<crate::reports::ReportView>::empty());
    while i < bs.len()
        invariant
            i <= bs@.len() == bv.len(),
            bv == blocks_view(bs@),
            reports_view(out@) == flatten_blocks(bv.subrange(0, i as int)),
        decreases bs.len() - i,
    {
        let ghost head = reports_view(out@);
        let rs = &bs[i].reports;
        let ghost rv = reports_view(rs@);
        assert(bv[i as int].reports == rv);
        let mut j: usize = 0;
        assert(rv.subrange(0, 0) =~= Seq::<crate::reports::ReportView>::empty());
        assert(head + rv.subrange(0, 0) =~= head);
        while j < rs.len()
            invariant
                j <= rs@.len() == rv.len(),
                rv == reports_view(rs@),
                reports_view(out@) == head + rv.subrange(0, j as int),
            decreases rs.len() - j,
        {
            let ghost before = out@;
            let r = rs[j].duplicate();
            out.push(r);
            assert(reports_view(out@) =~= reports_view(before).push(rv[j as int]));
            assert(head + rv.subrange(0, j + 1) =~= (head + rv.subrange(0, j as int)).push(rv[j as int]));
            j = j + 1;
        }
        assert(rv.subrange(0, rv.len() as int) =~= rv);
        let ghost pre = bv.subrange(0, i + 1);
        assert(pre.drop_last() =~= bv.subrange(0, i as int));
        assert(pre.last() == bv[i as int]);
        i = i + 1;
    }
    assert(bv.subrange(0, bv.len() as int) =~= bv);
    out
}

impl EntryStore {
    /// The store in its saved form, one saved entry for each entry, in order.
    pub fn saved_form(&self) -> (r: Vec<SavedEntry>)
        ensures
            r@.len() == self.entries@.len(),
            forall|i: int| 0 <= i < r@.len() ==> saved_from(#[trigger] r@[i], self.entries@[i]),
    {
        let mut out: Vec<SavedEntry> = Vec::new();
        let mut i: usize = 0;
        while i < self.entries.len()
            invariant
                i <= self.entries@.len(),
                out@.len() == i,
                forall|k: int| 0 <= k < i ==> saved_from(#[trigger] out@[k], self.entries@[k]),
            decreases self.entries.len() - i,
        {
            let e = &self.entries[i];
            let s = SavedEntry {
                api_name: e.api_name.clone(),
                reports: flatten(&e.reports),
                last_updated: e.last_updated,
                last_fetch_success: e.last_fetch_success,
                update_success: e.update_success,
            };
            out.push(s);
            i = i + 1;
        }
        out
    }

    /// The store restored at `now` from its saved form: one entry for each
    /// name, from the first saved entry of that name, its reports merged
    /// afresh.
    pub fn restore(saved: &Vec<SavedEntry>, now: i64) -> (r: EntryStore)
        requires
        ensures
            r.wf(),
            forall|k: int| 0 <= k < saved@.len() ==> has_name(r.entries@, #[trigger] saved@[k].api_name@),
            forall|i: int| 0 <= i < r.entries@.len() ==> restored_by(#[trigger] r.entries@[i], saved@, now),
    {
        let mut store = EntryStore::new();
        let mut k: usize = 0;
        while k < saved.len()
            invariant
                k <= saved@.len(),
                store.wf(),
                forall|q: int| 0 <= q < k ==> has_name(store.entries@, #[trigger] saved@[q].api_name@),
                forall|i: int| 0 <= i < store.entries@.len() ==> restored_by(#[trigger] store.entries@[i], saved@, now),
            decreases saved.len() - k,
        {
            let s = &saved[k];
            let ghost before = store.entries@;
            match store.find(s.api_name.as_str()) {
                Some(_) => {},
                None => {
                    let mut e = AmsatEntry::from_api_name(s.api_name.as_str(), s.last_updated);
                    assert(blocks_view(e.reports@) =~= Seq::<crate::reports::BlockView>::empty());
                    merge_reports(&mut e.reports, &s.reports, now);
                    e.last_fetch_success = s.last_fetch_success;
                    e.update_success = s.update_success;
                    assert(restored_from(e, saved@[k as int], now));
                    store.entries.push(e);
                    assert forall|a: int, b: int|
                        0 <= a < store.entries@.len() && 0 <= b < store.entries@.len() && a != b implies
                        #[trigger] store.entries@[a].api_name@ != #[trigger] store.entries@[b].api_name@ by {
                        if a < before.len() && b < before.len() {
                            assert(store.entries@[a] == before[a] && store.entries@[b] == before[b]);
                        } else if a < before.len() {
                            assert(store.entries@[a] == before[a]);
                        } else {
                            assert(store.entries@[b] == before[b]);
                        }
                    }
                    assert forall|i: int| 0 <= i < store.entries@.len() implies (#[trigger] store.entries@[i]).wf() by {
                        if i < before.len() {
                            assert(store.entries@[i] == before[i]);
                        }
                    }
                    assert forall|i: int| 0 <= i < store.entries@.len() implies restored_by(#[trigger] store.entries@[i], saved@, now) by {
                        if i < before.len() {
                            assert(store.entries@[i] == before[i]);
                        } else {
                            assert(restored_from(store.entries@[i], saved@[k as int], now));
                        }
                    }
                    assert forall|q: int| 0 <= q < k implies has_name(store.entries@, #[trigger] saved@[q].api_name@) by {
                        assert(has_name(before, saved@[q].api_name@));
                        let i0 = choose|i: int| 0 <= i < before.len() && #[trigger] before[i].api_name@ == saved@[q].api_name@;
                        assert(store.entries@[i0] == before[i0]);
                    }
                },
            }
            assert(has_name(store.entries@, saved@[k as int].api_name@)) by {
                if store.entries@.len() > before.len() {
                    assert(store.entries@[before.len() as int].api_name@ == saved@[k as int].api_name@);
                }
            }
            k = k + 1;
        }
        store
    }
}

/// Saving an entry and restoring it gives the entry back, where each of
/// its reports still lies in the block of its hour and inside the retention
/// window at the time of restoring.
pub proof fn lemma_save_restore(e: AmsatEntry, s: SavedEntry, r: AmsatEntry, now: i64)
    requires
        e.wf(),
        reports_placed(blocks_view(e.reports@), now as int),
        saved_from(s, e),
        restored_from(r, s, now),
    ensures
        r.api_name@ == e.api_name@,
        blocks_view(r.reports@) == blocks_view(e.reports@),
        r.last_updated == e.last_updated,
        r.last_fetch_success == e.last_fetch_success,
        r.update_success == e.update_success,
{
    lemma_merge_rebuilds(blocks_view(e.reports@), now as int);
}

} // verus!
