//! AMSAT entries: one per AMSAT API name, holding the retained hourly report
//! blocks, and the store of all entries that the update cycle fills.
use vstd::prelude::*;

use crate::amsat_name::{aliases_of, generate_aliases, opt_view, parse_amsat_name, parse_name, views};
use crate::reports::{
    blocks_view, blocks_wf, merge_reports, merged, reports_view, AmsatReport, BlockView, SatelliteDataBlock,
};
use crate::status::{status_of, ReportStatus};

verus! {

/// The status entry of one AMSAT API name.
#[derive(Debug, Clone)]
pub struct AmsatEntry {
    /// The AMSAT API name, e.g. `ISS-FM`; the key of the entry.
    pub api_name: String,
    /// Search aliases of the name.
    pub aliases: Vec<String>,
    /// The base name parsed from the API name, e.g. `ISS`.
    pub satellite_base_name: String,
    /// The mode hint parsed from the API name, e.g. `FM`.
    pub mode_hint: Option<String>,
    /// Hourly report blocks, newest first.
    pub reports: Vec<SatelliteDataBlock>,
    /// When the entry was last updated, in Unix seconds.
    pub last_updated: i64,
    /// When a fetch for the entry last succeeded, in Unix seconds.
    pub last_fetch_success: Option<i64>,
    /// Whether the last fetch succeeded.
    pub update_success: bool,
}

impl AmsatEntry {
    /// The entry's invariant: its blocks are well formed.
    pub open spec fn wf(&self) -> bool {
        blocks_wf(blocks_view(self.reports@))
    }

    /// A new entry for an API name, created at `now`, with no reports.
    pub fn from_api_name(api_name: &str, now: i64) -> (r: AmsatEntry)
        ensures
            r.api_name@ == api_name@,
            views(r.aliases@) == aliases_of(api_name@),
            (r.satellite_base_name@, opt_view(r.mode_hint)) == parse_name(api_name@),
            r.reports@.len() == 0,
            r.last_updated == now,
            r.last_fetch_success is None,
            !r.update_success,
            r.wf(),
    {
        let parsed = parse_amsat_name(api_name);
        let aliases = generate_aliases(api_name);
        let r = AmsatEntry {
            api_name: String::from_str(api_name),
            aliases,
            satellite_base_name: parsed.base_name,
            mode_hint: parsed.mode_hint,
            reports: Vec::new(),
            last_updated: now,
            last_fetch_success: None,
            update_success: false,
        };
        assert(blocks_view(r.reports@) =~= Seq::empty());
        r
    }

    /// The status of the newest report: the last report of the newest block,
    /// or `Grey` where there is none.
    pub fn latest_status(&self) -> (r: ReportStatus)
        ensures
            self.reports@.len() > 0 && self.reports@[0].reports@.len() > 0 ==> r == status_of(
                self.reports@[0].reports@.last().report@,
            ),
            !(self.reports@.len() > 0 && self.reports@[0].reports@.len() > 0) ==> r
                == ReportStatus::Grey,
    {
        if self.reports.len() > 0 {
            let first = &self.reports[0];
            let n = first.reports.len();
            if n > 0 {
                return ReportStatus::from_string(first.reports[n - 1].report.as_str());
            }
        }
        ReportStatus::Grey
    }

    /// The number of reports over all blocks.
    pub fn total_reports(&self) -> (r: usize)
        requires
            report_count(self.reports@) <= usize::MAX,
        ensures
            r == report_count(self.reports@),
    {
        let mut total: usize = 0;
        let mut i: usize = 0;
        while i < self.reports.len()
            invariant
                i <= self.reports@.len(),
                report_count(self.reports@) <= usize::MAX,
                total == report_count(self.reports@.subrange(0, i as int)),
            decreases self.reports.len() - i,
        {
            proof {
                lemma_report_count_prefix(self.reports@, i as int);
            }
            assert(self.reports@.subrange(0, i + 1).drop_last() =~= self.reports@.subrange(0, i as int));
            total = total + self.reports[i].reports.len();
            i = i + 1;
        }
        assert(self.reports@.subrange(0, self.reports@.len() as int) =~= self.reports@);
        total
    }

    /// Whether the newest block lies within the last `hours` hours of `now`.
    pub fn has_recent_data(&self, hours: u32, now: i64) -> (r: bool)
        requires
            now >= i64::MIN + u32::MAX as int * 3600,
        ensures
            r == (self.reports@.len() > 0 && self.reports@[0].time >= now - hours * 3600),
    {
        if self.reports.len() > 0 {
            self.reports[0].time >= now - (hours as i64) * 3600
        } else {
            false
        }
    }

    /// The blocks within the last `hours` hours of `now`, in their order.
    pub fn get_recent_reports(&self, hours: u32, now: i64) -> (r: Vec<&SatelliteDataBlock>)
        requires
            now >= i64::MIN + u32::MAX as int * 3600,
        ensures
            r@.len() == blocks_since(self.reports@, now - hours * 3600).len(),
            forall|k: int| 0 <= k < r@.len() ==> *#[trigger] r@[k] == blocks_since(self.reports@, now - hours * 3600)[k],
    {
        let cutoff = now - (hours as i64) * 3600;
        let mut out: Vec<&SatelliteDataBlock> = Vec::new();
        let mut i: usize = 0;
        while i < self.reports.len()
            invariant
                i <= self.reports@.len(),
                cutoff == now - hours * 3600,
                out@.len() == blocks_since(self.reports@.subrange(0, i as int), cutoff as int).len(),
                forall|k: int| 0 <= k < out@.len() ==> *#[trigger] out@[k] == blocks_since(self.reports@.subrange(0, i as int), cutoff as int)[k],
            decreases self.reports.len() - i,
        {
            let ghost pre = self.reports@.subrange(0, i + 1);
            assert(pre.drop_last() =~= self.reports@.subrange(0, i as int));
            assert(pre.last() == self.reports@[i as int]);
            let b = &self.reports[i];
            if b.time >= cutoff {
                out.push(b);
            }
            i = i + 1;
        }
        assert(self.reports@.subrange(0, self.reports@.len() as int) =~= self.reports@);
        out
    }

    /// Record the outcome of one fetch at `now`: reports that came back are
    /// merged; an empty answer is a success with nothing to merge; `None` is
    /// a failed fetch.
    pub fn record_fetch(&mut self, outcome: Option<&Vec<AmsatReport>>, now: i64)
        requires
            old(self).wf(),
        ensures
            final(self).wf(),
            final(self).last_updated == now,
            final(self).api_name == old(self).api_name,
            final(self).aliases == old(self).aliases,
            final(self).satellite_base_name == old(self).satellite_base_name,
            final(self).mode_hint == old(self).mode_hint,
            match outcome {
                Some(rs) => {
                    &&& final(self).update_success
                    &&& rs@.len() > 0 ==> blocks_view(final(self).reports@) == merged(
                        blocks_view(old(self).reports@),
                        reports_view(rs@),
                        now as int,
                    ) && final(self).last_fetch_success == Some(now)
                    &&& rs@.len() == 0 ==> final(self).reports == old(self).reports
                        && final(self).last_fetch_success == old(self).last_fetch_success
                },
                None => {
                    &&& !final(self).update_success
                    &&& final(self).reports == old(self).reports
                    &&& final(self).last_fetch_success == old(self).last_fetch_success
                },
            },
    {
        match outcome {
            Some(rs) => {
                if rs.len() > 0 {
                    merge_reports(&mut self.reports, rs, now);
                    self.last_fetch_success = Some(now);
                }
                self.update_success = true;
            },
            None => {
                self.update_success = false;
            },
        }
        self.last_updated = now;
    }
}

/// The blocks not older than `cutoff`, in order.
pub open spec fn blocks_since(bs: Seq<SatelliteDataBlock>, cutoff: int) -> Seq<SatelliteDataBlock>
    decreases bs.len(),
{
    if bs.len() == 0 {
        bs
    } else if bs.last().time >= cutoff {
        blocks_since(bs.drop_last(), cutoff).push(bs.last())
    } else {
        blocks_since(bs.drop_last(), cutoff)
    }
}

/// The number of reports in a list of blocks.
pub open spec fn report_count(bs: Seq<SatelliteDataBlock>) -> int
    decreases bs.len(),
{
    if bs.len() == 0 {
        0
    } else {
        report_count(bs.drop_last()) + bs.last().reports@.len()
    }
}

proof fn lemma_report_count_prefix(bs: Seq<SatelliteDataBlock>, i: int)
    requires
        0 <= i < bs.len(),
    ensures
        report_count(bs.subrange(0, i + 1)) <= report_count(bs),
        report_count(bs.subrange(0, i + 1)) == report_count(bs.subrange(0, i)) + bs[i].reports@.len(),
    decreases bs.len(),
{
    assert(bs.subrange(0, i + 1).drop_last() =~= bs.subrange(0, i));
    if i + 1 < bs.len() {
        lemma_report_count_prefix(bs.drop_last(), i);
        assert(bs.drop_last().subrange(0, i + 1) =~= bs.subrange(0, i + 1));
        assert(bs.drop_last().subrange(0, i) =~= bs.subrange(0, i));
    } else {
        assert(bs.subrange(0, i + 1) =~= bs);
    }
}

/// All entries, keyed by API name.
#[derive(Debug, Clone)]
pub struct EntryStore {
    pub entries: Vec<AmsatEntry>,
}

impl EntryStore {
    /// No two entries share an API name, and every entry is well formed.
    pub open spec fn wf(&self) -> bool {
        &&& forall|i: int, j: int|
            0 <= i < self.entries@.len() && 0 <= j < self.entries@.len() && i != j
                ==> #[trigger] self.entries@[i].api_name@ != #[trigger] self.entries@[j].api_name@
        &&& forall|i: int| 0 <= i < self.entries@.len() ==> (#[trigger] self.entries@[i]).wf()
    }

    pub fn new() -> (r: EntryStore)
        ensures
            r.wf(),
            r.entries@.len() == 0,
    {
        EntryStore { entries: Vec::new() }
    }

    /// Index of the entry of an API name.
    pub fn find(&self, api_name: &str) -> (r: Option<usize>)
        ensures
            match r {
                Some(i) => i < self.entries@.len() && self.entries@[i as int].api_name@ == api_name@,
                None => forall|i: int| 0 <= i < self.entries@.len() ==> #[trigger] self.entries@[i].api_name@ != api_name@,
            },
    {
        let key = String::from_str(api_name);
        let mut i: usize = 0;
        while i < self.entries.len()
            invariant
                i <= self.entries@.len(),
                key@ == api_name@,
                forall|k: int| 0 <= k < i ==> #[trigger] self.entries@[k].api_name@ != api_name@,
            decreases self.entries.len() - i,
        {
            if self.entries[i].api_name == key {
                return Some(i);
            }
            i = i + 1;
        }
        None
    }

    /// Index of the entry of an API name, created at `now` where missing.
    pub fn upsert(&mut self, api_name: &str, now: i64) -> (r: usize)
        requires
            old(self).wf(),
        ensures
            final(self).wf(),
            r < final(self).entries@.len(),
            final(self).entries@[r as int].api_name@ == api_name@,
            (exists|i: int| 0 <= i < old(self).entries@.len() && #[trigger] old(self).entries@[i].api_name@ == api_name@)
                ==> final(self).entries == old(self).entries,
            !(exists|i: int| 0 <= i < old(self).entries@.len() && #[trigger] old(self).entries@[i].api_name@ == api_name@)
                ==> final(self).entries@.drop_last() == old(self).entries@ && r == old(self).entries@.len()
                && final(self).entries@[r as int].reports@.len() == 0
                && final(self).entries@[r as int].last_fetch_success is None,
    {
        match self.find(api_name) {
            Some(i) => i,
            None => {
                let e = AmsatEntry::from_api_name(api_name, now);
                let ghost before = self.entries@;
                self.entries.push(e);
                assert(self.entries@.drop_last() =~= before);
                assert forall|i: int, j: int|
                    0 <= i < self.entries@.len() && 0 <= j < self.entries@.len() && i != j implies
                    #[trigger] self.entries@[i].api_name@ != #[trigger] self.entries@[j].api_name@ by {
                    if i < before.len() && j < before.len() {
                        assert(self.entries@[i] == before[i] && self.entries@[j] == before[j]);
                    } else if i < before.len() {
                        assert(self.entries@[i] == before[i]);
                    } else {
                        assert(self.entries@[j] == before[j]);
                    }
                }
                assert forall|i: int| 0 <= i < self.entries@.len() implies (#[trigger] self.entries@[i]).wf() by {
                    if i < before.len() {
                        assert(self.entries@[i] == before[i]);
                    }
                }
                self.entries.len() - 1
            },
        }
    }

    /// Record one fetch outcome at `now` on the entry of its name, created
    /// where missing; gives that entry's index.
    fn apply_one(&mut self, result: &(String, Option<Vec<AmsatReport>>), now: i64) -> (idx: usize)
        requires
            old(self).wf(),
        ensures
            final(self).wf(),
            idx < final(self).entries@.len(),
            final(self).entries@[idx as int].api_name@ == result.0@,
            final(self).entries@[idx as int].last_updated == now,
            final(self).entries@[idx as int].update_success == (result.1 is Some),
            forall|i: int| 0 <= i < old(self).entries@.len() ==> #[trigger] final(self).entries@[i].api_name
                == old(self).entries@[i].api_name,
            forall|i: int| 0 <= i < old(self).entries@.len() && i != idx ==> #[trigger] final(self).entries@[i]
                == old(self).entries@[i],
            has_name(old(self).entries@, result.0@) ==> {
                &&& final(self).entries@.len() == old(self).entries@.len()
                &&& old(self).entries@[idx as int].api_name@ == result.0@
                &&& outcome_applied(
                    blocks_view(old(self).entries@[idx as int].reports@),
                    old(self).entries@[idx as int].last_fetch_success,
                    final(self).entries@[idx as int],
                    *result,
                    now,
                )
            },
            !has_name(old(self).entries@, result.0@) ==> {
                &&& final(self).entries@.len() == old(self).entries@.len() + 1
                &&& idx == old(self).entries@.len()
                &&& outcome_applied(Seq::empty(), None, final(self).entries@[idx as int], *result, now)
            },
    {
        let ghost before = self.entries@;
        let idx = self.upsert(result.0.as_str(), now);
        let ghost mid = self.entries@;
        proof {
            if has_name(before, result.0@) {
                assert(mid == before);
            } else {
                assert(mid.drop_last() == before);
                assert forall|i: int| 0 <= i < before.len() implies #[trigger] mid[i] == before[i] by {
                    assert(mid[i] == mid.drop_last()[i]);
                }
            }
        }
        let mut e = self.entries.remove(idx);
        let ghost e0 = e;
        assert(e0 == mid[idx as int]);
        let outcome = match &result.1 {
            Some(rs) => Some(rs),
            None => None,
        };
        e.record_fetch(outcome, now);
        self.entries.insert(idx, e);
        assert(self.entries@ =~= mid.update(idx as int, e));
        assert forall|i: int| 0 <= i < self.entries@.len() implies (#[trigger] self.entries@[i]).wf() by {
            if i != idx {
                assert(self.entries@[i] == mid[i]);
            }
        }
        proof {
            if !has_name(before, result.0@) {
                assert(blocks_view(e0.reports@) =~= Seq::<BlockView>::empty());
            }
        }
        idx
    }

    /// Apply the fetch outcomes of one update cycle at `now`: the entry of
    /// every name is created where missing and records its outcome
    /// (`None` for a failed fetch): reports that came back are merged.
    /// Existing entries keep their places; new ones, one for each name not
    /// yet in the store, follow them. The report counts the outcomes and
    /// names the new entries.
    pub fn apply_fetch_results(&mut self, results: &Vec<(String, Option<Vec<AmsatReport>>)>, now: i64) -> (report: UpdateReport)
        requires
            old(self).wf(),
        ensures
            report.total_entries == final(self).entries@.len(),
            report.successful_updates == successes(results@),
            report.successful_updates + report.failed_updates == results@.len(),
            views(report.new_entries@) == names_of(final(self).entries@.subrange(
                old(self).entries@.len() as int,
                final(self).entries@.len() as int,
            )),
            final(self).wf(),
            forall|k: int| 0 <= k < results@.len() ==> has_name(final(self).entries@, #[trigger] results@[k].0@),
            final(self).entries@.len() >= old(self).entries@.len(),
            forall|i: int| 0 <= i < old(self).entries@.len() ==> #[trigger] final(self).entries@[i].api_name
                == old(self).entries@[i].api_name,
            forall|k: int| 0 <= k < results@.len() && not_repeated(results@, k, results@.len() as int)
                ==> recorded(final(self).entries@, #[trigger] results@[k], now),
            forall|k: int| 0 <= k < results@.len() && unique_result(results@, k)
                ==> merged_in(final(self).entries@, old(self).entries@, #[trigger] results@[k], now),
            forall|i: int| old(self).entries@.len() <= i < final(self).entries@.len()
                ==> named_upto(results@, #[trigger] final(self).entries@[i].api_name@, results@.len() as int),
    {
        let mut k: usize = 0;
        let ghost start = self.entries@;
        let mut succeeded: usize = 0;
        let mut failed: usize = 0;
        let mut created: Vec<String> = Vec::new();
        assert(self.entries@.subrange(start.len() as int, start.len() as int) =~= Seq::<AmsatEntry>::empty());
        assert(views(created@) =~= Seq::<Seq<char>>::empty());
        proof {
            lemma_step_facts_start(start, results@, now);
        }
        while k < results.len()
            invariant
                k <= results@.len(),
                self.wf(),
                succeeded == successes(results@.subrange(0, k as int)),
                succeeded + failed == k,
                views(created@) == names_of(self.entries@.subrange(start.len() as int, self.entries@.len() as int)),
                step_facts(start, self.entries@, results@, k as int, now),
                self.entries@.len() >= start.len(),
            decreases results.len() - k,
        {
            let ghost before = self.entries@;
            let len_before = self.entries.len();
            let idx = self.apply_one(&results[k], now);
            let ghost fin = self.entries@;
            if self.entries.len() > len_before {
                let name = self.entries[idx].api_name.clone();
                let ghost cv = created@;
                created.push(name);
                assert(fin.subrange(start.len() as int, fin.len() as int) =~= before.subrange(
                    start.len() as int,
                    before.len() as int,
                ).push(fin[idx as int]));
                assert(names_of(before.subrange(start.len() as int, before.len() as int)) =~= names_of(
                    fin.subrange(start.len() as int, before.len() as int),
                ));
                assert(views(created@) =~= views(cv).push(fin[idx as int].api_name@));
            } else {
                assert(names_of(before.subrange(start.len() as int, before.len() as int)) =~= names_of(
                    fin.subrange(start.len() as int, fin.len() as int),
                ));
            }
            let ghost pre = results@.subrange(0, k + 1);
            assert(pre.drop_last() =~= results@.subrange(0, k as int));
            assert(pre.last() == results@[k as int]);
            match &results[k].1 {
                Some(_) => {
                    succeeded = succeeded + 1;
                },
                None => {
                    failed = failed + 1;
                },
            }
            proof {
                lemma_step(start, before, fin, results@, k as int, idx as int, now);
            }
            k = k + 1;
        }
        assert(results@.subrange(0, results@.len() as int) =~= results@);
        proof {
            lemma_step_facts_done(start, self.entries@, results@, now);
        }
        UpdateReport {
            total_entries: self.entries.len(),
            successful_updates: succeeded,
            failed_updates: failed,
            new_entries: created,
        }
    }
}

/// What holds of the store after the first `k` results of a cycle that
/// started from `start`.
#[verifier::opaque]
pub open spec fn step_facts(
    start: Seq<AmsatEntry>,
    cur: Seq<AmsatEntry>,
    results: Seq<(String, Option<Vec<AmsatReport>>)>,
    k: int,
    now: i64,
) -> bool {
    &&& cur.len() >= start.len()
    &&& forall|q: int| 0 <= q < k ==> has_name(cur, #[trigger] results[q].0@)
    &&& forall|i: int| 0 <= i < start.len() ==> #[trigger] cur[i].api_name == start[i].api_name
    &&& forall|q: int| 0 <= q < k && not_repeated(results, q, k) ==> recorded(cur, #[trigger] results[q], now)
    &&& forall|q: int| 0 <= q < k && unique_result(results, q) ==> merged_in(cur, start, #[trigger] results[q], now)
    &&& forall|i: int| start.len() <= i < cur.len() ==> named_upto(results, #[trigger] cur[i].api_name@, k)
    &&& forall|i: int| 0 <= i < start.len() && !named_upto(results, start[i].api_name@, k) ==> #[trigger] cur[i] == start[i]
}

proof fn lemma_step_facts_done(
    start: Seq<AmsatEntry>,
    cur: Seq<AmsatEntry>,
    results: Seq<(String, Option<Vec<AmsatReport>>)>,
    now: i64,
)
    requires
        step_facts(start, cur, results, results.len() as int, now),
    ensures
        cur.len() >= start.len(),
        forall|k: int| 0 <= k < results.len() ==> has_name(cur, #[trigger] results[k].0@),
        forall|i: int| 0 <= i < start.len() ==> #[trigger] cur[i].api_name == start[i].api_name,
        forall|k: int| 0 <= k < results.len() && not_repeated(results, k, results.len() as int)
            ==> recorded(cur, #[trigger] results[k], now),
        forall|k: int| 0 <= k < results.len() && unique_result(results, k) ==> merged_in(cur, start, #[trigger] results[k], now),
        forall|i: int| start.len() <= i < cur.len() ==> named_upto(results, #[trigger] cur[i].api_name@, results.len() as int),
{
    reveal(step_facts);
}

proof fn lemma_step_facts_start(start: Seq<AmsatEntry>, results: Seq<(String, Option<Vec<AmsatReport>>)>, now: i64)
    ensures
        step_facts(start, start, results, 0, now),
{
    reveal(step_facts);
}

/// One result applied keeps the facts of the cycle.
proof fn lemma_step(
    start: Seq<AmsatEntry>,
    before: Seq<AmsatEntry>,
    fin: Seq<AmsatEntry>,
    results: Seq<(String, Option<Vec<AmsatReport>>)>,
    k: int,
    idx: int,
    now: i64,
)
    requires
        0 <= k < results.len(),
        step_facts(start, before, results, k, now),
        forall|a: int, b: int| 0 <= a < before.len() && 0 <= b < before.len() && a != b
            ==> #[trigger] before[a].api_name@ != #[trigger] before[b].api_name@,
        0 <= idx < fin.len(),
        fin[idx].api_name@ == results[k].0@,
        fin[idx].last_updated == now,
        fin[idx].update_success == (results[k].1 is Some),
        forall|i: int| 0 <= i < before.len() ==> #[trigger] fin[i].api_name == before[i].api_name,
        forall|i: int| 0 <= i < before.len() && i != idx ==> #[trigger] fin[i] == before[i],
        has_name(before, results[k].0@) ==> {
            &&& fin.len() == before.len()
            &&& before[idx].api_name@ == results[k].0@
            &&& outcome_applied(blocks_view(before[idx].reports@), before[idx].last_fetch_success, fin[idx], results[k], now)
        },
        !has_name(before, results[k].0@) ==> {
            &&& fin.len() == before.len() + 1
            &&& idx == before.len()
            &&& outcome_applied(Seq::empty(), None, fin[idx], results[k], now)
        },
    ensures
        step_facts(start, fin, results, k + 1, now),
{
    reveal(step_facts);
    let n = results[k].0@;
    assert(fin.len() >= before.len());
    assert forall|q: int| 0 <= q < k + 1 implies has_name(fin, #[trigger] results[q].0@) by {
        if q < k {
            assert(has_name(before, results[q].0@));
            let i0 = choose|i: int| 0 <= i < before.len() && #[trigger] before[i].api_name@ == results[q].0@;
            assert(fin[i0].api_name == before[i0].api_name);
            assert(fin[i0].api_name@ == results[q].0@);
        } else {
            assert(fin[idx].api_name@ == results[q].0@);
        }
    }
    assert forall|i: int| 0 <= i < start.len() implies #[trigger] fin[i].api_name == start[i].api_name by {
        assert(fin[i].api_name == before[i].api_name);
    }
    assert forall|q: int| 0 <= q < k + 1 && not_repeated(results, q, k + 1)
        implies recorded(fin, #[trigger] results[q], now) by {
        if q < k {
            assert(not_repeated(results, q, k));
            assert(results[k].0@ != results[q].0@);
            let i0 = choose|i: int| 0 <= i < before.len() && #[trigger] before[i].api_name@ == results[q].0@
                && before[i].last_updated == now && before[i].update_success == (results[q].1 is Some);
            assert(i0 != idx);
            assert(fin[i0] == before[i0]);
        } else {
            assert(fin[idx].api_name@ == results[q].0@);
        }
    }
    assert forall|i: int| start.len() <= i < fin.len()
        implies named_upto(results, #[trigger] fin[i].api_name@, k + 1) by {
        if i < before.len() {
            assert(fin[i].api_name == before[i].api_name);
            let q = choose|q: int| 0 <= q < k && #[trigger] results[q].0@ == before[i].api_name@;
            assert(results[q].0@ == fin[i].api_name@);
        } else {
            assert(i == idx);
            assert(results[k].0@ == fin[i].api_name@);
        }
    }
    assert forall|i: int| 0 <= i < start.len() && !named_upto(results, start[i].api_name@, k + 1)
        implies #[trigger] fin[i] == start[i] by {
        assert(!named_upto(results, start[i].api_name@, k)) by {
            if named_upto(results, start[i].api_name@, k) {
                let q = choose|q: int| 0 <= q < k && #[trigger] results[q].0@ == start[i].api_name@;
                assert(0 <= q < k + 1 && results[q].0@ == start[i].api_name@);
            }
        }
        assert(before[i] == start[i]);
        assert(results[k].0@ != start[i].api_name@) by {
            if results[k].0@ == start[i].api_name@ {
                assert(0 <= k < k + 1 && results[k].0@ == start[i].api_name@);
            }
        }
        assert(i != idx);
    }
    assert forall|q: int| 0 <= q < k + 1 && unique_result(results, q)
        implies merged_in(fin, start, #[trigger] results[q], now) by {
        if q < k {
            assert(results[k].0@ != results[q].0@);
            let i0 = choose|i: int| 0 <= i < before.len() && #[trigger] before[i].api_name@ == results[q].0@
                && applied_to(start, before[i], results[q], now);
            assert(i0 != idx);
            assert(fin[i0] == before[i0]);
        } else {
            assert(!named_upto(results, n, k)) by {
                if named_upto(results, n, k) {
                    let q2 = choose|q2: int| 0 <= q2 < k && #[trigger] results[q2].0@ == n;
                    assert(results[q2].0@ != results[q].0@);
                }
            }
            if has_name(start, n) {
                let j0 = choose|j: int| 0 <= j < start.len() && #[trigger] start[j].api_name@ == n;
                assert(before[j0] == start[j0]);
                assert(has_name(before, n)) by {
                    assert(before[j0].api_name@ == n);
                }
                assert(idx == j0) by {
                    if idx != j0 {
                        assert(before[idx].api_name@ != before[j0].api_name@);
                    }
                }
                assert(fin[idx].api_name@ == results[q].0@);
                assert(applied_to(start, fin[idx], results[q], now));
            } else {
                assert(!has_name(before, n)) by {
                    if has_name(before, n) {
                        let i1 = choose|i: int| 0 <= i < before.len() && #[trigger] before[i].api_name@ == n;
                        if i1 < start.len() {
                            assert(before[i1].api_name == start[i1].api_name);
                            assert(start[i1].api_name@ == n);
                        } else {
                            assert(named_upto(results, before[i1].api_name@, k));
                        }
                    }
                }
                assert(applied_to(start, fin[idx], results[q], now));
            }
        }
    }
}


/// What an update cycle did.
#[derive(Debug, Clone)]
pub struct UpdateReport {
    /// Entries in the store after the cycle.
    pub total_entries: usize,
    /// Names whose fetch succeeded, with or without reports.
    pub successful_updates: usize,
    pub failed_updates: usize,
    /// Names that got a new entry, in order.
    pub new_entries: Vec<String>,
}

impl UpdateReport {
    /// A report of a cycle that did nothing.
    pub fn new() -> (r: UpdateReport)
        ensures
            r.total_entries == 0,
            r.successful_updates == 0,
            r.failed_updates == 0,
            r.new_entries@.len() == 0,
    {
        UpdateReport { total_entries: 0, successful_updates: 0, failed_updates: 0, new_entries: Vec::new() }
    }
}

impl Default for UpdateReport {
    fn default() -> (r: UpdateReport)
        ensures
            r.total_entries == 0,
            r.successful_updates == 0,
            r.failed_updates == 0,
            r.new_entries@.len() == 0,
    {
        UpdateReport::new()
    }
}

/// The number of fetch outcomes that succeeded.
pub open spec fn successes(results: Seq<(String, Option<Vec<AmsatReport>>)>) -> nat
    decreases results.len(),
{
    if results.len() == 0 {
        0
    } else {
        successes(results.drop_last()) + if results.last().1 is Some {
            1nat
        } else {
            0nat
        }
    }
}

/// No result after the `k`-th and before `upto` has its name.
pub open spec fn not_repeated(results: Seq<(String, Option<Vec<AmsatReport>>)>, k: int, upto: int) -> bool {
    forall|q: int| k < q < upto ==> #[trigger] results[q].0@ != results[k].0@
}

/// The entry of the result's name was updated at `now` and records whether
/// its fetch succeeded.
pub open spec fn recorded(entries: Seq<AmsatEntry>, result: (String, Option<Vec<AmsatReport>>), now: i64) -> bool {
    exists|i: int| 0 <= i < entries.len() && #[trigger] entries[i].api_name@ == result.0@
        && entries[i].last_updated == now && entries[i].update_success == (result.1 is Some)
}

/// Some of the first `upto` results has this name.
pub open spec fn named_upto(results: Seq<(String, Option<Vec<AmsatReport>>)>, name: Seq<char>, upto: int) -> bool {
    exists|q: int| 0 <= q < upto && #[trigger] results[q].0@ == name
}

/// No other result has the `k`-th result's name.
pub open spec fn unique_result(results: Seq<(String, Option<Vec<AmsatReport>>)>, k: int) -> bool {
    forall|q: int| 0 <= q < results.len() && q != k ==> #[trigger] results[q].0@ != results[k].0@
}

/// `after` is an entry whose blocks were `before_blocks` and whose last
/// successful fetch was `before_success`, once it recorded `result` at `now`:
/// reports that came back are merged, anything else leaves them.
pub open spec fn outcome_applied(
    before_blocks: Seq<BlockView>,
    before_success: Option<i64>,
    after: AmsatEntry,
    result: (String, Option<Vec<AmsatReport>>),
    now: i64,
) -> bool {
    &&& after.last_updated == now
    &&& after.update_success == (result.1 is Some)
    &&& if result.1 is Some && result.1->0@.len() > 0 {
        blocks_view(after.reports@) == merged(before_blocks, reports_view(result.1->0@), now as int)
            && after.last_fetch_success == Some(now)
    } else {
        blocks_view(after.reports@) == before_blocks && after.last_fetch_success == before_success
    }
}

/// `after` is what `result` made of the entry of its name in `old` (a new
/// entry, with no reports, where `old` has none).
pub open spec fn applied_to(old: Seq<AmsatEntry>, after: AmsatEntry, result: (String, Option<Vec<AmsatReport>>), now: i64) -> bool {
    if has_name(old, result.0@) {
        exists|j: int| 0 <= j < old.len() && #[trigger] old[j].api_name@ == result.0@ && outcome_applied(
            blocks_view(old[j].reports@),
            old[j].last_fetch_success,
            after,
            result,
            now,
        )
    } else {
        outcome_applied(Seq::empty(), None, after, result, now)
    }
}

/// The entry of the result's name is what the result made of its old entry.
pub open spec fn merged_in(entries: Seq<AmsatEntry>, old: Seq<AmsatEntry>, result: (String, Option<Vec<AmsatReport>>), now: i64) -> bool {
    exists|i: int| 0 <= i < entries.len() && #[trigger] entries[i].api_name@ == result.0@ && applied_to(old, entries[i], result, now)
}

/// The API names of some entries.
pub open spec fn names_of(entries: Seq<AmsatEntry>) -> Seq<Seq<char>> {
    entries.map_values(|e: AmsatEntry| e.api_name@)
}

/// Some entry has this API name.
pub open spec fn has_name(entries: Seq<AmsatEntry>, name: Seq<char>) -> bool {
    exists|i: int| 0 <= i < entries.len() && #[trigger] entries[i].api_name@ == name
}

} // verus!
