//! AMSAT status reports, their hourly blocks, and the merge of freshly
//! fetched reports into the retained history of one satellite entry.
//!
//! Times are seconds since the Unix epoch (UTC). A block's time is the start
//! of its hour. The blocks of an entry are kept newest first, with no two
//! blocks of one hour, no two reports of one block with the same
//! (callsign, reported time), and none older than the retention window.
use vstd::prelude::*;

verus! {

/// Seconds in one hour.
pub const HOUR_SECS: i64 = 3600;

/// How long reports are retained: 48 hours.
pub const RETENTION_SECS: i64 = 172800;

/// How far ahead of now a report may be dated: 5 minutes.
pub const FUTURE_SLACK_SECS: i64 = 300;

/// What an RFC 3339 timestamp denotes, in seconds since the Unix epoch;
/// `None` where the text is no RFC 3339 timestamp.
pub uninterp spec fn rfc3339_seconds(s: Seq<char>) -> Option<i64>;

/// Relies on chrono's `DateTime::parse_from_rfc3339` and `timestamp`: the
/// instant that an RFC 3339 text denotes, as Unix seconds.
#[verifier::external_body]
pub(crate) fn parse_rfc3339(s: &str) -> (r: Option<i64>)
    ensures
        r == rfc3339_seconds(s@),
{
    chrono::DateTime::parse_from_rfc3339(s).ok().map(|d| d.timestamp())
}

/// One status report of the AMSAT API.
#[derive(Debug, Clone)]
pub struct AmsatReport {
    pub name: String,
    /// RFC 3339 timestamp of the report.
    pub reported_time: String,
    pub callsign: String,
    /// Status text, e.g. `Heard`.
    pub report: String,
    pub grid_square: String,
}

pub ghost struct ReportView {
    pub name: Seq<char>,
    pub reported_time: Seq<char>,
    pub callsign: Seq<char>,
    pub report: Seq<char>,
    pub grid_square: Seq<char>,
}

impl View for AmsatReport {
    type V = ReportView;

    open spec fn view(&self) -> ReportView {
        ReportView {
            name: self.name@,
            reported_time: self.reported_time@,
            callsign: self.callsign@,
            report: self.report@,
            grid_square: self.grid_square@,
        }
    }
}

impl AmsatReport {
    /// A field-by-field copy.
    pub fn duplicate(&self) -> (r: AmsatReport)
        ensures
            r@ == self@,
    {
        AmsatReport {
            name: self.name.clone(),
            reported_time: self.reported_time.clone(),
            callsign: self.callsign.clone(),
            report: self.report.clone(),
            grid_square: self.grid_square.clone(),
        }
    }
}

/// The reports of one hour.
#[derive(Debug, Clone)]
pub struct SatelliteDataBlock {
    /// Start of the hour, in Unix seconds.
    pub time: i64,
    pub reports: Vec<AmsatReport>,
}

pub ghost struct BlockView {
    pub time: int,
    pub reports: Seq<ReportView>,
}

pub open spec fn reports_view(v: Seq<AmsatReport>) -> Seq<ReportView> {
    v.map_values(|r: AmsatReport| r@)
}

impl View for SatelliteDataBlock {
    type V = BlockView;

    open spec fn view(&self) -> BlockView {
        BlockView { time: self.time as int, reports: reports_view(self.reports@) }
    }
}

pub open spec fn blocks_view(v: Seq<SatelliteDataBlock>) -> Seq<BlockView> {
    v.map_values(|b: SatelliteDataBlock| b@)
}

/// Start of the hour that holds `t`.
pub open spec fn hour_start(t: int) -> int {
    t - t % 3600
}

/// Two reports with the same callsign and reported time.
pub open spec fn same_key(a: ReportView, b: ReportView) -> bool {
    a.callsign == b.callsign && a.reported_time == b.reported_time
}

pub open spec fn has_key(rs: Seq<ReportView>, r: ReportView) -> bool {
    exists|i: int| 0 <= i < rs.len() && same_key(#[trigger] rs[i], r)
}

pub open spec fn keys_unique(rs: Seq<ReportView>) -> bool {
    forall|i: int, j: int| 0 <= i < rs.len() && 0 <= j < rs.len() && i != j ==> !same_key(#[trigger] rs[i], #[trigger] rs[j])
}

/// Newest block first, no two blocks of one hour.
pub open spec fn sorted_desc(bs: Seq<BlockView>) -> bool {
    forall|i: int, j: int| 0 <= i < j < bs.len() ==> #[trigger] bs[i].time > #[trigger] bs[j].time
}

/// The invariant of an entry's blocks.
pub open spec fn blocks_wf(bs: Seq<BlockView>) -> bool {
    sorted_desc(bs) && forall|i: int| 0 <= i < bs.len() ==> keys_unique(#[trigger] bs[i].reports)
}

/// No block older than `cutoff`.
pub open spec fn within(bs: Seq<BlockView>, cutoff: int) -> bool {
    forall|i: int| 0 <= i < bs.len() ==> #[trigger] bs[i].time >= cutoff
}

/// The oldest block time retained at `now`.
pub open spec fn cutoff_at(now: int) -> int {
    now - 172800
}

/// The blocks of `bs` not older than `cutoff`, in order.
pub open spec fn prune(bs: Seq<BlockView>, cutoff: int) -> Seq<BlockView>
    decreases bs.len(),
{
    if bs.len() == 0 {
        bs
    } else if bs.last().time >= cutoff {
        prune(bs.drop_last(), cutoff).push(bs.last())
    } else {
        prune(bs.drop_last(), cutoff)
    }
}

/// Index of the block of hour `h`, or -1.
pub open spec fn find_block(bs: Seq<BlockView>, h: int) -> int {
    if exists|i: int| 0 <= i < bs.len() && #[trigger] bs[i].time == h {
        choose|i: int| 0 <= i < bs.len() && #[trigger] bs[i].time == h
    } else {
        -1
    }
}

/// Where a block of hour `h` goes in newest-first order.
pub open spec fn is_insert_pos(bs: Seq<BlockView>, h: int, j: int) -> bool {
    0 <= j <= bs.len() && (forall|k: int| 0 <= k < j ==> #[trigger] bs[k].time > h) && (forall|k: int|
        j <= k < bs.len() ==> #[trigger] bs[k].time < h)
}

pub open spec fn insert_pos(bs: Seq<BlockView>, h: int) -> int {
    choose|j: int| is_insert_pos(bs, h, j)
}

/// Add report `r` to the block of hour `h`: nothing changes where that block
/// already holds its key; a missing block is created in its place.
pub open spec fn insert_report(bs: Seq<BlockView>, r: ReportView, h: int) -> Seq<BlockView> {
    let i = find_block(bs, h);
    if i >= 0 {
        if has_key(bs[i].reports, r) {
            bs
        } else {
            bs.update(i, BlockView { time: h, reports: bs[i].reports.push(r) })
        }
    } else {
        bs.insert(insert_pos(bs, h), BlockView { time: h, reports: seq![r] })
    }
}

/// The time of a report, where it parses.
pub open spec fn report_secs(r: ReportView) -> Option<i64> {
    rfc3339_seconds(r.reported_time)
}

/// A report that the merge at `now` takes: its time parses, is at most five
/// minutes ahead of `now`, and its hour is inside the retention window.
pub open spec fn accepted(r: ReportView, now: int) -> bool {
    match report_secs(r) {
        Some(t) => hour_start(t as int) >= i64::MIN && t <= now + 300 && hour_start(t as int) >= cutoff_at(now),
        None => false,
    }
}

pub open spec fn report_hour(r: ReportView) -> int {
    match report_secs(r) {
        Some(t) => hour_start(t as int),
        None => 0,
    }
}

/// Insert the accepted reports of `rs`, in order.
pub open spec fn insert_all(bs: Seq<BlockView>, rs: Seq<ReportView>, now: int) -> Seq<BlockView>
    decreases rs.len(),
{
    if rs.len() == 0 {
        bs
    } else {
        let prev = insert_all(bs, rs.drop_last(), now);
        if accepted(rs.last(), now) {
            insert_report(prev, rs.last(), report_hour(rs.last()))
        } else {
            prev
        }
    }
}

/// The blocks after merging `rs` into `bs` at `now`.
pub open spec fn merged(bs: Seq<BlockView>, rs: Seq<ReportView>, now: int) -> Seq<BlockView> {
    insert_all(prune(bs, cutoff_at(now)), rs, now)
}

/// The report `r` is held in the block of its hour.
pub open spec fn present(bs: Seq<BlockView>, r: ReportView) -> bool {
    exists|i: int| 0 <= i < bs.len() && #[trigger] bs[i].time == report_hour(r) && has_key(bs[i].reports, r)
}

// ---------------------------------------------------------------- lemmas

proof fn lemma_find_block(bs: Seq<BlockView>, h: int, i: int)
    requires
        sorted_desc(bs),
        0 <= i < bs.len(),
        bs[i].time == h,
    ensures
        find_block(bs, h) == i,
{
    let j = choose|j: int| 0 <= j < bs.len() && #[trigger] bs[j].time == h;
    assert(bs[i].time == h);
    if j < i {
        assert(bs[j].time > bs[i].time);
    } else if i < j {
        assert(bs[i].time > bs[j].time);
    }
}

proof fn lemma_find_block_none(bs: Seq<BlockView>, h: int)
    requires
        find_block(bs, h) < 0,
    ensures
        forall|i: int| 0 <= i < bs.len() ==> #[trigger] bs[i].time != h,
{
}

proof fn lemma_find_block_some(bs: Seq<BlockView>, h: int)
    requires
        find_block(bs, h) >= 0,
    ensures
        0 <= find_block(bs, h) < bs.len(),
        bs[find_block(bs, h)].time == h,
{
}

proof fn lemma_insert_pos(bs: Seq<BlockView>, h: int, j: int)
    requires
        is_insert_pos(bs, h, j),
    ensures
        insert_pos(bs, h) == j,
{
    let k = insert_pos(bs, h);
    assert(is_insert_pos(bs, h, k));
    if k < j {
        assert(bs[k].time > h);
        assert(bs[k].time < h);
    } else if j < k {
        assert(bs[j].time > h);
        assert(bs[j].time < h);
    }
}

spec fn scan_pos(bs: Seq<BlockView>, h: int, j: int) -> int
    decreases bs.len() - j,
{
    if j < 0 || j >= bs.len() || bs[j].time <= h {
        j
    } else {
        scan_pos(bs, h, j + 1)
    }
}

proof fn lemma_scan_pos(bs: Seq<BlockView>, h: int, j: int)
    requires
        0 <= j <= bs.len(),
        forall|k: int| 0 <= k < j ==> #[trigger] bs[k].time > h,
    ensures
        j <= scan_pos(bs, h, j) <= bs.len(),
        forall|k: int| 0 <= k < scan_pos(bs, h, j) ==> #[trigger] bs[k].time > h,
        scan_pos(bs, h, j) == bs.len() || bs[scan_pos(bs, h, j)].time <= h,
    decreases bs.len() - j,
{
    if j < bs.len() && bs[j].time > h {
        lemma_scan_pos(bs, h, j + 1);
    }
}

proof fn lemma_insert_pos_exists(bs: Seq<BlockView>, h: int)
    requires
        sorted_desc(bs),
        forall|i: int| 0 <= i < bs.len() ==> #[trigger] bs[i].time != h,
    ensures
        is_insert_pos(bs, h, insert_pos(bs, h)),
{
    lemma_scan_pos(bs, h, 0);
    let j = scan_pos(bs, h, 0);
    assert forall|k: int| j <= k < bs.len() implies #[trigger] bs[k].time < h by {
        assert(bs[j].time != h);
        if j < k {
            assert(bs[j].time > bs[k].time);
        }
    }
    assert(is_insert_pos(bs, h, j));
}

proof fn lemma_push_keeps_unique(rs: Seq<ReportView>, r: ReportView)
    requires
        keys_unique(rs),
        !has_key(rs, r),
    ensures
        keys_unique(rs.push(r)),
        has_key(rs.push(r), r),
{
    let s = rs.push(r);
    assert(same_key(s[rs.len() as int], r));
    assert forall|i: int, j: int| 0 <= i < s.len() && 0 <= j < s.len() && i != j implies !same_key(
        #[trigger] s[i],
        #[trigger] s[j],
    ) by {
        if i < rs.len() && j < rs.len() {
            assert(s[i] == rs[i] && s[j] == rs[j]);
        } else if i < rs.len() {
            assert(s[i] == rs[i]);
            assert(!same_key(rs[i], r));
        } else {
            assert(s[j] == rs[j]);
            assert(!same_key(rs[j], r));
        }
    }
}

proof fn lemma_push_keeps_key(rs: Seq<ReportView>, r: ReportView, x: ReportView)
    requires
        has_key(rs, x),
    ensures
        has_key(rs.push(r), x),
{
    let i = choose|i: int| 0 <= i < rs.len() && same_key(#[trigger] rs[i], x);
    assert(rs.push(r)[i] == rs[i]);
}

/// Inserting keeps the invariant, and a window that the hour lies in.
proof fn lemma_insert_wf(bs: Seq<BlockView>, r: ReportView, h: int, cutoff: int)
    requires
        blocks_wf(bs),
    ensures
        blocks_wf(insert_report(bs, r, h)),
        within(bs, cutoff) && h >= cutoff ==> within(insert_report(bs, r, h), cutoff),
        insert_report(bs, r, h).len() >= bs.len(),
{
    let i = find_block(bs, h);
    let out = insert_report(bs, r, h);
    if i >= 0 {
        lemma_find_block_some(bs, h);
        if !has_key(bs[i].reports, r) {
            lemma_push_keeps_unique(bs[i].reports, r);
            assert forall|a: int| 0 <= a < out.len() implies keys_unique(#[trigger] out[a].reports) by {
                if a != i {
                    assert(out[a] == bs[a]);
                }
            }
            assert forall|a: int, b: int| 0 <= a < b < out.len() implies #[trigger] out[a].time
                > #[trigger] out[b].time by {
                assert(bs[a].time > bs[b].time);
            }
        }
    } else {
        lemma_find_block_none(bs, h);
        lemma_insert_pos_exists(bs, h);
        let j = insert_pos(bs, h);
        let nb = BlockView { time: h, reports: seq![r] };
        assert(out == bs.insert(j, nb));
        assert(keys_unique(nb.reports));
        assert forall|a: int| 0 <= a < out.len() implies keys_unique(#[trigger] out[a].reports) by {
            if a < j {
                assert(out[a] == bs[a]);
            } else if a > j {
                assert(out[a] == bs[a - 1]);
            }
        }
        assert forall|a: int, b: int| 0 <= a < b < out.len() implies #[trigger] out[a].time
            > #[trigger] out[b].time by {
            if b < j {
                assert(out[a] == bs[a] && out[b] == bs[b]);
            } else if b == j {
                assert(out[a] == bs[a]);
            } else if a < j {
                assert(out[a] == bs[a] && out[b] == bs[b - 1]);
            } else if a == j {
                assert(out[b] == bs[b - 1]);
            } else {
                assert(out[a] == bs[a - 1] && out[b] == bs[b - 1]);
            }
        }
        if within(bs, cutoff) && h >= cutoff {
            assert forall|a: int| 0 <= a < out.len() implies #[trigger] out[a].time >= cutoff by {
                if a < j {
                    assert(out[a] == bs[a]);
                } else if a > j {
                    assert(out[a] == bs[a - 1]);
                }
            }
        }
    }
}

/// Inserting keeps every report that was present.
proof fn lemma_insert_keeps_present(bs: Seq<BlockView>, r: ReportView, h: int, x: ReportView)
    requires
        blocks_wf(bs),
        present(bs, x),
    ensures
        present(insert_report(bs, r, h), x),
{
    let k = choose|k: int| 0 <= k < bs.len() && #[trigger] bs[k].time == report_hour(x) && has_key(bs[k].reports, x);
    let i = find_block(bs, h);
    let out = insert_report(bs, r, h);
    if i >= 0 {
        lemma_find_block_some(bs, h);
        if !has_key(bs[i].reports, r) {
            if k == i {
                lemma_push_keeps_key(bs[i].reports, r, x);
                assert(out[k].time == report_hour(x) && has_key(out[k].reports, x));
            } else {
                assert(out[k] == bs[k]);
            }
        }
    } else {
        lemma_find_block_none(bs, h);
        lemma_insert_pos_exists(bs, h);
        let j = insert_pos(bs, h);
        if k < j {
            assert(out[k] == bs[k]);
        } else {
            assert(out[k + 1] == bs[k]);
        }
    }
}

/// After inserting `r` into the block of its hour, `r` is present.
proof fn lemma_insert_makes_present(bs: Seq<BlockView>, r: ReportView)
    requires
        blocks_wf(bs),
    ensures
        present(insert_report(bs, r, report_hour(r)), r),
{
    let h = report_hour(r);
    let i = find_block(bs, h);
    let out = insert_report(bs, r, h);
    if i >= 0 {
        lemma_find_block_some(bs, h);
        if !has_key(bs[i].reports, r) {
            lemma_push_keeps_unique(bs[i].reports, r);
            assert(out[i].reports == bs[i].reports.push(r));
            assert(has_key(out[i].reports, r));
        } else {
            assert(has_key(out[i].reports, r));
        }
        assert(out[i].time == report_hour(r));
    } else {
        lemma_find_block_none(bs, h);
        lemma_insert_pos_exists(bs, h);
        let j = insert_pos(bs, h);
        assert(out[j] == BlockView { time: h, reports: seq![r] });
        assert(same_key(out[j].reports[0], r));
        assert(has_key(out[j].reports, r));
        assert(out[j].time == report_hour(r));
    }
}

/// Inserting a report that is present changes nothing.
proof fn lemma_insert_present_noop(bs: Seq<BlockView>, r: ReportView)
    requires
        blocks_wf(bs),
        present(bs, r),
    ensures
        insert_report(bs, r, report_hour(r)) == bs,
{
    let k = choose|k: int| 0 <= k < bs.len() && #[trigger] bs[k].time == report_hour(r) && has_key(bs[k].reports, r);
    lemma_find_block(bs, report_hour(r), k);
}

proof fn lemma_insert_all_wf(bs: Seq<BlockView>, rs: Seq<ReportView>, now: int)
    requires
        blocks_wf(bs),
        within(bs, cutoff_at(now)),
    ensures
        blocks_wf(insert_all(bs, rs, now)),
        within(insert_all(bs, rs, now), cutoff_at(now)),
    decreases rs.len(),
{
    if rs.len() > 0 {
        lemma_insert_all_wf(bs, rs.drop_last(), now);
        let prev = insert_all(bs, rs.drop_last(), now);
        lemma_insert_wf(prev, rs.last(), report_hour(rs.last()), cutoff_at(now));
    }
}

/// After inserting `rs`, each accepted report of `rs` is present.
proof fn lemma_insert_all_present(bs: Seq<BlockView>, rs: Seq<ReportView>, now: int)
    requires
        blocks_wf(bs),
        within(bs, cutoff_at(now)),
    ensures
        forall|k: int| 0 <= k < rs.len() && accepted(#[trigger] rs[k], now) ==> present(insert_all(bs, rs, now), rs[k]),
    decreases rs.len(),
{
    if rs.len() > 0 {
        let init = rs.drop_last();
        lemma_insert_all_present(bs, init, now);
        lemma_insert_all_wf(bs, init, now);
        let prev = insert_all(bs, init, now);
        let last = rs.last();
        assert forall|k: int| 0 <= k < rs.len() && accepted(#[trigger] rs[k], now) implies present(
            insert_all(bs, rs, now),
            rs[k],
        ) by {
            if k < rs.len() - 1 {
                assert(rs[k] == init[k]);
                if accepted(last, now) {
                    lemma_insert_keeps_present(prev, last, report_hour(last), rs[k]);
                }
            } else {
                lemma_insert_makes_present(prev, last);
            }
        }
    }
}

/// Inserting reports that are all present already changes nothing.
proof fn lemma_insert_all_noop(bs: Seq<BlockView>, rs: Seq<ReportView>, now: int)
    requires
        blocks_wf(bs),
        forall|k: int| 0 <= k < rs.len() && accepted(#[trigger] rs[k], now) ==> present(bs, rs[k]),
    ensures
        insert_all(bs, rs, now) == bs,
    decreases rs.len(),
{
    if rs.len() > 0 {
        let init = rs.drop_last();
        assert forall|k: int| 0 <= k < init.len() && accepted(#[trigger] init[k], now) implies present(bs, init[k]) by {
            assert(init[k] == rs[k]);
        }
        lemma_insert_all_noop(bs, init, now);
        if accepted(rs.last(), now) {
            assert(rs.last() == rs[rs.len() - 1]);
            lemma_insert_present_noop(bs, rs.last());
        }
    }
}

proof fn lemma_prune_members(bs: Seq<BlockView>, cutoff: int)
    ensures
        prune(bs, cutoff).len() <= bs.len(),
        within(prune(bs, cutoff), cutoff),
        forall|k: int| 0 <= k < prune(bs, cutoff).len() ==> exists|i: int| 0 <= i < bs.len() && #[trigger] prune(bs, cutoff)[k] == #[trigger] bs[i],
    decreases bs.len(),
{
    if bs.len() > 0 {
        lemma_prune_members(bs.drop_last(), cutoff);
        let p = prune(bs.drop_last(), cutoff);
        assert forall|k: int| 0 <= k < prune(bs, cutoff).len() implies exists|i: int| 0 <= i < bs.len() && #[trigger] prune(bs, cutoff)[k] == #[trigger] bs[i] by {
            if k < p.len() {
                let i = choose|i: int| 0 <= i < bs.drop_last().len() && #[trigger] p[k] == #[trigger] bs.drop_last()[i];
                assert(prune(bs, cutoff)[k] == bs[i]);
            } else {
                assert(prune(bs, cutoff)[k] == bs[bs.len() - 1]);
            }
        }
    }
}

proof fn lemma_prune_wf(bs: Seq<BlockView>, cutoff: int)
    requires
        blocks_wf(bs),
    ensures
        blocks_wf(prune(bs, cutoff)),
        within(prune(bs, cutoff), cutoff),
    decreases bs.len(),
{
    lemma_prune_members(bs, cutoff);
    if bs.len() > 0 {
        let d = bs.drop_last();
        assert(blocks_wf(d)) by {
            assert forall|a: int, b: int| 0 <= a < b < d.len() implies #[trigger] d[a].time > #[trigger] d[b].time by {
                assert(bs[a].time > bs[b].time);
            }
            assert forall|a: int| 0 <= a < d.len() implies keys_unique(#[trigger] d[a].reports) by {
                assert(d[a] == bs[a]);
            }
        }
        lemma_prune_wf(d, cutoff);
        lemma_prune_members(d, cutoff);
        let p = prune(d, cutoff);
        let out = prune(bs, cutoff);
        if bs.last().time >= cutoff {
            assert forall|a: int, b: int| 0 <= a < b < out.len() implies #[trigger] out[a].time > #[trigger] out[b].time by {
                if b < p.len() {
                    assert(out[a] == p[a] && out[b] == p[b]);
                } else {
                    assert(out[a] == p[a]);
                    let i = choose|i: int| 0 <= i < d.len() && #[trigger] p[a] == #[trigger] d[i];
                    assert(bs[i].time > bs[bs.len() - 1].time);
                }
            }
            assert forall|a: int| 0 <= a < out.len() implies keys_unique(#[trigger] out[a].reports) by {
                if a < p.len() {
                    assert(out[a] == p[a]);
                } else {
                    assert(out[a] == bs[bs.len() - 1]);
                }
            }
        }
    }
}

proof fn lemma_prune_within(bs: Seq<BlockView>, cutoff: int)
    requires
        within(bs, cutoff),
    ensures
        prune(bs, cutoff) == bs,
    decreases bs.len(),
{
    if bs.len() > 0 {
        let d = bs.drop_last();
        assert(within(d, cutoff)) by {
            assert forall|a: int| 0 <= a < d.len() implies #[trigger] d[a].time >= cutoff by {
                assert(d[a] == bs[a]);
            }
        }
        lemma_prune_within(d, cutoff);
        assert(bs[bs.len() - 1].time >= cutoff);
        assert(d.push(bs.last()) =~= bs);
    }
}

/// The merge keeps the invariant and the retention window.
pub proof fn lemma_merged_wf(bs: Seq<BlockView>, rs: Seq<ReportView>, now: int)
    requires
        blocks_wf(bs),
    ensures
        blocks_wf(merged(bs, rs, now)),
        within(merged(bs, rs, now), cutoff_at(now)),
{
    lemma_prune_wf(bs, cutoff_at(now));
    lemma_insert_all_wf(prune(bs, cutoff_at(now)), rs, now);
}

/// Merging no reports only drops the blocks that left the retention window.
pub proof fn lemma_merge_empty(bs: Seq<BlockView>, now: int)
    ensures
        merged(bs, Seq::empty(), now) == prune(bs, cutoff_at(now)),
{
}

/// Merging the same reports twice at one time gives what merging them once
/// gives.
pub proof fn lemma_merge_idempotent(bs: Seq<BlockView>, rs: Seq<ReportView>, now: int)
    requires
        blocks_wf(bs),
    ensures
        merged(merged(bs, rs, now), rs, now) == merged(bs, rs, now),
{
    let c = cutoff_at(now);
    let m = merged(bs, rs, now);
    lemma_prune_wf(bs, c);
    lemma_merged_wf(bs, rs, now);
    lemma_insert_all_present(prune(bs, c), rs, now);
    lemma_prune_within(m, c);
    lemma_insert_all_noop(m, rs, now);
}

/// The reports of the blocks, newest block first, each block's in order.
pub open spec fn flatten_blocks(bs: Seq<BlockView>) -> Seq<ReportView>
    decreases bs.len(),
{
    if bs.len() == 0 {
        Seq::empty()
    } else {
        flatten_blocks(bs.drop_last()) + bs.last().reports
    }
}

/// Every block holds reports, each accepted at `now` and in the block of
/// its hour.
pub open spec fn reports_placed(bs: Seq<BlockView>, now: int) -> bool {
    forall|i: int| 0 <= i < bs.len() ==> (#[trigger] bs[i]).reports.len() > 0 && forall|j: int|
        0 <= j < bs[i].reports.len() ==> accepted(#[trigger] bs[i].reports[j], now) && report_hour(
            bs[i].reports[j],
        ) == bs[i].time
}

proof fn lemma_insert_all_append(bs: Seq<BlockView>, a: Seq<ReportView>, b: Seq<ReportView>, now: int)
    ensures
        insert_all(bs, a + b, now) == insert_all(insert_all(bs, a, now), b, now),
    decreases b.len(),
{
    if b.len() == 0 {
        assert(a + b =~= a);
    } else {
        assert((a + b).drop_last() =~= a + b.drop_last());
        assert((a + b).last() == b.last());
        lemma_insert_all_append(bs, a, b.drop_last(), now);
    }
}

/// Reinserting the reports of one block, after blocks all newer than it,
/// rebuilds that block at the end.
proof fn lemma_rebuild_block(s: Seq<BlockView>, blk: BlockView, j: int, now: int)
    requires
        blocks_wf(s),
        forall|i: int| 0 <= i < s.len() ==> #[trigger] s[i].time > blk.time,
        keys_unique(blk.reports),
        0 <= j <= blk.reports.len(),
        forall|q: int| 0 <= q < blk.reports.len() ==> accepted(#[trigger] blk.reports[q], now)
            && report_hour(blk.reports[q]) == blk.time,
    ensures
        insert_all(s, blk.reports.subrange(0, j), now) == (if j == 0 {
            s
        } else {
            s.push(BlockView { time: blk.time, reports: blk.reports.subrange(0, j) })
        }),
    decreases j,
{
    let h = blk.time;
    if j == 0 {
        assert(blk.reports.subrange(0, 0) =~= Seq::<ReportView>::empty());
    } else {
        let pre = blk.reports.subrange(0, j);
        assert(pre.drop_last() =~= blk.reports.subrange(0, j - 1));
        assert(pre.last() == blk.reports[j - 1]);
        lemma_rebuild_block(s, blk, j - 1, now);
        let r = blk.reports[j - 1];
        assert(accepted(r, now) && report_hour(r) == h);
        if j - 1 == 0 {
            assert forall|i: int| 0 <= i < s.len() implies #[trigger] s[i].time != h by {}
            assert(find_block(s, h) < 0);
            assert(is_insert_pos(s, h, s.len() as int));
            lemma_insert_pos(s, h, s.len() as int);
            assert(pre =~= seq![r]);
            assert(s.insert(s.len() as int, BlockView { time: h, reports: seq![r] }) =~= s.push(
                BlockView { time: h, reports: pre },
            ));
        } else {
            let prev_block = BlockView { time: h, reports: blk.reports.subrange(0, j - 1) };
            let t = s.push(prev_block);
            assert(sorted_desc(t)) by {
                assert forall|a: int, b: int| 0 <= a < b < t.len() implies #[trigger] t[a].time > #[trigger] t[b].time by {
                    if b < s.len() {
                        assert(t[a] == s[a] && t[b] == s[b]);
                    } else {
                        assert(t[a] == s[a]);
                    }
                }
            }
            assert(t[s.len() as int].time == h);
            lemma_find_block(t, h, s.len() as int);
            assert(!has_key(prev_block.reports, r)) by {
                if has_key(prev_block.reports, r) {
                    let q = choose|q: int| 0 <= q < prev_block.reports.len() && same_key(#[trigger] prev_block.reports[q], r);
                    assert(prev_block.reports[q] == blk.reports[q]);
                    assert(!same_key(blk.reports[q], blk.reports[j - 1]));
                }
            }
            assert(t.update(s.len() as int, BlockView { time: h, reports: prev_block.reports.push(r) }) =~= s.push(
                BlockView { time: h, reports: pre },
            )) by {
                assert(prev_block.reports.push(r) =~= pre);
            }
        }
    }
}

/// Reinserting the reports of the first `k` blocks rebuilds those blocks.
proof fn lemma_rebuild_prefix(bs: Seq<BlockView>, k: int, now: int)
    requires
        blocks_wf(bs),
        reports_placed(bs, now),
        0 <= k <= bs.len(),
    ensures
        insert_all(Seq::empty(), flatten_blocks(bs.subrange(0, k)), now) == bs.subrange(0, k),
    decreases k,
{
    if k == 0 {
        assert(bs.subrange(0, 0) =~= Seq::<BlockView>::empty());
    } else {
        lemma_rebuild_prefix(bs, k - 1, now);
        let s = bs.subrange(0, k - 1);
        let blk = bs[k - 1];
        assert(bs.subrange(0, k).drop_last() =~= s);
        assert(bs.subrange(0, k).last() == blk);
        lemma_insert_all_append(Seq::empty(), flatten_blocks(s), blk.reports, now);
        assert(blocks_wf(s)) by {
            assert forall|a: int, b: int| 0 <= a < b < s.len() implies #[trigger] s[a].time > #[trigger] s[b].time by {
                assert(bs[a].time > bs[b].time);
            }
            assert forall|a: int| 0 <= a < s.len() implies keys_unique(#[trigger] s[a].reports) by {
                assert(s[a] == bs[a]);
            }
        }
        assert forall|i: int| 0 <= i < s.len() implies #[trigger] s[i].time > blk.time by {
            assert(bs[i].time > bs[k - 1].time);
        }
        assert(keys_unique(blk.reports));
        assert(blk.reports.len() > 0);
        assert forall|q: int| 0 <= q < blk.reports.len() implies accepted(#[trigger] blk.reports[q], now)
            && report_hour(blk.reports[q]) == blk.time by {
            assert(bs[k - 1] == blk);
        }
        lemma_rebuild_block(s, blk, blk.reports.len() as int, now);
        assert(blk.reports.subrange(0, blk.reports.len() as int) =~= blk.reports);
        assert(s.push(BlockView { time: blk.time, reports: blk.reports }) =~= bs.subrange(0, k));
    }
}

/// Merging the reports of well-formed blocks, each report in the block of
/// its hour and taken at `now`, into nothing gives back those blocks: the
/// entry map reloads from its reports.
pub proof fn lemma_merge_rebuilds(bs: Seq<BlockView>, now: int)
    requires
        blocks_wf(bs),
        reports_placed(bs, now),
    ensures
        merged(Seq::empty(), flatten_blocks(bs), now) == bs,
{
    lemma_rebuild_prefix(bs, bs.len() as int, now);
    assert(bs.subrange(0, bs.len() as int) =~= bs);
    assert(prune(Seq::<BlockView>::empty(), cutoff_at(now)) =~= Seq::<BlockView>::empty());
}

// ---------------------------------------------------------------- exec

/// Start of the hour that holds `t`.
pub fn hour_floor(t: i64) -> (r: i64)
    requires
        t >= i64::MIN + HOUR_SECS,
    ensures
        r as int == hour_start(t as int),
{
    let m = t % HOUR_SECS;
    if m < 0 {
        t - m - HOUR_SECS
    } else {
        t - m
    }
}

fn hour_floor_wide(t: i64) -> (r: i128)
    ensures
        r as int == hour_start(t as int),
{
    let w = t as i128;
    let m = w % 3600;
    if m < 0 {
        w - m - 3600
    } else {
        w - m
    }
}

fn find_block_exec(blocks: &Vec<SatelliteDataBlock>, h: i64) -> (r: Option<usize>)
    requires
        blocks_wf(blocks_view(blocks@)),
    ensures
        match r {
            Some(i) => i < blocks@.len() && find_block(blocks_view(blocks@), h as int) == i,
            None => find_block(blocks_view(blocks@), h as int) < 0,
        },
{
    let ghost bv = blocks_view(blocks@);
    let mut i: usize = 0;
    while i < blocks.len()
        invariant
            i <= blocks@.len() == bv.len(),
            bv == blocks_view(blocks@),
            blocks_wf(bv),
            forall|k: int| 0 <= k < i ==> #[trigger] bv[k].time != h,
        decreases blocks.len() - i,
    {
        assert(bv[i as int].time == blocks@[i as int].time);
        if blocks[i].time == h {
            proof {
                lemma_find_block(bv, h as int, i as int);
            }
            return Some(i);
        }
        i = i + 1;
    }
    None
}

fn has_key_exec(rs: &Vec<AmsatReport>, r: &AmsatReport) -> (b: bool)
    ensures
        b == has_key(reports_view(rs@), r@),
{
    let ghost rv = reports_view(rs@);
    let mut i: usize = 0;
    while i < rs.len()
        invariant
            i <= rs@.len() == rv.len(),
            rv == reports_view(rs@),
            forall|k: int| 0 <= k < i ==> !same_key(#[trigger] rv[k], r@),
        decreases rs.len() - i,
    {
        assert(rv[i as int] == rs@[i as int]@);
        if rs[i].callsign == r.callsign && rs[i].reported_time == r.reported_time {
            assert(same_key(rv[i as int], r@));
            return true;
        }
        i = i + 1;
    }
    false
}

fn insert_pos_exec(blocks: &Vec<SatelliteDataBlock>, h: i64) -> (j: usize)
    requires
        blocks_wf(blocks_view(blocks@)),
        find_block(blocks_view(blocks@), h as int) < 0,
    ensures
        j <= blocks@.len(),
        j == insert_pos(blocks_view(blocks@), h as int),
{
    let ghost bv = blocks_view(blocks@);
    proof {
        lemma_find_block_none(bv, h as int);
    }
    let mut j: usize = 0;
    while j < blocks.len() && blocks[j].time > h
        invariant
            j <= blocks@.len() == bv.len(),
            bv == blocks_view(blocks@),
            forall|k: int| 0 <= k < j ==> #[trigger] bv[k].time > h,
        decreases blocks.len() - j,
    {
        assert(bv[j as int].time == blocks@[j as int].time);
        j = j + 1;
    }
    proof {
        assert forall|k: int| j <= k < bv.len() implies #[trigger] bv[k].time < h by {
            assert(bv[j as int].time != h);
            assert(bv[j as int].time == blocks@[j as int].time);
            if (j as int) < k {
                assert(bv[j as int].time > bv[k].time);
            }
        }
        assert(is_insert_pos(bv, h as int, j as int));
        lemma_insert_pos(bv, h as int, j as int);
    }
    j
}

fn insert_one(blocks: &mut Vec<SatelliteDataBlock>, r: AmsatReport, h: i64)
    requires
        blocks_wf(blocks_view(old(blocks)@)),
    ensures
        blocks_view(final(blocks)@) == insert_report(blocks_view(old(blocks)@), r@, h as int),
{
    let ghost bv = blocks_view(blocks@);
    match find_block_exec(blocks, h) {
        Some(i) => {
            assert(bv[i as int] == blocks@[i as int]@);
            if !has_key_exec(&blocks[i].reports, &r) {
                let ghost rv = r@;
                let mut b = blocks.remove(i);
                b.reports.push(r);
                assert(reports_view(b.reports@) =~= bv[i as int].reports.push(rv));
                blocks.insert(i, b);
                assert(blocks_view(blocks@) =~= bv.update(
                    i as int,
                    BlockView { time: h as int, reports: bv[i as int].reports.push(rv) },
                ));
            }
        },
        None => {
            let j = insert_pos_exec(blocks, h);
            let ghost rv = r@;
            let b = SatelliteDataBlock { time: h, reports: vec![r] };
            assert(reports_view(b.reports@) =~= seq![rv]);
            blocks.insert(j, b);
            assert(blocks_view(blocks@) =~= bv.insert(
                j as int,
                BlockView { time: h as int, reports: seq![rv] },
            ));
        },
    }
}

/// Merge freshly fetched reports into the blocks of one entry at time `now`.
///
/// Blocks older than 48 hours are dropped. Each report whose time parses,
/// lies at most five minutes ahead of `now`, and falls in an hour inside the
/// window goes to the block of its hour (created where missing), unless that
/// block already holds a report with its callsign and reported time.
pub fn merge_reports(blocks: &mut Vec<SatelliteDataBlock>, new_reports: &Vec<AmsatReport>, now: i64)
    requires
        blocks_wf(blocks_view(old(blocks)@)),
    ensures
        blocks_view(final(blocks)@) == merged(
            blocks_view(old(blocks)@),
            reports_view(new_reports@),
            now as int,
        ),
        blocks_wf(blocks_view(final(blocks)@)),
        within(blocks_view(final(blocks)@), cutoff_at(now as int)),
{
    let ghost bv0 = blocks_view(blocks@);
    let ghost n0 = blocks@.len();
    let cutoff: i128 = now as i128 - RETENTION_SECS as i128;
    let mut kept: Vec<SatelliteDataBlock> = Vec::new();
    let ghost mut taken: int = 0;
    while blocks.len() > 0
        invariant
            0 <= taken <= n0,
            n0 == bv0.len(),
            blocks_view(blocks@) == bv0.subrange(taken, n0 as int),
            blocks_view(kept@) == prune(bv0.subrange(0, taken), cutoff as int),
        decreases blocks.len(),
    {
        let ghost before = blocks@;
        assert(blocks_view(before).len() == before.len());
        assert(taken < n0);
        let b = blocks.remove(0);
        assert(b@ == bv0[taken]) by {
            assert(blocks_view(before)[0] == before[0]@);
            assert(bv0.subrange(taken, n0 as int)[0] == bv0[taken]);
        }
        assert(blocks_view(blocks@) =~= bv0.subrange(taken + 1, n0 as int)) by {
            assert(blocks@ =~= before.subrange(1, before.len() as int));
            assert forall|x: int| 0 <= x < blocks@.len() implies blocks_view(blocks@)[x] == bv0.subrange(
                taken + 1,
                n0 as int,
            )[x] by {
                assert(blocks@[x] == before[x + 1]);
                assert(blocks_view(before)[x + 1] == before[x + 1]@);
                assert(bv0.subrange(taken, n0 as int)[x + 1] == bv0[taken + 1 + x]);
            }
        }
        assert(bv0.subrange(0, taken + 1).drop_last() =~= bv0.subrange(0, taken));
        if b.time as i128 >= cutoff {
            let ghost kv = kept@;
            kept.push(b);
            assert(blocks_view(kept@) =~= blocks_view(kv).push(b@));
        }
        proof {
            taken = taken + 1;
        }
    }
    assert(bv0.subrange(0, n0 as int) =~= bv0);
    *blocks = kept;
    let ghost pruned = blocks_view(blocks@);
    let ghost rv = reports_view(new_reports@);
    proof {
        lemma_prune_wf(bv0, cutoff as int);
    }
    let mut k: usize = 0;
    while k < new_reports.len()
        invariant
            k <= new_reports@.len() == rv.len(),
            rv == reports_view(new_reports@),
            cutoff == now as int - 172800,
            pruned == prune(bv0, cutoff_at(now as int)),
            blocks_view(blocks@) == insert_all(pruned, rv.subrange(0, k as int), now as int),
            blocks_wf(blocks_view(blocks@)),
            within(blocks_view(blocks@), cutoff_at(now as int)),
        decreases new_reports.len() - k,
    {
        let r = &new_reports[k];
        let ghost prefix = rv.subrange(0, k + 1);
        assert(prefix.drop_last() =~= rv.subrange(0, k as int));
        assert(prefix.last() == r@);
        let ghost prev = blocks_view(blocks@);
        match parse_rfc3339(r.reported_time.as_str()) {
            Some(t) => {
                let h = hour_floor_wide(t);
                if t as i128 <= now as i128 + FUTURE_SLACK_SECS as i128 && h >= i64::MIN as i128 && h >= cutoff {
                    assert(accepted(r@, now as int));
                    proof {
                        lemma_insert_wf(prev, r@, h as int, cutoff_at(now as int));
                    }
                    insert_one(blocks, r.duplicate(), h as i64);
                }
            },
            None => {},
        }
        k = k + 1;
    }
    assert(rv.subrange(0, rv.len() as int) =~= rv);
}

} // verus!
