use rinko::entry::EntryStore;
use rinko::reports::{hour_floor, merge_reports, AmsatReport, SatelliteDataBlock};
use rinko::saved::SavedEntry;

// 2026-02-18T10:15:00Z
const NOW: i64 = 1771409700;

fn report(call: &str, time: &str) -> AmsatReport {
    AmsatReport {
        name: "ISS-FM".to_string(),
        reported_time: time.to_string(),
        callsign: call.to_string(),
        report: "Heard".to_string(),
        grid_square: "OM89".to_string(),
    }
}

fn times(blocks: &[SatelliteDataBlock]) -> Vec<i64> {
    blocks.iter().map(|b| b.time).collect()
}

fn keys(b: &SatelliteDataBlock) -> Vec<(String, String)> {
    b.reports.iter().map(|r| (r.callsign.clone(), r.reported_time.clone())).collect()
}

#[test]
fn rfc3339_times_place_reports() {
    let mut blocks = Vec::new();
    let new = vec![report("A", "2026-02-18T18:15:00+08:00"), report("B", "yesterday")];
    merge_reports(&mut blocks, &new, NOW);
    assert_eq!(times(&blocks), vec![NOW - 15 * 60]);
    assert_eq!(blocks[0].reports.len(), 1);
    assert_eq!(hour_floor(NOW), NOW - 15 * 60);
    assert_eq!(hour_floor(-1), -3600);
}

#[test]
fn merge_buckets_by_hour_newest_first() {
    let mut blocks = Vec::new();
    let new = vec![
        report("BA1AA", "2026-02-18T08:05:00Z"),
        report("BA1BB", "2026-02-18T10:01:00Z"),
        report("BA1CC", "2026-02-18T08:59:59Z"),
    ];
    merge_reports(&mut blocks, &new, NOW);
    assert_eq!(times(&blocks), vec![NOW - 15 * 60, NOW - 15 * 60 - 7200]);
    assert_eq!(blocks[1].reports.len(), 2);
    assert_eq!(blocks[0].reports[0].callsign, "BA1BB");
}

#[test]
fn merge_drops_duplicates_future_and_old() {
    let mut blocks = Vec::new();
    let new = vec![
        report("BA1AA", "2026-02-18T09:05:00Z"),
        report("BA1AA", "2026-02-18T09:05:00Z"),
        report("BA1AA", "2026-02-18T09:06:00Z"),
        // more than five minutes ahead
        report("BA1DD", "2026-02-18T10:21:00Z"),
        // within five minutes ahead
        report("BA1EE", "2026-02-18T10:19:00Z"),
        // older than 48 hours
        report("BA1FF", "2026-02-16T09:00:00Z"),
        report("BA1GG", "not a time"),
    ];
    merge_reports(&mut blocks, &new, NOW);
    assert_eq!(blocks.len(), 2);
    assert_eq!(
        keys(&blocks[1]),
        vec![
            ("BA1AA".to_string(), "2026-02-18T09:05:00Z".to_string()),
            ("BA1AA".to_string(), "2026-02-18T09:06:00Z".to_string()),
        ]
    );
    assert_eq!(keys(&blocks[0]), vec![("BA1EE".to_string(), "2026-02-18T10:19:00Z".to_string())]);
}

#[test]
fn merge_empty_only_prunes() {
    let mut blocks = vec![
        SatelliteDataBlock { time: NOW - 900, reports: vec![report("A", "2026-02-18T10:01:00Z")] },
        SatelliteDataBlock { time: NOW - 900 - 49 * 3600, reports: vec![] },
    ];
    merge_reports(&mut blocks, &Vec::new(), NOW);
    assert_eq!(times(&blocks), vec![NOW - 900]);
    assert_eq!(blocks[0].reports.len(), 1);
}

#[test]
fn merge_twice_is_merge_once() {
    let new = vec![
        report("BA1AA", "2026-02-18T09:05:00Z"),
        report("BA1BB", "2026-02-17T23:30:00Z"),
        report("BA1CC", "2026-02-18T09:45:00Z"),
    ];
    let mut once = vec![SatelliteDataBlock { time: NOW - 900 - 3600, reports: vec![report("X", "2026-02-18T09:00:00Z")] }];
    merge_reports(&mut once, &new, NOW);
    let mut twice = once.clone();
    merge_reports(&mut twice, &new, NOW);
    assert_eq!(times(&once), times(&twice));
    for (a, b) in once.iter().zip(twice.iter()) {
        assert_eq!(keys(a), keys(b));
    }
    assert_eq!(times(&once), vec![NOW - 900 - 3600, NOW - 900 - 11 * 3600]);
    assert_eq!(once[0].reports.len(), 3);
}

#[test]
fn merged_blocks_keep_the_invariants() {
    let mut blocks = Vec::new();
    let mut all = Vec::new();
    for h in 0..60 {
        let t = format!("2026-02-{:02}T{:02}:10:00Z", 16 + (h / 24), h % 24);
        all.push(report("BA1AA", &t));
        all.push(report("BA1AB", &t));
        all.push(report("BA1AA", &t));
    }
    merge_reports(&mut blocks, &all, NOW);
    for w in blocks.windows(2) {
        assert!(w[0].time > w[1].time);
    }
    for b in &blocks {
        assert!(b.time >= NOW - 48 * 3600);
        let k = keys(b);
        for i in 0..k.len() {
            for j in 0..k.len() {
                assert!(i == j || k[i] != k[j]);
            }
        }
    }
}

#[test]
fn reload_from_reports_rebuilds_blocks() {
    let mut blocks = Vec::new();
    let new = vec![
        report("BA1AA", "2026-02-18T09:05:00Z"),
        report("BA1BB", "2026-02-17T23:30:00Z"),
        report("BA1CC", "2026-02-18T09:45:00Z"),
        report("BA1DD", "2026-02-18T10:00:00Z"),
    ];
    merge_reports(&mut blocks, &new, NOW);
    let flat: Vec<AmsatReport> = blocks.iter().flat_map(|b| b.reports.iter().cloned()).collect();
    let mut reloaded = Vec::new();
    merge_reports(&mut reloaded, &flat, NOW);
    assert_eq!(times(&reloaded), times(&blocks));
    for (a, b) in reloaded.iter().zip(blocks.iter()) {
        assert_eq!(keys(a), keys(b));
    }
}

#[test]
fn saved_store_restores() {
    let mut store = EntryStore::new();
    let idx = store.upsert("AO-91", NOW);
    let rs = vec![report("BA1AA", "2026-02-18T09:05:00Z"), report("BA1BB", "2026-02-18T08:30:00Z")];
    store.entries[idx].record_fetch(Some(&rs), NOW);
    let saved = store.saved_form();
    assert_eq!(saved.len(), 1);
    assert_eq!(saved[0].reports.len(), 2);
    let mut dup = saved.clone();
    dup.push(SavedEntry { api_name: "AO-91".to_string(), reports: Vec::new(), last_updated: 0, last_fetch_success: None, update_success: false });
    let restored = EntryStore::restore(&dup, NOW);
    assert_eq!(restored.entries.len(), 1);
    let e = &restored.entries[0];
    assert_eq!(times(&e.reports), times(&store.entries[idx].reports));
    assert_eq!(e.last_fetch_success, Some(NOW));
    assert!(e.update_success);
}
