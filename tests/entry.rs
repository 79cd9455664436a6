use rinko::entry::{AmsatEntry, EntryStore};
use rinko::reports::AmsatReport;
use rinko::status::ReportStatus;

const NOW: i64 = 1771409700;

fn report(call: &str, time: &str, status: &str) -> AmsatReport {
    AmsatReport {
        name: "AO-91".to_string(),
        reported_time: time.to_string(),
        callsign: call.to_string(),
        report: status.to_string(),
        grid_square: "PM01".to_string(),
    }
}

#[test]
fn test_amsat_entry_creation() {
    let e = AmsatEntry::from_api_name("ISS-FM", NOW);
    assert_eq!(e.api_name, "ISS-FM");
    assert_eq!(e.satellite_base_name, "ISS");
    assert_eq!(e.mode_hint, Some("FM".to_string()));
    assert!(e.aliases.contains(&"ISSFM".to_string()));
    assert_eq!(e.total_reports(), 0);
    assert_eq!(e.latest_status(), ReportStatus::Grey);
    assert!(!e.update_success);
}

#[test]
fn test_amsat_entry_no_mode() {
    let entry = AmsatEntry::from_api_name("AO-91", NOW);
    assert_eq!(entry.api_name, "AO-91");
    assert_eq!(entry.satellite_base_name, "AO-91");
    assert_eq!(entry.mode_hint, None);
}

#[test]
fn record_fetch_outcomes() {
    let mut e = AmsatEntry::from_api_name("AO-91", NOW - 100);
    let rs = vec![report("BA1AA", "2026-02-18T10:05:00Z", "Not Heard"), report("BA1AB", "2026-02-18T10:06:00Z", "Heard")];
    e.record_fetch(Some(&rs), NOW);
    assert!(e.update_success);
    assert_eq!(e.last_fetch_success, Some(NOW));
    assert_eq!(e.last_updated, NOW);
    assert_eq!(e.total_reports(), 2);
    assert_eq!(e.latest_status(), ReportStatus::Blue);
    assert!(e.has_recent_data(1, NOW));

    e.record_fetch(Some(&Vec::new()), NOW + 60);
    assert!(e.update_success);
    assert_eq!(e.last_fetch_success, Some(NOW));
    assert_eq!(e.total_reports(), 2);

    e.record_fetch(None, NOW + 120);
    assert!(!e.update_success);
    assert_eq!(e.last_updated, NOW + 120);
    assert_eq!(e.total_reports(), 2);
}

#[test]
fn store_upsert_and_cycle() {
    let mut store = EntryStore::new();
    let a = store.upsert("AO-91", NOW);
    let b = store.upsert("ISS-FM", NOW);
    assert_eq!(store.upsert("AO-91", NOW), a);
    assert_ne!(a, b);
    assert_eq!(store.find("ISS-FM"), Some(b));
    assert_eq!(store.find("RS-44"), None);
    let results = vec![
        ("RS-44".to_string(), Some(vec![report("BA1AA", "2026-02-18T10:05:00Z", "Heard")])),
        ("AO-91".to_string(), None),
    ];
    let report = store.apply_fetch_results(&results, NOW);
    assert_eq!(report.total_entries, 3);
    assert_eq!(report.successful_updates, 1);
    assert_eq!(report.failed_updates, 1);
    assert_eq!(report.new_entries, vec!["RS-44".to_string()]);
    assert_eq!(store.entries.len(), 3);
    let rs = &store.entries[store.find("RS-44").unwrap()];
    assert!(rs.update_success);
    assert_eq!(rs.total_reports(), 1);
    assert!(!store.entries[a].update_success);
    assert_eq!(store.entries[b].last_updated, NOW);
}

#[test]
fn recent_blocks() {
    let mut e = AmsatEntry::from_api_name("AO-91", NOW);
    let rs = vec![report("A", "2026-02-18T10:05:00Z", "Heard"), report("B", "2026-02-18T06:05:00Z", "Heard")];
    e.record_fetch(Some(&rs), NOW);
    assert_eq!(e.get_recent_reports(2, NOW).len(), 1);
    assert_eq!(e.get_recent_reports(6, NOW).len(), 2);
}

#[test]
fn test_update_report_default() {
    let report = rinko::entry::UpdateReport::default();
    assert_eq!(report.total_entries, 0);
    assert_eq!(report.new_entries.len(), 0);
}
