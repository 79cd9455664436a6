use rinko::lotw::{clean_cell, parse_latency_secs, parse_lotw_row, parse_lotw_rows, split_processing_cell, strip_commas};

#[test]
fn test_parse_latency_secs_ok() {
    assert_eq!(parse_latency_secs("0d 00h 00m 59s ago"), 59);
    assert_eq!(parse_latency_secs("0d 00h 37m 25s ago"), 37 * 60 + 25);
    assert_eq!(parse_latency_secs("1d 02h 03m 04s ago"), 86400 + 7200 + 180 + 4);
    assert_eq!(parse_latency_secs("(0d 00h 09m 21s ago)"), 9 * 60 + 21);
}

#[test]
fn test_split_processing_cell() {
    let (ts, lat) = split_processing_cell("2026-02-18 04:58:03 (0d 00h 00m 59s ago)");
    assert_eq!(ts, "2026-02-18 04:58:03");
    assert_eq!(lat, "0d 00h 00m 59s ago");

    let (ts2, lat2) = split_processing_cell("2026-02-17 21:21:36 (0d 00h 37m 25s ago)");
    assert_eq!(ts2, "2026-02-17 21:21:36");
    assert_eq!(lat2, "0d 00h 37m 25s ago");
}

#[test]
fn short_processing_cell_is_all_timestamp() {
    let (ts, lat) = split_processing_cell("2026-02-18");
    assert_eq!(ts, "2026-02-18");
    assert_eq!(lat, "");
}

#[test]
fn latency_missing_fields_and_garbage() {
    assert_eq!(parse_latency_secs(""), 0);
    assert_eq!(parse_latency_secs("5m 10s"), 310);
    assert_eq!(parse_latency_secs("x 5m 10s"), 310);
    assert_eq!(parse_latency_secs("xd 00h 01m 00s"), 60);
}

#[test]
fn cells_are_cleaned() {
    assert_eq!(clean_cell("  1,234 \n  logs "), "1,234 logs");
    assert_eq!(strip_commas("1,234,567"), "1234567");
}

fn cells(v: &[&str]) -> Vec<String> {
    v.iter().map(|s| s.to_string()).collect()
}

#[test]
fn latency_classification() {
    let ok = parse_lotw_row(&cells(&["2026-02-18 04:00", "1,200", "45,678", "9,999,999", "2026-02-18 04:58:03 (0d 00h 09m 21s ago)"])).unwrap();
    assert_eq!(parse_latency_secs(&ok.latency_text), 561);
    assert!(!ok.latency_bad);
    assert_eq!(ok.logs, 1200);
    assert_eq!(ok.qsos, 45678);
    assert_eq!(ok.bytes, 9999999);
    assert_eq!(ok.currently_processing, "2026-02-18 04:58:03");

    let bad = parse_lotw_row(&cells(&["e", "1", "2", "3", "2026-02-18 04:58:03 (0d 00h 20m 00s ago)"])).unwrap();
    assert_eq!(parse_latency_secs(&bad.latency_text), 1200);
    assert!(bad.latency_bad);
}

#[test]
fn malformed_rows_are_skipped() {
    assert!(parse_lotw_row(&cells(&["a", "b", "c", "d"])).is_none());
    let rows = vec![
        cells(&["a", "b"]),
        cells(&["e", "x", "2", "3", "2026-02-18 04:58:03 (0d 00h 00m 10s ago)"]),
    ];
    let parsed = parse_lotw_rows(&rows);
    assert_eq!(parsed.len(), 1);
    assert_eq!(parsed[0].logs, 0);
}

#[test]
fn html_table_rows() {
    let html = r#"<html><body><table>
<thead><tr><th>Epoch</th><th>Logs</th></tr></thead>
<tbody>
<tr><td> 2026-02-18 04:00 </td><td>1,200</td><td>45,678</td><td>9,999</td><td>2026-02-18 04:58:03 (0d 00h 09m 21s ago)</td></tr>
<tr><td>broken</td></tr>
<tr><td>2026-02-18 03:00</td><td>10</td><td>20</td><td>30</td><td>2026-02-18 03:40:00 (0d 00h 20m 00s ago)</td></tr>
</tbody></table></body></html>"#;
    let snap = rinko::lotw::parse_lotw_html(html, 5);
    assert_eq!(snap.fetched_at, 5);
    assert_eq!(snap.rows.len(), 2);
    assert_eq!(snap.rows[0].epoch, "2026-02-18 04:00");
    assert_eq!(snap.rows[0].qsos, 45678);
    assert!(!snap.rows[0].latency_bad);
    assert!(snap.rows[1].latency_bad);
}
