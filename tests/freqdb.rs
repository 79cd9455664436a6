use rinko::freqdb::{FrequencyDatabase, TransponderInfo};
use rinko::metadata::FrequencyCsvRow;

fn row(name: &str, norad: &str, mode: &str, sid: &str) -> FrequencyCsvRow {
    FrequencyCsvRow {
        name: name.to_string(),
        norad_id: norad.to_string(),
        uplink: String::new(),
        downlink: String::new(),
        beacon: String::new(),
        mode: mode.to_string(),
        callsign: String::new(),
        satnogs_id: sid.to_string(),
    }
}

fn tp(r: &FrequencyCsvRow, up: &str, down: &str) -> TransponderInfo {
    TransponderInfo {
        label: r.transponder_label(),
        mode: r.mode.clone(),
        uplink: up.to_string(),
        downlink: down.to_string(),
        beacon: "N/A".to_string(),
        callsign: None,
        satnogs_id: if r.satnogs_id.is_empty() { None } else { Some(r.satnogs_id.clone()) },
    }
}

fn sample() -> FrequencyDatabase {
    let mut db = FrequencyDatabase::new();
    let rows = [
        (row("ISS", "25544", "SSTV", "XSKZ"), "N/A", "145.800 MHz"),
        (row("ISS", "25544", "1200bps AFSK SSTV", "XSKZ"), "N/A", "437.550 MHz"),
        (row("ISS", "25544", "1200bps AFSK Digipeater", "XSKZ"), "145.825 MHz", "145.825 MHz"),
        (row("ISS", "25544", "SSTV", "XSKZ"), "N/A", "145.800 MHz"),
        (row("AO-91", "43017", "FM* CTCSS 67.0Hz/200bps DUV", "PMAW"), "435.250 MHz", "145.960 MHz"),
        (row("AO-7", "7530", "A", ""), "145.850-145.950 MHz", "29.400-29.500 MHz"),
        (row("AO-07", "7530", "B C", ""), "432.125-432.175 MHz", "145.975-145.925 MHz"),
    ];
    for (r, up, down) in rows.iter() {
        let t = tp(r, up, down);
        assert!(db.add_row(r, t));
    }
    db
}

#[test]
fn metadata_store_groups_by_norad_id() {
    let mut db = sample();
    assert_eq!(db.satellites.len(), 3);
    let stats = db.stats();
    assert_eq!(stats.total_satellites, 3);
    assert_eq!(stats.total_transponders, 6);
    assert_eq!(stats.satellites_with_multiple_transponders, 2);
    let iss = db.get_satellite(25544).unwrap();
    assert_eq!(iss.common_name, "ISS");
    assert_eq!(iss.transponders.len(), 3);
    assert_eq!(iss.satnogs_id, Some("XSKZ".to_string()));
    let ao7 = db.get_satellite(7530).unwrap();
    assert_eq!(ao7.aliases, vec!["AO-07".to_string()]);
    assert_eq!(ao7.transponders[0].label, "Mode A");
    let bad = row("X", "abc", "", "");
    let t = tp(&bad, "", "");
    assert!(!db.add_row(&bad, t));
    assert_eq!(db.satellites.len(), 3);
}

#[test]
fn find_by_name_ignores_case() {
    let db = sample();
    assert_eq!(db.find_satellites_by_name("iss"), vec![0]);
    assert_eq!(db.find_satellites_by_name("AO"), vec![1, 2]);
    assert_eq!(db.find_satellites_by_name("ao-07"), vec![2]);
    assert!(db.find_satellites_by_name("RS-44").is_empty());
}

#[test]
fn lookup_joins_entry_to_transponder() {
    let db = sample();
    let m = db.lookup_metadata("ISS", Some("SSTV")).unwrap();
    assert_eq!(m.norad_id, 25544);
    assert_eq!(m.transponder_label, "SSTV");
    assert_eq!(m.downlink, "145.800 MHz");
    let d = db.lookup_metadata("ISS", Some("DIGI")).unwrap();
    assert_eq!(d.transponder_label, "Digipeater");
    let plain = db.lookup_metadata("AO-91", None).unwrap();
    assert_eq!(plain.norad_id, 43017);
    assert_eq!(plain.uplink, "435.250 MHz");
    assert!(db.lookup_metadata("ISS", Some("APRS")).is_none());
    assert!(db.lookup_metadata("RS-44", None).is_none());
}
