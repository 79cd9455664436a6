use rinko::catalog::{get_known_satellites, names_or_known};
use rinko::metadata::FrequencyCsvRow;

#[test]
fn test_known_satellites_not_empty() {
    let satellites = get_known_satellites();
    assert!(!satellites.is_empty());
    assert!(satellites.contains(&"AO-91".to_string()));
    assert!(satellites.contains(&"ISS-FM".to_string()));
}

#[test]
fn scrape_fallback() {
    assert_eq!(names_or_known(vec!["X".to_string()]), vec!["X".to_string()]);
    assert_eq!(names_or_known(Vec::new()).len(), 56);
}

fn row(mode: &str, norad: &str) -> FrequencyCsvRow {
    FrequencyCsvRow {
        name: "ISS".to_string(),
        norad_id: norad.to_string(),
        uplink: "".to_string(),
        downlink: "145.800".to_string(),
        beacon: "".to_string(),
        mode: mode.to_string(),
        callsign: "".to_string(),
        satnogs_id: "".to_string(),
    }
}

#[test]
fn test_csv_row_mode_label_extraction() {
    assert_eq!(row("SSTV", "25544").extract_mode_label(), "SSTV");
}

#[test]
fn mode_labels() {
    assert_eq!(row("fm tone 67.0Hz", "1").extract_mode_label(), "FM");
    assert_eq!(row("USB/LSB SSB", "1").extract_mode_label(), "SSB");
    assert_eq!(row("1200bps AFSK APRS", "1").extract_mode_label(), "Digipeater");
    assert_eq!(row("DVB-S2 video", "1").extract_mode_label(), "DATV");
    assert_eq!(row(" b ", "1").extract_mode_label(), "Mode B");
    assert_eq!(row("Linear transponder", "1").extract_mode_label(), "LINEAR");
    assert_eq!(row("", "1").transponder_label(), "Default");
}

#[test]
fn norad_ids() {
    assert_eq!(row("", " 25544 ").parse_norad_id(), Some(25544));
    assert_eq!(row("", "4294967296").parse_norad_id(), None);
    assert_eq!(row("", "+7").parse_norad_id(), Some(7));
    assert_eq!(row("", "").parse_norad_id(), None);
}

#[test]
fn dropdown_names() {
    let html = r#"<form><select name="SatName">
<option value="Select Satellite">Select Satellite</option>
<option value=" AO-91 ">AO-91</option>
<option value="">blank</option>
<option>no value</option>
<option value="ISS-FM">ISS-FM</option>
</select><select name="Other"><option value="X">X</option></select></form>"#;
    assert_eq!(rinko::catalog::satellite_names_from_page(html), vec!["AO-91".to_string(), "ISS-FM".to_string()]);
}

#[test]
fn api_urls() {
    assert_eq!(
        rinko::catalog::amsat_api_url("AO-91", 1),
        "https://www.amsat.org/status/api/v1/sat_info.php?name=AO-91&hours=1"
    );
}
