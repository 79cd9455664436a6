use rinko::amsat_name::{
    find_matching_transponder_index, generate_aliases, is_mode_keyword, normalize_for_search,
    parse_amsat_name, ParsedAmsatName,
};

fn parsed(base: &str, hint: Option<&str>) -> ParsedAmsatName {
    ParsedAmsatName { base_name: base.to_string(), mode_hint: hint.map(|h| h.to_string()) }
}

#[test]
fn test_parse_iss_fm() {
    assert_eq!(parse_amsat_name("ISS-FM"), parsed("ISS", Some("FM")));
}

#[test]
fn test_parse_iss_sstv() {
    assert_eq!(parse_amsat_name("ISS-SSTV"), parsed("ISS", Some("SSTV")));
}

#[test]
fn test_parse_iss_space_fm() {
    assert_eq!(parse_amsat_name("ISS FM"), parsed("ISS", Some("FM")));
}

#[test]
fn test_parse_ao91() {
    assert_eq!(parse_amsat_name("AO-91"), parsed("AO-91", None));
}

#[test]
fn test_parse_ao7() {
    assert_eq!(parse_amsat_name("AO-7"), parsed("AO-7", None));
}

#[test]
fn test_parse_rs44() {
    assert_eq!(parse_amsat_name("RS-44"), parsed("RS-44", None));
}

#[test]
fn test_parse_iss_data() {
    assert_eq!(parse_amsat_name("ISS-DATA"), parsed("ISS", Some("DATA")));
}

#[test]
fn test_parse_iss_datv() {
    assert_eq!(parse_amsat_name("ISS-DATV"), parsed("ISS", Some("DATV")));
}

#[test]
fn test_parse_plain_name() {
    assert_eq!(parse_amsat_name("TEVEL-1"), parsed("TEVEL-1", None));
}

#[test]
fn test_parse_io117() {
    assert_eq!(parse_amsat_name("IO-117"), parsed("IO-117", None));
}

#[test]
fn parse_bracketed_mode_is_upper_cased() {
    assert_eq!(parse_amsat_name("FO-118[H/u]"), parsed("FO-118", Some("H/U")));
}

#[test]
fn parse_parenthesised_mode() {
    assert_eq!(parse_amsat_name("SAT-X (fm)"), parsed("SAT-X", Some("FM")));
    assert_eq!(parse_amsat_name("QMR-KWT-2_(RS95s)"), parsed("QMR-KWT-2_(RS95s)", None));
}

#[test]
fn parse_trims_and_handles_empty() {
    assert_eq!(parse_amsat_name("  TEVEL2 FM  "), parsed("TEVEL2", Some("FM")));
    assert_eq!(parse_amsat_name("   "), parsed("", None));
}

#[test]
fn parse_twice_gives_the_same_result() {
    for name in ["ISS-FM", "AO-91", "FO-118[H/u]", "PO-101[FM]", ""] {
        assert_eq!(parse_amsat_name(name), parse_amsat_name(name));
    }
}

#[test]
fn mode_keywords_ignore_case() {
    assert!(is_mode_keyword("fm"));
    assert!(is_mode_keyword("V/U FM"));
    assert!(is_mode_keyword("b"));
    assert!(!is_mode_keyword("91"));
    assert!(!is_mode_keyword("FMX"));
}

#[test]
fn test_normalize_for_search() {
    assert_eq!(normalize_for_search("ISS-FM"), "issfm");
    assert_eq!(normalize_for_search("AO-91"), "ao91");
    assert_eq!(normalize_for_search("  ISS SSTV  "), "isssstv");
}

#[test]
fn normalize_is_idempotent_on_examples() {
    for s in ["ISS-FM", "FO-118[H/u]", "  a b\tC!  ", "", "ÄO-7"] {
        let once = normalize_for_search(s);
        assert_eq!(normalize_for_search(&once), once);
    }
}

#[test]
fn test_generate_aliases() {
    let aliases = generate_aliases("ISS-FM");
    assert!(aliases.contains(&"ISSFM".to_string()));
    assert!(aliases.contains(&"ISS FM".to_string()));
}

#[test]
fn aliases_in_order_without_duplicates() {
    assert_eq!(generate_aliases("ISS-FM"), vec!["ISSFM".to_string(), "ISS FM".to_string()]);
    assert_eq!(generate_aliases("ISS FM"), vec!["ISSFM".to_string(), "ISS-FM".to_string()]);
    assert_eq!(generate_aliases("RS95s"), Vec::<String>::new());
}

fn labels(pairs: &[(&str, &str)]) -> Vec<(String, String)> {
    pairs.iter().map(|(a, b)| (a.to_string(), b.to_string())).collect()
}

#[test]
fn test_find_matching_transponder_fm() {
    let l = labels(&[("SSTV", "SSTV"), ("Digipeater", "1200bps AFSK Digipeater"), ("FM", "FM tone 67.0Hz")]);
    assert_eq!(find_matching_transponder_index(Some("FM"), &l), Some(2));
}

#[test]
fn test_find_matching_transponder_sstv() {
    let l = labels(&[("SSTV", "SSTV"), ("Digipeater", "1200bps AFSK Digipeater"), ("FM", "FM tone 67.0Hz")]);
    assert_eq!(find_matching_transponder_index(Some("SSTV"), &l), Some(0));
}

#[test]
fn test_find_matching_transponder_no_hint() {
    let l = labels(&[("SSTV", "SSTV"), ("FM", "FM tone 67.0Hz")]);
    assert_eq!(find_matching_transponder_index(None, &l), Some(0));
}

#[test]
fn test_find_matching_transponder_data_in_mode() {
    let l = labels(&[("FM", "FM tone 67.0Hz"), ("Digipeater", "1200bps AFSK DATA")]);
    assert_eq!(find_matching_transponder_index(Some("DATA"), &l), Some(1));
}

#[test]
fn transponder_match_label_contains_and_none() {
    let l = labels(&[("Linear", "SSB/CW"), ("FM Voice", "FM")]);
    assert_eq!(find_matching_transponder_index(Some("fm"), &l), Some(1));
    assert_eq!(find_matching_transponder_index(Some("APRS"), &l), None);
    assert_eq!(find_matching_transponder_index(None, &[]), None);
}

#[test]
fn transponder_match_ignores_unicode_case() {
    let l = labels(&[("É", "voix")]);
    assert_eq!(find_matching_transponder_index(Some("é"), &l), Some(0));
    assert_eq!(find_matching_transponder_index(Some("ß"), &labels(&[("SS", "x")])), Some(0));
}
