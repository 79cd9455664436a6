use rinko::entry::AmsatEntry;
use rinko::search::{search_amsat_entries, AmsatMatchType};

fn make_test_entries() -> Vec<AmsatEntry> {
    ["ISS-FM", "ISS-SSTV", "ISS-DATA", "ISS-DATV", "AO-91", "AO-92", "RS-44", "FO-118[H/u]"]
        .iter()
        .map(|n| AmsatEntry::from_api_name(n, 0))
        .collect()
}

#[test]
fn test_search_exact_api_name() {
    let entries = make_test_entries();
    let results = search_amsat_entries("ISS-FM", &entries);
    assert_eq!(results.len(), 1);
    assert_eq!(results[0].api_name, "ISS-FM");
    assert_eq!(results[0].match_type, AmsatMatchType::ExactApiName);
    assert_eq!(results[0].score, 10000);
}

#[test]
fn test_search_exact_case_insensitive() {
    let entries = make_test_entries();
    let results = search_amsat_entries("iss-fm", &entries);
    assert_eq!(results.len(), 1);
    assert_eq!(results[0].api_name, "ISS-FM");
}

#[test]
fn test_search_exact_no_separator() {
    let entries = make_test_entries();
    let results = search_amsat_entries("issfm", &entries);
    assert!(!results.is_empty());
    assert_eq!(results[0].api_name, "ISS-FM");
}

#[test]
fn test_search_base_name_returns_all() {
    let entries = make_test_entries();
    let results = search_amsat_entries("iss", &entries);
    assert_eq!(results.len(), 4);
    let names: Vec<&str> = results.iter().map(|r| r.api_name.as_str()).collect();
    assert_eq!(names, vec!["ISS-FM", "ISS-SSTV", "ISS-DATA", "ISS-DATV"]);
    for r in &results {
        assert_eq!(r.match_type, AmsatMatchType::BaseName);
        assert_eq!(r.score, 9500);
        assert_eq!(entries[r.index].api_name, r.api_name);
    }
}

#[test]
fn test_search_ao91() {
    let entries = make_test_entries();
    let results = search_amsat_entries("ao91", &entries);
    assert!(!results.is_empty());
    assert_eq!(results[0].api_name, "AO-91");
}

#[test]
fn test_search_no_match() {
    let entries = make_test_entries();
    let results = search_amsat_entries("ZZZZZ", &entries);
    assert!(results.is_empty());
}

#[test]
fn test_search_bracket_name() {
    let entries = make_test_entries();
    let results = search_amsat_entries("FO-118", &entries);
    assert!(!results.is_empty());
    assert_eq!(results[0].api_name, "FO-118[H/u]");
}

#[test]
fn test_search_empty_query() {
    let entries = make_test_entries();
    assert!(search_amsat_entries("", &entries).is_empty());
    assert!(search_amsat_entries(" -- ", &entries).is_empty());
}

#[test]
fn contains_phase_scores_and_order() {
    let entries = make_test_entries();
    // "ao" is contained in ao91 and ao92: 2/4 of the name.
    let results = search_amsat_entries("ao", &entries);
    assert_eq!(results.len(), 2);
    assert_eq!(results[0].match_type, AmsatMatchType::Contains);
    assert_eq!(results[0].score, 5000);
    assert_eq!(results[0].api_name, "AO-91");
    // Four of five characters; "issf" holds no "fm".
    let fm = search_amsat_entries("issf", &entries);
    assert_eq!(fm.len(), 1);
    assert_eq!(fm[0].score, 8000);
    // Both sides hold "fm".
    let fm2 = search_amsat_entries("fm", &entries);
    assert_eq!(fm2[0].score, 9800);
}

#[test]
fn scores_never_increase() {
    let entries = make_test_entries();
    for q in ["iss", "ao", "s", "fm", "118", "a"] {
        let results = search_amsat_entries(q, &entries);
        for w in results.windows(2) {
            assert!(w[0].score >= w[1].score);
        }
    }
}
