use rinko::qo100::{format_frequency, spots_newest_first, truncate_comment, Qo100RawSpot};

#[test]
fn test_format_frequency() {
    assert_eq!(format_frequency(10_489_740), ".740");
    assert_eq!(format_frequency(10_489_520), ".520");
    assert_eq!(format_frequency(10_489_900), ".900");
    assert_eq!(format_frequency((29_041.7f64).round() as i64), "--");
    assert_eq!(format_frequency(10_490_000), "--");
    assert_eq!(format_frequency(10_489_500), ".500");
    assert_eq!(format_frequency(10_489_499), "--");
}

fn raw(dx: &str, f: i64, comment: &str) -> Qo100RawSpot {
    Qo100RawSpot {
        datetime: "2026-02-18 14:21".to_string(),
        frequency_hz: f,
        de: "OM0AAO".to_string(),
        dx: dx.to_string(),
        comment: comment.to_string(),
        spot_source: "DXCluster".to_string(),
    }
}

#[test]
fn spots_come_newest_first() {
    let spots = spots_newest_first(&vec![raw("FIRST", 10489740, "a"), raw("SECOND", 10489600, " b   c ")]);
    assert_eq!(spots.len(), 2);
    assert_eq!(spots[0].dx, "SECOND");
    assert_eq!(spots[0].freq, ".600");
    assert_eq!(spots[0].comments, "b c");
    assert_eq!(spots[1].dx, "FIRST");
    assert_eq!(spots[1].spotter, "OM0AAO");
    assert_eq!(spots[1].source, "DXCluster");
}

#[test]
fn out_of_band_spot_frequency() {
    let spots = spots_newest_first(&vec![raw("X", 14_074_000, "FT8")]);
    assert_eq!(spots[0].freq, "--");
}

#[test]
fn comments_are_cut_at_forty() {
    let long = "a".repeat(41);
    assert_eq!(truncate_comment(&long), format!("{}...", "a".repeat(37)));
    let exact = "b".repeat(40);
    assert_eq!(truncate_comment(&exact), exact);
}
