use rinko::dx_world::{extract_callsigns, extract_last_update, extract_month, parse_html, timeline_days};

#[test]
fn test_extract_month() {
    let html = r#"context.fillText('FEBRUARY', 275, 340);"#;
    assert_eq!(extract_month(html), "FEBRUARY");
}

#[test]
fn test_extract_callsigns() {
    let html = r#"var labels = ['KP5/NP3VI','','J38TT','8R1WA'];"#;
    assert_eq!(extract_callsigns(html), vec!["KP5/NP3VI", "", "J38TT", "8R1WA"]);
}

#[test]
fn test_extract_last_update() {
    let html = r#"context.fillText('Last update: February 15, 2026', 15, 65);"#;
    assert_eq!(extract_last_update(html), Some("February 15, 2026".to_string()));
}

#[test]
fn month_fallbacks() {
    assert_eq!(extract_month(r#"<meta content="DX-World.net - MARCH Featured">"#), "MARCH");
    assert_eq!(extract_month("nothing here"), "UNKNOWN");
    assert_eq!(extract_last_update("nothing"), None);
}

#[test]
fn timeline_cells() {
    assert_eq!(timeline_days("0, 28,,,'#8BFF61'"), (Some(0), Some(28)));
    assert_eq!(timeline_days(" 5 "), (Some(5), None));
    assert_eq!(timeline_days(", ,'#8FF4FF'"), (None, None));
    assert_eq!(timeline_days("300, 2"), (None, Some(2)));
}

#[test]
fn whole_page() {
    let html = r#"
context.fillText('FEBRUARY', 275, 340);
context.fillText('Last update: February 15, 2026', 15, 65);
var labels = ['KP5/NP3VI','','J38TT'];
tooltip: "<b>Desecheo Island</b><br /><a href=\"https://example.org/kp5\">more</a>"
tooltip: "<b>Unused</b><br /><a href=\"https://example.org/x\">more</a>"
tooltip: "<b>St Vincent</b><br /><a href=\"https://example.org/j38\">more</a>"
data = [[[0, 28,,,'#8BFF61'],[0, ,,,'#8FF4FF']],
[[3, 4,,,'#8BFF61'],[1, ,,,'#8FF4FF']],
[[10, 7,,,'#8BFF61'],[2, ,,,'#8FF4FF']]];
"#;
    let t = parse_html(html);
    assert_eq!(t.month, "FEBRUARY");
    assert_eq!(t.last_update, Some("February 15, 2026".to_string()));
    assert_eq!(t.expeditions.len(), 2);
    assert_eq!(t.expeditions[0].callsign, "KP5/NP3VI");
    assert_eq!(t.expeditions[0].location, "Desecheo Island");
    assert_eq!(t.expeditions[0].url, Some("https://example.org/kp5".to_string()));
    assert_eq!(t.expeditions[0].start_day, Some(0));
    assert_eq!(t.expeditions[0].duration_days, Some(28));
    assert_eq!(t.expeditions[1].callsign, "J38TT");
    assert_eq!(t.expeditions[1].location, "St Vincent");
    assert_eq!(t.expeditions[1].start_day, Some(10));
    assert_eq!(t.expeditions[1].duration_days, Some(7));
}
