use rinko::status::ReportStatus;

#[test]
fn shared_types_test_report_status_conversion() {
    assert_eq!(ReportStatus::from_string("heard"), ReportStatus::Blue);
    assert_eq!(ReportStatus::from_string("Heard"), ReportStatus::Blue);
    assert_eq!(ReportStatus::from_string("not heard"), ReportStatus::Red);
    assert_eq!(ReportStatus::from_string("unknown"), ReportStatus::Grey);
}

#[test]
fn shared_types_test_report_status_color() {
    assert_eq!(ReportStatus::Blue.to_color_hex(), "#4297f3ff");
    assert_eq!(ReportStatus::Red.to_color_hex(), "#ed3f3fff");
}

#[test]
fn types_test_report_status_conversion() {
    assert_eq!(ReportStatus::from_string("heard"), ReportStatus::Blue);
    assert_eq!(ReportStatus::from_string("Heard"), ReportStatus::Blue);
    assert_eq!(ReportStatus::from_string("not heard"), ReportStatus::Red);
    assert_eq!(ReportStatus::from_string("unknown"), ReportStatus::Grey);
}

#[test]
fn types_test_report_status_color() {
    assert_eq!(ReportStatus::Blue.to_color_hex(), "#4297f3ff");
    assert_eq!(ReportStatus::Red.to_color_hex(), "#ed3f3fff");
}

#[test]
fn every_status_text_and_colour() {
    assert_eq!(ReportStatus::from_string("Telemetry Only"), ReportStatus::Yellow);
    assert_eq!(ReportStatus::from_string("CONFLICTING REPORTS"), ReportStatus::Orange);
    assert_eq!(ReportStatus::from_string("Crew Active"), ReportStatus::Purple);
    assert_eq!(ReportStatus::string_to_color_hex("Crew Active"), "#946af5ff");
    assert_eq!(ReportStatus::string_to_color_hex("whatever"), "#6b7280");
    assert_eq!(ReportStatus::Orange.to_color_hex(), "#f97316");
    assert_eq!(ReportStatus::Yellow.to_color_hex(), "#f3cd36ff");
    assert_eq!(ReportStatus::Blue.to_string(), "Transponder/Repeater active");
    assert_eq!(ReportStatus::Blue.to_report_format(), "Heard");
    assert_eq!(ReportStatus::Orange.to_report_format(), "Unknown status");
    assert_eq!(ReportStatus::Grey.to_string(), "Unknown status");
}

#[test]
fn status_text_ignores_unicode_case() {
    assert_eq!(ReportStatus::from_string("HEARD"), ReportStatus::Blue);
    assert_eq!(ReportStatus::from_string("NOT HEARD"), ReportStatus::Red);
}
