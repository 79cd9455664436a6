use rinko::lotw::LotwQueueRow;
use rinko::qo100::Qo100Spot;
use rinko::render::{
    build_lotw_rows_svg, build_qo100_rows_svg, escape_xml, feed_image_filename, format_number,
    normalize_sat_name, quarter_floor, sat_image_filename, LotwRenderer, Qo100Renderer,
    SatelliteRenderer,
};

#[test]
fn xml_escaping() {
    assert_eq!(escape_xml("a<b & \"c\" 'd'>"), "a&lt;b &amp; &quot;c&quot; &apos;d&apos;&gt;");
    assert_eq!(escape_xml(""), "");
}

#[test]
fn number_grouping() {
    assert_eq!(format_number(0), "0");
    assert_eq!(format_number(999), "999");
    assert_eq!(format_number(1000), "1,000");
    assert_eq!(format_number(1234567), "1,234,567");
    assert_eq!(format_number(u64::MAX), "18,446,744,073,709,551,615");
}

#[test]
fn image_names() {
    // 2026-02-18T10:29:59Z and 10:15:00Z share a quarter hour.
    let a = quarter_floor(1771410599);
    let b = quarter_floor(1771409700);
    assert_eq!(a, b);
    let stamp = "20260218_1015".to_string();
    let names: Vec<String> = vec!["ISS-FM".to_string(), "AO-91".to_string()];
    let first = sat_image_filename(&stamp, &names);
    assert_eq!(first, "sat_20260218_1015_issfm_ao91.png");
    assert_eq!(feed_image_filename("sat", b).unwrap(), "sat_20260218_1015.png");
    let many: Vec<String> = ["A-1", "B-2", "C-3", "D-4", "E-5", "F-6"].iter().map(|s| s.to_string()).collect();
    assert_eq!(sat_image_filename(&stamp, &many), "sat_20260218_1015_a1_b2_and_3_more.png");
    assert_eq!(sat_image_filename(&stamp, &Vec::new()), "sat_20260218_1015_empty.png");
    assert_eq!(feed_image_filename("lotw", 1771409700).unwrap(), "lotw_20260218_1015.png");
    assert_eq!(normalize_sat_name("FO-118[H/u]"), "fo118hu");
}

#[test]
fn lotw_rows() {
    let rows = vec![LotwQueueRow {
        epoch: "2026-02-18 04:00".to_string(),
        logs: 12,
        qsos: 12345,
        bytes: 999,
        currently_processing: "2026-02-18 04:58:03".to_string(),
        latency_text: "0d 00h 20m 00s ago".to_string(),
        latency_bad: true,
    }];
    let svg = build_lotw_rows_svg(&rows);
    assert!(svg.starts_with("<rect x=\"0\" y=\"86\" width=\"820\" height=\"38\" fill=\"#ffffff\"/>"));
    assert!(svg.contains("<line x1=\"0\" y1=\"124\" x2=\"820\" y2=\"124\""));
    assert!(svg.contains("<text x=\"20\" y=\"105.0\" class=\"cell-text time-text\">2026-02-18 04:00</text>"));
    assert!(svg.contains("fill=\"#ffe3e3\" rx=\"2\"/>\n<text x=\"300\" y=\"105.0\" class=\"cell-text\" font-weight=\"bold\">12,345</text>"));
    assert!(svg.contains("class=\"cell-text latency-bad\" font-size=\"11\">0d 00h 20m 00s ago \u{25cf}</text>"));
    assert!(svg.contains("<text x=\"590\" y=\"97.0\""));
}

#[test]
fn qo100_rows_capped_at_fifty() {
    let spot = Qo100Spot {
        datetime: "14:21".to_string(),
        dx: "PY5ZUE/P".to_string(),
        freq: ".740".to_string(),
        comments: "x".repeat(45),
        spotter: "OM0AAO".to_string(),
        source: "DXCluster".to_string(),
    };
    let spots = vec![spot; 60];
    let svg = build_qo100_rows_svg(&spots);
    assert_eq!(svg.matches("<rect").count(), 50);
    assert!(svg.contains(&format!(">{}...</text>", "x".repeat(37))));
    assert!(svg.contains("<text x=\"180\" y=\"102.0\" class=\"dx-text\">PY5ZUE/P</text>"));
    assert!(svg.contains("fill=\"#f8f9fa\""));
}

#[test]
fn same_quarter_hour_same_image() {
    let r = SatelliteRenderer::new("data/image_cache");
    assert_eq!(r.output_dir, "data/image_cache");
    let names = vec!["ISS-FM".to_string(), "ISS-SSTV".to_string()];
    let a = r.generate_amsat_filename(1771409700, &names).unwrap();
    let b = r.generate_amsat_filename(1771410599, &names).unwrap();
    assert_eq!(a, b);
    assert_eq!(a, "sat_20260218_1015_issfm_isssstv.png");
    let c = r.generate_amsat_filename(1771410600, &names).unwrap();
    assert_eq!(c, "sat_20260218_1030_issfm_isssstv.png");
    assert_eq!(LotwRenderer::new("x").latest_filename(), "lotw_latest.png");
    assert_eq!(Qo100Renderer::new("x").output_filename(1771409700).unwrap(), "qo100_20260218_1015.png");
}
