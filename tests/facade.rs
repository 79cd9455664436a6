use rinko::common::ContentType;
use rinko::facade::{feed_reply, image_reply, query_precheck, query_result_reply, route_command, unknown_command_reply, Feed, Route};

#[test]
fn routes() {
    assert_eq!(route_command("q", "ISS"), Route::Query("ISS".to_string()));
    assert_eq!(route_command("query", ""), Route::Query(String::new()));
    assert_eq!(route_command("dxw", ""), Route::DxWorld);
    assert_eq!(route_command("lotw", "x"), Route::Lotw);
    assert_eq!(route_command("qo-100", ""), Route::Qo100);
    assert_eq!(route_command("qo100", ""), Route::Qo100);
    assert_eq!(route_command("Q", ""), Route::Unknown("Q".to_string()));
}

#[test]
fn image_paths_use_forward_slashes() {
    let r = image_reply("C:\\data\\image_cache\\sat.png");
    assert!(r.success);
    assert_eq!(r.content_type, ContentType::Image);
    assert_eq!(r.message, "file:///C:/data/image_cache/sat.png");
}

#[test]
fn media_down_gives_text_failure() {
    let r = query_precheck(false, "ISS").unwrap_err();
    assert!(!r.success);
    assert_eq!(r.content_type, ContentType::Text);
    assert_eq!(r.message, "Media server down, please contact rinko@rinkosoft.me");
    let f = feed_reply(Feed::Lotw, "data/image_cache/lotw_latest.png", true, false);
    assert!(!f.success);
    assert_eq!(f.content_type, ContentType::Text);
    assert_eq!(f.message, "LoTW image not found or media server down.");
}

#[test]
fn query_flow_replies() {
    assert_eq!(query_precheck(true, "  ISS ").unwrap(), "ISS");
    let blank = query_precheck(true, "   ").unwrap_err();
    assert_eq!(blank.message, "Please provide a satellite name to query. Example: /q ISS");
    let none = query_result_reply(0, None);
    assert!(!none.success);
    assert_eq!(none.message, "^ ^)/");
    let ok = query_result_reply(2, Some("/tmp/sat.png"));
    assert!(ok.success);
    assert_eq!(ok.message, "file:////tmp/sat.png");
    let failed = query_result_reply(2, None);
    assert!(failed.success);
    assert_eq!(failed.content_type, ContentType::Text);
    let feed = feed_reply(Feed::Qo100, "data/qo100_latest.png", true, true);
    assert_eq!(feed.message, "file:///data/qo100_latest.png");
    assert_eq!(unknown_command_reply("sat").message, "Unknown command: /sat");
}
