use rinko::config::{expired_images, get_images_dir, join_path, BackendConfig, ScheduledTaskConfig};

#[test]
fn addresses_and_paths() {
    let c = BackendConfig::defaults();
    assert_eq!(c.server_address(), "127.0.0.1:50051");
    assert_eq!(c.media_health_url(), None);
    let m = BackendConfig { media_server_url: Some("media.example.org".to_string()), ..c };
    assert_eq!(m.media_health_url(), Some("https://media.example.org/health".to_string()));
    assert_eq!(get_images_dir("data"), "data/image_cache");
    assert_eq!(get_images_dir("data/"), "data/image_cache");
    assert_eq!(join_path("", "a.png"), "a.png");
    let s = ScheduledTaskConfig::defaults();
    assert_eq!(s.image_retention_days, 7);
}

#[test]
fn old_png_files_expire() {
    let now = 1771409700;
    let files = vec![
        ("sat_a.png".to_string(), now - 2 * 86400),
        ("sat_b.png".to_string(), now - 3600),
        ("notes.txt".to_string(), now - 9 * 86400),
        ("lotw_c.png".to_string(), now - 86400 - 1),
    ];
    assert_eq!(expired_images(&files, now, 1), vec![0, 3]);
    assert_eq!(expired_images(&files, now, 7), Vec::<usize>::new());
}
