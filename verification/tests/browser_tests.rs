use x5ch_rs::browser::{build_read_url, cache_is_fresh, fresh_or_stale, posts_from_page, thread_title_url};

#[test]
fn build_read_url_assembles_read_cgi_path() {
    let url = build_read_url("https://egg.5ch.io/livejupiter/", "1700000000.dat").unwrap();
    assert_eq!(url, "https://egg.5ch.io/test/read.cgi/livejupiter/1700000000/");
}

#[test]
fn build_read_url_rejects_non_numeric_dat_file() {
    let err = build_read_url("https://egg.5ch.io/livejupiter/", "abc.dat").unwrap_err();
    assert!(err.message.contains("不正なdat_file"));
}

#[test]
fn build_read_url_rejects_board_url_without_board_name() {
    let err = build_read_url("https://egg.5ch.io/", "1700000000.dat").unwrap_err();
    assert!(err.message.contains("板名を特定できません"));
}

#[test]
fn thread_title_url_uses_the_board_origin() {
    assert_eq!(
        thread_title_url("https://egg.5ch.io/livejupiter/", "1700000000"),
        Some("https://egg.5ch.io/test/read.cgi/livejupiter/1700000000/".to_string())
    );
}

#[test]
fn thread_cache_is_fresh_only_within_expiry_and_without_reload() {
    assert!(cache_is_fresh(false, Some(5), 10));
    assert!(!cache_is_fresh(false, Some(10), 10));
    assert!(!cache_is_fresh(true, Some(5), 10));
    assert!(!cache_is_fresh(false, None, 10));
}

#[test]
fn failed_fetch_falls_back_on_stale_list() {
    assert_eq!(fresh_or_stale::<u32, &str>(Ok(1), Some(2)), Ok(1));
    assert_eq!(fresh_or_stale::<u32, &str>(Err("e"), Some(2)), Ok(2));
    assert_eq!(fresh_or_stale::<u32, &str>(Err("e"), None), Err("e"));
}

#[test]
fn posts_from_page_reports_a_fallen_thread() {
    let err = posts_from_page("<html>このスレッドはdat落ちしています</html>").unwrap_err();
    assert_eq!(err.message, "スレッドはdat落ちしています");
    assert!(err.url.is_none());
    assert!(posts_from_page("<html></html>").unwrap().is_empty());
}
