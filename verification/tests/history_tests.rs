use x5ch_rs::history::{generate_key, normalize_url, HistoryData, NullHistory};
use x5ch_rs::models::Board;
use x5ch_rs::threads::HistoryStore;

#[test]
fn normalize_url_strips_scheme_www_slash_and_upgrades_domain() {
    assert_eq!(normalize_url("https://www.egg.5ch.net/livejupiter/"), "egg.5ch.io/livejupiter");
}

#[test]
fn normalize_url_other_forms() {
    assert_eq!(normalize_url("http://egg.2ch.net/news"), "egg.5ch.io/news");
    assert_eq!(normalize_url("egg.5ch.io/x//"), "egg.5ch.io/x/");
    assert_eq!(normalize_url(""), "");
    assert_eq!(generate_key("https://egg.5ch.net/livejupiter/", "123.dat"), "egg.5ch.io/livejupiter::123.dat");
}

#[test]
fn add_and_read_back_persists_across_new_manager() {
    let mut data = HistoryData::new();
    assert!(data.add_new_thread_at("テストスレ", "https://egg.5ch.net/livejupiter/", "123.dat", 1_700_000_000));
    let saved = data.snapshot();
    let data2 = HistoryData::from_pairs(saved);
    assert!(data2.thread_exists("https://egg.5ch.io/livejupiter/", "123.dat"));
    assert_eq!(data2.get_last_read("https://egg.5ch.io/livejupiter/", "123.dat"), 0);
}

#[test]
fn update_history_keeps_max_res() {
    let mut data = HistoryData::new();
    data.update_history_at("", "", "999.dat", 10, None, 1_700_000_000);
    data.update_history_at("", "", "999.dat", 5, None, 1_700_000_001);
    assert_eq!(data.get_last_read("", "999.dat"), 10);
}

#[test]
fn add_new_thread_does_not_overwrite_and_delete_removes() {
    let mut data = HistoryData::new();
    data.update_history_at("t", "https://egg.5ch.io/a/", "1.dat", 42, Some("d1".to_string()), 100);
    assert!(!data.add_new_thread_at("other", "http://egg.5ch.net/a", "1.dat", 200));
    assert_eq!(data.get_last_read("https://egg.5ch.io/a/", "1.dat"), 42);
    data.update_history_at("t", "https://egg.5ch.io/a/", "1.dat", 43, None, 300);
    assert_eq!(data.get_discord_thread_id("https://egg.5ch.io/a/", "1.dat"), Some("d1".to_string()));
    assert!(data.delete_thread("https://egg.5ch.io/a/", "1.dat"));
    assert!(!data.delete_thread("https://egg.5ch.io/a/", "1.dat"));
    assert!(!data.thread_exists("https://egg.5ch.io/a/", "1.dat"));
    assert_eq!(data.get_discord_thread_id("https://egg.5ch.io/a/", "1.dat"), None);
}

#[test]
fn recent_threads_are_newest_first() {
    let mut data = HistoryData::new();
    assert!(data.add_new_thread_at("old", "https://egg.5ch.io/a/", "1.dat", 100));
    assert!(data.add_new_thread_at("new", "https://egg.5ch.io/a/", "2.dat", 300));
    assert!(data.add_new_thread_at("mid", "https://egg.5ch.io/b/", "3.dat", 200));
    let recent = data.recent_threads();
    let titles: Vec<&str> = recent.iter().map(|(_, e)| e.title.as_str()).collect();
    assert_eq!(titles, vec!["new", "mid", "old"]);
    assert_eq!(recent[0].0, "egg.5ch.io/a::2.dat");
    assert_eq!(data.snapshot().len(), 3);
}

#[test]
fn history_in_board_and_category_compare_normalised() {
    let mut data = HistoryData::new();
    assert!(!data.has_history_in_board("https://egg.5ch.io/a/"));
    data.add_new_thread_at("t", "http://www.egg.5ch.net/a/", "1.dat", 1);
    assert!(data.has_history_in_board("https://egg.5ch.io/a"));
    assert!(!data.has_history_in_board("https://egg.5ch.io/b/"));
    let boards = vec![
        Board { title: "b".to_string(), url: "https://egg.5ch.io/b/".to_string() },
        Board { title: "a".to_string(), url: "https://egg.5ch.net/a/".to_string() },
    ];
    assert!(data.has_history_in_category(&boards));
    assert!(!data.has_history_in_category(&boards[..1]));
}

#[test]
fn null_history_keeps_nothing() {
    let h = NullHistory;
    h.add_new_thread("t", "https://egg.5ch.io/a/", "1.dat");
    assert!(!h.thread_exists("https://egg.5ch.io/a/", "1.dat"));
    assert_eq!(h.get_last_read("https://egg.5ch.io/a/", "1.dat"), 0);
}
