use x5ch_rs::models::Post;
use x5ch_rs::nextthread::{extract_title, find_next_thread_candidates, follow_up_dat_file, follow_up_title};

fn post(num: u32, message: &str) -> Post {
    Post {
        num,
        name: "名無し".to_string(),
        date: String::new(),
        message: message.to_string(),
    }
}

#[test]
fn extract_title_leaves_non_hyphen_suffix_untouched() {
    let html = "<html><head><title>移植スレ part2 - なんでも実況J@5ch.net</title></head></html>";
    assert_eq!(extract_title(html), "移植スレ part2 - なんでも実況J@5ch.net");
}

#[test]
fn extract_title_strips_5ch_suffix_hyphen_form() {
    let html = "<title>移植スレ part2 - 5ch.net</title>";
    assert_eq!(extract_title(html), "移植スレ part2");
}

#[test]
fn find_next_thread_candidates_detects_from_late_posts_only() {
    let posts = vec![
        post(899, "https://egg.5ch.net/test/read.cgi/livejupiter/1700000999/ 見えないはず"),
        post(900, "次スレ https://egg.5ch.net/test/read.cgi/livejupiter/1700001000/"),
        post(901, "https://egg.5ch.net/test/read.cgi/livejupiter/1700001000/ また同じ"),
    ];

    let candidates =
        find_next_thread_candidates("https://egg.5ch.net/livejupiter/", "1699999999.dat", &posts);

    assert_eq!(candidates, vec!["1700001000".to_string()]);
}

#[test]
fn find_next_thread_candidates_skips_current_and_other_boards() {
    let posts = vec![
        post(950, "https://egg.5ch.net/test/read.cgi/livejupiter/1699999999/"),
        post(951, "https://egg.5ch.net/test/read.cgi/news/1700000500/"),
        post(952, "https://egg.5ch.io/test/read.cgi/livejupiter/1700000800/ 別ホスト"),
        post(953, "http://egg.5ch.net/test/read.cgi/livejupiter/1700000600 と 1700000700"),
    ];
    let candidates =
        find_next_thread_candidates("https://egg.5ch.net/livejupiter/", "1699999999.dat", &posts);
    assert_eq!(candidates, vec!["1700000600".to_string()]);
}

#[test]
fn extract_title_without_title_tag_is_empty() {
    assert_eq!(extract_title("<html><body>no title</body></html>"), "");
    assert_eq!(extract_title("<TITLE>  スレ | 5ch.io </TITLE>"), "スレ");
}

#[test]
fn follow_up_names_and_titles() {
    assert_eq!(follow_up_dat_file("1700001000"), "1700001000.dat");
    assert_eq!(follow_up_title("次スレ".to_string()), Some("次スレ".to_string()));
    assert_eq!(follow_up_title(String::new()), None);
}
