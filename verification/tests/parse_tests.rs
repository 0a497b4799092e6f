use x5ch_rs::browser::try_export_from_page;
use x5ch_rs::errors::{BrowserError, FetchError, MenuError, SearchError, ThreadsError, X5chError};
use x5ch_rs::menu::decode_to_utf8;
use x5ch_rs::parse::{inner_html, parse_posts, restore_h_prefix};

const PAGE: &str = r##"
    <div class="clear post">
      <span class="postid">1</span>
      <span class="postusername"><b>名無しさん</b></span>
      <span class="date">2026/09/14(月) 10:00:00.12</span>
      <span class="uid">ID:abc123</span>
      <div class="post-content">初めて<br>ttp://example.com/ を貼る</div>
    </div>
    <div class="other">ignored</div>
    <div class="clear post">
      <span class="postid">2</span>
      <span class="postusername"> </span>
      <span class="date">2026/09/14(月) 10:05:00</span>
      <span class="uid">ID:xyz789</span>
      <div class="post-content">&gt;&gt;1 &nbsp;乙</div>
    </div>
    <div class="clear post"><span class="postid">x</span></div>
"##;

#[test]
fn restore_h_prefix_restores_anti_links_only() {
    assert_eq!(restore_h_prefix("ttp://a ttps://b http://c"), "http://a https://b http://c");
    assert_eq!(restore_h_prefix("no links"), "no links");
}

#[test]
fn inner_html_cuts_between_the_outer_tags() {
    assert_eq!(inner_html(Some("<span class=\"x\"><b>A</b></span>")), "<b>A</b>");
    assert_eq!(inner_html(Some("<br>")), "");
    assert_eq!(inner_html(None), "");
}

#[test]
fn parse_posts_reads_the_post_divs() {
    let posts = parse_posts(PAGE);
    assert_eq!(posts.len(), 2);
    assert_eq!(posts[0].num, 1);
    assert_eq!(posts[0].name, "名無しさん");
    assert_eq!(posts[0].date, "2026/09/14(月) 10:00:00.12 ID:abc123");
    assert_eq!(posts[0].message, "初めて\nhttp://example.com/ を貼る");
    assert_eq!(posts[1].name, "名無し");
    assert_eq!(posts[1].message, ">>1 \u{a0}乙");
}

#[test]
fn export_from_page_keeps_posts_after_since_and_counts_all() {
    let r = try_export_from_page(
        "https://egg.5ch.io/livejupiter/",
        "1700000000.dat",
        1,
        PAGE,
        "https://egg.5ch.io/test/read.cgi/livejupiter/1700000000/",
        "2026-09-14T12:00:00Z",
    )
    .unwrap()
    .unwrap();
    assert_eq!(r.thread.post_count, 2);
    assert_eq!(r.posts.len(), 1);
    assert_eq!(r.posts[0].num, 2);
    assert_eq!(r.thread.external_id, "5ch:egg.5ch.io/livejupiter/1700000000");
    assert_eq!(r.posts[0].external_id, "5ch:egg.5ch.io/livejupiter/1700000000#2");
    assert_eq!(r.source.provider, "5ch");
    assert_eq!(r.thread.created_at.as_deref(), Some("2023-11-14T22:13:20Z"));
    assert_eq!(r.thread.board_name, None);
    assert_eq!(r.thread.title, "");
}

#[test]
fn export_from_page_reports_errors() {
    let gone = try_export_from_page("https://egg.5ch.io/a/", "1.dat", 0, "dat落ち", "", "").unwrap().unwrap_err();
    assert_eq!(gone.message, "スレッドはdat落ちしています");
    let bad = try_export_from_page("not a url", "1.dat", 0, "", "", "").unwrap().unwrap_err();
    assert_eq!(bad.message, "board_urlの解析に失敗: not a url");
    assert_eq!(bad.url.as_deref(), Some("not a url"));
}

#[test]
fn decode_to_utf8_reads_shift_jis_and_falls_back() {
    assert_eq!(decode_to_utf8(&[0x82, 0xa0, 0x41]), "あA");
    assert_eq!(decode_to_utf8("あ".as_bytes()), "あ");
    assert_eq!(decode_to_utf8(&[0x61, 0x82]), "a\u{fffd}");
}

#[test]
fn error_messages() {
    assert_eq!(FetchError::TooManyRedirects(5).to_string(), "リダイレクト回数が上限(5)に達しました");
    assert_eq!(FetchError::Timeout("t".to_string()).to_string(), "通信タイムアウト: t");
    assert_eq!(FetchError::Network("n".to_string()).to_string(), "通信エラー: n");
    assert_eq!(FetchError::HttpStatus(404).to_string(), "HTTP Error: 404");
    assert_eq!(MenuError("m".to_string()).to_string(), "板メニュー取得エラー: m");
    assert_eq!(ThreadsError("t".to_string()).to_string(), "スレ一覧取得エラー: t");
    assert_eq!(SearchError("s".to_string()).to_string(), "全板検索エラー: s");
    let b = BrowserError::new("b", Some("u".to_string()));
    assert_eq!(b.to_string(), "b");
    assert_eq!(BrowserError::thread_gone().to_string(), "スレッドはdat落ちしています");
    let e: X5chError = FetchError::HttpStatus(500).into();
    assert_eq!(e.to_string(), "HTTP Error: 500");
    let e: X5chError = SearchError("x".to_string()).into();
    assert_eq!(e.to_string(), "全板検索エラー: x");
}

#[test]
fn restore_h_prefix_twice_is_once() {
    let t = "ttps://a hhttp://b xttp://c";
    let r = restore_h_prefix(t);
    assert_eq!(r, "https://a hhttp://b xhttp://c");
    assert_eq!(restore_h_prefix(&r), r);
    assert_eq!(r.chars().count(), t.chars().count() + 2);
}
