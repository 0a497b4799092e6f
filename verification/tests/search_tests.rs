use x5ch_rs::search::{parse_search_results, quote_plus, to_valid_utf8};

#[test]
fn quote_plus_encodes_spaces_as_plus() {
    assert_eq!(quote_plus("Rust 移植"), "Rust+%E7%A7%BB%E6%A4%8D");
}

#[test]
fn parse_search_results_extracts_title_and_count() {
    let sample = r#"<a href="https://egg.5ch.net/test/read.cgi/livejupiter/1700000000/">なんJ移植スレ(123)</a>"#;
    let hits = parse_search_results(sample);
    assert_eq!(hits.len(), 1);
    assert_eq!(hits[0].title, "なんJ移植スレ");
    assert_eq!(hits[0].count, 123);
    assert_eq!(hits[0].dat_file, "1700000000.dat");
    assert_eq!(hits[0].board_url, "https://egg.5ch.io/livejupiter/");
}

#[test]
fn quote_plus_keeps_unreserved_and_escapes_the_rest() {
    assert_eq!(quote_plus("a-b_c.d*e"), "a-b_c.d*e");
    assert_eq!(quote_plus("a/b?c=d&e"), "a%2Fb%3Fc%3Dd%26e");
    assert_eq!(quote_plus(""), "");
}

#[test]
fn to_valid_utf8_replaces_invalid_bytes() {
    assert_eq!(to_valid_utf8(b"abc"), "abc");
    assert_eq!(to_valid_utf8(&[0x61, 0xff, 0x62]), "a\u{fffd}b");
}

#[test]
fn parse_search_results_handles_several_links_and_missing_count() {
    let mut sample = String::new();
    sample.push_str(r#"<li><A class="t" HREF="http://hayabusa9.5ch.io/test/read.cgi/news/1600000001">速報 <b>スレ</b></A></li>"#);
    sample.push_str("\n");
    sample.push_str(r#"<a href="https://example.com/test/read.cgi/x/1/">他所</a>"#);
    sample.push_str(r#"<a target="_blank" href="https://mi.5ch.net/test/read.cgi/news4vip/1700000002/">VIP( 7 )(42)</a>"#);
    let hits = parse_search_results(&sample);
    assert_eq!(hits.len(), 2);
    assert_eq!(hits[0].title, "速報 スレ");
    assert_eq!(hits[0].count, 0);
    assert_eq!(hits[0].dat_file, "1600000001.dat");
    assert_eq!(hits[0].board_url, "https://hayabusa9.5ch.io/news/");
    assert_eq!(hits[0].url, "https://hayabusa9.5ch.io/test/read.cgi/news/1600000001/");
    assert_eq!(hits[1].title, "VIP( 7 )");
    assert_eq!(hits[1].count, 42);
    assert_eq!(hits[1].url, "https://mi.5ch.io/test/read.cgi/news4vip/1700000002/");
}

#[test]
fn parse_search_results_ignores_links_without_closing_tag_on_the_line() {
    let sample = "<a href=\"https://egg.5ch.net/test/read.cgi/livejupiter/1/\">x\n</a>";
    assert!(parse_search_results(sample).is_empty());
    assert!(parse_search_results("").is_empty());
}

#[test]
fn parse_search_results_count_overflow_gives_zero() {
    let sample = r#"<a href="https://egg.5ch.net/test/read.cgi/livejupiter/1/">t(99999999999)</a>"#;
    let hits = parse_search_results(sample);
    assert_eq!(hits.len(), 1);
    assert_eq!(hits[0].title, "t");
    assert_eq!(hits[0].count, 0);
}
