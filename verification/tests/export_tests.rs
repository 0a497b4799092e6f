use x5ch_rs::export::{dat_timestamp_to_rfc3339, decode_cf_email, extract_board_name, extract_plain_text, parse_posted_at};

#[test]
fn decode_cf_email_xor_decodes_hex() {
    let key: u8 = 0x10;
    let plain = b"a@b.com";
    let mut hex = format!("{key:02x}");
    for b in plain {
        hex.push_str(&format!("{:02x}", b ^ key));
    }
    assert_eq!(decode_cf_email(&hex).as_deref(), Some("a@b.com"));
}

#[test]
fn parse_posted_at_converts_to_jst_rfc3339() {
    let result = parse_posted_at("2025/12/16(火) 05:05:09.95").unwrap();
    assert_eq!(result, "2025-12-16T05:05:09.95+09:00");
}

#[test]
fn dat_timestamp_to_rfc3339_converts_unix_time() {
    assert_eq!(dat_timestamp_to_rfc3339("1700000000.dat"), "2023-11-14T22:13:20Z");
}

#[test]
fn extract_board_name_reads_breadcrumb_position_2() {
    let html = r#"<script type="application/ld+json">
        [{"@type":"BreadcrumbList","itemListElement":[
            {"position":1,"name":"5ch.net"},
            {"position":2,"name":"なんでも実況J"}
        ]}]
        </script>"#;
    assert_eq!(extract_board_name(html), "なんでも実況J");
}

#[test]
fn extract_plain_text_strips_tags_and_decodes() {
    assert_eq!(extract_plain_text(" a<br>b <b>c</b>&amp;d "), "a\nb  c &d");
}

#[test]
fn decode_cf_email_keeps_non_ascii_utf8() {
    let key: u8 = 0x5a;
    let mut hex = format!("{key:02x}");
    for b in "日本".as_bytes() {
        hex.push_str(&format!("{:02x}", b ^ key));
    }
    assert_eq!(decode_cf_email(&hex).as_deref(), Some("日本"));
    assert_eq!(decode_cf_email("5a"), Some(String::new()));
    assert_eq!(decode_cf_email("5"), None);
    assert_eq!(decode_cf_email("zz00"), None);
}
