use x5ch_rs::errors::MenuError;
use x5ch_rs::menu::{
    categories_from_menu_json, menu_after_fallback, menu_json_text, normalize_menu_url, parse_menu_html, usable_menu,
    MenuBoardJson, MenuCategoryJson, MenuJson,
};
use x5ch_rs::models::Category;

#[test]
fn normalize_menu_url_upgrades_and_appends_slash() {
    assert_eq!(
        normalize_menu_url("http://egg.5ch.net/livejupiter"),
        "https://egg.5ch.io/livejupiter/"
    );
}

#[test]
fn parse_menu_html_groups_boards_under_category() {
    let sample = r#"
            <B>ニュース</B>
            <A HREF="http://egg.5ch.net/livejupiter/">なんJ</A>
            <A HREF="http://example.com/">対象外ドメイン</A>
        "#;

    let categories = parse_menu_html(sample);
    assert_eq!(categories.len(), 1);
    assert_eq!(categories[0].title, "ニュース");
    assert_eq!(categories[0].boards.len(), 1);
    assert_eq!(categories[0].boards[0].title, "なんJ");
}

#[test]
fn parse_menu_json_extracts_categories_and_skips_empty_ones() {
    let data = MenuJson {
        menu_list: Some(vec![
            MenuCategoryJson {
                category_name: Some("ニュース".to_string()),
                category_content: Some(vec![MenuBoardJson {
                    board_name: Some("なんJ".to_string()),
                    url: Some("http://egg.5ch.net/livejupiter/".to_string()),
                }]),
            },
            MenuCategoryJson { category_name: Some("空カテゴリ".to_string()), category_content: Some(vec![]) },
        ]),
    };
    let categories = categories_from_menu_json(&data);
    assert_eq!(categories.len(), 1);
    assert_eq!(categories[0].title, "ニュース");
    assert_eq!(categories[0].boards[0].title, "なんJ");
    assert_eq!(categories[0].boards[0].url, "https://egg.5ch.io/livejupiter/");
}

#[test]
fn menu_json_boards_without_url_are_skipped_and_names_default_to_empty() {
    let data = MenuJson {
        menu_list: Some(vec![MenuCategoryJson {
            category_name: None,
            category_content: Some(vec![
                MenuBoardJson { board_name: Some("x".to_string()), url: None },
                MenuBoardJson { board_name: None, url: Some("https://a.5ch.io/b".to_string()) },
            ]),
        }]),
    };
    let categories = categories_from_menu_json(&data);
    assert_eq!(categories.len(), 1);
    assert_eq!(categories[0].title, "");
    assert_eq!(categories[0].boards.len(), 1);
    assert_eq!(categories[0].boards[0].title, "");
    assert_eq!(categories[0].boards[0].url, "https://a.5ch.io/b/");
    assert!(categories_from_menu_json(&MenuJson { menu_list: None }).is_empty());
}

#[test]
fn parse_menu_html_closes_categories_and_skips_empty_ones() {
    let sample = r#"<b>空</b><B>板</B><a href='https://x.bbspink.com/y/' target=_blank>ピンク</a><A HREF=http://b.2ch.net/c>C</A><B>最後</B>"#;
    let categories = parse_menu_html(sample);
    assert_eq!(categories.len(), 1);
    assert_eq!(categories[0].title, "板");
    assert_eq!(categories[0].boards.len(), 2);
    assert_eq!(categories[0].boards[0].url, "https://x.bbspink.com/y/");
    assert_eq!(categories[0].boards[1].url, "https://b.5ch.io/c/");
}

#[test]
fn menu_json_text_prefers_utf8_then_shift_jis() {
    assert_eq!(menu_json_text("なんJ".as_bytes()), "なんJ");
    assert_eq!(menu_json_text(&[0x82, 0xa0]), "あ");
}

#[test]
fn menu_fallback_rules() {
    let one = || Ok(vec![Category::new("c")]);
    assert_eq!(usable_menu(one()).map(|c| c.len()), Some(1));
    assert!(usable_menu(Ok(vec![])).is_none());
    assert!(usable_menu(Err(MenuError("x".to_string()))).is_none());
    assert_eq!(menu_after_fallback(one()).unwrap()[0].title, "c");
    let err = menu_after_fallback(Ok(vec![])).unwrap_err();
    assert_eq!(err.0, "メニューの取得に失敗しました(JSON/HTML両方とも失敗)");
    assert_eq!(err.to_string(), "板メニュー取得エラー: メニューの取得に失敗しました(JSON/HTML両方とも失敗)");
}

#[test]
fn normalize_menu_url_twice_is_once() {
    for u in ["http://egg.2ch.net/a", "https://x.5ch.net/y/", "http:", "5ch.n5ch.netet"] {
        let r = normalize_menu_url(u);
        assert_eq!(normalize_menu_url(&r), r);
        assert!(r.ends_with('/') && !r.contains("5ch.net") && !r.contains("2ch.net") && !r.starts_with("http:"));
    }
}
