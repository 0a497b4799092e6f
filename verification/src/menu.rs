//! The board menu: its HTML and JSON forms, and the normalisation of board URLs.
use vstd::prelude::*;

use crate::errors::MenuError;
use crate::foreign::{decode_shift_jis, shift_jis_decoding, string_from_chars, utf8_lossy, utf8_lossy_string, utf8_string};
use crate::models::{Board, BoardView, Category, CategoryView};
use crate::text::{
    lemma_replace_absent, lemma_replace_leaves_none, overlap_mismatch,
    append_chars, chars_of, ci_lit_at, contains_chars, contains_lit, ends_with_char, find_char,
    find_char_from, lit_at, match_ci_lit, match_lit, replace_all, replace_chars,
    slice_chars, trim, trim_chars,
};

verus! {

/// `bbsmenu.json`'s URL.
pub const MENU_URL_JSON: &'static str = "https://menu.5ch.io/bbsmenu.json";

/// `bbsmenu.html`'s URL.
pub const MENU_URL_HTML: &'static str = "https://menu.5ch.io/bbsmenu.html";

/// Text of a page sent in CP932 (Shift_JIS): its Shift_JIS decoding when that
/// met no malformed sequence, else its lossy UTF-8 decoding.
pub open spec fn decoded_page(data: Seq<u8>) -> Seq<char> {
    let (text, had_errors) = shift_jis_decoding(data);
    if !had_errors { text } else { utf8_lossy(data) }
}

/// Decodes a CP932 (Shift_JIS) page, falling back to lossy UTF-8 when the
/// Shift_JIS decoder met malformed input.
pub fn decode_to_utf8(data: &[u8]) -> (res: String)
    ensures
        res@ == decoded_page(data@),
{
    let (text, had_errors) = decode_shift_jis(data);
    if !had_errors {
        return text;
    }
    utf8_lossy_string(data)
}

/// A board URL as the library stores it: `2ch.net` and `5ch.net` become
/// `5ch.io`, an `http:` scheme becomes `https:`, and the URL ends with `/`.
pub open spec fn normalized_menu_url(url: Seq<char>) -> Seq<char> {
    let a = replace_all(replace_all(url, "2ch.net"@, "5ch.io"@), "5ch.net"@, "5ch.io"@);
    let b = if lit_at(a, 0, "http:"@) { "https:"@ + a.skip(5) } else { a };
    if ends_with_char(b, '/') { b } else { b.push('/') }
}

fn normalize_menu_url_chars(url: &Vec<char>) -> (res: Vec<char>)
    ensures
        res@ == normalized_menu_url(url@),
{
    let p2 = chars_of("2ch.net");
    let p5 = chars_of("5ch.net");
    let io = chars_of("5ch.io");
    let http = chars_of("http:");
    proof {
        reveal_strlit("2ch.net");
        reveal_strlit("5ch.net");
        reveal_strlit("http:");
    }
    let a = replace_chars(url, &p2, &io);
    let a = replace_chars(&a, &p5, &io);
    let mut b: Vec<char>;
    if match_lit(&a, 0, &http) {
        b = chars_of("https:");
        let rest = slice_chars(&a, 5, a.len());
        append_chars(&mut b, &rest);
    } else {
        b = a;
    }
    if !(b.len() > 0 && b[b.len() - 1] == '/') {
        b.push('/');
    }
    b
}

/// `2ch.net`/`5ch.net` to `5ch.io`, `http:` to `https:`, and a trailing `/`.
pub fn normalize_menu_url(url: &str) -> (res: String)
    ensures
        res@ == normalized_menu_url(url@),
{
    let v = chars_of(url);
    let r = normalize_menu_url_chars(&v);
    string_from_chars(r.as_slice())
}


/// One match of the menu page's pattern: a category heading `<B>..</B>`, or a
/// link `<A HREF=..>..</A>` with its target and its text (case-insensitive).
pub enum MenuItem {
    Heading(Seq<char>),
    Link(Seq<char>, Seq<char>),
}

/// Where a heading `<b>TEXT</b>` starting at `p` ends its text (`TEXT` is one
/// or more characters other than `<`).
pub open spec fn menu_heading_at(s: Seq<char>, p: int) -> Option<int> {
    if ci_lit_at(s, p, "<b>"@) {
        let q = find_char(s, '<', p + 3);
        if q > p + 3 && ci_lit_at(s, q, "</b>"@) { Some(q) } else { None }
    } else {
        None
    }
}

pub open spec fn is_quote(c: char) -> bool {
    c == '"' || c == '\''
}

/// A character that may stand in a menu link's target.
pub open spec fn is_href_char(c: char) -> bool {
    !(c == ' ' || c == '>' || c == '"' || c == '\'')
}

/// End of the run of target characters that starts at `i`.
pub open spec fn href_end(s: Seq<char>, i: int) -> int
    decreases s.len() - i,
{
    if i < 0 || i >= s.len() {
        if i < 0 { 0 } else { s.len() as int }
    } else if is_href_char(s[i]) {
        href_end(s, i + 1)
    } else {
        i
    }
}

/// A link `<a href=["']?TARGET["']?[^>]*>TEXT</a>` starting at `p`: the
/// target's bounds `(v, w)`, the `>` before the text at `g`, and the `<` of
/// `</a>` at `q`.
pub open spec fn menu_link_at(s: Seq<char>, p: int) -> Option<(int, int, int, int)> {
    if ci_lit_at(s, p, "<a href="@) {
        let u = p + 8;
        let v = if u < s.len() && is_quote(s[u]) { u + 1 } else { u };
        let w = href_end(s, v);
        let g = find_char(s, '>', w);
        let q = find_char(s, '<', g + 1);
        if w > v && g < s.len() && q > g + 1 && ci_lit_at(s, q, "</a>"@) {
            Some((v, w, g, q))
        } else {
            None
        }
    } else {
        None
    }
}

/// The matches of the menu pattern in `s` from index `p` on, left to right
/// without overlap (at one position a heading is tried before a link).
pub open spec fn menu_items_from(s: Seq<char>, p: int) -> Seq<MenuItem>
    decreases s.len() - p,
{
    if p < 0 || p >= s.len() {
        Seq::empty()
    } else {
        match menu_heading_at(s, p) {
            Some(q) => if p < q + 4 <= s.len() {
                seq![MenuItem::Heading(s.subrange(p + 3, q))] + menu_items_from(s, q + 4)
            } else {
                Seq::empty()
            },
            None => match menu_link_at(s, p) {
                Some((v, w, g, q)) => if p < q + 4 <= s.len() {
                    seq![MenuItem::Link(s.subrange(v, w), s.subrange(g + 1, q))] + menu_items_from(s, q + 4)
                } else {
                    Seq::empty()
                },
                None => menu_items_from(s, p + 1),
            },
        }
    }
}

/// The grouping state while the menu's matches are read.
pub struct MenuState {
    pub categories: Seq<CategoryView>,
    pub current: Seq<char>,
    pub boards: Seq<BoardView>,
    pub has_category: bool,
}

/// A link target on one of the boards' domains.
pub open spec fn is_board_href(h: Seq<char>) -> bool {
    contains_lit(h, "5ch.io"@) || contains_lit(h, "5ch.net"@) || contains_lit(h, "2ch.net"@)
        || contains_lit(h, "bbspink.com"@)
}

pub open spec fn menu_step(st: MenuState, item: MenuItem) -> MenuState {
    match item {
        MenuItem::Heading(t) => {
            let flush = st.has_category && st.boards.len() > 0;
            MenuState {
                categories: if flush {
                    st.categories.push(CategoryView { title: st.current, boards: st.boards })
                } else {
                    st.categories
                },
                current: trim(t),
                boards: if flush { Seq::empty() } else { st.boards },
                has_category: true,
            }
        },
        MenuItem::Link(h, t) => {
            if is_board_href(h) && st.has_category {
                MenuState {
                    boards: st.boards.push(BoardView { title: trim(t), url: normalized_menu_url(h) }),
                    ..st
                }
            } else {
                st
            }
        },
    }
}

pub open spec fn menu_fold(items: Seq<MenuItem>) -> MenuState
    decreases items.len(),
{
    if items.len() == 0 {
        MenuState { categories: Seq::empty(), current: Seq::empty(), boards: Seq::empty(), has_category: false }
    } else {
        menu_step(menu_fold(items.drop_last()), items.last())
    }
}

pub open spec fn menu_finish(st: MenuState) -> Seq<CategoryView> {
    if st.has_category && st.boards.len() > 0 {
        st.categories.push(CategoryView { title: st.current, boards: st.boards })
    } else {
        st.categories
    }
}

/// The categories of a `bbsmenu.html` page: each heading opens a category,
/// each following link to a board's domain adds a board to it (links before
/// the first heading are dropped), and categories without boards are left out.
pub open spec fn menu_html_categories(html: Seq<char>) -> Seq<CategoryView> {
    menu_finish(menu_fold(menu_items_from(html, 0)))
}

fn menu_heading_match(s: &Vec<char>, p: usize) -> (res: Option<usize>)
    requires
        p < s.len(),
    ensures
        match res {
            Some(q) => menu_heading_at(s@, p as int) == Some(q as int) && p + 3 < q && q + 4 <= s.len(),
            None => menu_heading_at(s@, p as int) is None,
        },
{
    let open = chars_of("<b>");
    let close = chars_of("</b>");
    proof {
        reveal_strlit("<b>");
        reveal_strlit("</b>");
    }
    if !match_ci_lit(s, p, &open) {
        return None;
    }
    let q = find_char_from(s, '<', p + 3);
    if q > p + 3 && match_ci_lit(s, q, &close) {
        Some(q)
    } else {
        None
    }
}

fn href_run_end(s: &Vec<char>, i: usize) -> (res: usize)
    requires
        i <= s.len(),
    ensures
        res == href_end(s@, i as int),
        i <= res <= s.len(),
{
    let mut k = i;
    while k < s.len() && !(s[k] == ' ' || s[k] == '>' || s[k] == '"' || s[k] == '\'')
        invariant
            i <= k <= s.len(),
            href_end(s@, i as int) == href_end(s@, k as int),
        decreases s.len() - k,
    {
        k = k + 1;
    }
    k
}

fn menu_link_match(s: &Vec<char>, p: usize) -> (res: Option<(usize, usize, usize, usize)>)
    requires
        p < s.len(),
    ensures
        match res {
            Some((v, w, g, q)) => menu_link_at(s@, p as int) == Some((v as int, w as int, g as int, q as int))
                && p < v < w <= g < q && q + 4 <= s.len(),
            None => menu_link_at(s@, p as int) is None,
        },
{
    let open = chars_of("<a href=");
    let close = chars_of("</a>");
    proof {
        reveal_strlit("<a href=");
        reveal_strlit("</a>");
    }
    if !match_ci_lit(s, p, &open) {
        return None;
    }
    let u = p + 8;
    let v = if u < s.len() && (s[u] == '"' || s[u] == '\'') { u + 1 } else { u };
    let w = href_run_end(s, v);
    let g = find_char_from(s, '>', w);
    if !(w > v && g < s.len()) {
        return None;
    }
    let q = find_char_from(s, '<', g + 1);
    if q > g + 1 && match_ci_lit(s, q, &close) {
        Some((v, w, g, q))
    } else {
        None
    }
}

fn is_board_href_chars(h: &Vec<char>) -> (res: bool)
    ensures
        res == is_board_href(h@),
{
    let d1 = chars_of("5ch.io");
    let d2 = chars_of("5ch.net");
    let d3 = chars_of("2ch.net");
    let d4 = chars_of("bbspink.com");
    contains_chars(h, &d1) || contains_chars(h, &d2) || contains_chars(h, &d3) || contains_chars(h, &d4)
}

pub open spec fn boards_view(bs: Seq<Board>) -> Seq<BoardView> {
    bs.map_values(|b: Board| b@)
}

pub open spec fn categories_view(cs: Seq<Category>) -> Seq<CategoryView> {
    cs.map_values(|c: Category| c@)
}

/// The categories of a `bbsmenu.html` page.
pub fn parse_menu_html(html_content: &str) -> (res: Vec<Category>)
    ensures
        categories_view(res@) == menu_html_categories(html_content@),
        forall|i: int| 0 <= i < res@.len() ==> (#[trigger] res@[i]).boards@.len() > 0,
{
    let s = chars_of(html_content);
    let mut categories: Vec<Category> = Vec::new();
    let mut current: Vec<char> = Vec::new();
    let mut boards: Vec<Board> = Vec::new();
    let mut has_category = false;
    let ghost mut done: Seq<MenuItem> = Seq::empty();
    let mut p: usize = 0;
    assert(categories_view(categories@) =~= Seq::empty());
    assert(boards_view(boards@) =~= Seq::empty());
    while p < s.len()
        invariant
            p <= s.len(),
            s@ == html_content@,
            done + menu_items_from(s@, p as int) == menu_items_from(s@, 0),
            menu_fold(done) == (MenuState {
                categories: categories_view(categories@),
                current: current@,
                boards: boards_view(boards@),
                has_category,
            }),
            forall|i: int| 0 <= i < categories@.len() ==> (#[trigger] categories@[i]).boards@.len() > 0,
        decreases s.len() - p,
    {
        let ghost st = menu_fold(done);
        match menu_heading_match(&s, p) {
            Some(q) => {
                let ghost item = MenuItem::Heading(s@.subrange(p + 3, q as int));
                assert(menu_items_from(s@, p as int) == seq![item] + menu_items_from(s@, q + 4));
                if has_category && boards.len() > 0 {
                    let title = string_from_chars(current.as_slice());
                    let bs = boards;
                    boards = Vec::new();
                    let c = Category { title, boards: bs };
                    categories.push(c);
                    assert(categories_view(categories@) == st.categories.push(c@));
                }
                let t = slice_chars(&s, p + 3, q);
                current = trim_chars(&t);
                has_category = true;
                proof {
                    assert((done + seq![item]).drop_last() == done);
                    assert(done + menu_items_from(s@, p as int) == (done + seq![item]) + menu_items_from(s@, q + 4));
                    done = done + seq![item];
                    assert(boards_view(boards@) =~= menu_fold(done).boards);
                }
                p = q + 4;
            },
            None => {
                match menu_link_match(&s, p) {
                    Some((v, w, g, q)) => {
                        let ghost item = MenuItem::Link(s@.subrange(v as int, w as int), s@.subrange(g + 1, q as int));
                        assert(menu_items_from(s@, p as int) == seq![item] + menu_items_from(s@, q + 4));
                        let h = slice_chars(&s, v, w);
                        if is_board_href_chars(&h) && has_category {
                            let t = slice_chars(&s, g + 1, q);
                            let title = trim_chars(&t);
                            let url = normalize_menu_url_chars(&h);
                            let b = Board { title: string_from_chars(title.as_slice()), url: string_from_chars(url.as_slice()) };
                            boards.push(b);
                            assert(boards_view(boards@) == st.boards.push(b@));
                        }
                        proof {
                            assert((done + seq![item]).drop_last() == done);
                            assert(done + menu_items_from(s@, p as int) == (done + seq![item]) + menu_items_from(s@, q + 4));
                            done = done + seq![item];
                        }
                        p = q + 4;
                    },
                    None => {
                        p = p + 1;
                    },
                }
            },
        }
    }
    assert(done == menu_items_from(s@, 0));
    if has_category && boards.len() > 0 {
        let title = string_from_chars(current.as_slice());
        let c = Category { title, boards };
        categories.push(c);
        assert(categories_view(categories@) == menu_finish(menu_fold(done)));
    }
    categories
}


/// A board entry of `bbsmenu.json`, as its parser reads it.
pub struct MenuBoardJson {
    pub board_name: Option<String>,
    pub url: Option<String>,
}

/// A category entry of `bbsmenu.json`.
pub struct MenuCategoryJson {
    pub category_name: Option<String>,
    pub category_content: Option<Vec<MenuBoardJson>>,
}

/// The document `bbsmenu.json`.
pub struct MenuJson {
    pub menu_list: Option<Vec<MenuCategoryJson>>,
}

pub open spec fn opt_text(o: Option<String>) -> Seq<char> {
    match o {
        Some(s) => s@,
        None => Seq::empty(),
    }
}

/// The boards of a JSON category: every entry with a URL, with its normalised URL.
pub open spec fn json_boards(bs: Seq<MenuBoardJson>) -> Seq<BoardView>
    decreases bs.len(),
{
    if bs.len() == 0 {
        Seq::empty()
    } else {
        let rest = json_boards(bs.drop_last());
        match bs.last().url {
            Some(u) => rest.push(BoardView { title: opt_text(bs.last().board_name), url: normalized_menu_url(u@) }),
            None => rest,
        }
    }
}

pub open spec fn json_category_boards(c: MenuCategoryJson) -> Seq<BoardView> {
    match c.category_content {
        Some(v) => json_boards(v@),
        None => Seq::empty(),
    }
}

/// The categories of `bbsmenu.json` that have at least one board.
pub open spec fn json_categories(cs: Seq<MenuCategoryJson>) -> Seq<CategoryView>
    decreases cs.len(),
{
    if cs.len() == 0 {
        Seq::empty()
    } else {
        let rest = json_categories(cs.drop_last());
        let bs = json_category_boards(cs.last());
        if bs.len() > 0 {
            rest.push(CategoryView { title: opt_text(cs.last().category_name), boards: bs })
        } else {
            rest
        }
    }
}

pub open spec fn menu_json_categories(data: MenuJson) -> Seq<CategoryView> {
    match data.menu_list {
        Some(v) => json_categories(v@),
        None => Seq::empty(),
    }
}

fn opt_string(o: &Option<String>) -> (res: String)
    ensures
        res@ == opt_text(*o),
{
    match o {
        Some(s) => s.clone(),
        None => String::new(),
    }
}

fn boards_from_json(bs: &Vec<MenuBoardJson>) -> (res: Vec<Board>)
    ensures
        boards_view(res@) == json_boards(bs@),
{
    let mut res: Vec<Board> = Vec::new();
    let mut i: usize = 0;
    assert(boards_view(res@) =~= json_boards(bs@.take(0)));
    while i < bs.len()
        invariant
            i <= bs.len(),
            boards_view(res@) == json_boards(bs@.take(i as int)),
        decreases bs.len() - i,
    {
        assert(bs@.take(i + 1).drop_last() == bs@.take(i as int));
        match &bs[i].url {
            Some(u) => {
                let uc = chars_of(u.as_str());
                let nu = normalize_menu_url_chars(&uc);
                let b = Board { title: opt_string(&bs[i].board_name), url: string_from_chars(nu.as_slice()) };
                res.push(b);
                assert(boards_view(res@) == boards_view(res@.drop_last()).push(b@));
            },
            None => {},
        }
        i = i + 1;
    }
    assert(bs@.take(bs.len() as int) == bs@);
    res
}

/// The categories of a parsed `bbsmenu.json`: each category's boards with a
/// URL (normalised), leaving out categories without such boards.
pub fn categories_from_menu_json(data: &MenuJson) -> (res: Vec<Category>)
    ensures
        categories_view(res@) == menu_json_categories(*data),
        forall|i: int| 0 <= i < res@.len() ==> (#[trigger] res@[i]).boards@.len() > 0,
{
    let mut res: Vec<Category> = Vec::new();
    match &data.menu_list {
        None => {
            assert(categories_view(res@) =~= Seq::empty());
        },
        Some(cs) => {
            let mut i: usize = 0;
            assert(categories_view(res@) =~= json_categories(cs@.take(0)));
            while i < cs.len()
                invariant
                    i <= cs.len(),
                    categories_view(res@) == json_categories(cs@.take(i as int)),
                    forall|k: int| 0 <= k < res@.len() ==> (#[trigger] res@[k]).boards@.len() > 0,
                decreases cs.len() - i,
            {
                assert(cs@.take(i + 1).drop_last() == cs@.take(i as int));
                let boards = match &cs[i].category_content {
                    Some(v) => boards_from_json(v),
                    None => {
                        let e: Vec<Board> = Vec::new();
                        assert(boards_view(e@) =~= Seq::empty());
                        e
                    },
                };
                if boards.len() > 0 {
                    let c = Category { title: opt_string(&cs[i].category_name), boards };
                    res.push(c);
                    assert(categories_view(res@) == categories_view(res@.drop_last()).push(c@));
                }
                i = i + 1;
            }
            assert(cs@.take(cs.len() as int) == cs@);
        },
    }
    res
}

/// The text of `bbsmenu.json`: the body as UTF-8 when it is valid UTF-8,
/// else decoded as a CP932 page (see `decoded_page`).
pub fn menu_json_text(body: &[u8]) -> (res: String)
    ensures
        res@ == (if vstd::utf8::valid_utf8(body@) { vstd::utf8::decode_utf8(body@) } else { decoded_page(body@) }),
{
    match utf8_string(body) {
        Some(s) => s,
        None => decode_to_utf8(body),
    }
}

/// A menu read from one source, when it can be used: it was read and lists
/// at least one category.
pub fn usable_menu(read: Result<Vec<Category>, MenuError>) -> (res: Option<Vec<Category>>)
    ensures
        match read {
            Ok(cats) => if cats@.len() > 0 { res == Some(cats) } else { res is None },
            Err(_) => res is None,
        },
{
    match read {
        Ok(cats) => if cats.len() > 0 {
            Some(cats)
        } else {
            None
        },
        Err(_) => None,
    }
}

/// The message when neither `bbsmenu.json` nor `bbsmenu.html` gave a menu.
pub const MENU_UNAVAILABLE_MESSAGE: &'static str = "メニューの取得に失敗しました(JSON/HTML両方とも失敗)";

/// The menu after `bbsmenu.json` gave none that can be used: the one read
/// from `bbsmenu.html` when it can be used, else the error that neither source
/// gave a menu.
pub fn menu_after_fallback(html_read: Result<Vec<Category>, MenuError>) -> (res: Result<Vec<Category>, MenuError>)
    ensures
        match html_read {
            Ok(cats) => if cats@.len() > 0 {
                res == Ok::<Vec<Category>, MenuError>(cats)
            } else {
                res matches Err(e) && e.0@ == MENU_UNAVAILABLE_MESSAGE@
            },
            Err(_) => res matches Err(e) && e.0@ == MENU_UNAVAILABLE_MESSAGE@,
        },
{
    match usable_menu(html_read) {
        Some(cats) => Ok(cats),
        None => Err(MenuError(MENU_UNAVAILABLE_MESSAGE.to_owned())),
    }
}

} // verus!

verus! {

/// Law: a normalised menu URL always ends with `/`, and never starts with `http:`.
pub proof fn lemma_normalized_menu_url_shape(url: Seq<char>)
    ensures
        ends_with_char(normalized_menu_url(url), '/'),
        !lit_at(normalized_menu_url(url), 0, "http:"@),
{
    reveal_strlit("http:");
    reveal_strlit("https:");
    let a = replace_all(replace_all(url, "2ch.net"@, "5ch.io"@), "5ch.net"@, "5ch.io"@);
    let b = if lit_at(a, 0, "http:"@) { "https:"@ + a.skip(5) } else { a };
    let r = normalized_menu_url(url);
    if lit_at(a, 0, "http:"@) {
        assert(b[4] == 's');
        assert(r[4] == b[4]);
        assert("http:"@[4] == ':');
    } else {
        if lit_at(r, 0, "http:"@) {
            assert(forall|k: int| 0 <= k < 5 ==> r[k] == "http:"@[k]);
            if ends_with_char(b, '/') {
                assert(r == b);
            } else {
                assert(r == b.push('/'));
                assert(b.len() >= 5 || b.len() == 4);
                if b.len() == 4 {
                    assert(r[4] == '/');
                    assert(false);
                } else {
                    assert(forall|k: int| 0 <= k < 5 ==> b[k] == r[k]);
                }
            }
            assert(lit_at(a, 0, "http:"@));
        }
    }
}

} // verus!

verus! {

/// Law: a normalised menu URL holds neither `5ch.net` nor `2ch.net`, and
/// normalising it again changes nothing.
pub proof fn lemma_normalized_menu_url_idempotent(url: Seq<char>)
    ensures
        !contains_lit(normalized_menu_url(url), "5ch.net"@),
        !contains_lit(normalized_menu_url(url), "2ch.net"@),
        normalized_menu_url(normalized_menu_url(url)) == normalized_menu_url(url),
{
    reveal_strlit("2ch.net");
    reveal_strlit("5ch.net");
    reveal_strlit("5ch.io");
    reveal_strlit("http:");
    reveal_strlit("https:");
    let two = "2ch.net"@;
    let five = "5ch.net"@;
    let io = "5ch.io"@;
    assert forall|k: int| 0 <= k < io.len() implies #[trigger] overlap_mismatch(io, two, k) by {
        assert(io[k + 0] != two[0]);
    }
    assert forall|k: int| 0 <= k < io.len() implies #[trigger] overlap_mismatch(io, five, k) by {
        if k == 0 {
            assert(io[k + 4] != five[4]);
        } else {
            assert(io[k + 0] != five[0]);
        }
    }
    let a1 = replace_all(url, two, io);
    lemma_replace_leaves_none(url, two, io, two, 0);
    let a = replace_all(a1, five, io);
    lemma_replace_leaves_none(a1, five, io, five, 0);
    lemma_replace_leaves_none(a1, five, io, two, 0);
    let b = if lit_at(a, 0, "http:"@) { "https:"@ + a.skip(5) } else { a };
    let r = normalized_menu_url(url);
    lemma_normalized_menu_url_shape(url);
    assert forall|q: Seq<char>, k: int| (q == two || q == five) implies !#[trigger] lit_at(r, k, q) by {
        assert(q.len() == 7 && q[6] == 't' && (q[0] == '2' || q[0] == '5'));
        assert(!lit_at(a, k - 1, q) && !lit_at(a, k, q));
        if lit_at(r, k, q) {
            if lit_at(b, k, q) {
                if lit_at(a, 0, "http:"@) {
                    if k < 6 {
                        assert(b[k] == "https:"@[k]);
                        assert(b[k + 0] == q[0]);
                    } else {
                        assert forall|m: int| 0 <= m < q.len() implies a[k - 1 + m] == q[m] by {
                            assert(b[k + m] == q[m]);
                            assert(b[k + m] == a.skip(5)[k + m - 6]);
                        }
                        assert(lit_at(a, k - 1, q));
                    }
                } else {
                    assert(lit_at(a, k, q));
                }
            } else {
                assert(!ends_with_char(b, '/'));
                assert(r == b.push('/'));
                if k + 7 <= b.len() {
                    assert forall|m: int| 0 <= m < q.len() implies b[k + m] == q[m] by {
                        assert(r[k + m] == q[m]);
                    }
                } else {
                    assert(r[k + 6] == '/');
                    assert(r[k + 6] == q[6]);
                }
            }
        }
    }
    assert(!contains_lit(r, five));
    assert(!contains_lit(r, two));
    lemma_replace_absent(r, two, io, 0);
    assert(r.subrange(0, r.len() as int) =~= r);
    lemma_replace_absent(r, five, io, 0);
}

} // verus!

verus! {

/// A URL on one of the boards' domains: `5ch.io`, `5ch.net`, `2ch.net` or `bbspink.com`.
pub open spec fn on_board_domain(h: Seq<char>) -> bool {
    contains_lit(h, "5ch.io"@) || contains_lit(h, "5ch.net"@) || contains_lit(h, "2ch.net"@) || contains_lit(
        h,
        "bbspink.com"@,
    )
}

/// Boards are only gathered under a heading.
proof fn lemma_boards_need_heading(items: Seq<MenuItem>)
    ensures
        menu_fold(items).has_category || menu_fold(items).boards.len() == 0,
    decreases items.len(),
{
    if items.len() > 0 {
        lemma_boards_need_heading(items.drop_last());
    }
}

/// Law: a link to any of the boards' domains (`5ch.io`, `5ch.net`, `2ch.net`,
/// `bbspink.com`) that follows a heading becomes a board of that heading's
/// category: whatever the menu read before, a heading and then such a link
/// make the last category that heading (trimmed), with that one board (its
/// text trimmed, its URL normalised); a link to another domain adds nothing.
pub proof fn lemma_menu_link_becomes_board(items: Seq<MenuItem>, t: Seq<char>, h: Seq<char>, x: Seq<char>)
    ensures
        on_board_domain(h) ==> menu_finish(menu_fold(items.push(MenuItem::Heading(t)).push(MenuItem::Link(h, x)))).last()
            == (CategoryView { title: trim(t), boards: seq![BoardView { title: trim(x), url: normalized_menu_url(h) }] }),
        !on_board_domain(h) ==> menu_fold(items.push(MenuItem::Heading(t)).push(MenuItem::Link(h, x))) == menu_fold(
            items.push(MenuItem::Heading(t)),
        ),
{
    let a = items.push(MenuItem::Heading(t));
    let b = a.push(MenuItem::Link(h, x));
    assert(b.drop_last() =~= a);
    assert(a.drop_last() =~= items);
    let st = menu_fold(a);
    assert(st.has_category && st.current == trim(t));
    lemma_boards_need_heading(items);
    if on_board_domain(h) {
        let st2 = menu_fold(b);
        assert(st2.boards == st.boards.push(BoardView { title: trim(x), url: normalized_menu_url(h) }));
        assert(st.boards =~= Seq::<BoardView>::empty());
    }
}

} // verus!
