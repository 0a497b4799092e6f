//! The search across all boards (through ff5ch): its query and its result page.
use vstd::prelude::*;

use crate::foreign::{form_urlencode, form_urlencoded_serialize, string_from_chars, utf8_lossy, utf8_lossy_string};
use crate::nextthread::{digit_run_end, digit_run};
use crate::parse::{strip_tags, strip_tags_chars};
use crate::text::{
    append_chars, append_str, chars_of, ci_eq, ci_char_eq, ci_lit_at, find_char, find_char_from, lemma_find_char,
    first_ci_lit_from, first_ci_lit_match, is_nd, is_ws, is_whitespace, is_unicode_digit, lit_at,
    match_ci_lit, match_lit, parse_u32, parse_u32_chars, slice_chars, trim, trim_chars,
};

verus! {

/// The search service's query URL, to which the encoded keyword is appended.
pub const SEARCH_BASE_URL: &'static str = "https://ff5ch.syoboi.jp/?q=";

/// A body sent in UTF-8, with invalid sequences replaced (`from_utf8_lossy`).
pub fn to_valid_utf8(body: &[u8]) -> (res: String)
    ensures
        res@ == utf8_lossy(body@),
        vstd::utf8::valid_utf8(body@) ==> res@ == vstd::utf8::decode_utf8(body@),
{
    utf8_lossy_string(body)
}

/// The keyword as a form-encoded query value (`quote_plus`): its UTF-8 bytes
/// with spaces as `+` and all but ASCII letters, digits and `*-._` as `%XX`.
pub fn quote_plus(keyword: &str) -> (res: String)
    ensures
        res@ == form_urlencode(vstd::utf8::encode_utf8(keyword@)),
{
    form_urlencoded_serialize(keyword.as_bytes())
}

/// One hit of the search.
#[derive(Debug, Clone, PartialEq, Eq)]
pub struct SearchHit {
    pub dat_file: String,
    pub title: String,
    pub count: u32,
    pub board_url: String,
    pub url: String,
}

pub struct SearchHitView {
    pub dat_file: Seq<char>,
    pub title: Seq<char>,
    pub count: u32,
    pub board_url: Seq<char>,
    pub url: Seq<char>,
}

impl View for SearchHit {
    type V = SearchHitView;

    open spec fn view(&self) -> SearchHitView {
        SearchHitView {
            dat_file: self.dat_file@,
            title: self.title@,
            count: self.count,
            board_url: self.board_url@,
            url: self.url@,
        }
    }
}

/// The thread URL of a result link at `u` (`https?://[^.]+\.5ch\.(net|io)/test/read\.cgi/[^/]+/\d+/?`,
/// case-insensitive), when a `"` follows it: the index of that `"`.
pub open spec fn result_url_end(s: Seq<char>, u: int) -> Option<int> {
    let v = if u + 4 < s.len() && ci_eq(s[u + 4], 's') { u + 5 } else { u + 4 };
    let w = v + 3;
    let x = find_char(s, '.', w);
    let y = if ci_lit_at(s, x + 5, "net"@) { x + 8 } else { x + 7 };
    let z = y + 15;
    let bz = find_char(s, '/', z);
    let e = digit_run_end(s, bz + 1);
    let q = if e < s.len() && s[e] == '/' { e + 1 } else { e };
    if ci_lit_at(s, u, "http"@) && ci_lit_at(s, v, "://"@) && w < x < s.len() && ci_lit_at(s, x, ".5ch."@) && (
    ci_lit_at(s, x + 5, "net"@) || ci_lit_at(s, x + 5, "io"@)) && ci_lit_at(s, y, "/test/read.cgi/"@) && z < bz
        < s.len() && e > bz + 1 && q < s.len() && s[q] == '"' {
        Some(q)
    } else {
        None
    }
}

/// The rest of a result link after `href="` at `h`: the URL's end `q`, the `>`
/// at `g2` and the `<` of `</a>` at `c`.
pub open spec fn result_link_from_href(s: Seq<char>, h: int) -> Option<(int, int, int)> {
    if ci_lit_at(s, h, "href=\""@) {
        match result_url_end(s, h + 6) {
            None => None,
            Some(q) => {
                let g2 = find_char(s, '>', q + 1);
                match first_ci_lit_from(s, "</a>"@, g2 + 2) {
                    None => None,
                    Some(c) => if g2 < s.len() && find_char(s, '\n', g2 + 1) >= c { Some((q, g2, c)) } else { None },
                }
            },
        }
    } else {
        None
    }
}

/// The last `h` in `[lo, h]` from which a result link's rest matches.
pub open spec fn result_href_down(s: Seq<char>, h: int, lo: int) -> Option<int>
    decreases h - lo + 1,
{
    if h < lo {
        None
    } else if result_link_from_href(s, h) is Some {
        Some(h)
    } else {
        result_href_down(s, h - 1, lo)
    }
}

/// A match of the result pattern
/// `<a\s+[^>]*href="(URL)"[^>]*>(.+?)</a>` (case-insensitive) at `p`: the
/// URL's bounds, the title's bounds, and the match's end.
pub open spec fn result_link_at(s: Seq<char>, p: int) -> Option<(int, int, int, int, int)> {
    if ci_lit_at(s, p, "<a"@) && p + 2 < s.len() && is_ws(s[p + 2]) {
        let g = find_char(s, '>', p + 2);
        match result_href_down(s, g - 1, p + 3) {
            None => None,
            Some(h) => {
                let (q, g2, c) = result_link_from_href(s, h)->0;
                Some((h + 6, q, g2 + 1, c, c + 4))
            },
        }
    } else {
        None
    }
}

/// The pieces of a thread URL (`https?://([^.]+)\.5ch\.(net|io)/test/read\.cgi/([^/]+)/(\d+)/?`)
/// matched at `k`: server, board and number.
pub open spec fn thread_url_at(t: Seq<char>, k: int) -> Option<(Seq<char>, Seq<char>, Seq<char>)> {
    let v = if k + 4 < t.len() && t[k + 4] == 's' { k + 5 } else { k + 4 };
    let w = v + 3;
    let x = find_char(t, '.', w);
    let y = if lit_at(t, x + 5, "net"@) { x + 8 } else { x + 7 };
    let z = y + 15;
    let bz = find_char(t, '/', z);
    let e = digit_run_end(t, bz + 1);
    if lit_at(t, k, "http"@) && lit_at(t, v, "://"@) && w < x < t.len() && lit_at(t, x, ".5ch."@) && (lit_at(
        t,
        x + 5,
        "net"@,
    ) || lit_at(t, x + 5, "io"@)) && lit_at(t, y, "/test/read.cgi/"@) && z < bz < t.len() && e > bz + 1 {
        Some((t.subrange(w, x), t.subrange(z, bz), t.subrange(bz + 1, e)))
    } else {
        None
    }
}

/// The leftmost thread URL in `t[k..]`.
pub open spec fn first_thread_url(t: Seq<char>, k: int) -> Option<(Seq<char>, Seq<char>, Seq<char>)>
    decreases t.len() - k,
{
    if k < 0 || k >= t.len() {
        None
    } else {
        match thread_url_at(t, k) {
            Some(r) => Some(r),
            None => first_thread_url(t, k + 1),
        }
    }
}

/// Start of the run of `\d` characters that ends just before `j`.
pub open spec fn digit_run_start(t: Seq<char>, j: int) -> int
    decreases j,
{
    if j <= 0 || j > t.len() {
        if j <= 0 { 0 } else { t.len() as int }
    } else if is_nd(t[j - 1]) {
        digit_run_start(t, j - 1)
    } else {
        j
    }
}

/// `^(.*)\((\d+)\)$` on a title: the text before the count and the count's digits.
pub open spec fn title_count(t: Seq<char>) -> Option<(Seq<char>, Seq<char>)> {
    let n = t.len();
    let j = digit_run_start(t, n - 1);
    if n >= 3 && t[n - 1] == ')' && j < n - 1 && j >= 1 && t[j - 1] == '(' && find_char(t, '\n', 0) >= j - 1 {
        Some((t.subrange(0, j - 1), t.subrange(j, n - 1)))
    } else {
        None
    }
}

/// The hit of one result link, when its URL is a thread URL.
pub open spec fn search_hit(url: Seq<char>, raw_title: Seq<char>) -> Option<SearchHitView> {
    match first_thread_url(url, 0) {
        None => None,
        Some((server, board, num)) => {
            let t = trim(strip_tags(raw_title, Seq::empty()));
            let (title, count) = match title_count(t) {
                Some((x, d)) => (trim(x), match parse_u32(d) {
                    Some(c) => c,
                    None => 0u32,
                }),
                None => (t, 0u32),
            };
            Some(SearchHitView {
                dat_file: num + ".dat"@,
                title,
                count,
                board_url: "https://"@ + server + ".5ch.io/"@ + board + "/"@,
                url: "https://"@ + server + ".5ch.io/test/read.cgi/"@ + board + "/"@ + num + "/"@,
            })
        },
    }
}

/// The hits of the result links in `s[p..]`, left to right.
pub open spec fn search_hits_from(s: Seq<char>, p: int) -> Seq<SearchHitView>
    decreases s.len() - p,
{
    if p < 0 || p >= s.len() {
        Seq::empty()
    } else {
        match result_link_at(s, p) {
            Some((ua, ub, ta, tb, end)) => if p < end <= s.len() {
                let rest = search_hits_from(s, end);
                match search_hit(s.subrange(ua, ub), s.subrange(ta, tb)) {
                    Some(hit) => seq![hit] + rest,
                    None => rest,
                }
            } else {
                Seq::empty()
            },
            None => search_hits_from(s, p + 1),
        }
    }
}


/// The literals of the result pattern, prepared once.
pub struct SearchLits {
    pub http: Vec<char>,
    pub colon_slashes: Vec<char>,
    pub dot5ch: Vec<char>,
    pub net: Vec<char>,
    pub io: Vec<char>,
    pub mid: Vec<char>,
    pub href: Vec<char>,
    pub close: Vec<char>,
    pub open: Vec<char>,
}

pub open spec fn lits_ok(l: SearchLits) -> bool {
    &&& l.http@ == "http"@
    &&& l.colon_slashes@ == "://"@
    &&& l.dot5ch@ == ".5ch."@
    &&& l.net@ == "net"@
    &&& l.io@ == "io"@
    &&& l.mid@ == "/test/read.cgi/"@
    &&& l.href@ == "href=\""@
    &&& l.close@ == "</a>"@
    &&& l.open@ == "<a"@
    &&& l.http@.len() == 4
    &&& l.colon_slashes@.len() == 3
    &&& l.dot5ch@.len() == 5
    &&& l.net@.len() == 3
    &&& l.io@.len() == 2
    &&& l.mid@.len() == 15
    &&& l.href@.len() == 6
    &&& l.close@.len() == 4
    &&& l.open@.len() == 2
}

fn search_lits() -> (res: SearchLits)
    ensures
        lits_ok(res),
{
    let l = SearchLits {
        http: chars_of("http"),
        colon_slashes: chars_of("://"),
        dot5ch: chars_of(".5ch."),
        net: chars_of("net"),
        io: chars_of("io"),
        mid: chars_of("/test/read.cgi/"),
        href: chars_of("href=\""),
        close: chars_of("</a>"),
        open: chars_of("<a"),
    };
    proof {
        reveal_strlit("http");
        reveal_strlit("://");
        reveal_strlit(".5ch.");
        reveal_strlit("net");
        reveal_strlit("io");
        reveal_strlit("/test/read.cgi/");
        reveal_strlit("href=\"");
        reveal_strlit("</a>");
        reveal_strlit("<a");
    }
    l
}

fn result_url_end_match(s: &Vec<char>, u: usize, l: &SearchLits) -> (res: Option<usize>)
    requires
        lits_ok(*l),
        u <= s.len(),
    ensures
        match res {
            Some(q) => result_url_end(s@, u as int) == Some(q as int) && u < q < s.len(),
            None => result_url_end(s@, u as int) is None,
        },
{
    if !match_ci_lit(s, u, &l.http) {
        return None;
    }
    let v = if u + 4 < s.len() && ci_char_eq(s[u + 4], 's') { u + 5 } else { u + 4 };
    if !match_ci_lit(s, v, &l.colon_slashes) {
        return None;
    }
    let w = v + 3;
    let x = find_char_from(s, '.', w);
    if !(w < x && x < s.len() && match_ci_lit(s, x, &l.dot5ch)) {
        return None;
    }
    let is_net = match_ci_lit(s, x + 5, &l.net);
    if !(is_net || match_ci_lit(s, x + 5, &l.io)) {
        return None;
    }
    let y = if is_net { x + 8 } else { x + 7 };
    if !match_ci_lit(s, y, &l.mid) {
        return None;
    }
    let z = y + 15;
    let bz = find_char_from(s, '/', z);
    if !(z < bz && bz < s.len()) {
        return None;
    }
    let e = digit_run(s, bz + 1);
    if !(e > bz + 1) {
        return None;
    }
    let q = if e < s.len() && s[e] == '/' { e + 1 } else { e };
    if q < s.len() && s[q] == '"' {
        Some(q)
    } else {
        None
    }
}

fn result_link_from_href_match(s: &Vec<char>, h: usize, l: &SearchLits) -> (res: Option<(usize, usize, usize)>)
    requires
        lits_ok(*l),
        h <= s.len(),
    ensures
        match res {
            Some((q, g2, c)) => result_link_from_href(s@, h as int) == Some((q as int, g2 as int, c as int)) && h + 6 < q
                && q < g2 && g2 + 2 <= c && c + 4 <= s.len(),
            None => result_link_from_href(s@, h as int) is None,
        },
{
    if !match_ci_lit(s, h, &l.href) {
        return None;
    }
    let q = match result_url_end_match(s, h + 6, l) {
        None => {
            return None;
        },
        Some(q) => q,
    };
    let g2 = find_char_from(s, '>', q + 1);
    if !(g2 < s.len() && g2 + 1 < s.len()) {
        return None;
    }
    let c = match first_ci_lit_match(s, &l.close, g2 + 2) {
        None => {
            return None;
        },
        Some(c) => c,
    };
    if find_char_from(s, '\n', g2 + 1) >= c {
        Some((q, g2, c))
    } else {
        None
    }
}

fn result_link_match(s: &Vec<char>, p: usize, l: &SearchLits) -> (res: Option<(usize, usize, usize, usize, usize)>)
    requires
        lits_ok(*l),
        p < s.len(),
    ensures
        match res {
            Some((ua, ub, ta, tb, end)) => result_link_at(s@, p as int) == Some((ua as int, ub as int, ta as int, tb as int, end as int))
                && ua < ub && ta < tb && p < end <= s.len() && ub <= s.len() && tb <= s.len(),
            None => result_link_at(s@, p as int) is None,
        },
{
    if !(match_ci_lit(s, p, &l.open) && p + 2 < s.len() && is_whitespace(s[p + 2])) {
        return None;
    }
    let g = find_char_from(s, '>', p + 2);
    proof {
        lemma_find_char(s@, '>', p + 2);
    }
    let mut h = g;
    while h > p + 3
        invariant
            lits_ok(*l),
            p + 3 <= h <= g <= s.len(),
            ci_lit_at(s@, p as int, "<a"@),
            p + 2 < s.len(),
            is_ws(s@[p + 2]),
            g == find_char(s@, '>', p + 2),
            result_href_down(s@, g - 1, p + 3) == result_href_down(s@, h - 1, p + 3),
        decreases h,
    {
        match result_link_from_href_match(s, h - 1, l) {
            Some((q, g2, c)) => {
                assert(result_href_down(s@, h - 1, p + 3) == Some((h - 1) as int));
                assert(result_link_from_href(s@, h - 1) == Some((q as int, g2 as int, c as int)));
                assert(result_link_at(s@, p as int) == Some(((h - 1 + 6) as int, q as int, (g2 + 1) as int, c as int, (c + 4) as int)));
                return Some((h - 1 + 6, q, g2 + 1, c, c + 4));
            },
            None => {},
        }
        h = h - 1;
    }
    None
}

fn thread_url_match(t: &Vec<char>, k: usize, l: &SearchLits) -> (res: Option<(usize, usize, usize, usize, usize, usize)>)
    requires
        lits_ok(*l),
        k < t.len(),
    ensures
        match res {
            Some((a, b, c, d, e, f)) => thread_url_at(t@, k as int) == Some((t@.subrange(a as int, b as int), t@.subrange(c as int, d as int), t@.subrange(e as int, f as int)))
                && a <= b <= t.len() && c <= d <= t.len() && e <= f <= t.len(),
            None => thread_url_at(t@, k as int) is None,
        },
{
    if !match_lit(t, k, &l.http) {
        return None;
    }
    let v = if k + 4 < t.len() && t[k + 4] == 's' { k + 5 } else { k + 4 };
    if !match_lit(t, v, &l.colon_slashes) {
        return None;
    }
    let w = v + 3;
    let x = find_char_from(t, '.', w);
    if !(w < x && x < t.len() && match_lit(t, x, &l.dot5ch)) {
        return None;
    }
    let is_net = match_lit(t, x + 5, &l.net);
    if !(is_net || match_lit(t, x + 5, &l.io)) {
        return None;
    }
    let y = if is_net { x + 8 } else { x + 7 };
    if !match_lit(t, y, &l.mid) {
        return None;
    }
    let z = y + 15;
    let bz = find_char_from(t, '/', z);
    if !(z < bz && bz < t.len()) {
        return None;
    }
    let e = digit_run(t, bz + 1);
    if !(e > bz + 1) {
        return None;
    }
    Some((w, x, z, bz, bz + 1, e))
}

fn first_thread_url_match(t: &Vec<char>, l: &SearchLits) -> (res: Option<(usize, usize, usize, usize, usize, usize)>)
    requires
        lits_ok(*l),
    ensures
        match res {
            Some((a, b, c, d, e, f)) => first_thread_url(t@, 0) == Some((t@.subrange(a as int, b as int), t@.subrange(c as int, d as int), t@.subrange(e as int, f as int)))
                && a <= b <= t.len() && c <= d <= t.len() && e <= f <= t.len(),
            None => first_thread_url(t@, 0) is None,
        },
{
    let mut k: usize = 0;
    while k < t.len()
        invariant
            lits_ok(*l),
            k <= t.len(),
            first_thread_url(t@, 0) == first_thread_url(t@, k as int),
        decreases t.len() - k,
    {
        let r = thread_url_match(t, k, l);
        if r.is_some() {
            return r;
        }
        k = k + 1;
    }
    None
}

fn title_count_match(t: &Vec<char>) -> (res: Option<usize>)
    ensures
        match res {
            Some(j) => 1 <= j < t.len() && title_count(t@) == Some((t@.subrange(0, j - 1), t@.subrange(j as int, t.len() - 1))),
            None => title_count(t@) is None,
        },
{
    let n = t.len();
    if n < 3 || t[n - 1] != ')' {
        return None;
    }
    let mut j = n - 1;
    while j > 0 && is_unicode_digit(t[j - 1])
        invariant
            j <= n - 1,
            n == t.len(),
            n >= 3,
            digit_run_start(t@, n - 1) == digit_run_start(t@, j as int),
        decreases j,
    {
        j = j - 1;
    }
    if j < n - 1 && j >= 1 && t[j - 1] == '(' && find_char_from(t, '\n', 0) >= j - 1 {
        Some(j)
    } else {
        None
    }
}

fn search_hit_of(url: &Vec<char>, raw_title: &Vec<char>, l: &SearchLits) -> (res: Option<SearchHit>)
    requires
        lits_ok(*l),
    ensures
        match res {
            Some(h) => search_hit(url@, raw_title@) == Some(h@),
            None => search_hit(url@, raw_title@) is None,
        },
{
    let (a, b, c, d, e, f) = match first_thread_url_match(url, l) {
        None => {
            return None;
        },
        Some(r) => r,
    };
    let server = slice_chars(url, a, b);
    let board = slice_chars(url, c, d);
    let num = slice_chars(url, e, f);
    let empty: Vec<char> = Vec::new();
    let stripped = strip_tags_chars(raw_title, &empty);
    let t = trim_chars(&stripped);
    let (title, count) = match title_count_match(&t) {
        Some(j) => {
            let x = slice_chars(&t, 0, j - 1);
            let count = match parse_u32_chars(&t, j, t.len() - 1) {
                Some(c) => c,
                None => 0u32,
            };
            (trim_chars(&x), count)
        },
        None => (t, 0u32),
    };
    let mut dat = slice_chars(&num, 0, num.len());
    append_str(&mut dat, ".dat");
    let mut board_url = chars_of("https://");
    append_chars(&mut board_url, &server);
    append_str(&mut board_url, ".5ch.io/");
    append_chars(&mut board_url, &board);
    append_str(&mut board_url, "/");
    let mut thread_url = chars_of("https://");
    append_chars(&mut thread_url, &server);
    append_str(&mut thread_url, ".5ch.io/test/read.cgi/");
    append_chars(&mut thread_url, &board);
    append_str(&mut thread_url, "/");
    append_chars(&mut thread_url, &num);
    append_str(&mut thread_url, "/");
    assert(dat@ =~= num@ + ".dat"@);
    let hit = SearchHit {
        dat_file: string_from_chars(dat.as_slice()),
        title: string_from_chars(title.as_slice()),
        count,
        board_url: string_from_chars(board_url.as_slice()),
        url: string_from_chars(thread_url.as_slice()),
    };
    Some(hit)
}

pub open spec fn hits_view(hs: Seq<SearchHit>) -> Seq<SearchHitView> {
    hs.map_values(|h: SearchHit| h@)
}

/// The hits of a search result page: each result link
/// `<a href="https://SERVER.5ch.net/test/read.cgi/BOARD/NUMBER/">TITLE(COUNT)</a>`
/// (case-insensitive, `5ch.net` or `5ch.io`) gives the thread's `.dat` name,
/// its title without tags and count, the count (0 when absent), and its board
/// and thread URLs on `5ch.io`.
pub fn parse_search_results(html_content: &str) -> (res: Vec<SearchHit>)
    ensures
        hits_view(res@) == search_hits_from(html_content@, 0),
{
    let s = chars_of(html_content);
    let l = search_lits();
    let mut res: Vec<SearchHit> = Vec::new();
    let mut p: usize = 0;
    while p < s.len()
        invariant
            p <= s.len(),
            lits_ok(l),
            s@ == html_content@,
            hits_view(res@) + search_hits_from(s@, p as int) == search_hits_from(s@, 0),
        decreases s.len() - p,
    {
        match result_link_match(&s, p, &l) {
            Some((ua, ub, ta, tb, end)) => {
                let url = slice_chars(&s, ua, ub);
                let title = slice_chars(&s, ta, tb);
                match search_hit_of(&url, &title, &l) {
                    Some(h) => {
                        assert(hits_view(res@.push(h)) =~= hits_view(res@).push(h@));
                        assert(hits_view(res@) + search_hits_from(s@, p as int) =~= hits_view(res@).push(h@) + search_hits_from(s@, end as int));
                        res.push(h);
                    },
                    None => {},
                }
                p = end;
            },
            None => {
                p = p + 1;
            },
        }
    }
    assert(hits_view(res@) + Seq::<SearchHitView>::empty() =~= hits_view(res@));
    res
}

} // verus!
