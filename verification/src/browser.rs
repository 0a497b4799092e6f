//! A thread's read URL, and the assembly of a thread's archive record from
//! its fetched page.
use vstd::prelude::*;

use crate::errors::{BrowserError, THREAD_GONE_MESSAGE};
use crate::export::{
    board_name_of_page, dat_created_at, export_div_panics, export_posts_of_divs,
    export_posts_view, ExportPost, ExportPostView, ExportResult, ExportSource, ExportThread, strip_dat,
};
use crate::foreign::{parse_url, string_from_chars, url_parsed};
use crate::nextthread::page_title;
use crate::models::Post;
use crate::parse::{parse_posts, posts_of_divs, posts_view, scrape_divs, scraped_divs, ScrapedDiv};
use crate::text::{
    all_ascii_digits, append_chars, append_str, chars_of, contains_chars, contains_lit, decimal,
    push_decimal,
};

verus! {

/// The components of a parsed URL, as `url::Url`'s accessors report them.
#[derive(Debug)]
pub struct UrlParts {
    pub scheme: String,
    pub host: Option<String>,
    pub port: Option<u16>,
    pub path: String,
    pub segments: Option<Vec<String>>,
}

/// The last non-empty path segment.
pub open spec fn last_nonempty(segs: Seq<String>) -> Option<Seq<char>>
    decreases segs.len(),
{
    if segs.len() == 0 {
        None
    } else if segs.last()@.len() > 0 {
        Some(segs.last()@)
    } else {
        last_nonempty(segs.drop_last())
    }
}

/// The board's name in a board URL: its last non-empty path segment.
pub open spec fn url_board_name(p: UrlParts) -> Option<Seq<char>> {
    match p.segments {
        None => None,
        Some(v) => last_nonempty(v@),
    }
}

pub open spec fn host_text(p: UrlParts) -> Seq<char> {
    match p.host {
        Some(h) => h@,
        None => Seq::empty(),
    }
}

/// `scheme://host[:port]`.
pub open spec fn url_origin(p: UrlParts) -> Seq<char> {
    p.scheme@ + "://"@ + host_text(p) + match p.port {
        Some(n) => ":"@ + decimal(n as nat),
        None => Seq::empty(),
    }
}

/// `scheme://host[:port]/test/read.cgi/BOARD/NUMBER/`.
pub open spec fn read_cgi_url(p: UrlParts, board: Seq<char>, num: Seq<char>) -> Seq<char> {
    url_origin(p) + "/test/read.cgi/"@ + board + "/"@ + num + "/"@
}

/// The read URL of a thread, or the message of the error.
pub open spec fn read_url_outcome(board_url: Seq<char>, parts: Option<UrlParts>, dat_file: Seq<char>) -> Result<Seq<char>, Seq<char>> {
    match parts {
        None => Err("board_urlの解析に失敗: "@ + board_url),
        Some(p) => match url_board_name(p) {
            None => Err("board_urlから板名を特定できません: "@ + board_url),
            Some(b) => {
                let d = strip_dat(dat_file);
                if d.len() == 0 || !all_ascii_digits(d) {
                    Err("不正なdat_file: "@ + dat_file)
                } else {
                    Ok(read_cgi_url(p, b, d))
                }
            },
        },
    }
}

fn last_nonempty_segment(segs: &Vec<String>) -> (res: Option<&String>)
    ensures
        match res {
            Some(s) => last_nonempty(segs@) == Some(s@),
            None => last_nonempty(segs@) is None,
        },
{
    let mut j = segs.len();
    assert(segs@.take(j as int) =~= segs@);
    while j > 0
        invariant
            j <= segs.len(),
            last_nonempty(segs@) == last_nonempty(segs@.take(j as int)),
        decreases j,
    {
        assert(segs@.take(j - 1) =~= segs@.take(j as int).drop_last());
        if !segs[j - 1].as_str().is_empty() {
            return Some(&segs[j - 1]);
        }
        j = j - 1;
    }
    None
}

fn board_name_of(p: &UrlParts) -> (res: Option<&String>)
    ensures
        match res {
            Some(s) => url_board_name(*p) == Some(s@),
            None => url_board_name(*p) is None,
        },
{
    match &p.segments {
        None => None,
        Some(v) => last_nonempty_segment(v),
    }
}

fn read_cgi_url_chars(p: &UrlParts, board: &str, num: &Vec<char>) -> (res: String)
    ensures
        res@ == read_cgi_url(*p, board@, num@),
{
    let mut v = chars_of(p.scheme.as_str());
    append_str(&mut v, "://");
    match &p.host {
        Some(h) => append_str(&mut v, h.as_str()),
        None => {},
    }
    match p.port {
        Some(n) => {
            append_str(&mut v, ":");
            push_decimal(&mut v, n as u64);
        },
        None => {},
    }
    assert(v@ =~= url_origin(*p));
    append_str(&mut v, "/test/read.cgi/");
    append_str(&mut v, board);
    append_str(&mut v, "/");
    append_chars(&mut v, num);
    append_str(&mut v, "/");
    string_from_chars(v.as_slice())
}

fn error_with(prefix: &str, subject: &str, board_url: &str) -> (res: BrowserError)
    ensures
        res.message@ == prefix@ + subject@,
        crate::parse::opt_view(res.url) == Some(board_url@),
{
    let mut v = chars_of(prefix);
    append_str(&mut v, subject);
    let msg = string_from_chars(v.as_slice());
    BrowserError { message: msg, url: Some(board_url.to_owned()) }
}

/// The read URL of a thread from its board URL's parsed components.
pub fn read_url_from_parts(board_url: &str, parts: &Option<UrlParts>, dat_file: &str) -> (res: Result<String, BrowserError>)
    ensures
        match res {
            Ok(u) => read_url_outcome(board_url@, *parts, dat_file@) == Ok::<Seq<char>, Seq<char>>(u@),
            Err(e) => read_url_outcome(board_url@, *parts, dat_file@) == Err::<Seq<char>, Seq<char>>(e.message@)
                && crate::parse::opt_view(e.url) == Some(board_url@),
        },
{
    let p = match parts {
        None => {
            return Err(error_with("board_urlの解析に失敗: ", board_url, board_url));
        },
        Some(p) => p,
    };
    let board = match board_name_of(p) {
        None => {
            return Err(error_with("board_urlから板名を特定できません: ", board_url, board_url));
        },
        Some(b) => b,
    };
    let dv = chars_of(dat_file);
    let d = crate::export::strip_dat_chars(&dv);
    let mut ok = d.len() > 0;
    let mut i: usize = 0;
    while i < d.len()
        invariant
            i <= d.len(),
            ok == (d.len() > 0 && forall|k: int| 0 <= k < i ==> crate::text::is_ascii_digit(#[trigger] d@[k])),
        decreases d.len() - i,
    {
        if !('0' <= d[i] && d[i] <= '9') {
            ok = false;
        }
        i = i + 1;
    }
    if !ok {
        return Err(error_with("不正なdat_file: ", dat_file, board_url));
    }
    Ok(read_cgi_url_chars(p, board.as_str(), &d))
}

/// The read URL `scheme://host[:port]/test/read.cgi/BOARD/NUMBER/` of a
/// thread, from its board's URL and its `.dat` name. Fails when the board URL
/// does not parse, has no board name, or the `.dat` name is not a number.
pub fn build_read_url(board_url: &str, dat_file: &str) -> (res: Result<String, BrowserError>)
    ensures
        match res {
            Ok(u) => read_url_outcome(board_url@, url_parsed(board_url@), dat_file@) == Ok::<Seq<char>, Seq<char>>(u@),
            Err(e) => read_url_outcome(board_url@, url_parsed(board_url@), dat_file@) == Err::<Seq<char>, Seq<char>>(
                e.message@,
            ) && crate::parse::opt_view(e.url) == Some(board_url@),
        },
{
    let parts = parse_url(board_url);
    read_url_from_parts(board_url, &parts, dat_file)
}

/// The URL from which a follow-up thread's title is read, from the board URL's
/// parsed components; none when it does not parse or has no board name.
pub open spec fn title_url_outcome(parts: Option<UrlParts>, dat_key: Seq<char>) -> Option<Seq<char>> {
    match parts {
        None => None,
        Some(p) => match url_board_name(p) {
            None => None,
            Some(b) => Some(read_cgi_url(p, b, dat_key)),
        },
    }
}

/// The read URL of a follow-up thread, from the board URL's parsed components.
pub fn title_url_from_parts(parts: &Option<UrlParts>, dat_key: &str) -> (res: Option<String>)
    ensures
        match res {
            Some(u) => title_url_outcome(*parts, dat_key@) == Some(u@),
            None => title_url_outcome(*parts, dat_key@) is None,
        },
{
    match parts {
        None => None,
        Some(p) => match board_name_of(p) {
            None => None,
            Some(b) => {
                let k = chars_of(dat_key);
                Some(read_cgi_url_chars(p, b.as_str(), &k))
            },
        },
    }
}

/// The read URL from which a follow-up thread's title is fetched.
pub fn thread_title_url(board_url: &str, dat_key: &str) -> (res: Option<String>)
    ensures
        match res {
            Some(u) => title_url_outcome(url_parsed(board_url@), dat_key@) == Some(u@),
            None => title_url_outcome(url_parsed(board_url@), dat_key@) is None,
        },
{
    let parts = parse_url(board_url);
    title_url_from_parts(&parts, dat_key)
}


/// The posts numbered above `since` (all of them when `since` is 0).
pub open spec fn posts_since(ps: Seq<ExportPostView>, since: u32) -> Seq<ExportPostView>
    decreases ps.len(),
{
    if ps.len() == 0 {
        Seq::empty()
    } else {
        let r = posts_since(ps.drop_last(), since);
        if since == 0 || ps.last().num > since { r.push(ps.last()) } else { r }
    }
}

/// A thread's archive id: `5ch:` then the board URL's host and path, then the thread's number.
pub open spec fn export_external_id(p: UrlParts, dat_file: Seq<char>) -> Seq<char> {
    "5ch:"@ + host_text(p) + p.path@ + strip_dat(dat_file)
}

pub open spec fn nonempty_text(t: Seq<char>) -> Option<Seq<char>> {
    if t.len() > 0 { Some(t) } else { None }
}

/// The archive record of a fetched thread page.
pub open spec fn is_export_record(
    r: ExportResult,
    p: UrlParts,
    board_url: Seq<char>,
    dat_file: Seq<char>,
    since_num: u32,
    html: Seq<char>,
    final_url: Seq<char>,
    scraped_at: Seq<char>,
) -> bool {
    let id = export_external_id(p, dat_file);
    let all = export_posts_of_divs(scraped_divs(html), id);
    &&& r.source.provider@ == "5ch"@
    &&& r.source.board_url@ == board_url
    &&& r.source.dat_file@ == dat_file
    &&& r.source.thread_url@ == final_url
    &&& r.source.scraped_at@ == scraped_at
    &&& r.thread.external_id@ == id
    &&& r.thread.title@ == page_title(html)
    &&& r.thread.post_count == all.len()
    &&& crate::parse::opt_view(r.thread.board_name) == nonempty_text(board_name_of_page(html))
    &&& crate::parse::opt_view(r.thread.created_at) == nonempty_text(dat_created_at(dat_file))
    &&& export_posts_view(r.posts@) == posts_since(all, since_num)
}

/// The page cannot be exported: it is not a fallen thread, the board URL parses,
/// and a post's time stamp would be cut inside a character (see `export_page_panics`).
pub open spec fn export_page_would_panic(board_url: Seq<char>, html: Seq<char>) -> bool {
    &&& !contains_lit(html, "dat落ち"@)
    &&& url_parsed(board_url) is Some
    &&& crate::export::export_page_panics(html)
}

/// What `export_from_page` gives for a page: the thread-gone error, the
/// board-URL error, or the archive record.
pub open spec fn export_outcome(
    res: Result<ExportResult, BrowserError>,
    board_url: Seq<char>,
    dat_file: Seq<char>,
    since_num: u32,
    html: Seq<char>,
    final_url: Seq<char>,
    scraped_at: Seq<char>,
) -> bool {
    match res {
        Ok(r) => url_parsed(board_url) is Some && !contains_lit(html, "dat落ち"@) && is_export_record(
            r,
            url_parsed(board_url)->0,
            board_url,
            dat_file,
            since_num,
            html,
            final_url,
            scraped_at,
        ),
        Err(e) => if contains_lit(html, "dat落ち"@) {
            e.message@ == THREAD_GONE_MESSAGE@ && e.url is None
        } else {
            url_parsed(board_url) is None && e.message@ == "board_urlの解析に失敗: "@ + board_url
                && crate::parse::opt_view(e.url) == Some(board_url)
        },
    }
}

fn export_posts_since(divs: &Vec<ScrapedDiv>, thread_external_id: &str, since: u32) -> (res: (Vec<ExportPost>, usize))
    requires
        forall|i: int| 0 <= i < divs@.len() ==> !export_div_panics(#[trigger] divs@[i]),
    ensures
        export_posts_view(res.0@) == posts_since(export_posts_of_divs(divs@, thread_external_id@), since),
        res.1 == export_posts_of_divs(divs@, thread_external_id@).len(),
{
    let mut res: Vec<ExportPost> = Vec::new();
    let mut count: usize = 0;
    let mut i: usize = 0;
    assert(export_posts_view(res@) =~= posts_since(export_posts_of_divs(divs@.take(0), thread_external_id@), since));
    while i < divs.len()
        invariant
            i <= divs.len(),
            count <= i,
            forall|k: int| 0 <= k < divs@.len() ==> !export_div_panics(#[trigger] divs@[k]),
            count == export_posts_of_divs(divs@.take(i as int), thread_external_id@).len(),
            export_posts_view(res@) == posts_since(export_posts_of_divs(divs@.take(i as int), thread_external_id@), since),
        decreases divs.len() - i,
    {
        assert(divs@.take(i + 1).drop_last() == divs@.take(i as int));
        match crate::export::export_post_from_div(&divs[i], thread_external_id) {
            Some(p) => {
                count = count + 1;
                let ghost all = export_posts_of_divs(divs@.take(i + 1), thread_external_id@);
                assert(all.drop_last() == export_posts_of_divs(divs@.take(i as int), thread_external_id@));
                if since == 0 || p.num > since {
                    res.push(p);
                    assert(export_posts_view(res@) == export_posts_view(res@.drop_last()).push(p@));
                }
            },
            None => {},
        }
        i = i + 1;
    }
    assert(divs@.take(divs.len() as int) == divs@);
    (res, count)
}

fn nonempty_string(s: String) -> (res: Option<String>)
    ensures
        crate::parse::opt_view(res) == nonempty_text(s@),
{
    if s.as_str().is_empty() {
        None
    } else {
        Some(s)
    }
}

/// The archive record of a thread from its fetched page: an error when the
/// page says the thread has fallen out of the board (`dat落ち`) or the board
/// URL does not parse; else the record, with the posts numbered above
/// `since_num` (all when it is 0) while `post_count` counts all of them.
pub fn export_from_page(
    board_url: &str,
    dat_file: &str,
    since_num: u32,
    html_content: &str,
    final_url: &str,
    scraped_at: &str,
) -> (res: Result<ExportResult, BrowserError>)
    requires
        !export_page_would_panic(board_url@, html_content@),
    ensures
        export_outcome(res, board_url@, dat_file@, since_num, html_content@, final_url@, scraped_at@),
{
    let html = chars_of(html_content);
    let gone = chars_of("dat落ち");
    if contains_chars(&html, &gone) {
        return Err(BrowserError::thread_gone());
    }
    let parts = parse_url(board_url);
    let p = match &parts {
        None => {
            return Err(error_with("board_urlの解析に失敗: ", board_url, board_url));
        },
        Some(p) => p,
    };
    let mut id = chars_of("5ch:");
    match &p.host {
        Some(h) => append_str(&mut id, h.as_str()),
        None => {},
    }
    append_str(&mut id, p.path.as_str());
    let dv = chars_of(dat_file);
    let num = crate::export::strip_dat_chars(&dv);
    append_chars(&mut id, &num);
    assert(id@ =~= export_external_id(*p, dat_file@));
    let id_s = string_from_chars(id.as_slice());
    let divs = scrape_divs(html_content);
    let (posts, count) = export_posts_since(&divs, id_s.as_str(), since_num);
    let title = crate::nextthread::extract_title(html_content);
    let board_name = crate::export::extract_board_name(html_content);
    let created_at = crate::export::dat_timestamp_to_rfc3339(dat_file);
    Ok(ExportResult {
        source: ExportSource {
            provider: "5ch".to_owned(),
            board_url: board_url.to_owned(),
            dat_file: dat_file.to_owned(),
            thread_url: final_url.to_owned(),
            scraped_at: scraped_at.to_owned(),
        },
        thread: ExportThread {
            external_id: id_s,
            title,
            post_count: count,
            board_name: nonempty_string(board_name),
            created_at: nonempty_string(created_at),
        },
        posts,
    })
}

/// `export_from_page` on the pages that can be exported; `None` on the others
/// (see `export_page_would_panic`).
pub fn try_export_from_page(
    board_url: &str,
    dat_file: &str,
    since_num: u32,
    html_content: &str,
    final_url: &str,
    scraped_at: &str,
) -> (res: Option<Result<ExportResult, BrowserError>>)
    ensures
        res is None <==> export_page_would_panic(board_url@, html_content@),
        res matches Some(r) ==> export_outcome(r, board_url@, dat_file@, since_num, html_content@, final_url@, scraped_at@),
{
    if export_would_panic(board_url, html_content) {
        return None;
    }
    Some(export_from_page(board_url, dat_file, since_num, html_content, final_url, scraped_at))
}

/// The posts of a fetched thread page; the thread-gone error when the page
/// says the thread has fallen out of the board (`dat落ち`).
pub fn posts_from_page(html_content: &str) -> (res: Result<Vec<Post>, BrowserError>)
    ensures
        match res {
            Ok(ps) => !contains_lit(html_content@, "dat落ち"@) && posts_view(ps@) == posts_of_divs(scraped_divs(html_content@)),
            Err(e) => contains_lit(html_content@, "dat落ち"@) && e.message@ == THREAD_GONE_MESSAGE@ && e.url is None,
        },
{
    let html = chars_of(html_content);
    let gone = chars_of("dat落ち");
    if contains_chars(&html, &gone) {
        return Err(BrowserError::thread_gone());
    }
    Ok(parse_posts(html_content))
}

/// Whether the page cannot be exported (see `export_page_would_panic`).
pub fn export_would_panic(board_url: &str, html_content: &str) -> (res: bool)
    ensures
        res == export_page_would_panic(board_url@, html_content@),
{
    let html = chars_of(html_content);
    let gone = chars_of("dat落ち");
    if contains_chars(&html, &gone) {
        return false;
    }
    if parse_url(board_url).is_none() {
        return false;
    }
    let divs = scrape_divs(html_content);
    !crate::export::divs_panic_free(&divs)
}

/// Whether a board's cached thread list is used: not when a reload is forced,
/// and only while its age is below the expiry (ages in nanoseconds).
pub fn cache_is_fresh(force_reload: bool, cached_age: Option<u128>, expire: u128) -> (res: bool)
    ensures
        res == (!force_reload && (cached_age matches Some(age) && age < expire)),
{
    if force_reload {
        return false;
    }
    match cached_age {
        Some(age) => age < expire,
        None => false,
    }
}

/// The result of a fetch of a thread list, falling back on the stale cached
/// list when the fetch failed and there is one.
pub fn fresh_or_stale<T, E>(fetched: Result<T, E>, stale: Option<T>) -> (res: Result<T, E>)
    ensures
        match fetched {
            Ok(t) => res == Ok::<T, E>(t),
            Err(e) => match stale {
                Some(s) => res == Ok::<T, E>(s),
                None => res == Err::<T, E>(e),
            },
        },
{
    match fetched {
        Ok(t) => Ok(t),
        Err(e) => match stale {
            Some(s) => Ok(s),
            None => Err(e),
        },
    }
}

} // verus!

verus! {

/// Law: an export from post `since` on holds only posts numbered above it,
/// each of them in order; from 0 it holds every post.
pub proof fn lemma_posts_since(ps: Seq<ExportPostView>, since: u32)
    ensures
        since == 0 ==> posts_since(ps, since) == ps,
        since > 0 ==> forall|i: int| 0 <= i < posts_since(ps, since).len() ==> #[trigger] posts_since(ps, since)[i].num > since,
        since > 0 ==> forall|i: int| 0 <= i < ps.len() && ps[i].num > since ==> posts_since(ps, since).contains(#[trigger] ps[i]),
    decreases ps.len(),
{
    if ps.len() > 0 {
        let init = ps.drop_last();
        lemma_posts_since(init, since);
        if since == 0 {
            assert(init.push(ps.last()) =~= ps);
        } else {
            let r = posts_since(init, since);
            assert forall|i: int| 0 <= i < ps.len() && ps[i].num > since implies posts_since(ps, since).contains(#[trigger] ps[i]) by {
                if i < ps.len() - 1 {
                    assert(init[i] == ps[i]);
                    assert(r.contains(init[i]));
                    let j = choose|j: int| 0 <= j < r.len() && r[j] == init[i];
                    assert(posts_since(ps, since)[j] == ps[i]);
                } else {
                    assert(posts_since(ps, since) == r.push(ps.last()));
                    assert(posts_since(ps, since)[r.len() as int] == ps[i]);
                }
            }
        }
    }
}

} // verus!
