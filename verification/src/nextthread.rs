//! Follow-up threads: the links to them in a thread's last posts, and a
//! page's title.
use vstd::prelude::*;

use crate::foreign::string_from_chars;
use crate::models::{Post, PostView};
use crate::text::{
    append_chars, chars_equal, chars_of, ci_lit_at, contains_lit, find_char, find_char_from, first_ci_lit_from,
    first_ci_lit_match, is_nd, is_unicode_digit, lit_at, match_ci_lit, match_lit,
    skip_whitespace, skip_ws, slice_chars, trim, trim_chars,
};

verus! {

/// `^https?://([^/]+)/([^/]+)/`: the server and the board of a board URL.
pub open spec fn board_url_parts(u: Seq<char>) -> Option<(Seq<char>, Seq<char>)> {
    let a = if lit_at(u, 0, "https://"@) { 8int } else { 7int };
    let x = find_char(u, '/', a);
    let y = find_char(u, '/', x + 1);
    if (lit_at(u, 0, "https://"@) || lit_at(u, 0, "http://"@)) && a < x && x + 1 < y && y < u.len() {
        Some((u.subrange(a, x), u.subrange(x + 1, y)))
    } else {
        None
    }
}

/// End of the run of `\d` characters that starts at `i`.
pub open spec fn digit_run_end(s: Seq<char>, i: int) -> int
    decreases s.len() - i,
{
    if i < 0 || i >= s.len() {
        if i < 0 { 0 } else { s.len() as int }
    } else if is_nd(s[i]) {
        digit_run_end(s, i + 1)
    } else {
        i
    }
}

/// A link `https?://SERVER/test/read.cgi/BOARD/(\d+)/?` at `p`: the bounds of
/// the number and the end of the match.
pub open spec fn thread_link_at(s: Seq<char>, p: int, server: Seq<char>, board: Seq<char>) -> Option<(int, int, int)> {
    let a = if lit_at(s, p, "https://"@) { p + 8 } else { p + 7 };
    let b = a + server.len();
    let c = b + 15;
    let d = c + board.len();
    let e = digit_run_end(s, d + 1);
    if (lit_at(s, p, "https://"@) || lit_at(s, p, "http://"@)) && lit_at(s, a, server) && lit_at(
        s,
        b,
        "/test/read.cgi/"@,
    ) && lit_at(s, c, board) && d < s.len() && s[d] == '/' && e > d + 1 {
        Some((d + 1, e, if e < s.len() && s[e] == '/' { e + 1 } else { e }))
    } else {
        None
    }
}

/// The thread numbers that the links into the board `server/board` in `s[p..]`
/// carry, left to right.
pub open spec fn thread_links_from(s: Seq<char>, server: Seq<char>, board: Seq<char>, p: int) -> Seq<Seq<char>>
    decreases s.len() - p,
{
    if p < 0 || p >= s.len() {
        Seq::empty()
    } else {
        match thread_link_at(s, p, server, board) {
            Some((a, e, end)) => if p < end <= s.len() {
                seq![s.subrange(a, e)] + thread_links_from(s, server, board, end)
            } else {
                Seq::empty()
            },
            None => thread_links_from(s, server, board, p + 1),
        }
    }
}

/// The thread numbers linked from the posts numbered 900 and above, in order.
pub open spec fn late_post_links(posts: Seq<PostView>, server: Seq<char>, board: Seq<char>) -> Seq<Seq<char>>
    decreases posts.len(),
{
    if posts.len() == 0 {
        Seq::empty()
    } else {
        let rest = late_post_links(posts.drop_last(), server, board);
        if posts.last().num >= 900 {
            rest + thread_links_from(posts.last().message, server, board, 0)
        } else {
            rest
        }
    }
}

/// The numbers in order of first appearance, without duplicates and without
/// the current thread's own.
pub open spec fn new_candidates(keys: Seq<Seq<char>>, current_dat_file: Seq<char>) -> Seq<Seq<char>>
    decreases keys.len(),
{
    if keys.len() == 0 {
        Seq::empty()
    } else {
        let r = new_candidates(keys.drop_last(), current_dat_file);
        let k = keys.last();
        if k + ".dat"@ == current_dat_file || r.contains(k) { r } else { r.push(k) }
    }
}

/// The follow-up thread candidates of a thread.
pub open spec fn next_thread_candidates(board_url: Seq<char>, current_dat_file: Seq<char>, posts: Seq<PostView>) -> Seq<Seq<char>> {
    match board_url_parts(board_url) {
        None => Seq::empty(),
        Some((server, board)) => new_candidates(late_post_links(posts, server, board), current_dat_file),
    }
}

fn board_url_parts_of(u: &Vec<char>) -> (res: Option<(Vec<char>, Vec<char>)>)
    ensures
        match res {
            Some((a, b)) => board_url_parts(u@) == Some((a@, b@)),
            None => board_url_parts(u@) is None,
        },
{
    let https = chars_of("https://");
    let http = chars_of("http://");
    proof {
        reveal_strlit("https://");
        reveal_strlit("http://");
    }
    let is_https = match_lit(u, 0, &https);
    if !(is_https || match_lit(u, 0, &http)) {
        return None;
    }
    let a: usize = if is_https { 8 } else { 7 };
    let x = find_char_from(u, '/', a);
    if !(a < x && x < u.len()) {
        return None;
    }
    let y = find_char_from(u, '/', x + 1);
    if !(x + 1 < y && y < u.len()) {
        return None;
    }
    Some((slice_chars(u, a, x), slice_chars(u, x + 1, y)))
}

pub fn digit_run(s: &Vec<char>, i: usize) -> (res: usize)
    requires
        i <= s.len(),
    ensures
        res == digit_run_end(s@, i as int),
        i <= res <= s.len(),
{
    let mut k = i;
    while k < s.len() && is_unicode_digit(s[k])
        invariant
            i <= k <= s.len(),
            digit_run_end(s@, i as int) == digit_run_end(s@, k as int),
        decreases s.len() - k,
    {
        k = k + 1;
    }
    k
}

fn thread_link_match(s: &Vec<char>, p: usize, server: &Vec<char>, board: &Vec<char>, https: &Vec<char>, http: &Vec<char>, mid: &Vec<char>) -> (res: Option<(usize, usize, usize)>)
    requires
        p < s.len(),
        https@ == "https://"@,
        http@ == "http://"@,
        mid@ == "/test/read.cgi/"@,
    ensures
        match res {
            Some((a, e, end)) => thread_link_at(s@, p as int, server@, board@) == Some((a as int, e as int, end as int))
                && a < e <= end <= s.len() && p < end,
            None => thread_link_at(s@, p as int, server@, board@) is None,
        },
{
    proof {
        reveal_strlit("https://");
        reveal_strlit("http://");
        reveal_strlit("/test/read.cgi/");
    }
    let is_https = match_lit(s, p, https);
    if !(is_https || match_lit(s, p, http)) {
        return None;
    }
    let a = if is_https { p + 8 } else { p + 7 };
    if !match_lit(s, a, server) {
        return None;
    }
    let b = a + server.len();
    if !match_lit(s, b, mid) {
        return None;
    }
    let c = b + 15;
    if !match_lit(s, c, board) {
        return None;
    }
    let d = c + board.len();
    if !(d < s.len() && s[d] == '/') {
        return None;
    }
    let e = digit_run(s, d + 1);
    if !(e > d + 1) {
        return None;
    }
    let end = if e < s.len() && s[e] == '/' { e + 1 } else { e };
    Some((d + 1, e, end))
}

fn contains_key(keys: &Vec<Vec<char>>, k: &Vec<char>) -> (res: bool)
    ensures
        res == keys@.map_values(|v: Vec<char>| v@).contains(k@),
{
    let ghost ks = keys@.map_values(|v: Vec<char>| v@);
    let mut i: usize = 0;
    while i < keys.len()
        invariant
            i <= keys.len(),
            ks == keys@.map_values(|v: Vec<char>| v@),
            forall|j: int| 0 <= j < i ==> ks[j] != k@,
        decreases keys.len() - i,
    {
        if chars_equal(&keys[i], k) {
            assert(ks[i as int] == k@);
            return true;
        }
        i = i + 1;
    }
    false
}

/// The numbers of the follow-up threads that the posts from number 900 on link
/// to in the same board (`https?://SERVER/test/read.cgi/BOARD/NUMBER/`), in
/// order of first appearance, without duplicates and without the current
/// thread's own number.
pub fn find_next_thread_candidates(current_board_url: &str, current_dat_file: &str, posts: &[Post]) -> (res: Vec<String>)
    ensures
        res@.map_values(|s: String| s@) == next_thread_candidates(current_board_url@, current_dat_file@, posts@.map_values(|p: Post| p@)),
        forall|i: int, j: int| 0 <= i < j < res@.len() ==> res@[i]@ != res@[j]@,
        forall|i: int| 0 <= i < res@.len() ==> res@[i]@ + ".dat"@ != current_dat_file@,
{
    let u = chars_of(current_board_url);
    let parts = board_url_parts_of(&u);
    let (server, board) = match parts {
        None => {
            let r: Vec<String> = Vec::new();
            assert(r@.map_values(|s: String| s@) =~= Seq::<Seq<char>>::empty());
            return r;
        },
        Some(p) => p,
    };
    let cur = chars_of(current_dat_file);
    let https = chars_of("https://");
    let http = chars_of("http://");
    let mid = chars_of("/test/read.cgi/");
    let dat = chars_of(".dat");
    let ghost pv = posts@.map_values(|p: Post| p@);
    let mut keys: Vec<Vec<char>> = Vec::new();
    let ghost mut all: Seq<Seq<char>> = Seq::empty();
    let mut i: usize = 0;
    assert(keys@.map_values(|v: Vec<char>| v@) =~= new_candidates(all, cur@));
    while i < posts.len()
        invariant
            i <= posts.len(),
            pv == posts@.map_values(|p: Post| p@),
            https@ == "https://"@,
            http@ == "http://"@,
            mid@ == "/test/read.cgi/"@,
            dat@ == ".dat"@,
            all == late_post_links(pv.take(i as int), server@, board@),
            keys@.map_values(|v: Vec<char>| v@) == new_candidates(all, cur@),
        decreases posts.len() - i,
    {
        assert(pv.take(i + 1).drop_last() =~= pv.take(i as int));
        if posts[i].num >= 900 {
            let msg = chars_of(posts[i].message.as_str());
            let mut p: usize = 0;
            let ghost before = all;
            while p < msg.len()
                invariant
                    p <= msg.len(),
                    https@ == "https://"@,
                    http@ == "http://"@,
                    mid@ == "/test/read.cgi/"@,
                    dat@ == ".dat"@,
                    before + thread_links_from(msg@, server@, board@, 0) == all + thread_links_from(msg@, server@, board@, p as int),
                    keys@.map_values(|v: Vec<char>| v@) == new_candidates(all, cur@),
                decreases msg.len() - p,
            {
                match thread_link_match(&msg, p, &server, &board, &https, &http, &mid) {
                    Some((a, e, end)) => {
                        let k = slice_chars(&msg, a, e);
                        let ghost all2 = all.push(k@);
                        assert(all2.drop_last() == all);
                        assert(thread_links_from(msg@, server@, board@, p as int) == seq![k@] + thread_links_from(msg@, server@, board@, end as int));
                        assert(all + thread_links_from(msg@, server@, board@, p as int) =~= all2 + thread_links_from(msg@, server@, board@, end as int));
                        let mut kd = slice_chars(&k, 0, k.len());
                        append_chars(&mut kd, &dat);
                        assert(kd@ =~= k@ + ".dat"@);
                        let is_cur = chars_equal(&kd, &cur);
                        if !is_cur && !contains_key(&keys, &k) {
                            let ghost old_keys = keys@;
                            keys.push(k);
                            assert(keys@.map_values(|v: Vec<char>| v@) =~= old_keys.map_values(|v: Vec<char>| v@).push(k@));
                        }
                        proof {
                            all = all2;
                        }
                        p = end;
                    },
                    None => {
                        p = p + 1;
                    },
                }
            }
            assert(thread_links_from(msg@, server@, board@, p as int) == Seq::<Seq<char>>::empty());
            assert(all =~= before + thread_links_from(msg@, server@, board@, 0));
        }
        i = i + 1;
    }
    assert(pv.take(posts.len() as int) =~= pv);
    let mut res: Vec<String> = Vec::new();
    let mut j: usize = 0;
    while j < keys.len()
        invariant
            j <= keys.len(),
            res@.map_values(|s: String| s@) =~= keys@.take(j as int).map_values(|v: Vec<char>| v@),
        decreases keys.len() - j,
    {
        let s = string_from_chars(keys[j].as_slice());
        let ghost old_res = res@;
        res.push(s);
        assert(res@.map_values(|s: String| s@) =~= old_res.map_values(|s: String| s@).push(keys@[j as int]@));
        assert(keys@.take(j + 1).map_values(|v: Vec<char>| v@) =~= keys@.take(j as int).map_values(|v: Vec<char>| v@).push(keys@[j as int]@));
        j = j + 1;
    }
    assert(keys@.take(keys.len() as int) =~= keys@);
    proof {
        lemma_new_candidates_distinct(all, cur@);
        let rv = res@.map_values(|s: String| s@);
        assert(rv == new_candidates(all, cur@));
        assert forall|i: int, j: int| 0 <= i < j < res@.len() implies res@[i]@ != res@[j]@ by {
            assert(rv[i] == res@[i]@ && rv[j] == res@[j]@);
        }
        assert forall|i: int| 0 <= i < res@.len() implies res@[i]@ + ".dat"@ != current_dat_file@ by {
            assert(rv[i] == res@[i]@);
        }
    }
    res
}

proof fn lemma_new_candidates_distinct(keys: Seq<Seq<char>>, cur: Seq<char>)
    ensures
        forall|i: int, j: int| 0 <= i < j < new_candidates(keys, cur).len() ==> new_candidates(keys, cur)[i] != new_candidates(keys, cur)[j],
        forall|i: int| 0 <= i < new_candidates(keys, cur).len() ==> new_candidates(keys, cur)[i] + ".dat"@ != cur,
    decreases keys.len(),
{
    if keys.len() > 0 {
        lemma_new_candidates_distinct(keys.drop_last(), cur);
        let r = new_candidates(keys.drop_last(), cur);
        let k = keys.last();
        if !(k + ".dat"@ == cur || r.contains(k)) {
            assert forall|i: int, j: int| 0 <= i < j < r.push(k).len() implies r.push(k)[i] != r.push(k)[j] by {
                if j == r.len() {
                    assert(r[i] == r.push(k)[i]);
                    if r[i] == k {
                        assert(r.contains(k));
                    }
                }
            }
        }
    }
}


/// The content of the first `<title>..</title>` from `p` on (case-insensitive).
pub open spec fn title_tag_from(s: Seq<char>, p: int) -> Option<(int, int)>
    decreases s.len() - p,
{
    if p < 0 || p >= s.len() {
        None
    } else if ci_lit_at(s, p, "<title>"@) && first_ci_lit_from(s, "</title>"@, p + 7) is Some {
        Some((p + 7, first_ci_lit_from(s, "</title>"@, p + 7)->0))
    } else {
        title_tag_from(s, p + 1)
    }
}

/// `\s*[-|]\s*5ch\.(net|io)` matches at `i` (case-insensitive).
pub open spec fn site_suffix_at(t: Seq<char>, i: int) -> bool {
    let j = skip_ws(t, i);
    let k = skip_ws(t, j + 1);
    0 <= i && j < t.len() && (t[j] == '-' || t[j] == '|') && ci_lit_at(t, k, "5ch."@) && (ci_lit_at(t, k + 4, "net"@)
        || ci_lit_at(t, k + 4, "io"@))
}

/// Where the site suffix (`- 5ch.net` and all after it) begins; `t.len()` when absent.
pub open spec fn site_suffix_start(t: Seq<char>, i: int) -> int
    decreases t.len() - i,
{
    if i < 0 || i >= t.len() {
        t.len() as int
    } else if site_suffix_at(t, i) {
        i
    } else {
        site_suffix_start(t, i + 1)
    }
}

/// A page's title: the first `<title>` element's text, trimmed, without a
/// trailing site suffix such as ` - 5ch.net` (with `-` or `|`); empty when
/// there is no title element.
pub open spec fn page_title(html: Seq<char>) -> Seq<char> {
    match title_tag_from(html, 0) {
        None => Seq::empty(),
        Some((a, b)) => {
            let t = trim(html.subrange(a, b));
            trim(t.take(site_suffix_start(t, 0)))
        },
    }
}

fn title_tag_match(s: &Vec<char>) -> (res: Option<(usize, usize)>)
    ensures
        match res {
            Some((a, b)) => title_tag_from(s@, 0) == Some((a as int, b as int)) && a <= b <= s.len(),
            None => title_tag_from(s@, 0) is None,
        },
{
    let open = chars_of("<title>");
    let close = chars_of("</title>");
    proof {
        reveal_strlit("<title>");
        reveal_strlit("</title>");
    }
    let mut p: usize = 0;
    while p < s.len()
        invariant
            p <= s.len(),
            open@ == "<title>"@,
            close@ == "</title>"@,
            open@.len() == 7,
            title_tag_from(s@, 0) == title_tag_from(s@, p as int),
        decreases s.len() - p,
    {
        if match_ci_lit(s, p, &open) {
            match first_ci_lit_match(s, &close, p + 7) {
                Some(c) => {
                    return Some((p + 7, c));
                },
                None => {},
            }
        }
        p = p + 1;
    }
    None
}

fn site_suffix_match(t: &Vec<char>, i: usize, five: &Vec<char>, net: &Vec<char>, io: &Vec<char>) -> (res: bool)
    requires
        i < t.len(),
        five@ == "5ch."@,
        five@.len() == 4,
        net@ == "net"@,
        io@ == "io"@,
    ensures
        res == site_suffix_at(t@, i as int),
{
    let j = skip_whitespace(t, i);
    if !(j < t.len() && (t[j] == '-' || t[j] == '|')) {
        return false;
    }
    let k = skip_whitespace(t, j + 1);
    if !match_ci_lit(t, k, five) {
        return false;
    }
    match_ci_lit(t, k + 4, net) || match_ci_lit(t, k + 4, io)
}

/// A page's `<title>`, trimmed and without a trailing ` - 5ch.net`-style
/// suffix (`-` or `|`, then `5ch.net` or `5ch.io`); empty when there is none.
pub fn extract_title(html_content: &str) -> (res: String)
    ensures
        res@ == page_title(html_content@),
{
    let s = chars_of(html_content);
    let (a, b) = match title_tag_match(&s) {
        None => {
            return String::new();
        },
        Some(r) => r,
    };
    let raw = slice_chars(&s, a, b);
    let t = trim_chars(&raw);
    let five = chars_of("5ch.");
    let net = chars_of("net");
    let io = chars_of("io");
    proof {
        reveal_strlit("5ch.");
        reveal_strlit("net");
        reveal_strlit("io");
    }
    let mut i: usize = 0;
    while i < t.len() && !site_suffix_match(&t, i, &five, &net, &io)
        invariant
            i <= t.len(),
            five@ == "5ch."@,
            five@.len() == 4,
            net@ == "net"@,
            io@ == "io"@,
            site_suffix_start(t@, 0) == site_suffix_start(t@, i as int),
        decreases t.len() - i,
    {
        i = i + 1;
    }
    let head = slice_chars(&t, 0, i);
    assert(head@ == t@.take(site_suffix_start(t@, 0)));
    let r = trim_chars(&head);
    string_from_chars(r.as_slice())
}

/// The `.dat` name of a follow-up thread's number.
pub fn follow_up_dat_file(dat_key: &str) -> (res: String)
    ensures
        res@ == dat_key@ + ".dat"@,
{
    let mut v = chars_of(dat_key);
    crate::text::append_str(&mut v, ".dat");
    string_from_chars(v.as_slice())
}

/// The title under which a follow-up thread is added to the history: the
/// title read from its page, unless that is empty (then it is not added).
pub fn follow_up_title(title: String) -> (res: Option<String>)
    ensures
        title@.len() > 0 ==> res == Some(title),
        title@.len() == 0 ==> res is None,
{
    if title.as_str().is_empty() {
        None
    } else {
        Some(title)
    }
}

} // verus!

verus! {

pub open spec fn is_late_post(p: PostView) -> bool {
    p.num >= 900
}

/// Law: only the posts numbered 900 and above count: the candidates of a
/// thread are those of its posts from number 900 on.
pub proof fn lemma_candidates_from_late_posts_only(board_url: Seq<char>, current_dat_file: Seq<char>, posts: Seq<PostView>)
    ensures
        next_thread_candidates(board_url, current_dat_file, posts) == next_thread_candidates(
            board_url,
            current_dat_file,
            posts.filter(|p: PostView| is_late_post(p)),
        ),
{
    if let Some((server, board)) = board_url_parts(board_url) {
        lemma_late_links_filter(posts, server, board);
    }
}

proof fn lemma_late_links_filter(posts: Seq<PostView>, server: Seq<char>, board: Seq<char>)
    ensures
        late_post_links(posts, server, board) == late_post_links(posts.filter(|p: PostView| is_late_post(p)), server, board),
    decreases posts.len(),
{
    let f = |p: PostView| is_late_post(p);
    reveal(Seq::filter);
    if posts.len() > 0 {
        let init = posts.drop_last();
        lemma_late_links_filter(init, server, board);
        let fi = init.filter(f);
        assert(posts.filter(f) == if f(posts.last()) { fi.push(posts.last()) } else { fi });
        if f(posts.last()) {
            assert(fi.push(posts.last()).drop_last() =~= fi);
        }
    }
}

} // verus!

verus! {

/// No link that starts before `p` runs past `p`: a link at `p` is not inside
/// an earlier one.
pub open spec fn link_uncovered(s: Seq<char>, server: Seq<char>, board: Seq<char>, p: int) -> bool {
    forall|q: int|
        0 <= q < p ==> match #[trigger] thread_link_at(s, q, server, board) {
            Some((_a, _e, end)) => end <= p,
            None => true,
        }
}

proof fn lemma_digit_run_end_bound(s: Seq<char>, i: int)
    requires
        0 <= i,
    ensures
        i <= s.len() ==> i <= digit_run_end(s, i) <= s.len(),
        i > s.len() ==> digit_run_end(s, i) == s.len(),
    decreases s.len() - i,
{
    if i < s.len() && is_nd(s[i]) {
        lemma_digit_run_end_bound(s, i + 1);
    }
}

proof fn lemma_links_from_has(s: Seq<char>, server: Seq<char>, board: Seq<char>, i: int, p: int)
    requires
        0 <= i <= p,
        thread_link_at(s, p, server, board) is Some,
        link_uncovered(s, server, board, p),
    ensures
        ({
            let (a, e, _end) = thread_link_at(s, p, server, board)->0;
            thread_links_from(s, server, board, i).contains(s.subrange(a, e))
        }),
    decreases s.len() - i,
{
    let (a, e, end) = thread_link_at(s, p, server, board)->0;
    let d = a - 1;
    assert(p <= d < s.len());
    if i < s.len() {
        match thread_link_at(s, i, server, board) {
            Some((a0, e0, end0)) => {
                let d0 = a0 - 1;
                lemma_digit_run_end_bound(s, d0 + 1);
                assert(i < end0 <= s.len());
                let rest = thread_links_from(s, server, board, end0);
                assert(thread_links_from(s, server, board, i) == seq![s.subrange(a0, e0)] + rest);
                if i == p {
                    assert(thread_links_from(s, server, board, i)[0] == s.subrange(a, e));
                } else {
                    assert(end0 <= p);
                    lemma_links_from_has(s, server, board, end0, p);
                    let k = choose|k: int| 0 <= k < rest.len() && rest[k] == s.subrange(a, e);
                    assert(thread_links_from(s, server, board, i)[k + 1] == s.subrange(a, e));
                }
            },
            None => {
                lemma_links_from_has(s, server, board, i + 1, p);
            },
        }
    }
}

proof fn lemma_late_links_has(posts: Seq<PostView>, server: Seq<char>, board: Seq<char>, j: int, n: Seq<char>)
    requires
        0 <= j < posts.len(),
        posts[j].num >= 900,
        thread_links_from(posts[j].message, server, board, 0).contains(n),
    ensures
        late_post_links(posts, server, board).contains(n),
    decreases posts.len(),
{
    let init = posts.drop_last();
    let rest = late_post_links(init, server, board);
    if j == posts.len() - 1 {
        let mine = thread_links_from(posts.last().message, server, board, 0);
        let k = choose|k: int| 0 <= k < mine.len() && mine[k] == n;
        assert(late_post_links(posts, server, board) == rest + mine);
        assert((rest + mine)[rest.len() + k] == n);
    } else {
        assert(init[j] == posts[j]);
        lemma_late_links_has(init, server, board, j, n);
        let k = choose|k: int| 0 <= k < rest.len() && rest[k] == n;
        if posts.last().num >= 900 {
            let mine = thread_links_from(posts.last().message, server, board, 0);
            assert((rest + mine)[k] == n);
        }
    }
}

proof fn lemma_new_candidates_has(keys: Seq<Seq<char>>, cur: Seq<char>, n: Seq<char>)
    requires
        keys.contains(n),
        n + ".dat"@ != cur,
    ensures
        new_candidates(keys, cur).contains(n),
    decreases keys.len(),
{
    let init = keys.drop_last();
    let r = new_candidates(init, cur);
    if keys.last() == n {
        if !r.contains(n) {
            assert(new_candidates(keys, cur) == r.push(n));
            assert(r.push(n)[r.len() as int] == n);
        }
    } else {
        let k = choose|k: int| 0 <= k < keys.len() && keys[k] == n;
        assert(init[k] == n);
        lemma_new_candidates_has(init, cur, n);
        if !(keys.last() + ".dat"@ == cur || r.contains(keys.last())) {
            let k2 = choose|k2: int| 0 <= k2 < r.len() && r[k2] == n;
            assert(r.push(keys.last())[k2] == n);
        }
    }
}

/// The server of a board URL (see `board_url_parts`).
pub open spec fn url_server(u: Seq<char>) -> Seq<char> {
    match board_url_parts(u) {
        Some((server, _board)) => server,
        None => Seq::empty(),
    }
}

/// The board name of a board URL (see `board_url_parts`).
pub open spec fn url_board(u: Seq<char>) -> Seq<char> {
    match board_url_parts(u) {
        Some((_server, board)) => board,
        None => Seq::empty(),
    }
}

/// Law: every link into the same board (`https?://SERVER/test/read.cgi/BOARD/N/`)
/// anywhere in a post numbered 900 or above, and not inside an earlier link,
/// gives its number `N` as a candidate, unless `N.dat` is the current thread:
/// all links of a post are read, not only the first.
pub proof fn lemma_every_late_link_is_candidate(board_url: Seq<char>, current_dat_file: Seq<char>, posts: Seq<PostView>, j: int, p: int)
    requires
        board_url_parts(board_url) is Some,
        0 <= j < posts.len(),
        posts[j].num >= 900,
        0 <= p,
        thread_link_at(posts[j].message, p, url_server(board_url), url_board(board_url)) is Some,
        link_uncovered(posts[j].message, url_server(board_url), url_board(board_url), p),
    ensures
        ({
            let (server, board) = board_url_parts(board_url)->0;
            let (a, e, _end) = thread_link_at(posts[j].message, p, server, board)->0;
            let n = posts[j].message.subrange(a, e);
            n + ".dat"@ != current_dat_file ==> next_thread_candidates(board_url, current_dat_file, posts).contains(n)
        }),
{
    let (server, board) = board_url_parts(board_url)->0;
    let msg = posts[j].message;
    let (a, e, _end) = thread_link_at(msg, p, server, board)->0;
    let n = msg.subrange(a, e);
    if n + ".dat"@ != current_dat_file {
        lemma_links_from_has(msg, server, board, 0, p);
        lemma_late_links_has(posts, server, board, j, n);
        lemma_new_candidates_has(late_post_links(posts, server, board), current_dat_file, n);
    }
}

} // verus!

verus! {

/// Where the link at `q` ends (0 when there is none).
pub open spec fn link_end(s: Seq<char>, q: int, server: Seq<char>, board: Seq<char>) -> int {
    match thread_link_at(s, q, server, board) {
        Some((_a, _e, end)) => end,
        None => 0,
    }
}

proof fn lemma_digit_run_all_nd(s: Seq<char>, i: int)
    requires
        0 <= i,
    ensures
        forall|k: int| i <= k < digit_run_end(s, i) ==> is_nd(#[trigger] s[k]),
    decreases s.len() - i,
{
    if i < s.len() && is_nd(s[i]) {
        lemma_digit_run_all_nd(s, i + 1);
    }
}

/// A link never starts inside another when neither the server nor the board
/// name holds `http`.
proof fn lemma_links_do_not_nest(s: Seq<char>, server: Seq<char>, board: Seq<char>, q: int, p: int)
    requires
        !contains_lit(server, "http"@),
        !contains_lit(board, "http"@),
        0 <= q < p,
        thread_link_at(s, q, server, board) is Some,
        lit_at(s, p, "http"@),
    ensures
        p >= link_end(s, q, server, board),
{
    reveal_strlit("http");
    reveal_strlit("https://");
    reveal_strlit("http://");
    reveal_strlit("/test/read.cgi/");
    let https = lit_at(s, q, "https://"@);
    let a = if https { q + 8 } else { q + 7 };
    let b = a + server.len();
    let c = b + 15;
    let d = c + board.len();
    let e = digit_run_end(s, d + 1);
    let end = link_end(s, q, server, board);
    assert("http"@[0] == 'h' && "http"@[1] == 't' && "http"@[2] == 't' && "http"@[3] == 'p');
    assert(s[p + 0] == "http"@[0] && s[p + 1] == "http"@[1] && s[p + 2] == "http"@[2] && s[p + 3] == "http"@[3]);
    if p < end {
        if p < a {
            if https {
                assert(s[q + (p - q)] == "https://"@[p - q]);
            } else {
                assert(s[q + (p - q)] == "http://"@[p - q]);
            }
        } else if p < b {
            assert(s[a + (p - a)] == server[p - a]);
            if p + 4 <= b {
                assert forall|x: int| 0 <= x < 4 implies server[p - a + x] == "http"@[x] by {
                    assert(s[a + (p - a + x)] == server[p - a + x]);
                }
                assert(lit_at(server, p - a, "http"@));
            } else {
                assert(s[b + 0] == "/test/read.cgi/"@[0]);
            }
        } else if p < c {
            assert(s[b + (p - b)] == "/test/read.cgi/"@[p - b]);
        } else if p < d {
            assert(s[c + (p - c)] == board[p - c]);
            if p + 4 <= d {
                assert forall|x: int| 0 <= x < 4 implies board[p - c + x] == "http"@[x] by {
                    assert(s[c + (p - c + x)] == board[p - c + x]);
                }
                assert(lit_at(board, p - c, "http"@));
            } else {
                assert(s[d] == '/');
            }
        } else if p == d {
            assert(s[d] == '/');
        } else if p < e {
            lemma_digit_run_all_nd(s, d + 1);
            assert(is_nd(s[p]));
        } else {
            assert(s[e] == '/');
        }
    }
}

/// Law: on a board whose server and name do not hold `http` (as on 5ch), every
/// link into the same board anywhere in a post numbered 900 or above gives its
/// number as a candidate, unless it is the current thread's.
pub proof fn lemma_every_late_link_is_candidate_on_plain_board(
    board_url: Seq<char>,
    current_dat_file: Seq<char>,
    posts: Seq<PostView>,
    j: int,
    p: int,
)
    requires
        board_url_parts(board_url) is Some,
        !contains_lit(url_server(board_url), "http"@),
        !contains_lit(url_board(board_url), "http"@),
        0 <= j < posts.len(),
        posts[j].num >= 900,
        0 <= p,
        thread_link_at(posts[j].message, p, url_server(board_url), url_board(board_url)) is Some,
    ensures
        ({
            let (a, e, _end) = thread_link_at(posts[j].message, p, url_server(board_url), url_board(board_url))->0;
            let n = posts[j].message.subrange(a, e);
            n + ".dat"@ != current_dat_file ==> next_thread_candidates(board_url, current_dat_file, posts).contains(n)
        }),
{
    reveal_strlit("https://");
    reveal_strlit("http://");
    reveal_strlit("http");
    let s = posts[j].message;
    let server = url_server(board_url);
    let board = url_board(board_url);
    assert(lit_at(s, p, "http"@)) by {
        if lit_at(s, p, "https://"@) {
            assert forall|x: int| 0 <= x < 4 implies s[p + x] == "http"@[x] by {
                assert(s[p + x] == "https://"@[x]);
            }
        } else {
            assert forall|x: int| 0 <= x < 4 implies s[p + x] == "http"@[x] by {
                assert(s[p + x] == "http://"@[x]);
            }
        }
    }
    assert forall|q: int| 0 <= q < p implies match #[trigger] thread_link_at(s, q, server, board) {
        Some((_a, _e, end)) => end <= p,
        None => true,
    } by {
        if thread_link_at(s, q, server, board) is Some {
            lemma_links_do_not_nest(s, server, board, q, p);
        }
    }
    assert(link_uncovered(s, server, board, p));
    lemma_every_late_link_is_candidate(board_url, current_dat_file, posts, j, p);
}

} // verus!
