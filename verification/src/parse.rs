//! Posts out of a thread's HTML page: tag stripping, the restoration of
//! `ttp://` links, and the reading of each post's fields.
use vstd::prelude::*;

use crate::foreign::{decode_html_entities, html_entities_decoded, scrape_elements, scraped, string_from_chars, strings_view};
use crate::models::{Post, PostView};
use crate::text::{
    append_chars, chars_of, contains_chars, contains_lit, find_char, find_char_from, lit_at,
    match_lit, parse_u32, parse_u32_chars, replace_all, replace_chars, slice_chars, trim,
    trim_chars,
};

verus! {

/// What the HTML parser reports of one `div` element of a page: its `class`
/// attribute, and of the first descendant matching each of the post's field
/// selectors, its text (`postid`, `date`, `uid`) or its outer HTML
/// (`postusername`, `post-content`).
#[derive(Debug)]
pub struct ScrapedDiv {
    pub class: Option<String>,
    pub postid_text: Option<String>,
    pub username_html: Option<String>,
    pub date_text: Option<String>,
    pub uid_text: Option<String>,
    pub content_html: Option<String>,
}

/// One element that the HTML parser found: an attribute's value and one
/// field per selector asked for.
#[derive(Debug)]
pub struct ScrapedElement {
    pub attr: Option<String>,
    pub fields: Vec<Option<String>>,
}

/// The selectors of a post's fields, in the order of `ScrapedDiv`'s fields.
pub open spec fn post_field_selectors() -> Seq<Seq<char>> {
    seq!["span.postid"@, "span.postusername"@, "span.date"@, "span.uid"@, "div.post-content"@]
}

/// Which of a post's fields are read as outer HTML (the others as text).
pub open spec fn post_field_outer() -> Seq<bool> {
    seq![false, true, false, false, true]
}

/// A `div` and its post fields, from what the parser found of it.
pub open spec fn div_of_element(e: ScrapedElement) -> ScrapedDiv {
    ScrapedDiv {
        class: e.attr,
        postid_text: e.fields@[0],
        username_html: e.fields@[1],
        date_text: e.fields@[2],
        uid_text: e.fields@[3],
        content_html: e.fields@[4],
    }
}

/// Every `div` element of a page, in document order, with its `class`
/// attribute and its post fields (see `post_field_selectors`).
pub open spec fn scraped_divs(html: Seq<char>) -> Seq<ScrapedDiv> {
    match scraped(html, "div"@, "class"@, post_field_selectors(), post_field_outer()) {
        Some(es) => es.map_values(|e: ScrapedElement| div_of_element(e)),
        None => Seq::empty(),
    }
}

fn copy_opt_string(o: &Option<String>) -> (res: Option<String>)
    ensures
        res == *o,
{
    match o {
        Some(x) => Some(x.clone()),
        None => None,
    }
}

/// The `div` elements of a page with their post fields (see `scraped_divs`).
pub fn scrape_divs(html: &str) -> (res: Vec<ScrapedDiv>)
    ensures
        res@ == scraped_divs(html@),
{
    let mut selectors: Vec<String> = Vec::new();
    selectors.push("span.postid".to_owned());
    selectors.push("span.postusername".to_owned());
    selectors.push("span.date".to_owned());
    selectors.push("span.uid".to_owned());
    selectors.push("div.post-content".to_owned());
    let outer: Vec<bool> = vec![false, true, false, false, true];
    assert(strings_view(selectors@) =~= post_field_selectors());
    assert(outer@ =~= post_field_outer());
    let found = scrape_elements(html, "div", "class", &selectors, &outer);
    let mut res: Vec<ScrapedDiv> = Vec::new();
    match found {
        None => {
            assert(res@ =~= scraped_divs(html@));
        },
        Some(es) => {
            let ghost all = es@.map_values(|e: ScrapedElement| div_of_element(e));
            let mut i: usize = 0;
            while i < es.len()
                invariant
                    i <= es.len(),
                    all == es@.map_values(|e: ScrapedElement| div_of_element(e)),
                    forall|k: int| 0 <= k < es@.len() ==> (#[trigger] es@[k]).fields@.len() == 5,
                    res@ =~= all.take(i as int),
                decreases es.len() - i,
            {
                let e = &es[i];
                let d = ScrapedDiv {
                    class: copy_opt_string(&e.attr),
                    postid_text: copy_opt_string(&e.fields[0]),
                    username_html: copy_opt_string(&e.fields[1]),
                    date_text: copy_opt_string(&e.fields[2]),
                    uid_text: copy_opt_string(&e.fields[3]),
                    content_html: copy_opt_string(&e.fields[4]),
                };
                assert(d == div_of_element(es@[i as int]));
                res.push(d);
                i = i + 1;
            }
            assert(all.take(i as int) =~= all);
        },
    }
    res
}

/// Index of the last `c` in `s[..j]` (`-1` when there is none).
pub open spec fn rfind_char(s: Seq<char>, c: char, j: int) -> int
    decreases j,
{
    if j <= 0 || j > s.len() {
        -1
    } else if s[j - 1] == c {
        j - 1
    } else {
        rfind_char(s, c, j - 1)
    }
}

/// The inner HTML of an element's outer HTML: what lies between the first `>`
/// and the last `<`, or nothing when there is no such pair.
pub open spec fn inner_of(outer: Seq<char>) -> Seq<char> {
    let a = find_char(outer, '>', 0);
    let b = rfind_char(outer, '<', outer.len() as int);
    if a < outer.len() && b > a { outer.subrange(a + 1, b) } else { Seq::empty() }
}

pub open spec fn opt_inner(outer: Option<Seq<char>>) -> Seq<char> {
    match outer {
        Some(o) => inner_of(o),
        None => Seq::empty(),
    }
}

pub open spec fn opt_view(o: Option<String>) -> Option<Seq<char>> {
    match o {
        Some(s) => Some(s@),
        None => None,
    }
}

pub fn inner_chars(outer: &Vec<char>) -> (res: Vec<char>)
    ensures
        res@ == inner_of(outer@),
{
    let a = find_char_from(outer, '>', 0);
    let mut b = outer.len();
    while b > 0 && outer[b - 1] != '<'
        invariant
            b <= outer.len(),
            rfind_char(outer@, '<', outer.len() as int) == rfind_char(outer@, '<', b as int),
        decreases b,
    {
        b = b - 1;
    }
    if b > 0 && a < outer.len() && b - 1 > a {
        slice_chars(outer, a + 1, b - 1)
    } else {
        Vec::new()
    }
}

/// The inner HTML of an element, given its outer HTML (`None`: no element).
pub fn inner_html(node: Option<&str>) -> (res: String)
    ensures
        res@ == match node {
            Some(o) => inner_of(o@),
            None => Seq::empty(),
        },
{
    match node {
        None => String::new(),
        Some(o) => {
            let v = chars_of(o);
            let r = inner_chars(&v);
            string_from_chars(r.as_slice())
        },
    }
}

/// Index of the `>` that closes a tag `<[^>]+>` starting at `i`.
pub open spec fn tag_close_at(s: Seq<char>, i: int) -> Option<int> {
    if 0 <= i < s.len() && s[i] == '<' {
        let j = find_char(s, '>', i + 1);
        if i + 1 < j < s.len() { Some(j) } else { None }
    } else {
        None
    }
}

/// `s[i..]` with each tag `<[^>]+>` replaced by `rep`, tags taken left to
/// right without overlap.
pub open spec fn strip_tags_from(s: Seq<char>, rep: Seq<char>, i: int) -> Seq<char>
    decreases s.len() - i,
{
    if i < 0 || i >= s.len() {
        Seq::empty()
    } else {
        match tag_close_at(s, i) {
            Some(j) => if i < j < s.len() { rep + strip_tags_from(s, rep, j + 1) } else { Seq::empty() },
            None => seq![s[i]] + strip_tags_from(s, rep, i + 1),
        }
    }
}

/// The pattern `<[^>]+>`'s `replace_all(s, rep)`.
pub open spec fn strip_tags(s: Seq<char>, rep: Seq<char>) -> Seq<char> {
    strip_tags_from(s, rep, 0)
}

/// Replaces each tag `<[^>]+>` in `s` by `rep`.
pub fn strip_tags_chars(s: &Vec<char>, rep: &Vec<char>) -> (res: Vec<char>)
    ensures
        res@ == strip_tags(s@, rep@),
{
    let mut out: Vec<char> = Vec::new();
    let mut i: usize = 0;
    while i < s.len()
        invariant
            i <= s.len(),
            out@ + strip_tags_from(s@, rep@, i as int) == strip_tags(s@, rep@),
        decreases s.len() - i,
    {
        let mut closed = false;
        if s[i] == '<' {
            let j = find_char_from(s, '>', i + 1);
            if i + 1 < j && j < s.len() {
                assert(out@ + strip_tags_from(s@, rep@, i as int) == (out@ + rep@) + strip_tags_from(s@, rep@, j + 1));
                append_chars(&mut out, rep);
                i = j + 1;
                closed = true;
            }
        }
        if !closed {
            assert(out@ + strip_tags_from(s@, rep@, i as int) == out@.push(s@[i as int]) + strip_tags_from(s@, rep@, i + 1));
            out.push(s[i]);
            i = i + 1;
        }
    }
    assert(out@ + Seq::<char>::empty() == out@);
    out
}

/// Length of the `ttps?://` at `i` (0 when there is none).
pub open spec fn unlinked_len(s: Seq<char>, i: int) -> int {
    if lit_at(s, i, "ttps://"@) {
        7
    } else if lit_at(s, i, "ttp://"@) {
        6
    } else {
        0
    }
}

/// `s[i..]` with an `h` put before each `ttps?://` that does not follow an `h`.
pub open spec fn restore_from(s: Seq<char>, i: int) -> Seq<char>
    decreases s.len() - i,
{
    if i < 0 || i >= s.len() {
        Seq::empty()
    } else {
        let m = unlinked_len(s, i);
        if m > 0 && i + m <= s.len() {
            let h = if i > 0 && s[i - 1] == 'h' { Seq::empty() } else { seq!['h'] };
            h + s.subrange(i, i + m) + restore_from(s, i + m)
        } else {
            seq![s[i]] + restore_from(s, i + 1)
        }
    }
}

/// 5ch's "anti-link" `ttp://` and `ttps://` turned back into URLs.
pub open spec fn restored(s: Seq<char>) -> Seq<char> {
    restore_from(s, 0)
}

pub fn restore_h_chars(s: &Vec<char>) -> (res: Vec<char>)
    ensures
        res@ == restored(s@),
{
    let p7 = chars_of("ttps://");
    let p6 = chars_of("ttp://");
    proof {
        reveal_strlit("ttps://");
        reveal_strlit("ttp://");
    }
    let mut out: Vec<char> = Vec::new();
    let mut i: usize = 0;
    while i < s.len()
        invariant
            i <= s.len(),
            p7@ == "ttps://"@,
            p6@ == "ttp://"@,
            p7@.len() == 7,
            p6@.len() == 6,
            out@ + restore_from(s@, i as int) == restored(s@),
        decreases s.len() - i,
    {
        let m: usize = if match_lit(s, i, &p7) { 7 } else if match_lit(s, i, &p6) { 6 } else { 0 };
        assert(m == unlinked_len(s@, i as int));
        if m > 0 {
            let ghost h = if i > 0 && s@[i - 1] == 'h' { Seq::<char>::empty() } else { seq!['h'] };
            assert(out@ + restore_from(s@, i as int) == ((out@ + h) + s@.subrange(i as int, i + m)) + restore_from(s@, i + m));
            if !(i > 0 && s[i - 1] == 'h') {
                out.push('h');
            }
            let part = slice_chars(s, i, i + m);
            append_chars(&mut out, &part);
            i = i + m;
        } else {
            assert(out@ + restore_from(s@, i as int) == out@.push(s@[i as int]) + restore_from(s@, i + 1));
            out.push(s[i]);
            i = i + 1;
        }
    }
    assert(out@ + Seq::<char>::empty() == out@);
    out
}

/// Puts back the `h` of 5ch's "anti-link" `ttp://`/`ttps://`.
pub fn restore_h_prefix(text: &str) -> (res: String)
    ensures
        res@ == restored(text@),
{
    let v = chars_of(text);
    let r = restore_h_chars(&v);
    string_from_chars(r.as_slice())
}

/// A post body's HTML as plain text: `<br>` to newlines, tags to spaces,
/// character references decoded, trimmed (no `h` restoration).
pub open spec fn plain_text(html: Seq<char>) -> Seq<char> {
    trim(html_entities_decoded(strip_tags(replace_all(html, "<br>"@, "\n"@), " "@)))
}

pub fn plain_text_chars(html: &Vec<char>) -> (res: Vec<char>)
    ensures
        res@ == plain_text(html@),
{
    let br = chars_of("<br>");
    let nl = chars_of("\n");
    let sp = chars_of(" ");
    proof {
        reveal_strlit("<br>");
    }
    let a = replace_chars(html, &br, &nl);
    let b = strip_tags_chars(&a, &sp);
    let decoded = decode_html_entities(string_from_chars(b.as_slice()).as_str());
    let c = chars_of(decoded.as_str());
    trim_chars(&c)
}

/// A post body's HTML as the text shown: the plain text with links restored.
pub open spec fn cleaned_content(html: Seq<char>) -> Seq<char> {
    restored(plain_text(html))
}

/// A `div` whose class contains `clear post`.
pub open spec fn is_post_node(d: ScrapedDiv) -> bool {
    match d.class {
        Some(c) => contains_lit(c@, "clear post"@),
        None => false,
    }
}

pub fn is_post_div(d: &ScrapedDiv) -> (res: bool)
    ensures
        res == is_post_node(*d),
{
    match &d.class {
        Some(c) => {
            let cc = chars_of(c.as_str());
            let pat = chars_of("clear post");
            contains_chars(&cc, &pat)
        },
        None => false,
    }
}

/// The positions of the posts among the page's `div` elements.
pub open spec fn post_positions(divs: Seq<ScrapedDiv>) -> Seq<int>
    decreases divs.len(),
{
    if divs.len() == 0 {
        Seq::empty()
    } else {
        let rest = post_positions(divs.drop_last());
        if is_post_node(divs.last()) { rest.push(divs.len() - 1) } else { rest }
    }
}

/// The positions, among the page's `div` elements, of the posts (the `div`s
/// whose class contains `clear post`), in document order.
pub fn post_nodes(divs: &Vec<ScrapedDiv>) -> (res: Vec<usize>)
    ensures
        res@.map_values(|k: usize| k as int) == post_positions(divs@),
{
    let mut res: Vec<usize> = Vec::new();
    let mut i: usize = 0;
    assert(res@.map_values(|k: usize| k as int) =~= post_positions(divs@.take(0)));
    while i < divs.len()
        invariant
            i <= divs.len(),
            res@.map_values(|k: usize| k as int) == post_positions(divs@.take(i as int)),
        decreases divs.len() - i,
    {
        assert(divs@.take(i + 1).drop_last() == divs@.take(i as int));
        if is_post_div(&divs[i]) {
            res.push(i);
            assert(res@.map_values(|k: usize| k as int) =~= res@.drop_last().map_values(|k: usize| k as int).push(i as int));
        }
        i = i + 1;
    }
    assert(divs@.take(divs.len() as int) == divs@);
    res
}

pub open spec fn opt_trimmed(o: Option<String>) -> Seq<char> {
    match o {
        Some(s) => trim(s@),
        None => Seq::empty(),
    }
}

/// The poster's name shown for a post: the name's HTML without tags, trimmed,
/// or `名無し` when that is empty or there is no name element.
pub open spec fn post_name(username_html: Option<String>) -> Seq<char> {
    match username_html {
        Some(h) => {
            let cleaned = trim(strip_tags(inner_of(h@), Seq::empty()));
            if cleaned.len() > 0 { cleaned } else { "名無し"@ }
        },
        None => "名無し"@,
    }
}

/// The post of a `div`, if it is a post with a numeric id.
pub open spec fn post_of_div(d: ScrapedDiv) -> Option<PostView> {
    if !is_post_node(d) {
        None
    } else {
        match d.postid_text {
            None => None,
            Some(id) => match parse_u32(trim(id@)) {
                None => None,
                Some(num) => Some(PostView {
                    num,
                    name: post_name(d.username_html),
                    date: opt_trimmed(d.date_text) + " "@ + opt_trimmed(d.uid_text),
                    message: cleaned_content(opt_inner(opt_view(d.content_html))),
                }),
            },
        }
    }
}

/// The posts of a page's `div` elements, in order.
pub open spec fn posts_of_divs(divs: Seq<ScrapedDiv>) -> Seq<PostView>
    decreases divs.len(),
{
    if divs.len() == 0 {
        Seq::empty()
    } else {
        let rest = posts_of_divs(divs.drop_last());
        match post_of_div(divs.last()) {
            Some(p) => rest.push(p),
            None => rest,
        }
    }
}

pub open spec fn posts_view(ps: Seq<Post>) -> Seq<PostView> {
    ps.map_values(|p: Post| p@)
}

pub fn opt_trimmed_chars(o: &Option<String>) -> (res: Vec<char>)
    ensures
        res@ == opt_trimmed(*o),
{
    match o {
        Some(s) => {
            let v = chars_of(s.as_str());
            trim_chars(&v)
        },
        None => Vec::new(),
    }
}

fn post_name_chars(username_html: &Option<String>) -> (res: Vec<char>)
    ensures
        res@ == post_name(*username_html),
{
    match username_html {
        Some(h) => {
            let hv = chars_of(h.as_str());
            let inner = inner_chars(&hv);
            let empty: Vec<char> = Vec::new();
            let stripped = strip_tags_chars(&inner, &empty);
            let cleaned = trim_chars(&stripped);
            if cleaned.len() > 0 {
                cleaned
            } else {
                chars_of("名無し")
            }
        },
        None => chars_of("名無し"),
    }
}

pub fn content_of_div(content_html: &Option<String>) -> (res: Vec<char>)
    ensures
        res@ == opt_inner(opt_view(*content_html)),
{
    match content_html {
        Some(h) => {
            let hv = chars_of(h.as_str());
            inner_chars(&hv)
        },
        None => Vec::new(),
    }
}

fn post_from_div(d: &ScrapedDiv) -> (res: Option<Post>)
    ensures
        match res {
            Some(p) => post_of_div(*d) == Some(p@),
            None => post_of_div(*d) is None,
        },
{
    if !is_post_div(d) {
        return None;
    }
    let id = match &d.postid_text {
        None => return None,
        Some(id) => id,
    };
    let idv = chars_of(id.as_str());
    let idt = trim_chars(&idv);
    let num = match parse_u32_chars(&idt, 0, idt.len()) {
        None => {
            assert(idt@.subrange(0, idt@.len() as int) == idt@);
            return None;
        },
        Some(n) => n,
    };
    assert(idt@.subrange(0, idt@.len() as int) == idt@);
    let name = post_name_chars(&d.username_html);
    let mut date = opt_trimmed_chars(&d.date_text);
    date.push(' ');
    let uid = opt_trimmed_chars(&d.uid_text);
    append_chars(&mut date, &uid);
    let inner = content_of_div(&d.content_html);
    let plain = plain_text_chars(&inner);
    let message = restore_h_chars(&plain);
    proof {
        reveal_strlit(" ");
        assert(date@ == opt_trimmed(d.date_text) + " "@ + opt_trimmed(d.uid_text));
        assert(num == parse_u32(trim(id@))->0);
        assert(message@ == cleaned_content(opt_inner(opt_view(d.content_html))));
        assert(name@ == post_name(d.username_html));
    }
    Some(Post {
        num,
        name: string_from_chars(name.as_slice()),
        date: string_from_chars(date.as_slice()),
        message: string_from_chars(message.as_slice()),
    })
}

/// The posts among a page's `div` elements.
pub fn posts_from_divs(divs: &Vec<ScrapedDiv>) -> (res: Vec<Post>)
    ensures
        posts_view(res@) == posts_of_divs(divs@),
{
    let mut res: Vec<Post> = Vec::new();
    let mut i: usize = 0;
    assert(posts_view(res@) =~= posts_of_divs(divs@.take(0)));
    while i < divs.len()
        invariant
            i <= divs.len(),
            posts_view(res@) == posts_of_divs(divs@.take(i as int)),
        decreases divs.len() - i,
    {
        assert(divs@.take(i + 1).drop_last() == divs@.take(i as int));
        match post_from_div(&divs[i]) {
            Some(p) => {
                res.push(p);
                assert(posts_view(res@) == posts_view(res@.drop_last()).push(p@));
            },
            None => {},
        }
        i = i + 1;
    }
    assert(divs@.take(divs.len() as int) == divs@);
    res
}

/// The posts of a thread's HTML page.
pub fn parse_posts(html_content: &str) -> (res: Vec<Post>)
    ensures
        posts_view(res@) == posts_of_divs(scraped_divs(html_content@)),
{
    let divs = scrape_divs(html_content);
    posts_from_divs(&divs)
}

} // verus!

verus! {

/// How many `h` the restoration of `s[i..]` puts in.
pub open spec fn restore_count(s: Seq<char>, i: int) -> nat
    decreases s.len() - i,
{
    if i < 0 || i >= s.len() {
        0
    } else {
        let m = unlinked_len(s, i);
        if m > 0 && i + m <= s.len() {
            (if i > 0 && s[i - 1] == 'h' { 0nat } else { 1nat }) + restore_count(s, i + m)
        } else {
            restore_count(s, i + 1)
        }
    }
}

proof fn lemma_restore_len(s: Seq<char>, i: int)
    requires
        0 <= i <= s.len(),
    ensures
        restore_from(s, i).len() == s.len() - i + restore_count(s, i),
    decreases s.len() - i,
{
    if i < s.len() {
        let m = unlinked_len(s, i);
        if m > 0 && i + m <= s.len() {
            lemma_restore_len(s, i + m);
        } else {
            lemma_restore_len(s, i + 1);
        }
    }
}

/// Restoration changes nothing from `i` on where every `ttps?://` already follows an `h`.
proof fn lemma_restore_identity(s: Seq<char>, i: int)
    requires
        0 <= i <= s.len(),
        forall|k: int| i <= k < s.len() && #[trigger] unlinked_len(s, k) > 0 ==> k > 0 && s[k - 1] == 'h',
    ensures
        restore_from(s, i) == s.subrange(i, s.len() as int),
    decreases s.len() - i,
{
    if i < s.len() {
        let m = unlinked_len(s, i);
        if m > 0 && i + m <= s.len() {
            lemma_restore_identity(s, i + m);
            assert(s.subrange(i, s.len() as int) =~= s.subrange(i, i + m) + s.subrange(i + m, s.len() as int));
            assert(restore_from(s, i) == Seq::<char>::empty() + s.subrange(i, i + m) + restore_from(s, i + m));
            assert(Seq::<char>::empty() + s.subrange(i, i + m) =~= s.subrange(i, i + m));
        } else {
            lemma_restore_identity(s, i + 1);
            assert(s.subrange(i, s.len() as int) =~= seq![s[i]] + s.subrange(i + 1, s.len() as int));
        }
    } else {
        assert(s.subrange(i, s.len() as int) =~= Seq::<char>::empty());
    }
}

/// Where the restoration of `s[j..]` begins with `w`, and `w` holds no `h`,
/// `s` has `w` at `j`.
proof fn lemma_restore_prefix(s: Seq<char>, j: int, w: Seq<char>)
    requires
        0 <= j <= s.len(),
        forall|m: int| 0 <= m < w.len() ==> w[m] != 'h',
        lit_at(restore_from(s, j), 0, w),
    ensures
        lit_at(s, j, w),
    decreases w.len(),
{
    if w.len() > 0 {
        let big = restore_from(s, j);
        assert(big[0] == w[0]);
        assert(j < s.len());
        let m = unlinked_len(s, j);
        if m > 0 && j + m <= s.len() {
            if !(j > 0 && s[j - 1] == 'h') {
                assert(big == seq!['h'] + s.subrange(j, j + m) + restore_from(s, j + m));
                assert(big[0] == 'h');
            } else {
                let rest = restore_from(s, j + m);
                assert(big == Seq::<char>::empty() + s.subrange(j, j + m) + rest);
                assert(big =~= s.subrange(j, j + m) + rest);
                if w.len() <= m {
                    assert forall|x: int| 0 <= x < w.len() implies s[j + x] == w[x] by {
                        assert(big[x] == w[x]);
                    }
                } else {
                    let w2 = w.skip(m);
                    assert forall|x: int| 0 <= x < w2.len() implies rest[x] == w2[x] by {
                        assert(big[m + x] == w[m + x]);
                    }
                    lemma_restore_prefix(s, j + m, w2);
                    assert forall|x: int| 0 <= x < w.len() implies s[j + x] == w[x] by {
                        if x < m {
                            assert(big[x] == w[x]);
                        } else {
                            assert(s[j + m + (x - m)] == w2[x - m]);
                        }
                    }
                }
            }
        } else {
            let rest = restore_from(s, j + 1);
            assert(big == seq![s[j]] + rest);
            let w2 = w.drop_first();
            assert forall|x: int| 0 <= x < w2.len() implies rest[x] == w2[x] by {
                assert(big[x + 1] == w[x + 1]);
            }
            lemma_restore_prefix(s, j + 1, w2);
            assert forall|x: int| 0 <= x < w.len() implies s[j + x] == w[x] by {
                if x > 0 {
                    assert(s[j + 1 + (x - 1)] == w2[x - 1]);
                }
            }
        }
    }
}

/// In the restoration of `s[i..]`, each `ttps?://` follows an `h`: one put
/// in, or the `h` just before `s[i..]`.
proof fn lemma_restore_marks(s: Seq<char>, i: int, q: Seq<char>)
    requires
        0 <= i,
        q == "ttps://"@ || q == "ttp://"@,
    ensures
        forall|k: int| #[trigger] lit_at(restore_from(s, i), k, q) ==> (k > 0 && restore_from(s, i)[k - 1] == 'h') || (k == 0
            && i > 0 && s[i - 1] == 'h'),
    decreases s.len() - i,
{
    reveal_strlit("ttps://");
    reveal_strlit("ttp://");
    let big = restore_from(s, i);
    assert(q.len() >= 6 && q[0] == 't' && q[1] == 't' && q[2] == 'p');
    if i >= s.len() {
        assert(big.len() == 0);
    } else {
        let m = unlinked_len(s, i);
        if m > 0 && i + m <= s.len() {
            let h = if i > 0 && s[i - 1] == 'h' { Seq::<char>::empty() } else { seq!['h'] };
            let blk = s.subrange(i, i + m);
            let rest = restore_from(s, i + m);
            assert(big == h + blk + rest);
            assert(blk == "ttps://"@ || blk == "ttp://"@);
            assert(blk[0] == 't' && blk[1] == 't' && blk[2] == 'p' && blk[m - 1] == '/');
            assert(forall|d: int| 2 <= d < m ==> blk[d] != 't');
            lemma_restore_marks(s, i + m, q);
            let hl = h.len() as int;
            assert forall|k: int| #[trigger] lit_at(big, k, q) implies (k > 0 && big[k - 1] == 'h') || (k == 0 && i > 0 && s[i - 1]
                == 'h') by {
                let head = hl + m;
                if k >= head {
                    assert forall|x: int| 0 <= x < q.len() implies rest[k - head + x] == q[x] by {
                        assert(big[k + x] == q[x]);
                        assert(big[k + x] == rest[k - head + x]);
                    }
                    assert(lit_at(rest, k - head, q));
                    if k == head {
                        assert(s[i + m - 1] == blk[m - 1]);
                    } else {
                        assert(big[k - 1] == rest[k - head - 1]);
                    }
                } else if k < hl {
                    assert(big[k] == 'h');
                    assert(big[k + 0] == q[0]);
                } else if k > hl {
                    let d = k - hl;
                    assert(big[k] == blk[d]);
                    assert(big[k + 0] == q[0]);
                    if d == 1 {
                        assert(big[k + 1] == blk[2]);
                        assert(big[k + 1] == q[1]);
                    }
                } else if hl == 1 {
                    assert(big[k - 1] == 'h');
                }
            }
        } else {
            let rest = restore_from(s, i + 1);
            assert(big == seq![s[i]] + rest);
            lemma_restore_marks(s, i + 1, q);
            assert forall|k: int| #[trigger] lit_at(big, k, q) implies (k > 0 && big[k - 1] == 'h') || (k == 0 && i > 0 && s[i - 1]
                == 'h') by {
                if k == 0 {
                    let w = q.drop_first();
                    assert forall|x: int| 0 <= x < w.len() implies rest[x] == w[x] by {
                        assert(big[x + 1] == q[x + 1]);
                    }
                    assert forall|x: int| 0 <= x < w.len() implies w[x] != 'h' by {
                        assert(w[x] == q[x + 1]);
                    }
                    lemma_restore_prefix(s, i + 1, w);
                    assert(big[0] == q[0]);
                    assert forall|x: int| 0 <= x < q.len() implies s[i + x] == q[x] by {
                        if x > 0 {
                            assert(s[i + 1 + (x - 1)] == w[x - 1]);
                        }
                    }
                    assert(lit_at(s, i, q));
                    assert(unlinked_len(s, i) > 0);
                } else {
                    assert forall|x: int| 0 <= x < q.len() implies rest[k - 1 + x] == q[x] by {
                        assert(big[k + x] == q[x]);
                    }
                    assert(lit_at(rest, k - 1, q));
                    if k == 1 {
                        assert(big[0] == s[i]);
                    } else {
                        assert(big[k - 1] == rest[k - 2]);
                    }
                }
            }
        }
    }
}

/// Law: after links are restored, every `ttp://` or `ttps://` follows an `h`.
pub proof fn lemma_restored_links_follow_h(s: Seq<char>)
    ensures
        forall|k: int| #![trigger lit_at(restored(s), k, "ttps://"@)] #![trigger lit_at(restored(s), k, "ttp://"@)]
            lit_at(restored(s), k, "ttps://"@) || lit_at(restored(s), k, "ttp://"@) ==> k > 0 && restored(s)[k - 1] == 'h',
{
    lemma_restore_marks(s, 0, "ttps://"@);
    lemma_restore_marks(s, 0, "ttp://"@);
}

/// Law: restoring links again changes nothing; a text without `ttp://` or
/// `ttps://` is left as it is; and the restored text is longer by the number
/// of `h` put in (see `restore_count`).
pub proof fn lemma_restored_idempotent(s: Seq<char>)
    ensures
        restored(restored(s)) == restored(s),
        !contains_lit(s, "ttps://"@) && !contains_lit(s, "ttp://"@) ==> restored(s) == s,
        restored(s).len() == s.len() + restore_count(s, 0),
{
    let r = restored(s);
    lemma_restored_links_follow_h(s);
    assert forall|k: int| 0 <= k < r.len() && #[trigger] unlinked_len(r, k) > 0 implies k > 0 && r[k - 1] == 'h' by {
        assert(lit_at(r, k, "ttps://"@) || lit_at(r, k, "ttp://"@));
    }
    lemma_restore_identity(r, 0);
    assert(r.subrange(0, r.len() as int) =~= r);
    if !contains_lit(s, "ttps://"@) && !contains_lit(s, "ttp://"@) {
        assert forall|k: int| 0 <= k < s.len() && #[trigger] unlinked_len(s, k) > 0 implies k > 0 && s[k - 1] == 'h' by {
            assert(lit_at(s, k, "ttps://"@) || lit_at(s, k, "ttp://"@));
        }
        lemma_restore_identity(s, 0);
        assert(s.subrange(0, s.len() as int) =~= s);
    }
    lemma_restore_len(s, 0);
}

} // verus!
