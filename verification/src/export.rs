//! Archiving a thread: the export records, their Markdown form, and the
//! readers of the fields that a post's HTML carries.
use vstd::prelude::*;
use vstd::string::StringSliceAdditionalSpecFns;
use vstd::utf8::{decode_utf8, is_char_boundary, valid_utf8};

use crate::foreign::{
    json_parsed, fixed_offset_datetime, fixed_offset_datetime_text, parse_json, string_from_chars, utc_datetime,
    utc_datetime_text, utf8_lossy, utf8_lossy_string,
};
use crate::parse::{
    inner_of, is_post_node, opt_inner, opt_trimmed, opt_view, plain_text, restored, scrape_divs, scraped_divs,
    strip_tags, ScrapedDiv,
};
use crate::json::{get_member, json_as_i64, json_as_str, json_get, value_i64, value_str, JsonValue};
use crate::text::{
    all_ascii_digits, append_chars, append_str, chars_of, contains_chars, contains_lit, decimal,
    digits_value, find_char, lemma_find_char, is_ascii_digit, unsigned_body, find_char_from, is_nd, is_unicode_digit, is_ws, is_whitespace,
    chars_equal, lit_at, match_lit, parse_i32, trim, parse_i32_chars, parse_i64, parse_i64_chars, parse_u32,
    parse_u32_chars, push_decimal, skip_whitespace, skip_ws, slice_chars,
};

verus! {

/// One post, with every field the archive keeps.
#[derive(Debug)]
pub struct ExportPost {
    pub external_id: String,
    pub num: u32,
    pub author_name_display: String,
    pub user_id: String,
    pub posted_at_raw: String,
    pub body_raw: String,
    pub body_display: String,
    pub body_html_original: String,
    pub mail_encoded: Option<String>,
    pub mail_decoded: Option<String>,
    pub posted_at: Option<String>,
    pub reply_to: Option<Vec<u32>>,
}

/// The thread's own data.
#[derive(Debug)]
pub struct ExportThread {
    pub external_id: String,
    pub title: String,
    pub post_count: usize,
    pub board_name: Option<String>,
    pub created_at: Option<String>,
}

/// Where and when the thread was read.
#[derive(Debug)]
pub struct ExportSource {
    pub provider: String,
    pub board_url: String,
    pub dat_file: String,
    pub thread_url: String,
    pub scraped_at: String,
}

/// A thread's archive record.
#[derive(Debug)]
pub struct ExportResult {
    pub source: ExportSource,
    pub thread: ExportThread,
    pub posts: Vec<ExportPost>,
}

/// `lines.join(sep)`.
pub open spec fn join_with(lines: Seq<Seq<char>>, sep: Seq<char>) -> Seq<char>
    decreases lines.len(),
{
    if lines.len() == 0 {
        Seq::empty()
    } else if lines.len() == 1 {
        lines[0]
    } else {
        join_with(lines.drop_last(), sep) + sep + lines.last()
    }
}

/// The decimal numbers of `nums` joined with `, `.
pub open spec fn joined_numbers(nums: Seq<u32>) -> Seq<char> {
    join_with(nums.map_values(|n: u32| decimal(n as nat)), ", "@)
}

pub open spec fn or_unknown(o: Option<String>) -> Seq<char> {
    match o {
        Some(s) => s@,
        None => "(不明)"@,
    }
}

/// The Markdown lines of the record's head.
pub open spec fn markdown_head(r: ExportResult) -> Seq<Seq<char>> {
    seq![
        "# "@ + r.thread.title@ + "\n"@,
        "- 板: "@ + or_unknown(r.thread.board_name),
        "- board_url: "@ + r.source.board_url@,
        "- thread_url: "@ + r.source.thread_url@,
        "- dat_file: "@ + r.source.dat_file@,
        "- external_id: "@ + r.thread.external_id@,
        "- 作成日時: "@ + or_unknown(r.thread.created_at),
        "- 取得日時: "@ + r.source.scraped_at@,
        "- レス数(全体): "@ + decimal(r.thread.post_count as nat),
        "- レス数(このファイル): "@ + decimal(r.posts@.len()),
        "\n---\n"@,
    ]
}

/// A post's heading line: number, name, ID if any, and time (parsed, else raw).
pub open spec fn markdown_post_header(p: ExportPost) -> Seq<char> {
    let base = "## "@ + decimal(p.num as nat) + " "@ + p.author_name_display@;
    let with_id = if p.user_id@.len() > 0 { base + " ID:"@ + p.user_id@ } else { base };
    let time = match p.posted_at {
        Some(t) => t@,
        None => p.posted_at_raw@,
    };
    with_id + " "@ + time
}

/// A post's Markdown lines.
pub open spec fn markdown_post(p: ExportPost) -> Seq<Seq<char>> {
    let head = seq![markdown_post_header(p) + "\n"@];
    let reply = match p.reply_to {
        Some(r) => if r@.len() > 0 { seq!["> Reply to: "@ + joined_numbers(r@) + "\n"@] } else { Seq::empty() },
        None => Seq::empty(),
    };
    head + reply + seq![p.body_display@ + "\n"@, "---\n"@]
}

pub open spec fn markdown_posts(ps: Seq<ExportPost>) -> Seq<Seq<char>>
    decreases ps.len(),
{
    if ps.len() == 0 {
        Seq::empty()
    } else {
        markdown_posts(ps.drop_last()) + markdown_post(ps.last())
    }
}

/// The Markdown form of a record: its lines joined with newlines.
pub open spec fn markdown(r: ExportResult) -> Seq<char> {
    join_with(markdown_head(r) + markdown_posts(r.posts@), "\n"@)
}

fn line_of(parts: &str, rest: &String) -> (res: Vec<char>)
    ensures
        res@ == parts@ + rest@,
{
    let mut v = chars_of(parts);
    append_str(&mut v, rest.as_str());
    v
}

fn or_unknown_str(o: &Option<String>) -> (res: Vec<char>)
    ensures
        res@ == or_unknown(*o),
{
    match o {
        Some(s) => chars_of(s.as_str()),
        None => chars_of("(不明)"),
    }
}

fn join_lines(lines: &Vec<Vec<char>>, sep: &Vec<char>) -> (res: Vec<char>)
    ensures
        res@ == join_with(lines@.map_values(|l: Vec<char>| l@), sep@),
{
    let ghost ls = lines@.map_values(|l: Vec<char>| l@);
    let mut out: Vec<char> = Vec::new();
    let mut i: usize = 0;
    assert(ls.take(0) =~= Seq::<Seq<char>>::empty());
    while i < lines.len()
        invariant
            i <= lines.len(),
            ls == lines@.map_values(|l: Vec<char>| l@),
            out@ == join_with(ls.take(i as int), sep@),
        decreases lines.len() - i,
    {
        assert(ls.take(i + 1).drop_last() =~= ls.take(i as int));
        assert(ls.take(i + 1).last() == lines@[i as int]@);
        if i > 0 {
            append_chars(&mut out, sep);
        } else {
            assert(ls.take(1) =~= seq![ls[0]]);
        }
        append_chars(&mut out, &lines[i]);
        i = i + 1;
    }
    assert(ls.take(lines.len() as int) =~= ls);
    out
}

fn numbers_joined(nums: &Vec<u32>) -> (res: Vec<char>)
    ensures
        res@ == joined_numbers(nums@),
{
    let mut parts: Vec<Vec<char>> = Vec::new();
    let mut i: usize = 0;
    while i < nums.len()
        invariant
            i <= nums.len(),
            parts@.map_values(|l: Vec<char>| l@) =~= nums@.take(i as int).map_values(|n: u32| decimal(n as nat)),
        decreases nums.len() - i,
    {
        let mut d: Vec<char> = Vec::new();
        push_decimal(&mut d, nums[i] as u64);
        assert(d@ =~= decimal(nums[i as int] as nat));
        let ghost old_parts = parts@;
        parts.push(d);
        assert(parts@.map_values(|l: Vec<char>| l@) =~= old_parts.map_values(|l: Vec<char>| l@).push(d@));
        assert(nums@.take(i + 1).map_values(|n: u32| decimal(n as nat)) =~= nums@.take(i as int).map_values(
            |n: u32| decimal(n as nat),
        ).push(decimal(nums[i as int] as nat)));
        i = i + 1;
    }
    assert(nums@.take(nums.len() as int) =~= nums@);
    let sep = chars_of(", ");
    join_lines(&parts, &sep)
}

fn push_line(lines: &mut Vec<Vec<char>>, l: Vec<char>)
    ensures
        final(lines)@.map_values(|x: Vec<char>| x@) == old(lines)@.map_values(|x: Vec<char>| x@).push(l@),
{
    lines.push(l);
    assert(lines@.map_values(|x: Vec<char>| x@) =~= old(lines)@.map_values(|x: Vec<char>| x@).push(l@));
}

fn post_markdown_lines(p: &ExportPost, lines: &mut Vec<Vec<char>>)
    ensures
        final(lines)@.map_values(|x: Vec<char>| x@) == old(lines)@.map_values(|x: Vec<char>| x@) + markdown_post(*p),
{
    let ghost start = lines@.map_values(|x: Vec<char>| x@);
    let mut header = chars_of("## ");
    push_decimal(&mut header, p.num as u64);
    append_str(&mut header, " ");
    append_str(&mut header, p.author_name_display.as_str());
    if !p.user_id.as_str().is_empty() {
        append_str(&mut header, " ID:");
        append_str(&mut header, p.user_id.as_str());
    }
    append_str(&mut header, " ");
    match &p.posted_at {
        Some(t) => append_str(&mut header, t.as_str()),
        None => append_str(&mut header, p.posted_at_raw.as_str()),
    }
    assert(header@ == markdown_post_header(*p));
    append_str(&mut header, "\n");
    push_line(lines, header);
    let ghost after_head = lines@.map_values(|x: Vec<char>| x@);
    match &p.reply_to {
        Some(r) => {
            if r.len() > 0 {
                let mut l = chars_of("> Reply to: ");
                let j = numbers_joined(r);
                append_chars(&mut l, &j);
                append_str(&mut l, "\n");
                push_line(lines, l);
            }
        },
        None => {},
    }
    let mut body = chars_of(p.body_display.as_str());
    append_str(&mut body, "\n");
    push_line(lines, body);
    push_line(lines, chars_of("---\n"));
    assert(lines@.map_values(|x: Vec<char>| x@) =~= start + markdown_post(*p));
}

impl ExportResult {
    /// The record in Markdown: a head with the thread's data, then each post
    /// with its heading, the posts it replies to, and its body.
    pub fn to_markdown(&self) -> (res: String)
        ensures
            res@ == markdown(*self),
    {
        let mut lines: Vec<Vec<char>> = Vec::new();
        let mut l1 = line_of("# ", &self.thread.title);
        append_str(&mut l1, "\n");
        push_line(&mut lines, l1);
        let mut l2 = chars_of("- 板: ");
        let b = or_unknown_str(&self.thread.board_name);
        append_chars(&mut l2, &b);
        push_line(&mut lines, l2);
        push_line(&mut lines, line_of("- board_url: ", &self.source.board_url));
        push_line(&mut lines, line_of("- thread_url: ", &self.source.thread_url));
        push_line(&mut lines, line_of("- dat_file: ", &self.source.dat_file));
        push_line(&mut lines, line_of("- external_id: ", &self.thread.external_id));
        let mut l7 = chars_of("- 作成日時: ");
        let c = or_unknown_str(&self.thread.created_at);
        append_chars(&mut l7, &c);
        push_line(&mut lines, l7);
        push_line(&mut lines, line_of("- 取得日時: ", &self.source.scraped_at));
        let mut l9 = chars_of("- レス数(全体): ");
        push_decimal(&mut l9, self.thread.post_count as u64);
        push_line(&mut lines, l9);
        let mut l10 = chars_of("- レス数(このファイル): ");
        push_decimal(&mut l10, self.posts.len() as u64);
        push_line(&mut lines, l10);
        push_line(&mut lines, chars_of("\n---\n"));
        assert(lines@.map_values(|x: Vec<char>| x@) =~= markdown_head(*self));
        let mut i: usize = 0;
        while i < self.posts.len()
            invariant
                i <= self.posts.len(),
                lines@.map_values(|x: Vec<char>| x@) == markdown_head(*self) + markdown_posts(self.posts@.take(i as int)),
            decreases self.posts.len() - i,
        {
            assert(self.posts@.take(i + 1).drop_last() =~= self.posts@.take(i as int));
            post_markdown_lines(&self.posts[i], &mut lines);
            assert(markdown_head(*self) + markdown_posts(self.posts@.take(i + 1)) =~= markdown_head(*self)
                + markdown_posts(self.posts@.take(i as int)) + markdown_post(self.posts@[i as int]));
            i = i + 1;
        }
        assert(self.posts@.take(self.posts.len() as int) =~= self.posts@);
        let nl = chars_of("\n");
        let joined = join_lines(&lines, &nl);
        string_from_chars(joined.as_slice())
    }
}


pub open spec fn is_hex_byte(b: u8) -> bool {
    (48 <= b && b <= 57) || (65 <= b && b <= 70) || (97 <= b && b <= 102)
}

pub open spec fn hex_byte_value(b: u8) -> int {
    if b <= 57 { b - 48 } else if b <= 70 { b - 55 } else { b - 87 }
}

/// `u8::from_str_radix(pair, 16)` on a two-byte pair: two hexadecimal digits,
/// or `+` and one digit.
pub open spec fn hex_pair(b1: u8, b2: u8) -> Option<u8> {
    if is_hex_byte(b1) && is_hex_byte(b2) {
        Some((hex_byte_value(b1) * 16 + hex_byte_value(b2)) as u8)
    } else if b1 == 43 && is_hex_byte(b2) {
        Some(hex_byte_value(b2) as u8)
    } else {
        None
    }
}

/// The byte pairs of `bytes[i..]`, each read as hexadecimal and XORed with `key`.
pub open spec fn xor_pairs(bytes: Seq<u8>, key: u8, i: int) -> Option<Seq<u8>>
    decreases bytes.len() - i,
{
    if i < 0 || i + 2 > bytes.len() {
        Some(Seq::empty())
    } else {
        match hex_pair(bytes[i], bytes[i + 1]) {
            None => None,
            Some(b) => match xor_pairs(bytes, key, i + 2) {
                None => None,
                Some(rest) => Some(seq![b ^ key] + rest),
            },
        }
    }
}

/// The bytes that Cloudflare's e-mail obfuscation hides: the first byte pair
/// is the key, each further pair a byte XORed with it.
pub open spec fn cf_email_bytes(bytes: Seq<u8>) -> Option<Seq<u8>> {
    if bytes.len() < 2 || bytes.len() % 2 != 0 {
        None
    } else {
        match hex_pair(bytes[0], bytes[1]) {
            None => None,
            Some(key) => xor_pairs(bytes, key, 2),
        }
    }
}

/// Cloudflare's e-mail obfuscation undone: the hidden bytes decoded as lossy UTF-8.
pub open spec fn cf_email_decoded(bytes: Seq<u8>) -> Option<Seq<char>> {
    match cf_email_bytes(bytes) {
        None => None,
        Some(raw) => Some(utf8_lossy(raw)),
    }
}

fn hex_pair_value(b1: u8, b2: u8) -> (res: Option<u8>)
    ensures
        res == hex_pair(b1, b2),
{
    let d1 = hex_digit_value(b1);
    let d2 = hex_digit_value(b2);
    match (d1, d2) {
        (Some(x), Some(y)) => Some(x * 16 + y),
        (None, Some(y)) => if b1 == 43 { Some(y) } else { None },
        _ => None,
    }
}

fn hex_digit_value(b: u8) -> (res: Option<u8>)
    ensures
        res is Some <==> is_hex_byte(b),
        res matches Some(v) ==> v == hex_byte_value(b) && v < 16,
{
    if 48 <= b && b <= 57 {
        Some(b - 48)
    } else if 65 <= b && b <= 70 {
        Some(b - 55)
    } else if 97 <= b && b <= 102 {
        Some(b - 87)
    } else {
        None
    }
}

/// Decodes Cloudflare's e-mail obfuscation (`cdn-cgi/l/email-protection`).
/// An odd length, a length under two or a pair that is no hexadecimal byte
/// gives `None`.
pub fn decode_cf_email(hex_str: &str) -> (res: Option<String>)
    requires
        hex_str.spec_bytes().len() >= 2 && hex_str.spec_bytes().len() % 2 == 0 ==> is_char_boundary(
            hex_str.spec_bytes(),
            2,
        ),
    ensures
        match res {
            Some(s) => cf_email_decoded(hex_str.spec_bytes()) == Some(s@),
            None => cf_email_decoded(hex_str.spec_bytes()) is None,
        },
        cf_email_bytes(hex_str.spec_bytes()) is Some && valid_utf8(cf_email_bytes(hex_str.spec_bytes())->0) ==> res is Some
            && res->0@ == decode_utf8(cf_email_bytes(hex_str.spec_bytes())->0),
{
    let bytes = hex_str.as_bytes();
    let n = bytes.len();
    if n < 2 || n % 2 != 0 {
        return None;
    }
    let key = match hex_pair_value(bytes[0], bytes[1]) {
        None => return None,
        Some(k) => k,
    };
    let mut raw: Vec<u8> = Vec::new();
    let mut i: usize = 2;
    while i < n
        invariant
            2 <= i <= n,
            n == bytes@.len(),
            i % 2 == 0,
            n % 2 == 0,
            bytes@ == hex_str.spec_bytes(),
            hex_pair(bytes@[0], bytes@[1]) == Some(key),
            xor_pairs(bytes@, key, 2) == match xor_pairs(bytes@, key, i as int) {
                None => None,
                Some(rest) => Some(raw@ + rest),
            },
        decreases n - i,
    {
        assert(i + 2 <= n);
        match hex_pair_value(bytes[i], bytes[i + 1]) {
            None => {
                assert(xor_pairs(bytes@, key, i as int) is None);
                return None;
            },
            Some(b) => {
                let x = b ^ key;
                assert(raw@.push(x) + xor_pairs(bytes@, key, i + 2)->0 =~= raw@ + (seq![x] + xor_pairs(bytes@, key, i + 2)->0));
                raw.push(x);
            },
        }
        i = i + 2;
    }
    assert(xor_pairs(bytes@, key, i as int) == Some(Seq::<u8>::empty()));
    assert(raw@ + Seq::<u8>::empty() =~= raw@);
    Some(utf8_lossy_string(raw.as_slice()))
}


/// The `>` that closes a reply link `<a[^>]*class="reply_link"[^>]*>` starting at `p`.
pub open spec fn reply_tag_at(s: Seq<char>, p: int) -> Option<int> {
    if lit_at(s, p, "<a"@) {
        let g = find_char(s, '>', p + 2);
        if g < s.len() && contains_lit(s.subrange(p + 2, g), "class=\"reply_link\""@) { Some(g) } else { None }
    } else {
        None
    }
}

pub open spec fn all_nd(s: Seq<char>) -> bool {
    forall|k: int| 0 <= k < s.len() ==> is_nd(#[trigger] s[k])
}

/// Index of the last `c` in `s[..j]` (`-1` when there is none).
pub open spec fn last_index_of(s: Seq<char>, c: char, j: int) -> int
    decreases j,
{
    if j <= 0 || j > s.len() {
        -1
    } else if s[j - 1] == c {
        j - 1
    } else {
        last_index_of(s, c, j - 1)
    }
}

/// The digits that `href="[^"]*?/(\d+)"` captures when it matches at `k`.
pub open spec fn href_number_at(t: Seq<char>, k: int) -> Option<Seq<char>> {
    if lit_at(t, k, "href=\""@) {
        let q = find_char(t, '"', k + 6);
        let v = t.subrange(k + 6, q);
        let sl = last_index_of(v, '/', v.len() as int);
        if q < t.len() && sl >= 0 && sl + 1 < v.len() && all_nd(v.subrange(sl + 1, v.len() as int)) {
            Some(v.subrange(sl + 1, v.len() as int))
        } else {
            None
        }
    } else {
        None
    }
}

/// The digits of the leftmost match of `href="[^"]*?/(\d+)"` in `t[k..]`.
pub open spec fn first_href_number(t: Seq<char>, k: int) -> Option<Seq<char>>
    decreases t.len() - k,
{
    if k < 0 || k >= t.len() {
        None
    } else {
        match href_number_at(t, k) {
            Some(d) => Some(d),
            None => first_href_number(t, k + 1),
        }
    }
}

/// The reply targets in `s[p..]`: for each reply link, left to right, the
/// number its `href` ends with, when that parses as a `u32`.
pub open spec fn reply_numbers_from(s: Seq<char>, p: int) -> Seq<u32>
    decreases s.len() - p,
{
    if p < 0 || p >= s.len() {
        Seq::empty()
    } else {
        match reply_tag_at(s, p) {
            Some(g) => if p < g < s.len() {
                let rest = reply_numbers_from(s, g + 1);
                match first_href_number(s.subrange(p, g + 1), 0) {
                    Some(d) => match parse_u32(d) {
                        Some(n) => seq![n] + rest,
                        None => rest,
                    },
                    None => rest,
                }
            } else {
                Seq::empty()
            },
            None => reply_numbers_from(s, p + 1),
        }
    }
}

fn all_unicode_digits(v: &Vec<char>, a: usize, b: usize) -> (res: bool)
    requires
        a <= b <= v.len(),
    ensures
        res == all_nd(v@.subrange(a as int, b as int)),
{
    let mut k = a;
    while k < b
        invariant
            a <= k <= b <= v.len(),
            forall|j: int| a <= j < k ==> is_nd(#[trigger] v@[j]),
        decreases b - k,
    {
        if !is_unicode_digit(v[k]) {
            assert(!is_nd(v@.subrange(a as int, b as int)[k - a]));
            return false;
        }
        k = k + 1;
    }
    assert forall|j: int| 0 <= j < b - a implies is_nd(#[trigger] v@.subrange(a as int, b as int)[j]) by {
        assert(v@.subrange(a as int, b as int)[j] == v@[a + j]);
    }
    true
}

fn href_number_match(t: &Vec<char>, k: usize) -> (res: Option<(usize, usize)>)
    requires
        k < t.len(),
    ensures
        match res {
            Some((a, b)) => a < b <= t.len() && href_number_at(t@, k as int) == Some(t@.subrange(a as int, b as int)),
            None => href_number_at(t@, k as int) is None,
        },
{
    let lit = chars_of("href=\"");
    proof {
        reveal_strlit("href=\"");
    }
    if !match_lit(t, k, &lit) {
        return None;
    }
    let q = find_char_from(t, '"', k + 6);
    let ghost v = t@.subrange(k + 6, q as int);
    let mut j = q;
    while j > k + 6 && t[j - 1] != '/'
        invariant
            k + 6 <= j <= q,
            q <= t.len(),
            v == t@.subrange(k + 6, q as int),
            last_index_of(v, '/', v.len() as int) == last_index_of(v, '/', j - (k + 6)),
        decreases j,
    {
        assert(v[j - (k + 6) - 1] == t@[j - 1]);
        j = j - 1;
    }
    proof {
        if j > k + 6 {
            assert(v[j - (k + 6) - 1] == t@[j - 1]);
        }
    }
    if q < t.len() && j > k + 6 && j < q && all_unicode_digits(t, j, q) {
        assert(v.subrange(j - (k + 6), v.len() as int) =~= t@.subrange(j as int, q as int));
        Some((j, q))
    } else {
        proof {
            if q < t.len() && j > k + 6 && j < q {
                assert(v.subrange(j - (k + 6), v.len() as int) =~= t@.subrange(j as int, q as int));
            }
        }
        None
    }
}

fn first_href_number_match(t: &Vec<char>) -> (res: Option<(usize, usize)>)
    ensures
        match res {
            Some((a, b)) => a < b <= t.len() && first_href_number(t@, 0) == Some(t@.subrange(a as int, b as int)),
            None => first_href_number(t@, 0) is None,
        },
{
    let mut k: usize = 0;
    while k < t.len()
        invariant
            k <= t.len(),
            first_href_number(t@, 0) == first_href_number(t@, k as int),
        decreases t.len() - k,
    {
        match href_number_match(t, k) {
            Some(r) => {
                return Some(r);
            },
            None => {},
        }
        k = k + 1;
    }
    None
}

fn reply_tag_match(s: &Vec<char>, p: usize) -> (res: Option<usize>)
    requires
        p < s.len(),
    ensures
        match res {
            Some(g) => reply_tag_at(s@, p as int) == Some(g as int) && p < g < s.len(),
            None => reply_tag_at(s@, p as int) is None,
        },
{
    let open = chars_of("<a");
    let class = chars_of("class=\"reply_link\"");
    proof {
        reveal_strlit("<a");
    }
    if !match_lit(s, p, &open) {
        return None;
    }
    let g = find_char_from(s, '>', p + 2);
    if g < s.len() {
        let inner = slice_chars(s, p + 2, g);
        if contains_chars(&inner, &class) {
            return Some(g);
        }
    }
    None
}

/// The post numbers that a post body's reply links (`class="reply_link"`) point to.
pub fn extract_reply_to(content_html: &str) -> (res: Vec<u32>)
    ensures
        res@ == reply_numbers_from(content_html@, 0),
{
    let s = chars_of(content_html);
    let mut res: Vec<u32> = Vec::new();
    let mut p: usize = 0;
    while p < s.len()
        invariant
            p <= s.len(),
            s@ == content_html@,
            res@ + reply_numbers_from(s@, p as int) == reply_numbers_from(s@, 0),
        decreases s.len() - p,
    {
        match reply_tag_match(&s, p) {
            Some(g) => {
                let tag = slice_chars(&s, p, g + 1);
                match first_href_number_match(&tag) {
                    Some((a, b)) => {
                        match parse_u32_chars(&tag, a, b) {
                            Some(n) => {
                                assert(res@ + reply_numbers_from(s@, p as int) == res@.push(n) + reply_numbers_from(s@, g + 1));
                                res.push(n);
                            },
                            None => {},
                        }
                    },
                    None => {},
                }
                p = g + 1;
            },
            None => {
                p = p + 1;
            },
        }
    }
    assert(res@ + Seq::<u32>::empty() =~= res@);
    res
}


/// End of the run of `\d` characters that starts at `i`.
pub open spec fn nd_run_end(s: Seq<char>, i: int) -> int
    decreases s.len() - i,
{
    if i < 0 || i >= s.len() {
        if i < 0 { 0 } else { s.len() as int }
    } else if is_nd(s[i]) {
        nd_run_end(s, i + 1)
    } else {
        i
    }
}

pub open spec fn is_weekday(c: char) -> bool {
    c == '月' || c == '火' || c == '水' || c == '木' || c == '金' || c == '土' || c == '日'
}

/// The captures of `^(\d{4})/(\d{2})/(\d{2})\([月火水木金土日]\)\s+(\d{2}):(\d{2}):(\d{2})(?:\.(\d+))?`.
pub struct PostedAtFields {
    pub year: Seq<char>,
    pub month: Seq<char>,
    pub day: Seq<char>,
    pub hour: Seq<char>,
    pub minute: Seq<char>,
    pub second: Seq<char>,
    pub frac: Option<Seq<char>>,
}

pub open spec fn posted_at_match(s: Seq<char>) -> Option<PostedAtFields> {
    let w = skip_ws(s, 13);
    if s.len() >= 13 && all_nd(s.subrange(0, 4)) && s[4] == '/' && all_nd(s.subrange(5, 7)) && s[7] == '/'
        && all_nd(s.subrange(8, 10)) && s[10] == '(' && is_weekday(s[11]) && s[12] == ')' && w > 13 && w
        + 8 <= s.len() && all_nd(s.subrange(w, w + 2)) && s[w + 2] == ':' && all_nd(s.subrange(w + 3, w + 5))
        && s[w + 5] == ':' && all_nd(s.subrange(w + 6, w + 8)) {
        let f = w + 8;
        let e = nd_run_end(s, f + 1);
        Some(PostedAtFields {
            year: s.subrange(0, 4),
            month: s.subrange(5, 7),
            day: s.subrange(8, 10),
            hour: s.subrange(w, w + 2),
            minute: s.subrange(w + 3, w + 5),
            second: s.subrange(w + 6, w + 8),
            frac: if f < s.len() && s[f] == '.' && e > f + 1 { Some(s.subrange(f + 1, e)) } else { None },
        })
    } else {
        None
    }
}

pub open spec fn frac_or_empty(frac: Option<Seq<char>>) -> Seq<char> {
    match frac {
        Some(f) => f,
        None => Seq::empty(),
    }
}

/// The microseconds of a fraction: its first six digits, padded with zeros.
pub open spec fn micro_of(frac: Option<Seq<char>>) -> Option<u32> {
    let six = (frac_or_empty(frac) + "000000"@).take(6);
    if all_ascii_digits(six) { Some(digits_value(six) as u32) } else { None }
}

/// `s[..j]` without trailing `0`s (`trim_end_matches('0')`).
pub open spec fn trim_zeros_end(s: Seq<char>, j: int) -> Seq<char>
    decreases j,
{
    if j <= 0 || j > s.len() {
        Seq::empty()
    } else if s[j - 1] == '0' {
        trim_zeros_end(s, j - 1)
    } else {
        s.take(j)
    }
}

/// `.` and the fraction's digits without trailing zeros, or nothing.
pub open spec fn frac_suffix(frac: Option<Seq<char>>) -> Seq<char> {
    match frac {
        Some(f) => {
            let t = trim_zeros_end(f, f.len() as int);
            if t.len() > 0 { "."@ + t } else { Seq::empty() }
        },
        None => Seq::empty(),
    }
}

/// A number with at least two digits (`{:02}`).
pub open spec fn two_digits(n: nat) -> Seq<char> {
    if n < 10 { seq!['0'] + decimal(n) } else { decimal(n) }
}

/// An offset in seconds as `+HH:MM` or `-HH:MM`.
pub open spec fn offset_text(off: int) -> Seq<char> {
    let sign = if off < 0 { seq!['-'] } else { seq!['+'] };
    let m = (if off < 0 { -off } else { off }) / 60;
    sign + two_digits((m / 60) as nat) + ":"@ + two_digits((m % 60) as nat)
}

/// RFC 3339 text from chrono's date-time text, the fraction's digits and the offset.
pub open spec fn rfc3339_nano(base: Seq<char>, frac: Option<Seq<char>>, off: int) -> Seq<char> {
    base + frac_suffix(frac) + offset_text(off)
}

/// Japan Standard Time, in seconds east of UTC: the offset of posts' time stamps.
pub const JST_OFFSET_SECONDS: i32 = 32400;

/// How a post's local date and time is written (the fraction and the offset follow it).
pub const POSTED_AT_FORMAT: &'static str = "%Y-%m-%dT%H:%M:%S";

/// How a thread's creation time is written, in UTC.
pub const CREATED_AT_FORMAT: &'static str = "%Y-%m-%dT%H:%M:%SZ";

/// What `parse_posted_at` makes of a post's time stamp.
pub open spec fn posted_at_value(raw: Seq<char>) -> Option<Seq<char>> {
    match posted_at_match(raw) {
        None => None,
        Some(f) => {
            if parse_i32(f.year) is Some && parse_u32(f.month) is Some && parse_u32(f.day) is Some
                && parse_u32(f.hour) is Some && parse_u32(f.minute) is Some && parse_u32(f.second) is Some {
                match micro_of(f.frac) {
                    None => None,
                    Some(us) => match fixed_offset_datetime(
                        parse_i32(f.year)->0,
                        parse_u32(f.month)->0,
                        parse_u32(f.day)->0,
                        parse_u32(f.hour)->0,
                        parse_u32(f.minute)->0,
                        parse_u32(f.second)->0,
                        us,
                        JST_OFFSET_SECONDS,
                        POSTED_AT_FORMAT@,
                    ) {
                        None => None,
                        Some((base, off)) => Some(rfc3339_nano(base, f.frac, off as int)),
                    },
                }
            } else {
                None
            }
        },
    }
}

/// The time stamps whose fraction cannot be cut to six bytes: the fraction,
/// padded with zeros, has a multi-byte digit across its sixth byte, so that
/// slicing the string there would panic. `parse_posted_at` is not defined on them.
pub open spec fn posted_at_slices_char(raw: Seq<char>) -> bool {
    match posted_at_match(raw) {
        None => false,
        Some(f) => parse_i32(f.year) is Some && parse_u32(f.month) is Some && parse_u32(f.day) is Some
            && parse_u32(f.hour) is Some && parse_u32(f.minute) is Some && parse_u32(f.second) is Some
            && !is_char_boundary(vstd::utf8::encode_utf8(frac_or_empty(f.frac) + "000000"@), 6),
    }
}

fn two_digits_chars(v: &mut Vec<char>, n: u64)
    ensures
        final(v)@ == old(v)@ + two_digits(n as nat),
{
    if n < 10 {
        v.push('0');
        push_decimal(v, n);
        assert(old(v)@.push('0') + decimal(n as nat) =~= old(v)@ + (seq!['0'] + decimal(n as nat)));
    } else {
        push_decimal(v, n);
    }
}

/// Chrono's `%Y-%m-%dT%H:%M:%S` text with the fraction's digits (trailing
/// zeros dropped, nothing when none remain) and the offset as `+HH:MM`.
pub fn format_rfc3339_nano(base: &str, frac_digits: Option<&str>, offset_seconds: i32) -> (res: String)
    requires
        -86400 < offset_seconds < 86400,
    ensures
        res@ == rfc3339_nano(
            base@,
            match frac_digits {
                Some(f) => Some(f@),
                None => None,
            },
            offset_seconds as int,
        ),
{
    let mut out = chars_of(base);
    let ghost frac = match frac_digits {
        Some(f) => Some(f@),
        None => None::<Seq<char>>,
    };
    let ghost before = out@;
    match frac_digits {
        Some(f) => {
            let fv = chars_of(f);
            let mut j = fv.len();
            while j > 0 && fv[j - 1] == '0'
                invariant
                    j <= fv.len(),
                    trim_zeros_end(fv@, fv@.len() as int) == trim_zeros_end(fv@, j as int),
                decreases j,
            {
                j = j - 1;
            }
            if j > 0 {
                assert(trim_zeros_end(fv@, j as int) == fv@.take(j as int));
                out.push('.');
                let t = slice_chars(&fv, 0, j);
                append_chars(&mut out, &t);
                proof {
                    reveal_strlit(".");
                    assert(out@ =~= before + frac_suffix(frac));
                }
            } else {
                assert(out@ =~= before + frac_suffix(frac));
            }
        },
        None => {
            assert(out@ =~= before + frac_suffix(frac));
        },
    }
    let ghost mid = out@;
    if offset_seconds < 0 {
        out.push('-');
    } else {
        out.push('+');
    }
    let total_minutes: u64 = if offset_seconds < 0 { (0 - offset_seconds) as u64 / 60 } else { offset_seconds as u64 / 60 };
    two_digits_chars(&mut out, total_minutes / 60);
    out.push(':');
    two_digits_chars(&mut out, total_minutes % 60);
    proof {
        reveal_strlit(":");
        assert(out@ =~= mid + offset_text(offset_seconds as int));
    }
    string_from_chars(out.as_slice())
}

fn all_nd_range(v: &Vec<char>, a: usize, b: usize) -> (res: bool)
    requires
        a <= b <= v.len(),
    ensures
        res == all_nd(v@.subrange(a as int, b as int)),
{
    all_unicode_digits(v, a, b)
}

fn nd_run(v: &Vec<char>, i: usize) -> (res: usize)
    requires
        i <= v.len(),
    ensures
        res == nd_run_end(v@, i as int),
        i <= res <= v.len(),
{
    let mut k = i;
    while k < v.len() && is_unicode_digit(v[k])
        invariant
            i <= k <= v.len(),
            nd_run_end(v@, i as int) == nd_run_end(v@, k as int),
        decreases v.len() - k,
    {
        k = k + 1;
    }
    k
}

fn is_weekday_char(c: char) -> (res: bool)
    ensures
        res == is_weekday(c),
{
    c == '月' || c == '火' || c == '水' || c == '木' || c == '金' || c == '土' || c == '日'
}

/// Reads a post's time stamp such as `2025/12/16(火) 05:05:09.95` (Japan time)
/// and writes it in RFC 3339, keeping the fraction's digits:
/// `2025-12-16T05:05:09.95+09:00`. `None` when the text does not have this
/// form, a field is not in ASCII digits, or chrono rejects the date.
pub fn parse_posted_at(raw: &str) -> (res: Option<String>)
    requires
        !posted_at_slices_char(raw@),
    ensures
        match res {
            Some(r) => posted_at_value(raw@) == Some(r@),
            None => posted_at_value(raw@) is None,
        },
{
    let s = chars_of(raw);
    if s.len() < 13 {
        return None;
    }
    let w = skip_whitespace(&s, 13);
    if !(all_nd_range(&s, 0, 4) && s[4] == '/' && all_nd_range(&s, 5, 7) && s[7] == '/' && all_nd_range(&s, 8, 10)
        && s[10] == '(' && is_weekday_char(s[11]) && s[12] == ')' && w > 13 && w <= s.len() - 8) {
        assert(posted_at_match(s@) is None);
        return None;
    }
    if !(all_nd_range(&s, w, w + 2) && s[w + 2] == ':' && all_nd_range(&s, w + 3, w + 5) && s[w + 5] == ':'
        && all_nd_range(&s, w + 6, w + 8)) {
        assert(posted_at_match(s@) is None);
        return None;
    }
    let f = w + 8;
    let has_frac = f < s.len() && s[f] == '.' && nd_run(&s, f + 1) > f + 1;
    let e = if has_frac { nd_run(&s, f + 1) } else { f };
    let ghost fields = posted_at_match(s@)->0;
    assert(posted_at_match(s@) is Some);
    let year = parse_i32_chars(&s, 0, 4);
    let month = parse_u32_chars(&s, 5, 7);
    let day = parse_u32_chars(&s, 8, 10);
    let hour = parse_u32_chars(&s, w, w + 2);
    let minute = parse_u32_chars(&s, w + 3, w + 5);
    let second = parse_u32_chars(&s, w + 6, w + 8);
    if year.is_none() || month.is_none() || day.is_none() || hour.is_none() || minute.is_none() || second.is_none() {
        return None;
    }
    let mut ext: Vec<char> = if has_frac { slice_chars(&s, f + 1, e) } else { Vec::new() };
    let ghost frac_chars = ext@;
    assert(frac_chars == frac_or_empty(fields.frac));
    let zeros = chars_of("000000");
    proof {
        reveal_strlit("000000");
    }
    append_chars(&mut ext, &zeros);
    let us = match parse_u32_chars(&ext, 0, 6) {
        Some(v) => v,
        None => {
            proof {
                let six = ext@.subrange(0, 6);
                assert(six == ext@.take(6));
                if all_ascii_digits(six) {
                    assert(parse_u32(six) is Some) by {
                        crate::text::lemma_digits_value_prefix(six, 6);
                        lemma_six_digits_bound(six);
                    }
                }
            }
            return None;
        },
    };
    proof {
        let six = ext@.subrange(0, 6);
        assert(six == ext@.take(6));
        if has_frac {
            assert(is_nd(s@[f + 1]));
            assert(six[0] == s@[f + 1]);
        } else {
            assert(six[0] == '0');
        }
        assert(six[0] != '+');
        assert(unsigned_body(six) == six);
    }
    assert(micro_of(fields.frac) == Some(us)) by {
        let six = ext@.subrange(0, 6);
        assert(six == ext@.take(6));
    };
    match fixed_offset_datetime_text(
        year.unwrap(),
        month.unwrap(),
        day.unwrap(),
        hour.unwrap(),
        minute.unwrap(),
        second.unwrap(),
        us,
        JST_OFFSET_SECONDS,
        POSTED_AT_FORMAT,
    ) {
        None => None,
        Some((base, off)) => {
            let frac_str = if has_frac {
                let fv = slice_chars(&s, f + 1, e);
                Some(string_from_chars(fv.as_slice()))
            } else {
                None
            };
            let r = match &frac_str {
                Some(fs) => format_rfc3339_nano(base.as_str(), Some(fs.as_str()), off),
                None => format_rfc3339_nano(base.as_str(), None, off),
            };
            Some(r)
        },
    }
}

proof fn lemma_six_digits_bound(six: Seq<char>)
    requires
        six.len() == 6,
        all_ascii_digits(six),
    ensures
        digits_value(six) <= 999999,
{
    assert(six.drop_last().drop_last().drop_last().drop_last().drop_last().drop_last().len() == 0);
    reveal_with_fuel(digits_value, 7);
    assert(is_ascii_digit(six[0]) && is_ascii_digit(six[1]) && is_ascii_digit(six[2]) && is_ascii_digit(six[3])
        && is_ascii_digit(six[4]) && is_ascii_digit(six[5]));
}


/// `s` without a trailing `.dat`, if it has one.
pub open spec fn strip_dat(s: Seq<char>) -> Seq<char> {
    if s.len() >= 4 && lit_at(s, s.len() - 4, ".dat"@) { s.take(s.len() - 4) } else { s }
}

pub fn strip_dat_chars(s: &Vec<char>) -> (res: Vec<char>)
    ensures
        res@ == strip_dat(s@),
{
    let dat = chars_of(".dat");
    proof {
        reveal_strlit(".dat");
    }
    if s.len() >= 4 && match_lit(s, s.len() - 4, &dat) {
        slice_chars(s, 0, s.len() - 4)
    } else {
        slice_chars(s, 0, s.len())
    }
}

/// The creation time of a thread, from its `.dat` name (a UNIX time), in UTC.
pub open spec fn dat_created_at(dat_file: Seq<char>) -> Seq<char> {
    match parse_i64(strip_dat(dat_file)) {
        None => Seq::empty(),
        Some(ts) => match utc_datetime(ts, CREATED_AT_FORMAT@) {
            None => Seq::empty(),
            Some(t) => t,
        },
    }
}

/// A post body's HTML as plain text (see `plain_text`): `<br>` to newlines,
/// tags to spaces, character references decoded, trimmed; links are not restored.
pub fn extract_plain_text(content_html: &str) -> (res: String)
    ensures
        res@ == plain_text(content_html@),
{
    let html = chars_of(content_html);
    let t = crate::parse::plain_text_chars(&html);
    string_from_chars(t.as_slice())
}

/// A `.dat` name (the UNIX time the thread was started) as RFC 3339 time in
/// UTC; empty when it is not a number or chrono rejects it.
pub fn dat_timestamp_to_rfc3339(dat_file: &str) -> (res: String)
    ensures
        res@ == dat_created_at(dat_file@),
{
    let v = chars_of(dat_file);
    let t = strip_dat_chars(&v);
    match parse_i64_chars(&t, 0, t.len()) {
        None => {
            assert(t@.subrange(0, t@.len() as int) == t@);
            String::new()
        },
        Some(ts) => {
            assert(t@.subrange(0, t@.len() as int) == t@);
            match utc_datetime_text(ts, CREATED_AT_FORMAT) {
                None => String::new(),
                Some(r) => r,
            }
        },
    }
}

/// Where the content of `<script\s+type="application/ld+json">(.*?)</script>`
/// lies when the pattern matches at `p`.
pub open spec fn ld_json_at(s: Seq<char>, p: int) -> Option<(int, int)> {
    if lit_at(s, p, "<script"@) {
        let w = skip_ws(s, p + 7);
        let c0 = w + 27;
        if w > p + 7 && lit_at(s, w, "type=\"application/ld+json\">"@) {
            match first_lit_from(s, "</script>"@, c0) {
                Some(c1) => Some((c0, c1)),
                None => None,
            }
        } else {
            None
        }
    } else {
        None
    }
}

/// Index of the first occurrence of `lit` at or after `i`.
pub open spec fn first_lit_from(s: Seq<char>, lit: Seq<char>, i: int) -> Option<int>
    decreases s.len() - i,
{
    if i < 0 || i > s.len() {
        None
    } else if lit_at(s, i, lit) {
        Some(i)
    } else if i == s.len() {
        None
    } else {
        first_lit_from(s, lit, i + 1)
    }
}

/// The content of the first JSON-LD script block from `p` on.
pub open spec fn ld_json_from(s: Seq<char>, p: int) -> Option<Seq<char>>
    decreases s.len() - p,
{
    if p < 0 || p >= s.len() {
        None
    } else {
        match ld_json_at(s, p) {
            Some((c0, c1)) => Some(s.subrange(c0, c1)),
            None => ld_json_from(s, p + 1),
        }
    }
}

/// The name of the first element at position 2 that has a string `name`.
pub open spec fn position_2_name(els: Seq<JsonValue>) -> Option<Seq<char>>
    decreases els.len(),
{
    if els.len() == 0 {
        None
    } else {
        let el = els[0];
        let found = match get_member(el, "position"@) {
            Some(p) => value_i64(p) == Some(2i64),
            None => false,
        };
        let name = match get_member(el, "name"@) {
            Some(n) => value_str(n),
            None => None,
        };
        if found && name is Some { name } else { position_2_name(els.drop_first()) }
    }
}

/// The breadcrumb name at position 2 among the JSON-LD items, if any.
pub open spec fn breadcrumb_board_name(items: Seq<JsonValue>) -> Option<Seq<char>>
    decreases items.len(),
{
    if items.len() == 0 {
        None
    } else {
        let item = items[0];
        let is_list = match get_member(item, "@type"@) {
            Some(t) => value_str(t) == Some("BreadcrumbList"@),
            None => false,
        };
        let found = if is_list {
            match get_member(item, "itemListElement"@) {
                Some(JsonValue::Array(els)) => position_2_name(els@),
                _ => None,
            }
        } else {
            None
        };
        if found is Some { found } else { breadcrumb_board_name(items.drop_first()) }
    }
}

/// The board's name that a page's JSON-LD breadcrumb list gives at position 2,
/// or nothing.
pub open spec fn board_name_of_page(html: Seq<char>) -> Seq<char> {
    match ld_json_from(html, 0) {
        None => Seq::empty(),
        Some(text) => match json_parsed(text) {
            Some(JsonValue::Array(items)) => match breadcrumb_board_name(items@) {
                Some(n) => n,
                None => Seq::empty(),
            },
            _ => Seq::empty(),
        },
    }
}

fn first_lit_match(s: &Vec<char>, lit: &Vec<char>, i: usize) -> (res: Option<usize>)
    requires
        i <= s.len(),
    ensures
        match res {
            Some(k) => first_lit_from(s@, lit@, i as int) == Some(k as int) && i <= k && k + lit@.len() <= s.len(),
            None => first_lit_from(s@, lit@, i as int) is None,
        },
{
    let mut k = i;
    while k < s.len()
        invariant
            i <= k <= s.len(),
            first_lit_from(s@, lit@, i as int) == first_lit_from(s@, lit@, k as int),
        decreases s.len() - k,
    {
        if match_lit(s, k, lit) {
            return Some(k);
        }
        k = k + 1;
    }
    if match_lit(s, k, lit) {
        Some(k)
    } else {
        None
    }
}

fn ld_json_match(s: &Vec<char>, p: usize) -> (res: Option<(usize, usize)>)
    requires
        p < s.len(),
    ensures
        match res {
            Some((c0, c1)) => ld_json_at(s@, p as int) == Some((c0 as int, c1 as int)) && c0 <= c1 <= s.len(),
            None => ld_json_at(s@, p as int) is None,
        },
{
    let open = chars_of("<script");
    let ty = chars_of("type=\"application/ld+json\">");
    let close = chars_of("</script>");
    proof {
        reveal_strlit("<script");
        reveal_strlit("type=\"application/ld+json\">");
    }
    if !match_lit(s, p, &open) {
        return None;
    }
    let w = skip_whitespace(s, p + 7);
    if !(w > p + 7 && match_lit(s, w, &ty)) {
        return None;
    }
    let c0 = w + 27;
    match first_lit_match(s, &close, c0) {
        Some(c1) => Some((c0, c1)),
        None => None,
    }
}

fn key(chars: &str) -> (res: String)
    ensures
        res@ == chars@,
{
    chars.to_owned()
}

fn position_2_name_of(els: &Vec<JsonValue>) -> (res: Option<String>)
    ensures
        match res {
            Some(n) => position_2_name(els@) == Some(n@),
            None => position_2_name(els@) is None,
        },
{
    let pos_key = key("position");
    let name_key = key("name");
    let mut i: usize = 0;
    assert(els@.skip(0) =~= els@);
    while i < els.len()
        invariant
            i <= els.len(),
            pos_key@ == "position"@,
            name_key@ == "name"@,
            position_2_name(els@) == position_2_name(els@.skip(i as int)),
        decreases els.len() - i,
    {
        assert(els@.skip(i as int)[0] == els@[i as int]);
        assert(els@.skip(i as int).drop_first() == els@.skip(i + 1));
        let el = &els[i];
        let found = match json_get(el, &pos_key) {
            Some(p) => json_as_i64(p) == Some(2i64),
            None => false,
        };
        if found {
            match json_get(el, &name_key) {
                Some(n) => match json_as_str(n) {
                    Some(name) => {
                        return Some(name.clone());
                    },
                    None => {},
                },
                None => {},
            }
        }
        i = i + 1;
    }
    assert(els@.skip(i as int).len() == 0);
    None
}

fn breadcrumb_name_of(items: &Vec<JsonValue>) -> (res: Option<String>)
    ensures
        match res {
            Some(n) => breadcrumb_board_name(items@) == Some(n@),
            None => breadcrumb_board_name(items@) is None,
        },
{
    let type_key = key("@type");
    let list_key = key("itemListElement");
    let list_name = chars_of("BreadcrumbList");
    let mut i: usize = 0;
    assert(items@.skip(0) =~= items@);
    while i < items.len()
        invariant
            i <= items.len(),
            type_key@ == "@type"@,
            list_key@ == "itemListElement"@,
            list_name@ == "BreadcrumbList"@,
            breadcrumb_board_name(items@) == breadcrumb_board_name(items@.skip(i as int)),
        decreases items.len() - i,
    {
        assert(items@.skip(i as int)[0] == items@[i as int]);
        assert(items@.skip(i as int).drop_first() == items@.skip(i + 1));
        let item = &items[i];
        let is_list = match json_get(item, &type_key) {
            Some(t) => match json_as_str(t) {
                Some(ts) => {
                    let tc = chars_of(ts.as_str());
                    chars_equal(&tc, &list_name)
                },
                None => false,
            },
            None => false,
        };
        if is_list {
            match json_get(item, &list_key) {
                Some(JsonValue::Array(els)) => {
                    match position_2_name_of(els) {
                        Some(n) => {
                            return Some(n);
                        },
                        None => {},
                    }
                },
                _ => {},
            }
        }
        i = i + 1;
    }
    assert(items@.skip(i as int).len() == 0);
    None
}

fn first_ld_json(s: &Vec<char>) -> (res: Option<(usize, usize)>)
    ensures
        match res {
            Some((c0, c1)) => ld_json_from(s@, 0) == Some(s@.subrange(c0 as int, c1 as int)) && c0 <= c1 <= s.len(),
            None => ld_json_from(s@, 0) is None,
        },
{
    let mut p: usize = 0;
    while p < s.len()
        invariant
            p <= s.len(),
            ld_json_from(s@, 0) == ld_json_from(s@, p as int),
        decreases s.len() - p,
    {
        match ld_json_match(s, p) {
            Some(r) => {
                return Some(r);
            },
            None => {},
        }
        p = p + 1;
    }
    None
}

/// The board's name from the page's JSON-LD breadcrumb list (the element at
/// position 2 of the first `BreadcrumbList` that has one); empty when absent.
pub fn extract_board_name(full_html: &str) -> (res: String)
    ensures
        res@ == board_name_of_page(full_html@),
{
    let s = chars_of(full_html);
    let (c0, c1) = match first_ld_json(&s) {
        None => {
            return String::new();
        },
        Some(r) => r,
    };
    assert(ld_json_from(s@, 0) == Some(s@.subrange(c0 as int, c1 as int)));
    let text = slice_chars(&s, c0, c1);
    let parsed = parse_json(string_from_chars(text.as_slice()).as_str());
    match &parsed {
        Some(JsonValue::Array(items)) => match breadcrumb_name_of(items) {
            Some(n) => n,
            None => String::new(),
        },
        _ => String::new(),
    }
}


pub struct ExportPostView {
    pub external_id: Seq<char>,
    pub num: u32,
    pub author_name_display: Seq<char>,
    pub user_id: Seq<char>,
    pub posted_at_raw: Seq<char>,
    pub body_raw: Seq<char>,
    pub body_display: Seq<char>,
    pub body_html_original: Seq<char>,
    pub mail_encoded: Option<Seq<char>>,
    pub mail_decoded: Option<Seq<char>>,
    pub posted_at: Option<Seq<char>>,
    pub reply_to: Option<Seq<u32>>,
}

impl View for ExportPost {
    type V = ExportPostView;

    open spec fn view(&self) -> ExportPostView {
        ExportPostView {
            external_id: self.external_id@,
            num: self.num,
            author_name_display: self.author_name_display@,
            user_id: self.user_id@,
            posted_at_raw: self.posted_at_raw@,
            body_raw: self.body_raw@,
            body_display: self.body_display@,
            body_html_original: self.body_html_original@,
            mail_encoded: opt_view(self.mail_encoded),
            mail_decoded: opt_view(self.mail_decoded),
            posted_at: opt_view(self.posted_at),
            reply_to: match self.reply_to {
                Some(r) => Some(r@),
                None => None,
            },
        }
    }
}

pub open spec fn is_hex_char(c: char) -> bool {
    ('0' <= c && c <= '9') || ('a' <= c && c <= 'f') || ('A' <= c && c <= 'F')
}

/// End of the run of hexadecimal digits that starts at `i`.
pub open spec fn hex_run_end(s: Seq<char>, i: int) -> int
    decreases s.len() - i,
{
    if i < 0 || i >= s.len() {
        if i < 0 { 0 } else { s.len() as int }
    } else if is_hex_char(s[i]) {
        hex_run_end(s, i + 1)
    } else {
        i
    }
}

/// `href="/cdn-cgi/l/email-protection#([0-9a-fA-F]+)"` at `h`: the bounds of the digits.
pub open spec fn mail_href_at(s: Seq<char>, h: int) -> Option<(int, int)> {
    let a = h + 34;
    let e = hex_run_end(s, a);
    if lit_at(s, h, "href=\"/cdn-cgi/l/email-protection#"@) && e > a && e < s.len() && s[e] == '"' {
        Some((a, e))
    } else {
        None
    }
}

/// The last `h` in `[lo, h]` where `mail_href_at` matches.
pub open spec fn mail_href_down(s: Seq<char>, h: int, lo: int) -> Option<int>
    decreases h - lo + 1,
{
    if h < lo {
        None
    } else if mail_href_at(s, h) is Some {
        Some(h)
    } else {
        mail_href_down(s, h - 1, lo)
    }
}

/// A match of `<a\s+[^>]*href="/cdn-cgi/l/email-protection#([0-9a-fA-F]+)"[^>]*>(.*?)</a>`
/// at `p`: the bounds of the digits, the `>` at `g` and the `<` of `</a>` at `c`.
pub open spec fn mail_link_at(s: Seq<char>, p: int) -> Option<(int, int, int, int)> {
    if lit_at(s, p, "<a"@) && p + 2 < s.len() && is_ws(s[p + 2]) {
        let g = find_char(s, '>', p + 2);
        match mail_href_down(s, g - 1, p + 3) {
            None => None,
            Some(h) => match first_lit_from(s, "</a>"@, g + 1) {
                None => None,
                Some(c) => if g < s.len() && find_char(s, '\n', g + 1) >= c {
                    let (a, e) = mail_href_at(s, h)->0;
                    Some((a, e, g, c))
                } else {
                    None
                },
            },
        }
    } else {
        None
    }
}

/// The leftmost match of the e-mail link pattern in `s[p..]`.
pub open spec fn mail_link_from(s: Seq<char>, p: int) -> Option<(int, int, int, int)>
    decreases s.len() - p,
{
    if p < 0 || p >= s.len() {
        None
    } else {
        match mail_link_at(s, p) {
            Some(m) => Some(m),
            None => mail_link_from(s, p + 1),
        }
    }
}

/// The author's name and e-mail fields of an exported post.
pub open spec fn export_author(username_html: Option<String>) -> (Seq<char>, Option<Seq<char>>, Option<Seq<char>>) {
    match username_html {
        None => ("名無し"@, None, None),
        Some(h) => {
            let raw = inner_of(h@);
            match mail_link_from(raw, 0) {
                Some((a, e, g, c)) => {
                    let encoded = raw.subrange(a, e);
                    (
                        trim(strip_tags(raw.subrange(g + 1, c), Seq::empty())),
                        Some(encoded),
                        cf_email_decoded(vstd::utf8::encode_utf8(encoded)),
                    )
                },
                None => {
                    let cleaned = trim(strip_tags(raw, Seq::empty()));
                    (if cleaned.len() > 0 { cleaned } else { "名無し"@ }, None, None)
                },
            }
        },
    }
}

/// The poster's ID: the `uid` text, trimmed, without a leading `ID:`.
pub open spec fn export_user_id(uid_text: Option<String>) -> Seq<char> {
    match uid_text {
        None => Seq::empty(),
        Some(t) => {
            let tt = trim(t@);
            if lit_at(tt, 0, "ID:"@) { trim(tt.skip(3)) } else { tt }
        },
    }
}

/// The exported post of a `div`, if it is a post with a numeric id.
pub open spec fn export_post_of_div(d: ScrapedDiv, thread_id: Seq<char>) -> Option<ExportPostView> {
    if !is_post_node(d) {
        None
    } else {
        match d.postid_text {
            None => None,
            Some(id) => match parse_u32(trim(id@)) {
                None => None,
                Some(num) => {
                    let (author, enc, dec) = export_author(d.username_html);
                    let raw_time = opt_trimmed(d.date_text);
                    let body = opt_inner(opt_view(d.content_html));
                    let replies = reply_numbers_from(body, 0);
                    Some(ExportPostView {
                        external_id: thread_id + "#"@ + decimal(num as nat),
                        num,
                        author_name_display: author,
                        user_id: export_user_id(d.uid_text),
                        posted_at_raw: raw_time,
                        body_raw: plain_text(body),
                        body_display: restored(plain_text(body)),
                        body_html_original: trim(body),
                        mail_encoded: enc,
                        mail_decoded: dec,
                        posted_at: posted_at_value(raw_time),
                        reply_to: if replies.len() == 0 { None } else { Some(replies) },
                    })
                },
            },
        }
    }
}

/// A post whose time stamp's fraction would be cut inside a character (see
/// `posted_at_slices_char`); no record is made of such a post.
pub open spec fn export_div_panics(d: ScrapedDiv) -> bool {
    is_post_node(d) && match d.postid_text {
        None => false,
        Some(id) => parse_u32(trim(id@)) is Some && posted_at_slices_char(opt_trimmed(d.date_text)),
    }
}

pub open spec fn export_posts_of_divs(divs: Seq<ScrapedDiv>, thread_id: Seq<char>) -> Seq<ExportPostView>
    decreases divs.len(),
{
    if divs.len() == 0 {
        Seq::empty()
    } else {
        let rest = export_posts_of_divs(divs.drop_last(), thread_id);
        match export_post_of_div(divs.last(), thread_id) {
            Some(p) => rest.push(p),
            None => rest,
        }
    }
}

pub open spec fn export_posts_view(ps: Seq<ExportPost>) -> Seq<ExportPostView> {
    ps.map_values(|p: ExportPost| p@)
}

fn hex_run(s: &Vec<char>, i: usize) -> (res: usize)
    requires
        i <= s.len(),
    ensures
        res == hex_run_end(s@, i as int),
        i <= res <= s.len(),
{
    let mut k = i;
    while k < s.len() && (('0' <= s[k] && s[k] <= '9') || ('a' <= s[k] && s[k] <= 'f') || ('A' <= s[k] && s[k] <= 'F'))
        invariant
            i <= k <= s.len(),
            hex_run_end(s@, i as int) == hex_run_end(s@, k as int),
        decreases s.len() - k,
    {
        k = k + 1;
    }
    k
}

fn mail_href_match(s: &Vec<char>, h: usize, lit: &Vec<char>) -> (res: Option<(usize, usize)>)
    requires
        lit@ == "href=\"/cdn-cgi/l/email-protection#"@,
        h <= s.len(),
    ensures
        match res {
            Some((a, e)) => mail_href_at(s@, h as int) == Some((a as int, e as int)) && a < e < s.len()
                && forall|k: int| a <= k < e ==> is_hex_char(#[trigger] s@[k]),
            None => mail_href_at(s@, h as int) is None,
        },
{
    proof {
        reveal_strlit("href=\"/cdn-cgi/l/email-protection#");
    }
    if !match_lit(s, h, lit) {
        return None;
    }
    let a = h + 34;
    let e = hex_run(s, a);
    proof {
        lemma_hex_run(s@, a as int);
    }
    if e > a && e < s.len() && s[e] == '"' {
        Some((a, e))
    } else {
        None
    }
}

fn last_mail_href(s: &Vec<char>, g: usize, lo: usize, lit: &Vec<char>) -> (res: Option<(usize, usize, usize)>)
    requires
        lit@ == "href=\"/cdn-cgi/l/email-protection#"@,
        g <= s.len(),
        lo >= 1,
    ensures
        match res {
            Some((h, a, e)) => mail_href_down(s@, g - 1, lo as int) == Some(h as int) && mail_href_at(s@, h as int)
                == Some((a as int, e as int)) && a < e < s.len() && forall|k: int| a <= k < e ==> is_hex_char(#[trigger] s@[k]),
            None => mail_href_down(s@, g - 1, lo as int) is None,
        },
{
    let mut h = g;
    while h > lo
        invariant
            h <= g <= s.len(),
            lit@ == "href=\"/cdn-cgi/l/email-protection#"@,
            mail_href_down(s@, g - 1, lo as int) == mail_href_down(s@, h - 1, lo as int),
        decreases h,
    {
        match mail_href_match(s, h - 1, lit) {
            Some((a, e)) => {
                return Some((h - 1, a, e));
            },
            None => {},
        }
        h = h - 1;
    }
    None
}

fn mail_link_match(s: &Vec<char>, p: usize) -> (res: Option<(usize, usize, usize, usize)>)
    requires
        p < s.len(),
    ensures
        match res {
            Some((a, e, g, c)) => mail_link_at(s@, p as int) == Some((a as int, e as int, g as int, c as int))
                && a < e < s.len() && g < c <= s.len() && forall|k: int| a <= k < e ==> is_hex_char(#[trigger] s@[k]),
            None => mail_link_at(s@, p as int) is None,
        },
{
    let open = chars_of("<a");
    let lit = chars_of("href=\"/cdn-cgi/l/email-protection#");
    let close = chars_of("</a>");
    proof {
        reveal_strlit("<a");
        reveal_strlit("</a>");
    }
    if !(match_lit(s, p, &open) && p + 2 < s.len() && is_whitespace(s[p + 2])) {
        return None;
    }
    let g = find_char_from(s, '>', p + 2);
    let (a, e) = match last_mail_href(s, g, p + 3, &lit) {
        Some((_, a, e)) => (a, e),
        None => {
            return None;
        },
    };
    if g >= s.len() {
        return None;
    }
    match first_lit_match(s, &close, g + 1) {
        None => None,
        Some(c) => {
            if find_char_from(s, '\n', g + 1) >= c {
                Some((a, e, g, c))
            } else {
                None
            }
        },
    }
}


proof fn lemma_hex_run(s: Seq<char>, i: int)
    requires
        0 <= i <= s.len(),
    ensures
        i <= hex_run_end(s, i) <= s.len(),
        forall|k: int| i <= k < hex_run_end(s, i) ==> is_hex_char(#[trigger] s[k]),
    decreases s.len() - i,
{
    if i < s.len() && is_hex_char(s[i]) {
        lemma_hex_run(s, i + 1);
    }
}

proof fn lemma_ascii_boundary_2(t: Seq<char>)
    requires
        forall|k: int| 0 <= k < t.len() ==> '0' <= #[trigger] t[k] <= '\u{7f}',
    ensures
        vstd::utf8::encode_utf8(t).len() == t.len(),
        t.len() >= 2 ==> is_char_boundary(vstd::utf8::encode_utf8(t), 2),
{
    let bytes = vstd::utf8::encode_utf8(t);
    assert forall|i: int| 0 <= i < t.len() implies '\0' <= #[trigger] t[i] <= '\u{7f}' by {
        let c = t[i];
        assert(c <= '\u{7f}');
        assert('\0' <= c);
    }
    assert(vstd::utf8::is_ascii_chars(t));
    vstd::utf8::is_ascii_chars_encode_utf8(t);
    vstd::utf8::encode_utf8_valid_utf8(t);
    if t.len() == 2 {
        vstd::utf8::is_char_boundary_start_end_of_seq(bytes);
    } else if t.len() > 2 {
        assert(t[2] as u8 == bytes[2]);
        vstd::utf8::is_char_boundary_iff_not_is_continuation_byte(bytes, 2);
    }
}

fn first_mail_link(raw: &Vec<char>) -> (res: Option<(usize, usize, usize, usize)>)
    ensures
        match res {
            Some((a, e, g, c)) => mail_link_from(raw@, 0) == Some((a as int, e as int, g as int, c as int))
                && a < e < raw.len() && g < c <= raw.len() && forall|k: int| a <= k < e ==> is_hex_char(#[trigger] raw@[k]),
            None => mail_link_from(raw@, 0) is None,
        },
{
    let mut p: usize = 0;
    while p < raw.len()
        invariant
            p <= raw.len(),
            mail_link_from(raw@, 0) == mail_link_from(raw@, p as int),
        decreases raw.len() - p,
    {
        let r = mail_link_match(raw, p);
        if r.is_some() {
            return r;
        }
        p = p + 1;
    }
    None
}

fn export_author_of(username_html: &Option<String>) -> (res: (Vec<char>, Option<String>, Option<String>))
    ensures
        (res.0@, opt_view(res.1), opt_view(res.2)) == export_author(*username_html),
{
    match username_html {
        None => (chars_of("名無し"), None, None),
        Some(h) => {
            let hv = chars_of(h.as_str());
            let raw = crate::parse::inner_chars(&hv);
            let m = first_mail_link(&raw);
            let empty: Vec<char> = Vec::new();
            match m {
                Some((a, e, g, c)) => {
                    let enc = slice_chars(&raw, a, e);
                    let title = slice_chars(&raw, g + 1, c);
                    let stripped = crate::parse::strip_tags_chars(&title, &empty);
                    let author = crate::text::trim_chars(&stripped);
                    let enc_s = string_from_chars(enc.as_slice());
                    proof {
                        assert forall|k: int| 0 <= k < enc@.len() implies '0' <= #[trigger] enc@[k] <= '\u{7f}' by {
                            assert(enc@[k] == raw@[a + k]);
                            assert(is_hex_char(raw@[a + k]));
                        }
                        lemma_ascii_boundary_2(enc@);
                    }
                    let dec = decode_cf_email(enc_s.as_str());
                    (author, Some(enc_s), dec)
                },
                None => {
                    let stripped = crate::parse::strip_tags_chars(&raw, &empty);
                    let cleaned = crate::text::trim_chars(&stripped);
                    if cleaned.len() > 0 {
                        (cleaned, None, None)
                    } else {
                        (chars_of("名無し"), None, None)
                    }
                },
            }
        },
    }
}


fn export_user_id_of(uid_text: &Option<String>) -> (res: Vec<char>)
    ensures
        res@ == export_user_id(*uid_text),
{
    match uid_text {
        None => Vec::new(),
        Some(t) => {
            let tv = chars_of(t.as_str());
            let tt = crate::text::trim_chars(&tv);
            let id = chars_of("ID:");
            proof {
                reveal_strlit("ID:");
            }
            if match_lit(&tt, 0, &id) {
                let rest = slice_chars(&tt, 3, tt.len());
                assert(rest@ == tt@.skip(3));
                crate::text::trim_chars(&rest)
            } else {
                tt
            }
        },
    }
}

pub fn export_post_from_div(d: &ScrapedDiv, thread_external_id: &str) -> (res: Option<ExportPost>)
    requires
        !export_div_panics(*d),
    ensures
        match res {
            Some(p) => export_post_of_div(*d, thread_external_id@) == Some(p@),
            None => export_post_of_div(*d, thread_external_id@) is None,
        },
{
    if !crate::parse::is_post_div(d) {
        return None;
    }
    let id = match &d.postid_text {
        None => return None,
        Some(id) => id,
    };
    let idv = chars_of(id.as_str());
    let idt = crate::text::trim_chars(&idv);
    assert(idt@.subrange(0, idt@.len() as int) == idt@);
    let num = match parse_u32_chars(&idt, 0, idt.len()) {
        None => return None,
        Some(n) => n,
    };
    let (author, mail_encoded, mail_decoded) = export_author_of(&d.username_html);
    let raw_time = crate::parse::opt_trimmed_chars(&d.date_text);
    let raw_time_s = string_from_chars(raw_time.as_slice());
    let user_id = export_user_id_of(&d.uid_text);
    let body = crate::parse::content_of_div(&d.content_html);
    let body_s = string_from_chars(body.as_slice());
    let replies = extract_reply_to(body_s.as_str());
    let plain = crate::parse::plain_text_chars(&body);
    let display = crate::parse::restore_h_chars(&plain);
    let html_original = crate::text::trim_chars(&body);
    let mut ext = chars_of(thread_external_id);
    ext.push('#');
    push_decimal(&mut ext, num as u64);
    proof {
        reveal_strlit("#");
        assert(ext@ =~= thread_external_id@ + "#"@ + decimal(num as nat));
    }
    let posted_at = parse_posted_at(raw_time_s.as_str());
    let reply_to = if replies.len() == 0 { None } else { Some(replies) };
    let p = ExportPost {
        external_id: string_from_chars(ext.as_slice()),
        num,
        author_name_display: string_from_chars(author.as_slice()),
        user_id: string_from_chars(user_id.as_slice()),
        posted_at_raw: raw_time_s,
        body_raw: string_from_chars(plain.as_slice()),
        body_display: string_from_chars(display.as_slice()),
        body_html_original: string_from_chars(html_original.as_slice()),
        mail_encoded,
        mail_decoded,
        posted_at,
        reply_to,
    };
    assert(p@ == export_post_of_div(*d, thread_external_id@)->0);
    Some(p)
}

/// The archive records of the posts among a page's `div` elements; each post's
/// `external_id` is `thread_external_id#NUM`.
pub fn export_posts_from_divs(divs: &Vec<ScrapedDiv>, thread_external_id: &str) -> (res: Vec<ExportPost>)
    requires
        forall|i: int| 0 <= i < divs@.len() ==> !export_div_panics(#[trigger] divs@[i]),
    ensures
        export_posts_view(res@) == export_posts_of_divs(divs@, thread_external_id@),
{
    let mut res: Vec<ExportPost> = Vec::new();
    let mut i: usize = 0;
    assert(export_posts_view(res@) =~= export_posts_of_divs(divs@.take(0), thread_external_id@));
    while i < divs.len()
        invariant
            i <= divs.len(),
            forall|k: int| 0 <= k < divs@.len() ==> !export_div_panics(#[trigger] divs@[k]),
            export_posts_view(res@) == export_posts_of_divs(divs@.take(i as int), thread_external_id@),
        decreases divs.len() - i,
    {
        assert(divs@.take(i + 1).drop_last() == divs@.take(i as int));
        match export_post_from_div(&divs[i], thread_external_id) {
            Some(p) => {
                res.push(p);
                assert(export_posts_view(res@) == export_posts_view(res@.drop_last()).push(p@));
            },
            None => {},
        }
        i = i + 1;
    }
    assert(divs@.take(divs.len() as int) == divs@);
    res
}

/// Some post of the page has a time stamp whose fraction would be cut inside
/// a character (see `export_div_panics`).
pub open spec fn export_page_panics(html: Seq<char>) -> bool {
    exists|i: int| 0 <= i < scraped_divs(html).len() && export_div_panics(#[trigger] scraped_divs(html)[i])
}

/// A thread's HTML page read into archive records.
pub fn parse_posts_for_export(html_content: &str, thread_external_id: &str) -> (res: Vec<ExportPost>)
    requires
        !export_page_panics(html_content@),
    ensures
        export_posts_view(res@) == export_posts_of_divs(scraped_divs(html_content@), thread_external_id@),
{
    let divs = scrape_divs(html_content);
    export_posts_from_divs(&divs, thread_external_id)
}

pub fn divs_panic_free(divs: &Vec<ScrapedDiv>) -> (res: bool)
    ensures
        res == forall|i: int| 0 <= i < divs@.len() ==> !export_div_panics(#[trigger] divs@[i]),
{
    let mut i: usize = 0;
    while i < divs.len()
        invariant
            i <= divs.len(),
            forall|k: int| 0 <= k < i ==> !export_div_panics(#[trigger] divs@[k]),
        decreases divs.len() - i,
    {
        if div_panics(&divs[i]) {
            return false;
        }
        i = i + 1;
    }
    true
}

fn div_panics(d: &ScrapedDiv) -> (res: bool)
    ensures
        res == export_div_panics(*d),
{
    if !crate::parse::is_post_div(d) {
        return false;
    }
    match &d.postid_text {
        None => false,
        Some(id) => {
            let idv = chars_of(id.as_str());
            let idt = crate::text::trim_chars(&idv);
            assert(idt@.subrange(0, idt@.len() as int) == idt@);
            if parse_u32_chars(&idt, 0, idt.len()).is_none() {
                return false;
            }
            let raw_time = crate::parse::opt_trimmed_chars(&d.date_text);
            posted_at_would_panic(&raw_time)
        },
    }
}

/// Whether cutting the time stamp's fraction to six bytes would end inside a
/// character.
fn posted_at_would_panic(s: &Vec<char>) -> (res: bool)
    ensures
        res == posted_at_slices_char(s@),
{
    if s.len() < 13 {
        return false;
    }
    let w = skip_whitespace(s, 13);
    if !(all_nd_range(s, 0, 4) && s[4] == '/' && all_nd_range(s, 5, 7) && s[7] == '/' && all_nd_range(s, 8, 10)
        && s[10] == '(' && is_weekday_char(s[11]) && s[12] == ')' && w > 13 && w <= s.len() - 8) {
        return false;
    }
    if !(all_nd_range(s, w, w + 2) && s[w + 2] == ':' && all_nd_range(s, w + 3, w + 5) && s[w + 5] == ':'
        && all_nd_range(s, w + 6, w + 8)) {
        return false;
    }
    if parse_i32_chars(s, 0, 4).is_none() || parse_u32_chars(s, 5, 7).is_none() || parse_u32_chars(s, 8, 10).is_none()
        || parse_u32_chars(s, w, w + 2).is_none() || parse_u32_chars(s, w + 3, w + 5).is_none()
        || parse_u32_chars(s, w + 6, w + 8).is_none() {
        return false;
    }
    let f = w + 8;
    let has_frac = f < s.len() && s[f] == '.' && nd_run(s, f + 1) > f + 1;
    let e = if has_frac { nd_run(s, f + 1) } else { f };
    let mut ext: Vec<char> = if has_frac { slice_chars(s, f + 1, e) } else { Vec::new() };
    let zeros = chars_of("000000");
    append_chars(&mut ext, &zeros);
    !char_boundary_at(&ext, 6)
}

/// Whether byte `n` of the UTF-8 encoding of `v` begins a character (or is its end).
fn char_boundary_at(v: &Vec<char>, n: usize) -> (res: bool)
    requires
        n <= 64,
    ensures
        res == is_char_boundary(vstd::utf8::encode_utf8(v@), n as int),
{
    let ghost bytes = vstd::utf8::encode_utf8(v@);
    let mut k: usize = 0;
    let mut off: usize = 0;
    assert(v@.skip(0) =~= v@);
    while k < v.len() && off < n
        invariant
            k <= v.len(),
            off <= n,
            n <= 64,
            bytes == vstd::utf8::encode_utf8(v@),
            is_char_boundary(bytes, n as int) == is_char_boundary(vstd::utf8::encode_utf8(v@.skip(k as int)), n - off),
        decreases v.len() - k,
    {
        let w = utf8_width(v[k]);
        proof {
            assert(v@.skip(k as int)[0] == v@[k as int]);
            lemma_boundary_step(v@.skip(k as int), n - off);
            assert(v@.skip(k as int).drop_first() == v@.skip(k + 1));
        }
        off = off + w;
        k = k + 1;
        if off > n {
            proof {
                vstd::utf8::encode_utf8_valid_utf8(v@.skip(k as int));
            }
            return false;
        }
    }
    proof {
        vstd::utf8::encode_utf8_valid_utf8(v@.skip(k as int));
        if k == v.len() && off < n {
            assert(v@.skip(k as int).len() == 0);
            assert(vstd::utf8::encode_utf8(v@.skip(k as int)).len() == 0);
        }
    }
    off == n
}


/// The length of a character's UTF-8 encoding.
fn utf8_width(c: char) -> (res: usize)
    ensures
        res == vstd::utf8::encode_scalar(c as u32).len(),
        1 <= res <= 4,
{
    proof {
        vstd::utf8::char_is_scalar(c);
    }
    let cp = c as u32;
    if cp <= 0x7f {
        1
    } else if cp <= 0x7ff {
        2
    } else if cp <= 0xffff {
        3
    } else {
        4
    }
}

proof fn lemma_boundary_step(cs: Seq<char>, m: int)
    requires
        cs.len() > 0,
        m > 0,
    ensures
        is_char_boundary(vstd::utf8::encode_utf8(cs), m) == is_char_boundary(
            vstd::utf8::encode_utf8(cs.drop_first()),
            m - vstd::utf8::encode_scalar(cs[0] as u32).len(),
        ),
{
    let bytes = vstd::utf8::encode_utf8(cs);
    vstd::utf8::encode_utf8_valid_utf8(cs);
    vstd::utf8::encode_utf8_valid_utf8(cs.drop_first());
    vstd::utf8::encode_utf8_first_scalar(cs);
    let w = vstd::utf8::encode_scalar(cs[0] as u32).len();
    assert(bytes == vstd::utf8::encode_scalar(cs[0] as u32) + vstd::utf8::encode_utf8(cs.drop_first()));
    assert(vstd::utf8::pop_first_scalar(bytes) =~= vstd::utf8::encode_utf8(cs.drop_first()));
}


/// `parse_posts_for_export` on the pages where it does not panic; `None` on
/// the others (see `export_page_panics`).
pub fn try_parse_posts_for_export(html_content: &str, thread_external_id: &str) -> (res: Option<Vec<ExportPost>>)
    ensures
        res is None <==> export_page_panics(html_content@),
        res matches Some(v) ==> export_posts_view(v@) == export_posts_of_divs(scraped_divs(html_content@), thread_external_id@),
{
    let divs = scrape_divs(html_content);
    if !divs_panic_free(&divs) {
        return None;
    }
    Some(parse_posts_for_export(html_content, thread_external_id))
}

} // verus!

verus! {

/// A lower-case hexadecimal digit (ASCII) of a value below 16.
pub open spec fn lower_hex_digit(d: u8) -> u8 {
    if d < 10 { (48 + d) as u8 } else { (87 + d) as u8 }
}

/// A byte as two lower-case hexadecimal digits.
pub open spec fn hex_encoded_byte(b: u8) -> Seq<u8> {
    seq![lower_hex_digit(b / 16), lower_hex_digit(b % 16)]
}

/// The bytes of `plain`, each XORed with `key`, as hexadecimal pairs.
pub open spec fn cf_email_encoded_body(plain: Seq<u8>, key: u8) -> Seq<u8>
    decreases plain.len(),
{
    if plain.len() == 0 {
        Seq::empty()
    } else {
        hex_encoded_byte(plain[0] ^ key) + cf_email_encoded_body(plain.drop_first(), key)
    }
}

/// Cloudflare's e-mail obfuscation of `plain` with `key`: the key's pair,
/// then each byte XORed with the key.
pub open spec fn cf_email_encoded(plain: Seq<u8>, key: u8) -> Seq<u8> {
    hex_encoded_byte(key) + cf_email_encoded_body(plain, key)
}

proof fn lemma_hex_pair_of_encoded(b: u8)
    ensures
        hex_pair(hex_encoded_byte(b)[0], hex_encoded_byte(b)[1]) == Some(b),
{
    let hi = b / 16;
    let lo = b % 16;
    assert(b / 16 < 16 && b % 16 < 16 && (b / 16) * 16 + b % 16 == b) by (bit_vector);
    assert(is_hex_byte(lower_hex_digit(hi)) && hex_byte_value(lower_hex_digit(hi)) == hi);
    assert(is_hex_byte(lower_hex_digit(lo)) && hex_byte_value(lower_hex_digit(lo)) == lo);
}

proof fn lemma_encoded_body_len(plain: Seq<u8>, key: u8)
    ensures
        cf_email_encoded_body(plain, key).len() == 2 * plain.len(),
    decreases plain.len(),
{
    if plain.len() > 0 {
        lemma_encoded_body_len(plain.drop_first(), key);
    }
}

proof fn lemma_xor_pairs_of_encoded(s: Seq<u8>, i: int, plain: Seq<u8>, key: u8)
    requires
        0 <= i <= s.len(),
        s.subrange(i, s.len() as int) == cf_email_encoded_body(plain, key),
    ensures
        xor_pairs(s, key, i) == Some(plain),
    decreases plain.len(),
{
    lemma_encoded_body_len(plain, key);
    if plain.len() == 0 {
        assert(xor_pairs(s, key, i) == Some(Seq::<u8>::empty()));
        assert(plain =~= Seq::<u8>::empty());
    } else {
        let x = plain[0] ^ key;
        let rest = cf_email_encoded_body(plain.drop_first(), key);
        let t = s.subrange(i, s.len() as int);
        let h = hex_encoded_byte(x);
        assert(t == h + rest);
        assert(t.len() >= 2);
        assert(t[0] == s[i] && t[1] == s[i + 1]);
        assert((h + rest)[0] == h[0] && (h + rest)[1] == h[1]);
        assert(s[i] == h[0]);
        assert(s[i + 1] == h[1]);
        lemma_hex_pair_of_encoded(x);
        assert(t.subrange(2, t.len() as int) =~= rest);
        assert(s.subrange(i + 2, s.len() as int) =~= t.subrange(2, t.len() as int));
        lemma_xor_pairs_of_encoded(s, i + 2, plain.drop_first(), key);
        let p0 = plain[0];
        assert((p0 ^ key) ^ key == p0) by (bit_vector);
        assert(seq![x ^ key] + plain.drop_first() =~= plain);
    }
}

/// Law: decoding undoes Cloudflare's e-mail obfuscation: the obfuscation of
/// any bytes with any key gives back those bytes, and the text decoded from them
/// (exactly their characters when they are valid UTF-8, see `decode_cf_email`).
pub proof fn lemma_cf_email_roundtrip(plain: Seq<u8>, key: u8)
    ensures
        cf_email_bytes(cf_email_encoded(plain, key)) == Some(plain),
        cf_email_decoded(cf_email_encoded(plain, key)) == Some(utf8_lossy(plain)),
{
    let s = cf_email_encoded(plain, key);
    let h = hex_encoded_byte(key);
    let body = cf_email_encoded_body(plain, key);
    lemma_encoded_body_len(plain, key);
    lemma_hex_pair_of_encoded(key);
    let n = plain.len();
    assert(s.len() == 2 + 2 * n);
    assert((2 + 2 * n) % 2 == 0) by (nonlinear_arith);
    assert(s[0] == h[0] && s[1] == h[1]);
    assert(s.subrange(2, s.len() as int) =~= body);
    lemma_xor_pairs_of_encoded(s, 2, plain, key);
}

} // verus!

verus! {

/// The Markdown lines of a record, before they are joined with newlines.
pub open spec fn markdown_lines(r: ExportResult) -> Seq<Seq<char>> {
    markdown_head(r) + markdown_posts(r.posts@)
}

/// Where post `i`'s lines stand among the lines of the posts.
proof fn lemma_markdown_post_block(ps: Seq<ExportPost>, i: int) -> (off: int)
    requires
        0 <= i < ps.len(),
    ensures
        0 <= off,
        off + markdown_post(ps[i]).len() <= markdown_posts(ps).len(),
        forall|x: int| 0 <= x < markdown_post(ps[i]).len() ==> markdown_posts(ps)[off + x] == markdown_post(ps[i])[x],
    decreases ps.len(),
{
    let init = ps.drop_last();
    if i == ps.len() - 1 {
        let off = markdown_posts(init).len() as int;
        assert(markdown_posts(ps) == markdown_posts(init) + markdown_post(ps.last()));
        off
    } else {
        let off = lemma_markdown_post_block(init, i);
        assert(init[i] == ps[i]);
        assert(markdown_posts(ps) == markdown_posts(init) + markdown_post(ps.last()));
        off
    }
}

/// Law: in the Markdown of a record, each post's heading line is followed by
/// the line `> Reply to: ` with the numbers it replies to (decimal, joined
/// with `, `) when it replies to any, and then by its body; a post that
/// replies to none has its body right after its heading.
pub proof fn lemma_markdown_reply_line(r: ExportResult, i: int)
    requires
        0 <= i < r.posts@.len(),
    ensures
        markdown(r) == join_with(markdown_lines(r), "\n"@),
        ({
            let p = r.posts@[i];
            let lines = markdown_lines(r);
            exists|j: int|
                #![trigger lines[j]]
                0 <= j && j + 2 < lines.len() && lines[j] == markdown_post_header(p) + "\n"@ && match p.reply_to {
                    Some(rs) => if rs@.len() > 0 {
                        lines[j + 1] == "> Reply to: "@ + joined_numbers(rs@) + "\n"@ && lines[j + 2] == p.body_display@ + "\n"@
                    } else {
                        lines[j + 1] == p.body_display@ + "\n"@
                    },
                    None => lines[j + 1] == p.body_display@ + "\n"@,
                }
        }),
{
    let p = r.posts@[i];
    let lines = markdown_lines(r);
    let off = lemma_markdown_post_block(r.posts@, i);
    let hl = markdown_head(r).len() as int;
    let j = hl + off;
    let block = markdown_post(p);
    assert forall|x: int| 0 <= x < block.len() implies lines[j + x] == block[x] by {
        assert(lines[j + x] == markdown_posts(r.posts@)[off + x]);
    }
    assert(lines[j] == block[0]);
    assert(lines[j + 1] == block[1]);
    assert(lines[j + 2] == block[2]);
}

} // verus!

verus! {

/// A text that can be followed by another without changing its reply links:
/// it is empty or ends with `>`.
pub open spec fn closed_at_tag(a: Seq<char>) -> bool {
    a.len() == 0 || a.last() == '>'
}

proof fn lemma_find_char_in_prefix(a: Seq<char>, b: Seq<char>, c: char, k: int)
    requires
        0 <= k,
        find_char(a, c, k) < a.len(),
    ensures
        find_char(a + b, c, k) == find_char(a, c, k),
    decreases a.len() - k,
{
    if k < a.len() && a[k] != c {
        lemma_find_char_in_prefix(a, b, c, k + 1);
    }
    if k < a.len() {
        assert((a + b)[k] == a[k]);
    }
}

proof fn lemma_find_char_after_prefix(a: Seq<char>, b: Seq<char>, c: char, k: int)
    requires
        0 <= k,
    ensures
        find_char(a + b, c, a.len() + k) == a.len() + find_char(b, c, k),
    decreases b.len() - k,
{
    if k < b.len() {
        assert((a + b)[a.len() + k] == b[k]);
        if b[k] != c {
            lemma_find_char_after_prefix(a, b, c, k + 1);
        }
    }
}

proof fn lemma_lit_after_prefix(a: Seq<char>, b: Seq<char>, k: int, lit: Seq<char>)
    requires
        0 <= k,
    ensures
        lit_at(a + b, a.len() + k, lit) == lit_at(b, k, lit),
{
    if lit_at(b, k, lit) {
        assert forall|x: int| 0 <= x < lit.len() implies (a + b)[a.len() + k + x] == lit[x] by {
            assert((a + b)[a.len() + k + x] == b[k + x]);
        }
    }
    if lit_at(a + b, a.len() + k, lit) {
        assert forall|x: int| 0 <= x < lit.len() implies b[k + x] == lit[x] by {
            assert((a + b)[a.len() + k + x] == b[k + x]);
        }
    }
}

/// The reply numbers of `b[k..]` are those of `(a + b)[a.len() + k..]`.
proof fn lemma_reply_numbers_after_prefix(a: Seq<char>, b: Seq<char>, k: int)
    requires
        0 <= k,
    ensures
        reply_numbers_from(a + b, a.len() + k) == reply_numbers_from(b, k),
    decreases b.len() - k,
{
    reveal_strlit("<a");
    let s = a + b;
    let i = a.len() + k;
    if k < b.len() {
        lemma_lit_after_prefix(a, b, k, "<a"@);
        if lit_at(b, k, "<a"@) {
            lemma_find_char(b, '>', k + 2);
        }
        lemma_find_char_after_prefix(a, b, '>', k + 2);
        match reply_tag_at(b, k) {
            Some(g) => {
                assert(s.subrange(i + 2, a.len() + g) =~= b.subrange(k + 2, g));
                assert(reply_tag_at(s, i) == Some(a.len() + g));
                assert(s.subrange(i, a.len() + g + 1) =~= b.subrange(k, g + 1));
                lemma_reply_numbers_after_prefix(a, b, g + 1);
            },
            None => {
                if lit_at(b, k, "<a"@) {
                    let g = find_char(b, '>', k + 2);
                    if g < b.len() {
                        assert(s.subrange(i + 2, a.len() + g) =~= b.subrange(k + 2, g));
                    }
                }
                assert(reply_tag_at(s, i) is None);
                lemma_reply_numbers_after_prefix(a, b, k + 1);
            },
        }
    }
}

proof fn lemma_reply_numbers_split(a: Seq<char>, b: Seq<char>, i: int)
    requires
        0 <= i <= a.len(),
        closed_at_tag(a),
    ensures
        reply_numbers_from(a + b, i) == reply_numbers_from(a, i) + reply_numbers_from(b, 0),
    decreases a.len() - i,
{
    reveal_strlit("<a");
    let s = a + b;
    if i == a.len() {
        lemma_reply_numbers_after_prefix(a, b, 0);
        assert(reply_numbers_from(a, i) =~= Seq::<u32>::empty());
        assert(Seq::<u32>::empty() + reply_numbers_from(b, 0) =~= reply_numbers_from(b, 0));
    } else {
        assert(s[i] == a[i]);
        if lit_at(s, i, "<a"@) {
            assert("<a"@[0] == '<' && "<a"@[1] == 'a');
            assert(s[i + 1] == "<a"@[1] && s[i + 0] == "<a"@[0]);
            assert(i + 2 < a.len()) by {
                if i + 1 >= a.len() - 1 {
                    assert(a.last() == '>');
                    if i + 1 == a.len() - 1 {
                        assert(s[i + 1] == a[i + 1]);
                    } else {
                        assert(s[i] == a[a.len() - 1]);
                    }
                }
            }
            assert forall|x: int| 0 <= x < 2 implies a[i + x] == "<a"@[x] by {
                assert(s[i + x] == a[i + x]);
            }
            assert(lit_at(a, i, "<a"@));
            lemma_find_char(a, '>', i + 2);
            assert(a[a.len() - 1] == '>');
            assert(find_char(a, '>', i + 2) < a.len());
            lemma_find_char_in_prefix(a, b, '>', i + 2);
            let g = find_char(a, '>', i + 2);
            assert(s.subrange(i + 2, g) =~= a.subrange(i + 2, g));
            assert(reply_tag_at(s, i) == reply_tag_at(a, i));
            assert(s.subrange(i, g + 1) =~= a.subrange(i, g + 1));
            lemma_reply_numbers_split(a, b, g + 1);
            match reply_tag_at(a, i) {
                Some(_) => {
                    match first_href_number(a.subrange(i, g + 1), 0) {
                        Some(d) => match parse_u32(d) {
                            Some(n) => {
                                assert(seq![n] + (reply_numbers_from(a, g + 1) + reply_numbers_from(b, 0)) =~= (seq![n]
                                    + reply_numbers_from(a, g + 1)) + reply_numbers_from(b, 0));
                            },
                            None => {},
                        },
                        None => {},
                    }
                },
                None => {
                    lemma_reply_numbers_split(a, b, i + 1);
                },
            }
        } else {
            if lit_at(a, i, "<a"@) {
                assert forall|x: int| 0 <= x < 2 implies s[i + x] == "<a"@[x] by {
                    assert(s[i + x] == a[i + x]);
                }
            }
            lemma_reply_numbers_split(a, b, i + 1);
        }
    }
}

/// Law: every reply link counts, in order: for a body cut after a tag (the
/// first part empty or ending with `>`), the reply targets of the whole are
/// those of the first part followed by those of the second. So two reply
/// links one after the other give both their numbers.
pub proof fn lemma_reply_targets_concatenate(a: Seq<char>, b: Seq<char>)
    requires
        closed_at_tag(a),
    ensures
        reply_numbers_from(a + b, 0) == reply_numbers_from(a, 0) + reply_numbers_from(b, 0),
{
    lemma_reply_numbers_split(a, b, 0);
}

} // verus!

verus! {

/// No reply tag that starts before `p` runs to `p` or past it.
pub open spec fn tag_uncovered(s: Seq<char>, p: int) -> bool {
    forall|q: int|
        0 <= q < p ==> match #[trigger] reply_tag_at(s, q) {
            Some(g) => g < p,
            None => true,
        }
}

/// The number that the reply tag at `p` carries, when it has one.
pub open spec fn reply_tag_number(s: Seq<char>, p: int) -> Option<u32> {
    match reply_tag_at(s, p) {
        Some(g) => match first_href_number(s.subrange(p, g + 1), 0) {
            Some(d) => parse_u32(d),
            None => None,
        },
        None => None,
    }
}

proof fn lemma_reply_numbers_has(s: Seq<char>, i: int, p: int)
    requires
        0 <= i <= p,
        reply_tag_number(s, p) is Some,
        tag_uncovered(s, p),
    ensures
        reply_numbers_from(s, i).contains(reply_tag_number(s, p)->0),
    decreases s.len() - i,
{
    reveal_strlit("<a");
    let n = reply_tag_number(s, p)->0;
    assert(p < s.len());
    if i < s.len() {
        match reply_tag_at(s, i) {
            Some(g) => {
                lemma_find_char(s, '>', i + 2);
                assert(i < g < s.len());
                let rest = reply_numbers_from(s, g + 1);
                if i == p {
                    assert(reply_numbers_from(s, i) == seq![n] + rest);
                    assert(reply_numbers_from(s, i)[0] == n);
                } else {
                    assert(g < p);
                    lemma_reply_numbers_has(s, g + 1, p);
                    let k = choose|k: int| 0 <= k < rest.len() && rest[k] == n;
                    match first_href_number(s.subrange(i, g + 1), 0) {
                        Some(d) => match parse_u32(d) {
                            Some(m) => {
                                assert(reply_numbers_from(s, i) == seq![m] + rest);
                                assert(reply_numbers_from(s, i)[k + 1] == n);
                            },
                            None => {},
                        },
                        None => {},
                    }
                }
            },
            None => {
                lemma_reply_numbers_has(s, i + 1, p);
            },
        }
    }
}

/// Law: every reply link of a body counts: a reply tag anywhere in the body,
/// not inside an earlier tag, whose `href` ends in a number that fits a `u32`,
/// puts that number among the reply targets.
pub proof fn lemma_every_reply_tag_counts(s: Seq<char>, p: int)
    requires
        0 <= p,
        reply_tag_number(s, p) is Some,
        tag_uncovered(s, p),
    ensures
        reply_numbers_from(s, 0).contains(reply_tag_number(s, p)->0),
{
    lemma_reply_numbers_has(s, 0, p);
}

} // verus!
