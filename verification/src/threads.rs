//! The thread list of a board: its `subject.txt`, one thread per line
//! (`NUMBER.dat<>TITLE (COUNT)`), and where the read positions come from.
use vstd::prelude::*;

use crate::export::{strip_dat, strip_dat_chars};
use crate::foreign::string_from_chars;
use crate::models::Board;
use crate::nextthread::{digit_run, digit_run_end};
use crate::text::{
    append_str, chars_equal, chars_of, find_char, find_char_from, lemma_find_char, lit_at, match_lit, parse_i64,
    parse_i64_chars, parse_u32, parse_u32_chars, skip_whitespace, skip_ws, slice_chars, trim, trim_chars,
};

verus! {

/// Where the read positions of threads are kept. The history manager keeps
/// them on disk; `NullHistory` keeps none.
pub trait HistoryStore {
    /// The last post read of a thread (0 when it is unknown).
    fn get_last_read(&self, board_url: &str, dat_file: &str) -> u32;

    /// Whether the thread is known.
    fn thread_exists(&self, board_url: &str, dat_file: &str) -> bool;

    /// Records a thread with nothing read, unless it is known.
    fn add_new_thread(&self, title: &str, board_url: &str, dat_file: &str);
}

/// One thread of a board's `subject.txt`.
#[derive(Debug)]
pub struct SubjectLine {
    pub dat_file: String,
    pub title: String,
    pub count: u32,
}

pub struct SubjectLineView {
    pub dat_file: Seq<char>,
    pub title: Seq<char>,
    pub count: u32,
}

impl View for SubjectLine {
    type V = SubjectLineView;

    open spec fn view(&self) -> SubjectLineView {
        SubjectLineView { dat_file: self.dat_file@, title: self.title@, count: self.count }
    }
}

/// The end of a line: `\((\d+)\)\s*$` matches from `j` to the end of `l`.
pub open spec fn count_suffix_at(l: Seq<char>, j: int) -> bool {
    let k = digit_run_end(l, j + 1);
    &&& 0 <= j < l.len()
    &&& l[j] == '('
    &&& j + 1 < k < l.len()
    &&& l[k] == ')'
    &&& skip_ws(l, k + 1) == l.len()
}

/// The first `j` at or after `i` from which the count suffix matches.
pub open spec fn first_count_suffix(l: Seq<char>, i: int) -> Option<int>
    decreases l.len() - i,
{
    if i < 0 || i >= l.len() {
        None
    } else if count_suffix_at(l, i) {
        Some(i)
    } else {
        first_count_suffix(l, i + 1)
    }
}

/// A line of `subject.txt` as `^(\d+\.dat)<>(.*?)\((\d+)\)\s*$` reads it: the
/// `.dat` name, the title (trimmed) and the count. `None` when the pattern does
/// not match or the count does not fit a `u32`.
pub open spec fn subject_line(l: Seq<char>) -> Option<SubjectLineView> {
    let d = digit_run_end(l, 0);
    if d > 0 && lit_at(l, d, ".dat<>"@) {
        match first_count_suffix(l, d + 6) {
            None => None,
            Some(j) => match parse_u32(l.subrange(j + 1, digit_run_end(l, j + 1))) {
                None => None,
                Some(c) => Some(SubjectLineView { dat_file: l.take(d + 4), title: trim(l.subrange(d + 6, j)), count: c }),
            },
        }
    } else {
        None
    }
}

/// The threads of the lines of `s` (split at `\n`) from index `i` on.
pub open spec fn subject_lines_from(s: Seq<char>, i: int) -> Seq<SubjectLineView>
    decreases s.len() - i,
{
    if i < 0 || i > s.len() {
        Seq::empty()
    } else {
        let e = find_char(s, '\n', i);
        let head = match subject_line(s.subrange(i, e)) {
            Some(v) => seq![v],
            None => Seq::empty(),
        };
        if e < s.len() {
            proof {
                lemma_find_char(s, '\n', i);
            }
            head + subject_lines_from(s, e + 1)
        } else {
            head
        }
    }
}

fn count_suffix_match(l: &Vec<char>, j: usize) -> (res: bool)
    requires
        j < l.len(),
    ensures
        res == count_suffix_at(l@, j as int),
{
    if l[j] != '(' {
        return false;
    }
    let k = digit_run(l, j + 1);
    k > j + 1 && k < l.len() && l[k] == ')' && skip_whitespace(l, k + 1) == l.len()
}

fn subject_line_match(l: &Vec<char>) -> (res: Option<SubjectLine>)
    ensures
        match res {
            Some(v) => subject_line(l@) == Some(v@),
            None => subject_line(l@) is None,
        },
{
    let sep = chars_of(".dat<>");
    proof {
        reveal_strlit(".dat<>");
    }
    let d = digit_run(l, 0);
    if !(d > 0 && match_lit(l, d, &sep)) {
        return None;
    }
    let mut j = d + 6;
    while j < l.len() && !count_suffix_match(l, j)
        invariant
            d + 6 <= j <= l.len(),
            first_count_suffix(l@, d + 6) == first_count_suffix(l@, j as int),
        decreases l.len() - j,
    {
        j = j + 1;
    }
    if j >= l.len() {
        return None;
    }
    let k = digit_run(l, j + 1);
    match parse_u32_chars(l, j + 1, k) {
        None => None,
        Some(c) => {
            let dat = slice_chars(l, 0, d + 4);
            let raw = slice_chars(l, d + 6, j);
            let title = trim_chars(&raw);
            assert(dat@ == l@.take(d + 4));
            Some(SubjectLine { dat_file: string_from_chars(dat.as_slice()), title: string_from_chars(title.as_slice()), count: c })
        },
    }
}

pub open spec fn subject_lines_view(v: Seq<SubjectLine>) -> Seq<SubjectLineView> {
    v.map_values(|x: SubjectLine| x@)
}

/// The threads of a `subject.txt`, in the order of its lines; lines that do
/// not match, or whose count does not fit, are left out.
pub fn parse_subject_entries(data: &str) -> (res: Vec<SubjectLine>)
    ensures
        subject_lines_view(res@) == subject_lines_from(data@, 0),
{
    let s = chars_of(data);
    let mut res: Vec<SubjectLine> = Vec::new();
    let mut i: usize = 0;
    let mut done = false;
    while !done
        invariant
            s@ == data@,
            i <= s.len(),
            done ==> subject_lines_view(res@) == subject_lines_from(s@, 0),
            !done ==> subject_lines_view(res@) + subject_lines_from(s@, i as int) == subject_lines_from(s@, 0),
        decreases s.len() - i + (if done { 0int } else { 1int }),
    {
        let e = find_char_from(&s, '\n', i);
        let line = slice_chars(&s, i, e);
        let ghost before = subject_lines_view(res@);
        match subject_line_match(&line) {
            Some(v) => {
                res.push(v);
                assert(subject_lines_view(res@) =~= before.push(v@));
            },
            None => {},
        }
        if e < s.len() {
            assert(subject_lines_view(res@) + subject_lines_from(s@, e + 1) =~= before + subject_lines_from(s@, i as int));
            i = e + 1;
        } else {
            assert(subject_lines_view(res@) =~= before + subject_lines_from(s@, i as int));
            done = true;
        }
    }
    res
}

/// The start time of a thread, read from its `.dat` name: the name without
/// `.dat`, as a number.
pub fn dat_start_time(dat_file: &str) -> (res: Option<i64>)
    ensures
        res == parse_i64(strip_dat(dat_file@)),
{
    let d = chars_of(dat_file);
    let s = strip_dat_chars(&d);
    assert(s@.subrange(0, s@.len() as int) =~= s@);
    parse_i64_chars(&s, 0, s.len())
}

/// The seconds from a thread's start to `now`, at least 1 (the divisor of the
/// thread's posts per day); `None` when the `.dat` name is not a number.
pub fn ikioi_elapsed_seconds(dat_file: &str, now: i64) -> (res: Option<i64>)
    requires
        parse_i64(strip_dat(dat_file@)) matches Some(ts) ==> i64::MIN <= now - ts <= i64::MAX,
    ensures
        match parse_i64(strip_dat(dat_file@)) {
            None => res is None,
            Some(ts) => res == Some(if now - ts < 1 { 1i64 } else { (now - ts) as i64 }),
        },
{
    match dat_start_time(dat_file) {
        None => None,
        Some(ts) => {
            let elapsed = now - ts;
            if elapsed < 1 {
                Some(1)
            } else {
                Some(elapsed)
            }
        },
    }
}

/// The board URL after `subject.txt` was fetched from `final_url`: unchanged
/// when that is the board's own `subject.txt`, else `final_url` without a
/// trailing `subject.txt`.
pub open spec fn redirected_board_url(board_url: Seq<char>, final_url: Seq<char>) -> Seq<char> {
    if final_url == board_url + "subject.txt"@ {
        board_url
    } else if final_url.len() >= 11 && lit_at(final_url, final_url.len() - 11, "subject.txt"@) {
        final_url.take(final_url.len() - 11)
    } else {
        final_url
    }
}

/// Follows a redirect of the board's `subject.txt` (see [`redirected_board_url`]).
pub fn follow_subject_redirect(board: &mut Board, final_url: &str)
    ensures
        final(board).title@ == old(board).title@,
        final(board).url@ == redirected_board_url(old(board).url@, final_url@),
{
    proof {
        reveal_strlit("subject.txt");
    }
    let mut subject = chars_of(board.url.as_str());
    append_str(&mut subject, "subject.txt");
    let f = chars_of(final_url);
    if chars_equal(&subject, &f) {
        return;
    }
    let lit = chars_of("subject.txt");
    let u = if f.len() >= 11 && match_lit(&f, f.len() - 11, &lit) {
        slice_chars(&f, 0, f.len() - 11)
    } else {
        slice_chars(&f, 0, f.len())
    };
    board.url = string_from_chars(u.as_slice());
}

} // verus!
