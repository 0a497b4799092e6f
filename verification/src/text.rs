//! Character-level helpers on which the parsers are built.
//!
//! Every parser of the library works on the characters of its input (`Seq<char>`
//! in the contracts, `Vec<char>` at run time); the helpers here are the
//! building blocks: whitespace trimming, literal search, replacement, and the
//! decimal reading and writing of integers.
use vstd::prelude::*;

use crate::foreign::string_from_chars;

verus! {

/// The characters of `s`, in order.
pub fn chars_of(s: &str) -> (res: Vec<char>)
    ensures
        res@ == s@,
{
    let mut res: Vec<char> = Vec::new();
    for c in it: s.chars()
        invariant
            res@ == it.seq().take(it.index() as int),
            it.seq() == s@,
    {
        res.push(c);
    }
    res
}

/// `char::is_whitespace`: the Unicode `White_Space` property.
pub open spec fn is_ws(c: char) -> bool {
    ||| ('\t' <= c && c <= '\r')
    ||| c == ' '
    ||| c == '\u{85}'
    ||| c == '\u{a0}'
    ||| c == '\u{1680}'
    ||| ('\u{2000}' <= c && c <= '\u{200a}')
    ||| c == '\u{2028}'
    ||| c == '\u{2029}'
    ||| c == '\u{202f}'
    ||| c == '\u{205f}'
    ||| c == '\u{3000}'
}

pub fn is_whitespace(c: char) -> (res: bool)
    ensures
        res == is_ws(c),
{
    ('\t' <= c && c <= '\r') || c == ' ' || c == '\u{85}' || c == '\u{a0}' || c == '\u{1680}'
        || ('\u{2000}' <= c && c <= '\u{200a}') || c == '\u{2028}' || c == '\u{2029}'
        || c == '\u{202f}' || c == '\u{205f}' || c == '\u{3000}'
}

/// Index of the first character of `s` at or after `i` that is not whitespace
/// (`s.len()` when there is none).
pub open spec fn skip_ws(s: Seq<char>, i: int) -> int
    decreases s.len() - i,
{
    if i < 0 || i >= s.len() {
        if i < 0 { 0 } else { s.len() as int }
    } else if is_ws(s[i]) {
        skip_ws(s, i + 1)
    } else {
        i
    }
}

/// One past the last character of `s[..j]` that is not whitespace (`0` when there is none).
pub open spec fn trim_end_index(s: Seq<char>, j: int) -> int
    decreases j,
{
    if j <= 0 || j > s.len() {
        0
    } else if is_ws(s[j - 1]) {
        trim_end_index(s, j - 1)
    } else {
        j
    }
}

/// `str::trim`: `s` without leading and trailing whitespace.
pub open spec fn trim(s: Seq<char>) -> Seq<char> {
    let a = skip_ws(s, 0);
    let b = trim_end_index(s, s.len() as int);
    if a < b { s.subrange(a, b) } else { Seq::empty() }
}

pub proof fn lemma_skip_ws_bounds(s: Seq<char>, i: int)
    requires
        0 <= i <= s.len(),
    ensures
        i <= skip_ws(s, i) <= s.len(),
        forall|k: int| i <= k < skip_ws(s, i) ==> is_ws(#[trigger] s[k]),
        skip_ws(s, i) < s.len() ==> !is_ws(s[skip_ws(s, i)]),
    decreases s.len() - i,
{
    if i < s.len() && is_ws(s[i]) {
        lemma_skip_ws_bounds(s, i + 1);
    }
}

pub proof fn lemma_trim_end_bounds(s: Seq<char>, j: int)
    requires
        0 <= j <= s.len(),
    ensures
        0 <= trim_end_index(s, j) <= j,
        forall|k: int| trim_end_index(s, j) <= k < j ==> is_ws(#[trigger] s[k]),
        trim_end_index(s, j) > 0 ==> !is_ws(s[trim_end_index(s, j) - 1]),
    decreases j,
{
    if j > 0 && is_ws(s[j - 1]) {
        lemma_trim_end_bounds(s, j - 1);
    }
}

/// Index of the first non-whitespace character at or after `i`.
pub fn skip_whitespace(s: &Vec<char>, i: usize) -> (res: usize)
    requires
        i <= s.len(),
    ensures
        res == skip_ws(s@, i as int),
{
    let mut k = i;
    while k < s.len() && is_whitespace(s[k])
        invariant
            i <= k <= s.len(),
            skip_ws(s@, i as int) == skip_ws(s@, k as int),
        decreases s.len() - k,
    {
        k = k + 1;
    }
    k
}

/// `str::trim` on a character vector.
pub fn trim_chars(s: &Vec<char>) -> (res: Vec<char>)
    ensures
        res@ == trim(s@),
{
    let a = skip_whitespace(s, 0);
    let mut b = s.len();
    while b > 0 && is_whitespace(s[b - 1])
        invariant
            b <= s.len(),
            trim_end_index(s@, s.len() as int) == trim_end_index(s@, b as int),
        decreases b,
    {
        b = b - 1;
    }
    if a < b {
        slice_chars(s, a, b)
    } else {
        Vec::new()
    }
}

/// `str::trim` on a string.
pub fn trim_str(s: &str) -> (res: String)
    ensures
        res@ == trim(s@),
{
    let v = chars_of(s);
    let t = trim_chars(&v);
    string_from_chars(t.as_slice())
}

/// The characters `s[a..b]`.
pub fn slice_chars(s: &Vec<char>, a: usize, b: usize) -> (res: Vec<char>)
    requires
        a <= b <= s.len(),
    ensures
        res@ == s@.subrange(a as int, b as int),
{
    let mut res: Vec<char> = Vec::new();
    let mut k = a;
    while k < b
        invariant
            a <= k <= b <= s.len(),
            res@ == s@.subrange(a as int, k as int),
        decreases b - k,
    {
        res.push(s[k]);
        k = k + 1;
    }
    res
}

/// Appends all of `t` to `v`.
pub fn append_chars(v: &mut Vec<char>, t: &Vec<char>)
    ensures
        final(v)@ == old(v)@ + t@,
{
    let mut k: usize = 0;
    while k < t.len()
        invariant
            k <= t.len(),
            v@ == old(v)@ + t@.take(k as int),
        decreases t.len() - k,
    {
        v.push(t[k]);
        k = k + 1;
    }
}

/// Appends the characters of `t` to `v`.
pub fn append_str(v: &mut Vec<char>, t: &str)
    ensures
        final(v)@ == old(v)@ + t@,
{
    let c = chars_of(t);
    append_chars(v, &c);
}

} // verus!

verus! {

/// `\d` of the regex crate: the Unicode general category `Nd` (Unicode 16.0).
pub open spec fn is_nd(ch: char) -> bool {
    let c = ch as u32;
    ||| (0x30 <= c && c <= 0x39)
    ||| (0x660 <= c && c <= 0x669)
    ||| (0x6F0 <= c && c <= 0x6F9)
    ||| (0x7C0 <= c && c <= 0x7C9)
    ||| (0x966 <= c && c <= 0x96F)
    ||| (0x9E6 <= c && c <= 0x9EF)
    ||| (0xA66 <= c && c <= 0xA6F)
    ||| (0xAE6 <= c && c <= 0xAEF)
    ||| (0xB66 <= c && c <= 0xB6F)
    ||| (0xBE6 <= c && c <= 0xBEF)
    ||| (0xC66 <= c && c <= 0xC6F)
    ||| (0xCE6 <= c && c <= 0xCEF)
    ||| (0xD66 <= c && c <= 0xD6F)
    ||| (0xDE6 <= c && c <= 0xDEF)
    ||| (0xE50 <= c && c <= 0xE59)
    ||| (0xED0 <= c && c <= 0xED9)
    ||| (0xF20 <= c && c <= 0xF29)
    ||| (0x1040 <= c && c <= 0x1049)
    ||| (0x1090 <= c && c <= 0x1099)
    ||| (0x17E0 <= c && c <= 0x17E9)
    ||| (0x1810 <= c && c <= 0x1819)
    ||| (0x1946 <= c && c <= 0x194F)
    ||| (0x19D0 <= c && c <= 0x19D9)
    ||| (0x1A80 <= c && c <= 0x1A89)
    ||| (0x1A90 <= c && c <= 0x1A99)
    ||| (0x1B50 <= c && c <= 0x1B59)
    ||| (0x1BB0 <= c && c <= 0x1BB9)
    ||| (0x1C40 <= c && c <= 0x1C49)
    ||| (0x1C50 <= c && c <= 0x1C59)
    ||| (0xA620 <= c && c <= 0xA629)
    ||| (0xA8D0 <= c && c <= 0xA8D9)
    ||| (0xA900 <= c && c <= 0xA909)
    ||| (0xA9D0 <= c && c <= 0xA9D9)
    ||| (0xA9F0 <= c && c <= 0xA9F9)
    ||| (0xAA50 <= c && c <= 0xAA59)
    ||| (0xABF0 <= c && c <= 0xABF9)
    ||| (0xFF10 <= c && c <= 0xFF19)
    ||| (0x104A0 <= c && c <= 0x104A9)
    ||| (0x10D30 <= c && c <= 0x10D39)
    ||| (0x10D40 <= c && c <= 0x10D49)
    ||| (0x11066 <= c && c <= 0x1106F)
    ||| (0x110F0 <= c && c <= 0x110F9)
    ||| (0x11136 <= c && c <= 0x1113F)
    ||| (0x111D0 <= c && c <= 0x111D9)
    ||| (0x112F0 <= c && c <= 0x112F9)
    ||| (0x11450 <= c && c <= 0x11459)
    ||| (0x114D0 <= c && c <= 0x114D9)
    ||| (0x11650 <= c && c <= 0x11659)
    ||| (0x116C0 <= c && c <= 0x116C9)
    ||| (0x116D0 <= c && c <= 0x116E3)
    ||| (0x11730 <= c && c <= 0x11739)
    ||| (0x118E0 <= c && c <= 0x118E9)
    ||| (0x11950 <= c && c <= 0x11959)
    ||| (0x11BF0 <= c && c <= 0x11BF9)
    ||| (0x11C50 <= c && c <= 0x11C59)
    ||| (0x11D50 <= c && c <= 0x11D59)
    ||| (0x11DA0 <= c && c <= 0x11DA9)
    ||| (0x11F50 <= c && c <= 0x11F59)
    ||| (0x16130 <= c && c <= 0x16139)
    ||| (0x16A60 <= c && c <= 0x16A69)
    ||| (0x16AC0 <= c && c <= 0x16AC9)
    ||| (0x16B50 <= c && c <= 0x16B59)
    ||| (0x16D70 <= c && c <= 0x16D79)
    ||| (0x1CCF0 <= c && c <= 0x1CCF9)
    ||| (0x1D7CE <= c && c <= 0x1D7FF)
    ||| (0x1E140 <= c && c <= 0x1E149)
    ||| (0x1E2F0 <= c && c <= 0x1E2F9)
    ||| (0x1E4F0 <= c && c <= 0x1E4F9)
    ||| (0x1E5F1 <= c && c <= 0x1E5FA)
    ||| (0x1E950 <= c && c <= 0x1E959)
    ||| (0x1FBF0 <= c && c <= 0x1FBF9)
}

pub fn is_unicode_digit(ch: char) -> (res: bool)
    ensures
        res == is_nd(ch),
{
    let c = ch as u32;
    (0x30 <= c && c <= 0x39) ||
        (0x660 <= c && c <= 0x669) ||
        (0x6F0 <= c && c <= 0x6F9) ||
        (0x7C0 <= c && c <= 0x7C9) ||
        (0x966 <= c && c <= 0x96F) ||
        (0x9E6 <= c && c <= 0x9EF) ||
        (0xA66 <= c && c <= 0xA6F) ||
        (0xAE6 <= c && c <= 0xAEF) ||
        (0xB66 <= c && c <= 0xB6F) ||
        (0xBE6 <= c && c <= 0xBEF) ||
        (0xC66 <= c && c <= 0xC6F) ||
        (0xCE6 <= c && c <= 0xCEF) ||
        (0xD66 <= c && c <= 0xD6F) ||
        (0xDE6 <= c && c <= 0xDEF) ||
        (0xE50 <= c && c <= 0xE59) ||
        (0xED0 <= c && c <= 0xED9) ||
        (0xF20 <= c && c <= 0xF29) ||
        (0x1040 <= c && c <= 0x1049) ||
        (0x1090 <= c && c <= 0x1099) ||
        (0x17E0 <= c && c <= 0x17E9) ||
        (0x1810 <= c && c <= 0x1819) ||
        (0x1946 <= c && c <= 0x194F) ||
        (0x19D0 <= c && c <= 0x19D9) ||
        (0x1A80 <= c && c <= 0x1A89) ||
        (0x1A90 <= c && c <= 0x1A99) ||
        (0x1B50 <= c && c <= 0x1B59) ||
        (0x1BB0 <= c && c <= 0x1BB9) ||
        (0x1C40 <= c && c <= 0x1C49) ||
        (0x1C50 <= c && c <= 0x1C59) ||
        (0xA620 <= c && c <= 0xA629) ||
        (0xA8D0 <= c && c <= 0xA8D9) ||
        (0xA900 <= c && c <= 0xA909) ||
        (0xA9D0 <= c && c <= 0xA9D9) ||
        (0xA9F0 <= c && c <= 0xA9F9) ||
        (0xAA50 <= c && c <= 0xAA59) ||
        (0xABF0 <= c && c <= 0xABF9) ||
        (0xFF10 <= c && c <= 0xFF19) ||
        (0x104A0 <= c && c <= 0x104A9) ||
        (0x10D30 <= c && c <= 0x10D39) ||
        (0x10D40 <= c && c <= 0x10D49) ||
        (0x11066 <= c && c <= 0x1106F) ||
        (0x110F0 <= c && c <= 0x110F9) ||
        (0x11136 <= c && c <= 0x1113F) ||
        (0x111D0 <= c && c <= 0x111D9) ||
        (0x112F0 <= c && c <= 0x112F9) ||
        (0x11450 <= c && c <= 0x11459) ||
        (0x114D0 <= c && c <= 0x114D9) ||
        (0x11650 <= c && c <= 0x11659) ||
        (0x116C0 <= c && c <= 0x116C9) ||
        (0x116D0 <= c && c <= 0x116E3) ||
        (0x11730 <= c && c <= 0x11739) ||
        (0x118E0 <= c && c <= 0x118E9) ||
        (0x11950 <= c && c <= 0x11959) ||
        (0x11BF0 <= c && c <= 0x11BF9) ||
        (0x11C50 <= c && c <= 0x11C59) ||
        (0x11D50 <= c && c <= 0x11D59) ||
        (0x11DA0 <= c && c <= 0x11DA9) ||
        (0x11F50 <= c && c <= 0x11F59) ||
        (0x16130 <= c && c <= 0x16139) ||
        (0x16A60 <= c && c <= 0x16A69) ||
        (0x16AC0 <= c && c <= 0x16AC9) ||
        (0x16B50 <= c && c <= 0x16B59) ||
        (0x16D70 <= c && c <= 0x16D79) ||
        (0x1CCF0 <= c && c <= 0x1CCF9) ||
        (0x1D7CE <= c && c <= 0x1D7FF) ||
        (0x1E140 <= c && c <= 0x1E149) ||
        (0x1E2F0 <= c && c <= 0x1E2F9) ||
        (0x1E4F0 <= c && c <= 0x1E4F9) ||
        (0x1E5F1 <= c && c <= 0x1E5FA) ||
        (0x1E950 <= c && c <= 0x1E959) ||
        (0x1FBF0 <= c && c <= 0x1FBF9)
}

pub open spec fn is_ascii_digit(c: char) -> bool {
    '0' <= c && c <= '9'
}

/// Whether the character `c` matches the pattern character `p` under the
/// regex crate's case-insensitive mode (simple Unicode case folding), for a
/// pattern written in lower case.
pub open spec fn ci_eq(c: char, p: char) -> bool {
    ||| c == p
    ||| ('a' <= p && p <= 'z' && c as u32 + 32 == p as u32)
    ||| (p == 's' && c == '\u{17f}')
    ||| (p == 'k' && c == '\u{212a}')
}

pub fn ci_char_eq(c: char, p: char) -> (res: bool)
    ensures
        res == ci_eq(c, p),
{
    c == p || ('a' <= p && p <= 'z' && (c as u32) + 32 == (p as u32)) || (p == 's' && c
        == '\u{17f}') || (p == 'k' && c == '\u{212a}')
}

/// `lit` occurs in `s` at index `i`.
pub open spec fn lit_at(s: Seq<char>, i: int, lit: Seq<char>) -> bool {
    &&& 0 <= i
    &&& i + lit.len() <= s.len()
    &&& forall|k: int| 0 <= k < lit.len() ==> s[i + k] == #[trigger] lit[k]
}

/// `lit` occurs in `s` at index `i`, case-insensitively.
pub open spec fn ci_lit_at(s: Seq<char>, i: int, lit: Seq<char>) -> bool {
    &&& 0 <= i
    &&& i + lit.len() <= s.len()
    &&& forall|k: int| 0 <= k < lit.len() ==> ci_eq(s[i + k], #[trigger] lit[k])
}

pub fn match_lit(s: &Vec<char>, i: usize, lit: &Vec<char>) -> (res: bool)
    ensures
        res == lit_at(s@, i as int, lit@),
{
    if i > s.len() || lit.len() > s.len() - i {
        return false;
    }
    let mut k: usize = 0;
    while k < lit.len()
        invariant
            k <= lit.len(),
            i + lit.len() <= s.len(),
            forall|j: int| 0 <= j < k ==> s@[i + j] == #[trigger] lit@[j],
        decreases lit.len() - k,
    {
        if s[i + k] != lit[k] {
            return false;
        }
        k = k + 1;
    }
    true
}

pub fn match_ci_lit(s: &Vec<char>, i: usize, lit: &Vec<char>) -> (res: bool)
    ensures
        res == ci_lit_at(s@, i as int, lit@),
{
    if i > s.len() || lit.len() > s.len() - i {
        return false;
    }
    let mut k: usize = 0;
    while k < lit.len()
        invariant
            k <= lit.len(),
            i + lit.len() <= s.len(),
            forall|j: int| 0 <= j < k ==> ci_eq(s@[i + j], #[trigger] lit@[j]),
        decreases lit.len() - k,
    {
        if !ci_char_eq(s[i + k], lit[k]) {
            return false;
        }
        k = k + 1;
    }
    true
}

/// Index of the first `c` in `s` at or after `i` (`s.len()` when there is none).
pub open spec fn find_char(s: Seq<char>, c: char, i: int) -> int
    decreases s.len() - i,
{
    if i < 0 {
        find_char(s, c, 0)
    } else if i >= s.len() {
        s.len() as int
    } else if s[i] == c {
        i
    } else {
        find_char(s, c, i + 1)
    }
}

pub proof fn lemma_find_char(s: Seq<char>, c: char, i: int)
    requires
        0 <= i <= s.len(),
    ensures
        i <= find_char(s, c, i) <= s.len(),
        forall|k: int| i <= k < find_char(s, c, i) ==> #[trigger] s[k] != c,
        find_char(s, c, i) < s.len() ==> s[find_char(s, c, i)] == c,
    decreases s.len() - i,
{
    if i < s.len() && s[i] != c {
        lemma_find_char(s, c, i + 1);
    }
}

pub fn find_char_from(s: &Vec<char>, c: char, i: usize) -> (res: usize)
    requires
        i <= s.len(),
    ensures
        res == find_char(s@, c, i as int),
        i <= res <= s.len(),
{
    let mut k = i;
    while k < s.len() && s[k] != c
        invariant
            i <= k <= s.len(),
            find_char(s@, c, i as int) == find_char(s@, c, k as int),
        decreases s.len() - k,
    {
        k = k + 1;
    }
    k
}

/// `str::replace(pat, rep)`, from index `i` on: the occurrences of `pat`,
/// taken left to right without overlap, each replaced by `rep`.
pub open spec fn replace_from(s: Seq<char>, pat: Seq<char>, rep: Seq<char>, i: int) -> Seq<char>
    decreases s.len() - i,
{
    if i < 0 || i >= s.len() {
        Seq::empty()
    } else if pat.len() > 0 && lit_at(s, i, pat) {
        rep + replace_from(s, pat, rep, i + pat.len())
    } else {
        seq![s[i]] + replace_from(s, pat, rep, i + 1)
    }
}

pub open spec fn replace_all(s: Seq<char>, pat: Seq<char>, rep: Seq<char>) -> Seq<char> {
    replace_from(s, pat, rep, 0)
}

pub fn replace_chars(s: &Vec<char>, pat: &Vec<char>, rep: &Vec<char>) -> (res: Vec<char>)
    requires
        pat.len() > 0,
    ensures
        res@ == replace_all(s@, pat@, rep@),
{
    let mut out: Vec<char> = Vec::new();
    let mut i: usize = 0;
    while i < s.len()
        invariant
            i <= s.len() + pat.len(),
            pat.len() > 0,
            out@ + replace_from(s@, pat@, rep@, i as int) == replace_all(s@, pat@, rep@),
        decreases s.len() - i,
    {
        if match_lit(s, i, pat) {
            assert(out@ + replace_from(s@, pat@, rep@, i as int) == (out@ + rep@) + replace_from(s@, pat@, rep@, i + pat.len()));
            append_chars(&mut out, rep);
            i = i + pat.len();
        } else {
            assert(out@ + replace_from(s@, pat@, rep@, i as int) == out@.push(s@[i as int]) + replace_from(s@, pat@, rep@, i + 1));
            out.push(s[i]);
            i = i + 1;
        }
    }
    assert(replace_from(s@, pat@, rep@, i as int) == Seq::<char>::empty());
    assert(out@ + Seq::<char>::empty() == out@);
    out
}

pub open spec fn digit_char(d: int) -> char {
    if d == 0 { '0' }
    else if d == 1 { '1' }
    else if d == 2 { '2' }
    else if d == 3 { '3' }
    else if d == 4 { '4' }
    else if d == 5 { '5' }
    else if d == 6 { '6' }
    else if d == 7 { '7' }
    else if d == 8 { '8' }
    else { '9' }
}

fn digit_to_char(d: u64) -> (res: char)
    requires
        d < 10,
    ensures
        res == digit_char(d as int),
{
    if d == 0 { '0' }
    else if d == 1 { '1' }
    else if d == 2 { '2' }
    else if d == 3 { '3' }
    else if d == 4 { '4' }
    else if d == 5 { '5' }
    else if d == 6 { '6' }
    else if d == 7 { '7' }
    else if d == 8 { '8' }
    else { '9' }
}

/// The decimal digits of `n` (as `Display` writes an unsigned integer).
pub open spec fn decimal(n: nat) -> Seq<char>
    decreases n,
{
    if n < 10 {
        seq![digit_char(n as int)]
    } else {
        decimal(n / 10).push(digit_char((n % 10) as int))
    }
}

/// Appends the decimal digits of `n` to `v`.
pub fn push_decimal(v: &mut Vec<char>, n: u64)
    ensures
        final(v)@ == old(v)@ + decimal(n as nat),
    decreases n,
{
    if n >= 10 {
        push_decimal(v, n / 10);
    }
    v.push(digit_to_char(n % 10));
    proof {
        if n >= 10 {
            assert(decimal(n as nat) == decimal((n / 10) as nat).push(digit_char((n % 10) as int)));
        } else {
            assert(decimal(n as nat) == seq![digit_char(n as int)]);
        }
    }
}

/// The value of a sequence of ASCII digits.
pub open spec fn digits_value(s: Seq<char>) -> nat
    decreases s.len(),
{
    if s.len() == 0 {
        0
    } else {
        digits_value(s.drop_last()) * 10 + ((s.last() as u32 - 48) as nat)
    }
}

pub open spec fn all_ascii_digits(s: Seq<char>) -> bool {
    forall|k: int| 0 <= k < s.len() ==> is_ascii_digit(#[trigger] s[k])
}

/// `s` without one leading `+`, if there is one.
pub open spec fn unsigned_body(s: Seq<char>) -> Seq<char> {
    if s.len() > 0 && s[0] == '+' { s.drop_first() } else { s }
}

/// `<u32 as FromStr>::from_str`: an optional `+`, then one or more ASCII digits
/// whose value fits.
pub open spec fn parse_u32(s: Seq<char>) -> Option<u32> {
    let b = unsigned_body(s);
    if b.len() > 0 && all_ascii_digits(b) && digits_value(b) <= u32::MAX {
        Some(digits_value(b) as u32)
    } else {
        None
    }
}

/// `<i64 as FromStr>::from_str`: an optional `+` or `-`, then one or more ASCII
/// digits whose signed value fits.
pub open spec fn parse_i64(s: Seq<char>) -> Option<i64> {
    if s.len() > 0 && s[0] == '-' {
        let b = s.drop_first();
        if b.len() > 0 && all_ascii_digits(b) && digits_value(b) <= 0x8000_0000_0000_0000 {
            Some((0 - digits_value(b)) as i64)
        } else {
            None
        }
    } else {
        let b = unsigned_body(s);
        if b.len() > 0 && all_ascii_digits(b) && digits_value(b) <= i64::MAX {
            Some(digits_value(b) as i64)
        } else {
            None
        }
    }
}

/// `<i32 as FromStr>::from_str`.
pub open spec fn parse_i32(s: Seq<char>) -> Option<i32> {
    if s.len() > 0 && s[0] == '-' {
        let b = s.drop_first();
        if b.len() > 0 && all_ascii_digits(b) && digits_value(b) <= 0x8000_0000 {
            Some((0 - digits_value(b)) as i32)
        } else {
            None
        }
    } else {
        let b = unsigned_body(s);
        if b.len() > 0 && all_ascii_digits(b) && digits_value(b) <= i32::MAX {
            Some(digits_value(b) as i32)
        } else {
            None
        }
    }
}

pub proof fn lemma_digits_value_prefix(s: Seq<char>, k: int)
    requires
        0 <= k <= s.len(),
        all_ascii_digits(s),
    ensures
        digits_value(s.take(k)) <= digits_value(s),
    decreases s.len() - k,
{
    if k < s.len() {
        lemma_digits_value_prefix(s, k + 1);
        assert(s.take(k + 1).drop_last() == s.take(k));
    } else {
        assert(s.take(k) == s);
    }
}

/// The value of the ASCII digits `s[a..b]`, or `None` when one of them is not
/// an ASCII digit or the value exceeds `limit`.
fn digits_value_upto(s: &Vec<char>, a: usize, b: usize, limit: u64) -> (res: Option<u64>)
    requires
        a <= b <= s.len(),
        limit >= 9,
    ensures
        match res {
            Some(v) => all_ascii_digits(s@.subrange(a as int, b as int)) && v == digits_value(
                s@.subrange(a as int, b as int),
            ) && v <= limit,
            None => !all_ascii_digits(s@.subrange(a as int, b as int)) || digits_value(
                s@.subrange(a as int, b as int),
            ) > limit,
        },
{
    let ghost t = s@.subrange(a as int, b as int);
    let mut k = a;
    let mut acc: u64 = 0;
    while k < b
        invariant
            a <= k <= b <= s.len(),
            t == s@.subrange(a as int, b as int),
            all_ascii_digits(t.take(k - a)),
            acc == digits_value(t.take(k - a)),
            acc <= limit,
            limit >= 9,
        decreases b - k,
    {
        let c = s[k];
        if !('0' <= c && c <= '9') {
            assert(!is_ascii_digit(t[k - a]));
            return None;
        }
        assert(48 <= c as u32 <= 57);
        let d = (c as u32 - 48) as u64;
        assert(t.take(k - a + 1).drop_last() == t.take(k - a));
        if acc > (limit - d) / 10 {
            proof {
                assert(digits_value(t.take(k - a + 1)) > limit) by (nonlinear_arith)
                    requires
                        acc > (limit - d) / 10,
                        digits_value(t.take(k - a + 1)) == acc * 10 + d,
                        d <= limit,
                        d < 10,
                ;
                if all_ascii_digits(t) {
                    lemma_digits_value_prefix(t, k - a + 1);
                }
            }
            return None;
        }
        proof {
            assert(acc * 10 + d <= limit) by (nonlinear_arith)
                requires
                    acc <= (limit - d) / 10,
                    d <= limit,
            ;
        }
        acc = acc * 10 + d;
        k = k + 1;
    }
    assert(t.take(b - a) == t);
    Some(acc)
}

/// `<u32 as FromStr>::from_str` on `s[a..b]`.
pub fn parse_u32_chars(s: &Vec<char>, a: usize, b: usize) -> (res: Option<u32>)
    requires
        a <= b <= s.len(),
    ensures
        res == parse_u32(s@.subrange(a as int, b as int)),
{
    let ghost t = s@.subrange(a as int, b as int);
    let mut start = a;
    if a < b && s[a] == '+' {
        start = a + 1;
        assert(unsigned_body(t) == s@.subrange(start as int, b as int));
    } else {
        assert(unsigned_body(t) == s@.subrange(start as int, b as int));
    }
    if start == b {
        return None;
    }
    match digits_value_upto(s, start, b, 0xffff_ffff) {
        Some(v) => Some(v as u32),
        None => None,
    }
}

/// `<i64 as FromStr>::from_str` on `s[a..b]`.
pub fn parse_i64_chars(s: &Vec<char>, a: usize, b: usize) -> (res: Option<i64>)
    requires
        a <= b <= s.len(),
    ensures
        res == parse_i64(s@.subrange(a as int, b as int)),
{
    let ghost t = s@.subrange(a as int, b as int);
    if a < b && s[a] == '-' {
        assert(t.drop_first() == s@.subrange(a + 1, b as int));
        if a + 1 == b {
            return None;
        }
        match digits_value_upto(s, a + 1, b, 0x8000_0000_0000_0000) {
            Some(v) => {
                if v == 0x8000_0000_0000_0000 {
                    Some(i64::MIN)
                } else {
                    Some(0 - (v as i64))
                }
            },
            None => None,
        }
    } else {
        let mut start = a;
        if a < b && s[a] == '+' {
            start = a + 1;
        }
        assert(unsigned_body(t) == s@.subrange(start as int, b as int));
        if start == b {
            return None;
        }
        match digits_value_upto(s, start, b, 0x7fff_ffff_ffff_ffff) {
            Some(v) => Some(v as i64),
            None => None,
        }
    }
}

/// `<i32 as FromStr>::from_str` on `s[a..b]`.
pub fn parse_i32_chars(s: &Vec<char>, a: usize, b: usize) -> (res: Option<i32>)
    requires
        a <= b <= s.len(),
    ensures
        res == parse_i32(s@.subrange(a as int, b as int)),
{
    let ghost t = s@.subrange(a as int, b as int);
    if a < b && s[a] == '-' {
        assert(t.drop_first() == s@.subrange(a + 1, b as int));
        if a + 1 == b {
            return None;
        }
        match digits_value_upto(s, a + 1, b, 0x8000_0000) {
            Some(v) => {
                if v == 0x8000_0000 {
                    Some(i32::MIN)
                } else {
                    Some(0 - (v as i32))
                }
            },
            None => None,
        }
    } else {
        let mut start = a;
        if a < b && s[a] == '+' {
            start = a + 1;
        }
        assert(unsigned_body(t) == s@.subrange(start as int, b as int));
        if start == b {
            return None;
        }
        match digits_value_upto(s, start, b, 0x7fff_ffff) {
            Some(v) => Some(v as i32),
            None => None,
        }
    }
}

} // verus!

verus! {

/// `lit` occurs somewhere in `s` (`str::contains`).
pub open spec fn contains_lit(s: Seq<char>, lit: Seq<char>) -> bool {
    exists|i: int| lit_at(s, i, lit)
}

pub fn contains_chars(s: &Vec<char>, lit: &Vec<char>) -> (res: bool)
    ensures
        res == contains_lit(s@, lit@),
{
    if lit.len() > s.len() {
        return false;
    }
    let limit = s.len() - lit.len();
    let mut i: usize = 0;
    while i < limit
        invariant
            i <= limit,
            limit == s.len() - lit.len(),
            forall|j: int| 0 <= j < i ==> !lit_at(s@, j, lit@),
        decreases limit - i,
    {
        if match_lit(s, i, lit) {
            return true;
        }
        i = i + 1;
    }
    if match_lit(s, limit, lit) {
        return true;
    }
    assert forall|j: int| !lit_at(s@, j, lit@) by {
        if 0 <= j <= limit {
        }
    }
    false
}

/// `s` ends with the character `c`.
pub open spec fn ends_with_char(s: Seq<char>, c: char) -> bool {
    s.len() > 0 && s.last() == c
}

} // verus!

verus! {

/// Index of the first case-insensitive occurrence of `lit` at or after `i`.
pub open spec fn first_ci_lit_from(s: Seq<char>, lit: Seq<char>, i: int) -> Option<int>
    decreases s.len() - i,
{
    if i < 0 || i > s.len() {
        None
    } else if ci_lit_at(s, i, lit) {
        Some(i)
    } else if i == s.len() {
        None
    } else {
        first_ci_lit_from(s, lit, i + 1)
    }
}

pub fn first_ci_lit_match(s: &Vec<char>, lit: &Vec<char>, i: usize) -> (res: Option<usize>)
    requires
        i <= s.len(),
    ensures
        match res {
            Some(k) => first_ci_lit_from(s@, lit@, i as int) == Some(k as int) && i <= k && k + lit@.len() <= s.len(),
            None => first_ci_lit_from(s@, lit@, i as int) is None,
        },
{
    let mut k = i;
    while k < s.len()
        invariant
            i <= k <= s.len(),
            first_ci_lit_from(s@, lit@, i as int) == first_ci_lit_from(s@, lit@, k as int),
        decreases s.len() - k,
    {
        if match_ci_lit(s, k, lit) {
            return Some(k);
        }
        k = k + 1;
    }
    if match_ci_lit(s, k, lit) {
        Some(k)
    } else {
        None
    }
}

/// Whether two character vectors are equal.
pub fn chars_equal(a: &Vec<char>, b: &Vec<char>) -> (res: bool)
    ensures
        res == (a@ == b@),
{
    if a.len() != b.len() {
        return false;
    }
    let mut i: usize = 0;
    while i < a.len()
        invariant
            i <= a.len(),
            a.len() == b.len(),
            forall|k: int| 0 <= k < i ==> a@[k] == b@[k],
        decreases a.len() - i,
    {
        if a[i] != b[i] {
            return false;
        }
        i = i + 1;
    }
    assert(a@ =~= b@);
    true
}

} // verus!

verus! {

/// Where `replace_from` yields a text that begins with `w`, and no character
/// of `w` is the first of the replacement, the text had `w` there already.
proof fn lemma_replace_prefix(t: Seq<char>, p: Seq<char>, r: Seq<char>, j: int, w: Seq<char>)
    requires
        p.len() > 0,
        r.len() > 0,
        0 <= j <= t.len(),
        forall|m: int| 0 <= m < w.len() ==> w[m] != r[0],
        lit_at(replace_from(t, p, r, j), 0, w),
    ensures
        lit_at(t, j, w),
    decreases w.len(),
{
    if w.len() > 0 {
        let big = replace_from(t, p, r, j);
        assert(big[0] == w[0]);
        assert(j < t.len());
        if lit_at(t, j, p) {
            assert(big == r + replace_from(t, p, r, j + p.len()));
            assert(big[0] == r[0]);
        } else {
            let rest = replace_from(t, p, r, j + 1);
            assert(big == seq![t[j]] + rest);
            let w2 = w.drop_first();
            assert forall|m: int| 0 <= m < w2.len() implies rest[m] == w2[m] by {
                assert(big[m + 1] == w[m + 1]);
            }
            lemma_replace_prefix(t, p, r, j + 1, w2);
            assert forall|m: int| 0 <= m < w.len() implies t[j + m] == w[m] by {
                if m > 0 {
                    assert(t[j + 1 + (m - 1)] == w2[m - 1]);
                }
            }
        }
    }
}

/// `q`, laid from position `k` of `r` on, disagrees with `r` somewhere.
pub open spec fn overlap_mismatch(r: Seq<char>, q: Seq<char>, k: int) -> bool {
    exists|m: int| 0 <= m < q.len() && k + m < r.len() && r[k + m] != #[trigger] q[m]
}

/// Replacing `p` by `r` leaves no `q` behind, when `q` laid at any position of
/// `r` disagrees with it, `r`'s first character is not in the rest of `q`, and
/// wherever `q` stands in the text, `p` stands too.
pub proof fn lemma_replace_leaves_none(t: Seq<char>, p: Seq<char>, r: Seq<char>, q: Seq<char>, i: int)
    requires
        p.len() > 0,
        r.len() > 0,
        q.len() > 0,
        0 <= i,
        forall|k: int| 0 <= k < r.len() ==> #[trigger] overlap_mismatch(r, q, k),
        forall|m: int| 1 <= m < q.len() ==> q[m] != r[0],
        forall|k: int| i <= k && lit_at(t, k, q) ==> lit_at(t, k, p),
    ensures
        forall|k: int| !lit_at(replace_from(t, p, r, i), k, q),
    decreases t.len() - i,
{
    let big = replace_from(t, p, r, i);
    if i >= t.len() {
        assert(big.len() == 0);
    } else if lit_at(t, i, p) {
        let rest = replace_from(t, p, r, i + p.len());
        assert(big == r + rest);
        lemma_replace_leaves_none(t, p, r, q, i + p.len());
        assert forall|k: int| !lit_at(big, k, q) by {
            if lit_at(big, k, q) {
                if k < r.len() {
                    assert(overlap_mismatch(r, q, k));
                    let m = choose|m: int| 0 <= m < q.len() && k + m < r.len() && r[k + m] != #[trigger] q[m];
                    assert(big[k + m] == r[k + m]);
                    assert(big[k + m] == q[m]);
                } else {
                    assert forall|m: int| 0 <= m < q.len() implies rest[k - r.len() + m] == q[m] by {
                        assert(big[k + m] == q[m]);
                    }
                    assert(lit_at(rest, k - r.len(), q));
                }
            }
        }
    } else {
        let rest = replace_from(t, p, r, i + 1);
        assert(big == seq![t[i]] + rest);
        lemma_replace_leaves_none(t, p, r, q, i + 1);
        assert forall|k: int| !lit_at(big, k, q) by {
            if lit_at(big, k, q) {
                if k == 0 {
                    let w = q.drop_first();
                    assert forall|m: int| 0 <= m < w.len() implies rest[m] == w[m] by {
                        assert(big[m + 1] == q[m + 1]);
                    }
                    lemma_replace_prefix(t, p, r, i + 1, w);
                    assert(big[0] == q[0]);
                    assert forall|m: int| 0 <= m < q.len() implies t[i + m] == q[m] by {
                        if m > 0 {
                            assert(t[i + 1 + (m - 1)] == w[m - 1]);
                        }
                    }
                    assert(lit_at(t, i, q));
                } else {
                    assert forall|m: int| 0 <= m < q.len() implies rest[k - 1 + m] == q[m] by {
                        assert(big[k + m] == q[m]);
                    }
                    assert(lit_at(rest, k - 1, q));
                }
            }
        }
    }
}

/// Replacing a pattern that does not occur changes nothing.
pub proof fn lemma_replace_absent(t: Seq<char>, p: Seq<char>, r: Seq<char>, i: int)
    requires
        p.len() > 0,
        0 <= i <= t.len(),
        forall|k: int| i <= k ==> !lit_at(t, k, p),
    ensures
        replace_from(t, p, r, i) == t.subrange(i, t.len() as int),
    decreases t.len() - i,
{
    if i < t.len() {
        lemma_replace_absent(t, p, r, i + 1);
        assert(t.subrange(i, t.len() as int) =~= seq![t[i]] + t.subrange(i + 1, t.len() as int));
    } else {
        assert(t.subrange(i, t.len() as int) =~= Seq::<char>::empty());
    }
}

} // verus!
