//! The library's trusted boundary: every call into std without a vstd
//! specification, and into the outside crates, stands here behind a contract
//! that Verus believes without proof. Where an outside function's result
//! takes pages to state, the contract names it (`uninterp spec fn`) as a
//! function of the call's arguments alone.
use vstd::prelude::*;
use vstd::utf8::{decode_utf8, valid_utf8};

use chrono::TimeZone;
use std::fmt::Write;

use crate::browser::UrlParts;
use crate::json::{JsonNumber, JsonValue};
use crate::parse::ScrapedElement;

verus! {

/// `String: FromIterator<char>` (`collect`): a string of exactly these characters.
#[verifier::external_body]
pub(crate) fn string_from_chars(chars: &[char]) -> (res: String)
    ensures
        res@ == chars@,
{
    chars.iter().collect()
}

/// What `String::from_utf8_lossy` makes of a byte sequence: its UTF-8
/// decoding, with each invalid sequence replaced by U+FFFD.
pub uninterp spec fn utf8_lossy(bytes: Seq<u8>) -> Seq<char>;

/// `String::from_utf8_lossy(bytes).into_owned()`. The contract names the
/// result and states what the documentation gives of it for valid UTF-8 (the
/// decoded characters); the replacement of invalid sequences is not stated.
#[verifier::external_body]
pub(crate) fn utf8_lossy_string(bytes: &[u8]) -> (res: String)
    ensures
        res@ == utf8_lossy(bytes@),
        valid_utf8(bytes@) ==> res@ == decode_utf8(bytes@),
{
    String::from_utf8_lossy(bytes).into_owned()
}

/// `String::from_utf8` (on a copy of the bytes): the text when the bytes are
/// valid UTF-8, as its documentation states; `None` otherwise.
#[verifier::external_body]
pub(crate) fn utf8_string(bytes: &[u8]) -> (res: Option<String>)
    ensures
        res is Some <==> valid_utf8(bytes@),
        res matches Some(s) ==> s@ == decode_utf8(bytes@),
{
    String::from_utf8(bytes.to_vec()).ok()
}

/// What `html_escape::decode_html_entities` makes of a text: the text with its
/// HTML character references decoded.
pub uninterp spec fn html_entities_decoded(text: Seq<char>) -> Seq<char>;

/// `html_escape::decode_html_entities`. The contract names the result as a
/// function of the text alone; what the decoding does is not stated.
#[verifier::external_body]
pub(crate) fn decode_html_entities(text: &str) -> (res: String)
    ensures
        res@ == html_entities_decoded(text@),
{
    html_escape::decode_html_entities(text).into_owned()
}

/// What `encoding_rs::SHIFT_JIS.decode` makes of a byte sequence: the decoded
/// text and whether malformed sequences were met.
pub uninterp spec fn shift_jis_decoding(bytes: Seq<u8>) -> (Seq<char>, bool);

/// `encoding_rs::SHIFT_JIS.decode(bytes)`, keeping the text and the
/// `had_errors` flag. The contract names both as a function of the bytes alone;
/// the decoding table and the BOM sniffing that `decode` performs are not stated.
#[verifier::external_body]
pub(crate) fn decode_shift_jis(bytes: &[u8]) -> (res: (String, bool))
    ensures
        (res.0@, res.1) == shift_jis_decoding(bytes@),
{
    let (text, _, had_errors) = encoding_rs::SHIFT_JIS.decode(bytes);
    (text.into_owned(), had_errors)
}

/// `application/x-www-form-urlencoded` serialisation of bytes, as
/// `url::form_urlencoded::byte_serialize` performs it: ASCII digits (48..=57),
/// letters (65..=90, 97..=122) and `*` `-` `.` `_` (42, 45, 46, 95) stay, a
/// space (32) becomes `+`, every other byte becomes `%XX` with upper-case
/// hexadecimal digits.
pub open spec fn form_urlencode(bytes: Seq<u8>) -> Seq<char>
    decreases bytes.len(),
{
    if bytes.len() == 0 {
        Seq::empty()
    } else {
        form_urlencode_byte(bytes[0]) + form_urlencode(bytes.drop_first())
    }
}

pub open spec fn form_urlencode_byte(b: u8) -> Seq<char> {
    if (48 <= b && b <= 57) || (65 <= b && b <= 90) || (97 <= b && b <= 122) || b == 42 || b == 45
        || b == 46 || b == 95 {
        seq![b as char]
    } else if b == 32 {
        seq!['+']
    } else {
        seq!['%', upper_hex_digit(b / 16), upper_hex_digit(b % 16)]
    }
}

pub open spec fn upper_hex_digit(d: u8) -> char {
    if d < 10 { (d + 48) as char } else { (d + 55) as char }
}

/// `url::form_urlencoded::byte_serialize(bytes).collect::<String>()`.
#[verifier::external_body]
pub(crate) fn form_urlencoded_serialize(bytes: &[u8]) -> (res: String)
    ensures
        res@ == form_urlencode(bytes@),
{
    url::form_urlencoded::byte_serialize(bytes).collect()
}

/// What `url::Url::parse` makes of a text, read back through the accessors
/// `scheme`, `host_str`, `port`, `path` and `path_segments`; `None` when the
/// text is no valid URL.
pub uninterp spec fn url_parsed(text: Seq<char>) -> Option<UrlParts>;

/// `url::Url::parse`, with the parsed URL's components copied out. The
/// contract names the result as a function of the text alone; WHATWG URL
/// parsing is not stated.
#[verifier::external_body]
pub(crate) fn parse_url(text: &str) -> (res: Option<UrlParts>)
    ensures
        res == url_parsed(text@),
{
    url::Url::parse(text).ok().map(|u| UrlParts {
        scheme: u.scheme().to_string(),
        host: u.host_str().map(String::from),
        port: u.port(),
        path: u.path().to_string(),
        segments: u.path_segments().map(|it| it.map(String::from).collect()),
    })
}

#[verifier::external_type_specification]
#[verifier::external_body]
pub struct ExSerdeJsonValue(serde_json::Value);

/// What `serde_json::from_str::<serde_json::Value>` makes of a text, as a
/// `JsonValue` (object members in the order of the parsed map); `None` when
/// the text is no JSON document.
pub uninterp spec fn json_parsed(text: Seq<char>) -> Option<JsonValue>;

/// `serde_json::from_str::<serde_json::Value>`. The contract names the result
/// as a function of the text alone; JSON syntax is not stated.
#[verifier::external_body]
pub(crate) fn parse_json(text: &str) -> (res: Option<JsonValue>)
    ensures
        res == json_parsed(text@),
{
    serde_json::from_str::<serde_json::Value>(text).ok().map(json_value_from_serde)
}

/// Converts a `serde_json::Value` into the library's `JsonValue`, one variant
/// for one variant (a float keeps no value). Only `parse_json` calls it.
#[verifier::external_body]
fn json_value_from_serde(v: serde_json::Value) -> JsonValue {
    match v {
        serde_json::Value::Null => JsonValue::Null,
        serde_json::Value::Bool(b) => JsonValue::Bool(b),
        serde_json::Value::Number(n) => JsonValue::Number(match (n.as_u64(), n.as_i64()) {
            (Some(u), _) => JsonNumber::PosInt(u),
            (None, Some(i)) => JsonNumber::NegInt(i),
            (None, None) => JsonNumber::Float,
        }),
        serde_json::Value::String(s) => JsonValue::Str(s),
        serde_json::Value::Array(a) => JsonValue::Array(a.into_iter().map(json_value_from_serde).collect()),
        serde_json::Value::Object(m) => JsonValue::Object(m.into_iter().map(|(k, v)| (k, json_value_from_serde(v))).collect()),
    }
}

/// The characters of each string.
pub open spec fn strings_view(v: Seq<String>) -> Seq<Seq<char>> {
    v.map_values(|x: String| x@)
}

/// What the `scraper` crate finds in an HTML document
/// (`Html::parse_document`): for each element that the selector `container`
/// matches (`Html::select`, in document order), the value of its attribute
/// `attr` (`ElementRef::attr`) and, for each selector of `selectors`, of the
/// first matching descendant (`ElementRef::select(..).next()`) its outer HTML
/// (`ElementRef::html`) where the flag of `outer` is set, else its text
/// (`ElementRef::text`, concatenated). `None` when a selector does not parse.
pub uninterp spec fn scraped(
    html: Seq<char>,
    container: Seq<char>,
    attr: Seq<char>,
    selectors: Seq<Seq<char>>,
    outer: Seq<bool>,
) -> Option<Seq<ScrapedElement>>;

/// The scraper calls above. The contract names the result as a function of
/// the document, the selectors, the attribute and the flags alone, and states
/// that each element carries one field per selector; HTML parsing, selector
/// matching and serialisation are not stated.
#[verifier::external_body]
pub(crate) fn scrape_elements(
    html: &str,
    container: &str,
    attr: &str,
    selectors: &Vec<String>,
    outer: &Vec<bool>,
) -> (res: Option<Vec<ScrapedElement>>)
    requires
        selectors.len() == outer.len(),
    ensures
        res is Some <==> scraped(html@, container@, attr@, strings_view(selectors@), outer@) is Some,
        res matches Some(v) ==> scraped(html@, container@, attr@, strings_view(selectors@), outer@) == Some(v@)
            && forall|i: int| 0 <= i < v@.len() ==> (#[trigger] v@[i]).fields@.len() == selectors@.len(),
{
    let doc = scraper::Html::parse_document(html);
    let found = scraper::Selector::parse(container).ok()?;
    let sels = selectors.iter().map(|x| scraper::Selector::parse(x).ok()).collect::<Option<Vec<_>>>()?;
    Some(doc.select(&found).map(|n| ScrapedElement {
        attr: n.attr(attr).map(String::from),
        fields: sels.iter().zip(outer).map(|(x, &o)| n.select(x).next().map(|e| if o { e.html() } else { e.text().collect() })).collect(),
    }).collect())
}

/// What chrono makes of a local date and time at the fixed offset of `offset`
/// seconds east of UTC: `FixedOffset::east_opt(offset)`, then
/// `with_ymd_and_hms(..).single()`, plus `us` microseconds
/// (`checked_add_signed`); the text that `format(fmt)` writes of it and the
/// offset in seconds (`offset().local_minus_utc()`); `None` when chrono rejects
/// the offset, the date or time, or the format.
pub uninterp spec fn fixed_offset_datetime(
    y: i32,
    mo: u32,
    d: u32,
    h: u32,
    mi: u32,
    s: u32,
    us: u32,
    offset: i32,
    fmt: Seq<char>,
) -> Option<(Seq<char>, i32)>;

/// The chrono calls above. The contract names the result as a function of the
/// arguments alone and states that the offset written back is the one passed
/// in; the calendar rules and the format's meaning are not stated.
#[verifier::external_body]
pub(crate) fn fixed_offset_datetime_text(
    y: i32,
    mo: u32,
    d: u32,
    h: u32,
    mi: u32,
    s: u32,
    us: u32,
    offset: i32,
    fmt: &str,
) -> (res: Option<(String, i32)>)
    ensures
        res is Some <==> fixed_offset_datetime(y, mo, d, h, mi, s, us, offset, fmt@) is Some,
        res matches Some(r) ==> fixed_offset_datetime(y, mo, d, h, mi, s, us, offset, fmt@) == Some((r.0@, r.1)) && r.1
            == offset,
{
    let dt = chrono::FixedOffset::east_opt(offset)?.with_ymd_and_hms(y, mo, d, h, mi, s).single()?;
    let dt = dt.checked_add_signed(chrono::Duration::microseconds(us as i64))?;
    let mut text = String::new();
    write!(text, "{}", dt.format(fmt)).ok()?;
    Some((text, dt.offset().local_minus_utc()))
}

/// What chrono writes of a UNIX timestamp in UTC: `Utc.timestamp_opt(ts, 0).single()`
/// formatted with `format(fmt)`; `None` when chrono rejects the timestamp or the format.
pub uninterp spec fn utc_datetime(ts: i64, fmt: Seq<char>) -> Option<Seq<char>>;

/// The chrono calls above. The contract names the result as a function of the
/// timestamp and the format alone; the calendar conversion is not stated.
#[verifier::external_body]
pub(crate) fn utc_datetime_text(ts: i64, fmt: &str) -> (res: Option<String>)
    ensures
        res is Some <==> utc_datetime(ts, fmt@) is Some,
        res matches Some(r) ==> utc_datetime(ts, fmt@) == Some(r@),
{
    let dt = chrono::Utc.timestamp_opt(ts, 0).single()?;
    let mut text = String::new();
    write!(text, "{}", dt.format(fmt)).ok()?;
    Some(text)
}

} // verus!
