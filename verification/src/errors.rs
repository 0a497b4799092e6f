//! The library's errors. Each has a `to_string` method that writes its message.
use vstd::prelude::*;

use crate::foreign::string_from_chars;
use crate::text::{append_str, decimal, push_decimal};

verus! {

/// Failure of an HTTP fetch.
#[derive(Debug)]
pub enum FetchError {
    TooManyRedirects(usize),
    Timeout(String),
    Network(String),
    HttpStatus(u16),
}

/// Failure to obtain the board menu.
#[derive(Debug)]
pub struct MenuError(pub String);

/// Failure to obtain a board's thread list.
#[derive(Debug)]
pub struct ThreadsError(pub String);

/// Failure of the search across all boards.
#[derive(Debug)]
pub struct SearchError(pub String);

/// The message of the error for a thread that has fallen out of the board.
pub const THREAD_GONE_MESSAGE: &'static str = "スレッドはdat落ちしています";

/// Failure at the browser level; `url` holds the URL that failed, where known.
#[derive(Debug)]
pub struct BrowserError {
    pub message: String,
    pub url: Option<String>,
}

/// Any error of the library.
#[derive(Debug)]
pub enum X5chError {
    Fetch(FetchError),
    Menu(MenuError),
    Threads(ThreadsError),
    Search(SearchError),
    Browser(BrowserError),
}

pub open spec fn fetch_error_text(e: FetchError) -> Seq<char> {
    match e {
        FetchError::TooManyRedirects(n) => "リダイレクト回数が上限("@ + decimal(n as nat) + ")に達しました"@,
        FetchError::Timeout(s) => "通信タイムアウト: "@ + s@,
        FetchError::Network(s) => "通信エラー: "@ + s@,
        FetchError::HttpStatus(c) => "HTTP Error: "@ + decimal(c as nat),
    }
}

pub open spec fn x5ch_error_text(e: X5chError) -> Seq<char> {
    match e {
        X5chError::Fetch(f) => fetch_error_text(f),
        X5chError::Menu(m) => "板メニュー取得エラー: "@ + m.0@,
        X5chError::Threads(t) => "スレ一覧取得エラー: "@ + t.0@,
        X5chError::Search(s) => "全板検索エラー: "@ + s.0@,
        X5chError::Browser(b) => b.message@,
    }
}

impl FetchError {
    /// The error's message.
    pub fn to_string(&self) -> (res: String)
        ensures
            res@ == fetch_error_text(*self),
    {
        let mut v: Vec<char> = Vec::new();
        match self {
            FetchError::TooManyRedirects(n) => {
                append_str(&mut v, "リダイレクト回数が上限(");
                push_decimal(&mut v, *n as u64);
                append_str(&mut v, ")に達しました");
            },
            FetchError::Timeout(s) => {
                append_str(&mut v, "通信タイムアウト: ");
                append_str(&mut v, s.as_str());
            },
            FetchError::Network(s) => {
                append_str(&mut v, "通信エラー: ");
                append_str(&mut v, s.as_str());
            },
            FetchError::HttpStatus(c) => {
                append_str(&mut v, "HTTP Error: ");
                push_decimal(&mut v, *c as u64);
            },
        }
        string_from_chars(v.as_slice())
    }
}

fn prefixed(prefix: &str, s: &String) -> (res: String)
    ensures
        res@ == prefix@ + s@,
{
    let mut v: Vec<char> = Vec::new();
    append_str(&mut v, prefix);
    append_str(&mut v, s.as_str());
    string_from_chars(v.as_slice())
}

impl MenuError {
    /// The error's message.
    pub fn to_string(&self) -> (res: String)
        ensures
            res@ == "板メニュー取得エラー: "@ + self.0@,
    {
        prefixed("板メニュー取得エラー: ", &self.0)
    }
}

impl ThreadsError {
    /// The error's message.
    pub fn to_string(&self) -> (res: String)
        ensures
            res@ == "スレ一覧取得エラー: "@ + self.0@,
    {
        prefixed("スレ一覧取得エラー: ", &self.0)
    }
}

impl SearchError {
    /// The error's message.
    pub fn to_string(&self) -> (res: String)
        ensures
            res@ == "全板検索エラー: "@ + self.0@,
    {
        prefixed("全板検索エラー: ", &self.0)
    }
}

impl BrowserError {
    /// An error with the given message and URL.
    pub fn new(message: &str, url: Option<String>) -> (res: Self)
        ensures
            res.message@ == message@,
            res.url == url,
    {
        BrowserError { message: message.to_owned(), url }
    }

    /// The error for a thread that has fallen out of the board.
    pub fn thread_gone() -> (res: Self)
        ensures
            res.message@ == THREAD_GONE_MESSAGE@,
            res.url is None,
    {
        Self::new(THREAD_GONE_MESSAGE, None)
    }

    /// The error's message.
    pub fn to_string(&self) -> (res: String)
        ensures
            res@ == self.message@,
    {
        self.message.clone()
    }
}

impl X5chError {
    /// The message of the error it holds.
    pub fn to_string(&self) -> (res: String)
        ensures
            res@ == x5ch_error_text(*self),
    {
        match self {
            X5chError::Fetch(f) => f.to_string(),
            X5chError::Menu(m) => m.to_string(),
            X5chError::Threads(t) => t.to_string(),
            X5chError::Search(s) => s.to_string(),
            X5chError::Browser(b) => b.to_string(),
        }
    }
}

impl From<FetchError> for X5chError {
    fn from(e: FetchError) -> (res: Self) {
        X5chError::Fetch(e)
    }
}

impl vstd::std_specs::convert::FromSpecImpl<FetchError> for X5chError {
    open spec fn obeys_from_spec() -> bool {
        true
    }

    open spec fn from_spec(e: FetchError) -> Self {
        X5chError::Fetch(e)
    }
}

impl From<MenuError> for X5chError {
    fn from(e: MenuError) -> (res: Self) {
        X5chError::Menu(e)
    }
}

impl vstd::std_specs::convert::FromSpecImpl<MenuError> for X5chError {
    open spec fn obeys_from_spec() -> bool {
        true
    }

    open spec fn from_spec(e: MenuError) -> Self {
        X5chError::Menu(e)
    }
}

impl From<ThreadsError> for X5chError {
    fn from(e: ThreadsError) -> (res: Self) {
        X5chError::Threads(e)
    }
}

impl vstd::std_specs::convert::FromSpecImpl<ThreadsError> for X5chError {
    open spec fn obeys_from_spec() -> bool {
        true
    }

    open spec fn from_spec(e: ThreadsError) -> Self {
        X5chError::Threads(e)
    }
}

impl From<SearchError> for X5chError {
    fn from(e: SearchError) -> (res: Self) {
        X5chError::Search(e)
    }
}

impl vstd::std_specs::convert::FromSpecImpl<SearchError> for X5chError {
    open spec fn obeys_from_spec() -> bool {
        true
    }

    open spec fn from_spec(e: SearchError) -> Self {
        X5chError::Search(e)
    }
}

impl From<BrowserError> for X5chError {
    fn from(e: BrowserError) -> (res: Self) {
        X5chError::Browser(e)
    }
}

impl vstd::std_specs::convert::FromSpecImpl<BrowserError> for X5chError {
    open spec fn obeys_from_spec() -> bool {
        true
    }

    open spec fn from_spec(e: BrowserError) -> Self {
        X5chError::Browser(e)
    }
}

} // verus!
