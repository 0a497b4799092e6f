//! The reading history: for each thread read, the last post read, its title,
//! when it was last touched and the Discord thread it was sent to.
//!
//! A thread is known by a key made of its board URL, normalised, and its
//! `.dat` name, so that the same board reached over `http`/`https`, with or
//! without `www.`, and on `5ch.net`, `2ch.net` or `5ch.io` is one board.
use vstd::prelude::*;

use crate::foreign::string_from_chars;
use crate::models::Board;
use crate::threads::HistoryStore;
use crate::text::{append_str, chars_of, lit_at, match_lit, replace_all, replace_chars, slice_chars};

verus! {

/// `u` without a leading `https://` or, failing that, `http://`.
pub open spec fn strip_scheme(u: Seq<char>) -> Seq<char> {
    if lit_at(u, 0, "https://"@) {
        u.skip(8)
    } else if lit_at(u, 0, "http://"@) {
        u.skip(7)
    } else {
        u
    }
}

/// `u` without a leading `www.`.
pub open spec fn strip_www(u: Seq<char>) -> Seq<char> {
    if lit_at(u, 0, "www."@) {
        u.skip(4)
    } else {
        u
    }
}

/// `u` without one trailing `/`.
pub open spec fn strip_trailing_slash(u: Seq<char>) -> Seq<char> {
    if u.len() > 0 && u.last() == '/' {
        u.drop_last()
    } else {
        u
    }
}

/// A board URL in the form that history keys use: no scheme, no `www.`, no
/// trailing `/`, and `2ch.net`, then `5ch.net`, replaced by `5ch.io`.
pub open spec fn normalized_url(u: Seq<char>) -> Seq<char> {
    replace_all(
        replace_all(strip_trailing_slash(strip_www(strip_scheme(u))), "2ch.net"@, "5ch.io"@),
        "5ch.net"@,
        "5ch.io"@,
    )
}

/// The history key of a thread: `NORMALISED_BOARD_URL::DAT_FILE`.
pub open spec fn history_key(board_url: Seq<char>, dat_file: Seq<char>) -> Seq<char> {
    normalized_url(board_url) + "::"@ + dat_file
}

/// The characters of `u` from `i` on, when `lit` stands at `i`; else from `i` on anyway.
fn skip_lit(u: &Vec<char>, lit: &str, lit_len: usize) -> (res: (Vec<char>, bool))
    requires
        lit@.len() == lit_len,
    ensures
        res.1 == lit_at(u@, 0, lit@),
        res.1 ==> res.0@ == u@.skip(lit_len as int),
        !res.1 ==> res.0@ == u@,
{
    let l = chars_of(lit);
    if match_lit(u, 0, &l) {
        (slice_chars(u, lit_len, u.len()), true)
    } else {
        (slice_chars(u, 0, u.len()), false)
    }
}

/// A board URL normalised as history keys have it (see [`normalized_url`]).
pub fn normalize_url(raw_url: &str) -> (res: String)
    ensures
        res@ == normalized_url(raw_url@),
{
    proof {
        reveal_strlit("https://");
        reveal_strlit("http://");
        reveal_strlit("www.");
        reveal_strlit("2ch.net");
        reveal_strlit("5ch.net");
    }
    let u = chars_of(raw_url);
    let (a, https) = skip_lit(&u, "https://", 8);
    let a = if https {
        a
    } else {
        let (b, _) = skip_lit(&u, "http://", 7);
        b
    };
    assert(a@ == strip_scheme(u@));
    let (b, _) = skip_lit(&a, "www.", 4);
    let c = if b.len() > 0 && b[b.len() - 1] == '/' {
        slice_chars(&b, 0, b.len() - 1)
    } else {
        b
    };
    let from_2ch = chars_of("2ch.net");
    let from_5ch = chars_of("5ch.net");
    let to_5ch = chars_of("5ch.io");
    let d = replace_chars(&c, &from_2ch, &to_5ch);
    let e = replace_chars(&d, &from_5ch, &to_5ch);
    string_from_chars(e.as_slice())
}

/// The history key of a thread (see [`history_key`]).
pub fn generate_key(board_url: &str, dat_file: &str) -> (res: String)
    ensures
        res@ == history_key(board_url@, dat_file@),
{
    let n = normalize_url(board_url);
    let mut k = chars_of(n.as_str());
    append_str(&mut k, "::");
    append_str(&mut k, dat_file);
    string_from_chars(k.as_slice())
}

/// One thread of the history.
#[derive(Debug)]
pub struct HistoryEntry {
    pub res: u32,
    pub title: String,
    pub board_url: String,
    pub dat_file: String,
    pub timestamp: i64,
    pub discord_thread_id: Option<String>,
}

pub struct HistoryEntryView {
    pub res: u32,
    pub title: Seq<char>,
    pub board_url: Seq<char>,
    pub dat_file: Seq<char>,
    pub timestamp: i64,
    pub discord_thread_id: Option<Seq<char>>,
}

/// The characters of an optional string.
pub open spec fn opt_string_view(o: Option<String>) -> Option<Seq<char>> {
    match o {
        Some(s) => Some(s@),
        None => None,
    }
}

impl View for HistoryEntry {
    type V = HistoryEntryView;

    open spec fn view(&self) -> HistoryEntryView {
        HistoryEntryView {
            res: self.res,
            title: self.title@,
            board_url: self.board_url@,
            dat_file: self.dat_file@,
            timestamp: self.timestamp,
            discord_thread_id: opt_string_view(self.discord_thread_id),
        }
    }
}

fn clone_opt_string(o: &Option<String>) -> (res: Option<String>)
    ensures
        opt_string_view(res) == opt_string_view(*o),
{
    match o {
        Some(s) => Some(s.clone()),
        None => None,
    }
}

impl HistoryEntry {
    /// A copy of the entry.
    pub fn duplicate(&self) -> (res: HistoryEntry)
        ensures
            res@ == self@,
    {
        HistoryEntry {
            res: self.res,
            title: self.title.clone(),
            board_url: self.board_url.clone(),
            dat_file: self.dat_file.clone(),
            timestamp: self.timestamp,
            discord_thread_id: clone_opt_string(&self.discord_thread_id),
        }
    }
}

/// The entry of a thread just added to the history: nothing read yet.
pub open spec fn new_thread_entry(title: Seq<char>, board_url: Seq<char>, dat_file: Seq<char>, timestamp: i64) -> HistoryEntryView {
    HistoryEntryView { res: 0, title, board_url, dat_file, timestamp, discord_thread_id: None }
}

/// The entry of a thread after it was read up to post `res_num` at `timestamp`:
/// the last post read never goes back, and the Discord thread stays when none is given.
pub open spec fn updated_entry(
    m: Map<Seq<char>, HistoryEntryView>,
    title: Seq<char>,
    board_url: Seq<char>,
    dat_file: Seq<char>,
    res_num: u32,
    discord_thread_id: Option<Seq<char>>,
    timestamp: i64,
) -> HistoryEntryView {
    let key = history_key(board_url, dat_file);
    let known = m.contains_key(key);
    HistoryEntryView {
        res: if known && m[key].res > res_num { m[key].res } else { res_num },
        title,
        board_url,
        dat_file,
        timestamp,
        discord_thread_id: match discord_thread_id {
            Some(d) => Some(d),
            None => if known { m[key].discord_thread_id } else { None },
        },
    }
}

/// The last post read of the thread under `key` (0 when it is not in the history).
pub open spec fn last_read_of(m: Map<Seq<char>, HistoryEntryView>, key: Seq<char>) -> u32 {
    if m.contains_key(key) { m[key].res } else { 0 }
}

/// Some thread of the history is on this board (compared normalised).
pub open spec fn board_in_history(m: Map<Seq<char>, HistoryEntryView>, board_url: Seq<char>) -> bool {
    exists|k: Seq<char>| #[trigger] m.contains_key(k) && normalized_url(m[k].board_url) == normalized_url(board_url)
}

/// The history is on the board of one of `boards`.
pub open spec fn category_in_history(m: Map<Seq<char>, HistoryEntryView>, boards: Seq<Board>) -> bool {
    exists|i: int| 0 <= i < boards.len() && board_in_history(m, #[trigger] boards[i].url@)
}

/// A key and its entry, as characters and view.
pub open spec fn pair_view(p: (String, HistoryEntry)) -> (Seq<char>, HistoryEntryView) {
    (p.0@, p.1@)
}

pub open spec fn pairs_view(ps: Seq<(String, HistoryEntry)>) -> Seq<(Seq<char>, HistoryEntryView)> {
    ps.map_values(|p: (String, HistoryEntry)| pair_view(p))
}

/// `ps` lists the history `m`: each of its keys once, with its entry.
pub open spec fn lists_history(m: Map<Seq<char>, HistoryEntryView>, ps: Seq<(Seq<char>, HistoryEntryView)>) -> bool {
    &&& forall|i: int, j: int| 0 <= i < j < ps.len() ==> #[trigger] ps[i].0 != #[trigger] ps[j].0
    &&& forall|i: int| 0 <= i < ps.len() ==> m.contains_key(#[trigger] ps[i].0) && m[ps[i].0] == ps[i].1
    &&& forall|k: Seq<char>| #[trigger] m.contains_key(k) ==> exists|i: int| 0 <= i < ps.len() && #[trigger] ps[i].0 == k
}

/// The entries of `ps` are newest first (by timestamp, descending).
pub open spec fn newest_first(ps: Seq<(Seq<char>, HistoryEntryView)>) -> bool {
    forall|i: int, j: int| 0 <= i < j < ps.len() ==> #[trigger] ps[i].1.timestamp >= #[trigger] ps[j].1.timestamp
}

/// `j` occurs in `order`.
pub open spec fn occurs(order: Seq<usize>, j: int) -> bool {
    exists|a: int| 0 <= a < order.len() && order[a] == j
}

/// `order` arranges the positions `0..n` (each once) so that `ts` descends along it.
pub open spec fn descending_order(ts: Seq<i64>, order: Seq<usize>) -> bool {
    &&& order.len() == ts.len()
    &&& forall|a: int| 0 <= a < order.len() ==> #[trigger] order[a] < ts.len()
    &&& forall|a: int, b: int| 0 <= a < b < order.len() ==> #[trigger] order[a] != #[trigger] order[b]
    &&& forall|j: int| 0 <= j < ts.len() ==> #[trigger] occurs(order, j)
    &&& forall|a: int, b: int| 0 <= a < b < order.len() ==> ts[#[trigger] order[a] as int] >= ts[#[trigger] order[b] as int]
}

/// The map that inserting the pairs of `ps` one after another, into an empty
/// map, makes.
pub open spec fn map_of_pairs(ps: Seq<(Seq<char>, HistoryEntryView)>) -> Map<Seq<char>, HistoryEntryView>
    decreases ps.len(),
{
    if ps.len() == 0 {
        Map::empty()
    } else {
        map_of_pairs(ps.drop_last()).insert(ps.last().0, ps.last().1)
    }
}

/// The position of the first `k` in `ks[i..]`, or -1.
pub open spec fn index_of_key(ks: Seq<Seq<char>>, k: Seq<char>, i: int) -> int
    decreases ks.len() - i,
{
    if i < 0 || i >= ks.len() {
        -1
    } else if ks[i] == k {
        i
    } else {
        index_of_key(ks, k, i + 1)
    }
}

/// No key occurs twice.
pub open spec fn keys_distinct(ks: Seq<Seq<char>>) -> bool {
    forall|i: int, j: int| 0 <= i < j < ks.len() ==> ks[i] != ks[j]
}

proof fn lemma_index_of_key(ks: Seq<Seq<char>>, k: Seq<char>, i: int)
    requires
        0 <= i <= ks.len(),
    ensures
        index_of_key(ks, k, i) == -1 ==> forall|j: int| i <= j < ks.len() ==> ks[j] != k,
        index_of_key(ks, k, i) != -1 ==> i <= index_of_key(ks, k, i) < ks.len() && ks[index_of_key(ks, k, i)] == k,
    decreases ks.len() - i,
{
    if i < ks.len() && ks[i] != k {
        lemma_index_of_key(ks, k, i + 1);
    }
}

/// With distinct keys, the position of a key is where it stands.
proof fn lemma_index_of_distinct(ks: Seq<Seq<char>>, j: int)
    requires
        keys_distinct(ks),
        0 <= j < ks.len(),
    ensures
        index_of_key(ks, ks[j], 0) == j,
{
    lemma_index_of_key(ks, ks[j], 0);
}

/// The history, as a map from keys to entries. Each key occurs once.
pub struct HistoryData {
    items: Vec<(String, HistoryEntry)>,
}

impl HistoryData {
    /// The keys, in the order in which they are stored.
    pub closed spec fn keys_view(&self) -> Seq<Seq<char>> {
        self.items@.map_values(|p: (String, HistoryEntry)| p.0@)
    }

    /// The entries, in the order in which they are stored.
    pub closed spec fn entries_view(&self) -> Seq<HistoryEntryView> {
        self.items@.map_values(|p: (String, HistoryEntry)| p.1@)
    }

    /// Well-formed: no key occurs twice.
    pub closed spec fn wf(&self) -> bool {
        keys_distinct(self.keys_view())
    }
}

impl View for HistoryData {
    type V = Map<Seq<char>, HistoryEntryView>;

    closed spec fn view(&self) -> Map<Seq<char>, HistoryEntryView> {
        Map::new(
            |k: Seq<char>| index_of_key(self.keys_view(), k, 0) >= 0,
            |k: Seq<char>| self.entries_view()[index_of_key(self.keys_view(), k, 0)],
        )
    }
}

impl HistoryData {
    /// An empty history.
    pub fn new() -> (res: HistoryData)
        ensures
            res.wf(),
            res@ == Map::<Seq<char>, HistoryEntryView>::empty(),
    {
        let res = HistoryData { items: Vec::new() };
        assert(res@ =~= Map::<Seq<char>, HistoryEntryView>::empty());
        res
    }

    /// The position of `key` in the store.
    fn position(&self, key: &String) -> (res: Option<usize>)
        requires
            self.wf(),
        ensures
            match res {
                Some(i) => i < self.items.len() && index_of_key(self.keys_view(), key@, 0) == i && self.keys_view()[i as int] == key@,
                None => index_of_key(self.keys_view(), key@, 0) == -1 && !self@.contains_key(key@),
            },
    {
        let mut i: usize = 0;
        while i < self.items.len()
            invariant
                i <= self.items.len(),
                self.wf(),
                forall|j: int| 0 <= j < i ==> self.keys_view()[j] != key@,
            decreases self.items.len() - i,
        {
            if self.items[i].0 == *key {
                proof {
                    lemma_index_of_distinct(self.keys_view(), i as int);
                }
                return Some(i);
            }
            i = i + 1;
        }
        proof {
            lemma_index_of_key(self.keys_view(), key@, 0);
        }
        None
    }

    /// The entry under `key`, if any.
    pub fn get(&self, key: &String) -> (res: Option<&HistoryEntry>)
        requires
            self.wf(),
        ensures
            match res {
                Some(e) => self@.contains_key(key@) && self@[key@] == e@,
                None => !self@.contains_key(key@),
            },
    {
        match self.position(key) {
            Some(i) => Some(&self.items[i].1),
            None => None,
        }
    }

    /// Sets the entry under `key`, replacing any entry there.
    pub fn insert(&mut self, key: String, entry: HistoryEntry)
        requires
            old(self).wf(),
        ensures
            final(self).wf(),
            final(self)@ == old(self)@.insert(key@, entry@),
    {
        let ghost k = key@;
        let ghost e = entry@;
        match self.position(&key) {
            Some(i) => {
                let ghost ks = self.keys_view();
                self.items[i] = (key, entry);
                assert(self.keys_view() =~= ks);
                assert forall|k2: Seq<char>| #[trigger] self@.contains_key(k2) && k2 != k implies self@[k2] == old(self)@[k2] by {
                    lemma_index_of_key(ks, k2, 0);
                }
                assert(self@ =~= old(self)@.insert(k, e));
            },
            None => {
                let ghost ks = self.keys_view();
                let ghost es = self.entries_view();
                self.items.push((key, entry));
                assert(self.keys_view() =~= ks.push(k));
                assert(self.entries_view() =~= es.push(e));
                proof {
                    let nks = self.keys_view();
                    lemma_index_of_key(ks, k, 0);
                    assert(keys_distinct(nks));
                    lemma_index_of_distinct(nks, ks.len() as int);
                    assert(index_of_key(nks, k, 0) == ks.len());
                    assert forall|k2: Seq<char>| k2 != k implies index_of_key(nks, k2, 0) == index_of_key(ks, k2, 0) by {
                        lemma_index_of_key(ks, k2, 0);
                        lemma_index_of_key(nks, k2, 0);
                        if index_of_key(ks, k2, 0) >= 0 {
                            lemma_index_of_distinct(nks, index_of_key(ks, k2, 0));
                        }
                    }
                    assert forall|k2: Seq<char>| #[trigger] self@.contains_key(k2) == old(self)@.insert(k, e).contains_key(k2) by {
                        lemma_index_of_key(ks, k2, 0);
                    }
                    assert forall|k2: Seq<char>| #[trigger] self@.contains_key(k2) implies self@[k2] == old(self)@.insert(k, e)[k2] by {
                        lemma_index_of_key(ks, k2, 0);
                    }
                }
                assert(self@ =~= old(self)@.insert(k, e));
            },
        }
    }

    /// Removes the entry under `key`; whether there was one.
    pub fn remove(&mut self, key: &String) -> (removed: bool)
        requires
            old(self).wf(),
        ensures
            final(self).wf(),
            removed == old(self)@.contains_key(key@),
            final(self)@ == old(self)@.remove(key@),
    {
        let ghost k = key@;
        match self.position(key) {
            None => {
                assert(self@ =~= old(self)@.remove(k));
                false
            },
            Some(i) => {
                let ghost ks = self.keys_view();
                let ghost es = self.entries_view();
                self.items.remove(i);
                assert(self.keys_view() =~= ks.remove(i as int));
                assert(self.entries_view() =~= es.remove(i as int));
                proof {
                    let nks = self.keys_view();
                    assert(keys_distinct(nks)) by {
                        assert forall|a: int, b: int| 0 <= a < b < nks.len() implies nks[a] != nks[b] by {
                            let oa = if a < i { a } else { a + 1 };
                            let ob = if b < i { b } else { b + 1 };
                            assert(nks[a] == ks[oa] && nks[b] == ks[ob]);
                        }
                    }
                    assert forall|k2: Seq<char>| #[trigger] self@.contains_key(k2) == old(self)@.remove(k).contains_key(k2) && (
                    self@.contains_key(k2) ==> self@[k2] == old(self)@[k2]) by {
                        lemma_index_of_key(ks, k2, 0);
                        lemma_index_of_key(nks, k2, 0);
                        let j = index_of_key(ks, k2, 0);
                        if j >= 0 && j != i {
                            if j < i {
                                lemma_index_of_distinct(nks, j);
                            } else {
                                lemma_index_of_distinct(nks, j - 1);
                            }
                        }
                        let j2 = index_of_key(nks, k2, 0);
                        if j2 >= 0 {
                            if j2 < i {
                                lemma_index_of_distinct(ks, j2);
                            } else {
                                lemma_index_of_distinct(ks, j2 + 1);
                            }
                        }
                    }
                }
                assert(self@ =~= old(self)@.remove(k));
                true
            },
        }
    }

    /// The last post read of a thread; 0 when it is not in the history.
    pub fn get_last_read(&self, board_url: &str, dat_file: &str) -> (res: u32)
        requires
            self.wf(),
        ensures
            res == last_read_of(self@, history_key(board_url@, dat_file@)),
    {
        let key = generate_key(board_url, dat_file);
        match self.get(&key) {
            Some(e) => e.res,
            None => 0,
        }
    }

    /// Whether a thread is in the history.
    pub fn thread_exists(&self, board_url: &str, dat_file: &str) -> (res: bool)
        requires
            self.wf(),
        ensures
            res == self@.contains_key(history_key(board_url@, dat_file@)),
    {
        let key = generate_key(board_url, dat_file);
        self.get(&key).is_some()
    }

    /// The Discord thread to which a thread was sent, if any.
    pub fn get_discord_thread_id(&self, board_url: &str, dat_file: &str) -> (res: Option<String>)
        requires
            self.wf(),
        ensures
            opt_string_view(res) == (if self@.contains_key(history_key(board_url@, dat_file@)) {
                self@[history_key(board_url@, dat_file@)].discord_thread_id
            } else {
                None
            }),
    {
        let key = generate_key(board_url, dat_file);
        match self.get(&key) {
            Some(e) => clone_opt_string(&e.discord_thread_id),
            None => None,
        }
    }

    /// Adds a thread with nothing read, stamped `now`, unless it is already
    /// in the history; whether it was added.
    pub fn add_new_thread_at(&mut self, title: &str, board_url: &str, dat_file: &str, now: i64) -> (added: bool)
        requires
            old(self).wf(),
        ensures
            final(self).wf(),
            added == !old(self)@.contains_key(history_key(board_url@, dat_file@)),
            final(self)@ == (if added {
                old(self)@.insert(history_key(board_url@, dat_file@), new_thread_entry(title@, board_url@, dat_file@, now))
            } else {
                old(self)@
            }),
    {
        let key = generate_key(board_url, dat_file);
        if self.get(&key).is_some() {
            return false;
        }
        let entry = HistoryEntry {
            res: 0,
            title: string_from_chars(chars_of(title).as_slice()),
            board_url: string_from_chars(chars_of(board_url).as_slice()),
            dat_file: string_from_chars(chars_of(dat_file).as_slice()),
            timestamp: now,
            discord_thread_id: None,
        };
        self.insert(key, entry);
        true
    }

    /// Records that a thread was read up to post `res_num` at `now` (see [`updated_entry`]).
    pub fn update_history_at(
        &mut self,
        title: &str,
        board_url: &str,
        dat_file: &str,
        res_num: u32,
        discord_thread_id: Option<String>,
        now: i64,
    )
        requires
            old(self).wf(),
        ensures
            final(self).wf(),
            final(self)@ == old(self)@.insert(
                history_key(board_url@, dat_file@),
                updated_entry(old(self)@, title@, board_url@, dat_file@, res_num, opt_string_view(discord_thread_id), now),
            ),
    {
        let key = generate_key(board_url, dat_file);
        let (new_res, new_discord) = match self.get(&key) {
            Some(c) => {
                let r = if c.res > res_num { c.res } else { res_num };
                let d = match discord_thread_id {
                    Some(d) => Some(d),
                    None => clone_opt_string(&c.discord_thread_id),
                };
                (r, d)
            },
            None => (res_num, discord_thread_id),
        };
        let entry = HistoryEntry {
            res: new_res,
            title: string_from_chars(chars_of(title).as_slice()),
            board_url: string_from_chars(chars_of(board_url).as_slice()),
            dat_file: string_from_chars(chars_of(dat_file).as_slice()),
            timestamp: now,
            discord_thread_id: new_discord,
        };
        self.insert(key, entry);
    }

    /// Removes a thread from the history; whether it was there.
    pub fn delete_thread(&mut self, board_url: &str, dat_file: &str) -> (removed: bool)
        requires
            old(self).wf(),
        ensures
            final(self).wf(),
            removed == old(self)@.contains_key(history_key(board_url@, dat_file@)),
            final(self)@ == old(self)@.remove(history_key(board_url@, dat_file@)),
    {
        let key = generate_key(board_url, dat_file);
        self.remove(&key)
    }

    /// A history of these keys and entries, inserted in order (a later pair
    /// replaces an earlier one of the same key).
    pub fn from_pairs(pairs: Vec<(String, HistoryEntry)>) -> (res: HistoryData)
        ensures
            res.wf(),
            res@ == map_of_pairs(pairs_view(pairs@)),
    {
        let mut res = HistoryData::new();
        let ghost all = pairs_view(pairs@);
        let mut i: usize = 0;
        while i < pairs.len()
            invariant
                res.wf(),
                all == pairs_view(pairs@),
                i <= pairs.len(),
                res@ == map_of_pairs(all.take(i as int)),
            decreases pairs.len() - i,
        {
            let key = pairs[i].0.clone();
            let entry = pairs[i].1.duplicate();
            assert(all[i as int] == pair_view(pairs@[i as int]));
            assert(all.take(i + 1).drop_last() =~= all.take(i as int));
            res.insert(key, entry);
            i = i + 1;
        }
        assert(all.take(i as int) =~= all);
        res
    }

    /// Whether some thread of the history is on this board (compared normalised).
    pub fn has_history_in_board(&self, board_url: &str) -> (res: bool)
        requires
            self.wf(),
        ensures
            res == board_in_history(self@, board_url@),
    {
        let target = normalize_url(board_url);
        let mut i: usize = 0;
        while i < self.items.len()
            invariant
                i <= self.items.len(),
                self.wf(),
                target@ == normalized_url(board_url@),
                forall|j: int| 0 <= j < i ==> normalized_url(#[trigger] self.entries_view()[j].board_url) != target@,
            decreases self.items.len() - i,
        {
            let u = normalize_url(self.items[i].1.board_url.as_str());
            if u == target {
                proof {
                    let ks = self.keys_view();
                    lemma_index_of_distinct(ks, i as int);
                    assert(self@.contains_key(ks[i as int]));
                }
                return true;
            }
            i = i + 1;
        }
        proof {
            assert forall|k: Seq<char>| #[trigger] self@.contains_key(k) implies normalized_url(self@[k].board_url)
                != normalized_url(board_url@) by {
                lemma_index_of_key(self.keys_view(), k, 0);
                assert(normalized_url(self.entries_view()[index_of_key(self.keys_view(), k, 0)].board_url) != target@);
            }
        }
        false
    }

    /// Whether some thread of the history is on one of these boards.
    pub fn has_history_in_category(&self, boards: &[Board]) -> (res: bool)
        requires
            self.wf(),
        ensures
            res == category_in_history(self@, boards@),
    {
        let mut i: usize = 0;
        while i < boards.len()
            invariant
                i <= boards.len(),
                self.wf(),
                forall|j: int| 0 <= j < i ==> !board_in_history(self@, #[trigger] boards@[j].url@),
            decreases boards.len() - i,
        {
            if self.has_history_in_board(boards[i].url.as_str()) {
                assert(board_in_history(self@, boards@[i as int].url@));
                return true;
            }
            i = i + 1;
        }
        false
    }

    /// A copy of the stored pair at `i`.
    fn pair_at(&self, i: usize) -> (res: (String, HistoryEntry))
        requires
            i < self.items.len(),
        ensures
            pair_view(res) == (self.keys_view()[i as int], self.entries_view()[i as int]),
    {
        (self.items[i].0.clone(), self.items[i].1.duplicate())
    }

    /// The keys and entries of the history, each once.
    pub fn snapshot(&self) -> (res: Vec<(String, HistoryEntry)>)
        requires
            self.wf(),
        ensures
            lists_history(self@, pairs_view(res@)),
    {
        let mut res: Vec<(String, HistoryEntry)> = Vec::new();
        let mut i: usize = 0;
        while i < self.items.len()
            invariant
                i <= self.items.len(),
                res.len() == i,
                forall|a: int| 0 <= a < i ==> #[trigger] pair_view(res@[a]) == (self.keys_view()[a], self.entries_view()[a]),
            decreases self.items.len() - i,
        {
            let p = self.pair_at(i);
            res.push(p);
            i = i + 1;
        }
        proof {
            let ps = pairs_view(res@);
            let ks = self.keys_view();
            assert forall|a: int| 0 <= a < ps.len() implies self@.contains_key(#[trigger] ps[a].0) && self@[ps[a].0] == ps[a].1 by {
                assert(ps[a] == pair_view(res@[a]));
                lemma_index_of_distinct(ks, a);
            }
            assert forall|k: Seq<char>| #[trigger] self@.contains_key(k) implies exists|a: int| 0 <= a < ps.len() && #[trigger] ps[a].0 == k by {
                lemma_index_of_key(ks, k, 0);
                let j = index_of_key(ks, k, 0);
                assert(ps[j] == pair_view(res@[j]));
                assert(ps[j].0 == k);
            }
            assert forall|a: int, b: int| 0 <= a < b < ps.len() implies #[trigger] ps[a].0 != #[trigger] ps[b].0 by {
                assert(ps[a] == pair_view(res@[a]));
                assert(ps[b] == pair_view(res@[b]));
            }
        }
        res
    }

    /// The timestamps of the stored entries, in stored order.
    closed spec fn timestamps(&self) -> Seq<i64> {
        self.entries_view().map_values(|e: HistoryEntryView| e.timestamp)
    }

    /// The stored positions, newest entry first (a stable insertion sort).
    fn newest_first_order(&self) -> (order: Vec<usize>)
        ensures
            descending_order(self.timestamps(), order@),
    {
        let ghost ts = self.timestamps();
        let n = self.items.len();
        let mut order: Vec<usize> = Vec::new();
        let mut i: usize = 0;
        while i < n
            invariant
                n == self.items.len(),
                ts == self.timestamps(),
                i <= n,
                order.len() == i,
                forall|a: int| 0 <= a < order.len() ==> #[trigger] order@[a] < i,
                forall|a: int, b: int| 0 <= a < b < order.len() ==> #[trigger] order@[a] != #[trigger] order@[b],
                forall|j: int| 0 <= j < i ==> #[trigger] occurs(order@, j),
                forall|a: int, b: int| 0 <= a < b < order.len() ==> ts[#[trigger] order@[a] as int] >= ts[#[trigger] order@[b] as int],
            decreases n - i,
        {
            let t = self.items[i].1.timestamp;
            assert(t == ts[i as int]);
            let mut p: usize = 0;
            while p < order.len() && self.items[order[p]].1.timestamp >= t
                invariant
                    n == self.items.len(),
                    ts == self.timestamps(),
                    t == ts[i as int],
                    p <= order.len(),
                    forall|a: int| 0 <= a < order.len() ==> #[trigger] order@[a] < i,
                    i < n,
                    forall|a: int| 0 <= a < p ==> ts[#[trigger] order@[a] as int] >= t,
                decreases order.len() - p,
            {
                assert(self.items@[order@[p as int] as int].1.timestamp == ts[order@[p as int] as int]);
                p = p + 1;
            }
            proof {
                if p < order.len() {
                    assert(self.items@[order@[p as int] as int].1.timestamp == ts[order@[p as int] as int]);
                    assert(ts[order@[p as int] as int] < t);
                }
            }
            let ghost old_order = order@;
            order.insert(p, i);
            proof {
                let no = order@;
                assert(no == old_order.insert(p as int, i));
                assert forall|a: int| 0 <= a < no.len() implies #[trigger] no[a] < i + 1 by {
                    if a < p {
                        assert(no[a] == old_order[a]);
                    } else if a > p {
                        assert(no[a] == old_order[a - 1]);
                    }
                }
                assert forall|a: int, b: int| 0 <= a < b < no.len() implies #[trigger] no[a] != #[trigger] no[b] by {
                    let oa = if a < p { a } else { a - 1 };
                    let ob = if b < p { b } else { b - 1 };
                    if a != p && b != p {
                        assert(no[a] == old_order[oa] && no[b] == old_order[ob]);
                    } else if a == p {
                        assert(no[b] == old_order[ob]);
                    } else {
                        assert(no[a] == old_order[oa]);
                    }
                }
                assert forall|j: int| 0 <= j < i + 1 implies #[trigger] occurs(no, j) by {
                    if j == i {
                        assert(no[p as int] == j);
                    } else {
                        assert(occurs(old_order, j));
                        let a0 = choose|a: int| 0 <= a < old_order.len() && old_order[a] == j;
                        if a0 < p {
                            assert(no[a0] == j);
                        } else {
                            assert(no[a0 + 1] == j);
                        }
                    }
                }
                assert forall|a: int, b: int| 0 <= a < b < no.len() implies ts[#[trigger] no[a] as int] >= ts[#[trigger] no[b] as int] by {
                    let oa = if a < p { a } else { a - 1 };
                    let ob = if b < p { b } else { b - 1 };
                    if a != p && b != p {
                        assert(no[a] == old_order[oa] && no[b] == old_order[ob]);
                    } else if a == p {
                        assert(no[b] == old_order[ob]);
                        assert(ob >= p);
                        if ob > p {
                            assert(ts[old_order[p as int] as int] >= ts[old_order[ob] as int]);
                        }
                    } else {
                        assert(no[a] == old_order[oa]);
                    }
                }
            }
            i = i + 1;
        }
        order
    }

    /// The keys and entries of the history, each once, newest first.
    pub fn recent_threads(&self) -> (res: Vec<(String, HistoryEntry)>)
        requires
            self.wf(),
        ensures
            lists_history(self@, pairs_view(res@)),
            newest_first(pairs_view(res@)),
    {
        let order = self.newest_first_order();
        let ghost ts = self.timestamps();
        let mut res: Vec<(String, HistoryEntry)> = Vec::new();
        let mut a: usize = 0;
        while a < order.len()
            invariant
                a <= order.len(),
                res.len() == a,
                ts == self.timestamps(),
                descending_order(ts, order@),
                self.items.len() == ts.len(),
                forall|b: int| 0 <= b < a ==> #[trigger] pair_view(res@[b]) == (self.keys_view()[order@[b] as int], self.entries_view()[order@[b] as int]),
            decreases order.len() - a,
        {
            let p = self.pair_at(order[a]);
            res.push(p);
            a = a + 1;
        }
        proof {
            let ps = pairs_view(res@);
            let ks = self.keys_view();
            let es = self.entries_view();
            assert forall|b: int| 0 <= b < ps.len() implies self@.contains_key(#[trigger] ps[b].0) && self@[ps[b].0] == ps[b].1 by {
                assert(ps[b] == pair_view(res@[b]));
                lemma_index_of_distinct(ks, order@[b] as int);
            }
            assert forall|k: Seq<char>| #[trigger] self@.contains_key(k) implies exists|b: int| 0 <= b < ps.len() && #[trigger] ps[b].0 == k by {
                lemma_index_of_key(ks, k, 0);
                let j = index_of_key(ks, k, 0);
                assert(occurs(order@, j));
                let b = choose|b: int| 0 <= b < order@.len() && order@[b] == j;
                assert(ps[b] == pair_view(res@[b]));
                assert(ps[b].0 == k);
            }
            assert forall|b: int, c: int| 0 <= b < c < ps.len() implies #[trigger] ps[b].0 != #[trigger] ps[c].0 by {
                assert(ps[b] == pair_view(res@[b]));
                assert(ps[c] == pair_view(res@[c]));
                assert(order@[b] != order@[c]);
            }
            assert forall|b: int, c: int| 0 <= b < c < ps.len() implies #[trigger] ps[b].1.timestamp >= #[trigger] ps[c].1.timestamp by {
                assert(ps[b] == pair_view(res@[b]));
                assert(ps[c] == pair_view(res@[c]));
                assert(ts[order@[b] as int] >= ts[order@[c] as int]);
                assert(es[order@[b] as int].timestamp == ts[order@[b] as int]);
                assert(es[order@[c] as int].timestamp == ts[order@[c] as int]);
            }
        }
        res
    }
}


} // verus!

verus! {

/// Law: a listing of the history, inserted back into an empty map, gives the
/// same history (what `snapshot` gives, `from_pairs` takes back unchanged).
pub proof fn lemma_snapshot_roundtrip(m: Map<Seq<char>, HistoryEntryView>, ps: Seq<(Seq<char>, HistoryEntryView)>)
    requires
        lists_history(m, ps),
    ensures
        map_of_pairs(ps) == m,
    decreases ps.len(),
{
    if ps.len() == 0 {
        assert(m =~= Map::<Seq<char>, HistoryEntryView>::empty());
    } else {
        let k = ps.last().0;
        let m2 = m.remove(k);
        let ps2 = ps.drop_last();
        assert forall|i: int, j: int| 0 <= i < j < ps2.len() implies #[trigger] ps2[i].0 != #[trigger] ps2[j].0 by {
            assert(ps2[i] == ps[i] && ps2[j] == ps[j]);
        }
        assert forall|i: int| 0 <= i < ps2.len() implies m2.contains_key(#[trigger] ps2[i].0) && m2[ps2[i].0] == ps2[i].1 by {
            assert(ps2[i] == ps[i]);
            assert(ps[i].0 != ps[ps.len() - 1].0);
        }
        assert forall|k2: Seq<char>| #[trigger] m2.contains_key(k2) implies exists|i: int| 0 <= i < ps2.len() && #[trigger] ps2[i].0 == k2 by {
            assert(m.contains_key(k2));
            let i = choose|i: int| 0 <= i < ps.len() && #[trigger] ps[i].0 == k2;
            assert(i != ps.len() - 1);
            assert(ps2[i] == ps[i]);
        }
        lemma_snapshot_roundtrip(m2, ps2);
        assert(m.contains_key(k) && m[k] == ps.last().1);
        assert(m2.insert(k, ps.last().1) =~= m);
    }
}

/// Law: the last post read of a thread never goes back: after an update to
/// post `res_num`, it is the larger of `res_num` and what it was before.
pub proof fn lemma_update_keeps_max_res(
    m: Map<Seq<char>, HistoryEntryView>,
    title: Seq<char>,
    board_url: Seq<char>,
    dat_file: Seq<char>,
    res_num: u32,
    discord_thread_id: Option<Seq<char>>,
    timestamp: i64,
)
    ensures
        ({
            let key = history_key(board_url, dat_file);
            let after = m.insert(key, updated_entry(m, title, board_url, dat_file, res_num, discord_thread_id, timestamp));
            last_read_of(after, key) == if last_read_of(m, key) > res_num { last_read_of(m, key) } else { res_num }
        }),
{
}

/// Law: once a thread has a Discord thread, an update that names none keeps it.
pub proof fn lemma_update_keeps_discord_thread(
    m: Map<Seq<char>, HistoryEntryView>,
    title: Seq<char>,
    board_url: Seq<char>,
    dat_file: Seq<char>,
    res_num: u32,
    timestamp: i64,
)
    requires
        m.contains_key(history_key(board_url, dat_file)),
    ensures
        updated_entry(m, title, board_url, dat_file, res_num, None, timestamp).discord_thread_id
            == m[history_key(board_url, dat_file)].discord_thread_id,
{
}

/// Law: after a thread is added it is in the history; a thread that was new
/// has no post read yet, and adding a thread already there changes nothing.
pub proof fn lemma_added_thread_exists(
    m: Map<Seq<char>, HistoryEntryView>,
    title: Seq<char>,
    board_url: Seq<char>,
    dat_file: Seq<char>,
    timestamp: i64,
)
    ensures
        ({
            let key = history_key(board_url, dat_file);
            let after = if m.contains_key(key) {
                m
            } else {
                m.insert(key, new_thread_entry(title, board_url, dat_file, timestamp))
            };
            &&& after.contains_key(key)
            &&& !m.contains_key(key) ==> last_read_of(after, key) == 0
            &&& m.contains_key(key) ==> after == m
        }),
{
}

/// Law: after a thread is deleted it is no longer in the history, and every
/// other thread stays as it was.
pub proof fn lemma_deleted_thread_gone(m: Map<Seq<char>, HistoryEntryView>, board_url: Seq<char>, dat_file: Seq<char>)
    ensures
        !m.remove(history_key(board_url, dat_file)).contains_key(history_key(board_url, dat_file)),
        forall|k: Seq<char>| k != history_key(board_url, dat_file) ==> #[trigger] m.remove(history_key(board_url, dat_file)).contains_key(k)
            == m.contains_key(k) && (m.contains_key(k) ==> m.remove(history_key(board_url, dat_file))[k] == m[k]),
{
}

/// Law: whether a board URL is written with `https://` or `http://` does not
/// change the history key of its threads.
pub proof fn lemma_key_ignores_scheme(rest: Seq<char>, dat_file: Seq<char>)
    ensures
        history_key("https://"@ + rest, dat_file) == history_key("http://"@ + rest, dat_file),
{
    reveal_strlit("https://");
    reveal_strlit("http://");
    let a = "https://"@ + rest;
    let b = "http://"@ + rest;
    assert(lit_at(a, 0, "https://"@));
    assert(a.skip(8) =~= rest);
    assert(b[4] == ':');
    assert("https://"@[4] == 's');
    assert(!lit_at(b, 0, "https://"@));
    assert(lit_at(b, 0, "http://"@));
    assert(b.skip(7) =~= rest);
}

} // verus!

verus! {

/// A history that keeps nothing, for one-off commands (search, read, export):
/// no thread is known and nothing is recorded.
pub struct NullHistory;

impl HistoryStore for NullHistory {
    fn get_last_read(&self, board_url: &str, dat_file: &str) -> (res: u32)
        ensures
            res == 0,
    {
        0
    }

    fn thread_exists(&self, board_url: &str, dat_file: &str) -> (res: bool)
        ensures
            !res,
    {
        false
    }

    fn add_new_thread(&self, title: &str, board_url: &str, dat_file: &str) {
    }
}

} // verus!

verus! {

/// Law: reading a thread stamps it with the time of the read. After an update
/// at `now` its entry has time `now` (and the title and URL given), whether or
/// not it was known; and when every other thread is older than `now`, the
/// thread just read comes first in any newest-first listing of the history.
pub proof fn lemma_update_stamps_time(
    m: Map<Seq<char>, HistoryEntryView>,
    title: Seq<char>,
    board_url: Seq<char>,
    dat_file: Seq<char>,
    res_num: u32,
    discord_thread_id: Option<Seq<char>>,
    now: i64,
    ps: Seq<(Seq<char>, HistoryEntryView)>,
)
    ensures
        ({
            let key = history_key(board_url, dat_file);
            let after = m.insert(key, updated_entry(m, title, board_url, dat_file, res_num, discord_thread_id, now));
            &&& after[key].timestamp == now
            &&& after[key].title == title
            &&& after[key].board_url == board_url
            &&& after[key].dat_file == dat_file
            &&& (forall|k: Seq<char>| m.contains_key(k) && k != key ==> #[trigger] m[k].timestamp < now) && lists_history(after, ps)
                && newest_first(ps) ==> ps.len() > 0 && ps[0].0 == key
        }),
{
    let key = history_key(board_url, dat_file);
    let after = m.insert(key, updated_entry(m, title, board_url, dat_file, res_num, discord_thread_id, now));
    if (forall|k: Seq<char>| m.contains_key(k) && k != key ==> #[trigger] m[k].timestamp < now) && lists_history(after, ps)
        && newest_first(ps) {
        assert(after.contains_key(key));
        let i = choose|i: int| 0 <= i < ps.len() && #[trigger] ps[i].0 == key;
        if ps[0].0 != key {
            assert(i > 0);
            assert(ps[0].1.timestamp >= ps[i].1.timestamp);
            assert(after.contains_key(ps[0].0) && after[ps[0].0] == ps[0].1);
            assert(m.contains_key(ps[0].0));
            assert(m[ps[0].0].timestamp < now);
        }
    }
}

} // verus!
