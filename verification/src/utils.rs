//! Display helpers used by the command handlers and the reward alerts.

pub mod helpers;
pub mod local_rpc;
pub mod types;

use vstd::prelude::*;
use vstd::string::*;
use dashmap::DashMap;
use crate::text::{views_of, chars_of, contains_chars, occurs_in, push_char, same_chars, string_of_range};

verus! {

// ---------------------------------------------------------------------
// Thousands separators (the integer part of `f_num`)
// ---------------------------------------------------------------------

/// `s` with a comma in front of every complete group of three characters
/// counted from the right, as long as something stands before that group:
/// `1234567` becomes `1,234,567`.
pub open spec fn grouped(s: Seq<char>) -> Seq<char>
    decreases s.len(),
{
    if s.len() <= 3 {
        s
    } else {
        grouped(s.subrange(0, s.len() - 3)) + seq![','] + s.subrange(s.len() - 3, s.len() as int)
    }
}

/// What the left-to-right scan has written after the first `k` characters:
/// each character, followed by a comma when the number of characters still
/// to come is a positive multiple of three.
closed spec fn scan(s: Seq<char>, k: nat) -> Seq<char>
    decreases k,
{
    if k == 0 {
        seq![]
    } else {
        let i = k - 1;
        let base = scan(s, (k - 1) as nat).push(s[i]);
        if (s.len() - i - 1) % 3 == 0 && i != s.len() - 1 {
            base.push(',')
        } else {
            base
        }
    }
}

proof fn lemma_scan_prefix_agree(s: Seq<char>, t: Seq<char>, k: nat)
    requires
        s.len() == t.len() + 3,
        t == s.subrange(0, t.len() as int),
        k < t.len(),
    ensures
        scan(s, k) == scan(t, k),
    decreases k,
{
    if k > 0 {
        lemma_scan_prefix_agree(s, t, (k - 1) as nat);
        let i = k - 1;
        assert((s.len() - i - 1) % 3 == (t.len() - i - 1) % 3);
    }
}

proof fn lemma_scan_plain_run(s: Seq<char>, from: nat, k: nat)
    requires
        from <= k <= s.len(),
        s.len() <= from + 3,
    ensures
        scan(s, k) == scan(s, from) + s.subrange(from as int, k as int),
    decreases k,
{
    if k > from {
        lemma_scan_plain_run(s, from, (k - 1) as nat);
        let i = k - 1;
        assert(s.len() - i - 1 < 3);
        assert(scan(s, from) + s.subrange(from as int, k as int) =~= (scan(s, from)
            + s.subrange(from as int, (k - 1) as int)).push(s[i as int]));
    } else {
        assert(s.subrange(from as int, k as int) =~= Seq::<char>::empty());
    }
}

proof fn lemma_scan_is_grouped(s: Seq<char>)
    ensures
        scan(s, s.len()) == grouped(s),
    decreases s.len(),
{
    if s.len() <= 3 {
        lemma_scan_plain_run(s, 0, s.len());
        assert(s.subrange(0, s.len() as int) =~= s);
    } else {
        let n = s.len();
        let t = s.subrange(0, n - 3);
        let m = t.len();
        lemma_scan_is_grouped(t);
        lemma_scan_prefix_agree(s, t, (m - 1) as nat);
        // the last character of `t` is followed by a comma inside `s` only
        assert((s.len() - (m - 1) - 1) % 3 == 0);
        assert(scan(s, m) == scan(t, m).push(','));
        lemma_scan_plain_run(s, m, n);
    }
}

/// `s` with its commas taken out.
pub open spec fn without_commas(s: Seq<char>) -> Seq<char> {
    s.filter(|c: char| c != ',')
}

proof fn lemma_without_commas_of_plain(s: Seq<char>)
    requires
        forall|i: int| 0 <= i < s.len() ==> s[i] != ',',
    ensures
        without_commas(s) == s,
    decreases s.len(),
{
    reveal_with_fuel(Seq::filter, 1);
    if s.len() > 0 {
        lemma_without_commas_of_plain(s.drop_last());
        assert(s.drop_last().push(s.last()) =~= s);
    }
}

/// Grouping only inserts separators: taking the commas out again gives
/// back the digits, and one comma stands per full group of three that has
/// something in front of it.
pub proof fn lemma_grouping_only_adds_separators(s: Seq<char>)
    requires
        forall|i: int| 0 <= i < s.len() ==> s[i] != ',',
    ensures
        without_commas(grouped(s)) == s,
        s.len() > 0 ==> grouped(s).len() == s.len() + (s.len() - 1) / 3,
    decreases s.len(),
{
    if s.len() <= 3 {
        lemma_without_commas_of_plain(s);
    } else {
        let t = s.subrange(0, s.len() - 3);
        let tail = s.subrange(s.len() - 3, s.len() as int);
        lemma_grouping_only_adds_separators(t);
        lemma_without_commas_of_plain(tail);
        let pred = |c: char| c != ',';
        Seq::filter_distributes_over_add(grouped(t) + seq![','], tail, pred);
        Seq::filter_distributes_over_add(grouped(t), seq![','], pred);
        reveal_with_fuel(Seq::filter, 2);
        assert(seq![','].drop_last() =~= Seq::<char>::empty());
        assert(seq![','].filter(pred) =~= Seq::<char>::empty());
        assert(t + tail =~= s);
    }
}

/// Grouping makes groups of three counted from the right: in `grouped(s)` a
/// comma stands exactly where a multiple of four characters remains up to
/// the end, so every group after the first holds three characters and the
/// first holds one to three.
pub proof fn lemma_group_sizes(s: Seq<char>)
    requires
        s.len() > 0,
        forall|i: int| 0 <= i < s.len() ==> s[i] != ',',
    ensures
        grouped(s).len() % 4 != 0,
        forall|k: int|
            0 <= k < grouped(s).len() ==> (#[trigger] grouped(s)[k] == ',' <==> (grouped(s).len() - k)
                % 4 == 0),
    decreases s.len(),
{
    if s.len() > 3 {
        let t = s.subrange(0, s.len() - 3);
        let tail = s.subrange(s.len() - 3, s.len() as int);
        lemma_group_sizes(t);
        let gt = grouped(t);
        let g = grouped(s);
        assert(g == gt + seq![','] + tail);
        assert forall|k: int| 0 <= k < g.len() implies (#[trigger] g[k] == ',' <==> (g.len() - k) % 4
            == 0) by {
            if k < gt.len() {
                assert(g[k] == gt[k]);
            } else if k > gt.len() {
                assert(g[k] == tail[k - gt.len() - 1]);
            }
        }
    }
}

/// Puts a comma between every group of three characters counted from the
/// right: the text part of `f_num`, which receives the number already
/// rounded and written in decimal.
pub fn group_thousands(s: &str) -> (r: String)
    ensures
        r@ == grouped(s@),
{
    let chars = chars_of(s);
    let len = chars.len();
    let mut result = String::new();
    let mut i: usize = 0;
    while i < len
        invariant
            len == chars@.len(),
            chars@ == s@,
            i <= len,
            result@ == scan(s@, i as nat),
        decreases len - i,
    {
        push_char(&mut result, chars[i]);
        if (len - i - 1) % 3 == 0 && i != len - 1 {
            push_char(&mut result, ',');
        }
        i = i + 1;
    }
    proof {
        lemma_scan_is_grouped(s@);
    }
    result
}

// ---------------------------------------------------------------------
// Short forms of wallets and hashes
// ---------------------------------------------------------------------

/// A wallet of more than 18 characters is shown as its first 12
/// characters, `...` and its last 6; a shorter one is shown whole.
pub open spec fn short_wallet(w: Seq<char>) -> Seq<char> {
    if w.len() > 18 {
        w.subrange(0, 12) + "..."@ + w.subrange(w.len() - 6, w.len() as int)
    } else {
        w
    }
}

/// The short form is at most 21 characters, and shortening it again
/// changes nothing.
pub proof fn lemma_short_wallet_stable(w: Seq<char>)
    ensures
        short_wallet(w).len() <= 21,
        short_wallet(short_wallet(w)) == short_wallet(w),
{
    reveal_strlit("...");
    if w.len() > 18 {
        let x = short_wallet(w);
        assert(x.len() == 21);
        assert(x.subrange(0, 12) =~= w.subrange(0, 12));
        assert(x.subrange(x.len() - 6, x.len() as int) =~= w.subrange(w.len() - 6, w.len() as int));
    }
}

/// Shortens a wallet address for display.
pub fn format_short_wallet(w: &str) -> (r: String)
    ensures
        r@ == short_wallet(w@),
{
    let chars = chars_of(w);
    if chars.len() > 18 {
        let mut r = string_of_range(&chars, 0, 12);
        r.append("...");
        let tail = string_of_range(&chars, chars.len() - 6, chars.len());
        r.append(tail.as_str());
        r
    } else {
        string_of_range(&chars, 0, chars.len())
    }
}

/// The first `min(8, len)` characters of `h`.
pub open spec fn head8(h: Seq<char>) -> Seq<char> {
    if h.len() > 8 {
        h.subrange(0, 8)
    } else {
        h
    }
}

/// The last `min(8, len)` characters of `h`.
pub open spec fn tail8(h: Seq<char>) -> Seq<char> {
    if h.len() > 8 {
        h.subrange(h.len() - 8, h.len() as int)
    } else {
        h
    }
}

/// A hash is linked when it is longer than 16 bytes and is none of the
/// placeholders the alerts write while a hash is still unknown.
pub open spec fn hash_is_linkable(h: &str) -> bool {
    &&& h.len() > 16
    &&& !occurs_in("Searching"@, h@)
    &&& !occurs_in("Indexing"@, h@)
    &&& h@ != "Not Found"@
}

/// The markup that shows hash `h`.
pub open spec fn hash_markup(h: &str, link_type: Seq<char>) -> Seq<char> {
    if hash_is_linkable(h) {
        "<a href=\"https://kaspa.stream/"@ + link_type + "/"@ + h@ + "\">"@ + head8(h@) + "..."@
            + tail8(h@) + "</a>"@
    } else {
        "<code>"@ + h@ + "</code>"@
    }
}

/// Shows a hash as a link to the explorer (abbreviated to its first and
/// last eight characters) or, for a placeholder, as plain code.
pub fn format_hash(h: &str, link_type: &str) -> (r: String)
    ensures
        r@ == hash_markup(h, link_type@),
{
    let chars = chars_of(h);
    let linkable = h.len() > 16 && !contains_chars(&chars, &chars_of("Searching"))
        && !contains_chars(&chars, &chars_of("Indexing")) && !same_chars(
        &chars,
        &chars_of("Not Found"),
    );
    if linkable {
        let n = chars.len();
        let head_end: usize = if n > 8 { 8 } else { n };
        let tail_start: usize = if n > 8 { n - 8 } else { 0 };
        let mut r = String::new();
        r.append("<a href=\"https://kaspa.stream/");
        r.append(link_type);
        r.append("/");
        r.append(h);
        r.append("\">");
        let head = string_of_range(&chars, 0, head_end);
        r.append(head.as_str());
        r.append("...");
        let tail = string_of_range(&chars, tail_start, n);
        r.append(tail.as_str());
        r.append("</a>");
        proof {
            assert(chars@.subrange(0, n as int) =~= chars@);
        }
        r
    } else {
        let mut r = String::new();
        r.append("<code>");
        r.append(h);
        r.append("</code>");
        r
    }
}

// ---------------------------------------------------------------------
// Anti-spam rate limiting
// ---------------------------------------------------------------------

/// What a chat-to-time map holds: for each chat, the time (nanoseconds on
/// the process clock) of its last accepted message.
pub uninterp spec fn last_seen_entries(m: DashMap<i64, u64>) -> Map<i64, u64>;

/// No chat seen yet.
pub open spec fn nobody_seen() -> Map<i64, u64> {
    Map::empty()
}

/// `DashMap::new`: an empty map.
#[verifier::external_body]
fn new_last_seen_map() -> (r: DashMap<i64, u64>)
    ensures
        last_seen_entries(r) == nobody_seen(),
{
    DashMap::new()
}

/// `DashMap::get`, the time copied out of the guard: the time stored for
/// `chat`, if any.
#[verifier::external_body]
fn last_seen_get(m: &DashMap<i64, u64>, chat: i64) -> (r: Option<u64>)
    ensures
        match r {
            Some(t) => last_seen_entries(*m).contains_key(chat) && last_seen_entries(*m)[chat] == t,
            None => !last_seen_entries(*m).contains_key(chat),
        },
{
    m.get(&chat).map(|e| *e.value())
}

/// `DashMap::insert`: stores `t` for `chat`, replacing what was there.
#[verifier::external_body]
fn last_seen_insert(m: &mut DashMap<i64, u64>, chat: i64, t: u64)
    ensures
        last_seen_entries(*final(m)) == last_seen_entries(*old(m)).insert(chat, t),
{
    m.insert(chat, t);
}

/// Messages closer than this (in nanoseconds) to the last accepted one
/// pass without being counted: they belong to one burst of replies.
pub const BURST_WINDOW_NANOS: u64 = 50_000_000;

/// Messages closer than this (in nanoseconds) to the last accepted one,
/// and not part of its burst, are spam.
pub const SPAM_WINDOW_NANOS: u64 = 3_000_000_000;

/// The time from `then` to `now`, zero when the clock reads earlier.
pub open spec fn elapsed_since(then: u64, now: u64) -> int {
    if now >= then {
        now - then
    } else {
        0
    }
}

/// Is a message to `chat` at `now` spam? The admin never is; a chat seen
/// less than 50 ms ago is not; one seen less than 3 s ago is.
pub open spec fn spam_verdict(seen: Map<i64, u64>, admin: Option<i64>, chat: i64, now: u64) -> bool {
    if admin == Some(chat) {
        false
    } else if seen.contains_key(chat) {
        let elapsed = elapsed_since(seen[chat], now);
        BURST_WINDOW_NANOS <= elapsed < SPAM_WINDOW_NANOS
    } else {
        false
    }
}

/// The record after that message: the time is stored for a chat not seen
/// before and for one seen 3 s ago or more; otherwise nothing changes.
pub open spec fn seen_after(seen: Map<i64, u64>, admin: Option<i64>, chat: i64, now: u64) -> Map<
    i64,
    u64,
> {
    if admin == Some(chat) {
        seen
    } else if seen.contains_key(chat) && elapsed_since(seen[chat], now) < SPAM_WINDOW_NANOS {
        seen
    } else {
        seen.insert(chat, now)
    }
}

/// The per-chat record behind the anti-spam check.
pub struct SpamGuard {
    last_seen: DashMap<i64, u64>,
}

impl View for SpamGuard {
    type V = Map<i64, u64>;

    closed spec fn view(&self) -> Map<i64, u64> {
        last_seen_entries(self.last_seen)
    }
}

impl SpamGuard {
    /// A guard that has seen no chat.
    pub fn new() -> (r: Self)
        ensures
            r@ == nobody_seen(),
    {
        SpamGuard { last_seen: new_last_seen_map() }
    }

    /// Decides whether an outgoing message to `chat_id` at time `now`
    /// (nanoseconds on a monotonic clock) is blocked as spam, and records
    /// it; `admin` is the admin's chat, if one is configured.
    pub fn is_spam(&mut self, admin: Option<i64>, chat_id: i64, now: u64) -> (r: bool)
        ensures
            r == spam_verdict(old(self)@, admin, chat_id, now),
            final(self)@ == seen_after(old(self)@, admin, chat_id, now),
    {
        match admin {
            Some(a) => {
                if a == chat_id {
                    return false;
                }
            },
            None => {},
        }
        match last_seen_get(&self.last_seen, chat_id) {
            Some(last) => {
                let elapsed = if now >= last {
                    now - last
                } else {
                    0
                };
                if elapsed < BURST_WINDOW_NANOS {
                    return false;
                }
                if elapsed < SPAM_WINDOW_NANOS {
                    return true;
                }
                last_seen_insert(&mut self.last_seen, chat_id, now);
                false
            },
            None => {
                last_seen_insert(&mut self.last_seen, chat_id, now);
                false
            },
        }
    }
}

/// The rules of the anti-spam check: the admin is never blocked; the first
/// message to a chat is never blocked; a blocked message changes nothing,
/// so blocking cannot extend itself; and once 3 s have passed since the
/// last accepted message, the next one is accepted.
pub proof fn lemma_spam_rules(seen: Map<i64, u64>, admin: Option<i64>, chat: i64, now: u64)
    ensures
        admin == Some(chat) ==> !spam_verdict(seen, admin, chat, now),
        !seen.contains_key(chat) ==> !spam_verdict(seen, admin, chat, now),
        spam_verdict(seen, admin, chat, now) ==> seen_after(seen, admin, chat, now) == seen,
        seen.contains_key(chat) && elapsed_since(seen[chat], now) >= SPAM_WINDOW_NANOS ==> !spam_verdict(
            seen,
            admin,
            chat,
            now,
        ),
        !spam_verdict(seen, admin, chat, now) && admin != Some(chat) && seen_after(seen, admin, chat, now) != seen
            ==> seen_after(seen, admin, chat, now)[chat] == now,
{
}

// ---------------------------------------------------------------------
// The reply keyboard
// ---------------------------------------------------------------------

/// A reply keyboard: rows of button labels; `resize` asks the client to fit
/// the keyboard to its buttons.
pub struct ReplyKeyboard {
    pub rows: Vec<Vec<String>>,
    pub resize: bool,
}

/// The labels of each row.
pub open spec fn row_views(rows: Seq<Vec<String>>) -> Seq<Seq<Seq<char>>> {
    rows.map_values(|r: Vec<String>| views_of(r@))
}

/// The main keyboard: the ten public commands, two per row.
pub open spec fn golden_layout() -> Seq<Seq<Seq<char>>> {
    seq![
        seq!["/balance"@, "/list"@],
        seq!["/network"@, "/hashrate"@],
        seq!["/price"@, "/market"@],
        seq!["/supply"@, "/fees"@],
        seq!["/dag"@, "/sys"@],
    ]
}

fn pair_row(a: &str, b: &str) -> (r: Vec<String>)
    ensures
        views_of(r@) == seq![a@, b@],
{
    let mut r: Vec<String> = Vec::new();
    r.push(String::from_str(a));
    r.push(String::from_str(b));
    assert(views_of(r@) =~= seq![a@, b@]);
    r
}

/// The main reply keyboard, resized to fit.
pub fn make_golden_keyboard() -> (k: ReplyKeyboard)
    ensures
        row_views(k.rows@) == golden_layout(),
        k.resize,
{
    let mut rows: Vec<Vec<String>> = Vec::new();
    rows.push(pair_row("/balance", "/list"));
    rows.push(pair_row("/network", "/hashrate"));
    rows.push(pair_row("/price", "/market"));
    rows.push(pair_row("/supply", "/fees"));
    rows.push(pair_row("/dag", "/sys"));
    assert(row_views(rows@) =~= golden_layout());
    ReplyKeyboard { rows, resize: true }
}

} // verus!
