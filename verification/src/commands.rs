//! The decisions behind the chat commands: who may run what, how the
//! registry changes, and which reply or follow-up the application owes.

use vstd::prelude::*;
use vstd::string::*;
use std::collections::HashSet;
use regex::Regex;
use kaspa_addresses::Address;
use crate::state::{
    all_chats, chats_of, wallets_tracked_by, with_subscription, without_subscription, WalletRegistry,
};
use crate::text::{decimal, decimal_digits, join_strings, joined, views_of};
use crate::utils::helpers::{kaspa_prefix, starts_with_kaspa_prefix};
use crate::utils::{format_short_wallet, short_wallet};

verus! {

// ---------------------------------------------------------------------
// Outside calls
// ---------------------------------------------------------------------

/// The pattern a tracked address must match.
pub open spec fn tracked_address_pattern() -> Seq<char> {
    "^kaspa:[a-z0-9]{61,63}$"@
}

/// A lower-case ASCII letter or an ASCII digit: the class `[a-z0-9]`.
pub open spec fn is_lower_alnum(c: char) -> bool {
    ('a' <= c && c <= 'z') || ('0' <= c && c <= '9')
}

/// What `^kaspa:[a-z0-9]{61,63}$` matches: `kaspa:` and then 61 to 63
/// characters of `[a-z0-9]`, and nothing else.
pub open spec fn matches_tracked_address_form(t: Seq<char>) -> bool {
    &&& kaspa_prefix().is_prefix_of(t)
    &&& 67 <= t.len() <= 69
    &&& forall|i: int| 6 <= i < t.len() ==> is_lower_alnum(#[trigger] t[i])
}

/// `regex::Regex::new` followed by `Regex::is_match`, for the one pattern
/// the bot compiles (a valid pattern, so compiling it cannot fail). The
/// regex crate documents `^`/`$` as the start and end of the text, a
/// bracket class as one of its characters and `{61,63}` as 61 to 63
/// repetitions, which is what the contract states.
#[verifier::external_body]
fn regex_is_match(pattern: &str, text: &str) -> (b: bool)
    requires
        pattern@ == tracked_address_pattern(),
    ensures
        b == matches_tracked_address_form(text@),
{
    Regex::new(pattern).unwrap().is_match(text)
}

/// Whether `kaspa_addresses::Address::try_from` accepts the text (prefix,
/// Bech32 payload and checksum); the outcome depends on the text alone.
pub uninterp spec fn is_kaspa_address(s: Seq<char>) -> bool;

/// `kaspa_addresses::Address::try_from(&str)`, reduced to whether it
/// succeeded. Its source rejects a text without `:` (`MissingPrefix`); the
/// rest of the decoding is named, not restated.
#[verifier::external_body]
fn parses_as_address(s: &str) -> (b: bool)
    ensures
        b == is_kaspa_address(s@),
        !s@.contains(':') ==> !b,
{
    Address::try_from(s).is_ok()
}

// ---------------------------------------------------------------------
// Commands and what they ask of the application
// ---------------------------------------------------------------------

/// The commands of the bot.
pub enum Command {
    Start,
    Add(String),
    Remove(String),
    List,
    Network,
    Dag,
    Balance,
    Price,
    Market,
    Supply,
    Fees,
    Sys,
    Pause,
    Resume,
    Restart,
    Broadcast(String),
    Logs,
}

/// What the application must do after a command was decided.
pub enum Action {
    /// Send `text`; `keyboard` attaches the main keyboard; `persist` saves
    /// the registry first.
    Reply { text: String, keyboard: bool, persist: bool },
    /// Look up the balance of each of these wallets and report them.
    Balances { wallets: Vec<String> },
    /// Report the node's network statistics.
    NetworkStats,
    /// Report the node's block and header counts.
    DagDetails,
    /// Report the price.
    Price,
    /// Report the market capitalisation.
    MarketCap,
    /// Report the circulating and the maximum supply.
    Supply,
    /// Report the fee estimate.
    Fees,
    /// Report memory use and whether monitoring runs.
    SystemReport { monitoring: bool },
    /// Send `text`, save the registry and stop the process.
    Restart { text: String },
    /// Send `text` to each recipient, one by one.
    Broadcast { recipients: HashSet<i64>, text: String },
    /// Send the tail of the log file.
    ReadLogs,
    /// Nothing (a command the sender may not use).
    Nothing,
}

/// The help text; the admin also sees the admin commands.
pub open spec fn start_message(is_admin: bool) -> Seq<char> {
    if is_admin {
        "🤖 <b>Kaspa Platinum Command Center</b>\n━━━━━━━━━━━━━━━━━━\n\
            Welcome! This system provides secure, real-time Kaspa wallet monitoring directly via a private node.\n\n\
            📌 <b>Public Commands:</b>\n\
            <code>/add &lt;address&gt;</code> - Track a wallet\n\
            <code>/remove &lt;address&gt;</code> - Stop tracking\n\
            <code>/list</code> - View your portfolio\n\
            <code>/balance</code> - Check live balances\n\
            <code>/network</code> - Network statistics\n\
            <code>/fees</code> - Live mempool fees\n\
            <code>/price</code> - Current KAS price\n\
            <code>/supply</code> - Circulating supply\n\
            <code>/market</code> - Market capitalization\n\
            <code>/dag</code> - BlockDAG details"@ + "\n\n👑 <b>Admin Commands:</b>\n\
                <code>/sys</code> - Server Diagnostics\n\
                <code>/pause</code> - Disconnect Engine\n\
                <code>/resume</code> - Reconnect Engine\n\
                <code>/restart</code> - Reboot Process\n\
                <code>/broadcast &lt;msg&gt;</code> - Message all users\n\
                <code>/logs</code> - View System Logs"@
    } else {
        "🤖 <b>Kaspa Platinum Command Center</b>\n━━━━━━━━━━━━━━━━━━\n\
            Welcome! This system provides secure, real-time Kaspa wallet monitoring directly via a private node.\n\n\
            📌 <b>Public Commands:</b>\n\
            <code>/add &lt;address&gt;</code> - Track a wallet\n\
            <code>/remove &lt;address&gt;</code> - Stop tracking\n\
            <code>/list</code> - View your portfolio\n\
            <code>/balance</code> - Check live balances\n\
            <code>/network</code> - Network statistics\n\
            <code>/fees</code> - Live mempool fees\n\
            <code>/price</code> - Current KAS price\n\
            <code>/supply</code> - Circulating supply\n\
            <code>/market</code> - Market capitalization\n\
            <code>/dag</code> - BlockDAG details"@
    }
}

/// The address an `/add` or `/remove` argument stands for.
pub open spec fn command_wallet(w: Seq<char>) -> Seq<char> {
    if kaspa_prefix().is_prefix_of(w) {
        w
    } else {
        kaspa_prefix() + w
    }
}

/// The reply to a successful `/add`.
pub open spec fn tracking_enabled_message(wallet: Seq<char>) -> Seq<char> {
    "✅ <b>Tracking Enabled:</b>\n<code>"@ + wallet + "</code>"@
}

/// The reply to an `/add` whose address has the wrong form.
pub open spec fn invalid_format_message() -> Seq<char> {
    "❌ <b>Invalid Format!</b>\nPlease provide a valid Kaspa address."@
}

/// The reply to `/remove`.
pub open spec fn wallet_removed_message() -> Seq<char> {
    "🗑️ <b>Wallet Removed.</b>"@
}

/// The reply to `/list` for the listed wallets.
pub open spec fn portfolio_message(ws: Seq<Seq<char>>) -> Seq<char> {
    if ws.len() == 0 {
        "No wallets tracked."@
    } else {
        "📁 <b>Portfolio:</b>\n<code>"@ + joined(ws, "\n"@) + "</code>"@
    }
}

/// `ws` lists the members of `s`, each exactly once.
pub open spec fn lists_exactly(ws: Seq<Seq<char>>, s: Set<Seq<char>>) -> bool {
    &&& forall|i: int, j: int| 0 <= i < j < ws.len() ==> ws[i] != ws[j]
    &&& forall|w: Seq<char>| s.contains(w) <==> ws.contains(w)
}

/// The text sent to every chat by `/broadcast m`.
pub open spec fn broadcast_message(m: Seq<char>) -> Seq<char> {
    "📢 <b>Admin Broadcast:</b>\n\n"@ + m
}

/// The wallets whose balances `/balance` reports for `chat`: the ones it
/// tracks that decode as Kaspa addresses.
pub open spec fn balance_wallets(m: Map<Seq<char>, Set<i64>>, chat: i64) -> Set<Seq<char>> {
    wallets_tracked_by(m, chat).filter(|w: Seq<char>| is_kaspa_address(w))
}

/// The decision for `cmd` sent by `chat`; the admin is `admin`.
pub open spec fn command_outcome(
    cmd: Command,
    chat: i64,
    admin: i64,
    reg: Map<Seq<char>, Set<i64>>,
    monitoring: bool,
    r: Action,
    reg2: Map<Seq<char>, Set<i64>>,
    monitoring2: bool,
) -> bool {
    let is_admin = chat == admin;
    match cmd {
        Command::Start => r matches Action::Reply { text, keyboard, persist } && text@
            == start_message(is_admin) && keyboard && !persist && reg2 == reg && monitoring2
            == monitoring,
        Command::Add(w) => {
            let c = command_wallet(w@);
            if matches_tracked_address_form(c) {
                &&& r matches Action::Reply { text, keyboard, persist } && text@
                    == tracking_enabled_message(c) && keyboard && persist
                &&& reg2 == with_subscription(reg, c, chat)
                &&& monitoring2 == monitoring
            } else {
                &&& r matches Action::Reply { text, keyboard, persist } && text@
                    == invalid_format_message() && !keyboard && !persist
                &&& reg2 == reg
                &&& monitoring2 == monitoring
            }
        },
        Command::Remove(w) => {
            &&& r matches Action::Reply { text, keyboard, persist } && text@
                == wallet_removed_message() && !keyboard && persist
            &&& reg2 == without_subscription(reg, command_wallet(w@), chat)
            &&& monitoring2 == monitoring
        },
        Command::List => {
            &&& r matches Action::Reply { text, keyboard, persist } && !keyboard && !persist
                && exists|ws: Seq<Seq<char>>|
                lists_exactly(ws, wallets_tracked_by(reg, chat)) && text@ == #[trigger] portfolio_message(ws)
            &&& reg2 == reg
            &&& monitoring2 == monitoring
        },
        Command::Balance => {
            &&& r matches Action::Balances { wallets } && lists_exactly(
                views_of(wallets@),
                balance_wallets(reg, chat),
            )
            &&& reg2 == reg
            &&& monitoring2 == monitoring
        },
        Command::Network => r is NetworkStats && reg2 == reg && monitoring2 == monitoring,
        Command::Dag => r is DagDetails && reg2 == reg && monitoring2 == monitoring,
        Command::Price => r is Price && reg2 == reg && monitoring2 == monitoring,
        Command::Market => r is MarketCap && reg2 == reg && monitoring2 == monitoring,
        Command::Supply => r is Supply && reg2 == reg && monitoring2 == monitoring,
        Command::Fees => r is Fees && reg2 == reg && monitoring2 == monitoring,
        Command::Sys => reg2 == reg && monitoring2 == monitoring && if is_admin {
            r matches Action::SystemReport { monitoring: m } && m == monitoring
        } else {
            r is Nothing
        },
        Command::Pause => reg2 == reg && if is_admin {
            &&& r matches Action::Reply { text, keyboard, persist } && text@ == "⏸️ <b>Paused.</b>"@
                && !keyboard && !persist
            &&& !monitoring2
        } else {
            r is Nothing && monitoring2 == monitoring
        },
        Command::Resume => reg2 == reg && if is_admin {
            &&& r matches Action::Reply { text, keyboard, persist } && text@ == "▶️ <b>Running.</b>"@
                && !keyboard && !persist
            &&& monitoring2
        } else {
            r is Nothing && monitoring2 == monitoring
        },
        Command::Restart => reg2 == reg && monitoring2 == monitoring && if is_admin {
            r matches Action::Restart { text } && text@ == "🔄 <b>Restarting safely...</b>"@
        } else {
            r is Nothing
        },
        Command::Broadcast(m) => reg2 == reg && monitoring2 == monitoring && if is_admin {
            r matches Action::Broadcast { recipients, text } && recipients@ == all_chats(reg)
                && text@ == broadcast_message(m@)
        } else {
            r is Nothing
        },
        Command::Logs => reg2 == reg && monitoring2 == monitoring && if is_admin {
            r is ReadLogs
        } else {
            r is Nothing
        },
    }
}

fn normalize_wallet(w: &String) -> (r: String)
    ensures
        r@ == command_wallet(w@),
{
    proof {
        reveal_strlit("kaspa:");
    }
    let has_prefix = starts_with_kaspa_prefix(w.as_str());
    if has_prefix {
        w.clone()
    } else {
        let mut t = String::from_str("kaspa:");
        t.append(w.as_str());
        t
    }
}

/// Decides a command sent by chat `chat_id` (the admin is `admin_id`):
/// updates the registry and the monitoring switch, and says what the
/// application must send or look up.
pub fn handle_command(
    cmd: Command,
    chat_id: i64,
    admin_id: i64,
    registry: &mut WalletRegistry,
    monitoring: &mut bool,
) -> (r: Action)
    ensures
        command_outcome(cmd, chat_id, admin_id, old(registry)@, *old(monitoring), r, final(registry)@, *final(monitoring)),
{
    let is_admin = chat_id == admin_id;
    match cmd {
        Command::Start => {
            let mut text = String::from_str("🤖 <b>Kaspa Platinum Command Center</b>\n━━━━━━━━━━━━━━━━━━\n\
            Welcome! This system provides secure, real-time Kaspa wallet monitoring directly via a private node.\n\n\
            📌 <b>Public Commands:</b>\n\
            <code>/add &lt;address&gt;</code> - Track a wallet\n\
            <code>/remove &lt;address&gt;</code> - Stop tracking\n\
            <code>/list</code> - View your portfolio\n\
            <code>/balance</code> - Check live balances\n\
            <code>/network</code> - Network statistics\n\
            <code>/fees</code> - Live mempool fees\n\
            <code>/price</code> - Current KAS price\n\
            <code>/supply</code> - Circulating supply\n\
            <code>/market</code> - Market capitalization\n\
            <code>/dag</code> - BlockDAG details");
            if is_admin {
                text.append("\n\n👑 <b>Admin Commands:</b>\n\
                <code>/sys</code> - Server Diagnostics\n\
                <code>/pause</code> - Disconnect Engine\n\
                <code>/resume</code> - Reconnect Engine\n\
                <code>/restart</code> - Reboot Process\n\
                <code>/broadcast &lt;msg&gt;</code> - Message all users\n\
                <code>/logs</code> - View System Logs");
            }
            Action::Reply { text, keyboard: true, persist: false }
        },
        Command::Add(w) => {
            let c = normalize_wallet(&w);
            if regex_is_match("^kaspa:[a-z0-9]{61,63}$", c.as_str()) {
                registry.add(c.clone(), chat_id);
                let mut text = String::from_str("✅ <b>Tracking Enabled:</b>\n<code>");
                text.append(c.as_str());
                text.append("</code>");
                Action::Reply { text, keyboard: true, persist: true }
            } else {
                Action::Reply {
                    text: String::from_str("❌ <b>Invalid Format!</b>\nPlease provide a valid Kaspa address."),
                    keyboard: false,
                    persist: false,
                }
            }
        },
        Command::Remove(w) => {
            let c = normalize_wallet(&w);
            registry.remove(&c, chat_id);
            Action::Reply {
                text: String::from_str("🗑️ <b>Wallet Removed.</b>"),
                keyboard: false,
                persist: true,
            }
        },
        Command::List => {
            let mine = registry.wallets_of(chat_id);
            let text = if mine.len() == 0 {
                String::from_str("No wallets tracked.")
            } else {
                let mut t = String::from_str("📁 <b>Portfolio:</b>\n<code>");
                let body = join_strings(&mine, "\n");
                t.append(body.as_str());
                t.append("</code>");
                t
            };
            proof {
                let ws = views_of(mine@);
                assert forall|w: Seq<char>|
                    wallets_tracked_by(registry@, chat_id).contains(w) <==> ws.contains(w) by {
                    if ws.contains(w) {
                        let i = choose|i: int| 0 <= i < ws.len() && ws[i] == w;
                        assert(mine@[i]@ == w);
                    }
                    if wallets_tracked_by(registry@, chat_id).contains(w) {
                        let i = choose|i: int| 0 <= i < mine@.len() && #[trigger] mine@[i]@ == w;
                        assert(ws[i] == w);
                    }
                }
                assert(lists_exactly(ws, wallets_tracked_by(registry@, chat_id)));
                assert(text@ == portfolio_message(ws));
            }
            Action::Reply { text, keyboard: false, persist: false }
        },
        Command::Balance => {
            let mine = registry.wallets_of(chat_id);
            let mut wallets: Vec<String> = Vec::new();
            let ghost mut idx: Seq<int> = Seq::empty();
            let mut i: usize = 0;
            while i < mine.len()
                invariant
                    i <= mine@.len(),
                    forall|a: int, b: int| 0 <= a < b < mine@.len() ==> mine@[a]@ != mine@[b]@,
                    idx.len() == wallets@.len(),
                    forall|k: int|
                        0 <= k < wallets@.len() ==> 0 <= #[trigger] idx[k] < i && wallets@[k]@
                            == mine@[idx[k]]@ && is_kaspa_address(mine@[idx[k]]@),
                    forall|k1: int, k2: int| 0 <= k1 < k2 < wallets@.len() ==> idx[k1] < idx[k2],
                    forall|a: int|
                        0 <= a < i && is_kaspa_address(#[trigger] mine@[a]@) ==> exists|k: int|
                            0 <= k < wallets@.len() && idx[k] == a,
                decreases mine@.len() - i,
            {
                if parses_as_address(mine[i].as_str()) {
                    let ghost old_idx = idx;
                    wallets.push(mine[i].clone());
                    proof {
                        idx = idx.push(i as int);
                        assert forall|a: int|
                            0 <= a < i + 1 && is_kaspa_address(#[trigger] mine@[a]@) implies exists|k: int|
                            0 <= k < wallets@.len() && idx[k] == a by {
                            if a < i {
                                let k = choose|k: int| 0 <= k < old_idx.len() && old_idx[k] == a;
                                assert(idx[k] == a);
                            } else {
                                assert(idx[idx.len() - 1] == a);
                            }
                        }
                    }
                }
                i = i + 1;
            }
            proof {
                assert forall|k1: int, k2: int|
                    0 <= k1 < k2 < wallets@.len() implies wallets@[k1]@ != wallets@[k2]@ by {
                    assert(idx[k1] < idx[k2]);
                }
            }
            proof {
                let ws = views_of(wallets@);
                assert forall|w: Seq<char>|
                    balance_wallets(registry@, chat_id).contains(w) <==> ws.contains(w) by {
                    if ws.contains(w) {
                        let k = choose|k: int| 0 <= k < ws.len() && ws[k] == w;
                        assert(wallets@[k]@ == w);
                        assert(mine@[idx[k]]@ == w);
                        assert(wallets_tracked_by(registry@, chat_id).contains(w));
                    }
                    if balance_wallets(registry@, chat_id).contains(w) {
                        assert(wallets_tracked_by(registry@, chat_id).contains(w));
                        let a = choose|a: int| 0 <= a < mine@.len() && #[trigger] mine@[a]@ == w;
                        assert(is_kaspa_address(mine@[a]@));
                        let k = choose|k: int| 0 <= k < wallets@.len() && idx[k] == a;
                        assert(ws[k] == w);
                    }
                }
            }
            Action::Balances { wallets }
        },
        Command::Network => Action::NetworkStats,
        Command::Dag => Action::DagDetails,
        Command::Price => Action::Price,
        Command::Market => Action::MarketCap,
        Command::Supply => Action::Supply,
        Command::Fees => Action::Fees,
        Command::Sys => {
            if is_admin {
                Action::SystemReport { monitoring: *monitoring }
            } else {
                Action::Nothing
            }
        },
        Command::Pause => {
            if is_admin {
                *monitoring = false;
                Action::Reply { text: String::from_str("⏸️ <b>Paused.</b>"), keyboard: false, persist: false }
            } else {
                Action::Nothing
            }
        },
        Command::Resume => {
            if is_admin {
                *monitoring = true;
                Action::Reply { text: String::from_str("▶️ <b>Running.</b>"), keyboard: false, persist: false }
            } else {
                Action::Nothing
            }
        },
        Command::Restart => {
            if is_admin {
                Action::Restart { text: String::from_str("🔄 <b>Restarting safely...</b>") }
            } else {
                Action::Nothing
            }
        },
        Command::Broadcast(m) => {
            if is_admin {
                let recipients = registry.all_users();
                let mut text = String::from_str("📢 <b>Admin Broadcast:</b>\n\n");
                text.append(m.as_str());
                Action::Broadcast { recipients, text }
            } else {
                Action::Nothing
            }
        },
        Command::Logs => {
            if is_admin {
                Action::ReadLogs
            } else {
                Action::Nothing
            }
        },
    }
}

// ---------------------------------------------------------------------
// Follow-up replies
// ---------------------------------------------------------------------

/// The closing reply of a broadcast that reached `n` chats.
pub open spec fn broadcast_summary_message(n: nat) -> Seq<char> {
    "✅ Broadcast sent successfully to "@ + decimal_digits(n) + " users."@
}

/// The closing reply of a broadcast that reached `sent` chats.
pub fn broadcast_summary(sent: u64) -> (r: String)
    ensures
        r@ == broadcast_summary_message(sent as nat),
{
    let mut r = String::from_str("✅ Broadcast sent successfully to ");
    let n = decimal(sent);
    r.append(n.as_str());
    r.append(" users.");
    r
}

/// The reply to `/network`: the network's name, hashrate, difficulty and
/// DAA score, each already formatted.
pub open spec fn network_message(
    network: Seq<char>,
    hashrate: Seq<char>,
    difficulty: Seq<char>,
    daa_score: Seq<char>,
) -> Seq<char> {
    "🌐 <b>Network Stats:</b>\n🧩 <b>Network:</b> <code>"@ + network
        + "</code>\n⛏️ <b>Hashrate:</b> <code>"@ + hashrate + "</code>\n⚙️ <b>Difficulty:</b> <code>"@
        + difficulty + "</code>\n📊 <b>DAA Score:</b> <code>"@ + daa_score + "</code>"@
}

/// Builds the `/network` reply.
pub fn network_report(network: &str, hashrate: &str, difficulty: &str, daa_score: &str) -> (r: String)
    ensures
        r@ == network_message(network@, hashrate@, difficulty@, daa_score@),
{
    let mut r = String::from_str("🌐 <b>Network Stats:</b>\n🧩 <b>Network:</b> <code>");
    r.append(network);
    r.append("</code>\n⛏️ <b>Hashrate:</b> <code>");
    r.append(hashrate);
    r.append("</code>\n⚙️ <b>Difficulty:</b> <code>");
    r.append(difficulty);
    r.append("</code>\n📊 <b>DAA Score:</b> <code>");
    r.append(daa_score);
    r.append("</code>");
    r
}

/// The reply to `/supply`: circulating against maximum supply, each
/// already formatted.
pub open spec fn supply_message(circulating: Seq<char>, max: Seq<char>) -> Seq<char> {
    "🪙 <b>Supply:</b> <code>"@ + circulating + " KAS</code>\n🏁 <b>Max Supply:</b> <code>"@ + max
        + " KAS</code>"@
}

/// Builds the `/supply` reply.
pub fn supply_report(circulating: &str, max: &str) -> (r: String)
    ensures
        r@ == supply_message(circulating@, max@),
{
    let mut r = String::from_str("🪙 <b>Supply:</b> <code>");
    r.append(circulating);
    r.append(" KAS</code>\n🏁 <b>Max Supply:</b> <code>");
    r.append(max);
    r.append(" KAS</code>");
    r
}

/// The chats whose broadcast message could not be delivered.
pub open spec fn failed_chats(outcomes: Seq<(i64, bool)>) -> Set<i64> {
    Set::new(|c: i64| exists|i: int| 0 <= i < outcomes.len() && outcomes[i] == (c, false))
}

/// How many broadcast messages were delivered.
pub open spec fn delivered_count(outcomes: Seq<(i64, bool)>) -> nat
    decreases outcomes.len(),
{
    if outcomes.len() == 0 {
        0
    } else {
        delivered_count(outcomes.drop_last()) + if outcomes.last().1 {
            1nat
        } else {
            0nat
        }
    }
}

/// `m` with the chats of `gone` taken out of every wallet's set.
pub open spec fn without_chats(m: Map<Seq<char>, Set<i64>>, gone: Set<i64>) -> Map<
    Seq<char>,
    Set<i64>,
> {
    Map::new(|w: Seq<char>| m.contains_key(w), |w: Seq<char>| m[w].difference(gone))
}

/// Closes a broadcast from its outcomes, one `(chat, delivered)` pair per
/// recipient: every chat that could not be reached is dropped from every
/// wallet, and the reply counts the chats that were reached.
pub fn finish_broadcast(registry: &mut WalletRegistry, outcomes: &Vec<(i64, bool)>) -> (r: String)
    ensures
        final(registry)@ == without_chats(old(registry)@, failed_chats(outcomes@)),
        r@ == broadcast_summary_message(delivered_count(outcomes@)),
{
    let ghost start = registry@;
    let mut sent: u64 = 0;
    let mut i: usize = 0;
    assert(start =~= without_chats(start, failed_chats(outcomes@.subrange(0, 0)))) by {
        assert(failed_chats(outcomes@.subrange(0, 0)) =~= Set::<i64>::empty());
        assert forall|w: Seq<char>| start.contains_key(w) implies start[w] == start[w].difference(
            Set::<i64>::empty(),
        ) by {
            assert(start[w] =~= start[w].difference(Set::<i64>::empty()));
        }
    }
    while i < outcomes.len()
        invariant
            i <= outcomes@.len(),
            sent <= i,
            sent == delivered_count(outcomes@.subrange(0, i as int)),
            registry@ == without_chats(start, failed_chats(outcomes@.subrange(0, i as int))),
        decreases outcomes@.len() - i,
    {
        let ghost before = outcomes@.subrange(0, i as int);
        let ghost after = outcomes@.subrange(0, i + 1);
        assert(after.drop_last() =~= before);
        let (chat, delivered) = outcomes[i];
        if delivered {
            sent = sent + 1;
            assert(failed_chats(after) =~= failed_chats(before)) by {
                assert forall|c: i64| failed_chats(after).contains(c) implies failed_chats(
                    before,
                ).contains(c) by {
                    let k = choose|k: int| 0 <= k < after.len() && after[k] == (c, false);
                    assert(k < i);
                    assert(before[k] == (c, false));
                }
                assert forall|c: i64| failed_chats(before).contains(c) implies failed_chats(
                    after,
                ).contains(c) by {
                    let k = choose|k: int| 0 <= k < before.len() && before[k] == (c, false);
                    assert(after[k] == (c, false));
                }
            }
        } else {
            registry.purge_chat(chat);
            let ghost f = failed_chats(before);
            assert(failed_chats(after) =~= f.insert(chat)) by {
                assert(after[i as int] == (chat, false));
                assert forall|c: i64| failed_chats(after).contains(c) implies f.insert(chat).contains(
                    c,
                ) by {
                    let k = choose|k: int| 0 <= k < after.len() && after[k] == (c, false);
                    if k < i {
                        assert(before[k] == (c, false));
                    }
                }
                assert forall|c: i64| f.insert(chat).contains(c) implies failed_chats(after).contains(
                    c,
                ) by {
                    if c != chat {
                        let k = choose|k: int| 0 <= k < before.len() && before[k] == (c, false);
                        assert(after[k] == (c, false));
                    }
                }
            }
            assert(registry@ =~= without_chats(start, f.insert(chat))) by {
                assert forall|w: Seq<char>| #[trigger] registry@.contains_key(w) implies registry@[w]
                    == without_chats(start, f.insert(chat))[w] by {
                    assert(registry@[w] =~= start[w].difference(f.insert(chat)));
                }
            }
        }
        i = i + 1;
    }
    assert(outcomes@.subrange(0, outcomes@.len() as int) =~= outcomes@);
    broadcast_summary(sent)
}

/// The readable lines among `newest_first` (unreadable ones are `None`),
/// oldest first.
pub open spec fn readable_lines(newest_first: Seq<Option<String>>) -> Seq<Seq<char>>
    decreases newest_first.len(),
{
    if newest_first.len() == 0 {
        Seq::empty()
    } else {
        let rest = readable_lines(newest_first.drop_first());
        match newest_first[0] {
            Some(line) => rest.push(line@),
            None => rest,
        }
    }
}

/// How many lines from the end of the log file `/logs` shows.
pub const LOG_TAIL_LINES: usize = 25;

/// The lines that `/logs` looks at: the first `LOG_TAIL_LINES` of those
/// read from the end of the file.
pub open spec fn log_window(newest_first: Seq<Option<String>>) -> Seq<Option<String>> {
    if newest_first.len() <= LOG_TAIL_LINES {
        newest_first
    } else {
        newest_first.subrange(0, LOG_TAIL_LINES as int)
    }
}

/// The reply to `/logs` for the lines read from the end of the log file.
pub open spec fn logs_message(newest_first: Seq<Option<String>>) -> Seq<char> {
    "📜 <b>System Logs:</b>\n<pre>"@ + joined(readable_lines(log_window(newest_first)), "\n"@)
        + "</pre>"@
}

/// Builds the `/logs` reply from the lines read from the end of the log,
/// newest first (`None` for a line that could not be read): of the last
/// `LOG_TAIL_LINES` lines the readable ones are shown, oldest first.
pub fn logs_text(newest_first: &Vec<Option<String>>) -> (r: String)
    ensures
        r@ == logs_message(newest_first@),
{
    let n = if newest_first.len() <= LOG_TAIL_LINES {
        newest_first.len()
    } else {
        LOG_TAIL_LINES
    };
    let ghost window = log_window(newest_first@);
    assert(window =~= newest_first@.subrange(0, n as int));
    let mut lines: Vec<String> = Vec::new();
    let mut i: usize = n;
    assert(window.subrange(n as int, n as int) =~= Seq::<Option<String>>::empty());
    while i > 0
        invariant
            i <= n <= newest_first@.len(),
            window == newest_first@.subrange(0, n as int),
            views_of(lines@) == readable_lines(window.subrange(i as int, n as int)),
        decreases i,
    {
        i = i - 1;
        let ghost rest = window.subrange(i + 1, n as int);
        assert(window.subrange(i as int, n as int).drop_first() =~= rest);
        assert(window.subrange(i as int, n as int)[0] == newest_first@[i as int]);
        match &newest_first[i] {
            Some(line) => {
                lines.push(line.clone());
                assert(views_of(lines@) =~= readable_lines(rest).push(line@));
            },
            None => {},
        }
    }
    assert(window.subrange(0, n as int) =~= window);
    let mut r = String::from_str("📜 <b>System Logs:</b>\n<pre>");
    let body = join_strings(&lines, "\n");
    r.append(body.as_str());
    r.append("</pre>");
    r
}

/// The reply to `/logs`: the log lines when the file could be opened, an
/// error notice otherwise.
pub open spec fn logs_reply_message(read: Option<Seq<Option<String>>>) -> Seq<char> {
    match read {
        Some(lines) => logs_message(lines),
        None => "❌ <b>Could not read log file.</b>"@,
    }
}

/// The lines read from the end of the log file, if it could be opened.
pub open spec fn read_lines_view(read: Option<Vec<Option<String>>>) -> Option<Seq<Option<String>>> {
    match read {
        Some(v) => Some(v@),
        None => None,
    }
}

/// Builds the `/logs` reply from what was read of the log file (`None`
/// when it could not be opened).
pub fn logs_reply(read: Option<Vec<Option<String>>>) -> (r: String)
    ensures
        r@ == logs_reply_message(read_lines_view(read)),
{
    match read {
        Some(lines) => logs_text(&lines),
        None => String::from_str("❌ <b>Could not read log file.</b>"),
    }
}

/// One wallet's entry in the `/balance` reply.
pub open spec fn balance_line(wallet: Seq<char>, amount: Seq<char>) -> Seq<char> {
    "💳 <code>"@ + short_wallet(wallet) + "</code>\n⚖️ <b>"@ + amount + " KAS</b>\n\n"@
}

/// The entries of the `/balance` reply, in order.
pub open spec fn balance_lines(lines: Seq<(String, String)>) -> Seq<char>
    decreases lines.len(),
{
    if lines.len() == 0 {
        Seq::empty()
    } else {
        balance_lines(lines.drop_last()) + balance_line(lines.last().0@, lines.last().1@)
    }
}

/// The `/balance` reply: one entry per wallet with its formatted amount,
/// then the formatted total.
pub open spec fn balance_message(lines: Seq<(String, String)>, total: Seq<char>) -> Seq<char> {
    "🏦 <b>Live Balances:</b>\n"@ + balance_lines(lines) + "━━━━━━━━━━━━━━\n💵 <b>Total Holdings:</b> <code>"@
        + total + " KAS</code>"@
}

/// Builds the `/balance` reply from (wallet, formatted amount) pairs and the
/// formatted total.
pub fn balance_report(lines: &Vec<(String, String)>, total: &str) -> (r: String)
    ensures
        r@ == balance_message(lines@, total@),
{
    let mut r = String::from_str("🏦 <b>Live Balances:</b>\n");
    let mut i: usize = 0;
    while i < lines.len()
        invariant
            i <= lines@.len(),
            r@ == "🏦 <b>Live Balances:</b>\n"@ + balance_lines(lines@.subrange(0, i as int)),
        decreases lines@.len() - i,
    {
        let ghost before = r@;
        r.append("💳 <code>");
        let short = format_short_wallet(lines[i].0.as_str());
        r.append(short.as_str());
        r.append("</code>\n⚖️ <b>");
        r.append(lines[i].1.as_str());
        r.append(" KAS</b>\n\n");
        assert(lines@.subrange(0, i + 1).drop_last() =~= lines@.subrange(0, i as int));
        i = i + 1;
    }
    assert(lines@.subrange(0, lines@.len() as int) =~= lines@);
    r.append("━━━━━━━━━━━━━━\n💵 <b>Total Holdings:</b> <code>");
    r.append(total);
    r.append(" KAS</code>");
    r
}

// ---------------------------------------------------------------------
// Laws
// ---------------------------------------------------------------------

/// The admin commands do nothing for anyone else: no reply, no change to
/// the registry or to monitoring.
pub proof fn lemma_admin_commands_need_admin(
    cmd: Command,
    chat: i64,
    admin: i64,
    reg: Map<Seq<char>, Set<i64>>,
    monitoring: bool,
    r: Action,
    reg2: Map<Seq<char>, Set<i64>>,
    monitoring2: bool,
)
    requires
        command_outcome(cmd, chat, admin, reg, monitoring, r, reg2, monitoring2),
        chat != admin,
        cmd is Sys || cmd is Pause || cmd is Resume || cmd is Restart || cmd is Broadcast
            || cmd is Logs,
    ensures
        r is Nothing,
        reg2 == reg,
        monitoring2 == monitoring,
{
}

/// A successful `/add` makes the wallet show up in the sender's `/list`,
/// and nobody else's subscriptions change.
pub proof fn lemma_add_then_listed(
    w: String,
    chat: i64,
    admin: i64,
    reg: Map<Seq<char>, Set<i64>>,
    monitoring: bool,
    r: Action,
    reg2: Map<Seq<char>, Set<i64>>,
    monitoring2: bool,
)
    requires
        command_outcome(Command::Add(w), chat, admin, reg, monitoring, r, reg2, monitoring2),
        matches_tracked_address_form(command_wallet(w@)),
    ensures
        wallets_tracked_by(reg2, chat).contains(command_wallet(w@)),
        forall|c: i64| c != chat ==> #[trigger] wallets_tracked_by(reg2, c) == wallets_tracked_by(reg, c),
{
    let cw = command_wallet(w@);
    assert forall|c: i64| c != chat implies #[trigger] wallets_tracked_by(reg2, c) == wallets_tracked_by(
        reg,
        c,
    ) by {
        assert(wallets_tracked_by(reg2, c) =~= wallets_tracked_by(reg, c));
    }
}

/// `/remove` changes one subscription only: the sender stops tracking the
/// named wallet; every other wallet keeps exactly its chats (the sender
/// keeps its other wallets), and no wallet appears or disappears.
pub proof fn lemma_remove_touches_one_subscription(
    w: String,
    chat: i64,
    admin: i64,
    reg: Map<Seq<char>, Set<i64>>,
    monitoring: bool,
    r: Action,
    reg2: Map<Seq<char>, Set<i64>>,
    monitoring2: bool,
)
    requires
        command_outcome(Command::Remove(w), chat, admin, reg, monitoring, r, reg2, monitoring2),
    ensures
        reg2.dom() == reg.dom(),
        chats_of(reg2, command_wallet(w@)) == chats_of(reg, command_wallet(w@)).remove(chat),
        forall|v: Seq<char>| v != command_wallet(w@) ==> #[trigger] chats_of(reg2, v) == chats_of(reg, v),
        forall|v: Seq<char>|
            v != command_wallet(w@) ==> (#[trigger] wallets_tracked_by(reg2, chat).contains(v)
                <==> wallets_tracked_by(reg, chat).contains(v)),
{
    let cw = command_wallet(w@);
    if reg.contains_key(cw) {
        assert(reg2.dom() =~= reg.dom());
    } else {
        assert(chats_of(reg, cw).remove(chat) =~= Set::<i64>::empty());
    }
}

/// A successful `/add` changes one subscription only: the sender now
/// tracks the wallet, which is added if it was new; every other wallet
/// keeps exactly its chats.
pub proof fn lemma_add_touches_one_subscription(
    w: String,
    chat: i64,
    admin: i64,
    reg: Map<Seq<char>, Set<i64>>,
    monitoring: bool,
    r: Action,
    reg2: Map<Seq<char>, Set<i64>>,
    monitoring2: bool,
)
    requires
        command_outcome(Command::Add(w), chat, admin, reg, monitoring, r, reg2, monitoring2),
        matches_tracked_address_form(command_wallet(w@)),
    ensures
        reg2.dom() == reg.dom().insert(command_wallet(w@)),
        chats_of(reg2, command_wallet(w@)) == chats_of(reg, command_wallet(w@)).insert(chat),
        forall|v: Seq<char>| v != command_wallet(w@) ==> #[trigger] chats_of(reg2, v) == chats_of(reg, v),
{
    assert(reg2.dom() =~= reg.dom().insert(command_wallet(w@)));
}

/// Appending a (wallet, amount) pair appends that pair's entry to the
/// `/balance` entries: the short wallet and then its amount.
pub proof fn lemma_balance_entry_appended(lines: Seq<(String, String)>, x: (String, String))
    ensures
        balance_lines(Seq::<(String, String)>::empty()) == Seq::<char>::empty(),
        balance_lines(lines.push(x)) == balance_lines(lines) + "💳 <code>"@ + short_wallet(x.0@)
            + "</code>\n⚖️ <b>"@ + x.1@ + " KAS</b>\n\n"@,
{
    assert(lines.push(x).drop_last() =~= lines);
}

/// Each (wallet, amount) pair has its entry in the `/balance` reply, in
/// order: the entries of the pairs before it come first.
pub proof fn lemma_balance_entries_in_order(lines: Seq<(String, String)>, k: int)
    requires
        0 <= k < lines.len(),
    ensures
        balance_lines(lines.subrange(0, k + 1)) == balance_lines(lines.subrange(0, k)) + "💳 <code>"@
            + short_wallet(lines[k].0@) + "</code>\n⚖️ <b>"@ + lines[k].1@ + " KAS</b>\n\n"@,
        balance_lines(lines.subrange(0, k + 1)).is_prefix_of(balance_lines(lines)),
    decreases lines.len(),
{
    lemma_balance_entry_appended(lines.subrange(0, k), lines[k]);
    assert(lines.subrange(0, k).push(lines[k]) =~= lines.subrange(0, k + 1));
    if k + 1 < lines.len() {
        let m = lines.len() - 1;
        lemma_balance_entries_in_order(lines.drop_last(), k);
        assert(lines.drop_last().subrange(0, k + 1) =~= lines.subrange(0, k + 1));
        assert(lines.drop_last().subrange(0, k) =~= lines.subrange(0, k));
        assert(lines.drop_last().subrange(0, m) =~= lines.drop_last());
        lemma_balance_entries_in_order(lines.drop_last(), m - 1);
        let pre = balance_lines(lines.subrange(0, k + 1));
        let mid = balance_lines(lines.drop_last());
        assert(pre.is_prefix_of(mid));
        assert(balance_lines(lines) == mid + balance_line(lines.last().0@, lines.last().1@));
        assert(pre.is_prefix_of(balance_lines(lines))) by {
            assert forall|i: int| 0 <= i < pre.len() implies pre[i] == balance_lines(lines)[i] by {
                assert(pre[i] == mid[i]);
            }
        }
    } else {
        assert(lines.subrange(0, k + 1) =~= lines);
    }
}

/// `/remove` takes the wallet out of the sender's `/list`.
pub proof fn lemma_remove_then_unlisted(
    w: String,
    chat: i64,
    admin: i64,
    reg: Map<Seq<char>, Set<i64>>,
    monitoring: bool,
    r: Action,
    reg2: Map<Seq<char>, Set<i64>>,
    monitoring2: bool,
)
    requires
        command_outcome(Command::Remove(w), chat, admin, reg, monitoring, r, reg2, monitoring2),
    ensures
        !wallets_tracked_by(reg2, chat).contains(command_wallet(w@)),
{
}

} // verus!
