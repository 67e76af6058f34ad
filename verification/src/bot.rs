//! The replies of the compact command set (start, DAG, supply, price,
//! system).

use vstd::prelude::*;
use vstd::string::*;
use crate::text::{decimal, decimal_digits};

verus! {

/// The greeting shown with the main menu.
pub open spec fn welcome_message() -> Seq<char> {
    "<b>Kaspa Pulse Bot</b>\nSelect an option below:"@
}

/// The greeting shown with the main menu.
pub fn welcome_text() -> (r: String)
    ensures
        r@ == welcome_message(),
{
    String::from_str("<b>Kaspa Pulse Bot</b>\nSelect an option below:")
}

/// The DAG report of the local node; `difficulty` is already formatted.
pub open spec fn dag_message(network: Seq<char>, blocks: nat, headers: nat, difficulty: Seq<char>) -> Seq<
    char,
> {
    "🔗 <b>Local Node DAG Info</b>\n━━━━━━━━━━━━━━━━━━\n<b>Network:</b> <code>"@ + network
        + "</code>\n<b>Blocks:</b> <code>"@ + decimal_digits(blocks) + "</code>\n<b>Headers:</b> <code>"@
        + decimal_digits(headers) + "</code>\n<b>Difficulty:</b> <code>"@ + difficulty + "</code>"@
}

/// The DAG report of the local node.
pub fn dag_report(network: &str, blocks: u64, headers: u64, difficulty: &str) -> (r: String)
    ensures
        r@ == dag_message(network@, blocks as nat, headers as nat, difficulty@),
{
    let mut r = String::from_str(
        "🔗 <b>Local Node DAG Info</b>\n━━━━━━━━━━━━━━━━━━\n<b>Network:</b> <code>",
    );
    r.append(network);
    r.append("</code>\n<b>Blocks:</b> <code>");
    let b = decimal(blocks);
    r.append(b.as_str());
    r.append("</code>\n<b>Headers:</b> <code>");
    let h = decimal(headers);
    r.append(h.as_str());
    r.append("</code>\n<b>Difficulty:</b> <code>");
    r.append(difficulty);
    r.append("</code>");
    r
}

/// The notice when the local node gave no DAG parameters.
pub open spec fn dag_error_message() -> Seq<char> {
    "⚠️ <b>Error:</b> Failed to extract DAG parameters from Local Node."@
}

/// The reply to the DAG request: the report for what the node gave
/// (network, blocks, headers, formatted difficulty), or the notice when it
/// gave nothing.
pub fn dag_reply(found: Option<(String, u64, u64, String)>) -> (r: String)
    ensures
        match found {
            Some(d) => r@ == dag_message(d.0@, d.1 as nat, d.2 as nat, d.3@),
            None => r@ == dag_error_message(),
        },
{
    match found {
        Some(d) => dag_report(d.0.as_str(), d.1, d.2, d.3.as_str()),
        None => String::from_str("⚠️ <b>Error:</b> Failed to extract DAG parameters from Local Node."),
    }
}

/// The supply report of the local node; both amounts are already
/// formatted.
pub open spec fn supply_message(circulating: Seq<char>, max: Seq<char>) -> Seq<char> {
    "🏦 <b>Kaspa Supply (Local Node)</b>\n━━━━━━━━━━━━━━━━━━\n<b>Circulating:</b> <code>"@ + circulating
        + " KAS</code>\n<b>Max Supply:</b> <code>"@ + max + " KAS</code>"@
}

/// The notice when the local node gave no supply figures.
pub open spec fn supply_error_message() -> Seq<char> {
    "⚠️ <b>Error:</b> Failed to extract Supply parameters from Local Node."@
}

/// The reply to the supply request: circulating against maximum supply
/// (formatted), or the notice when the node gave nothing.
pub fn supply_reply(found: Option<(String, String)>) -> (r: String)
    ensures
        match found {
            Some(s) => r@ == supply_message(s.0@, s.1@),
            None => r@ == supply_error_message(),
        },
{
    match found {
        Some(s) => {
            let mut r = String::from_str(
                "🏦 <b>Kaspa Supply (Local Node)</b>\n━━━━━━━━━━━━━━━━━━\n<b>Circulating:</b> <code>",
            );
            r.append(s.0.as_str());
            r.append(" KAS</code>\n<b>Max Supply:</b> <code>");
            r.append(s.1.as_str());
            r.append(" KAS</code>");
            r
        },
        None => String::from_str("⚠️ <b>Error:</b> Failed to extract Supply parameters from Local Node."),
    }
}

/// The price reply; `price` is already formatted.
pub open spec fn price_message(price: Seq<char>) -> Seq<char> {
    "💰 <b>Current Price:</b> <code>$"@ + price + "</code>"@
}

/// The price reply.
pub fn price_report(price: &str) -> (r: String)
    ensures
        r@ == price_message(price@),
{
    let mut r = String::from_str("💰 <b>Current Price:</b> <code>$");
    r.append(price);
    r.append("</code>");
    r
}

/// The system report after `uptime` seconds.
pub open spec fn system_message(uptime: nat) -> Seq<char> {
    "🖥️ <b>System Diagnostics</b>\n━━━━━━━━━━━━━━━━━━\n<b>Engine:</b> <code>ACTIVE</code>\n<b>Uptime:</b> <code>"@
        + decimal_digits(uptime) + "s</code>"@
}

/// The system report after `uptime` seconds.
pub fn system_report(uptime: u64) -> (r: String)
    ensures
        r@ == system_message(uptime as nat),
{
    let mut r = String::from_str(
        "🖥️ <b>System Diagnostics</b>\n━━━━━━━━━━━━━━━━━━\n<b>Engine:</b> <code>ACTIVE</code>\n<b>Uptime:</b> <code>",
    );
    let u = decimal(uptime);
    r.append(u.as_str());
    r.append("s</code>");
    r
}

} // verus!
