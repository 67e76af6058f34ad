//! The settlement of a reward alert: the texts of the alert before and
//! after its transaction is seen in a block, and the polling decision.

use vstd::prelude::*;
use vstd::string::*;
use crate::utils::helpers::{compact_address, cut_is_on_char_boundaries, format_short_wallet};

verus! {

/// How many times the explorer is asked for the transaction's block.
pub const MAX_POLL_ATTEMPTS: u32 = 45;

/// The head of both alert texts: the wallet and the amount.
pub open spec fn alert_head(wallet: Seq<char>, amount: Seq<char>, tx: Seq<char>) -> Seq<char> {
    "⚡ <b>Native Node Reward!</b> 💎\n━━━━━━━━━━━━━━━━━━\n<b>Wallet:</b> <a href=\"https://kaspa.stream/addresses/"@
        + wallet + "\">"@ + compact_address(wallet) + "</a>\n<b>Amount:</b> <code>+"@ + amount
        + " KAS</code>\n━━━━━━━━━━━━━━━━━━\n<b>TXID:</b> <a href=\"https://kaspa.stream/transactions/"@
        + tx + "\">"@ + compact_address(tx) + "</a>"@
}

/// The alert sent at once: the transaction's block is still being indexed.
pub open spec fn pending_alert(wallet: Seq<char>, amount: Seq<char>, tx: Seq<char>) -> Seq<char> {
    alert_head(wallet, amount, tx) + "\n<b>Status:</b> ⏳ <code>Indexing Hashes...</code>"@
}

/// The alert once the transaction is seen in `block`.
pub open spec fn confirmed_alert(
    wallet: Seq<char>,
    amount: Seq<char>,
    tx: Seq<char>,
    block: Seq<char>,
) -> Seq<char> {
    alert_head(wallet, amount, tx) + "\n<b>TX Block:</b> <a href=\"https://kaspa.stream/blocks/"@
        + block + "\">"@ + compact_address(block) + "</a>\n✅ <b>Confirmed in DAG</b>"@
}

fn alert_head_text(wallet: &str, amount: &str, tx: &str) -> (r: String)
    requires
        cut_is_on_char_boundaries(wallet@),
        cut_is_on_char_boundaries(tx@),
    ensures
        r@ == alert_head(wallet@, amount@, tx@),
{
    let mut r = String::from_str(
        "⚡ <b>Native Node Reward!</b> 💎\n━━━━━━━━━━━━━━━━━━\n<b>Wallet:</b> <a href=\"https://kaspa.stream/addresses/",
    );
    r.append(wallet);
    r.append("\">");
    let short_wallet = format_short_wallet(wallet);
    r.append(short_wallet.as_str());
    r.append("</a>\n<b>Amount:</b> <code>+");
    r.append(amount);
    r.append(" KAS</code>\n━━━━━━━━━━━━━━━━━━\n<b>TXID:</b> <a href=\"https://kaspa.stream/transactions/");
    r.append(tx);
    r.append("\">");
    let short_tx = format_short_wallet(tx);
    r.append(short_tx.as_str());
    r.append("</a>");
    r
}

/// The alert sent while the transaction waits for its block; `amount` is
/// the formatted reward.
pub fn pending_alert_text(wallet: &str, amount: &str, tx: &str) -> (r: String)
    requires
        cut_is_on_char_boundaries(wallet@),
        cut_is_on_char_boundaries(tx@),
    ensures
        r@ == pending_alert(wallet@, amount@, tx@),
{
    let mut r = alert_head_text(wallet, amount, tx);
    r.append("\n<b>Status:</b> ⏳ <code>Indexing Hashes...</code>");
    r
}

/// The alert once the transaction is seen in `block`.
pub fn confirmed_alert_text(wallet: &str, amount: &str, tx: &str, block: &str) -> (r: String)
    requires
        cut_is_on_char_boundaries(wallet@),
        cut_is_on_char_boundaries(tx@),
        cut_is_on_char_boundaries(block@),
    ensures
        r@ == confirmed_alert(wallet@, amount@, tx@, block@),
{
    let mut r = alert_head_text(wallet, amount, tx);
    r.append("\n<b>TX Block:</b> <a href=\"https://kaspa.stream/blocks/");
    r.append(block);
    r.append("\">");
    let short_block = format_short_wallet(block);
    r.append(short_block.as_str());
    r.append("</a>\n✅ <b>Confirmed in DAG</b>");
    r
}

/// What to do after asking the explorer for the transaction's blocks.
pub enum PollStep {
    /// The transaction is in this block: edit the alerts and stop.
    Confirmed(String),
    /// Ask again after the pause.
    Retry,
    /// Stop asking; the alerts stay as they are.
    GiveUp,
}

/// The block to show for the explorer's `block_hash` list: its first entry,
/// or `Unknown` when that entry is not a string.
pub open spec fn first_block(hashes: Seq<Option<String>>) -> Seq<char> {
    match hashes[0] {
        Some(h) => h@,
        None => "Unknown"@,
    }
}

/// The decision after poll number `attempt` (counting from 1), given the
/// transaction's `block_hash` list (each entry `None` when it is not a
/// string; the list `None` when the answer had none).
pub open spec fn poll_decision(attempt: u32, hashes: Option<Seq<Option<String>>>, r: PollStep) -> bool {
    if hashes matches Some(hs) && hs.len() > 0 {
        r matches PollStep::Confirmed(b) && b@ == first_block(hashes.unwrap())
    } else if attempt >= MAX_POLL_ATTEMPTS {
        r is GiveUp
    } else {
        r is Retry
    }
}

/// The entries of the list, if there is one.
pub open spec fn hash_list_view(o: Option<Vec<Option<String>>>) -> Option<Seq<Option<String>>> {
    match o {
        Some(v) => Some(v@),
        None => None,
    }
}

/// Decides what follows poll number `attempt`.
pub fn settle_poll(attempt: u32, block_hashes: Option<Vec<Option<String>>>) -> (r: PollStep)
    ensures
        poll_decision(attempt, hash_list_view(block_hashes), r),
{
    match block_hashes {
        Some(hashes) => {
            if hashes.len() > 0 {
                let b = match &hashes[0] {
                    Some(h) => h.clone(),
                    None => String::from_str("Unknown"),
                };
                return PollStep::Confirmed(b);
            }
        },
        None => {},
    }
    if attempt >= MAX_POLL_ATTEMPTS {
        PollStep::GiveUp
    } else {
        PollStep::Retry
    }
}

/// The explorer's answer lists at least one block.
pub open spec fn has_blocks(a: Option<Seq<Option<String>>>) -> bool {
    a matches Some(hs) && hs.len() > 0
}

/// A whole run of polls, numbered from 1 and continued only on `Retry`,
/// ends after at most 45 polls; it confirms exactly when its last answer
/// lists a block, showing that answer's first block; no earlier answer
/// listed one; and it gives up only at poll 45.
pub proof fn lemma_poll_run(answers: Seq<Option<Seq<Option<String>>>>, steps: Seq<PollStep>)
    requires
        steps.len() >= 1,
        answers.len() == steps.len(),
        steps.len() <= u32::MAX,
        forall|k: int| 0 <= k < steps.len() ==> poll_decision((k + 1) as u32, answers[k], #[trigger] steps[k]),
        forall|k: int| 0 <= k < steps.len() - 1 ==> #[trigger] steps[k] is Retry,
        !(steps.last() is Retry),
    ensures
        steps.len() <= MAX_POLL_ATTEMPTS,
        steps.last() is Confirmed <==> has_blocks(answers.last()),
        steps.last() matches PollStep::Confirmed(b) ==> b@ == first_block(answers.last().unwrap()),
        forall|k: int| 0 <= k < steps.len() - 1 ==> !has_blocks(#[trigger] answers[k]),
        steps.last() is GiveUp ==> steps.len() == MAX_POLL_ATTEMPTS,
{
    let n = steps.len() as int;
    if n > 1 {
        assert(steps[n - 2] is Retry);
        assert(poll_decision((n - 1) as u32, answers[n - 2], steps[n - 2]));
    }
    assert(poll_decision(n as u32, answers[n - 1], steps[n - 1]));
    assert forall|k: int| 0 <= k < steps.len() - 1 implies !has_blocks(#[trigger] answers[k]) by {
        assert(steps[k] is Retry);
        assert(poll_decision((k + 1) as u32, answers[k], steps[k]));
    }
}

} // verus!
