//! Reward detection: which unspent outputs of a watched wallet are new
//! since the previous scan.

use vstd::prelude::*;
use vstd::string::*;
use dashmap::DashMap;
use crate::text::{chars_of, decimal, decimal_digits, same_chars, views_of};
use crate::utils::{format_hash, format_short_wallet, hash_markup, short_wallet};
use crate::utils::types::Sompi;

verus! {

/// An unspent output of a watched wallet, as the node reports it.
pub struct UtxoEntry {
    pub tx_id: String,
    pub index: u32,
    pub amount: Sompi,
    pub daa_score: u64,
}

/// A new output: the alert to raise.
pub struct Reward {
    pub tx_id: String,
    pub amount: Sompi,
    pub daa_score: u64,
}

/// The name of an output: its transaction, `:`, its index.
pub open spec fn outpoint_id(e: UtxoEntry) -> Seq<char> {
    e.tx_id@ + ":"@ + decimal_digits(e.index as nat)
}

/// The names of the outputs.
pub open spec fn outpoint_ids(es: Seq<UtxoEntry>) -> Set<Seq<char>> {
    es.map_values(|e: UtxoEntry| outpoint_id(e)).to_set()
}

/// The outputs of one scan that are announced, in the node's order: none on
/// the first scan of a wallet (when nothing is known yet, everything is
/// taken as already there); afterwards each output whose name is neither
/// known from before nor seen earlier in the same scan.
pub open spec fn announced(first_run: bool, known: Set<Seq<char>>, es: Seq<UtxoEntry>) -> Seq<UtxoEntry>
    decreases es.len(),
{
    if es.len() == 0 {
        Seq::empty()
    } else {
        let prev = es.drop_last();
        let e = es.last();
        let before = announced(first_run, known, prev);
        if !first_run && !known.contains(outpoint_id(e)) && !outpoint_ids(prev).contains(
            outpoint_id(e),
        ) {
            before.push(e)
        } else {
            before
        }
    }
}

/// What a reward says: transaction, amount and DAA score.
pub open spec fn reward_view(r: Reward) -> (Seq<char>, Sompi, u64) {
    (r.tx_id@, r.amount, r.daa_score)
}

/// What an output says as a reward.
pub open spec fn entry_reward_view(e: UtxoEntry) -> (Seq<char>, Sompi, u64) {
    (e.tx_id@, e.amount, e.daa_score)
}

fn outpoint_name(e: &UtxoEntry) -> (r: String)
    ensures
        r@ == outpoint_id(*e),
{
    let mut r = e.tx_id.clone();
    r.append(":");
    let n = decimal(e.index as u64);
    r.append(n.as_str());
    r
}

fn holds(v: &Vec<String>, x: &String) -> (b: bool)
    ensures
        b == views_of(v@).contains(x@),
{
    let mut i: usize = 0;
    while i < v.len()
        invariant
            i <= v@.len(),
            forall|k: int| 0 <= k < i ==> v@[k]@ != x@,
        decreases v@.len() - i,
    {
        if v[i] == *x {
            assert(views_of(v@)[i as int] == x@);
            return true;
        }
        i = i + 1;
    }
    false
}

proof fn lemma_ids_push(es: Seq<UtxoEntry>, e: UtxoEntry)
    ensures
        outpoint_ids(es.push(e)) == outpoint_ids(es).insert(outpoint_id(e)),
{
    let f = |x: UtxoEntry| outpoint_id(x);
    assert(es.push(e).map_values(f) =~= es.map_values(f).push(outpoint_id(e)));
    es.map_values(f).lemma_push_to_set_commute(outpoint_id(e));
}

proof fn lemma_views_push(v: Seq<String>, x: String)
    ensures
        views_of(v.push(x)).to_set() == views_of(v).to_set().insert(x@),
        views_of(v.push(x)) == views_of(v).push(x@),
{
    let s = views_of(v);
    assert(views_of(v.push(x)) =~= s.push(x@));
    s.lemma_push_to_set_commute(x@);
}

/// No name is listed twice.
pub open spec fn distinct_views(v: Seq<String>) -> bool {
    forall|i: int, j: int| 0 <= i < j < v.len() ==> v[i]@ != v[j]@
}

/// Scans the current unspent outputs of a wallet against the names it
/// already knows: returns the outputs to announce and leaves `known`
/// holding exactly the names of the current outputs (spent ones are
/// forgotten, new ones learnt).
pub fn scan_utxos(known: &mut Vec<String>, utxos: &Vec<UtxoEntry>) -> (r: Vec<Reward>)
    requires
        distinct_views(old(known)@),
    ensures
        r@.map_values(|x: Reward| reward_view(x)) == announced(
            old(known)@.len() == 0,
            views_of(old(known)@).to_set(),
            utxos@,
        ).map_values(|e: UtxoEntry| entry_reward_view(e)),
        views_of(final(known)@).to_set() == outpoint_ids(utxos@),
        distinct_views(final(known)@),
{
    let ghost start = views_of(known@).to_set();
    let first_run = known.len() == 0;
    let mut current: Vec<String> = Vec::new();
    let mut rewards: Vec<Reward> = Vec::new();
    let mut i: usize = 0;
    assert(utxos@.subrange(0, 0) =~= Seq::<UtxoEntry>::empty());
    assert(views_of(current@).to_set() =~= outpoint_ids(utxos@.subrange(0, 0)));
    while i < utxos.len()
        invariant
            i <= utxos@.len(),
            first_run == (old(known)@.len() == 0),
            start == views_of(old(known)@).to_set(),
            distinct_views(known@),
            distinct_views(current@),
            views_of(known@).to_set() == start + outpoint_ids(utxos@.subrange(0, i as int)),
            views_of(current@).to_set() == outpoint_ids(utxos@.subrange(0, i as int)),
            rewards@.map_values(|x: Reward| reward_view(x)) == announced(
                first_run,
                start,
                utxos@.subrange(0, i as int),
            ).map_values(|e: UtxoEntry| entry_reward_view(e)),
        decreases utxos@.len() - i,
    {
        let e = &utxos[i];
        let id = outpoint_name(e);
        let ghost prev = utxos@.subrange(0, i as int);
        let ghost ids_before = outpoint_ids(prev);
        assert(utxos@.subrange(0, i + 1) =~= prev.push(*e));
        proof {
            lemma_ids_push(prev, *e);
        }
        let in_known = holds(known, &id);
        let in_current = holds(&current, &id);
        assert(views_of(known@).to_set().contains(id@) == in_known);
        if !in_current {
            let ghost before = current@;
            current.push(id.clone());
            proof {
                lemma_views_push(before, id);
                assert forall|a: int, b: int| 0 <= a < b < current@.len() implies current@[a]@
                    != current@[b]@ by {
                    if b == current@.len() - 1 {
                        assert(views_of(before)[a] == before[a]@);
                    }
                }
            }
        } else {
            assert(views_of(current@).to_set().insert(id@) =~= views_of(current@).to_set());
        }
        assert(prev.push(*e).drop_last() =~= prev);
        assert(views_of(known@).to_set().contains(id@) == in_known);
        if !first_run && !in_known {
            assert(!start.contains(id@) && !ids_before.contains(id@));
            let ghost before_r = rewards@;
            rewards.push(Reward { tx_id: e.tx_id.clone(), amount: e.amount, daa_score: e.daa_score });
            assert(rewards@.map_values(|x: Reward| reward_view(x)) =~= before_r.map_values(
                |x: Reward| reward_view(x),
            ).push(entry_reward_view(*e)));
        } else {
            if !first_run {
                assert(start.contains(id@) || ids_before.contains(id@));
            }
        }
        if !in_known {
            let ghost before = known@;
            known.push(id);
            proof {
                lemma_views_push(before, id);
                assert forall|a: int, b: int| 0 <= a < b < known@.len() implies known@[a]@
                    != known@[b]@ by {
                    if b == known@.len() - 1 {
                        assert(views_of(before)[a] == before[a]@);
                    }
                }
            }
            assert(views_of(known@).to_set() =~= start + outpoint_ids(utxos@.subrange(0, i + 1)));
        } else {
            assert(views_of(known@).to_set() =~= start + outpoint_ids(utxos@.subrange(0, i + 1)));
        }
        i = i + 1;
    }
    assert(utxos@.subrange(0, utxos@.len() as int) =~= utxos@);
    // forget the names of spent outputs: keep the known names that are current
    let mut kept: Vec<String> = Vec::new();
    let mut j: usize = 0;
    while j < known.len()
        invariant
            j <= known@.len(),
            distinct_views(known@),
            distinct_views(kept@),
            views_of(known@).to_set() == start + outpoint_ids(utxos@),
            views_of(current@).to_set() == outpoint_ids(utxos@),
            views_of(kept@).to_set() == views_of(known@.subrange(0, j as int)).to_set().intersect(
                outpoint_ids(utxos@),
            ),
            forall|a: int| #![trigger kept@[a]] 0 <= a < kept@.len() ==> exists|b: int| 0 <= b < j && #[trigger] known@[b]@ == kept@[a]@,
        decreases known@.len() - j,
    {
        let ghost pre = known@.subrange(0, j as int);
        assert(known@.subrange(0, j + 1) =~= pre.push(known@[j as int]));
        proof {
            lemma_views_push(pre, known@[j as int]);
        }
        if holds(&current, &known[j]) {
            let ghost before = kept@;
            kept.push(known[j].clone());
            proof {
                lemma_views_push(before, known@[j as int]);
                assert forall|a: int, b: int| 0 <= a < b < kept@.len() implies kept@[a]@ != kept@[b]@ by {
                    if b == kept@.len() - 1 {
                        let c = choose|c: int| 0 <= c < j && #[trigger] known@[c]@ == before[a]@;
                    }
                }
            }
            assert(views_of(kept@).to_set() =~= views_of(known@.subrange(0, j + 1)).to_set().intersect(
                outpoint_ids(utxos@),
            ));
        } else {
            assert(views_of(kept@).to_set() =~= views_of(known@.subrange(0, j + 1)).to_set().intersect(
                outpoint_ids(utxos@),
            ));
        }
        j = j + 1;
    }
    assert(known@.subrange(0, known@.len() as int) =~= known@);
    assert(views_of(kept@).to_set() =~= outpoint_ids(utxos@));
    *known = kept;
    rewards
}

/// The first scan of a wallet announces nothing: the outputs already there
/// when watching starts are not rewards.
pub proof fn lemma_first_scan_is_silent(known: Set<Seq<char>>, es: Seq<UtxoEntry>)
    ensures
        announced(true, known, es) == Seq::<UtxoEntry>::empty(),
    decreases es.len(),
{
    if es.len() > 0 {
        lemma_first_scan_is_silent(known, es.drop_last());
    }
}

/// Every announced output is new: its name was not known before the scan,
/// and no two announced outputs share a name.
pub proof fn lemma_announced_are_new(first_run: bool, known: Set<Seq<char>>, es: Seq<UtxoEntry>)
    ensures
        forall|i: int|
            0 <= i < announced(first_run, known, es).len() ==> !known.contains(
                #[trigger] outpoint_id(announced(first_run, known, es)[i]),
            ) && outpoint_ids(es).contains(outpoint_id(announced(first_run, known, es)[i])),
        forall|i: int, j: int|
            0 <= i < j < announced(first_run, known, es).len() ==> outpoint_id(
                #[trigger] announced(first_run, known, es)[i],
            ) != outpoint_id(#[trigger] announced(first_run, known, es)[j]),
    decreases es.len(),
{
    if es.len() > 0 {
        let prev = es.drop_last();
        let e = es.last();
        lemma_announced_are_new(first_run, known, prev);
        assert(es =~= prev.push(e));
        lemma_ids_push(prev, e);
        let a = announced(first_run, known, es);
        let b = announced(first_run, known, prev);
        if a.len() > b.len() {
            assert(a =~= b.push(e));
            assert forall|i: int| 0 <= i < b.len() implies outpoint_ids(prev).contains(
                #[trigger] outpoint_id(b[i]),
            ) by {}
        }
    }
}

/// Scanning the same outputs again announces nothing: once a scan has
/// learnt the names of the current outputs, none of them is new.
pub proof fn lemma_rescan_is_silent(first_run: bool, es: Seq<UtxoEntry>)
    ensures
        announced(first_run, outpoint_ids(es), es) == Seq::<UtxoEntry>::empty(),
{
    lemma_announced_are_new(first_run, outpoint_ids(es), es);
    let a = announced(first_run, outpoint_ids(es), es);
    if a.len() > 0 {
        assert(!outpoint_ids(es).contains(outpoint_id(a[0])));
    }
}

/// Every new output is announced: on a scan that is not the wallet's first,
/// the names of the announced outputs are exactly the names of the current
/// outputs that were not known before.
pub proof fn lemma_new_outputs_are_announced(known: Set<Seq<char>>, es: Seq<UtxoEntry>)
    ensures
        announced(false, known, es).map_values(|e: UtxoEntry| outpoint_id(e)).to_set()
            == outpoint_ids(es).difference(known),
    decreases es.len(),
{
    let f = |e: UtxoEntry| outpoint_id(e);
    if es.len() == 0 {
        assert(announced(false, known, es).map_values(f) =~= Seq::<Seq<char>>::empty());
        assert(es.map_values(f) =~= Seq::<Seq<char>>::empty());
        assert(announced(false, known, es).map_values(f).to_set() =~= Set::<Seq<char>>::empty());
        assert(outpoint_ids(es) =~= Set::<Seq<char>>::empty());
        assert(outpoint_ids(es).difference(known) =~= Set::<Seq<char>>::empty());
    } else {
        let prev = es.drop_last();
        let e = es.last();
        lemma_new_outputs_are_announced(known, prev);
        assert(es =~= prev.push(e));
        lemma_ids_push(prev, e);
        let b = announced(false, known, prev);
        let id = outpoint_id(e);
        if !known.contains(id) && !outpoint_ids(prev).contains(id) {
            assert(b.push(e).map_values(f) =~= b.map_values(f).push(id));
            b.map_values(f).lemma_push_to_set_commute(id);
            assert(outpoint_ids(prev).insert(id).difference(known) =~= outpoint_ids(prev).difference(
                known,
            ).insert(id));
        } else {
            assert(outpoint_ids(prev).insert(id).difference(known) =~= outpoint_ids(prev).difference(
                known,
            ));
        }
    }
}

// ---------------------------------------------------------------------
// The reward notice
// ---------------------------------------------------------------------

/// The notice for a reward; `amount` and `balance` are formatted already,
/// and the three block lines are given as they are to be shown.
pub open spec fn reward_notice(
    time: Seq<char>,
    wallet: Seq<char>,
    amount: Seq<char>,
    balance: Seq<char>,
    tx: &str,
    mined: Seq<char>,
    tx_block: Seq<char>,
    accepting: Seq<char>,
    daa: nat,
) -> Seq<char> {
    "⚡ <b>Native Node Reward!</b> 💎\n━━━━━━━━━━━━━━━━━━\n<b>Time:</b> <code>"@ + time
        + "</code>\n<b>Wallet:</b> <a href=\"https://kaspa.stream/addresses/"@ + wallet + "\">"@
        + short_wallet(wallet) + "</a>\n<b>Amount:</b> <code>+"@ + amount
        + " KAS</code>\n<b>Live Balance:</b> <code>"@ + balance
        + " KAS</code>\n━━━━━━━━━━━━━━━━━━\n<b>TXID:</b> "@ + hash_markup(tx, "transactions"@)
        + "\n<b>Mined Block:</b> "@ + mined + "\n<b>TX Block:</b> "@ + tx_block
        + "\n<b>Accepting Block:</b> "@ + accepting + "\n<b>DAA Score:</b> <code>"@
        + decimal_digits(daa) + "</code>"@
}

fn notice_text(
    time: &str,
    wallet: &str,
    amount: &str,
    balance: &str,
    tx: &str,
    mined: &str,
    tx_block: &str,
    accepting: &str,
    daa: u64,
) -> (r: String)
    ensures
        r@ == reward_notice(time@, wallet@, amount@, balance@, tx, mined@, tx_block@, accepting@, daa as nat),
{
    let mut r = String::from_str("⚡ <b>Native Node Reward!</b> 💎\n━━━━━━━━━━━━━━━━━━\n<b>Time:</b> <code>");
    r.append(time);
    r.append("</code>\n<b>Wallet:</b> <a href=\"https://kaspa.stream/addresses/");
    r.append(wallet);
    r.append("\">");
    let short = format_short_wallet(wallet);
    r.append(short.as_str());
    r.append("</a>\n<b>Amount:</b> <code>+");
    r.append(amount);
    r.append(" KAS</code>\n<b>Live Balance:</b> <code>");
    r.append(balance);
    r.append(" KAS</code>\n━━━━━━━━━━━━━━━━━━\n<b>TXID:</b> ");
    let h = format_hash(tx, "transactions");
    r.append(h.as_str());
    r.append("\n<b>Mined Block:</b> ");
    r.append(mined);
    r.append("\n<b>TX Block:</b> ");
    r.append(tx_block);
    r.append("\n<b>Accepting Block:</b> ");
    r.append(accepting);
    r.append("\n<b>DAA Score:</b> <code>");
    let d = decimal(daa);
    r.append(d.as_str());
    r.append("</code>");
    r
}

/// The notice sent at once, while the blocks are still being looked up.
pub fn reward_alert_text(
    time: &str,
    wallet: &str,
    amount: &str,
    balance: &str,
    tx: &str,
    daa: u64,
) -> (r: String)
    ensures
        r@ == reward_notice(
            time@,
            wallet@,
            amount@,
            balance@,
            tx,
            "⏳ <code>Searching...</code>"@,
            "⏳ <code>Indexing...</code>"@,
            "⏳ <code>Indexing...</code>"@,
            daa as nat,
        ),
{
    notice_text(
        time,
        wallet,
        amount,
        balance,
        tx,
        "⏳ <code>Searching...</code>",
        "⏳ <code>Indexing...</code>",
        "⏳ <code>Indexing...</code>",
        daa,
    )
}

/// The notice once the blocks are resolved (or given up on, as `Not
/// Found`).
pub fn reward_update_text(
    time: &str,
    wallet: &str,
    amount: &str,
    balance: &str,
    tx: &str,
    mined: &str,
    tx_block: &str,
    accepting: &str,
    daa: u64,
) -> (r: String)
    ensures
        r@ == reward_notice(
            time@,
            wallet@,
            amount@,
            balance@,
            tx,
            hash_markup(mined, "blocks"@),
            hash_markup(tx_block, "blocks"@),
            hash_markup(accepting, "blocks"@),
            daa as nat,
        ),
{
    let m = format_hash(mined, "blocks");
    let b = format_hash(tx_block, "blocks");
    let a = format_hash(accepting, "blocks");
    notice_text(time, wallet, amount, balance, tx, m.as_str(), b.as_str(), a.as_str(), daa)
}

/// `part` stands in `s` as a contiguous piece.
pub open spec fn shows(s: Seq<char>, part: Seq<char>) -> bool {
    exists|k: int| 0 <= k && k + part.len() <= s.len() && #[trigger] s.subrange(k, k + part.len()) == part
}

/// The notice shows its fields where they belong: the time after `Time:`,
/// the wallet in its explorer link, the reward amount after `Amount:` with
/// the live balance after `Live Balance:`, and the DAA score at its end.
pub proof fn lemma_notice_fields(
    time: Seq<char>,
    wallet: Seq<char>,
    amount: Seq<char>,
    balance: Seq<char>,
    tx: &str,
    mined: Seq<char>,
    tx_block: Seq<char>,
    accepting: Seq<char>,
    daa: nat,
)
    ensures
        shows(
            reward_notice(time, wallet, amount, balance, tx, mined, tx_block, accepting, daa),
            "</a>\n<b>Amount:</b> <code>+"@ + amount + " KAS</code>\n<b>Live Balance:</b> <code>"@
                + balance + " KAS</code>\n━━━━━━━━━━━━━━━━━━\n<b>TXID:</b> "@,
        ),
        shows(
            reward_notice(time, wallet, amount, balance, tx, mined, tx_block, accepting, daa),
            "<b>Time:</b> <code>"@ + time + "</code>\n<b>Wallet:</b> <a href=\"https://kaspa.stream/addresses/"@
                + wallet + "\">"@,
        ),
        "\n<b>DAA Score:</b> <code>"@ + decimal_digits(daa) + "</code>"@ == reward_notice(
            time,
            wallet,
            amount,
            balance,
            tx,
            mined,
            tx_block,
            accepting,
            daa,
        ).subrange(
            reward_notice(time, wallet, amount, balance, tx, mined, tx_block, accepting, daa).len() - (
            "\n<b>DAA Score:</b> <code>"@ + decimal_digits(daa) + "</code>"@).len(),
            reward_notice(time, wallet, amount, balance, tx, mined, tx_block, accepting, daa).len() as int,
        ),
{
    let n = reward_notice(time, wallet, amount, balance, tx, mined, tx_block, accepting, daa);
    let head = "⚡ <b>Native Node Reward!</b> 💎\n━━━━━━━━━━━━━━━━━━\n"@;
    let time_part = "<b>Time:</b> <code>"@ + time + "</code>\n<b>Wallet:</b> <a href=\"https://kaspa.stream/addresses/"@
        + wallet + "\">"@;
    let money = "</a>\n<b>Amount:</b> <code>+"@ + amount + " KAS</code>\n<b>Live Balance:</b> <code>"@
        + balance + " KAS</code>\n━━━━━━━━━━━━━━━━━━\n<b>TXID:</b> "@;
    let middle = hash_markup(tx, "transactions"@) + "\n<b>Mined Block:</b> "@ + mined
        + "\n<b>TX Block:</b> "@ + tx_block + "\n<b>Accepting Block:</b> "@ + accepting;
    let tail = "\n<b>DAA Score:</b> <code>"@ + decimal_digits(daa) + "</code>"@;
    reveal_strlit("⚡ <b>Native Node Reward!</b> 💎\n━━━━━━━━━━━━━━━━━━\n<b>Time:</b> <code>");
    reveal_strlit("⚡ <b>Native Node Reward!</b> 💎\n━━━━━━━━━━━━━━━━━━\n");
    reveal_strlit("<b>Time:</b> <code>");
    reveal_strlit("</a>\n<b>Amount:</b> <code>+");
    reveal_strlit("\n<b>DAA Score:</b> <code>");
    reveal_strlit("</code>");
    let sw = short_wallet(wallet);
    assert(n =~= head + time_part + sw + money + middle + tail);
    let k1 = head.len() as int;
    assert((head + time_part + sw + money + middle + tail).subrange(k1, k1 + time_part.len())
        =~= time_part);
    let k2 = (head + time_part + sw).len() as int;
    assert((head + time_part + sw + money + middle + tail).subrange(k2, k2 + money.len()) =~= money);
}

// ---------------------------------------------------------------------
// Resolving the blocks of a reward
// ---------------------------------------------------------------------

/// What is known so far of the blocks of a rewarded transaction; each
/// starts as `Not Found`.
pub struct HashProgress {
    pub tx_block: String,
    pub accepting: String,
}

/// The placeholder of a block not found yet.
pub open spec fn not_found() -> Seq<char> {
    "Not Found"@
}

impl HashProgress {
    /// Nothing found yet.
    pub fn new() -> (p: Self)
        ensures
            p.tx_block@ == not_found(),
            p.accepting@ == not_found(),
    {
        HashProgress { tx_block: String::from_str("Not Found"), accepting: String::from_str("Not Found") }
    }

    /// Takes in one answer of the explorer: its `block_hash` list (each
    /// entry `None` when not a string; the list `None` when missing) and its
    /// `accepting_block_hash` (`None` when missing). The transaction's block
    /// changes only when the list has entries; the accepting block is
    /// always replaced. Returns whether the transaction's block is known.
    pub fn absorb(&mut self, block_hashes: Option<Vec<Option<String>>>, accepting: Option<String>) -> (found: bool)
        ensures
            final(self).tx_block@ == (match block_hashes {
                Some(v) => if v@.len() > 0 {
                    match v@[0] {
                        Some(h) => h@,
                        None => not_found(),
                    }
                } else {
                    old(self).tx_block@
                },
                None => old(self).tx_block@,
            }),
            final(self).accepting@ == (match accepting {
                Some(a) => a@,
                None => not_found(),
            }),
            found == (final(self).tx_block@ != not_found()),
    {
        match block_hashes {
            Some(v) => {
                if v.len() > 0 {
                    self.tx_block = match &v[0] {
                        Some(h) => h.clone(),
                        None => String::from_str("Not Found"),
                    };
                }
            },
            None => {},
        }
        self.accepting = match accepting {
            Some(a) => a,
            None => String::from_str("Not Found"),
        };
        let nf = chars_of("Not Found");
        !same_chars(&chars_of(self.tx_block.as_str()), &nf)
    }
}

/// An output with this address pays `wallet`.
pub open spec fn pays(address: Option<String>, wallet: Seq<char>) -> bool {
    match address {
        Some(a) => a@ == wallet,
        None => false,
    }
}

/// Does one of the outputs (each its address, `None` when the node gave
/// none) pay `wallet`?
pub fn outputs_pay_wallet(addresses: &Vec<Option<String>>, wallet: &str) -> (b: bool)
    ensures
        b == exists|i: int| 0 <= i < addresses@.len() && pays(#[trigger] addresses@[i], wallet@),
{
    let w = chars_of(wallet);
    let mut i: usize = 0;
    while i < addresses.len()
        invariant
            i <= addresses@.len(),
            w@ == wallet@,
            forall|k: int| 0 <= k < i ==> !pays(#[trigger] addresses@[k], wallet@),
        decreases addresses@.len() - i,
    {
        match &addresses[i] {
            Some(a) => {
                if same_chars(&chars_of(a.as_str()), &w) {
                    assert(pays(addresses@[i as int], wallet@));
                    return true;
                }
            },
            None => {},
        }
        i = i + 1;
    }
    false
}

/// The block credited with mining the reward: the merge-set blue block
/// that pays the wallet, if one was found; otherwise the first blue block;
/// `Not Found` when there is none.
pub fn pick_mined_block(matched: Option<String>, blues: &Vec<String>) -> (r: String)
    ensures
        r@ == (match matched {
            Some(m) => m@,
            None => if blues@.len() > 0 {
                blues@[0]@
            } else {
                not_found()
            },
        }),
{
    match matched {
        Some(m) => m,
        None => if blues.len() > 0 {
            blues[0].clone()
        } else {
            String::from_str("Not Found")
        },
    }
}

// ---------------------------------------------------------------------
// The outputs known per wallet
// ---------------------------------------------------------------------

/// What a wallet-to-outputs map holds: for each wallet, the names of the
/// outputs it had at its last scan, in the order they are stored.
pub uninterp spec fn known_output_entries(m: DashMap<String, Vec<String>>) -> Map<Seq<char>, Seq<Seq<char>>>;

/// Nothing scanned yet.
pub open spec fn nothing_scanned() -> Map<Seq<char>, Seq<Seq<char>>> {
    Map::empty()
}

/// `DashMap::new`: an empty map.
#[verifier::external_body]
fn new_known_outputs_map() -> (r: DashMap<String, Vec<String>>)
    ensures
        known_output_entries(r) == nothing_scanned(),
{
    DashMap::new()
}

/// `DashMap::get`, the list cloned out of the guard: the names stored for
/// `wallet`, if any.
#[verifier::external_body]
fn known_outputs_get(m: &DashMap<String, Vec<String>>, wallet: &String) -> (r: Option<Vec<String>>)
    ensures
        match r {
            Some(v) => known_output_entries(*m).contains_key(wallet@) && views_of(v@)
                == known_output_entries(*m)[wallet@],
            None => !known_output_entries(*m).contains_key(wallet@),
        },
{
    m.get(wallet).map(|e| e.value().clone())
}

/// `DashMap::insert`: stores `names` for `wallet`, replacing what was there.
#[verifier::external_body]
fn known_outputs_insert(m: &mut DashMap<String, Vec<String>>, wallet: String, names: Vec<String>)
    ensures
        known_output_entries(*final(m)) == known_output_entries(*old(m)).insert(wallet@, views_of(names@)),
{
    m.insert(wallet, names);
}

/// No name occurs twice in `s`.
pub open spec fn no_repeats(s: Seq<Seq<char>>) -> bool {
    forall|i: int, j: int| 0 <= i < j < s.len() ==> s[i] != s[j]
}

/// For each watched wallet, the names of its outputs at its last scan.
pub struct RewardWatch {
    known: DashMap<String, Vec<String>>,
}

impl View for RewardWatch {
    type V = Map<Seq<char>, Seq<Seq<char>>>;

    closed spec fn view(&self) -> Map<Seq<char>, Seq<Seq<char>>> {
        known_output_entries(self.known)
    }
}

impl RewardWatch {
    /// Each wallet's list names each output once.
    pub open spec fn well_formed(&self) -> bool {
        forall|w: Seq<char>| #[trigger] self@.contains_key(w) ==> no_repeats(self@[w])
    }

    /// No wallet scanned yet.
    pub fn new() -> (r: Self)
        ensures
            r@ == nothing_scanned(),
            r.well_formed(),
    {
        RewardWatch { known: new_known_outputs_map() }
    }

    /// Scans the current outputs of `wallet`: returns the ones to announce
    /// (none on the wallet's first scan, or while it knows no output) and
    /// remembers exactly the names of the current outputs.
    pub fn scan(&mut self, wallet: &String, utxos: &Vec<UtxoEntry>) -> (r: Vec<Reward>)
        requires
            old(self).well_formed(),
        ensures
            final(self).well_formed(),
            ({
                let before = if old(self)@.contains_key(wallet@) {
                    old(self)@[wallet@]
                } else {
                    Seq::empty()
                };
                &&& r@.map_values(|x: Reward| reward_view(x)) == announced(
                    before.len() == 0,
                    before.to_set(),
                    utxos@,
                ).map_values(|e: UtxoEntry| entry_reward_view(e))
                &&& final(self)@.contains_key(wallet@)
                &&& final(self)@[wallet@].to_set() == outpoint_ids(utxos@)
                &&& forall|w: Seq<char>|
                    w != wallet@ ==> #[trigger] final(self)@.contains_key(w) == old(self)@.contains_key(w)
                        && (old(self)@.contains_key(w) ==> final(self)@[w] == old(self)@[w])
            }),
    {
        let mut known = match known_outputs_get(&self.known, wallet) {
            Some(v) => v,
            None => Vec::new(),
        };
        proof {
            if !old(self)@.contains_key(wallet@) {
                assert(views_of(known@) =~= Seq::<Seq<char>>::empty());
            }
            assert forall|i: int, j: int| 0 <= i < j < known@.len() implies known@[i]@ != known@[j]@ by {
                assert(views_of(known@)[i] == known@[i]@);
                assert(views_of(known@)[j] == known@[j]@);
            }
        }
        let rewards = scan_utxos(&mut known, utxos);
        proof {
            assert forall|i: int, j: int| 0 <= i < j < views_of(known@).len() implies views_of(known@)[i]
                != views_of(known@)[j] by {
                assert(known@[i]@ != known@[j]@);
            }
        }
        known_outputs_insert(&mut self.known, wallet.clone(), known);
        rewards
    }
}

/// How many times the explorer is asked for a reward's blocks.
pub const MAX_RESOLVE_ATTEMPTS: u32 = 6;

/// What follows one attempt to resolve a reward's blocks.
pub enum ResolveStep {
    /// The transaction's block is known: look for the mined block and stop.
    Search,
    /// Pause and ask again.
    Retry,
    /// Stop asking; the notice shows what is known.
    GiveUp,
}

/// The decision after attempt number `attempt` (counting from 1), given
/// whether the transaction's block is known by now.
pub open spec fn resolve_decision(attempt: u32, found: bool, r: ResolveStep) -> bool {
    if found {
        r is Search
    } else if attempt >= MAX_RESOLVE_ATTEMPTS {
        r is GiveUp
    } else {
        r is Retry
    }
}

/// Decides what follows attempt number `attempt`.
pub fn resolve_step(attempt: u32, found: bool) -> (r: ResolveStep)
    ensures
        resolve_decision(attempt, found, r),
{
    if found {
        ResolveStep::Search
    } else if attempt >= MAX_RESOLVE_ATTEMPTS {
        ResolveStep::GiveUp
    } else {
        ResolveStep::Retry
    }
}

/// A whole run of resolution attempts, numbered from 1 and continued only
/// on `Retry`, ends after at most 6 attempts; it searches exactly when the
/// block became known at its last attempt, and it was unknown before.
pub proof fn lemma_resolve_run(found: Seq<bool>, steps: Seq<ResolveStep>)
    requires
        steps.len() >= 1,
        found.len() == steps.len(),
        steps.len() <= u32::MAX,
        forall|k: int| 0 <= k < steps.len() ==> resolve_decision((k + 1) as u32, found[k], #[trigger] steps[k]),
        forall|k: int| 0 <= k < steps.len() - 1 ==> #[trigger] steps[k] is Retry,
        !(steps.last() is Retry),
    ensures
        steps.len() <= MAX_RESOLVE_ATTEMPTS,
        steps.last() is Search <==> found.last(),
        forall|k: int| 0 <= k < steps.len() - 1 ==> !#[trigger] found[k],
        steps.last() is GiveUp ==> steps.len() == MAX_RESOLVE_ATTEMPTS,
{
    let n = steps.len() as int;
    if n > 1 {
        assert(steps[n - 2] is Retry);
        assert(resolve_decision((n - 1) as u32, found[n - 2], steps[n - 2]));
    }
    assert(resolve_decision(n as u32, found[n - 1], steps[n - 1]));
    assert forall|k: int| 0 <= k < steps.len() - 1 implies !#[trigger] found[k] by {
        assert(steps[k] is Retry);
        assert(resolve_decision((k + 1) as u32, found[k], steps[k]));
    }
}

} // verus!
