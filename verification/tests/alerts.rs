use kaspa_rust_bot::api::{balance_url, serve_from_cache, transaction_url, CacheType};
use kaspa_rust_bot::dag_buffer::{confirmed_alert_text, pending_alert_text, settle_poll, PollStep};
use kaspa_rust_bot::monitor::{
    outputs_pay_wallet, pick_mined_block, reward_alert_text, reward_update_text, scan_utxos,
    resolve_step, HashProgress, ResolveStep, RewardWatch, UtxoEntry,
};
use kaspa_rust_bot::utils::types::Sompi;
use kaspa_rust_bot::utils::SpamGuard;

const DONATION: &str = "kaspa:qz0yqq8z3twwgg7lq2mjzg6w4edqys45w2wslz7tym2tc6s84580vvx9zr44g";
const MS: u64 = 1_000_000;

fn utxo(tx: &str, index: u32, amount: u64) -> UtxoEntry {
    UtxoEntry { tx_id: tx.to_string(), index, amount: Sompi(amount), daa_score: 100 + index as u64 }
}

#[test]
fn spam_guard_rules() {
    let mut g = SpamGuard::new();
    // the admin is never blocked
    assert!(!g.is_spam(Some(1), 1, 0));
    assert!(!g.is_spam(Some(1), 1, 10 * MS));
    // first message passes, a burst within 50 ms passes
    assert!(!g.is_spam(Some(1), 2, 1_000 * MS));
    assert!(!g.is_spam(Some(1), 2, 1_049 * MS));
    // 50 ms .. 3 s after the accepted message: spam, without refreshing it
    assert!(g.is_spam(Some(1), 2, 1_050 * MS));
    assert!(g.is_spam(Some(1), 2, 3_999 * MS));
    // 3 s after the accepted one: accepted again
    assert!(!g.is_spam(Some(1), 2, 4_000 * MS));
    assert!(g.is_spam(None, 2, 4_100 * MS));
    // a clock reading earlier counts as no time at all
    assert!(!g.is_spam(None, 2, 0));
}

#[test]
fn cache_policy_and_endpoints() {
    assert!(!serve_from_cache(None, 5));
    assert!(serve_from_cache(Some(0), 59_999 * MS));
    assert!(!serve_from_cache(Some(0), 60_000 * MS));
    assert!(serve_from_cache(Some(10), 5));
    assert_eq!(CacheType::Price.endpoint(), "https://api.kaspa.org/info/price");
    assert_eq!(CacheType::Fees.endpoint(), "https://api.kaspa.org/info/fee-estimate");
    assert_eq!(CacheType::Dag.endpoint(), "https://api.kaspa.org/info/blockdag");
    assert_eq!(balance_url("kaspa:abc"), "https://api.kaspa.org/addresses/kaspa:abc/balance");
    assert_eq!(transaction_url("ff"), "https://api.kaspa.org/transactions/ff");
}

#[test]
fn dag_alerts_show_short_forms() {
    let tx = "aaaaaaaaaaaaaaaaaaaa:bbbbbbbbbbbbbbbbbbbbbbbbbbbbbbbbbbbbbbbbbb";
    let pending = pending_alert_text(DONATION, "1.50", tx);
    assert!(pending.contains("\">kaspa:qz0...9zr44g</a>"));
    assert!(pending.contains("<code>+1.50 KAS</code>"));
    assert!(pending.contains("\">aaaaaaaaaaaaaaaaaaaa:bbb...bbbbbb</a>"));
    assert!(pending.ends_with("<b>Status:</b> ⏳ <code>Indexing Hashes...</code>"));
    let confirmed = confirmed_alert_text(DONATION, "1.50", tx, "blockhash");
    assert!(confirmed.ends_with(
        "<b>TX Block:</b> <a href=\"https://kaspa.stream/blocks/blockhash\">blockhash</a>\n✅ <b>Confirmed in DAG</b>"
    ));
}

#[test]
fn polling_decisions() {
    assert!(matches!(settle_poll(1, None), PollStep::Retry));
    assert!(matches!(settle_poll(44, Some(vec![])), PollStep::Retry));
    assert!(matches!(settle_poll(45, Some(vec![])), PollStep::GiveUp));
    match settle_poll(3, Some(vec![Some("h1".to_string()), Some("h2".to_string())])) {
        PollStep::Confirmed(b) => assert_eq!(b, "h1"),
        _ => panic!("expected confirmation"),
    }
    match settle_poll(45, Some(vec![None])) {
        PollStep::Confirmed(b) => assert_eq!(b, "Unknown"),
        _ => panic!("expected confirmation"),
    }
}

#[test]
fn first_scan_learns_without_announcing() {
    let mut known: Vec<String> = Vec::new();
    let r = scan_utxos(&mut known, &vec![utxo("t1", 0, 5), utxo("t1", 1, 6)]);
    assert!(r.is_empty());
    known.sort();
    assert_eq!(known, vec!["t1:0".to_string(), "t1:1".to_string()]);
}

#[test]
fn later_scans_announce_new_outputs_once() {
    let mut known: Vec<String> = Vec::new();
    scan_utxos(&mut known, &vec![utxo("t1", 0, 5)]);
    let now = vec![utxo("t1", 0, 5), utxo("t2", 3, 700), utxo("t2", 3, 700), utxo("t3", 12, 9)];
    let r = scan_utxos(&mut known, &now);
    assert_eq!(r.len(), 2);
    assert_eq!(r[0].tx_id, "t2");
    assert_eq!(r[0].amount, Sompi(700));
    assert_eq!(r[0].daa_score, 103);
    assert_eq!(r[1].tx_id, "t3");
    // scanning the same outputs again announces nothing
    assert!(scan_utxos(&mut known, &now).is_empty());
    // spent outputs are forgotten
    scan_utxos(&mut known, &vec![utxo("t3", 12, 9)]);
    assert_eq!(known, vec!["t3:12".to_string()]);
    let again = scan_utxos(&mut known, &vec![utxo("t3", 12, 9), utxo("t1", 0, 5)]);
    assert_eq!(again.len(), 1);
    assert_eq!(again[0].tx_id, "t1");
}

#[test]
fn reward_notices() {
    let tx = "0123456789abcdef0123456789abcdef";
    let first = reward_alert_text("2024-01-01 00:00:00 UTC", DONATION, "1.00000000", "2.00000000", tx, 77);
    assert!(first.starts_with("⚡ <b>Native Node Reward!</b> 💎\n━━━━━━━━━━━━━━━━━━\n<b>Time:</b> <code>2024-01-01 00:00:00 UTC</code>"));
    assert!(first.contains("\">kaspa:qz0yqq...9zr44g</a>"));
    assert!(first.contains("<b>TXID:</b> <a href=\"https://kaspa.stream/transactions/0123456789abcdef0123456789abcdef\">01234567...89abcdef</a>"));
    assert!(first.contains("<b>Mined Block:</b> ⏳ <code>Searching...</code>"));
    assert!(first.ends_with("<b>DAA Score:</b> <code>77</code>"));
    let update = reward_update_text("t", DONATION, "1", "2", tx, "Not Found", tx, "short", 5);
    assert!(update.contains("<b>Mined Block:</b> <code>Not Found</code>"));
    assert!(update.contains("<b>Accepting Block:</b> <code>short</code>"));
}

#[test]
fn hash_progress_and_mined_block() {
    let mut p = HashProgress::new();
    assert!(!p.absorb(None, None));
    assert_eq!(p.tx_block, "Not Found");
    assert!(!p.absorb(Some(vec![]), Some("acc".to_string())));
    assert_eq!(p.accepting, "acc");
    assert!(p.absorb(Some(vec![Some("blk".to_string())]), None));
    assert_eq!(p.tx_block, "blk");
    assert_eq!(p.accepting, "Not Found");
    let blues = vec!["b1".to_string(), "b2".to_string()];
    assert_eq!(pick_mined_block(Some("b2".to_string()), &blues), "b2");
    assert_eq!(pick_mined_block(None, &blues), "b1");
    assert_eq!(pick_mined_block(None, &vec![]), "Not Found");
    let outs = vec![None, Some("kaspa:x".to_string()), Some(DONATION.to_string())];
    assert!(outputs_pay_wallet(&outs, DONATION));
    assert!(!outputs_pay_wallet(&outs, "kaspa:y"));
}

#[test]
fn reward_watch_tracks_each_wallet_separately() {
    let mut watch = RewardWatch::new();
    let a = "wallet-a".to_string();
    let b = "wallet-b".to_string();
    assert!(watch.scan(&a, &vec![utxo("t1", 0, 5)]).is_empty());
    assert!(watch.scan(&b, &vec![utxo("t9", 0, 5)]).is_empty());
    let r = watch.scan(&a, &vec![utxo("t1", 0, 5), utxo("t9", 0, 5)]);
    assert_eq!(r.len(), 1);
    assert_eq!(r[0].tx_id, "t9");
    assert!(watch.scan(&b, &vec![utxo("t9", 0, 5)]).is_empty());
    // a wallet whose outputs were all spent starts over as a first scan
    assert!(watch.scan(&b, &vec![]).is_empty());
    assert!(watch.scan(&b, &vec![utxo("t7", 1, 5)]).is_empty());
}

#[test]
fn resolution_decisions() {
    assert!(matches!(resolve_step(1, true), ResolveStep::Search));
    assert!(matches!(resolve_step(1, false), ResolveStep::Retry));
    assert!(matches!(resolve_step(5, false), ResolveStep::Retry));
    assert!(matches!(resolve_step(6, false), ResolveStep::GiveUp));
    assert!(matches!(resolve_step(6, true), ResolveStep::Search));
}

#[test]
fn a_run_of_polls_gives_up_at_the_forty_fifth() {
    let mut attempt: u32 = 1;
    loop {
        match settle_poll(attempt, Some(vec![])) {
            PollStep::Retry => attempt += 1,
            PollStep::GiveUp => break,
            PollStep::Confirmed(_) => panic!("nothing was listed"),
        }
    }
    assert_eq!(attempt, 45);
    let mut attempt: u32 = 1;
    let found = loop {
        let answer = if attempt == 7 { Some(vec![Some("b7".to_string())]) } else { None };
        match settle_poll(attempt, answer) {
            PollStep::Retry => attempt += 1,
            PollStep::GiveUp => panic!("gave up early"),
            PollStep::Confirmed(b) => break b,
        }
    };
    assert_eq!((attempt, found.as_str()), (7, "b7"));
}
