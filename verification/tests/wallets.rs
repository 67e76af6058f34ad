use kaspa_rust_bot::commands::{
    balance_report, broadcast_summary, finish_broadcast, handle_command, logs_reply, logs_text, network_report,
    supply_report, Action, Command, LOG_TAIL_LINES,
};
use kaspa_rust_bot::state::WalletRegistry;
use kaspa_rust_bot::utils::helpers::{clean_and_validate_wallet, validate_cleaned_wallet};
use std::collections::HashSet;

const DONATION: &str = "kaspa:qz0yqq8z3twwgg7lq2mjzg6w4edqys45w2wslz7tym2tc6s84580vvx9zr44g";
const ADMIN: i64 = 42;

fn reply(a: Action) -> (String, bool, bool) {
    match a {
        Action::Reply { text, keyboard, persist } => (text, keyboard, persist),
        _ => panic!("expected a reply"),
    }
}

fn sorted(mut v: Vec<String>) -> Vec<String> {
    v.sort();
    v
}

#[test]
fn wallet_validation_cleans_and_prefixes() {
    let upper = format!("  {}\n", DONATION.to_uppercase());
    assert_eq!(clean_and_validate_wallet(&upper), Some(DONATION.to_string()));
    let bare = &DONATION[6..];
    assert_eq!(clean_and_validate_wallet(bare), Some(DONATION.to_string()));
    assert_eq!(clean_and_validate_wallet(DONATION), Some(DONATION.to_string()));
}

#[test]
fn wallet_validation_rejects_bad_payloads() {
    // too short
    assert_eq!(clean_and_validate_wallet("kaspa:qz0yqq"), None);
    // 'b' is not in the Bech32 alphabet
    let with_b = format!("kaspa:b{}", &DONATION[7..]);
    assert_eq!(clean_and_validate_wallet(&with_b), None);
    // a second prefix makes a second ':'
    let doubled = format!("kaspa:{}", DONATION);
    assert_eq!(clean_and_validate_wallet(&doubled), None);
    // wrong network prefix
    let test = format!("kaspatest:{}", &DONATION[6..]);
    assert_eq!(clean_and_validate_wallet(&test), None);
    // 62 characters
    let p62 = format!("kaspa:{}q", &DONATION[6..]);
    assert_eq!(clean_and_validate_wallet(&p62), None);
    // 63 characters are accepted
    let p63 = format!("kaspa:{}qq", &DONATION[6..]);
    assert_eq!(clean_and_validate_wallet(&p63), Some(p63.clone()));
}

#[test]
fn wallet_validation_is_idempotent() {
    let first = validate_cleaned_wallet(&DONATION[6..]).unwrap();
    assert_eq!(validate_cleaned_wallet(&first), Some(first.clone()));
}

#[test]
fn registry_add_list_remove() {
    let mut reg = WalletRegistry::new();
    reg.add("w1".to_string(), 1);
    reg.add("w1".to_string(), 2);
    reg.add("w2".to_string(), 1);
    reg.add("w2".to_string(), 1);
    assert_eq!(sorted(reg.wallets_of(1)), vec!["w1".to_string(), "w2".to_string()]);
    assert_eq!(reg.wallets_of(2), vec!["w1".to_string()]);
    reg.remove(&"w1".to_string(), 1);
    assert_eq!(reg.wallets_of(1), vec!["w2".to_string()]);
    assert_eq!(reg.subscribers(&"w1".to_string()), HashSet::from([2]));
    // removing an unknown wallet changes nothing
    reg.remove(&"w9".to_string(), 1);
    assert_eq!(reg.entries().len(), 2);
    // the last chat leaving keeps the wallet with no chats
    reg.remove(&"w1".to_string(), 2);
    assert!(reg.subscribers(&"w1".to_string()).is_empty());
    assert_eq!(reg.entries().len(), 2);
}

#[test]
fn registry_audience_and_purge() {
    let mut reg = WalletRegistry::new();
    reg.add("w1".to_string(), 1);
    reg.add("w1".to_string(), 2);
    reg.add("w2".to_string(), 3);
    assert_eq!(reg.all_users(), HashSet::from([1, 2, 3]));
    reg.purge_chat(2);
    assert_eq!(reg.all_users(), HashSet::from([1, 3]));
    assert_eq!(reg.entries().len(), 2);
}

#[test]
fn registry_loads_only_long_keys() {
    let saved = vec![
        (DONATION.to_string(), HashSet::from([7, 8])),
        ("tiny".to_string(), HashSet::from([9])),
        ("exactly-twenty-bytes".to_string(), HashSet::from([10])),
    ];
    let reg = WalletRegistry::from_saved(saved);
    assert_eq!(reg.entries().len(), 1);
    assert_eq!(reg.subscribers(&DONATION.to_string()), HashSet::from([7, 8]));
}

#[test]
fn start_shows_admin_commands_only_to_the_admin() {
    let mut reg = WalletRegistry::new();
    let mut mon = true;
    let (user, kb, persist) = reply(handle_command(Command::Start, 5, ADMIN, &mut reg, &mut mon));
    assert!(kb && !persist);
    assert!(user.starts_with("🤖 <b>Kaspa Platinum Command Center</b>"));
    assert!(user.ends_with("<code>/dag</code> - BlockDAG details"));
    assert!(!user.contains("Admin Commands"));
    let (admin, _, _) = reply(handle_command(Command::Start, ADMIN, ADMIN, &mut reg, &mut mon));
    assert!(admin.starts_with(&user));
    assert!(admin.ends_with("<code>/logs</code> - View System Logs"));
    assert!(admin.contains("👑 <b>Admin Commands:</b>"));
}

#[test]
fn add_accepts_the_tracked_form() {
    let mut reg = WalletRegistry::new();
    let mut mon = true;
    let (text, kb, persist) =
        reply(handle_command(Command::Add(DONATION[6..].to_string()), 5, ADMIN, &mut reg, &mut mon));
    assert_eq!(text, format!("✅ <b>Tracking Enabled:</b>\n<code>{}</code>", DONATION));
    assert!(kb && persist);
    assert_eq!(reg.wallets_of(5), vec![DONATION.to_string()]);
    let (text, _, _) = reply(handle_command(Command::List, 5, ADMIN, &mut reg, &mut mon));
    assert_eq!(text, format!("📁 <b>Portfolio:</b>\n<code>{}</code>", DONATION));
}

#[test]
fn add_rejects_other_forms() {
    let mut reg = WalletRegistry::new();
    let mut mon = true;
    // the pattern is applied as is: upper case does not match
    let upper = DONATION.to_uppercase().replace("KASPA:", "kaspa:");
    let (text, kb, persist) = reply(handle_command(Command::Add(upper), 5, ADMIN, &mut reg, &mut mon));
    assert_eq!(text, "❌ <b>Invalid Format!</b>\nPlease provide a valid Kaspa address.");
    assert!(!kb && !persist);
    // 60 characters
    let short = DONATION[..DONATION.len() - 1].to_string();
    let (text, _, _) = reply(handle_command(Command::Add(short), 5, ADMIN, &mut reg, &mut mon));
    assert!(text.starts_with("❌"));
    // the pattern allows digits and letters the alphabet leaves out
    let loose = format!("kaspa:{}", "b".repeat(62));
    let (text, _, _) = reply(handle_command(Command::Add(loose.clone()), 5, ADMIN, &mut reg, &mut mon));
    assert!(text.starts_with("✅"));
    assert_eq!(reg.wallets_of(5), vec![loose]);
}

#[test]
fn list_and_remove_replies() {
    let mut reg = WalletRegistry::new();
    let mut mon = true;
    let (text, _, _) = reply(handle_command(Command::List, 5, ADMIN, &mut reg, &mut mon));
    assert_eq!(text, "No wallets tracked.");
    handle_command(Command::Add(DONATION.to_string()), 5, ADMIN, &mut reg, &mut mon);
    let (text, kb, persist) =
        reply(handle_command(Command::Remove(DONATION[6..].to_string()), 5, ADMIN, &mut reg, &mut mon));
    assert_eq!(text, "🗑️ <b>Wallet Removed.</b>");
    assert!(!kb && persist);
    assert!(reg.wallets_of(5).is_empty());
}

#[test]
fn balance_lists_decodable_wallets_only() {
    let mut reg = WalletRegistry::new();
    let mut mon = true;
    handle_command(Command::Add(DONATION.to_string()), 5, ADMIN, &mut reg, &mut mon);
    // matches the pattern but fails the checksum
    let fake = format!("kaspa:{}", "q".repeat(61));
    handle_command(Command::Add(fake), 5, ADMIN, &mut reg, &mut mon);
    assert_eq!(reg.wallets_of(5).len(), 2);
    match handle_command(Command::Balance, 5, ADMIN, &mut reg, &mut mon) {
        Action::Balances { wallets } => assert_eq!(wallets, vec![DONATION.to_string()]),
        _ => panic!("expected balances"),
    }
}

#[test]
fn admin_commands_are_silent_for_others() {
    let mut reg = WalletRegistry::new();
    let mut mon = true;
    for cmd in [Command::Sys, Command::Pause, Command::Resume, Command::Restart, Command::Logs] {
        assert!(matches!(handle_command(cmd, 5, ADMIN, &mut reg, &mut mon), Action::Nothing));
    }
    assert!(matches!(
        handle_command(Command::Broadcast("hi".to_string()), 5, ADMIN, &mut reg, &mut mon),
        Action::Nothing
    ));
    assert!(mon);
}

#[test]
fn admin_pauses_and_resumes() {
    let mut reg = WalletRegistry::new();
    let mut mon = true;
    let (text, _, _) = reply(handle_command(Command::Pause, ADMIN, ADMIN, &mut reg, &mut mon));
    assert_eq!(text, "⏸️ <b>Paused.</b>");
    assert!(!mon);
    assert!(matches!(
        handle_command(Command::Sys, ADMIN, ADMIN, &mut reg, &mut mon),
        Action::SystemReport { monitoring: false }
    ));
    let (text, _, _) = reply(handle_command(Command::Resume, ADMIN, ADMIN, &mut reg, &mut mon));
    assert_eq!(text, "▶️ <b>Running.</b>");
    assert!(mon);
    match handle_command(Command::Restart, ADMIN, ADMIN, &mut reg, &mut mon) {
        Action::Restart { text } => assert_eq!(text, "🔄 <b>Restarting safely...</b>"),
        _ => panic!("expected restart"),
    }
    assert!(matches!(handle_command(Command::Logs, ADMIN, ADMIN, &mut reg, &mut mon), Action::ReadLogs));
}

#[test]
fn public_reports_are_requested() {
    let mut reg = WalletRegistry::new();
    let mut mon = true;
    assert!(matches!(handle_command(Command::Network, 5, ADMIN, &mut reg, &mut mon), Action::NetworkStats));
    assert!(matches!(handle_command(Command::Dag, 5, ADMIN, &mut reg, &mut mon), Action::DagDetails));
    assert!(matches!(handle_command(Command::Price, 5, ADMIN, &mut reg, &mut mon), Action::Price));
    assert!(matches!(handle_command(Command::Market, 5, ADMIN, &mut reg, &mut mon), Action::MarketCap));
    assert!(matches!(handle_command(Command::Supply, 5, ADMIN, &mut reg, &mut mon), Action::Supply));
    assert!(matches!(handle_command(Command::Fees, 5, ADMIN, &mut reg, &mut mon), Action::Fees));
}

#[test]
fn broadcast_reaches_every_tracking_chat() {
    let mut reg = WalletRegistry::new();
    let mut mon = true;
    reg.add("w1".to_string(), 1);
    reg.add("w2".to_string(), 2);
    reg.add("w2".to_string(), 1);
    match handle_command(Command::Broadcast("maintenance".to_string()), ADMIN, ADMIN, &mut reg, &mut mon) {
        Action::Broadcast { recipients, text } => {
            assert_eq!(recipients, HashSet::from([1, 2]));
            assert_eq!(text, "📢 <b>Admin Broadcast:</b>\n\nmaintenance");
        }
        _ => panic!("expected broadcast"),
    }
    assert_eq!(broadcast_summary(2), "✅ Broadcast sent successfully to 2 users.");
}

#[test]
fn logs_show_readable_lines_oldest_first() {
    let newest_first = vec![Some("c".to_string()), None, Some("b".to_string()), Some("a".to_string())];
    assert_eq!(logs_text(&newest_first), "📜 <b>System Logs:</b>\n<pre>a\nb\nc</pre>");
    assert_eq!(logs_text(&vec![]), "📜 <b>System Logs:</b>\n<pre></pre>");
}

#[test]
fn balance_report_lists_wallets_and_total() {
    let lines = vec![(DONATION.to_string(), "1,234".to_string())];
    assert_eq!(
        balance_report(&lines, "1,234"),
        "🏦 <b>Live Balances:</b>\n💳 <code>kaspa:qz0yqq...9zr44g</code>\n⚖️ <b>1,234 KAS</b>\n\n━━━━━━━━━━━━━━\n💵 <b>Total Holdings:</b> <code>1,234 KAS</code>"
    );
}

#[test]
fn registry_loads_saved_text() {
    let text = format!(r#"{{"{}":[7,8],"tiny":[9]}}"#, DONATION);
    let reg = WalletRegistry::load_saved(&text).unwrap();
    assert_eq!(reg.entries().len(), 1);
    assert_eq!(reg.subscribers(&DONATION.to_string()), HashSet::from([7, 8]));
    assert!(WalletRegistry::load_saved("{}").unwrap().entries().is_empty());
    assert!(WalletRegistry::load_saved("not json").is_none());
    assert!(WalletRegistry::load_saved(r#"{"a":["x"]}"#).is_none());
}

#[test]
fn accepted_addresses_are_fixed_points() {
    for input in [DONATION, &DONATION[6..], "  KASPA:QZ0YQQ8Z3TWWGG7LQ2MJZG6W4EDQYS45W2WSLZ7TYM2TC6S84580VVX9ZR44G "] {
        let t = clean_and_validate_wallet(input).unwrap();
        assert!(t.is_ascii());
        assert_eq!(clean_and_validate_wallet(&t), Some(t.clone()));
    }
}

#[test]
fn case_and_spaces_never_change_the_verdict() {
    for a in [DONATION, &DONATION[6..], "kaspa:qz0yqq", "hello world", "", "kaspa:b"] {
        let padded = format!("  {}  ", a.to_ascii_uppercase());
        assert_eq!(clean_and_validate_wallet(&padded), clean_and_validate_wallet(a));
    }
}

#[test]
fn kaspa_prefix_is_optional() {
    for p in [&DONATION[6..], "qz0yqq", "", "x:y"] {
        let prefixed = format!("kaspa:{}", p);
        assert_eq!(clean_and_validate_wallet(p), clean_and_validate_wallet(&prefixed));
    }
}

#[test]
fn broadcast_drops_unreachable_chats_and_counts_the_rest() {
    let mut reg = WalletRegistry::new();
    reg.add("w1".to_string(), 1);
    reg.add("w1".to_string(), 3);
    reg.add("w2".to_string(), 2);
    reg.add("w2".to_string(), 3);
    let outcomes = vec![(1, true), (2, false), (3, true)];
    let summary = finish_broadcast(&mut reg, &outcomes);
    assert_eq!(summary, "✅ Broadcast sent successfully to 2 users.");
    assert_eq!(reg.subscribers(&"w1".to_string()), HashSet::from([1, 3]));
    assert_eq!(reg.subscribers(&"w2".to_string()), HashSet::from([3]));
    assert_eq!(reg.all_users(), HashSet::from([1, 3]));
    let none = finish_broadcast(&mut reg, &vec![(1, false), (3, false)]);
    assert_eq!(none, "✅ Broadcast sent successfully to 0 users.");
    assert!(reg.all_users().is_empty());
    assert_eq!(reg.entries().len(), 2);
}

#[test]
fn logs_show_at_most_the_last_twenty_five_lines() {
    assert_eq!(LOG_TAIL_LINES, 25);
    let newest_first: Vec<Option<String>> = (0..30).rev().map(|i| Some(format!("l{}", i))).collect();
    let expected: Vec<String> = (5..30).map(|i| format!("l{}", i)).collect();
    assert_eq!(logs_text(&newest_first), format!("📜 <b>System Logs:</b>\n<pre>{}</pre>", expected.join("\n")));
    assert_eq!(logs_reply(None), "❌ <b>Could not read log file.</b>");
    assert_eq!(logs_reply(Some(vec![Some("x".to_string())])), "📜 <b>System Logs:</b>\n<pre>x</pre>");
}

#[test]
fn network_and_supply_replies() {
    assert_eq!(
        network_report("kaspa-mainnet", "1.20 EH/s", "3,456", "789"),
        "🌐 <b>Network Stats:</b>\n🧩 <b>Network:</b> <code>kaspa-mainnet</code>\n⛏️ <b>Hashrate:</b> <code>1.20 EH/s</code>\n⚙️ <b>Difficulty:</b> <code>3,456</code>\n📊 <b>DAA Score:</b> <code>789</code>"
    );
    assert_eq!(
        supply_report("25,000", "28,700"),
        "🪙 <b>Supply:</b> <code>25,000 KAS</code>\n🏁 <b>Max Supply:</b> <code>28,700 KAS</code>"
    );
}

#[test]
fn saved_registry_loads_back() {
    let mut reg = WalletRegistry::new();
    reg.add(DONATION.to_string(), 7);
    reg.add(DONATION.to_string(), 8);
    let other = format!("kaspa:{}", "q".repeat(61));
    reg.add(other.clone(), 9);
    let text = reg.save_text();
    let back = WalletRegistry::load_saved(&text).unwrap();
    assert_eq!(sorted(back.entries().into_iter().map(|e| e.0).collect()), sorted(vec![DONATION.to_string(), other.clone()]));
    assert_eq!(back.subscribers(&DONATION.to_string()), HashSet::from([7, 8]));
    assert_eq!(back.subscribers(&other), HashSet::from([9]));
    assert!(WalletRegistry::load_saved(&WalletRegistry::new().save_text()).unwrap().entries().is_empty());
}
