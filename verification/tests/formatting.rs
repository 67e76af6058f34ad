use kaspa_rust_bot::bot::{dag_reply, dag_report, price_report, supply_reply, system_report, welcome_text};
use kaspa_rust_bot::kaspa_features::main_menu_markup;
use kaspa_rust_bot::text::decimal;
use kaspa_rust_bot::utils::helpers::{abbreviation_is_safe, format_short_wallet as compact};
use kaspa_rust_bot::utils::local_rpc::LocalNodeRpc;
use kaspa_rust_bot::utils::{format_hash, format_short_wallet, group_thousands, make_golden_keyboard};

const DONATION: &str = "kaspa:qz0yqq8z3twwgg7lq2mjzg6w4edqys45w2wslz7tym2tc6s84580vvx9zr44g";

#[test]
fn thousands_are_grouped_from_the_right() {
    assert_eq!(group_thousands("1234567"), "1,234,567");
    assert_eq!(group_thousands("1234"), "1,234");
    assert_eq!(group_thousands("123456"), "123,456");
    assert_eq!(group_thousands("123"), "123");
    assert_eq!(group_thousands("7"), "7");
    assert_eq!(group_thousands(""), "");
}

#[test]
fn thousands_grouping_counts_a_leading_sign_as_a_character() {
    // the sign is one more character on the left, as in the original scan
    assert_eq!(group_thousands("-123"), "-,123");
    assert_eq!(group_thousands("-1234"), "-1,234");
}

#[test]
fn grouping_only_adds_separators() {
    let digits = "98765432101";
    let g = group_thousands(digits);
    assert_eq!(g.replace(',', ""), digits);
    assert_eq!(g.len(), digits.len() + (digits.len() - 1) / 3);
}

#[test]
fn short_wallet_keeps_twelve_and_six() {
    assert_eq!(format_short_wallet(DONATION), "kaspa:qz0yqq...9zr44g");
    assert_eq!(format_short_wallet("kaspa:abcdefghijkl"), "kaspa:abcdefghijkl");
    assert_eq!(format_short_wallet("abcdefghijklmnopqrs"), "abcdefghijkl...nopqrs");
}

#[test]
fn short_wallet_is_stable() {
    let once = format_short_wallet(DONATION);
    assert!(once.chars().count() <= 21);
    assert_eq!(format_short_wallet(&once), once);
}

#[test]
fn long_hashes_become_links() {
    let h = "0123456789abcdef0123";
    assert_eq!(
        format_hash(h, "blocks"),
        "<a href=\"https://kaspa.stream/blocks/0123456789abcdef0123\">01234567...cdef0123</a>"
    );
}

#[test]
fn placeholders_and_short_hashes_stay_code() {
    assert_eq!(format_hash("Not Found", "blocks"), "<code>Not Found</code>");
    assert_eq!(format_hash("abcdef", "blocks"), "<code>abcdef</code>");
    let searching = "⏳ Searching for the block hash";
    assert_eq!(format_hash(searching, "blocks"), format!("<code>{}</code>", searching));
    let indexing = "still Indexing the transaction";
    assert_eq!(format_hash(indexing, "transactions"), format!("<code>{}</code>", indexing));
}

#[test]
fn compact_address_cuts_the_payload_bytes() {
    assert_eq!(compact(DONATION), "kaspa:qz0...9zr44g");
    assert_eq!(compact(""), "N/A");
    assert_eq!(compact("kaspa:short"), "kaspa:short");
    assert_eq!(compact("no-colon-at-all-in-this-hash-0123456789"), "no-colon-at-all-in-this-hash-0123456789");
    assert_eq!(compact("a:b:cdefghijklmnopqrstuvwxyz"), "a:b:cdefghijklmnopqrstuvwxyz");
    // a block hash without prefix is left whole
    let hash = "d1a5d5b9c0e6f1a2b3c4d5e6f7a8b9c0d1e2f3a4b5c6d7e8f9a0b1c2d3e4f5a6";
    assert_eq!(compact(hash), hash);
}

#[test]
fn compact_address_safety_follows_char_boundaries() {
    assert!(abbreviation_is_safe(DONATION));
    assert!(abbreviation_is_safe(""));
    // 'é' takes bytes 2 and 3, so cutting after byte 3 would split it
    assert!(!abbreviation_is_safe("x:abécdefghijklmnop"));
    // here the cut after byte 3 falls right after 'é'
    assert!(abbreviation_is_safe("x:aécdefghijklmnop"));
    assert_eq!(compact("x:aécdefghijklmnop"), "x:aé...klmnop");
}

#[test]
fn response_keys_follow_the_request_names() {
    assert_eq!(LocalNodeRpc::response_key("getCoinSupplyRequest"), "getCoinSupplyResponse");
    assert_eq!(LocalNodeRpc::response_key("getBlockDagInfoRequest"), "getBlockDagInfoResponse");
    assert_eq!(LocalNodeRpc::response_key("RequestRequestX"), "XResponse");
    assert_eq!(LocalNodeRpc::response_key("ping"), "pingResponse");
}

#[test]
fn responses_with_errors_are_dropped() {
    assert_eq!(LocalNodeRpc::accept_response(Some(5), false), Some(5));
    assert_eq!(LocalNodeRpc::accept_response(Some(5), true), None);
    assert_eq!(LocalNodeRpc::accept_response::<u8>(None, false), None);
}

#[test]
fn decimal_writes_integers() {
    assert_eq!(decimal(0), "0");
    assert_eq!(decimal(7), "7");
    assert_eq!(decimal(1234567890), "1234567890");
    assert_eq!(decimal(u64::MAX), u64::MAX.to_string());
}

#[test]
fn bot_replies() {
    assert_eq!(welcome_text(), "<b>Kaspa Pulse Bot</b>\nSelect an option below:");
    assert_eq!(
        system_report(3600),
        "🖥️ <b>System Diagnostics</b>\n━━━━━━━━━━━━━━━━━━\n<b>Engine:</b> <code>ACTIVE</code>\n<b>Uptime:</b> <code>3600s</code>"
    );
    assert_eq!(
        dag_report("kaspa-mainnet", 120, 121, "1.50"),
        "🔗 <b>Local Node DAG Info</b>\n━━━━━━━━━━━━━━━━━━\n<b>Network:</b> <code>kaspa-mainnet</code>\n<b>Blocks:</b> <code>120</code>\n<b>Headers:</b> <code>121</code>\n<b>Difficulty:</b> <code>1.50</code>"
    );
}

#[test]
fn keyboards_hold_the_commands() {
    let k = make_golden_keyboard();
    assert!(k.resize);
    let rows: Vec<Vec<String>> = k.rows;
    assert_eq!(rows.len(), 5);
    assert_eq!(rows[0], vec!["/balance".to_string(), "/list".to_string()]);
    assert_eq!(rows[4], vec!["/dag".to_string(), "/sys".to_string()]);
    let menu = main_menu_markup();
    assert_eq!(menu.len(), 4);
    assert_eq!(menu[0][0].label, "💰 My Balances");
    assert_eq!(menu[0][0].action, "cmd_balance");
    assert_eq!(menu[3][1].action, "cmd_dag");
}

#[test]
fn answers_come_from_the_response_key() {
    let reply = r#"{"getCoinSupplyResponse":{"circulatingSompi":5}}"#;
    let expected: serde_json::Value = serde_json::from_str(r#"{"circulatingSompi":5}"#).unwrap();
    assert_eq!(LocalNodeRpc::answer_of(reply, "getCoinSupplyRequest"), Some(expected));
    // the field reports an error
    let failed = r#"{"getCoinSupplyResponse":{"error":"busy"}}"#;
    assert_eq!(LocalNodeRpc::answer_of(failed, "getCoinSupplyRequest"), None);
    // another request's answer
    assert_eq!(LocalNodeRpc::answer_of(reply, "getBlockDagInfoRequest"), None);
    // not JSON at all
    assert_eq!(LocalNodeRpc::answer_of("getCoinSupplyResponse", "getCoinSupplyRequest"), None);
}

#[test]
fn grouping_makes_groups_of_three() {
    for digits in ["1", "12", "123", "1234", "12345", "123456", "1234567", "1234567890"] {
        let g: Vec<char> = group_thousands(digits).chars().collect();
        let len = g.len();
        assert_ne!(len % 4, 0);
        for (k, c) in g.iter().enumerate() {
            assert_eq!(*c == ',', (len - k) % 4 == 0, "{} at {}", digits, k);
        }
    }
    assert_eq!(group_thousands("1234567890"), "1,234,567,890");
}

#[test]
fn local_node_replies_and_their_errors() {
    assert_eq!(dag_reply(Some(("kaspa-mainnet".to_string(), 120, 121, "1.50".to_string()))), dag_report("kaspa-mainnet", 120, 121, "1.50"));
    assert_eq!(dag_reply(None), "⚠️ <b>Error:</b> Failed to extract DAG parameters from Local Node.");
    assert_eq!(
        supply_reply(Some(("25000".to_string(), "28700".to_string()))),
        "🏦 <b>Kaspa Supply (Local Node)</b>\n━━━━━━━━━━━━━━━━━━\n<b>Circulating:</b> <code>25000 KAS</code>\n<b>Max Supply:</b> <code>28700 KAS</code>"
    );
    assert_eq!(supply_reply(None), "⚠️ <b>Error:</b> Failed to extract Supply parameters from Local Node.");
    assert_eq!(price_report("0.1234"), "💰 <b>Current Price:</b> <code>$0.1234</code>");
}

#[test]
fn compact_form_is_stable() {
    for a in [
        "kaspa:qz0yqq8z3twwgg7lq2mjzg6w4edqys45w2wslz7tym2tc6s84580vvx9zr44g",
        "x:aécdefghijklmnop",
        "",
        "no-colon-here",
        "a:b:c",
    ] {
        let once = compact(a);
        assert_eq!(compact(&once), once);
    }
}
