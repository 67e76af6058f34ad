//! The inline main menu.

use vstd::prelude::*;
use vstd::string::*;

verus! {

/// An inline button: the text shown and the callback it sends.
pub struct MenuButton {
    pub label: String,
    pub action: String,
}

/// Label and callback of each button, row by row.
pub open spec fn menu_views(rows: Seq<Vec<MenuButton>>) -> Seq<Seq<(Seq<char>, Seq<char>)>> {
    rows.map_values(|r: Vec<MenuButton>| r@.map_values(|b: MenuButton| (b.label@, b.action@)))
}

/// The main menu: four rows of two buttons.
pub open spec fn main_menu_layout() -> Seq<Seq<(Seq<char>, Seq<char>)>> {
    seq![
        seq![("💰 My Balances"@, "cmd_balance"@), ("📋 Tracked Wallets"@, "cmd_list"@)],
        seq![("💵 KAS Price"@, "cmd_price"@), ("📈 Market Cap"@, "cmd_market"@)],
        seq![("🌐 Network Stats"@, "cmd_network"@), ("⛽ Mempool Fees"@, "cmd_fees"@)],
        seq![("🪙 Coin Supply"@, "cmd_supply"@), ("📦 BlockDAG Details"@, "cmd_dag"@)],
    ]
}

fn button(label: &str, action: &str) -> (b: MenuButton)
    ensures
        b.label@ == label@,
        b.action@ == action@,
{
    MenuButton { label: String::from_str(label), action: String::from_str(action) }
}

fn menu_row(a: MenuButton, b: MenuButton) -> (r: Vec<MenuButton>)
    ensures
        r@ == seq![a, b],
{
    let mut r: Vec<MenuButton> = Vec::new();
    r.push(a);
    r.push(b);
    assert(r@ =~= seq![a, b]);
    r
}

/// The inline main menu: balances and wallets, price and market cap,
/// network and fees, supply and BlockDAG.
pub fn main_menu_markup() -> (rows: Vec<Vec<MenuButton>>)
    ensures
        menu_views(rows@) == main_menu_layout(),
{
    let row1 = menu_row(
        button("💰 My Balances", "cmd_balance"),
        button("📋 Tracked Wallets", "cmd_list"),
    );
    let row2 = menu_row(button("💵 KAS Price", "cmd_price"), button("📈 Market Cap", "cmd_market"));
    let row3 = menu_row(
        button("🌐 Network Stats", "cmd_network"),
        button("⛽ Mempool Fees", "cmd_fees"),
    );
    let row4 = menu_row(
        button("🪙 Coin Supply", "cmd_supply"),
        button("📦 BlockDAG Details", "cmd_dag"),
    );
    let mut rows: Vec<Vec<MenuButton>> = Vec::new();
    rows.push(row1);
    rows.push(row2);
    rows.push(row3);
    rows.push(row4);
    proof {
        assert forall|i: int| 0 <= i < 4 implies #[trigger] menu_views(rows@)[i] =~= main_menu_layout()[i] by {
        }
    }
    assert(menu_views(rows@) =~= main_menu_layout());
    rows
}

} // verus!
