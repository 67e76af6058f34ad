//! The subscription registry: which chats track which wallet.

use vstd::prelude::*;
use dashmap::DashMap;
use std::collections::HashSet;
use vstd::std_specs::hash::{axiom_spec_hash_keys_iter, spec_hash_keys_iter};
use vstd::std_specs::iter::IteratorSpec;
use vstd::string::*;
use vstd::utf8::*;

verus! {

broadcast use vstd::std_specs::hash::group_hash_axioms;

/// `dashmap::DashMap`, a concurrent hash map; opaque to Verus, its
/// contents are known only through the names and wrappers below.
#[verifier::external_type_specification]
#[verifier::external_body]
#[verifier::reject_recursive_types(K)]
#[verifier::reject_recursive_types(V)]
#[verifier::reject_recursive_types(S)]
pub struct ExDashMap<K, V, S>(DashMap<K, V, S>);

/// What a wallet-to-chats map holds: for each wallet (by its characters)
/// the set of chat ids that track it.
pub uninterp spec fn subscription_entries(m: DashMap<String, HashSet<i64>>) -> Map<Seq<char>, Set<i64>>;

/// The registry of nobody.
pub open spec fn no_subscriptions() -> Map<Seq<char>, Set<i64>> {
    Map::empty()
}

/// `DashMap::new`: an empty map.
#[verifier::external_body]
fn new_subscription_map() -> (r: DashMap<String, HashSet<i64>>)
    ensures
        subscription_entries(r) == no_subscriptions(),
{
    DashMap::new()
}

/// `DashMap::get`, with the found set cloned out of the guard: the set
/// stored under `wallet`, if any.
#[verifier::external_body]
fn subscription_get(m: &DashMap<String, HashSet<i64>>, wallet: &String) -> (r: Option<
    HashSet<i64>,
>)
    ensures
        match r {
            Some(s) => subscription_entries(*m).contains_key(wallet@) && s@ == subscription_entries(
                *m,
            )[wallet@],
            None => !subscription_entries(*m).contains_key(wallet@),
        },
{
    m.get(wallet).map(|e| e.value().clone())
}

/// `DashMap::insert`: stores `set` under `wallet`, replacing what was there.
#[verifier::external_body]
fn subscription_insert(m: &mut DashMap<String, HashSet<i64>>, wallet: String, set: HashSet<i64>)
    ensures
        subscription_entries(*final(m)) == subscription_entries(*old(m)).insert(wallet@, set@),
{
    m.insert(wallet, set);
}

/// `DashMap::iter`, each entry cloned out of its guard: every wallet once,
/// with its set, in the map's own (unspecified) order.
#[verifier::external_body]
fn subscription_list(m: &DashMap<String, HashSet<i64>>) -> (r: Vec<(String, HashSet<i64>)>)
    ensures
        forall|i: int|
            0 <= i < r@.len() ==> subscription_entries(*m).contains_key(#[trigger] r@[i].0@)
                && subscription_entries(*m)[r@[i].0@] == r@[i].1@,
        forall|i: int, j: int| 0 <= i < j < r@.len() ==> r@[i].0@ != r@[j].0@,
        forall|w: Seq<char>|
            #[trigger] subscription_entries(*m).contains_key(w) ==> exists|i: int|
                0 <= i < r@.len() && r@[i].0@ == w,
{
    m.iter().map(|e| (e.key().clone(), e.value().clone())).collect()
}

/// The wallets saved in a registry file: what `serde_json` reads from
/// `text` as a map from wallet to a set of chat ids (`None` when the text is
/// not such a map).
pub uninterp spec fn saved_wallets(text: Seq<char>) -> Option<Map<Seq<char>, Set<i64>>>;

/// No wallet is listed twice.
pub open spec fn distinct_wallets(entries: Seq<(String, HashSet<i64>)>) -> bool {
    forall|i: int, j: int| 0 <= i < j < entries.len() ==> entries[i].0@ != entries[j].0@
}

/// `serde_json::to_string_pretty` on the entries gathered into a
/// `HashMap<String, HashSet<i64>>`: the registry file's text. The order of
/// the keys in the text follows the map and is not stated; what is stated
/// is that `serde_json` reads the text back as the same map (string keys
/// and integer sets serialise without error and parse back unchanged).
#[verifier::external_body]
fn saved_text(entries: &Vec<(String, HashSet<i64>)>) -> (r: String)
    requires
        distinct_wallets(entries@),
    ensures
        saved_wallets(r@) is Some,
        saved_wallets(r@) matches Some(m) ==> {
            &&& forall|w: Seq<char>|
                #[trigger] m.contains_key(w) <==> exists|i: int|
                    0 <= i < entries@.len() && entries@[i].0@ == w
            &&& forall|i: int|
                0 <= i < entries@.len() ==> m[#[trigger] entries@[i].0@] == entries@[i].1@
        },
{
    let map: std::collections::HashMap<String, HashSet<i64>> = entries.iter().cloned().collect();
    serde_json::to_string_pretty(&map).unwrap_or_default()
}

/// The wallets that loading keeps of a saved map: those longer than 20
/// bytes.
pub open spec fn kept_on_load(m: Map<Seq<char>, Set<i64>>) -> Map<Seq<char>, Set<i64>> {
    m.restrict(Set::new(|w: Seq<char>| encode_utf8(w).len() > 20))
}

/// Saving then loading gives the registry back: when every wallet is
/// longer than 20 bytes (as every tracked address is), loading keeps the
/// whole saved map.
pub proof fn lemma_reload_keeps_addresses(m: Map<Seq<char>, Set<i64>>)
    requires
        forall|w: Seq<char>| #[trigger] m.contains_key(w) ==> encode_utf8(w).len() > 20,
    ensures
        kept_on_load(m) == m,
{
    assert(kept_on_load(m) =~= m);
}

/// `serde_json::from_str::<HashMap<String, HashSet<i64>>>`, the map's
/// entries handed out in its own order: each wallet once, with its set.
#[verifier::external_body]
fn parse_saved(text: &str) -> (r: Option<Vec<(String, HashSet<i64>)>>)
    ensures
        r is Some <==> saved_wallets(text@) is Some,
        r matches Some(v) ==> {
            let m = saved_wallets(text@).unwrap();
            &&& forall|i: int, j: int| 0 <= i < j < v@.len() ==> v@[i].0@ != v@[j].0@
            &&& forall|i: int|
                0 <= i < v@.len() ==> m.contains_key(#[trigger] v@[i].0@) && m[v@[i].0@] == v@[i].1@
            &&& forall|w: Seq<char>|
                #[trigger] m.contains_key(w) ==> exists|i: int| 0 <= i < v@.len() && v@[i].0@ == w
        },
{
    match serde_json::from_str::<std::collections::HashMap<String, HashSet<i64>>>(text) {
        Ok(m) => Some(m.into_iter().collect()),
        Err(_) => None,
    }
}

/// `HashSet::clone`: a set with the same members.
#[verifier::external_body]
fn copy_chats(s: &HashSet<i64>) -> (r: HashSet<i64>)
    ensures
        r@ == s@,
{
    s.clone()
}

// ---------------------------------------------------------------------
// The model
// ---------------------------------------------------------------------

/// The chats tracking `w` (none when `w` is not in the map).
pub open spec fn chats_of(m: Map<Seq<char>, Set<i64>>, w: Seq<char>) -> Set<i64> {
    if m.contains_key(w) {
        m[w]
    } else {
        Set::empty()
    }
}

/// `m` after `chat` starts tracking `w`.
pub open spec fn with_subscription(m: Map<Seq<char>, Set<i64>>, w: Seq<char>, chat: i64) -> Map<
    Seq<char>,
    Set<i64>,
> {
    m.insert(w, chats_of(m, w).insert(chat))
}

/// `m` after `chat` stops tracking `w`; a wallet nobody tracked stays out,
/// and a wallet whose last chat leaves stays in with no chats.
pub open spec fn without_subscription(m: Map<Seq<char>, Set<i64>>, w: Seq<char>, chat: i64) -> Map<
    Seq<char>,
    Set<i64>,
> {
    if m.contains_key(w) {
        m.insert(w, m[w].remove(chat))
    } else {
        m
    }
}

/// `m` with `chat` taken out of every wallet's set.
pub open spec fn without_chat(m: Map<Seq<char>, Set<i64>>, chat: i64) -> Map<Seq<char>, Set<i64>> {
    Map::new(|w: Seq<char>| m.contains_key(w), |w: Seq<char>| m[w].remove(chat))
}

/// The wallets that `chat` tracks.
pub open spec fn wallets_tracked_by(m: Map<Seq<char>, Set<i64>>, chat: i64) -> Set<Seq<char>> {
    Set::new(|w: Seq<char>| m.contains_key(w) && m[w].contains(chat))
}

/// Every chat that tracks at least one wallet.
pub open spec fn all_chats(m: Map<Seq<char>, Set<i64>>) -> Set<i64> {
    Set::new(|c: i64| exists|w: Seq<char>| m.contains_key(w) && #[trigger] m[w].contains(c))
}

/// After `chat` adds `w`, it tracks `w`, and every other wallet keeps its
/// chats.
pub proof fn lemma_add_tracks(m: Map<Seq<char>, Set<i64>>, w: Seq<char>, chat: i64)
    ensures
        wallets_tracked_by(with_subscription(m, w, chat), chat).contains(w),
        chats_of(with_subscription(m, w, chat), w) == chats_of(m, w).insert(chat),
        forall|v: Seq<char>|
            v != w ==> #[trigger] chats_of(with_subscription(m, w, chat), v) == chats_of(m, v),
{
}

/// Adding the same subscription twice is the same as adding it once.
pub proof fn lemma_add_idempotent(m: Map<Seq<char>, Set<i64>>, w: Seq<char>, chat: i64)
    ensures
        with_subscription(with_subscription(m, w, chat), w, chat) == with_subscription(m, w, chat),
{
    assert(chats_of(m, w).insert(chat).insert(chat) =~= chats_of(m, w).insert(chat));
    assert(with_subscription(with_subscription(m, w, chat), w, chat) =~= with_subscription(
        m,
        w,
        chat,
    ));
}

/// After `chat` removes `w` it no longer tracks it; the other chats of `w`
/// and all other wallets are untouched.
pub proof fn lemma_remove_untracks(m: Map<Seq<char>, Set<i64>>, w: Seq<char>, chat: i64)
    ensures
        !wallets_tracked_by(without_subscription(m, w, chat), chat).contains(w),
        chats_of(without_subscription(m, w, chat), w) == chats_of(m, w).remove(chat),
        forall|v: Seq<char>|
            v != w ==> #[trigger] chats_of(without_subscription(m, w, chat), v) == chats_of(m, v),
{
    if !m.contains_key(w) {
        assert(chats_of(m, w).remove(chat) =~= Set::<i64>::empty());
    }
}

/// Removing a subscription undoes adding it: the wallet is followed by the
/// chats that followed it before (the wallet itself may stay listed, with
/// no chats).
pub proof fn lemma_remove_undoes_add(m: Map<Seq<char>, Set<i64>>, w: Seq<char>, chat: i64)
    requires
        !chats_of(m, w).contains(chat),
    ensures
        chats_of(without_subscription(with_subscription(m, w, chat), w, chat), w) == chats_of(m, w),
        forall|v: Seq<char>|
            v != w ==> #[trigger] chats_of(without_subscription(with_subscription(m, w, chat), w, chat), v)
                == chats_of(m, v),
{
    assert(chats_of(m, w).insert(chat).remove(chat) =~= chats_of(m, w));
}

/// Purging a chat takes it out of the broadcast audience and leaves every
/// other chat in it.
pub proof fn lemma_purge_leaves_audience(m: Map<Seq<char>, Set<i64>>, chat: i64)
    ensures
        all_chats(without_chat(m, chat)) == all_chats(m).remove(chat),
        without_chat(m, chat).dom() == m.dom(),
{
    let p = without_chat(m, chat);
    assert forall|c: i64| all_chats(p).contains(c) <==> all_chats(m).remove(chat).contains(c) by {
        if all_chats(p).contains(c) {
            let w = choose|w: Seq<char>| p.contains_key(w) && #[trigger] p[w].contains(c);
            assert(m[w].contains(c));
        }
        if all_chats(m).remove(chat).contains(c) {
            let w = choose|w: Seq<char>| m.contains_key(w) && #[trigger] m[w].contains(c);
            assert(p[w].contains(c));
        }
    }
    assert(all_chats(p) =~= all_chats(m).remove(chat));
    assert(p.dom() =~= m.dom());
}

/// The tracked wallets and the chats that follow each of them.
pub struct WalletRegistry {
    wallets: DashMap<String, HashSet<i64>>,
}

impl View for WalletRegistry {
    type V = Map<Seq<char>, Set<i64>>;

    closed spec fn view(&self) -> Map<Seq<char>, Set<i64>> {
        subscription_entries(self.wallets)
    }
}

impl WalletRegistry {
    /// An empty registry.
    pub fn new() -> (r: Self)
        ensures
            r@ == no_subscriptions(),
    {
        WalletRegistry { wallets: new_subscription_map() }
    }

    /// `chat` starts tracking `wallet` (creating the wallet's entry when it
    /// is new).
    pub fn add(&mut self, wallet: String, chat: i64)
        ensures
            final(self)@ == with_subscription(old(self)@, wallet@, chat),
    {
        let mut set = match subscription_get(&self.wallets, &wallet) {
            Some(s) => s,
            None => HashSet::new(),
        };
        set.insert(chat);
        subscription_insert(&mut self.wallets, wallet, set);
    }

    /// `chat` stops tracking `wallet`; nothing happens when the wallet is
    /// not in the registry.
    pub fn remove(&mut self, wallet: &String, chat: i64)
        ensures
            final(self)@ == without_subscription(old(self)@, wallet@, chat),
    {
        match subscription_get(&self.wallets, wallet) {
            Some(s) => {
                let mut set = s;
                set.remove(&chat);
                subscription_insert(&mut self.wallets, wallet.clone(), set);
            },
            None => {},
        }
    }

    /// The chats that track `wallet`.
    pub fn subscribers(&self, wallet: &String) -> (r: HashSet<i64>)
        ensures
            r@ == chats_of(self@, wallet@),
    {
        match subscription_get(&self.wallets, wallet) {
            Some(s) => s,
            None => HashSet::new(),
        }
    }

    /// Every wallet with its chats, each wallet once, in no particular
    /// order.
    pub fn entries(&self) -> (r: Vec<(String, HashSet<i64>)>)
        ensures
            forall|i: int|
                0 <= i < r@.len() ==> self@.contains_key(#[trigger] r@[i].0@) && self@[r@[i].0@]
                    == r@[i].1@,
            forall|i: int, j: int| 0 <= i < j < r@.len() ==> r@[i].0@ != r@[j].0@,
            forall|w: Seq<char>|
                #[trigger] self@.contains_key(w) ==> exists|i: int| 0 <= i < r@.len() && r@[i].0@ == w,
    {
        subscription_list(&self.wallets)
    }

    /// The wallets that `chat` tracks, each once, in no particular order.
    pub fn wallets_of(&self, chat: i64) -> (r: Vec<String>)
        ensures
            forall|i: int, j: int| 0 <= i < j < r@.len() ==> r@[i]@ != r@[j]@,
            forall|w: Seq<char>|
                wallets_tracked_by(self@, chat).contains(w) <==> exists|i: int|
                    0 <= i < r@.len() && #[trigger] r@[i]@ == w,
    {
        let all = subscription_list(&self.wallets);
        let mut r: Vec<String> = Vec::new();
        let ghost mut idx: Seq<int> = Seq::empty();
        let mut i: usize = 0;
        while i < all.len()
            invariant
                i <= all@.len(),
                forall|a: int|
                    0 <= a < all@.len() ==> self@.contains_key(#[trigger] all@[a].0@) && self@[all@[a].0@]
                        == all@[a].1@,
                forall|a: int, b: int| 0 <= a < b < all@.len() ==> all@[a].0@ != all@[b].0@,
                idx.len() == r@.len(),
                forall|k: int|
                    0 <= k < r@.len() ==> 0 <= #[trigger] idx[k] < i && r@[k]@ == all@[idx[k]].0@
                        && all@[idx[k]].1@.contains(chat),
                forall|k1: int, k2: int| 0 <= k1 < k2 < r@.len() ==> idx[k1] < idx[k2],
                forall|a: int|
                    0 <= a < i && #[trigger] all@[a].1@.contains(chat) ==> exists|k: int|
                        0 <= k < r@.len() && idx[k] == a,
            decreases all@.len() - i,
        {
            if all[i].1.contains(&chat) {
                let ghost old_idx = idx;
                r.push(all[i].0.clone());
                proof {
                    idx = idx.push(i as int);
                    assert forall|a: int|
                        0 <= a < i + 1 && #[trigger] all@[a].1@.contains(chat) implies exists|k: int|
                        0 <= k < r@.len() && idx[k] == a by {
                        if a < i {
                            let k = choose|k: int| 0 <= k < old_idx.len() && old_idx[k] == a;
                            assert(idx[k] == a);
                        } else {
                            assert(idx[idx.len() - 1] == a);
                        }
                    }
                }
            }
            i = i + 1;
        }
        proof {
            assert forall|k1: int, k2: int| 0 <= k1 < k2 < r@.len() implies r@[k1]@ != r@[k2]@ by {
                assert(idx[k1] < idx[k2]);
                assert(all@[idx[k1]].0@ != all@[idx[k2]].0@);
            }
            assert forall|w: Seq<char>|
                wallets_tracked_by(self@, chat).contains(w) <==> exists|k: int|
                    0 <= k < r@.len() && #[trigger] r@[k]@ == w by {
                if wallets_tracked_by(self@, chat).contains(w) {
                    assert(self@.contains_key(w));
                    let a = choose|a: int| 0 <= a < all@.len() && all@[a].0@ == w;
                    assert(all@[a].1@.contains(chat));
                    let k = choose|k: int| 0 <= k < r@.len() && idx[k] == a;
                    assert(r@[k]@ == w);
                }
                if exists|k: int| 0 <= k < r@.len() && #[trigger] r@[k]@ == w {
                    let k = choose|k: int| 0 <= k < r@.len() && #[trigger] r@[k]@ == w;
                    assert(all@[idx[k]].1@.contains(chat));
                }
            }
        }
        r
    }

    /// Every chat that tracks at least one wallet (the audience of a
    /// broadcast).
    pub fn all_users(&self) -> (r: HashSet<i64>)
        ensures
            r@ == all_chats(self@),
    {
        let all = subscription_list(&self.wallets);
        let mut users: HashSet<i64> = HashSet::new();
        let mut i: usize = 0;
        while i < all.len()
            invariant
                i <= all@.len(),
                forall|a: int|
                    0 <= a < all@.len() ==> self@.contains_key(#[trigger] all@[a].0@) && self@[all@[a].0@]
                        == all@[a].1@,
                forall|w: Seq<char>|
                    #[trigger] self@.contains_key(w) ==> exists|a: int|
                        0 <= a < all@.len() && all@[a].0@ == w,
                forall|c: i64|
                    users@.contains(c) <==> exists|a: int|
                        0 <= a < i && #[trigger] all@[a].1@.contains(c),
            decreases all@.len() - i,
        {
            let set = &all[i].1;
            let ghost before = users@;
            proof {
                axiom_spec_hash_keys_iter(set);
            }
            for u in it: set.iter()
                invariant
                    it.seq() == spec_hash_keys_iter(set).remaining(),
                    it.seq().unref().to_set() == set@,
                    users@ == before + it.seq().take(it.index() as int).unref().to_set(),
                    it.index() == it.seq().len() ==> users@ == before + set@,
            {
                users.insert(*u);
                proof {
                    let prefix = it.seq().take(it.index() as int).unref();
                    assert(it.seq().take(it.index() + 1).unref() =~= prefix.push(*u));
                    prefix.lemma_push_to_set_commute(*u);
                    assert(it.seq().take(it.seq().len() as int) =~= it.seq());
                }
            }
            assert(users@ == before + set@);
            assert forall|c: i64|
                users@.contains(c) <==> exists|a: int|
                    0 <= a < i + 1 && #[trigger] all@[a].1@.contains(c) by {
                if set@.contains(c) {
                    assert(all@[i as int].1@.contains(c));
                }
            }
            i = i + 1;
        }
        proof {
            assert forall|c: i64| users@.contains(c) <==> all_chats(self@).contains(c) by {
                if users@.contains(c) {
                    let a = choose|a: int| 0 <= a < i && #[trigger] all@[a].1@.contains(c);
                    assert(self@[all@[a].0@].contains(c));
                }
                if all_chats(self@).contains(c) {
                    let w = choose|w: Seq<char>| self@.contains_key(w) && #[trigger] self@[w].contains(c);
                    let a = choose|a: int| 0 <= a < all@.len() && all@[a].0@ == w;
                    assert(all@[a].1@.contains(c));
                }
            }
        }
        assert(users@ =~= all_chats(self@));
        users
    }

    /// Takes `chat` out of every wallet's set (a chat that can no longer be
    /// reached); the wallets themselves stay.
    pub fn purge_chat(&mut self, chat: i64)
        ensures
            final(self)@ == without_chat(old(self)@, chat),
    {
        let ghost start = self@;
        let all = subscription_list(&self.wallets);
        let mut i: usize = 0;
        while i < all.len()
            invariant
                i <= all@.len(),
                forall|a: int|
                    0 <= a < all@.len() ==> start.contains_key(#[trigger] all@[a].0@) && start[all@[a].0@]
                        == all@[a].1@,
                forall|a: int, b: int| 0 <= a < b < all@.len() ==> all@[a].0@ != all@[b].0@,
                forall|w: Seq<char>|
                    #[trigger] start.contains_key(w) ==> exists|a: int|
                        0 <= a < all@.len() && all@[a].0@ == w,
                forall|w: Seq<char>| #[trigger] self@.contains_key(w) <==> start.contains_key(w),
                forall|a: int|
                    0 <= a < all@.len() ==> #[trigger] self@[all@[a].0@] == if a < i {
                        start[all@[a].0@].remove(chat)
                    } else {
                        start[all@[a].0@]
                    },
            decreases all@.len() - i,
        {
            let ghost before = self@;
            let mut set = copy_chats(&all[i].1);
            set.remove(&chat);
            subscription_insert(&mut self.wallets, all[i].0.clone(), set);
            assert(self@ == before.insert(all@[i as int].0@, start[all@[i as int].0@].remove(chat)));
            assert forall|w: Seq<char>| #[trigger] self@.contains_key(w) <==> start.contains_key(w) by {
                if w != all@[i as int].0@ {
                    assert(self@.contains_key(w) == before.contains_key(w));
                }
            }
            assert forall|a: int| 0 <= a < all@.len() implies #[trigger] self@[all@[a].0@] == if a < i
                + 1 {
                start[all@[a].0@].remove(chat)
            } else {
                start[all@[a].0@]
            } by {
                if a != i {
                    assert(all@[a].0@ != all@[i as int].0@);
                    assert(self@[all@[a].0@] == before[all@[a].0@]);
                }
            }
            i = i + 1;
        }
        assert forall|w: Seq<char>| #[trigger] self@.contains_key(w) implies self@[w]
            == start[w].remove(chat) by {
            let a = choose|a: int| 0 <= a < all@.len() && all@[a].0@ == w;
        }
        assert(self@ =~= without_chat(start, chat));
    }

    /// A registry holding the saved entries whose wallet is longer than 20
    /// bytes (shorter keys are leftovers, not addresses); `saved` lists each
    /// wallet at most once, as the saved map does.
    pub fn from_saved(saved: Vec<(String, HashSet<i64>)>) -> (r: Self)
        requires
            forall|i: int, j: int| 0 <= i < j < saved@.len() ==> saved@[i].0@ != saved@[j].0@,
        ensures
            forall|w: Seq<char>|
                r@.contains_key(w) <==> exists|i: int|
                    0 <= i < saved@.len() && #[trigger] saved@[i].0@ == w && encode_utf8(w).len() > 20,
            forall|i: int|
                0 <= i < saved@.len() && encode_utf8(#[trigger] saved@[i].0@).len() > 20 ==> r@[saved@[
                    i
                ].0@] == saved@[i].1@,
    {
        let mut wallets = new_subscription_map();
        let mut i: usize = 0;
        while i < saved.len()
            invariant
                i <= saved@.len(),
                forall|a: int, b: int| 0 <= a < b < saved@.len() ==> saved@[a].0@ != saved@[b].0@,
                forall|w: Seq<char>|
                    subscription_entries(wallets).contains_key(w) <==> exists|a: int|
                        0 <= a < i && #[trigger] saved@[a].0@ == w && encode_utf8(w).len() > 20,
                forall|a: int|
                    0 <= a < i && encode_utf8(#[trigger] saved@[a].0@).len() > 20 ==> subscription_entries(
                        wallets,
                    )[saved@[a].0@] == saved@[a].1@,
            decreases saved@.len() - i,
        {
            let key = &saved[i].0;
            let blen = key.as_str().as_bytes().len();
            assert(blen == encode_utf8(key@).len());
            if blen > 20 {
                let ghost before = subscription_entries(wallets);
                subscription_insert(&mut wallets, key.clone(), copy_chats(&saved[i].1));
                assert forall|w: Seq<char>|
                    subscription_entries(wallets).contains_key(w) <==> exists|a: int|
                        0 <= a < i + 1 && #[trigger] saved@[a].0@ == w && encode_utf8(w).len()
                            > 20 by {
                    if w == saved@[i as int].0@ {
                        assert(saved@[i as int].0@ == w);
                    }
                }
            } else {
                assert forall|w: Seq<char>|
                    subscription_entries(wallets).contains_key(w) <==> exists|a: int|
                        0 <= a < i + 1 && #[trigger] saved@[a].0@ == w && encode_utf8(w).len()
                            > 20 by {
                    if exists|a: int|
                        0 <= a < i + 1 && #[trigger] saved@[a].0@ == w && encode_utf8(w).len() > 20 {
                        let a = choose|a: int|
                            0 <= a < i + 1 && #[trigger] saved@[a].0@ == w && encode_utf8(w).len()
                                > 20;
                    }
                }
            }
            i = i + 1;
        }
        WalletRegistry { wallets }
    }

    /// The registry saved in `text` (the content of the registry file):
    /// `None` when the text is not a saved registry; otherwise its wallets
    /// longer than 20 bytes, with their chats.
    pub fn load_saved(text: &str) -> (r: Option<Self>)
        ensures
            r is Some <==> saved_wallets(text@) is Some,
            r matches Some(reg) ==> reg@ == kept_on_load(saved_wallets(text@).unwrap()),
    {
        match parse_saved(text) {
            Some(saved) => {
                let ghost v = saved@;
                let reg = Self::from_saved(saved);
                proof {
                    let m = saved_wallets(text@).unwrap();
                    assert forall|w: Seq<char>|
                        #[trigger] reg@.contains_key(w) <==> m.contains_key(w) && encode_utf8(w).len() > 20 by {
                        if m.contains_key(w) && encode_utf8(w).len() > 20 {
                            let i = choose|i: int| 0 <= i < v.len() && v[i].0@ == w;
                            assert(v[i].0@ == w);
                        }
                    }
                    assert forall|w: Seq<char>| #[trigger] reg@.contains_key(w) implies reg@[w] == m[w] by {
                        let i = choose|i: int|
                            0 <= i < v.len() && #[trigger] v[i].0@ == w && encode_utf8(w).len() > 20;
                        assert(encode_utf8(v[i].0@).len() > 20);
                    }
                    assert(reg@ =~= kept_on_load(m));
                }
                Some(reg)
            },
            None => None,
        }
    }

    /// The text of the registry file: `serde_json` reads it back as this
    /// registry's map.
    pub fn save_text(&self) -> (r: String)
        ensures
            saved_wallets(r@) == Some(self@),
    {
        let entries = self.entries();
        let r = saved_text(&entries);
        proof {
            let m = saved_wallets(r@).unwrap();
            assert forall|w: Seq<char>| #[trigger] m.contains_key(w) <==> self@.contains_key(w) by {
                if m.contains_key(w) {
                    let i = choose|i: int| 0 <= i < entries@.len() && entries@[i].0@ == w;
                    assert(self@.contains_key(entries@[i].0@));
                }
            }
            assert forall|w: Seq<char>| #[trigger] m.contains_key(w) implies m[w] == self@[w] by {
                let i = choose|i: int| 0 <= i < entries@.len() && entries@[i].0@ == w;
                assert(m[entries@[i].0@] == entries@[i].1@);
            }
            assert(m =~= self@);
        }
        r
    }
}

} // verus!
