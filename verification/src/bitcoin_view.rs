//! Payments: live chain data, orders grouped by payment status, and the
//! user's private watch list.

use crate::base58;
use crate::bytes;
use crate::order;
use crate::payment::{AuthorizedOrder, BitcoinNetwork, Order, OrderStatus};
use crate::seqs;
use crate::text;
use vstd::prelude::*;

verus! {

/// Which network the section shows: that of the first thing watched, else the
/// configured bridge's, else the build's default.
pub fn active_network(
    watches: &Vec<WatchedPayment>,
    bridge: Option<BitcoinNetwork>,
    default: BitcoinNetwork,
) -> (r: BitcoinNetwork)
    ensures
        r == (if watches@.len() > 0 {
            watches@[0].network
        } else {
            match bridge {
                Some(network) => network,
                None => default,
            }
        }),
{
    if watches.len() > 0 {
        return watches[0].network;
    }
    match bridge {
        Some(network) => network,
        None => default,
    }
}

/// A loaded store, as far as its seller's book reads it.
pub struct BookStore {
    /// One of this node's own Ghost Keys owns it.
    pub owned: bool,
    /// Buyers may pay it: it is open, and backed.
    pub payable: bool,
    pub orders: Vec<AuthorizedOrder>,
}

/// Whether an order of a store is in the seller's book: one that awaits
/// payment is left out where the store must not be paid.
pub open spec fn in_book(o: AuthorizedOrder, payable: bool) -> bool {
    payable || o.status != OrderStatus::AwaitingPayment
}

/// The orders of the stores this node owns that are in the book, store by
/// store.
pub open spec fn book(stores: Seq<BookStore>) -> Seq<AuthorizedOrder>
    decreases stores.len(),
{
    if stores.len() == 0 {
        Seq::empty()
    } else {
        let s = stores.last();
        if s.owned {
            book(stores.drop_last()) + s.orders@.filter(
                |o: AuthorizedOrder| in_book(o, s.payable),
            )
        } else {
            book(stores.drop_last())
        }
    }
}

/// Every order in the stores this node's own Ghost Keys own, newest first.
///
/// Only the seller's: an order names its buyer by a word the seller wrote, and
/// each card shows a payment address, so a buyer's orders are shown only where
/// they are checked to be theirs.
pub fn my_orders<'a>(stores: &'a Vec<BookStore>) -> (r: Vec<&'a AuthorizedOrder>)
    ensures
        order::is_sorted_from(order::behind(r@), book(stores@)),
{
    let mut listed: Vec<&'a AuthorizedOrder> = Vec::new();
    let mut i: usize = 0;
    assert(stores@.take(0) =~= Seq::empty());
    assert(order::behind(listed@) =~= Seq::empty());
    while i < stores.len()
        invariant
            i <= stores.len(),
            order::behind(listed@) == book(stores@.take(i as int)),
        decreases stores.len() - i,
    {
        let store = &stores[i];
        let ghost before = order::behind(listed@);
        let ghost keep = |o: AuthorizedOrder| in_book(o, store.payable);
        assert(stores@.take(i + 1).drop_last() =~= stores@.take(i as int));
        assert(stores@.take(i + 1).last() == *store);
        if store.owned {
            let mut j: usize = 0;
            proof {
                seqs::lemma_filter_none(store.orders@, keep);
                assert(order::behind(listed@) =~= before + store.orders@.take(0).filter(keep));
            }
            while j < store.orders.len()
                invariant
                    j <= store.orders.len(),
                    keep == (|o: AuthorizedOrder| in_book(o, store.payable)),
                    order::behind(listed@) == before + store.orders@.take(j as int).filter(keep),
                decreases store.orders.len() - j,
            {
                proof {
                    seqs::lemma_filter_step(store.orders@, keep, j as int);
                }
                let o = &store.orders[j];
                if store.payable || o.status != OrderStatus::AwaitingPayment {
                    let ghost refs = listed@;
                    listed.push(o);
                    assert(order::behind(listed@) =~= order::behind(refs).push(*o));
                    assert((before + store.orders@.take(j as int).filter(keep)).push(*o)
                        =~= before + store.orders@.take(j as int).filter(keep).push(*o));
                }
                j = j + 1;
            }
            assert(store.orders@.take(j as int) =~= store.orders@);
        }
        i = i + 1;
    }
    assert(stores@.take(i as int) =~= stores@);
    order::sort_refs(listed)
}

/// How well chain data is arriving.
#[derive(Debug, Clone, Copy, PartialEq, Eq, Structural)]
pub enum BridgeHealth {
    /// No bridge is configured, and no chain data has come.
    NotConfigured,
    /// Chain data may still come.
    WaitingForData,
    Online,
    /// The last block is an hour old or more.
    Stale,
}

/// One block of the chain.
#[derive(Debug, Clone, Copy, PartialEq, Eq, Structural)]
pub struct BlockRow {
    pub height: u32,
    /// In seconds since the epoch.
    pub block_time: u32,
    pub tx_count: u32,
}

/// What is known of the chain's tip.
#[derive(Debug, Clone, PartialEq, Eq)]
pub struct TipView {
    pub tip_height: Option<u32>,
    /// The last block's time, in seconds since the epoch.
    pub last_block_time: Option<u32>,
    pub recent_blocks: Vec<BlockRow>,
}

/// How long ago `then` was, and nothing where it is yet to come.
pub open spec fn seconds_since(now_secs: int, then: int) -> int {
    if now_secs > then {
        now_secs - then
    } else {
        0
    }
}

/// How well chain data is arriving. Health is judged on whether chain data
/// arrives, not on whether a bridge is configured: the tip needs no bridge.
/// On a network whose blocks are mined by hand, their age says nothing.
pub fn bridge_health(
    bridge_loaded: bool,
    bridge_configured: bool,
    network: BitcoinNetwork,
    tip: &Option<TipView>,
    now_secs: i64,
) -> (r: BridgeHealth)
    ensures
        r == (match *tip {
            None => if bridge_loaded && !bridge_configured {
                BridgeHealth::NotConfigured
            } else {
                BridgeHealth::WaitingForData
            },
            Some(tip) => match tip.last_block_time {
                None => BridgeHealth::WaitingForData,
                Some(t) => if network == BitcoinNetwork::Regtest || seconds_since(
                    now_secs as int,
                    t as int,
                ) < 3600 {
                    BridgeHealth::Online
                } else {
                    BridgeHealth::Stale
                },
            },
        }),
{
    let tip = match tip {
        Some(tip) => tip,
        None => {
            return if bridge_loaded && !bridge_configured {
                BridgeHealth::NotConfigured
            } else {
                BridgeHealth::WaitingForData
            };
        },
    };
    let last = match tip.last_block_time {
        Some(last) => last,
        None => {
            return BridgeHealth::WaitingForData;
        },
    };
    if network == BitcoinNetwork::Regtest {
        return BridgeHealth::Online;
    }
    let age: i64 = if now_secs > last as i64 {
        now_secs - last as i64
    } else {
        0
    };
    if age < 3600 {
        BridgeHealth::Online
    } else {
        BridgeHealth::Stale
    }
}

/// The status bar's dot and words.
pub fn health_words(health: BridgeHealth) -> (r: (&'static str, &'static str))
    ensures
        (match health {
            BridgeHealth::NotConfigured => r.0@ == "btc-dot unknown"@ && r.1@
                == "No chain data yet -- no bridge is publishing for this network"@,
            BridgeHealth::WaitingForData => r.0@ == "btc-dot unknown"@ && r.1@
                == "Connecting to the Bitcoin bridge\u{2026}"@,
            BridgeHealth::Online => r.0@ == "btc-dot online"@ && r.1@ == "Online"@,
            BridgeHealth::Stale => r.0@ == "btc-dot offline"@ && r.1@
                == "No recent blocks -- bridge may be behind"@,
        }),
{
    match health {
        BridgeHealth::NotConfigured => (
            "btc-dot unknown",
            "No chain data yet -- no bridge is publishing for this network",
        ),
        BridgeHealth::WaitingForData => (
            "btc-dot unknown",
            "Connecting to the Bitcoin bridge\u{2026}",
        ),
        BridgeHealth::Online => ("btc-dot online", "Online"),
        BridgeHealth::Stale => ("btc-dot offline", "No recent blocks -- bridge may be behind"),
    }
}

/// Whether a user who has neither orders, nor purchases, nor watches sees the
/// live-data panel instead of an empty table.
pub fn shows_first_run(watches_loaded: bool, watches: usize, orders: usize, kept_purchases: usize) -> (r:
    bool)
    ensures
        r == (watches_loaded && watches == 0 && orders == 0 && kept_purchases == 0),
{
    watches_loaded && watches == 0 && orders == 0 && kept_purchases == 0
}

/// A run of an amount and its unit, in the past: "3 minutes ago".
pub open spec fn ago(n: nat, unit: Seq<char>) -> Seq<char> {
    text::decimal(n) + " "@ + unit + (if n == 1 {
        ""@
    } else {
        "s"@
    }) + " ago"@
}

/// How long ago a block was, in words.
pub open spec fn time_ago(delta: nat) -> Seq<char> {
    if delta < 60 {
        "just now"@
    } else if delta < 3600 {
        ago(delta / 60, "minute"@)
    } else if delta < 86_400 {
        ago(delta / 3600, "hour"@)
    } else {
        ago(delta / 86_400, "day"@)
    }
}

fn ago_text(n: u64, unit: &str) -> (r: String)
    ensures
        r@ == ago(n as nat, unit@),
{
    let mut r = text::decimal_text(n);
    r.append(" ");
    r.append(unit);
    r.append(
        if n == 1 {
            ""
        } else {
            "s"
        },
    );
    r.append(" ago");
    r
}

/// How long ago a block was, against the local clock.
pub fn relative_time_ago(unix_secs: u32, now_secs: i64) -> (r: String)
    ensures
        r@ == time_ago(seconds_since(now_secs as int, unix_secs as int) as nat),
{
    let delta: u64 = if now_secs > unix_secs as i64 {
        (now_secs - unix_secs as i64) as u64
    } else {
        0
    };
    if delta < 60 {
        "just now".to_string()
    } else if delta < 3600 {
        ago_text(delta / 60, "minute")
    } else if delta < 86_400 {
        ago_text(delta / 3600, "hour")
    } else {
        ago_text(delta / 86_400, "day")
    }
}

/// How an order's status groups it.
#[derive(Debug, Clone, Copy, PartialEq, Eq, Structural)]
pub enum OrderGroup {
    Awaiting,
    Paid,
    Other,
}

/// How a status groups an order.
pub open spec fn group_of(status: OrderStatus) -> OrderGroup {
    match status {
        OrderStatus::AwaitingPayment => OrderGroup::Awaiting,
        OrderStatus::Paid => OrderGroup::Paid,
        OrderStatus::Cancelled => OrderGroup::Other,
        OrderStatus::PaymentReversed => OrderGroup::Other,
    }
}

/// The orders of one group, in the order they are in.
pub fn orders_in_group<'a>(orders: &Vec<&'a AuthorizedOrder>, group: OrderGroup) -> (r: Vec<
    &'a AuthorizedOrder,
>)
    ensures
        r@ == orders@.filter(|o: &AuthorizedOrder| group_of(o.status) == group),
{
    let ghost keep = |o: &AuthorizedOrder| group_of(o.status) == group;
    let mut r: Vec<&'a AuthorizedOrder> = Vec::new();
    let mut i: usize = 0;
    proof {
        seqs::lemma_filter_none(orders@, keep);
    }
    while i < orders.len()
        invariant
            i <= orders.len(),
            keep == (|o: &AuthorizedOrder| group_of(o.status) == group),
            r@ == orders@.take(i as int).filter(keep),
        decreases orders.len() - i,
    {
        proof {
            seqs::lemma_filter_step(orders@, keep, i as int);
        }
        let which = match orders[i].status {
            OrderStatus::AwaitingPayment => OrderGroup::Awaiting,
            OrderStatus::Paid => OrderGroup::Paid,
            OrderStatus::Cancelled => OrderGroup::Other,
            OrderStatus::PaymentReversed => OrderGroup::Other,
        };
        if which == group {
            r.push(orders[i]);
        }
        i = i + 1;
    }
    assert(orders@.take(i as int) =~= orders@);
    r
}

/// How one transaction stands.
#[derive(Debug, Clone, Copy, PartialEq, Eq, Structural)]
pub enum TxRowStatus {
    Unconfirmed,
    Confirmed { anchor_height: u32 },
    Retracted,
}

/// One transaction to an address.
#[derive(Debug, Clone, PartialEq, Eq)]
pub struct TxRow {
    pub txid_display: String,
    pub value_sats: u64,
    pub status: TxRowStatus,
}

/// How a transaction's row says it stands.
pub fn tx_status_words(status: TxRowStatus) -> (r: &'static str)
    ensures
        r@ == (match status {
            TxRowStatus::Unconfirmed => "unconfirmed"@,
            TxRowStatus::Confirmed { .. } => "confirmed"@,
            TxRowStatus::Retracted => "reversed"@,
        }),
{
    match status {
        TxRowStatus::Unconfirmed => "unconfirmed",
        TxRowStatus::Confirmed { .. } => "confirmed",
        TxRowStatus::Retracted => "reversed",
    }
}

/// What has arrived at an address.
#[derive(Debug, Clone, PartialEq, Eq)]
pub struct AddressView {
    /// The contract that follows the address.
    pub instance_id: Vec<u8>,
    pub confirmed_sats: u64,
    pub pending_sats: u64,
    pub txs: Vec<TxRow>,
}

/// An address the user watches.
#[derive(Debug, Clone, PartialEq, Eq)]
pub struct WatchedPayment {
    pub network: BitcoinNetwork,
    pub script_pubkey: Vec<u8>,
    pub address: String,
    pub label: Option<String>,
    /// The order the watch is for, if it is for one.
    pub order_id: Option<[u8; 32]>,
    /// The contract that follows the address, in base58, once it is known.
    pub contract_id: Option<String>,
}

/// The address followed by the contract `id`.
pub open spec fn address_at(addresses: Seq<AddressView>, id: Seq<u8>) -> Option<AddressView> {
    seqs::find_first(addresses, |a: AddressView| a.instance_id@ == id)
}

/// The watch on the script and network of `order`.
pub open spec fn watch_for(watches: Seq<WatchedPayment>, order: Order) -> Option<WatchedPayment> {
    seqs::find_first(
        watches,
        |w: WatchedPayment|
            w.network == order.network && w.script_pubkey@ == order.payment_script_pubkey@,
    )
}

/// The address a watch names, if it is known.
pub open spec fn watched_address(addresses: Seq<AddressView>, watch: WatchedPayment) -> Option<
    AddressView,
> {
    match watch.contract_id {
        Some(id) => match base58::base58_bytes(id@) {
            Some(id) => address_at(addresses, id),
            None => None,
        },
        None => None,
    }
}

/// What has arrived for an order: at the address its own terms name, where
/// something is known of it, and at a watched address otherwise.
pub open spec fn live_address(
    addresses: Seq<AddressView>,
    watches: Seq<WatchedPayment>,
    order: Order,
) -> Option<AddressView> {
    let own = match order.address_instance_id {
        Some(id) => address_at(addresses, id@),
        None => None,
    };
    if own is Some {
        own
    } else {
        match watch_for(watches, order) {
            Some(watch) => watched_address(addresses, watch),
            None => None,
        }
    }
}

fn find_address<'a>(addresses: &'a Vec<AddressView>, id: &[u8]) -> (r: Option<&'a AddressView>)
    ensures
        (match r {
            Some(a) => address_at(addresses@, id@) == Some(*a),
            None => address_at(addresses@, id@) is None,
        }),
{
    let ghost want = |a: AddressView| a.instance_id@ == id@;
    let mut i: usize = 0;
    while i < addresses.len()
        invariant
            i <= addresses.len(),
            want == (|a: AddressView| a.instance_id@ == id@),
            forall|j: int| 0 <= j < i ==> !want(#[trigger] addresses@[j]),
        decreases addresses.len() - i,
    {
        if bytes::same_bytes(&addresses[i].instance_id, id) {
            proof {
                seqs::lemma_find_first(addresses@, want, i as int);
            }
            return Some(&addresses[i]);
        }
        i = i + 1;
    }
    proof {
        seqs::lemma_find_first(addresses@, want, i as int);
    }
    None
}

/// The address a watch names, if it is known.
pub fn address_of_watch<'a>(addresses: &'a Vec<AddressView>, watch: &WatchedPayment) -> (r: Option<
    &'a AddressView,
>)
    ensures
        (match r {
            Some(a) => watched_address(addresses@, *watch) == Some(*a),
            None => watched_address(addresses@, *watch) is None,
        }),
{
    match &watch.contract_id {
        Some(id) => match base58::decode(id) {
            Some(id) => find_address(addresses, &id),
            None => None,
        },
        None => None,
    }
}

/// What has arrived for an order.
///
/// The order's own terms decide first, so that what is shown is the address
/// the order actually names; a watch is consulted only where they yield
/// nothing.
pub fn live_address_for_order<'a>(
    addresses: &'a Vec<AddressView>,
    watches: &Vec<WatchedPayment>,
    order: &Order,
) -> (r: Option<&'a AddressView>)
    ensures
        (match r {
            Some(a) => live_address(addresses@, watches@, *order) == Some(*a),
            None => live_address(addresses@, watches@, *order) is None,
        }),
{
    if let Some(id) = &order.address_instance_id {
        if let Some(view) = find_address(addresses, id) {
            return Some(view);
        }
    }
    let ghost want = |w: WatchedPayment|
        w.network == order.network && w.script_pubkey@ == order.payment_script_pubkey@;
    let mut i: usize = 0;
    while i < watches.len()
        invariant
            i <= watches.len(),
            want == (|w: WatchedPayment|
                w.network == order.network && w.script_pubkey@ == order.payment_script_pubkey@),
            forall|j: int| 0 <= j < i ==> !want(#[trigger] watches@[j]),
            order.address_instance_id matches Some(id) ==> address_at(addresses@, id@) is None,
        decreases watches.len() - i,
    {
        let watch = &watches[i];
        if watch.network == order.network && bytes::same_bytes(
            &watch.script_pubkey,
            &order.payment_script_pubkey,
        ) {
            proof {
                seqs::lemma_find_first(watches@, want, i as int);
            }
            return address_of_watch(addresses, watch);
        }
        i = i + 1;
    }
    proof {
        seqs::lemma_find_first(watches@, want, i as int);
    }
    None
}

/// Where the order's own terms name an address that something is known of, no
/// watch decides what is shown.
pub proof fn the_orders_own_terms_decide(
    addresses: Seq<AddressView>,
    watches: Seq<WatchedPayment>,
    other: Seq<WatchedPayment>,
    order: Order,
    id: Vec<u8>,
)
    requires
        order.address_instance_id == Some(id),
        address_at(addresses, id@) is Some,
    ensures
        live_address(addresses, watches, order) == address_at(addresses, id@),
        live_address(addresses, other, order) == live_address(addresses, watches, order),
{
}

/// The bridges among `bridges` that are not among `recognised`, in base58.
pub open spec fn strangers(bridges: Seq<[u8; 32]>, recognised: Seq<Seq<char>>) -> Seq<Seq<char>> {
    bridges.map_values(|b: [u8; 32]| base58::base58(b@)).filter(
        |id: Seq<char>| !recognised.contains(id),
    )
}

/// The bridges named by this invoice that this build does not recognise.
///
/// Two invoices of one store may name different bridges, so a buyer has to
/// look at this for each invoice: one whose "Paid" would rest on a stranger's
/// signature says so before any coin is sent.
pub fn unrecognised_bridges(order: &Order, recognised: &Vec<String>) -> (r: Vec<String>)
    ensures
        text::texts(r@) == strangers(order.trusted_bridges@, text::texts(recognised@)),
{
    let ghost ids = order.trusted_bridges@.map_values(|b: [u8; 32]| base58::base58(b@));
    let ghost keep = |id: Seq<char>| !text::texts(recognised@).contains(id);
    let mut r: Vec<String> = Vec::new();
    let mut i: usize = 0;
    proof {
        seqs::lemma_filter_none(ids, keep);
        assert(text::texts(r@) =~= Seq::empty());
    }
    while i < order.trusted_bridges.len()
        invariant
            i <= order.trusted_bridges.len(),
            ids == order.trusted_bridges@.map_values(|b: [u8; 32]| base58::base58(b@)),
            keep == (|id: Seq<char>| !text::texts(recognised@).contains(id)),
            text::texts(r@) == ids.take(i as int).filter(keep),
        decreases order.trusted_bridges.len() - i,
    {
        proof {
            seqs::lemma_filter_step(ids, keep, i as int);
        }
        let id = base58::encode(&order.trusted_bridges[i]);
        if !is_among(&id, recognised) {
            let ghost before = r@;
            r.push(id);
            assert(text::texts(r@) =~= text::texts(before).push(id@));
        }
        i = i + 1;
    }
    assert(ids.take(i as int) =~= ids);
    r
}

/// Whether a text is one of a list.
pub fn is_among(s: &str, list: &Vec<String>) -> (r: bool)
    ensures
        r == text::texts(list@).contains(s@),
{
    let mut i: usize = 0;
    while i < list.len()
        invariant
            i <= list.len(),
            forall|j: int| 0 <= j < i ==> (#[trigger] text::texts(list@)[j]) != s@,
        decreases list.len() - i,
    {
        assert(text::texts(list@)[i as int] == list@[i as int]@);
        if text::same_text(&list[i], s) {
            return true;
        }
        i = i + 1;
    }
    false
}

/// The first eight characters of a bridge's id.
pub open spec fn short(id: Seq<char>) -> Seq<char> {
    if id.len() < 8 {
        id
    } else {
        id.take(8)
    }
}

/// Short, quotable form of a bridge id, for a line that has to fit on a card.
pub fn short_bridge(id: &str) -> (r: String)
    ensures
        r@ == short(id@),
{
    let n: usize = id.unicode_len();
    if n < 8 {
        id.to_string()
    } else {
        assert(id@.take(8) =~= id@.subrange(0, 8));
        id.substring_char(0, 8).to_string()
    }
}

/// The short forms of `ids`, separated by `, `.
pub open spec fn short_list(ids: Seq<Seq<char>>) -> Seq<char> {
    text::joined(ids.map_values(|id: Seq<char>| short(id)), ", "@)
}

fn short_list_text(ids: &Vec<String>) -> (r: String)
    ensures
        r@ == short_list(text::texts(ids@)),
{
    let ghost all = text::texts(ids@).map_values(|id: Seq<char>| short(id));
    let mut shorter: Vec<String> = Vec::new();
    let mut i: usize = 0;
    while i < ids.len()
        invariant
            i <= ids.len(),
            all == text::texts(ids@).map_values(|id: Seq<char>| short(id)),
            text::texts(shorter@) =~= all.take(i as int),
        decreases ids.len() - i,
    {
        let ghost before = shorter@;
        shorter.push(short_bridge(&ids[i]));
        assert(text::texts(shorter@) =~= text::texts(before).push(all[i as int]));
        assert(all.take(i + 1) =~= all.take(i as int).push(all[i as int]));
        i = i + 1;
    }
    assert(all.take(i as int) =~= all);
    text::join(&shorter, ", ")
}

/// What a card says about an invoice's bridges.
#[derive(Debug, Clone, PartialEq, Eq)]
pub enum BridgeNote {
    /// No bridge named: the invoice can never be proven paid.
    NoBridge,
    /// Every named bridge is one this build trusts.
    Recognised(String),
    /// At least one named bridge is a stranger.
    Unrecognised(String),
}

/// Whether a note is what a card says about an invoice's bridges.
pub open spec fn bridge_note_fits(
    note: BridgeNote,
    bridges: Seq<[u8; 32]>,
    recognised: Seq<Seq<char>>,
) -> bool {
    let all = bridges.map_values(|b: [u8; 32]| base58::base58(b@));
    let unknown = strangers(bridges, recognised);
    if bridges.len() == 0 {
        note is NoBridge
    } else if unknown.len() == 0 {
        note matches BridgeNote::Recognised(ids) && ids@ == short_list(all)
    } else {
        note matches BridgeNote::Unrecognised(ids) && ids@ == short_list(unknown)
    }
}

/// What a card says about an invoice's bridges: the strangers where there are
/// any, and all of them otherwise, each shortened.
pub fn bridge_note(order: &Order, recognised: &Vec<String>) -> (r: BridgeNote)
    ensures
        bridge_note_fits(r, order.trusted_bridges@, text::texts(recognised@)),
{
    if order.trusted_bridges.len() == 0 {
        return BridgeNote::NoBridge;
    }
    let unknown = unrecognised_bridges(order, recognised);
    assert(text::texts(unknown@).len() == unknown@.len());
    if unknown.len() > 0 {
        return BridgeNote::Unrecognised(short_list_text(&unknown));
    }
    let ghost all = order.trusted_bridges@.map_values(|b: [u8; 32]| base58::base58(b@));
    let mut ids: Vec<String> = Vec::new();
    let mut i: usize = 0;
    while i < order.trusted_bridges.len()
        invariant
            i <= order.trusted_bridges.len(),
            all == order.trusted_bridges@.map_values(|b: [u8; 32]| base58::base58(b@)),
            text::texts(ids@) =~= all.take(i as int),
        decreases order.trusted_bridges.len() - i,
    {
        let ghost before = ids@;
        ids.push(base58::encode(&order.trusted_bridges[i]));
        assert(text::texts(ids@) =~= text::texts(before).push(all[i as int]));
        assert(all.take(i + 1) =~= all.take(i as int).push(all[i as int]));
        i = i + 1;
    }
    assert(all.take(i as int) =~= all);
    BridgeNote::Recognised(short_list_text(&ids))
}

/// What an invoice's card says about its own payment destination.
#[derive(Debug, Clone, Copy, PartialEq, Eq, Structural)]
pub enum DestinationNote {
    /// The address denotes exactly the script that settles this order.
    Agrees,
    /// The address is well-formed and denotes a different script.
    Contradicts,
    /// The address cannot be read for this network, so nothing can be said
    /// about it, which is itself a reason not to pay it.
    Unreadable,
}

/// What an order's destination is, given the script its address denotes.
pub open spec fn destination_of(order: Order, address_script: Option<Vec<u8>>) -> DestinationNote {
    match address_script {
        Some(script) => if script@ == order.payment_script_pubkey@ {
            DestinationNote::Agrees
        } else {
            DestinationNote::Contradicts
        },
        None => DestinationNote::Unreadable,
    }
}

impl DestinationNote {
    /// What a card says of an order whose address denotes `address_script`;
    /// `None` is an address that cannot be read for the order's network.
    ///
    /// An order carries the address a person reads and the script that
    /// settles it, and the seller's signature covers both, so it proves that
    /// the seller wrote them and not that they agree.
    pub fn of(order: &Order, address_script: &Option<Vec<u8>>) -> (r: DestinationNote)
        ensures
            r == destination_of(*order, *address_script),
    {
        match address_script {
            Some(script) => if bytes::same_bytes(script, &order.payment_script_pubkey) {
                DestinationNote::Agrees
            } else {
                DestinationNote::Contradicts
            },
            None => DestinationNote::Unreadable,
        }
    }

    /// Whether the address is safe to put in front of somebody to pay.
    pub fn payable(self) -> (r: bool)
        ensures
            r == (self == DestinationNote::Agrees),
    {
        self == DestinationNote::Agrees
    }
}

/// What an invoice's card shows where the address would be.
#[derive(Debug, Clone, Copy, PartialEq, Eq)]
pub enum AddressPanel {
    /// Nothing: there is nothing to pay.
    Nothing,
    /// The address, to copy.
    Offer,
    /// Why it is withheld.
    Withhold(&'static str),
}

/// Whether a panel is what an invoice's card shows where the address would be.
pub open spec fn panel_fits(
    panel: AddressPanel,
    offers_address: bool,
    destination: DestinationNote,
) -> bool {
    if !offers_address {
        panel is Nothing
    } else {
        match destination {
            DestinationNote::Agrees => panel is Offer,
            DestinationNote::Contradicts => panel matches AddressPanel::Withhold(w) && w@
                == "This invoice's payment address is not the destination that would settle it. Paying the address shown would send coin somewhere this order cannot recognise, so it is withheld. Ask the seller to reissue the invoice."@,
            DestinationNote::Unreadable => panel matches AddressPanel::Withhold(w) && w@
                == "This invoice's payment address cannot be read for its network, so it cannot be checked against the destination that would settle the order. It is withheld rather than shown. Ask the seller to reissue the invoice."@,
        }
    }
}

/// What an invoice's card shows where the address would be: the address only
/// while there is something to pay, and only where paying it settles the
/// order.
pub fn address_panel(offers_address: bool, destination: DestinationNote) -> (r: AddressPanel)
    ensures
        panel_fits(r, offers_address, destination),
{
    if !offers_address {
        return AddressPanel::Nothing;
    }
    match destination {
        DestinationNote::Agrees => AddressPanel::Offer,
        DestinationNote::Contradicts => AddressPanel::Withhold(
            "This invoice's payment address is not the destination that would settle it. Paying the address shown would send coin somewhere this order cannot recognise, so it is withheld. Ask the seller to reissue the invoice.",
        ),
        DestinationNote::Unreadable => AddressPanel::Withhold(
            "This invoice's payment address cannot be read for its network, so it cannot be checked against the destination that would settle the order. It is withheld rather than shown. Ask the seller to reissue the invoice.",
        ),
    }
}

/// What an order's address shows, read against that order's payment window.
///
/// A script can carry more than one order's money when an address has been
/// issued twice, so a confirmed balance is not yet this order's payment: it is
/// split by the window the verifier applies.
#[derive(Debug, Clone, PartialEq, Eq)]
pub struct AddressReading {
    /// What the order asks for.
    pub amount_sats: u64,
    /// The order names no anchor block, so nothing can settle it.
    pub no_anchor: bool,
    /// Confirmed value inside the order's window: what can settle it.
    pub in_window_sats: u64,
    /// The confirmation heights of that value.
    pub in_window_heights: Vec<u32>,
    /// Unconfirmed value, as the address counts it.
    pub pending_sats: u64,
    /// Value in mempool rows only. Unlike `pending_sats` it never overlaps
    /// `in_window_sats`.
    pub unconfirmed_sats: u64,
    /// Highest confirmation height of value that confirmed at or before the
    /// anchor, if any.
    pub before_order: Option<u32>,
    /// Lowest confirmation height of value that confirmed after the window
    /// closed, if any.
    pub after_window: Option<u32>,
}

/// Where a transaction stands against a payment window.
#[derive(Debug, Clone, Copy, PartialEq, Eq, Structural)]
pub enum Standing {
    /// It has not confirmed.
    InMempool,
    /// It confirmed before the window.
    Before,
    /// It confirmed in the window.
    Inside,
    /// It confirmed after the window.
    After,
    /// It counts for nothing: it was reversed, or there is no window.
    Nothing,
}

/// Where a transaction stands against a payment window.
pub open spec fn standing(status: TxRowStatus, window: Option<(u32, u32)>) -> Standing {
    match status {
        TxRowStatus::Unconfirmed => Standing::InMempool,
        TxRowStatus::Retracted => Standing::Nothing,
        TxRowStatus::Confirmed { anchor_height } => match window {
            None => Standing::Nothing,
            Some((first, last)) => if first <= anchor_height <= last {
                Standing::Inside
            } else if anchor_height > last {
                Standing::After
            } else {
                Standing::Before
            },
        },
    }
}

/// Where a transaction stands against a payment window.
fn stands(status: TxRowStatus, window: Option<(u32, u32)>) -> (r: Standing)
    ensures
        r == standing(status, window),
{
    match status {
        TxRowStatus::Unconfirmed => Standing::InMempool,
        TxRowStatus::Retracted => Standing::Nothing,
        TxRowStatus::Confirmed { anchor_height } => match window {
            None => Standing::Nothing,
            Some((first, last)) => if first <= anchor_height && anchor_height <= last {
                Standing::Inside
            } else if anchor_height > last {
                Standing::After
            } else {
                Standing::Before
            },
        },
    }
}

/// The transactions that stand in one way.
pub open spec fn standing_so(txs: Seq<TxRow>, window: Option<(u32, u32)>, how: Standing) -> Seq<
    TxRow,
> {
    txs.filter(|t: TxRow| standing(t.status, window) == how)
}

/// The value of some transactions together.
pub open spec fn total_sats(txs: Seq<TxRow>) -> nat
    decreases txs.len(),
{
    if txs.len() == 0 {
        0
    } else {
        total_sats(txs.drop_last()) + txs.last().value_sats as nat
    }
}

/// An amount as 64 bits hold it: the largest they can where it is larger.
pub open spec fn capped(n: nat) -> u64 {
    if n <= u64::MAX {
        n as u64
    } else {
        u64::MAX
    }
}

/// The height a transaction confirmed at.
pub open spec fn height_of(t: TxRow) -> u32 {
    match t.status {
        TxRowStatus::Confirmed { anchor_height } => anchor_height,
        _ => 0,
    }
}

/// The highest height some transactions confirmed at.
pub open spec fn highest(txs: Seq<TxRow>) -> Option<u32>
    decreases txs.len(),
{
    if txs.len() == 0 {
        None
    } else {
        match highest(txs.drop_last()) {
            Some(h) => if h >= height_of(txs.last()) {
                Some(h)
            } else {
                Some(height_of(txs.last()))
            },
            None => Some(height_of(txs.last())),
        }
    }
}

/// The lowest height some transactions confirmed at.
pub open spec fn lowest(txs: Seq<TxRow>) -> Option<u32>
    decreases txs.len(),
{
    if txs.len() == 0 {
        None
    } else {
        match lowest(txs.drop_last()) {
            Some(h) => if h <= height_of(txs.last()) {
                Some(h)
            } else {
                Some(height_of(txs.last()))
            },
            None => Some(height_of(txs.last())),
        }
    }
}

/// Whether `r` is what `txs` show of an order whose window is `window`.
pub open spec fn reads(r: AddressReading, txs: Seq<TxRow>, window: Option<(u32, u32)>) -> bool {
    let inside = standing_so(txs, window, Standing::Inside);
    &&& r.in_window_sats == capped(total_sats(inside))
    &&& r.in_window_heights@ == inside.map_values(|t: TxRow| height_of(t))
    &&& r.unconfirmed_sats == capped(
        total_sats(standing_so(txs, window, Standing::InMempool)),
    )
    &&& r.before_order == highest(standing_so(txs, window, Standing::Before))
    &&& r.after_window == lowest(standing_so(txs, window, Standing::After))
}

/// What a reading shows that would settle its order.
#[derive(Debug, Clone, Copy, PartialEq, Eq, Structural)]
pub struct PaymentSight {
    /// The full amount confirmed inside the window.
    pub covered: bool,
    /// Unconfirmed value makes up the amount, and can still confirm in the
    /// window.
    pub in_flight: bool,
}

impl PaymentSight {
    /// Whether a payment that settles the order is in sight.
    pub fn settles(&self) -> (r: bool)
        ensures
            r == (self.covered || self.in_flight),
    {
        self.covered || self.in_flight
    }
}

fn capped_sum(a: u64, b: u64) -> (r: u64)
    ensures
        r == capped(a as nat + b as nat),
{
    if a > u64::MAX - b {
        u64::MAX
    } else {
        a + b
    }
}

impl AddressReading {
    /// Whether the full amount confirmed inside the window.
    pub open spec fn paid_in_window(self) -> bool {
        self.in_window_sats > 0 && self.in_window_sats >= self.amount_sats
    }

    /// What `live` shows of `order`.
    pub fn of(order: &Order, live: Option<&AddressView>) -> (r: AddressReading)
        ensures
            r.amount_sats == order.amount_sats,
            r.no_anchor == (order.payment_window is None),
            (match live {
                Some(live) => r.pending_sats == live.pending_sats && reads(
                    r,
                    live.txs@,
                    order.payment_window,
                ),
                None => r.pending_sats == 0 && reads(r, Seq::empty(), order.payment_window),
            }),
    {
        let window = order.payment_window;
        let mut reading = AddressReading {
            amount_sats: order.amount_sats,
            no_anchor: window.is_none(),
            in_window_sats: 0,
            in_window_heights: Vec::new(),
            pending_sats: 0,
            unconfirmed_sats: 0,
            before_order: None,
            after_window: None,
        };
        proof {
            lemma_reads_nothing(reading, window);
        }
        let live = match live {
            Some(live) => live,
            None => {
                return reading;
            },
        };
        reading.pending_sats = live.pending_sats;
        let mut i: usize = 0;
        assert(live.txs@.take(0) =~= Seq::empty());
        while i < live.txs.len()
            invariant
                i <= live.txs.len(),
                reading.amount_sats == order.amount_sats,
                reading.no_anchor == (order.payment_window is None),
                reading.pending_sats == live.pending_sats,
                window == order.payment_window,
                reads(reading, live.txs@.take(i as int), window),
            decreases live.txs.len() - i,
        {
            let tx = &live.txs[i];
            let how = stands(tx.status, window);
            let ghost before = reading;
            if how == Standing::InMempool {
                reading.unconfirmed_sats = capped_sum(reading.unconfirmed_sats, tx.value_sats);
            }
            if let TxRowStatus::Confirmed { anchor_height } = tx.status {
                if how == Standing::Inside {
                    reading.in_window_heights.push(anchor_height);
                    reading.in_window_sats = capped_sum(reading.in_window_sats, tx.value_sats);
                } else if how == Standing::After {
                    reading.after_window = match reading.after_window {
                        Some(h) => if h <= anchor_height {
                            Some(h)
                        } else {
                            Some(anchor_height)
                        },
                        None => Some(anchor_height),
                    };
                } else if how == Standing::Before {
                    reading.before_order = match reading.before_order {
                        Some(h) => if h >= anchor_height {
                            Some(h)
                        } else {
                            Some(anchor_height)
                        },
                        None => Some(anchor_height),
                    };
                }
            }
            proof {
                lemma_standing_step(live.txs@, window, Standing::Inside, i as int);
                lemma_standing_step(live.txs@, window, Standing::InMempool, i as int);
                lemma_standing_step(live.txs@, window, Standing::Before, i as int);
                lemma_standing_step(live.txs@, window, Standing::After, i as int);
                let inside = standing_so(live.txs@.take(i as int), window, Standing::Inside);
                if how == Standing::Inside {
                    assert(inside.push(*tx).map_values(|t: TxRow| height_of(t))
                        =~= inside.map_values(|t: TxRow| height_of(t)).push(height_of(*tx)));
                }
            }
            i = i + 1;
        }
        assert(live.txs@.take(i as int) =~= live.txs@);
        reading
    }

    /// What this reading shows that would settle its order: the full amount
    /// confirmed inside its window, or unconfirmed value making up the amount
    /// while the order still accepts a new payment. Partial value and dust
    /// are nothing here, and no payment is counted twice.
    pub fn sight(&self, order: &Order, accepts_new_payment: bool) -> (r: PaymentSight)
        ensures
            r.covered == self.paid_in_window(),
            r.in_flight == (order.payment_window is Some && accepts_new_payment
                && self.unconfirmed_sats > 0 && self.in_window_sats + self.unconfirmed_sats
                >= self.amount_sats),
    {
        let covered = self.in_window_sats > 0 && self.in_window_sats >= self.amount_sats;
        let in_flight = order.payment_window.is_some() && accepts_new_payment
            && self.unconfirmed_sats > 0 && capped_sum(self.in_window_sats, self.unconfirmed_sats)
            >= self.amount_sats;
        PaymentSight { covered, in_flight }
    }

    /// What to tell the seller when the address holds confirmed value that is
    /// not this order's payment. `late_is_another_orders`: a payment after
    /// this invoice's window falls inside another of the seller's invoices'
    /// windows on this address.
    pub fn outside_note(&self, late_is_another_orders: bool) -> (r: Option<String>)
        ensures
            (match r {
                Some(words) => Some(words@),
                None => None,
            }) == outside_words(*self, late_is_another_orders),
    {
        if self.no_anchor {
            return Some(
                "This invoice names no Bitcoin block it was made at, so no payment can ever settle it. Issue a new invoice.".to_string(),
            );
        }
        if let Some(height) = self.before_order {
            if self.in_window_sats > 0 && self.in_window_sats >= self.amount_sats {
                return Some(
                    text::join3(
                        "This address also holds an older payment, confirmed in block ",
                        &text::decimal_text(height as u64),
                        " before this invoice was made. That one paid for something else; only the payment made after this invoice counts for it.",
                    ),
                );
            }
            return Some(
                text::join3(
                    "This address already holds a payment that confirmed in block ",
                    &text::decimal_text(height as u64),
                    ", before this invoice was made. It paid for something else and does not settle this invoice, so do not ship against it. Issue a new invoice, which gets a new address.",
                ),
            );
        }
        match self.after_window {
            Some(height) => {
                let mut words = text::join3(
                    "A payment to this address confirmed in block ",
                    &text::decimal_text(height as u64),
                    ", after this invoice's payment window closed, so Harvest will not mark it paid. ",
                );
                words.append(
                    if late_is_another_orders {
                        "It falls inside another of your invoices' windows on this address, so it may be that invoice's payment."
                    } else {
                        "It is probably this buyer's late payment: check your wallet and settle it with them directly."
                    },
                );
                Some(words)
            },
            None => None,
        }
    }
}

/// What the seller is told about confirmed value that is not this order's
/// payment: that nothing can settle an order without an anchor; else of value
/// older than the order; else of value that came too late.
pub open spec fn outside_words(r: AddressReading, late_is_another_orders: bool) -> Option<Seq<char>> {
    if r.no_anchor {
        Some(
            "This invoice names no Bitcoin block it was made at, so no payment can ever settle it. Issue a new invoice."@,
        )
    } else if r.before_order is Some {
        let height = text::decimal(r.before_order->0 as nat);
        if r.paid_in_window() {
            Some(
                "This address also holds an older payment, confirmed in block "@ + height
                    + " before this invoice was made. That one paid for something else; only the payment made after this invoice counts for it."@,
            )
        } else {
            Some(
                "This address already holds a payment that confirmed in block "@ + height
                    + ", before this invoice was made. It paid for something else and does not settle this invoice, so do not ship against it. Issue a new invoice, which gets a new address."@,
            )
        }
    } else if r.after_window is Some {
        Some(
            "A payment to this address confirmed in block "@ + text::decimal(
                r.after_window->0 as nat,
            )
                + ", after this invoice's payment window closed, so Harvest will not mark it paid. "@
                + (if late_is_another_orders {
                "It falls inside another of your invoices' windows on this address, so it may be that invoice's payment."@
            } else {
                "It is probably this buyer's late payment: check your wallet and settle it with them directly."@
            }),
        )
    } else {
        None
    }
}

proof fn lemma_reads_nothing(r: AddressReading, window: Option<(u32, u32)>)
    requires
        r.in_window_sats == 0,
        r.in_window_heights@ == Seq::<u32>::empty(),
        r.unconfirmed_sats == 0,
        r.before_order is None,
        r.after_window is None,
    ensures
        reads(r, Seq::empty(), window),
{
    reveal(Seq::filter);
    assert(Seq::<TxRow>::empty().map_values(|t: TxRow| height_of(t)) =~= Seq::<u32>::empty());
}

proof fn lemma_standing_step(
    txs: Seq<TxRow>,
    window: Option<(u32, u32)>,
    how: Standing,
    i: int,
)
    requires
        0 <= i < txs.len(),
    ensures
        ({
            let before = standing_so(txs.take(i), window, how);
            let after = standing_so(txs.take(i + 1), window, how);
            if standing(txs[i].status, window) == how {
                &&& after == before.push(txs[i])
                &&& total_sats(after) == total_sats(before) + txs[i].value_sats
                &&& after.drop_last() == before
                &&& after.last() == txs[i]
            } else {
                after == before
            }
        }),
{
    let keep = |t: TxRow| standing(t.status, window) == how;
    seqs::lemma_filter_step(txs, keep, i);
    let before = standing_so(txs.take(i), window, how);
    assert(before.push(txs[i]).drop_last() =~= before);
}

/// Every transaction stands in one way against a window. One that confirmed
/// counts as this order's payment only inside the window; without a window
/// none does.
pub proof fn confirmed_value_counts_only_inside_the_window(
    height: u32,
    window: Option<(u32, u32)>,
)
    ensures
        standing(TxRowStatus::Confirmed { anchor_height: height }, window) == Standing::Inside
            <==> (window matches Some((first, last)) && first <= height <= last),
        standing(TxRowStatus::Confirmed { anchor_height: height }, None) == Standing::Nothing,
        standing(TxRowStatus::Unconfirmed, window) == Standing::InMempool,
        standing(TxRowStatus::Retracted, window) == Standing::Nothing,
{
}

/// A payment older than the window, or later, changes nothing that could
/// settle the order: neither the value inside the window nor that in the
/// mempool.
pub proof fn a_payment_outside_the_window_settles_nothing(
    before: AddressReading,
    after: AddressReading,
    txs: Seq<TxRow>,
    tx: TxRow,
    window: Option<(u32, u32)>,
)
    requires
        reads(before, txs, window),
        reads(after, txs.push(tx), window),
        standing(tx.status, window) != Standing::Inside,
        standing(tx.status, window) != Standing::InMempool,
    ensures
        after.in_window_sats == before.in_window_sats,
        after.in_window_heights@ == before.in_window_heights@,
        after.unconfirmed_sats == before.unconfirmed_sats,
{
    let all = txs.push(tx);
    assert(all.take(txs.len() as int) =~= txs);
    assert(all.take(txs.len() as int + 1) =~= all);
    lemma_standing_step(all, window, Standing::Inside, txs.len() as int);
    lemma_standing_step(all, window, Standing::InMempool, txs.len() as int);
}

/// A card's pill: its style and its words.
pub type Pill = (&'static str, &'static str);

/// The pill of an order: its style and its words. The paid style needs the
/// full amount, since anyone can send dust to a published address, and is not
/// given while a payment waits for the seller's confirmation.
pub open spec fn pill_of(
    status: OrderStatus,
    reading: AddressReading,
    awaiting_confirmation: bool,
) -> (Seq<char>, Seq<char>) {
    match status {
        OrderStatus::AwaitingPayment => if awaiting_confirmation {
            ("btc-pill pending"@, "Payment seen, confirm to mark paid"@)
        } else if reading.paid_in_window() {
            ("btc-pill paid"@, "Payment seen on chain"@)
        } else if reading.in_window_sats > 0 {
            ("btc-pill pending"@, "Partial payment seen"@)
        } else if reading.pending_sats > 0 {
            ("btc-pill pending"@, "Payment seen, unconfirmed"@)
        } else {
            ("btc-pill waiting"@, "Awaiting payment"@)
        },
        OrderStatus::Paid => ("btc-pill paid"@, "Paid"@),
        OrderStatus::PaymentReversed => ("btc-pill reversed"@, "Payment reversed"@),
        OrderStatus::Cancelled => ("btc-pill cancelled"@, "Cancelled"@),
    }
}

/// The pill an order card shows: its style and its words.
pub fn status_pill(status: OrderStatus, reading: &AddressReading, awaiting_confirmation: bool) -> (r:
    Pill)
    ensures
        (r.0@, r.1@) == pill_of(status, *reading, awaiting_confirmation),
{
    match status {
        OrderStatus::AwaitingPayment => if awaiting_confirmation {
            ("btc-pill pending", "Payment seen, confirm to mark paid")
        } else if reading.in_window_sats > 0 && reading.in_window_sats >= reading.amount_sats {
            ("btc-pill paid", "Payment seen on chain")
        } else if reading.in_window_sats > 0 {
            ("btc-pill pending", "Partial payment seen")
        } else if reading.pending_sats > 0 {
            ("btc-pill pending", "Payment seen, unconfirmed")
        } else {
            ("btc-pill waiting", "Awaiting payment")
        },
        OrderStatus::Paid => ("btc-pill paid", "Paid"),
        OrderStatus::PaymentReversed => ("btc-pill reversed", "Payment reversed"),
        OrderStatus::Cancelled => ("btc-pill cancelled", "Cancelled"),
    }
}

/// The pill an order card shows, once it is known whether the invoice has
/// lapsed: a lapsed one says so, rather than "Awaiting payment" above a line
/// saying that it can no longer be paid.
pub fn card_pill(
    status: OrderStatus,
    reading: &AddressReading,
    awaiting_confirmation: bool,
    lapsed: bool,
) -> (r: Pill)
    ensures
        (r.0@, r.1@) == (if lapsed {
            ("btc-pill cancelled"@, "Lapsed"@)
        } else {
            pill_of(status, *reading, awaiting_confirmation)
        }),
{
    if lapsed {
        ("btc-pill cancelled", "Lapsed")
    } else {
        status_pill(status, reading, awaiting_confirmation)
    }
}

/// The manual watches: ones tied to an order are already shown with it.
pub fn manual_watches<'a>(watches: &'a Vec<WatchedPayment>) -> (r: Vec<&'a WatchedPayment>)
    ensures
        order::behind(r@) == watches@.filter(|w: WatchedPayment| w.order_id is None),
{
    let ghost keep = |w: WatchedPayment| w.order_id is None;
    let mut r: Vec<&'a WatchedPayment> = Vec::new();
    let mut i: usize = 0;
    proof {
        seqs::lemma_filter_none(watches@, keep);
        assert(order::behind(r@) =~= Seq::empty());
    }
    while i < watches.len()
        invariant
            i <= watches.len(),
            keep == (|w: WatchedPayment| w.order_id is None),
            order::behind(r@) == watches@.take(i as int).filter(keep),
        decreases watches.len() - i,
    {
        proof {
            seqs::lemma_filter_step(watches@, keep, i as int);
        }
        if watches[i].order_id.is_none() {
            let ghost before = r@;
            r.push(&watches[i]);
            assert(order::behind(r@) =~= order::behind(before).push(watches@[i as int]));
        }
        i = i + 1;
    }
    assert(watches@.take(i as int) =~= watches@);
    r
}

/// What submitting the watch form comes to.
#[derive(Debug, Clone, PartialEq, Eq)]
pub enum WatchSubmit {
    /// The button is off: no address is typed.
    Disabled,
    /// A Ghost Key is needed first.
    AskForGhostKey,
    /// The address cannot be read, and why.
    Refuse(String),
    /// Record this watch.
    Watch(WatchedPayment),
}

/// What submitting the watch form comes to, given the script the address
/// denotes or why it denotes none. A blank label is none; another is kept as
/// it was typed.
pub fn submit_watch(
    has_ghostkey: bool,
    network: BitcoinNetwork,
    address: &str,
    label: &str,
    script: Result<Vec<u8>, String>,
) -> (r: WatchSubmit)
    ensures
        (if text::trimmed(address@).len() == 0 {
            r is Disabled
        } else if !has_ghostkey {
            r is AskForGhostKey
        } else {
            match script {
                Err(why) => r == WatchSubmit::Refuse(why),
                Ok(script) => {
                    &&& r matches WatchSubmit::Watch(w)
                    &&& w.network == network && w.script_pubkey == script && w.address@ == address@
                    &&& (match w.label {
                        Some(l) => text::trimmed(label@).len() > 0 && l@ == label@,
                        None => text::trimmed(label@).len() == 0,
                    })
                    &&& w.order_id is None && w.contract_id is None
                },
            }
        }),
{
    if text::trim(address).is_empty() {
        return WatchSubmit::Disabled;
    }
    if !has_ghostkey {
        return WatchSubmit::AskForGhostKey;
    }
    match script {
        Err(why) => WatchSubmit::Refuse(why),
        Ok(script_pubkey) => {
            let label: Option<String> = if text::trim(label).is_empty() {
                None
            } else {
                Some(label.to_string())
            };
            WatchSubmit::Watch(
                WatchedPayment {
                    network,
                    script_pubkey,
                    address: address.to_string(),
                    label,
                    order_id: None,
                    contract_id: None,
                },
            )
        },
    }
}

/// What the live-data panel says while no block is known.
pub open spec fn no_data_words(
    bridge_loaded: bool,
    bridge_configured: bool,
    network_name: Seq<char>,
) -> Seq<char> {
    "No chain data yet. "@ + (if !bridge_loaded {
        "Connecting\u{2026}"@
    } else if !bridge_configured {
        "This build has no Bitcoin bridge configured for "@ + network_name + " yet."@
    } else {
        "Waiting for the bridge to report the chain tip\u{2026}"@
    })
}

/// What the live-data panel says while no block is known.
pub fn no_chain_data(bridge_loaded: bool, bridge_configured: bool, network_name: &str) -> (r: String)
    ensures
        r@ == no_data_words(bridge_loaded, bridge_configured, network_name@),
{
    let mut words = "No chain data yet. ".to_string();
    if !bridge_loaded {
        words.append("Connecting\u{2026}");
    } else if !bridge_configured {
        words.append(
            &text::join3(
                "This build has no Bitcoin bridge configured for ",
                network_name,
                " yet.",
            ),
        );
    } else {
        words.append("Waiting for the bridge to report the chain tip\u{2026}");
    }
    words
}

/// One block of the live-data panel, in words.
#[derive(Debug, Clone, PartialEq, Eq)]
pub struct BlockLine {
    pub height: String,
    pub txs: String,
    pub when: String,
}

/// Whether a line is that of a block.
pub open spec fn tells_block(line: BlockLine, block: BlockRow, now_secs: i64) -> bool {
    &&& line.height@ == "#"@ + text::decimal(block.height as nat)
    &&& line.txs@ == text::decimal(block.tx_count as nat) + " tx"@
    &&& line.when@ == time_ago(seconds_since(now_secs as int, block.block_time as int) as nat)
}

/// What the live-data panel shows.
#[derive(Debug, Clone, PartialEq, Eq)]
pub enum LivePanel {
    /// The recent blocks.
    Blocks(Vec<BlockLine>),
    /// Why there are none.
    NoData(String),
}

/// What the live-data panel shows: the recent blocks, and why there are none
/// where no tip has come, or one without blocks.
pub fn live_panel(
    tip: &Option<TipView>,
    bridge_loaded: bool,
    bridge_configured: bool,
    network_name: &str,
    now_secs: i64,
) -> (r: LivePanel)
    ensures
        (match *tip {
            Some(t) if t.recent_blocks@.len() > 0 => r matches LivePanel::Blocks(lines)
                && lines@.len() == t.recent_blocks@.len() && forall|i: int|
                0 <= i < lines@.len() ==> tells_block(
                    #[trigger] lines@[i],
                    t.recent_blocks@[i],
                    now_secs,
                ),
            _ => r matches LivePanel::NoData(words) && words@ == no_data_words(
                bridge_loaded,
                bridge_configured,
                network_name@,
            ),
        }),
{
    let blocks: &Vec<BlockRow> = match tip {
        Some(t) => &t.recent_blocks,
        None => {
            return LivePanel::NoData(no_chain_data(bridge_loaded, bridge_configured, network_name));
        },
    };
    if blocks.len() == 0 {
        return LivePanel::NoData(no_chain_data(bridge_loaded, bridge_configured, network_name));
    }
    let mut lines: Vec<BlockLine> = Vec::new();
    let mut i: usize = 0;
    while i < blocks.len()
        invariant
            i <= blocks.len(),
            lines@.len() == i,
            forall|j: int| 0 <= j < i ==> tells_block(#[trigger] lines@[j], blocks@[j], now_secs),
        decreases blocks.len() - i,
    {
        let block = &blocks[i];
        let mut height = "#".to_string();
        height.append(&text::decimal_text(block.height as u64));
        let mut txs = text::decimal_text(block.tx_count as u64);
        txs.append(" tx");
        lines.push(
            BlockLine { height, txs, when: relative_time_ago(block.block_time, now_secs) },
        );
        i = i + 1;
    }
    LivePanel::Blocks(lines)
}

/// What a watched address is called: by its label, or by the address itself.
pub fn watch_name(watch: &WatchedPayment) -> (r: String)
    ensures
        r@ == (match watch.label {
            Some(label) => label@,
            None => watch.address@,
        }),
{
    match &watch.label {
        Some(label) => label.clone(),
        None => watch.address.clone(),
    }
}

/// What has arrived at a watched address, in words. `confirmed` and `pending`
/// are the two amounts in words.
pub fn activity_words(live: &AddressView, confirmed: &str, pending: &str) -> (r: String)
    ensures
        r@ == (if live.confirmed_sats == 0 && live.pending_sats == 0 {
            "No activity yet"@
        } else {
            (if live.confirmed_sats > 0 {
                confirmed@ + " confirmed"@
            } else {
                Seq::empty()
            }) + (if live.pending_sats > 0 {
                " \u{b7} "@ + pending@ + " pending"@
            } else {
                Seq::empty()
            })
        }),
{
    if live.confirmed_sats == 0 && live.pending_sats == 0 {
        return "No activity yet".to_string();
    }
    let mut words = String::new();
    if live.confirmed_sats > 0 {
        words.append(confirmed);
        words.append(" confirmed");
        assert(words@ =~= confirmed@ + " confirmed"@);
    }
    if live.pending_sats > 0 {
        words.append(&text::join3(" \u{b7} ", pending, " pending"));
    } else {
        assert(words@ + Seq::<char>::empty() =~= words@);
    }
    words
}

/// How many of an address's transactions are shown: the first five.
pub fn shown_txs(live: &AddressView) -> (n: usize)
    ensures
        n == (if live.txs@.len() < 5 {
            live.txs@.len() as int
        } else {
            5
        }),
{
    if live.txs.len() < 5 {
        live.txs.len()
    } else {
        5
    }
}

/// What the user is told when an address could not be unwatched.
pub fn still_watching(why: &str) -> (r: String)
    ensures
        r@ == "Couldn't stop watching: "@ + why@,
{
    let mut words = "Couldn't stop watching: ".to_string();
    words.append(why);
    words
}

/// What a card says about an invoice's bridges: whether it warns, and its
/// words.
pub open spec fn bridge_words(note: BridgeNote) -> (bool, Seq<char>) {
    match note {
        BridgeNote::NoBridge => (
            true,
            "This invoice names no Bitcoin bridge, so no payment to it can ever be proven. Ask the seller to reissue it."@,
        ),
        BridgeNote::Unrecognised(ids) => (
            true,
            "This invoice will be settled by a bridge this app does not recognise ("@ + ids@
                + "). Its payment status would rest on a signature you have no reason to trust \u{2014} check with the seller before paying."@,
        ),
        BridgeNote::Recognised(ids) => (false, "Settled by bridge "@ + ids@),
    }
}

/// What a card says about an invoice's bridges: whether it warns, and its
/// words.
pub fn bridge_text(note: &BridgeNote) -> (r: (bool, String))
    ensures
        (r.0, r.1@) == bridge_words(*note),
{
    match note {
        BridgeNote::NoBridge => (
            true,
            "This invoice names no Bitcoin bridge, so no payment to it can ever be proven. Ask the seller to reissue it.".to_string(),
        ),
        BridgeNote::Unrecognised(ids) => (
            true,
            text::join3(
                "This invoice will be settled by a bridge this app does not recognise (",
                ids,
                "). Its payment status would rest on a signature you have no reason to trust \u{2014} check with the seller before paying.",
            ),
        ),
        BridgeNote::Recognised(ids) => {
            let mut words = "Settled by bridge ".to_string();
            words.append(ids);
            (false, words)
        },
    }
}

/// The heights an order's card asks about: whether another of the seller's
/// orders has a window that holds them.
#[derive(Debug, Clone, PartialEq, Eq)]
pub struct HeightsToAsk {
    /// The first payment after the order's window.
    pub late: Option<u32>,
    /// The payments that settled the order, where it is paid.
    pub settled: Vec<u32>,
}

/// The rows that have been seen at an order's address.
pub open spec fn seen(live: Option<&AddressView>) -> Seq<TxRow> {
    match live {
        Some(live) => live.txs@,
        None => Seq::empty(),
    }
}

/// The heights an order's card asks about: the lowest that came after its
/// window, and, where it is paid, each inside it.
pub fn heights_to_ask(order: &AuthorizedOrder, live: Option<&AddressView>) -> (r: HeightsToAsk)
    ensures
        ({
            let window = order.order.payment_window;
            &&& r.late == lowest(standing_so(seen(live), window, Standing::After))
            &&& r.settled@ == (if order.status == OrderStatus::Paid {
                standing_so(seen(live), window, Standing::Inside).map_values(
                    |t: TxRow| height_of(t),
                )
            } else {
                Seq::empty()
            })
        }),
        forall|reading: AddressReading|
            #[trigger] reads(reading, seen(live), order.order.payment_window) ==> r.late
                == reading.after_window && (order.status == OrderStatus::Paid ==> r.settled@
                == reading.in_window_heights@),
{
    let reading = AddressReading::of(&order.order, live);
    assert(reads(reading, seen(live), order.order.payment_window));
    let settled: Vec<u32> = if order.status == OrderStatus::Paid {
        reading.in_window_heights
    } else {
        Vec::new()
    };
    HeightsToAsk { late: reading.after_window, settled }
}

/// What the rest of the app knows about an order, as its card reads it.
pub struct OrderFacts {
    /// The bridges this build recognises, in base58.
    pub recognised: Vec<String>,
    /// The script the order's address denotes; none where it cannot be read.
    pub address_script: Option<Vec<u8>>,
    /// A payment waits for the seller to confirm that it is this order's.
    pub held: bool,
    /// The late height of [`heights_to_ask`] falls inside another of the
    /// seller's orders' windows.
    pub late_is_another_orders: bool,
    /// The order has lapsed unpaid.
    pub lapsed: bool,
    /// There is still something to pay.
    pub offers_address: bool,
    /// The seller's other orders whose windows hold one of the settled heights
    /// of [`heights_to_ask`], by their ids in short.
    pub twins: Vec<String>,
}

/// What an order's card shows.
pub struct OrderCard {
    pub pill: Pill,
    /// What the seller is told about value that is not this order's payment.
    pub outside_note: Option<String>,
    /// Whether the seller can confirm the payment.
    pub can_confirm: bool,
    /// That one payment cannot pay for two invoices.
    pub twins_note: Option<String>,
    pub address: AddressPanel,
    /// About the bridges: whether it warns, and its words.
    pub bridges: (bool, String),
}

/// What a seller is told where the payment that settled an order also falls
/// inside the window of others.
pub open spec fn twins_words(status: OrderStatus, twins: Seq<Seq<char>>) -> Option<Seq<char>> {
    let ids = text::joined(twins, ", "@);
    if status == OrderStatus::Paid && ids.len() > 0 {
        Some(
            "Your invoice "@ + ids
                + " uses this same address, and the payment that settled this one also falls inside its window. One payment cannot pay for both invoices: check your wallet for a separate payment per invoice before shipping both."@,
        )
    } else {
        None
    }
}

/// What an order's card shows, given what has arrived at its address.
pub fn order_card(order: &AuthorizedOrder, live: Option<&AddressView>, facts: &OrderFacts) -> (r:
    OrderCard)
    ensures
        exists|reading: AddressReading|
            #![trigger reading.paid_in_window()]
            {
                &&& reading.amount_sats == order.order.amount_sats
                &&& reading.no_anchor == (order.order.payment_window is None)
                &&& (match live {
                    Some(live) => reading.pending_sats == live.pending_sats && reads(
                        reading,
                        live.txs@,
                        order.order.payment_window,
                    ),
                    None => reading.pending_sats == 0 && reads(
                        reading,
                        Seq::empty(),
                        order.order.payment_window,
                    ),
                })
                &&& (r.pill.0@, r.pill.1@) == (if facts.lapsed {
                    ("btc-pill cancelled"@, "Lapsed"@)
                } else {
                    pill_of(order.status, reading, facts.held)
                })
                &&& (match r.outside_note {
                    Some(words) => Some(words@),
                    None => None,
                }) == (if order.status == OrderStatus::AwaitingPayment {
                    outside_words(reading, facts.late_is_another_orders)
                } else {
                    None
                })
            },
        r.can_confirm == facts.held,
        (match r.twins_note {
            Some(words) => Some(words@),
            None => None,
        }) == twins_words(order.status, text::texts(facts.twins@)),
        panel_fits(
            r.address,
            facts.offers_address,
            destination_of(order.order, facts.address_script),
        ),
        exists|note: BridgeNote|
            #![trigger bridge_words(note)]
            bridge_note_fits(note, order.order.trusted_bridges@, text::texts(facts.recognised@))
                && (r.bridges.0, r.bridges.1@) == bridge_words(note),
{
    let reading = AddressReading::of(&order.order, live);
    let ghost paid = reading.paid_in_window();
    let outside_note = if order.status == OrderStatus::AwaitingPayment {
        reading.outside_note(facts.late_is_another_orders)
    } else {
        None
    };
    let ids = text::join(&facts.twins, ", ");
    let twins_note = if order.status == OrderStatus::Paid && ids.as_str().unicode_len() > 0 {
        Some(
            text::join3(
                "Your invoice ",
                &ids,
                " uses this same address, and the payment that settled this one also falls inside its window. One payment cannot pay for both invoices: check your wallet for a separate payment per invoice before shipping both.",
            ),
        )
    } else {
        None
    };
    let destination = DestinationNote::of(&order.order, &facts.address_script);
    OrderCard {
        pill: card_pill(order.status, &reading, facts.held, facts.lapsed),
        outside_note,
        can_confirm: facts.held,
        twins_note,
        address: address_panel(facts.offers_address, destination),
        bridges: bridge_text(&bridge_note(&order.order, &facts.recognised)),
    }
}

/// The paid style is shown for an order that awaits payment only where the
/// full amount confirmed inside its window, and no confirmation is owed.
pub proof fn the_paid_pill_needs_the_full_amount(reading: AddressReading, held: bool)
    ensures
        pill_of(OrderStatus::AwaitingPayment, reading, held).0 == "btc-pill paid"@
            <==> !held && reading.in_window_sats > 0 && reading.in_window_sats
            >= reading.amount_sats,
{
    reveal_strlit("btc-pill paid");
    reveal_strlit("btc-pill pending");
    reveal_strlit("btc-pill waiting");
    assert("btc-pill paid"@[10] == 'a');
    assert("btc-pill pending"@[10] == 'e');
    assert("btc-pill waiting"@[9] == 'w');
    assert("btc-pill paid"@[9] == 'p');
}

/// An address agrees with an order exactly where it denotes a script as long
/// as the one that settles the order and equal to it in every byte; any other
/// script contradicts it, and only an address that denotes none is
/// unreadable.
pub proof fn only_the_settling_script_agrees(order: Order, script: Vec<u8>)
    ensures
        destination_of(order, Some(script)) == DestinationNote::Agrees <==> script@.len()
            == order.payment_script_pubkey@.len() && forall|i: int|
            0 <= i < script@.len() ==> #[trigger] script@[i] == order.payment_script_pubkey@[i],
        destination_of(order, Some(script)) == DestinationNote::Contradicts <==> script@.len()
            != order.payment_script_pubkey@.len() || exists|i: int|
            0 <= i < script@.len() && #[trigger] script@[i] != order.payment_script_pubkey@[i],
        destination_of(order, None) == DestinationNote::Unreadable,
{
    let settles = order.payment_script_pubkey@;
    if script@.len() == settles.len() && forall|i: int|
        0 <= i < script@.len() ==> #[trigger] script@[i] == settles[i] {
        assert(script@ =~= settles);
    }
}

/// A card offers its address only where one is to be offered and the address
/// denotes the script that settles the order, byte for byte; where one is to
/// be offered and it does not, the address is withheld, and otherwise there is
/// nothing.
pub proof fn an_address_is_offered_only_where_paying_it_settles(
    panel: AddressPanel,
    offers_address: bool,
    order: Order,
    script: Option<Vec<u8>>,
)
    requires
        panel_fits(panel, offers_address, destination_of(order, script)),
    ensures
        panel is Offer <==> offers_address && (script matches Some(s) && s@.len()
            == order.payment_script_pubkey@.len() && forall|i: int|
            0 <= i < s@.len() ==> #[trigger] s@[i] == order.payment_script_pubkey@[i]),
        panel is Nothing <==> !offers_address,
{
    if let Some(s) = script {
        only_the_settling_script_agrees(order, s);
    }
}

/// One more payment on an address changes its reading by that payment alone.
/// Confirmed inside the window, it adds its value and its height to what
/// counts for the order; in the mempool, its value to what is unconfirmed;
/// before the window, the latest such block is kept, and after it the
/// earliest. A retracted one, and without a window a confirmed one, adds
/// nothing. Values add up to the largest a reading can hold.
pub proof fn a_payment_adds_to_the_reading_by_where_it_stands(
    before: AddressReading,
    after: AddressReading,
    txs: Seq<TxRow>,
    tx: TxRow,
    window: Option<(u32, u32)>,
)
    requires
        reads(before, txs, window),
        reads(after, txs.push(tx), window),
    ensures
        ({
            let sats = tx.value_sats;
            let inside = tx.status matches TxRowStatus::Confirmed { anchor_height: h }
                && window matches Some((first, last)) && first <= h && h <= last;
            let early = tx.status matches TxRowStatus::Confirmed { anchor_height: h }
                && window matches Some((first, last)) && h < first && h <= last;
            let late = tx.status matches TxRowStatus::Confirmed { anchor_height: h }
                && window matches Some((_, last)) && h > last;
            let height = tx.status->anchor_height;
            &&& inside ==> after.in_window_heights@ == before.in_window_heights@.push(height) && (
            before.in_window_sats + sats <= u64::MAX ==> after.in_window_sats
                == before.in_window_sats + sats) && (before.in_window_sats + sats > u64::MAX
                ==> after.in_window_sats == u64::MAX)
            &&& !inside ==> after.in_window_heights@ == before.in_window_heights@
                && after.in_window_sats == before.in_window_sats
            &&& tx.status is Unconfirmed ==> (before.unconfirmed_sats + sats <= u64::MAX
                ==> after.unconfirmed_sats == before.unconfirmed_sats + sats) && (
            before.unconfirmed_sats + sats > u64::MAX ==> after.unconfirmed_sats == u64::MAX)
            &&& !(tx.status is Unconfirmed) ==> after.unconfirmed_sats == before.unconfirmed_sats
            &&& early ==> after.before_order == (match before.before_order {
                Some(h) if h > height => Some(h),
                _ => Some(height),
            })
            &&& !early ==> after.before_order == before.before_order
            &&& late ==> after.after_window == (match before.after_window {
                Some(h) if h < height => Some(h),
                _ => Some(height),
            })
            &&& !late ==> after.after_window == before.after_window
        }),
{
    let all = txs.push(tx);
    let n = txs.len() as int;
    assert(all.take(n) =~= txs);
    assert(all.take(n + 1) =~= all);
    assert(all[n] == tx);
    lemma_standing_step(all, window, Standing::Inside, n);
    lemma_standing_step(all, window, Standing::InMempool, n);
    lemma_standing_step(all, window, Standing::Before, n);
    lemma_standing_step(all, window, Standing::After, n);
    let inside = standing_so(txs, window, Standing::Inside);
    assert(inside.push(tx).map_values(|t: TxRow| height_of(t)) =~= inside.map_values(
        |t: TxRow| height_of(t),
    ).push(height_of(tx)));
}

/// An address with no payments reads as nothing seen.
pub proof fn an_empty_address_reads_as_nothing(r: AddressReading, window: Option<(u32, u32)>)
    requires
        reads(r, Seq::empty(), window),
    ensures
        r.in_window_sats == 0,
        r.in_window_heights@.len() == 0,
        r.unconfirmed_sats == 0,
        r.before_order is None,
        r.after_window is None,
{
    reveal(Seq::filter);
}

/// An order in the book is one of a store of one's own, and not one that
/// still waits for payment at a store that cannot be paid; the book has all
/// of those, store after store in the order each has them.
pub proof fn the_book_has_the_orders_of_ones_own_stores(stores: Seq<BookStore>, more: BookStore)
    ensures
        book(Seq::empty()) == Seq::<AuthorizedOrder>::empty(),
        !more.owned ==> book(stores.push(more)) == book(stores),
        more.owned && more.payable ==> book(stores.push(more)) == book(stores) + more.orders@,
        more.owned && !more.payable ==> book(stores.push(more)) == book(stores)
            + more.orders@.filter(|o: AuthorizedOrder| !(o.status is AwaitingPayment)),
{
    let all = stores.push(more);
    assert(all.drop_last() =~= stores);
    if more.owned {
        let keep = |o: AuthorizedOrder| in_book(o, more.payable);
        if more.payable {
            seqs::lemma_filter_all(more.orders@, keep);
        } else {
            assert(keep =~= (|o: AuthorizedOrder| !(o.status is AwaitingPayment)));
        }
    }
}

/// Time since then is what has passed, and none where then is still to come.
pub proof fn time_passed_is_never_negative(now_secs: int, then: int)
    ensures
        seconds_since(now_secs, then) >= 0,
        now_secs >= then ==> then + seconds_since(now_secs, then) == now_secs,
        now_secs <= then ==> seconds_since(now_secs, then) == 0,
{
}

/// Time passed is told in the largest of minutes, hours and days of which a
/// whole one has passed, counting whole ones, with a plural for all but one.
pub proof fn time_passed_is_told_in_whole_units(delta: nat)
    ensures
        delta < 60 ==> time_ago(delta) == "just now"@,
        60 <= delta < 120 ==> time_ago(delta) == text::decimal(1) + " "@ + "minute"@ + ""@ + " ago"@,
        120 <= delta < 3600 ==> time_ago(delta) == text::decimal(delta / 60) + " "@ + "minute"@
            + "s"@ + " ago"@,
        3600 <= delta < 7200 ==> time_ago(delta) == text::decimal(1) + " "@ + "hour"@ + ""@
            + " ago"@,
        7200 <= delta < 86_400 ==> time_ago(delta) == text::decimal(delta / 3600) + " "@ + "hour"@
            + "s"@ + " ago"@,
        86_400 <= delta < 172_800 ==> time_ago(delta) == text::decimal(1) + " "@ + "day"@ + ""@
            + " ago"@,
        172_800 <= delta ==> time_ago(delta) == text::decimal(delta / 86_400) + " "@ + "day"@
            + "s"@ + " ago"@,
{
}

/// An order waits, is paid, or is neither, as its status says.
pub proof fn an_order_is_in_the_group_of_its_status(status: OrderStatus)
    ensures
        group_of(status) == OrderGroup::Awaiting <==> status is AwaitingPayment,
        group_of(status) == OrderGroup::Paid <==> status is Paid,
        group_of(status) == OrderGroup::Other <==> status is Cancelled || status is PaymentReversed,
{
}

/// An address is found by its contract, and the watch of an order by its
/// network and its script: the first that has them, and none only where none
/// has.
pub proof fn addresses_and_watches_are_found_by_what_they_are_for(
    addresses: Seq<AddressView>,
    id: Seq<u8>,
    watches: Seq<WatchedPayment>,
    order: Order,
)
    ensures
        (match address_at(addresses, id) {
            Some(a) => exists|i: int|
                {
                    &&& 0 <= i < addresses.len()
                    &&& #[trigger] addresses[i] == a
                    &&& a.instance_id@ == id
                    &&& forall|j: int|
                        0 <= j < i ==> (#[trigger] addresses[j]).instance_id@ != id
                },
            None => forall|i: int|
                0 <= i < addresses.len() ==> (#[trigger] addresses[i]).instance_id@ != id,
        }),
        (match watch_for(watches, order) {
            Some(w) => exists|i: int|
                {
                    &&& 0 <= i < watches.len()
                    &&& #[trigger] watches[i] == w
                    &&& w.network == order.network
                    &&& w.script_pubkey@ == order.payment_script_pubkey@
                    &&& forall|j: int|
                        0 <= j < i ==> (#[trigger] watches[j]).network != order.network
                            || watches[j].script_pubkey@ != order.payment_script_pubkey@
                },
            None => forall|i: int|
                0 <= i < watches.len() ==> (#[trigger] watches[i]).network != order.network
                    || watches[i].script_pubkey@ != order.payment_script_pubkey@,
        }),
{
    lemma_address_at(addresses, id);
    seqs::the_first_that_passes_is_found(
        watches,
        |w: WatchedPayment|
            w.network == order.network && w.script_pubkey@ == order.payment_script_pubkey@,
    );
}

proof fn lemma_address_at(addresses: Seq<AddressView>, id: Seq<u8>)
    ensures
        (match address_at(addresses, id) {
            Some(a) => exists|i: int|
                {
                    &&& 0 <= i < addresses.len()
                    &&& #[trigger] addresses[i] == a
                    &&& a.instance_id@ == id
                    &&& forall|j: int|
                        0 <= j < i ==> (#[trigger] addresses[j]).instance_id@ != id
                },
            None => forall|i: int|
                0 <= i < addresses.len() ==> (#[trigger] addresses[i]).instance_id@ != id,
        }),
    decreases addresses.len(),
{
    if addresses.len() > 0 {
        if addresses[0].instance_id@ == id {
            assert(address_at(addresses, id) == Some(addresses[0]));
        } else {
            let rest = addresses.skip(1);
            lemma_address_at(rest, id);
            assert(address_at(addresses, id) == address_at(rest, id));
            if let Some(a) = address_at(rest, id) {
                let i = choose|i: int|
                    {
                        &&& 0 <= i < rest.len()
                        &&& #[trigger] rest[i] == a
                        &&& a.instance_id@ == id
                        &&& forall|j: int|
                            0 <= j < i ==> (#[trigger] rest[j]).instance_id@ != id
                    };
                assert(addresses[i + 1] == rest[i]);
                assert forall|j: int| 0 <= j < i + 1 implies (
                #[trigger] addresses[j]).instance_id@ != id by {
                    if j > 0 {
                        assert(addresses[j] == rest[j - 1]);
                    }
                }
            } else {
                assert forall|i: int| 0 <= i < addresses.len() implies (
                #[trigger] addresses[i]).instance_id@ != id by {
                    if i > 0 {
                        assert(addresses[i] == rest[i - 1]);
                    }
                }
            }
        }
    }
}

/// Where the contract an order names is not loaded, or it names none, its
/// address is the one its watch names in base58, where that is loaded; an
/// order with neither has none.
pub proof fn a_watch_stands_in_for_an_order_without_an_address(
    addresses: Seq<AddressView>,
    watches: Seq<WatchedPayment>,
    order: Order,
)
    requires
        order.address_instance_id matches Some(id) ==> address_at(addresses, id@) is None,
    ensures
        watch_for(watches, order) is None ==> live_address(addresses, watches, order) is None,
        watch_for(watches, order) matches Some(w) ==> {
            &&& w.contract_id is None ==> live_address(addresses, watches, order) is None
            &&& w.contract_id matches Some(text) ==> {
                &&& base58::base58_bytes(text@) is None ==> live_address(
                    addresses,
                    watches,
                    order,
                ) is None
                &&& base58::base58_bytes(text@) matches Some(id) ==> live_address(
                    addresses,
                    watches,
                    order,
                ) == address_at(addresses, id)
            }
        },
{
}

/// A bridge is a stranger exactly where its name in base58 is not among the
/// recognised ones; strangers keep their order.
pub proof fn a_bridge_that_is_not_recognised_is_a_stranger(
    bridges: Seq<[u8; 32]>,
    bridge: [u8; 32],
    recognised: Seq<Seq<char>>,
)
    ensures
        strangers(Seq::empty(), recognised) == Seq::<Seq<char>>::empty(),
        (forall|i: int| 0 <= i < recognised.len() ==> #[trigger] recognised[i] != base58::base58(
            bridge@,
        )) ==> strangers(bridges.push(bridge), recognised) == strangers(bridges, recognised).push(
            base58::base58(bridge@),
        ),
        (exists|i: int| 0 <= i < recognised.len() && #[trigger] recognised[i] == base58::base58(
            bridge@,
        )) ==> strangers(bridges.push(bridge), recognised) == strangers(bridges, recognised),
{
    reveal(Seq::filter);
    let name = |b: [u8; 32]| base58::base58(b@);
    let all = bridges.push(bridge).map_values(name);
    assert(all.drop_last() =~= bridges.map_values(name));
    assert(all.last() == base58::base58(bridge@));
    assert(strangers(Seq::empty(), recognised) =~= Seq::<Seq<char>>::empty());
}

/// A buyer is warned of an invoice's bridges exactly where it names none or
/// one that is not recognised.
pub proof fn an_invoice_with_a_stranger_among_its_bridges_warns(
    note: BridgeNote,
    bridges: Seq<[u8; 32]>,
    recognised: Seq<Seq<char>>,
)
    requires
        bridge_note_fits(note, bridges, recognised),
    ensures
        bridge_words(note).0 <==> bridges.len() == 0 || exists|i: int|
            0 <= i < bridges.len() && !recognised.contains(
                base58::base58((#[trigger] bridges[i])@),
            ),
        note is NoBridge <==> bridges.len() == 0,
    decreases bridges.len(),
{
    lemma_stranger_among(bridges, recognised);
}

proof fn lemma_stranger_among(bridges: Seq<[u8; 32]>, recognised: Seq<Seq<char>>)
    ensures
        strangers(bridges, recognised).len() > 0 <==> exists|i: int|
            0 <= i < bridges.len() && !recognised.contains(
                base58::base58((#[trigger] bridges[i])@),
            ),
    decreases bridges.len(),
{
    if bridges.len() == 0 {
        reveal(Seq::filter);
    } else {
        let rest = bridges.drop_last();
        let last = bridges.last();
        lemma_stranger_among(rest, recognised);
        assert(rest.push(last) =~= bridges);
        a_bridge_that_is_not_recognised_is_a_stranger(rest, last, recognised);
        if recognised.contains(base58::base58(last@)) {
            if strangers(rest, recognised).len() > 0 {
                let i = choose|i: int|
                    0 <= i < rest.len() && !recognised.contains(
                        base58::base58((#[trigger] rest[i])@),
                    );
                assert(bridges[i] == rest[i]);
            } else {
                assert forall|i: int| 0 <= i < bridges.len() implies recognised.contains(
                    base58::base58((#[trigger] bridges[i])@),
                ) by {
                    if i < rest.len() {
                        assert(bridges[i] == rest[i]);
                    }
                }
            }
        } else {
            assert(bridges[bridges.len() - 1] == last);
        }
    }
}

/// A short name is the first eight characters of a name, or all of them.
pub proof fn a_short_name_is_the_first_eight_characters(id: Seq<char>)
    ensures
        short(id).is_prefix_of(id),
        id.len() >= 8 ==> short(id).len() == 8,
        id.len() < 8 ==> short(id).len() == id.len(),
{
}

/// An order counts as paid in its window only by value confirmed there, of at
/// least its amount and more than none.
pub proof fn an_order_is_paid_by_its_amount_inside_the_window(reading: AddressReading)
    ensures
        reading.in_window_sats == 0 ==> !reading.paid_in_window(),
        reading.in_window_sats < reading.amount_sats ==> !reading.paid_in_window(),
        reading.in_window_sats > 0 && reading.in_window_sats >= reading.amount_sats
            ==> reading.paid_in_window(),
{
}

/// A card that waits for payment says a payment is to be confirmed where the
/// seller's confirmation is waited for, and else what has arrived: the whole
/// amount, some of it, something unconfirmed, or nothing; any other card says
/// what its status says.
pub proof fn the_pill_says_what_has_arrived(reading: AddressReading, held: bool)
    ensures
        held ==> pill_of(OrderStatus::AwaitingPayment, reading, held).1
            == "Payment seen, confirm to mark paid"@,
        !held && reading.in_window_sats > 0 && reading.in_window_sats >= reading.amount_sats
            ==> pill_of(OrderStatus::AwaitingPayment, reading, held).1 == "Payment seen on chain"@,
        !held && reading.in_window_sats > 0 && reading.in_window_sats < reading.amount_sats
            ==> pill_of(OrderStatus::AwaitingPayment, reading, held).1 == "Partial payment seen"@,
        !held && reading.in_window_sats == 0 && reading.pending_sats > 0 ==> pill_of(
            OrderStatus::AwaitingPayment,
            reading,
            held,
        ).1 == "Payment seen, unconfirmed"@,
        !held && reading.in_window_sats == 0 && reading.pending_sats == 0 ==> pill_of(
            OrderStatus::AwaitingPayment,
            reading,
            held,
        ) == ("btc-pill waiting"@, "Awaiting payment"@),
        pill_of(OrderStatus::Paid, reading, held) == ("btc-pill paid"@, "Paid"@),
        pill_of(OrderStatus::PaymentReversed, reading, held) == (
            "btc-pill reversed"@,
            "Payment reversed"@,
        ),
        pill_of(OrderStatus::Cancelled, reading, held) == ("btc-pill cancelled"@, "Cancelled"@),
{
}

/// A seller is told of money outside the window exactly where the invoice
/// names no block, or a payment came before its window or after it. An
/// invoice without a block is told first, then a payment that came before,
/// which is told otherwise where the order is paid; a payment that came after
/// is told as another order's only where it is one's.
pub proof fn money_outside_the_window_is_told(reading: AddressReading, late: bool)
    ensures
        outside_words(reading, late) is None <==> !reading.no_anchor && reading.before_order is None
            && reading.after_window is None,
        reading.no_anchor ==> outside_words(reading, late) == outside_words(reading, !late),
        !reading.no_anchor && reading.before_order is Some ==> outside_words(reading, late)
            == outside_words(reading, !late),
        !reading.no_anchor && (reading.before_order matches Some(h) && reading.in_window_sats > 0
            && reading.in_window_sats >= reading.amount_sats) ==> outside_words(reading, late)
            == Some(
            "This address also holds an older payment, confirmed in block "@ + text::decimal(
                reading.before_order->0 as nat,
            )
                + " before this invoice was made. That one paid for something else; only the payment made after this invoice counts for it."@,
        ),
        !reading.no_anchor && (reading.before_order is Some && (reading.in_window_sats == 0
            || reading.in_window_sats < reading.amount_sats)) ==> outside_words(reading, late)
            == Some(
            "This address already holds a payment that confirmed in block "@ + text::decimal(
                reading.before_order->0 as nat,
            )
                + ", before this invoice was made. It paid for something else and does not settle this invoice, so do not ship against it. Issue a new invoice, which gets a new address."@,
        ),
        !reading.no_anchor && reading.before_order is None && reading.after_window is Some
            ==> outside_words(reading, late) == Some(
            "A payment to this address confirmed in block "@ + text::decimal(
                reading.after_window->0 as nat,
            )
                + ", after this invoice's payment window closed, so Harvest will not mark it paid. "@
                + (if late {
                "It falls inside another of your invoices' windows on this address, so it may be that invoice's payment."@
            } else {
                "It is probably this buyer's late payment: check your wallet and settle it with them directly."@
            }),
        ),
{
}

/// Other invoices on the same address are told of only on a paid order, and
/// only where there are any.
pub proof fn twins_are_told_of_on_a_paid_order(status: OrderStatus, twins: Seq<Seq<char>>)
    ensures
        status !is Paid ==> twins_words(status, twins) is None,
        twins.len() == 0 ==> twins_words(status, twins) is None,
        status is Paid && twins.len() > 0 && twins[0].len() > 0 ==> twins_words(status, twins) is Some,
{
    if twins.len() > 0 {
        assert(text::joined(twins, ", "@).len() >= twins[0].len());
    }
}

/// Without chain data the panel says whether it still connects, has no bridge
/// for the network, or waits for the tip.
pub proof fn missing_chain_data_is_explained(loaded: bool, configured: bool, network: Seq<char>)
    ensures
        no_data_words(false, configured, network) == "No chain data yet. "@
            + "Connecting\u{2026}"@,
        no_data_words(true, false, network) == "No chain data yet. "@ + (
        "This build has no Bitcoin bridge configured for "@ + network + " yet."@),
        no_data_words(true, true, network) == "No chain data yet. "@
            + "Waiting for the bridge to report the chain tip\u{2026}"@,
        "No chain data yet. "@.is_prefix_of(no_data_words(loaded, configured, network)),
{
}

/// A block's line tells its height, how many transactions it has and how long
/// ago it was.
pub proof fn a_block_line_tells_its_block(line: BlockLine, block: BlockRow, now_secs: i64)
    requires
        tells_block(line, block, now_secs),
    ensures
        line.height@ == "#"@ + text::decimal(block.height as nat),
        line.txs@ == text::decimal(block.tx_count as nat) + " tx"@,
        now_secs >= block.block_time ==> line.when@ == time_ago(
            (now_secs - block.block_time) as nat,
        ),
        now_secs < block.block_time ==> line.when@ == "just now"@,
{
}

/// A bridge note names the short names of the bridges it is about, with
/// commas between: all of them where every one is recognised, and else the
/// strangers among them.
pub proof fn a_bridge_note_names_the_bridges_it_is_about(
    ids: Seq<Seq<char>>,
    id: Seq<char>,
    note: BridgeNote,
    bridges: Seq<[u8; 32]>,
    recognised: Seq<Seq<char>>,
)
    requires
        bridge_note_fits(note, bridges, recognised),
    ensures
        short_list(seq![id]) == short(id),
        ids.len() > 0 ==> short_list(ids.push(id)) == short_list(ids) + ", "@ + short(id),
        note matches BridgeNote::Recognised(names) ==> names@ == short_list(
            Seq::new(bridges.len(), |i: int| base58::base58(bridges[i]@)),
        ) && bridge_words(note).1 == "Settled by bridge "@ + names@,
        note matches BridgeNote::Unrecognised(names) ==> names@ == short_list(
            strangers(bridges, recognised),
        ),
{
    let cut = |x: Seq<char>| short(x);
    assert(seq![id].map_values(cut) =~= seq![short(id)]);
    assert(ids.push(id).map_values(cut) =~= ids.map_values(cut).push(short(id)));
    text::a_piece_more_is_joined_by_the_separator(ids.map_values(cut), short(id), ", "@);
    assert(bridges.map_values(|b: [u8; 32]| base58::base58(b@)) =~= Seq::new(
        bridges.len(),
        |i: int| base58::base58(bridges[i]@),
    ));
}

} // verus!
