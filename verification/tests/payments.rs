//! Payments: the seller's book, the address an order names, what has arrived
//! there, and what a card says about it.

use harvest_ui::bitcoin_view::{
    active_network, activity_words, address_of_watch, address_panel, bridge_health, bridge_note,
    bridge_text, card_pill, health_words, heights_to_ask, live_address_for_order, live_panel,
    manual_watches, my_orders,
    no_chain_data, order_card, orders_in_group, relative_time_ago, short_bridge, shown_txs,
    shows_first_run, status_pill, still_watching, submit_watch, tx_status_words,
    unrecognised_bridges, watch_name, AddressPanel, AddressReading, AddressView, BlockLine,
    BlockRow, BookStore, BridgeHealth, BridgeNote, DestinationNote, HeightsToAsk, LivePanel, OrderFacts, OrderGroup, TipView, TxRow, TxRowStatus,
    WatchSubmit, WatchedPayment,
};
use harvest_ui::payment::{AuthorizedOrder, BitcoinNetwork, Moment, Order, OrderStatus};

const PAYMENT_WINDOW_BLOCKS: u32 = 2_016;

fn plain_order() -> Order {
    Order {
        id: [0u8; 32],
        seller_fingerprint: "me".to_string(),
        amount_sats: 1,
        network: BitcoinNetwork::Signet,
        payment_script_pubkey: vec![0x00, 0x14, 0xaa],
        payment_address: "tb1qtest".to_string(),
        trusted_bridges: Vec::new(),
        address_instance_id: None,
        payment_window: None,
        order_binding: None,
        listing_tag: None,
        created_at: Moment { secs: 1_700_000_000, nanos: 0 },
    }
}

fn order(status: OrderStatus, seed: u8) -> AuthorizedOrder {
    let mut order = plain_order();
    order.payment_script_pubkey = vec![0x00, 0x14, seed];
    order.created_at = Moment { secs: 1_700_000_000 + seed as i64, nanos: 0 };
    AuthorizedOrder { order, status }
}

#[test]
fn an_awaiting_order_at_a_store_not_to_be_paid_is_not_listed() {
    let awaiting = order(OrderStatus::AwaitingPayment, 1);
    let cancelled = order(OrderStatus::Cancelled, 2);
    let store = |payable: bool| BookStore {
        owned: true,
        payable,
        orders: vec![awaiting.clone(), cancelled.clone()],
    };
    let stores = vec![store(true)];
    let shown = my_orders(&stores);
    assert_eq!(shown.len(), 2, "a payable store lists both");
    assert_eq!(shown[0].status, OrderStatus::Cancelled, "and the newest comes first");

    let stores = vec![store(false)];
    let shown = my_orders(&stores);
    assert_eq!(shown.len(), 1);
    assert_eq!(shown[0].status, OrderStatus::Cancelled);
}

#[test]
fn the_book_holds_only_the_stores_this_node_owns() {
    let stores = vec![
        BookStore { owned: false, payable: true, orders: vec![order(OrderStatus::Paid, 1)] },
        BookStore { owned: true, payable: true, orders: vec![order(OrderStatus::Paid, 2)] },
        BookStore { owned: true, payable: true, orders: vec![order(OrderStatus::Paid, 3)] },
    ];
    let seeds: Vec<u8> =
        my_orders(&stores).iter().map(|o| o.order.payment_script_pubkey[2]).collect();
    assert_eq!(seeds, vec![3, 2]);
}

const KNOWN_BRIDGE: [u8; 32] = [3u8; 32];

fn recognised() -> Vec<String> {
    vec![bs58::encode(KNOWN_BRIDGE).into_string()]
}

fn order_trusting(bridges: Vec<[u8; 32]>) -> Order {
    let mut order = plain_order();
    order.amount_sats = 50_000;
    order.trusted_bridges = bridges;
    order
}

/// The script of the one address these tests read: the version-0 witness
/// program the BIP-173 example pays.
fn script_of(address: &str) -> Option<Vec<u8>> {
    if address == "tb1qw508d6qejxtdg4y5r3zarvary0c5xw7kxpjzsx" {
        let mut script = vec![0x00, 0x14];
        script.extend_from_slice(&[
            0x75, 0x1e, 0x76, 0xe8, 0x19, 0x91, 0x96, 0xd4, 0x54, 0x94, 0x1c, 0x45, 0xd1, 0xb3,
            0xa3, 0x23, 0xf1, 0x43, 0x3b, 0xd6,
        ]);
        Some(script)
    } else {
        None
    }
}

fn order_paying(address: &str, script: Vec<u8>) -> Order {
    let mut order = plain_order();
    order.payment_address = address.to_string();
    order.payment_script_pubkey = script;
    order
}

fn destination(order: &Order) -> DestinationNote {
    DestinationNote::of(order, &script_of(&order.payment_address))
}

#[test]
fn an_address_that_is_not_the_settling_script_is_not_offered() {
    let honest = order_paying(
        "tb1qw508d6qejxtdg4y5r3zarvary0c5xw7kxpjzsx",
        script_of("tb1qw508d6qejxtdg4y5r3zarvary0c5xw7kxpjzsx").expect("a valid signet address"),
    );
    assert_eq!(destination(&honest), DestinationNote::Agrees);
    assert!(destination(&honest).payable());

    let lying = order_paying(
        "tb1qw508d6qejxtdg4y5r3zarvary0c5xw7kxpjzsx",
        vec![0x00, 0x14, 0xde, 0xad, 0xbe, 0xef],
    );
    assert_eq!(destination(&lying), DestinationNote::Contradicts);
    assert!(
        !destination(&lying).payable(),
        "an address that is not the settling script must not be offered to pay"
    );

    let unreadable = order_paying("not-an-address", vec![0x00, 0x14, 0xaa]);
    assert_eq!(destination(&unreadable), DestinationNote::Unreadable);
    assert!(!destination(&unreadable).payable());
}

#[test]
fn the_address_panel_offers_only_what_settles_the_order() {
    assert_eq!(address_panel(true, DestinationNote::Agrees), AddressPanel::Offer);
    assert_eq!(address_panel(false, DestinationNote::Agrees), AddressPanel::Nothing);
    assert_eq!(address_panel(false, DestinationNote::Contradicts), AddressPanel::Nothing);
    match address_panel(true, DestinationNote::Contradicts) {
        AddressPanel::Withhold(why) => {
            assert!(why.starts_with("This invoice's payment address is not the destination"))
        }
        other => panic!("{other:?}"),
    }
    match address_panel(true, DestinationNote::Unreadable) {
        AddressPanel::Withhold(why) => {
            assert!(why.starts_with("This invoice's payment address cannot be read"))
        }
        other => panic!("{other:?}"),
    }
}

#[test]
fn a_bridge_this_build_trusts_raises_nothing() {
    assert!(unrecognised_bridges(&order_trusting(vec![KNOWN_BRIDGE]), &recognised()).is_empty());
}

#[test]
fn a_bridge_this_build_has_never_heard_of_is_flagged() {
    let stranger = [7u8; 32];
    let flagged = unrecognised_bridges(&order_trusting(vec![stranger]), &recognised());
    assert_eq!(flagged, vec![bs58::encode(stranger).into_string()]);
}

#[test]
fn a_stranger_mixed_in_with_a_known_bridge_is_still_flagged() {
    let stranger = [7u8; 32];
    let flagged = unrecognised_bridges(&order_trusting(vec![KNOWN_BRIDGE, stranger]), &recognised());
    assert_eq!(flagged, vec![bs58::encode(stranger).into_string()]);
}

#[test]
fn a_card_names_the_bridges_in_short() {
    let known = bs58::encode(KNOWN_BRIDGE).into_string();
    let first = bs58::encode([7u8; 32]).into_string();
    let second = bs58::encode([8u8; 32]).into_string();
    assert_eq!(bridge_note(&order_trusting(vec![]), &recognised()), BridgeNote::NoBridge);
    assert_eq!(
        bridge_note(&order_trusting(vec![KNOWN_BRIDGE]), &recognised()),
        BridgeNote::Recognised(known[..8].to_string())
    );
    let note = bridge_note(
        &order_trusting(vec![[7u8; 32], KNOWN_BRIDGE, [8u8; 32]]),
        &recognised(),
    );
    assert_eq!(note, BridgeNote::Unrecognised(format!("{}, {}", &first[..8], &second[..8])));
    let (warns, words) = bridge_text(&note);
    assert!(warns);
    assert!(words.contains(&first[..8]) && words.contains(" \u{2014} check with the seller"));
    assert_eq!(
        bridge_text(&BridgeNote::Recognised("abc".to_string())),
        (false, "Settled by bridge abc".to_string())
    );
    assert!(bridge_text(&BridgeNote::NoBridge).0);
    assert_eq!(short_bridge("abcdefghij"), "abcdefgh");
    assert_eq!(short_bridge("abc"), "abc");
}

/// The contract an order of these tests names for its address.
const OWN_CONTRACT: [u8; 32] = [42u8; 32];

fn followed_order() -> Order {
    let mut order = order_paying(
        "tb1qw508d6qejxtdg4y5r3zarvary0c5xw7kxpjzsx",
        vec![0x00, 0x14, 0xaa],
    );
    order.address_instance_id = Some(OWN_CONTRACT.to_vec());
    order
}

fn a_watch_pointing_at(order: &Order, contract_id: [u8; 32]) -> WatchedPayment {
    WatchedPayment {
        network: order.network,
        script_pubkey: order.payment_script_pubkey.clone(),
        address: order.payment_address.clone(),
        label: None,
        order_id: None,
        contract_id: Some(bs58::encode(contract_id).into_string()),
    }
}

fn a_view(instance_id: [u8; 32], confirmed_sats: u64) -> AddressView {
    AddressView {
        instance_id: instance_id.to_vec(),
        confirmed_sats,
        pending_sats: 0,
        txs: Vec::new(),
    }
}

#[test]
fn a_buyer_sees_the_address_state_without_holding_a_watch() {
    let order = followed_order();
    let addresses = vec![a_view(OWN_CONTRACT, 50_000)];
    let watches: Vec<WatchedPayment> = Vec::new();
    assert!(watches.is_empty(), "the point of this test is that there is no watch");
    assert_eq!(
        live_address_for_order(&addresses, &watches, &order).map(|v| v.confirmed_sats),
        Some(50_000)
    );
}

#[test]
fn a_watch_pointing_elsewhere_does_not_override_the_orders_own_terms() {
    let order = followed_order();
    let watches = vec![a_watch_pointing_at(&order, [0x99u8; 32])];
    let addresses = vec![a_view([0x99u8; 32], 999_999), a_view(OWN_CONTRACT, 50_000)];
    assert_eq!(
        live_address_for_order(&addresses, &watches, &order).map(|v| v.confirmed_sats),
        Some(50_000),
        "the order's own terms decide which address is shown"
    );
}

#[test]
fn an_order_with_no_build_still_resolves_through_a_watch() {
    let mut order = followed_order();
    order.address_instance_id = None;
    let watches = vec![a_watch_pointing_at(&order, [0x99u8; 32])];
    let addresses = vec![a_view([0x99u8; 32], 777)];
    assert_eq!(
        live_address_for_order(&addresses, &watches, &order).map(|v| v.confirmed_sats),
        Some(777)
    );
}

#[test]
fn a_watch_of_another_script_or_network_shows_nothing() {
    let mut order = followed_order();
    order.address_instance_id = None;
    let addresses = vec![a_view([0x99u8; 32], 777)];
    let mut elsewhere = a_watch_pointing_at(&order, [0x99u8; 32]);
    elsewhere.script_pubkey = vec![1, 2, 3];
    assert!(live_address_for_order(&addresses, &vec![elsewhere], &order).is_none());
    let mut other_network = a_watch_pointing_at(&order, [0x99u8; 32]);
    other_network.network = BitcoinNetwork::Mainnet;
    assert!(live_address_for_order(&addresses, &vec![other_network], &order).is_none());
    let mut junk = a_watch_pointing_at(&order, [0x99u8; 32]);
    junk.contract_id = Some("0OIl is not base58".to_string());
    assert!(address_of_watch(&addresses, &junk).is_none());
    let mut unknown = a_watch_pointing_at(&order, [0x99u8; 32]);
    unknown.contract_id = None;
    assert!(address_of_watch(&addresses, &unknown).is_none());
}

fn order_anchored_at(height: u32) -> Order {
    let mut order = plain_order();
    order.amount_sats = 10_000;
    order.payment_window = Some((height + 1, height + PAYMENT_WINDOW_BLOCKS));
    order
}

fn address_with(confirmed_at: &[(u32, u64)]) -> AddressView {
    AddressView {
        instance_id: vec![1u8; 32],
        confirmed_sats: confirmed_at.iter().map(|(_, v)| v).sum(),
        pending_sats: 0,
        txs: confirmed_at
            .iter()
            .map(|&(anchor_height, value_sats)| TxRow {
                txid_display: format!("tx{anchor_height}"),
                value_sats,
                status: TxRowStatus::Confirmed { anchor_height },
            })
            .collect(),
    }
}

#[test]
fn a_payment_older_than_the_invoice_does_not_light_the_paid_pill() {
    let order = order_anchored_at(150);
    let reading = AddressReading::of(&order, Some(&address_with(&[(100, 10_000)])));
    assert_eq!(reading.in_window_sats, 0, "the old payment counted as this invoice's");
    assert_eq!(
        status_pill(OrderStatus::AwaitingPayment, &reading, false),
        ("btc-pill waiting", "Awaiting payment"),
        "the card read a payment older than the invoice as this invoice's"
    );
    let note = reading.outside_note(false).expect("the seller must be told");
    assert!(note.contains("block 100"), "{note}");
    assert!(note.contains("do not ship"), "{note}");
}

#[test]
fn the_card_applies_the_verifiers_window() {
    let order = order_anchored_at(150);
    let last = 150 + PAYMENT_WINDOW_BLOCKS;
    for (height, counts) in [(150, false), (151, true), (last, true), (last + 1, false)] {
        let reading = AddressReading::of(&order, Some(&address_with(&[(height, 7)])));
        assert_eq!(
            reading.in_window_sats > 0,
            counts,
            "a payment at block {height} for an order anchored at 150"
        );
    }
    let late = AddressReading::of(&order, Some(&address_with(&[(last + 1, 7)])));
    assert!(late.outside_note(false).expect("said").contains("window closed"));
}

#[test]
fn a_payment_inside_the_window_reads_as_seen() {
    let order = order_anchored_at(150);
    let reading = AddressReading::of(&order, Some(&address_with(&[(151, 10_000)])));
    assert_eq!(reading.in_window_sats, 10_000);
    assert_eq!(reading.in_window_heights, vec![151]);
    assert_eq!(reading.outside_note(false), None);
}

#[test]
fn dust_inside_the_window_reads_as_partial_not_paid() {
    let order = order_anchored_at(150);
    let dust = AddressReading::of(&order, Some(&address_with(&[(151, 546)])));
    assert_eq!(
        status_pill(OrderStatus::AwaitingPayment, &dust, false),
        ("btc-pill pending", "Partial payment seen")
    );
    let full = AddressReading::of(&order, Some(&address_with(&[(151, 10_000)])));
    assert_eq!(
        status_pill(OrderStatus::AwaitingPayment, &full, false),
        ("btc-pill paid", "Payment seen on chain")
    );
    assert_ne!(status_pill(OrderStatus::AwaitingPayment, &full, true).0, "btc-pill paid");
}

#[test]
fn only_a_settling_payment_is_in_sight() {
    let order = order_anchored_at(150);
    let window_end = order.payment_window.expect("anchored").1;
    // An order accepts a new payment until its window's last block is the tip.
    let accepts = |tip: Option<u32>| tip.map_or(true, |tip| tip < window_end);
    let dust = AddressReading::of(&order, Some(&address_with(&[(151, 546)])));
    assert!(!dust.sight(&order, accepts(Some(160))).settles());
    let full = AddressReading::of(&order, Some(&address_with(&[(151, 10_000)])));
    assert!(full.sight(&order, accepts(Some(window_end + 50))).covered);
    let with_mempool = |confirmed: u64, unconfirmed: u64| {
        let mut view = address_with(&[(151, confirmed)]);
        view.txs.push(TxRow {
            txid_display: "mempool".to_string(),
            value_sats: unconfirmed,
            status: TxRowStatus::Unconfirmed,
        });
        view.pending_sats = unconfirmed;
        view
    };
    let pending = AddressReading::of(&order, Some(&with_mempool(4_000, 6_000)));
    assert!(pending.sight(&order, accepts(Some(160))).in_flight);
    assert!(pending.sight(&order, accepts(None)).in_flight);
    assert!(
        !pending.sight(&order, accepts(Some(window_end))).settles(),
        "value still in flight at the window's end can never settle it"
    );
    assert!(!AddressReading::of(&order, Some(&with_mempool(4_000, 5_999)))
        .sight(&order, accepts(Some(160)))
        .settles());
    let mut before_tip = address_with(&[(151, 6_000)]);
    before_tip.pending_sats = 6_000;
    assert!(!AddressReading::of(&order, Some(&before_tip))
        .sight(&order, accepts(Some(160)))
        .settles());
}

#[test]
fn a_lapsed_invoice_pills_as_lapsed() {
    let order = order_anchored_at(150);
    let nothing = AddressReading::of(&order, None);
    assert_eq!(
        card_pill(OrderStatus::AwaitingPayment, &nothing, false, true),
        ("btc-pill cancelled", "Lapsed")
    );
    assert_eq!(
        card_pill(OrderStatus::AwaitingPayment, &nothing, false, false),
        ("btc-pill waiting", "Awaiting payment")
    );
}

#[test]
fn each_note_names_its_own_reason() {
    let order = order_anchored_at(150);
    let both = AddressReading::of(&order, Some(&address_with(&[(100, 10_000), (151, 10_000)])));
    let note = both.outside_note(false).expect("the older payment is mentioned");
    assert!(!note.contains("Issue a new invoice"), "{note}");

    let late = AddressReading::of(
        &order,
        Some(&address_with(&[(150 + PAYMENT_WINDOW_BLOCKS + 1, 10_000)])),
    );
    assert!(late.outside_note(false).expect("said").contains("late payment"));
    let theirs = late.outside_note(true).expect("said");
    assert!(!theirs.contains("late payment"), "{theirs}");
    assert!(theirs.contains("another of your invoices"), "{theirs}");

    let mut anchorless = order_anchored_at(150);
    anchorless.payment_window = None;
    let reading = AddressReading::of(&anchorless, Some(&address_with(&[(100, 10_000)])));
    let note = reading.outside_note(false).expect("said");
    assert!(note.contains("names no Bitcoin block"), "{note}");
    assert_eq!(reading.before_order, None);
}

#[test]
fn the_nearest_heights_outside_the_window_are_reported() {
    let order = order_anchored_at(150);
    let last = 150 + PAYMENT_WINDOW_BLOCKS;
    let mut view = address_with(&[(90, 1), (120, 1), (100, 1), (last + 9, 1), (last + 3, 1)]);
    view.txs.push(TxRow {
        txid_display: "gone".to_string(),
        value_sats: 1_000_000,
        status: TxRowStatus::Retracted,
    });
    let reading = AddressReading::of(&order, Some(&view));
    assert_eq!(reading.before_order, Some(120));
    assert_eq!(reading.after_window, Some(last + 3));
    assert_eq!(reading.in_window_sats, 0);
    assert_eq!(reading.unconfirmed_sats, 0);
}

#[test]
fn value_too_large_for_the_counter_stops_at_its_end() {
    let order = order_anchored_at(150);
    let reading =
        AddressReading::of(&order, Some(&address_with(&[(151, u64::MAX), (152, 5)])));
    assert_eq!(reading.in_window_sats, u64::MAX);
    assert_eq!(reading.in_window_heights, vec![151, 152]);
    assert!(reading.sight(&order, true).covered);
}

#[test]
fn every_status_has_its_pill() {
    let nothing = AddressReading::of(&order_anchored_at(150), None);
    assert_eq!(status_pill(OrderStatus::Paid, &nothing, false), ("btc-pill paid", "Paid"));
    assert_eq!(
        status_pill(OrderStatus::PaymentReversed, &nothing, false),
        ("btc-pill reversed", "Payment reversed")
    );
    assert_eq!(
        status_pill(OrderStatus::Cancelled, &nothing, false),
        ("btc-pill cancelled", "Cancelled")
    );
    let mut pending = AddressReading::of(&order_anchored_at(150), None);
    pending.pending_sats = 3;
    assert_eq!(
        status_pill(OrderStatus::AwaitingPayment, &pending, false),
        ("btc-pill pending", "Payment seen, unconfirmed")
    );
    assert_eq!(
        status_pill(OrderStatus::AwaitingPayment, &pending, true),
        ("btc-pill pending", "Payment seen, confirm to mark paid")
    );
}

fn facts() -> OrderFacts {
    OrderFacts {
        recognised: recognised(),
        address_script: None,
        held: false,
        late_is_another_orders: false,
        lapsed: false,
        offers_address: true,
        twins: Vec::new(),
    }
}

#[test]
fn a_card_brings_the_answers_together() {
    let mut terms = order_anchored_at(150);
    terms.trusted_bridges = vec![KNOWN_BRIDGE];
    let waiting =
        AuthorizedOrder { order: terms.clone(), status: OrderStatus::AwaitingPayment };
    let mut known = facts();
    known.address_script = Some(terms.payment_script_pubkey.clone());
    let card = order_card(&waiting, Some(&address_with(&[(100, 10_000)])), &known);
    assert_eq!(card.pill, ("btc-pill waiting", "Awaiting payment"));
    assert!(card.outside_note.expect("said").contains("block 100"));
    assert_eq!(card.address, AddressPanel::Offer);
    assert!(!card.bridges.0);
    assert!(!card.can_confirm);
    assert!(card.twins_note.is_none());

    let paid = AuthorizedOrder { order: terms, status: OrderStatus::Paid };
    let mut twinned = facts();
    twinned.offers_address = false;
    twinned.twins = vec!["one".to_string(), "two".to_string()];
    let card = order_card(&paid, None, &twinned);
    assert_eq!(card.pill, ("btc-pill paid", "Paid"));
    assert!(card.outside_note.is_none());
    assert_eq!(card.address, AddressPanel::Nothing);
    assert!(card.twins_note.expect("said").starts_with("Your invoice one, two uses this same"));
}

#[test]
fn the_network_shown_is_that_of_the_first_watch() {
    let watch = a_watch_pointing_at(&plain_order(), [1u8; 32]);
    let none: Vec<WatchedPayment> = Vec::new();
    assert_eq!(
        active_network(&vec![watch], Some(BitcoinNetwork::Mainnet), BitcoinNetwork::Regtest),
        BitcoinNetwork::Signet
    );
    assert_eq!(
        active_network(&none, Some(BitcoinNetwork::Mainnet), BitcoinNetwork::Regtest),
        BitcoinNetwork::Mainnet
    );
    assert_eq!(active_network(&none, None, BitcoinNetwork::Regtest), BitcoinNetwork::Regtest);
}

#[test]
fn health_follows_the_chain_data_and_not_the_configuration() {
    let signet = BitcoinNetwork::Signet;
    let tip = |time: Option<u32>| Some(TipView {
        tip_height: Some(7),
        last_block_time: time,
        recent_blocks: Vec::new(),
    });
    assert_eq!(bridge_health(true, false, signet, &None, 0), BridgeHealth::NotConfigured);
    assert_eq!(bridge_health(false, false, signet, &None, 0), BridgeHealth::WaitingForData);
    assert_eq!(bridge_health(true, true, signet, &None, 0), BridgeHealth::WaitingForData);
    assert_eq!(bridge_health(true, false, signet, &tip(None), 0), BridgeHealth::WaitingForData);
    assert_eq!(bridge_health(true, false, signet, &tip(Some(1_000)), 4_599), BridgeHealth::Online);
    assert_eq!(bridge_health(true, false, signet, &tip(Some(1_000)), 4_600), BridgeHealth::Stale);
    assert_eq!(bridge_health(true, false, signet, &tip(Some(1_000)), -5), BridgeHealth::Online);
    assert_eq!(
        bridge_health(true, false, BitcoinNetwork::Regtest, &tip(Some(0)), i64::MAX),
        BridgeHealth::Online
    );
    assert_eq!(health_words(BridgeHealth::Online), ("btc-dot online", "Online"));
    assert_eq!(health_words(BridgeHealth::Stale).0, "btc-dot offline");
}

#[test]
fn block_times_read_in_whole_units() {
    assert_eq!(relative_time_ago(1_000, 1_059), "just now");
    assert_eq!(relative_time_ago(1_000, 900), "just now");
    assert_eq!(relative_time_ago(1_000, 1_060), "1 minute ago");
    assert_eq!(relative_time_ago(0, 3_599), "59 minutes ago");
    assert_eq!(relative_time_ago(0, 3_600), "1 hour ago");
    assert_eq!(relative_time_ago(0, 7_200), "2 hours ago");
    assert_eq!(relative_time_ago(0, 86_400), "1 day ago");
    assert_eq!(relative_time_ago(0, 3 * 86_400 + 5), "3 days ago");
}

#[test]
fn first_run_is_for_someone_with_nothing_yet() {
    assert!(shows_first_run(true, 0, 0, 0));
    assert!(!shows_first_run(false, 0, 0, 0));
    assert!(!shows_first_run(true, 1, 0, 0));
    assert!(!shows_first_run(true, 0, 1, 0));
    assert!(!shows_first_run(true, 0, 0, 1));
    assert_eq!(no_chain_data(false, false, "signet"), "No chain data yet. Connecting\u{2026}");
    assert_eq!(
        no_chain_data(true, false, "signet"),
        "No chain data yet. This build has no Bitcoin bridge configured for signet yet."
    );
    assert_eq!(
        no_chain_data(true, true, "signet"),
        "No chain data yet. Waiting for the bridge to report the chain tip\u{2026}"
    );
}

/// The no-data words also stand for a tip that came without blocks.
#[test]
fn the_live_panel_shows_blocks_once_there_are_some() {
    let silent = LivePanel::NoData("No chain data yet. Connecting\u{2026}".to_string());
    assert_eq!(live_panel(&None, false, false, "signet", 1_000), silent);
    let mut tip = TipView {
        tip_height: Some(7),
        last_block_time: Some(940),
        recent_blocks: Vec::new(),
    };
    assert_eq!(live_panel(&Some(tip.clone()), false, false, "signet", 1_000), silent);
    tip.recent_blocks = vec![
        BlockRow { height: 7, block_time: 940, tx_count: 12 },
        BlockRow { height: 6, block_time: 999, tx_count: 1 },
    ];
    let line = |height: &str, txs: &str, when: &str| BlockLine {
        height: height.to_string(),
        txs: txs.to_string(),
        when: when.to_string(),
    };
    assert_eq!(
        live_panel(&Some(tip), false, false, "signet", 1_000),
        LivePanel::Blocks(vec![
            line("#7", "12 tx", "1 minute ago"),
            line("#6", "1 tx", "just now"),
        ])
    );
}

/// A card asks about the first late height, and, once paid, about each height
/// inside the window.
#[test]
fn a_card_asks_about_the_heights_that_decide() {
    let terms = order_anchored_at(150);
    let late = 150 + PAYMENT_WINDOW_BLOCKS + 1_000;
    let seen = address_with(&[(late + 5, 1), (160, 2), (100, 3), (late, 4), (155, 5)]);
    let mut order = AuthorizedOrder { order: terms, status: OrderStatus::AwaitingPayment };
    assert_eq!(
        heights_to_ask(&order, Some(&seen)),
        HeightsToAsk { late: Some(late), settled: Vec::new() }
    );
    order.status = OrderStatus::Paid;
    assert_eq!(
        heights_to_ask(&order, Some(&seen)),
        HeightsToAsk { late: Some(late), settled: vec![160, 155] }
    );
    assert_eq!(
        heights_to_ask(&order, None),
        HeightsToAsk { late: None, settled: Vec::new() }
    );
}

#[test]
fn orders_are_grouped_by_status_and_keep_their_order() {
    let all = [
        order(OrderStatus::Paid, 1),
        order(OrderStatus::Cancelled, 2),
        order(OrderStatus::AwaitingPayment, 3),
        order(OrderStatus::PaymentReversed, 4),
        order(OrderStatus::Paid, 5),
    ];
    let refs: Vec<&AuthorizedOrder> = all.iter().collect();
    let seeds = |group: OrderGroup| -> Vec<u8> {
        orders_in_group(&refs, group).iter().map(|o| o.order.payment_script_pubkey[2]).collect()
    };
    assert_eq!(seeds(OrderGroup::Awaiting), vec![3]);
    assert_eq!(seeds(OrderGroup::Paid), vec![1, 5]);
    assert_eq!(seeds(OrderGroup::Other), vec![2, 4]);
}

#[test]
fn only_manual_watches_are_listed() {
    let manual = a_watch_pointing_at(&plain_order(), [1u8; 32]);
    let mut tied = manual.clone();
    tied.order_id = Some([9u8; 32]);
    let watches = vec![tied, manual.clone()];
    let listed = manual_watches(&watches);
    assert_eq!(listed.len(), 1);
    assert_eq!(*listed[0], manual);
    assert_eq!(watch_name(&manual), manual.address);
    let mut labelled = manual.clone();
    labelled.label = Some(" Rent ".to_string());
    assert_eq!(watch_name(&labelled), " Rent ");
}

#[test]
fn a_watched_address_says_what_arrived() {
    let mut view = a_view([1u8; 32], 0);
    assert_eq!(activity_words(&view, "0 BTC", "0 BTC"), "No activity yet");
    view.confirmed_sats = 5;
    assert_eq!(activity_words(&view, "5 sats", "0"), "5 sats confirmed");
    view.pending_sats = 6;
    assert_eq!(activity_words(&view, "5 sats", "6 sats"), "5 sats confirmed \u{b7} 6 sats pending");
    view.confirmed_sats = 0;
    assert_eq!(activity_words(&view, "", "6 sats"), " \u{b7} 6 sats pending");
    assert_eq!(shown_txs(&view), 0);
    assert_eq!(
        shown_txs(&address_with(&[(1, 1), (2, 1), (3, 1), (4, 1), (5, 1), (6, 1)])),
        5
    );
    assert_eq!(tx_status_words(TxRowStatus::Unconfirmed), "unconfirmed");
    assert_eq!(tx_status_words(TxRowStatus::Confirmed { anchor_height: 4 }), "confirmed");
    assert_eq!(tx_status_words(TxRowStatus::Retracted), "reversed");
    assert_eq!(still_watching("no reply"), "Couldn't stop watching: no reply");
}

#[test]
fn a_watch_needs_an_address_and_a_ghost_key() {
    let signet = BitcoinNetwork::Signet;
    assert_eq!(
        submit_watch(true, signet, "  ", "", Ok(vec![1])),
        WatchSubmit::Disabled
    );
    assert_eq!(
        submit_watch(false, signet, "tb1q", "", Ok(vec![1])),
        WatchSubmit::AskForGhostKey
    );
    assert_eq!(
        submit_watch(true, signet, "tb1q", "", Err("not an address".to_string())),
        WatchSubmit::Refuse("not an address".to_string())
    );
    match submit_watch(true, signet, "tb1q", " Rent ", Ok(vec![1, 2])) {
        WatchSubmit::Watch(w) => {
            assert_eq!(w.label, Some(" Rent ".to_string()));
            assert_eq!(w.script_pubkey, vec![1, 2]);
            assert_eq!(w.address, "tb1q");
            assert_eq!((w.order_id, w.contract_id), (None, None));
        }
        other => panic!("{other:?}"),
    }
    match submit_watch(true, signet, "tb1q", "  ", Ok(vec![1, 2])) {
        WatchSubmit::Watch(w) => assert_eq!(w.label, None),
        other => panic!("{other:?}"),
    }
}
