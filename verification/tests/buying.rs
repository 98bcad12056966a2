//! Asking to buy, paying and complaining, on the buyer's side; invoices and
//! answers, on the seller's.

use ed25519_dalek::SigningKey;
use harvest_ui::buy_view::{
    accept, accept_note, accept_panel, buy_words, buys_at_once, cancel_purchase, delivery_regions, file_complaint, fresh_nonce,
    hardest_remedy, instant_wait, kept_heading, kept_purchases_to_list, kept_row,
    manual_answer_refusal, note_with_picks, opening_amount, parse_wanted, pay_this_order,
    purchase_body, remedy, remedy_text, request, seller_answers, sent_now, sent_words, settled_purchase,
    AcceptPanel, BuyDraft, BuyerValues, ComplaintPanel, ComplaintTarget, InstantWait,
    KeepPanel, KeptPurchase, KeptRow, PaymentBlocker, PurchaseBody, PurchaseFacts,
    Remedy, Sent, ShownPurchase, DAY_MS, INSTANT_WAIT_MS,
};
use harvest_ui::invoice_form::{
    amount_warning, cancel_invoice, invoice_control, invoices_issued_by, issue_invoice,
    issue_panel, issued_words, key_not_saved, mark_despatched, parse_amount,
    parse_required_confirmations, payment_key_panel, pick_network, reissue_words, submitted_key,
    AnsweredRequest, ControlState, InvoiceControl, InvoiceDraft, InvoiceListing, InvoiceSubmit,
    IssuePanel, KeyPanel, OfferedNetwork, MAX_REQUIRED_CONFIRMATIONS,
};
use harvest_ui::listing::{
    ChoiceGroup, DeliveryPrice, FixedCheckout, Listing, ListingKind, RegionPrice,
};
use harvest_ui::message_view::{Addressing, ConversationMessage, DeliveryStep, MessageContent};
use harvest_ui::payment::{AuthorizedOrder, BitcoinNetwork, Moment, Order, OrderStatus};
use harvest_ui::reputation_view::FeedbackCategory;

fn order(seller: &str, minutes: i64) -> AuthorizedOrder {
    AuthorizedOrder {
        order: Order {
            id: [minutes as u8; 32],
            seller_fingerprint: seller.to_string(),
            amount_sats: 1_000,
            network: BitcoinNetwork::Signet,
            payment_script_pubkey: vec![0x00, 0x14, minutes as u8],
            payment_address: format!("tb1qexample{minutes}"),
            trusted_bridges: Vec::new(),
            address_instance_id: None,
            payment_window: None,
            order_binding: None,
            listing_tag: None,
            created_at: Moment { secs: 1_700_000_000 + minutes * 60, nanos: 0 },
        },
        status: OrderStatus::AwaitingPayment,
    }
}

/// A seller answers an instant request by hand only when no order for it is
/// published and the buyer dated it within a day of now.
#[test]
fn a_manual_answer_is_refused_when_answered_or_far_dated() {
    let now = 1_800_000_000_000u64;
    let request = |at: i64| AnsweredRequest { order_id: [4; 32], requested_at_ms: at };
    let fresh = request(now as i64 - 60_000);
    assert_eq!(manual_answer_refusal(&Vec::new(), &fresh, now), None);
    let mut answered = order("", 0);
    answered.order.id = fresh.order_id;
    assert!(manual_answer_refusal(&vec![answered], &fresh, now).is_some());
    let day = 24 * 60 * 60 * 1000;
    assert_eq!(DAY_MS, day as u64);
    assert!(manual_answer_refusal(&Vec::new(), &request(now as i64 - 2 * day), now).is_some());
    assert!(manual_answer_refusal(&Vec::new(), &request(now as i64 + 2 * day), now).is_some());
}

/// Waiting until the limit, "not responding" after it, and an answer shown
/// whenever it comes, including after the limit.
#[test]
fn an_instant_request_waits_thirty_seconds_and_an_answer_always_wins() {
    let sent = 1_000_000;
    assert_eq!(instant_wait(sent, sent, false), InstantWait::Waiting);
    assert_eq!(instant_wait(sent, sent + INSTANT_WAIT_MS - 1, false), InstantWait::Waiting);
    assert_eq!(instant_wait(sent, sent + INSTANT_WAIT_MS, false), InstantWait::NotResponding);
    assert_eq!(instant_wait(sent, sent + 5, true), InstantWait::Answered);
    assert_eq!(instant_wait(sent, sent + 10 * INSTANT_WAIT_MS, true), InstantWait::Answered);
    // A clock that went backwards is still waiting, not a panic.
    assert_eq!(instant_wait(sent, sent - 1, false), InstantWait::Waiting);
    // Nor is a request sent at the end of time a panic.
    assert_eq!(instant_wait(u64::MAX, u64::MAX, false), InstantWait::Waiting);
}

fn message(addressing: Addressing, content: MessageContent) -> ConversationMessage {
    ConversationMessage {
        addressing,
        timestamp: Moment { secs: 1_700_000_000, nanos: 0 },
        digest: [0u8; 32],
        content,
    }
}

/// Only an acceptance or a decline addressed to the buyer is an answer.
#[test]
fn only_the_sellers_acceptance_or_decline_counts_as_an_answer() {
    let accepted =
        MessageContent::OrderAccepted { order_id: [1u8; 32], short: "01010101".into() };
    let thread = vec![
        message(Addressing::ToBuyer, accepted.clone()),
        message(Addressing::ToBuyer, MessageContent::Decline { reason: "Sold out".into() }),
        message(Addressing::ToBuyer, MessageContent::Text("Hello".into())),
        message(Addressing::ToSeller, accepted),
    ];
    assert_eq!(seller_answers(&thread), 2);
}

fn jam() -> Listing {
    Listing {
        id: [0u8; 32],
        title: "Jam".into(),
        description: String::new(),
        kind: ListingKind::Sale,
        price: None,
        created_at: Moment { secs: 0, nanos: 0 },
        checkout: None,
        choices: vec![
            ChoiceGroup { name: "Flavour".into(), options: vec!["Fig".into(), "Plum".into()] },
            ChoiceGroup { name: "Size".into(), options: vec!["Small".into()] },
        ],
    }
}

#[test]
fn a_quote_request_carries_the_picks_in_its_note() {
    let listing = jam();
    let picks = vec!["Fig".to_string(), "Small".to_string()];
    assert_eq!(
        note_with_picks(&listing, &picks, "By Friday"),
        "Flavour: Fig\nSize: Small\nBy Friday"
    );
    assert_eq!(note_with_picks(&listing, &picks, ""), "Flavour: Fig\nSize: Small");
}

/// A seller's panel shows no other identity's invoices.
#[test]
fn a_sellers_panel_shows_only_their_own_invoices() {
    let orders = vec![order("me", 1), order("someone-else", 2), order("me", 3)];

    let mine = invoices_issued_by(&orders, "me");

    assert_eq!(mine.len(), 2);
    assert!(mine.iter().all(|o| o.order.seller_fingerprint == "me"));
}

/// Newest first.
#[test]
fn invoices_are_listed_newest_first() {
    let orders = vec![order("me", 1), order("me", 3), order("me", 2)];

    let mine = invoices_issued_by(&orders, "me");

    let addresses: Vec<&str> = mine.iter().map(|o| o.order.payment_address.as_str()).collect();
    assert_eq!(addresses, vec!["tb1qexample3", "tb1qexample2", "tb1qexample1"]);
}

#[test]
fn a_seller_with_no_invoices_gets_an_empty_list() {
    assert!(invoices_issued_by(&Vec::new(), "me").is_empty());
    assert!(invoices_issued_by(&vec![order("someone-else", 1)], "me").is_empty());
}

/// The seller's forms refuse what a buyer would refuse to pay.
#[test]
fn the_confirmations_input_refuses_zero_and_more_than_the_cap() {
    assert_eq!(parse_required_confirmations(" 1 "), Ok(1));
    assert_eq!(
        parse_required_confirmations(&MAX_REQUIRED_CONFIRMATIONS.to_string()),
        Ok(MAX_REQUIRED_CONFIRMATIONS)
    );
    let too_many = parse_required_confirmations(&(MAX_REQUIRED_CONFIRMATIONS + 1).to_string())
        .expect_err("over the cap");
    assert!(too_many.contains("At most 144"), "{too_many}");
    for refused in ["0", "", "two", "-1"] {
        let why = parse_required_confirmations(refused).expect_err(refused);
        assert!(why.contains("At least one"), "{refused}: {why}");
    }
}

fn draft(quantity: &str) -> BuyDraft {
    let mut draft = BuyDraft::open(2);
    draft.quantity = quantity.into();
    draft.shipping = " 12 Example St ".into();
    draft.note = " By Friday ".into();
    draft.picks = vec!["Fig".into(), "Small".into()];
    draft
}

#[test]
fn a_quote_is_asked_for_with_what_was_typed() {
    let opened = BuyDraft::open(2);
    assert_eq!(opened.quantity, "1");
    assert_eq!(opened.picks, vec![String::new(), String::new()]);

    let asked = draft("3").request(&jam(), false, None, None, 0).expect("asks");
    assert_eq!(asked.quantity, 3);
    assert_eq!(asked.shipping, "12 Example St");
    assert_eq!(asked.note, "Flavour: Fig\nSize: Small\nBy Friday");
    assert!(asked.selection.is_none());
    assert!(draft("0").request(&jam(), false, None, None, 0).is_none());
    assert!(draft("many").request(&jam(), false, None, None, 0).is_none());
    assert_eq!(parse_wanted(" 3 "), Some(3));
    assert_eq!(parse_wanted("0"), None);
}

#[test]
fn an_instant_order_carries_its_choices_and_the_total_it_expects() {
    let mut typed = draft("3");
    typed.region = "UK".into();
    assert_eq!(typed.total_question(true), Some((3, Some("UK".to_string()))));
    assert_eq!(typed.total_question(false), None);
    assert_eq!(draft("3").total_question(true), Some((3, None)));

    let asked =
        typed.request(&jam(), true, Some(900), Some([6; 16]), 1_800_000_000_000).expect("asks");
    assert_eq!(asked.note, "By Friday");
    let selection = asked.selection.expect("an instant order");
    assert_eq!(selection.nonce, [6; 16]);
    assert_eq!(selection.region, Some("UK".to_string()));
    assert_eq!(selection.choices, vec!["Fig".to_string(), "Small".to_string()]);
    assert_eq!(selection.expected_total_sats, 900);
    assert_eq!(selection.requested_at_ms, 1_800_000_000_000);
    // Without a total, or without a nonce, nothing is asked.
    assert!(typed.request(&jam(), true, None, Some([6; 16]), 0).is_none());
    assert!(typed.request(&jam(), true, Some(900), None, 0).is_none());
    assert!(typed.is_ready(true, Some(900)));
    assert!(!typed.is_ready(true, None));
}

/// An instant order is waited for, a quote is not.
#[test]
fn a_buyer_can_ask_for_a_total_instead() {
    assert!(buys_at_once(true, false));
    assert!(!buys_at_once(true, true));
    assert!(!buys_at_once(false, false));
    assert_eq!(buy_words(true).button, "Buy now");
    assert!(buy_words(true).offers_quote);
    assert_eq!(buy_words(false).button, "Send this request");
    assert!(buy_words(false).intro.contains("the seller decides whether to accept"));

    let instant = draft("3").request(&jam(), true, Some(900), Some([6; 16]), 7).expect("asks");
    assert_eq!(sent_now(&instant, 7, 2), Some(Sent { at_ms: 7, answers_before: 2 }));
    let quote = draft("3").request(&jam(), false, None, None, 7).expect("asks");
    assert_eq!(sent_now(&quote, 7, 2), None);
}

/// Two nonces are two different ones.
#[test]
fn nonces_are_fresh() {
    let one = fresh_nonce().expect("random bytes");
    let other = fresh_nonce().expect("random bytes");
    assert_ne!(one, other);
}

#[test]
fn delivery_is_offered_where_a_listing_ships_by_region() {
    let mut listing = jam();
    assert!(delivery_regions(&listing).is_empty());
    listing.checkout = Some(FixedCheckout {
        unit_sats: 5,
        delivery: DeliveryPrice::ByRegion(vec![
            RegionPrice { region: "UK".into(), sats: 10 },
            RegionPrice { region: "EU".into(), sats: 20 },
        ]),
    });
    assert_eq!(delivery_regions(&listing), vec!["UK".to_string(), "EU".to_string()]);
    listing.checkout =
        Some(FixedCheckout { unit_sats: 5, delivery: DeliveryPrice::Included });
    assert!(delivery_regions(&listing).is_empty());
}

#[test]
fn a_sent_request_says_what_became_of_it() {
    assert!(sent_words("Jam", &None, 0, 0).starts_with("Your request for Jam has been handed"));
    let sent = Some(Sent { at_ms: 1_000, answers_before: 1 });
    assert!(sent_words("Jam", &sent, 2_000, 1).starts_with("Your order for Jam has been sent."));
    assert!(sent_words("Jam", &sent, 31_000, 1).contains("isn't responding"));
    assert!(sent_words("Jam", &sent, 99_000, 2).contains("has answered"));
}

#[test]
fn a_request_goes_out_as_a_message_does() {
    let identity = SigningKey::from_bytes(&[0x71; 32]).verifying_key().to_bytes();
    let steps = request(&identity, 3, None, Ok(vec![9]), Ok(vec![5; 32])).expect("goes out");
    assert_eq!(steps[0], DeliveryStep::Subscribe(vec![5; 32]));
    assert_eq!(steps[1], DeliveryStep::HandOver(vec![5; 32], vec![9]));
    assert!(matches!(&steps[2], DeliveryStep::Record(words, sealed)
        if words.contains('3') && *sealed == vec![9]));
    assert_eq!(
        request(&identity, 3, Some(900), Err("seal".into()), Ok(vec![5; 32])),
        Err("seal".to_string())
    );
    assert_eq!(
        request(&identity, 3, Some(900), Ok(vec![9]), Err("nowhere".into())),
        Err("nowhere".to_string())
    );
    assert!(request(&[2; 32], 3, None, Ok(vec![9]), Ok(vec![5; 32]))
        .unwrap_err()
        .starts_with("this store's identity key is unusable: "));
}

/// The remedy told is the hardest of those the blockers call for.
#[test]
fn the_hardest_remedy_is_the_one_told() {
    assert_eq!(remedy(&PaymentBlocker::ChainUnknown), Remedy::Wait);
    assert_eq!(remedy(&PaymentBlocker::AnchorMissing), Remedy::AskTheSeller);
    assert_eq!(remedy(&PaymentBlocker::ConversationForgotten), Remedy::AskAgain);
    assert_eq!(remedy(&PaymentBlocker::StoreClosed), Remedy::WalkAway);
    assert_eq!(
        remedy(&PaymentBlocker::AddressContractNotCurrent { generation_known: false }),
        Remedy::Wait
    );
    assert_eq!(
        remedy(&PaymentBlocker::AddressContractNotCurrent { generation_known: true }),
        Remedy::AskTheSeller
    );

    assert_eq!(hardest_remedy(&Vec::new()), None);
    let blockers = vec![
        PaymentBlocker::ChainUnknown,
        PaymentBlocker::AnchorOffChain,
        PaymentBlocker::AnchorMissing,
    ];
    assert_eq!(hardest_remedy(&blockers), Some(Remedy::WalkAway));
    assert_eq!(
        hardest_remedy(&vec![PaymentBlocker::ChainUnknown, PaymentBlocker::NoTrustedBridge]),
        Some(Remedy::AskTheSeller)
    );
    let told = [
        remedy_text(Some(Remedy::Wait)),
        remedy_text(Some(Remedy::AskTheSeller)),
        remedy_text(Some(Remedy::AskAgain)),
        remedy_text(Some(Remedy::WalkAway)),
    ];
    for (i, one) in told.iter().enumerate() {
        for other in &told[i + 1..] {
            assert_ne!(one, other);
        }
    }
}

#[test]
fn payment_details_are_shown_only_where_nothing_stands_in_the_way() {
    let facts = || PurchaseFacts {
        paid: false,
        settled: false,
        unconfirmed_paid: false,
        ready_to_keep: false,
        has_commitment: true,
        blockers: Vec::new(),
    };
    assert!(matches!(purchase_body(&facts()), PurchaseBody::PaymentDetails(_)));
    let mut p = facts();
    p.has_commitment = false;
    assert!(matches!(purchase_body(&p), PurchaseBody::Blocked(_)));
    let mut p = facts();
    p.blockers.push(PaymentBlocker::StoreClosed);
    assert!(matches!(purchase_body(&p),
        PurchaseBody::Blocked(words) if words == remedy_text(Some(Remedy::WalkAway))));
    p.ready_to_keep = true;
    assert!(matches!(purchase_body(&p), PurchaseBody::KeepFirst));
    p.unconfirmed_paid = true;
    assert!(matches!(purchase_body(&p), PurchaseBody::Unconfirmed(_)));
    p.settled = true;
    assert!(matches!(purchase_body(&p), PurchaseBody::Settled));
    p.paid = true;
    assert!(matches!(purchase_body(&p), PurchaseBody::Paid));
}

#[test]
fn an_order_is_kept_before_it_is_paid() {
    assert!(matches!(pay_this_order(&None, false), KeepPanel::Offer(_)));
    assert!(matches!(pay_this_order(&None, true), KeepPanel::Keeping(_)));
    assert!(matches!(pay_this_order(&Some("full".into()), true),
        KeepPanel::Refused(words) if words.ends_with(": full")));
}

#[test]
fn an_order_is_cancelled_in_two_steps() {
    assert!(matches!(cancel_purchase("ab12", false, &None, false),
        ControlState::Button("Cancel order")));
    assert!(matches!(cancel_purchase("ab12", false, &None, true),
        ControlState::Question(words, "Yes, cancel it", "Keep it")
            if words.starts_with("Cancel order ab12?")));
    assert!(matches!(cancel_purchase("ab12", false, &Some("no key".into()), true),
        ControlState::Note(words) if words == "Order ab12 cannot be cancelled right now: no key"));
    assert!(matches!(cancel_purchase("ab12", true, &None, true),
        ControlState::Note(words) if words.starts_with("Cancellation of order ab12 sent.")));
}

#[test]
fn a_complaint_is_made_once() {
    let bad = FeedbackCategory::NonDelivery;
    assert!(matches!(file_complaint("ab12", None, false, &None, None),
        ComplaintPanel::Choose(words) if words.starts_with("Something wrong with order ab12?")));
    assert!(matches!(file_complaint("ab12", None, false, &None, Some(bad)),
        ComplaintPanel::Question(words) if words.starts_with("Complain that order ab12 was ")));
    assert!(matches!(file_complaint("ab12", None, false, &Some("too early".into()), Some(bad)),
        ComplaintPanel::Note(words)
            if words == "No complaint can be made about order ab12 right now: too early."));
    assert!(matches!(file_complaint("ab12", None, true, &None, None),
        ComplaintPanel::Note(words) if words.contains("is being kept on your node")));
    assert!(matches!(file_complaint("ab12", Some(bad), true, &None, None),
        ComplaintPanel::Note(words) if words.contains("is on the seller's public record.")));
    let at_store = ComplaintTarget::AtStore { store_contract_id: vec![1], order_id: [3; 32] };
    assert_eq!(at_store.order_id(), [3; 32]);
    let kept = ComplaintTarget::Kept { store_key: [1; 32], order_id: [4; 32] };
    assert_eq!(kept.order_id(), [4; 32]);
}

/// A purchase kept is on screen once: with its store, or in the list.
#[test]
fn a_kept_purchase_is_listed_unless_its_store_shows_it() {
    let kept: Vec<KeptPurchase> = (1..4)
        .map(|n| KeptPurchase { store_key: [7; 32], order: order("seller", n) })
        .collect();
    let shown = vec![
        ShownPurchase { store_key: [7; 32], order_id: [2; 32] },
        // Another store's order with the same id shows nothing of this one.
        ShownPurchase { store_key: [8; 32], order_id: [1; 32] },
    ];
    let listed = kept_purchases_to_list(&kept, &shown);
    let ids: Vec<u8> = listed.iter().map(|k| k.order.order.id[0]).collect();
    assert_eq!(ids, vec![3, 1], "newest first, without the one on screen");
    assert_eq!(kept_heading(0), "Your purchases");
    assert_eq!(kept_heading(2), "Other purchases your node keeps");
}

#[test]
fn a_kept_purchase_says_whether_its_payment_was_seen() {
    assert!(matches!(kept_row(OrderStatus::Paid, false, "10 sats"), KeptRow::Paid));
    assert!(matches!(kept_row(OrderStatus::AwaitingPayment, true, "10 sats"),
        KeptRow::Note(words) if words.starts_with("10 sats \u{00b7} Payment seen.")));
    assert!(matches!(kept_row(OrderStatus::AwaitingPayment, false, "10 sats"),
        KeptRow::Note(words) if words.starts_with("10 sats \u{00b7} No payment seen yet.")));
    assert_eq!(
        settled_purchase("10 sats", &None, false),
        ("", "10 sats \u{00b7} This order is no longer awaiting payment.".to_string())
    );
    assert_eq!(
        settled_purchase("10 sats", &Some("Reversed.".into()), true),
        ("text-warning", "10 sats \u{00b7} Reversed.".to_string())
    );
}

#[test]
fn an_unnamed_listing_is_not_priced() {
    assert!(matches!(accept_panel(true, "Jam", 2, "900", "1"), AcceptPanel::Accepted(_)));
    assert!(matches!(accept_panel(false, " ", 2, "900", "1"),
        AcceptPanel::Unnamed(words) if words.starts_with("A buyer has asked to buy 2 ")));
    assert!(matches!(accept_panel(false, "Jam", 2, "900", "1"),
        AcceptPanel::Form { heading, ready: true } if heading == "2 x Jam"));
    assert!(matches!(accept_panel(false, "Jam", 2, "", "1"),
        AcceptPanel::Form { ready: false, .. }));
    assert!(matches!(accept_panel(false, "Jam", 2, "900", "145"),
        AcceptPanel::Form { ready: false, .. }));
    assert_eq!(opening_amount(Some(900)), "900");
    assert_eq!(opening_amount(None), "");
    assert!(accept_note(Some(900)).expect("instant").starts_with("The buyer used instant checkout."));
    assert_eq!(accept_note(None), None);
}

#[test]
fn an_acceptance_becomes_an_invoice_or_says_why_not() {
    let now = 1_800_000_000_000u64;
    let buyer = BuyerValues {
        order_binding: [0xb1; 32],
        buyer_receipt_key: Some([0xb2; 32]),
        request: Some(AnsweredRequest { order_id: [4; 32], requested_at_ms: now as i64 }),
    };
    let try_with = |tag: Vec<u8>, seller: Option<String>, published: Vec<AuthorizedOrder>| {
        accept(
            &vec![1; 32],
            &tag,
            &[9; 32],
            "Jam".into(),
            &buyer,
            900,
            2,
            seller,
            &published,
            now,
        )
    };
    let invoice = try_with(vec![3; 32], Some("fp".into()), Vec::new()).expect("accepted");
    assert_eq!(invoice.store_contract_id, vec![1; 32]);
    assert_eq!(invoice.seller_fingerprint, "fp");
    assert_eq!(invoice.listing_id, [9; 32]);
    assert_eq!(invoice.amount_sats, 900);
    assert_eq!(invoice.required_confirmations, 2);
    assert_eq!(invoice.reply_to, Some([3; 32]));
    assert_eq!(invoice.order_binding, Some([0xb1; 32]));
    assert_eq!(invoice.buyer_receipt_key, Some([0xb2; 32]));
    assert_eq!(invoice.answers_request.map(|r| r.order_id), Some([4; 32]));

    assert_eq!(
        try_with(vec![3; 31], Some("fp".into()), Vec::new()).err(),
        Some("this conversation's tag is 31 bytes, not 32".to_string())
    );
    assert_eq!(
        try_with(vec![3; 32], None, Vec::new()).err(),
        Some("this store is not one of yours".to_string())
    );
    assert!(try_with(vec![3; 32], Some("fp".into()), vec![order("fp", 4)]).is_err());
}

fn listings() -> Vec<InvoiceListing> {
    vec![
        InvoiceListing { id: [1; 32], shown_id: "one".into(), title: "Beans".into() },
        InvoiceListing { id: [2; 32], shown_id: "two".into(), title: "Jam".into() },
    ]
}

#[test]
fn an_invoice_is_issued_for_what_was_typed() {
    let mut form = InvoiceDraft::open(&listings());
    assert_eq!(form.chosen, "one");
    assert_eq!(form.confirmations, "1");
    assert!(!form.is_ready());
    form.chosen = "two".into();
    form.amount = " 900 ".into();
    form.buyer = " a friend ".into();
    assert!(form.is_ready());
    match form.submit(&vec![7; 32], "fp", &listings()) {
        InvoiceSubmit::Issue(invoice) => {
            assert_eq!(invoice.listing_id, [2; 32]);
            assert_eq!(invoice.listing_title, "Jam");
            assert_eq!(invoice.buyer_fingerprint, "a friend");
            assert_eq!(invoice.amount_sats, 900);
            assert_eq!(invoice.required_confirmations, 1);
            assert_eq!(invoice.reply_to, None);
        }
        _ => panic!("expected an invoice"),
    }
    assert_eq!(form.amount, "");
    assert_eq!(form.buyer, "");
    assert!(matches!(form.submit(&vec![7; 32], "fp", &listings()), InvoiceSubmit::Nothing));
    form.chosen = "gone".into();
    assert!(matches!(
        form.submit(&vec![7; 32], "fp", &listings()),
        InvoiceSubmit::ListingGone(_)
    ));
    assert_eq!(InvoiceDraft::open(&Vec::new()).chosen, "");
    assert_eq!(issue_invoice("Jam", &Ok(())), "Issuing an invoice for 'Jam'\u{2026}");
    assert_eq!(
        issue_invoice("Jam", &Err("no key".into())),
        "Could not issue an invoice: no key"
    );
}

#[test]
fn an_amount_is_a_whole_number_of_satoshis_above_zero() {
    assert_eq!(parse_amount(" 900 "), Some(900));
    assert_eq!(parse_amount("0"), None);
    assert_eq!(parse_amount("1.5"), None);
    assert_eq!(amount_warning(""), None);
    assert_eq!(amount_warning("900"), None);
    assert!(amount_warning("0").is_some());
}

#[test]
fn a_network_is_picked_by_its_name() {
    let offered = vec![
        OfferedNetwork { network: BitcoinNetwork::Mainnet, name: "mainnet".into() },
        OfferedNetwork { network: BitcoinNetwork::Signet, name: "signet".into() },
    ];
    let pick = |name: &str| pick_network(&offered, name, BitcoinNetwork::Mainnet);
    assert_eq!(pick("signet"), BitcoinNetwork::Signet);
    assert_eq!(pick("nothing like it"), BitcoinNetwork::Mainnet);
}

#[test]
fn the_invoice_panel_waits_for_a_key_and_a_listing() {
    assert!(matches!(issue_panel(false, true, 1, false), IssuePanel::Nothing));
    assert!(matches!(issue_panel(true, false, 1, false), IssuePanel::Wait(_)));
    assert!(matches!(issue_panel(true, true, 0, false), IssuePanel::Wait(_)));
    assert!(matches!(issue_panel(true, true, 1, true), IssuePanel::Button(_, "Cancel")));
    assert!(matches!(
        issue_panel(true, true, 1, false),
        IssuePanel::Button(_, "Issue an invoice")
    ));
    assert_eq!(issued_words(0), None);
    assert_eq!(issued_words(2), Some("2 invoice(s) issued".to_string()));
    assert_eq!(reissue_words(false, "ab12"), None);
    assert!(reissue_words(true, "ab12").unwrap().starts_with("Invoice ab12 has expired"));
}

#[test]
fn an_invoice_is_cancelled_or_marked_despatched_by_its_status() {
    assert_eq!(invoice_control(OrderStatus::AwaitingPayment), InvoiceControl::Cancel);
    assert_eq!(invoice_control(OrderStatus::Paid), InvoiceControl::MarkDespatched);
    assert_eq!(invoice_control(OrderStatus::Cancelled), InvoiceControl::Nothing);
    assert_eq!(invoice_control(OrderStatus::PaymentReversed), InvoiceControl::Nothing);

    let words = |state: ControlState| match state {
        ControlState::Hidden => String::new(),
        ControlState::Note(words) => words,
        ControlState::Question(words, _, _) => words,
        ControlState::Button(words) => words.to_string(),
    };
    let none = None;
    let why = Some("no key".to_string());
    assert_eq!(
        words(cancel_invoice("ab", true, &why, true, true)),
        "Cancelling invoice ab\u{2026}"
    );
    assert!(words(cancel_invoice("ab", false, &why, true, true)).ends_with("yet: no key"));
    assert!(words(cancel_invoice("ab", false, &none, true, true)).contains("sent."));
    assert!(words(cancel_invoice("ab", false, &none, false, true)).starts_with("Cancel invoice ab?"));
    assert_eq!(words(cancel_invoice("ab", false, &none, false, false)), "Cancel invoice");

    assert!(matches!(
        mark_despatched("ab", true, true, true, &why, true),
        ControlState::Hidden
    ));
    assert!(words(mark_despatched("ab", false, true, true, &why, true)).starts_with("Recording"));
    assert!(words(mark_despatched("ab", false, false, true, &why, true)).starts_with("Despatch of"));
    assert!(words(mark_despatched("ab", false, false, false, &why, true)).ends_with("yet: no key"));
    assert!(words(mark_despatched("ab", false, false, false, &none, true)).starts_with("Mark order"));
    assert_eq!(
        words(mark_despatched("ab", false, false, false, &none, false)),
        "Mark despatched"
    );
}

#[test]
fn the_payment_key_is_shown_until_it_is_edited() {
    assert!(matches!(payment_key_panel(Some(3), false, false), KeyPanel::Checking));
    assert!(matches!(payment_key_panel(Some(3), true, false),
        KeyPanel::Shown(words) if words.starts_with(" wallet. 3 address(es)")));
    assert!(matches!(payment_key_panel(Some(3), true, true), KeyPanel::Form { replacing: true }));
    assert!(matches!(payment_key_panel(None, true, false), KeyPanel::Form { replacing: false }));
    assert_eq!(submitted_key(" xpub \n"), Some("xpub".to_string()));
    assert_eq!(submitted_key("  "), None);
    assert_eq!(key_not_saved("full"), "Could not save your payment key: full");
}
