//! The seller's stores and their details, the stores a buyer browses and has
//! bought from, their records, and the page around them.

use ed25519_dalek::SigningKey;
use harvest_ui::buy_view::ShownPurchase;
use harvest_ui::document_title::{set_default_title, set_store_title, set_title, LastTitle};
use harvest_ui::listing::ListingKind;
use harvest_ui::my_store::{
    certificate_request, chosen_key, connect_ghostkey, details_button, details_click, details_not_published,
    ghost_key_name, key_of, key_to_start_with, keys_without_a_store, my_store_page, overview,
    request_encryption_key, requests_needing_seller, seller_stores, send_store_creation_requests,
    setup_is_open, setup_panel, shown_store, start_notice, starting_key,
    store_details_button_action, submitted_details, tab_title, truncate_fingerprint,
    CertificateStatus, ConnectStep, CreationEvent, CreationStep, DetailsClick, LoadedSellerStore,
    MyStorePage, RegisteredStore, SellerOrder, SettingsKey, SetupFacts, SetupPanel, StoreDetails,
    StoreDetailsAction, StoreDetailsGap, StoreStart, Tab,
};
use harvest_ui::notary::{
    describe_notary_info, extract_amount, extract_created_date, extract_json_field,
};
use harvest_ui::payment::{AuthorizedOrder, BitcoinNetwork, Moment, Order, OrderStatus};
use harvest_ui::purchases_view::{
    empty_purchases, purchase_rows, shown_order_ids, summary, EmptyPurchases, KnownStore,
};
use harvest_ui::reputation_view::{
    category_label, complaint_line, complaint_note, empty_record_text, record_words, ComplaintRow,
    ComplaintStanding, FeedbackCategory, RecordLoad, RecordSections,
};
use harvest_ui::seller_listings::ListingAvailability;
use harvest_ui::shell::{
    after_start_step, format_build_time, nav_button, show_title, status_class, ConnectionStatus,
    Route, StartStep,
};
use harvest_ui::state::GhostKeyInfo;
use harvest_ui::store_view::{
    buyable, certificate_mismatch, certificate_warning, complaints_badge, invoices_panel,
    kind_badge_class, kind_label, link_parts, listed_on, listing_buyable, listings_words,
    not_a_store_code, store_invoices, store_list_foot, store_page, toggle_words,
    typed_is_old_format_link, InvoicesPanel, LoadedStore, StoreControl, StorePage,
};

const STORE: &[u8] = &[4u8; 32];

#[test]
fn no_encryption_key_gap_publishes_immediately() {
    assert_eq!(
        store_details_button_action(Some(StoreDetailsGap::NoEncryptionKey), false),
        StoreDetailsAction::PublishNow
    );
}

/// Every other gap needs the seller to type something.
#[test]
fn gaps_needing_seller_input_open_the_form() {
    for gap in [StoreDetailsGap::NeverPublished, StoreDetailsGap::NoName] {
        assert_eq!(
            store_details_button_action(Some(gap), false),
            StoreDetailsAction::ToggleForm,
            "{gap:?} should still open the form"
        );
    }
}

#[test]
fn no_gap_opens_the_edit_form() {
    assert_eq!(store_details_button_action(None, false), StoreDetailsAction::ToggleForm);
}

/// The gap can change while the form is open; what is on record is not
/// published over what was typed.
#[test]
fn an_open_form_always_cancels_even_if_the_gap_is_now_no_encryption_key() {
    assert_eq!(
        store_details_button_action(Some(StoreDetailsGap::NoEncryptionKey), true),
        StoreDetailsAction::ToggleForm
    );
}

/// An open form is always closable.
#[test]
fn an_open_form_always_cancels_regardless_of_gap() {
    for gap in [
        None,
        Some(StoreDetailsGap::NeverPublished),
        Some(StoreDetailsGap::NoName),
        Some(StoreDetailsGap::NoEncryptionKey),
    ] {
        assert_eq!(
            store_details_button_action(gap, true),
            StoreDetailsAction::ToggleForm,
            "{gap:?} while editing should still be Cancel"
        );
    }
}

#[test]
fn the_details_button_does_what_it_says() {
    let gap = Some(StoreDetailsGap::NoEncryptionKey);
    let button = details_button(gap, false, true);
    assert_eq!((button.label, button.primary, button.disabled), ("Publish details", true, true));
    assert_eq!(details_click(gap, false, true), DetailsClick::Ignore);
    assert_eq!(details_click(gap, false, false), DetailsClick::Publish);
    let button = details_button(gap, true, true);
    assert_eq!((button.label, button.disabled), ("Cancel", false));
    assert_eq!(details_click(gap, true, true), DetailsClick::CloseForm);
    let button = details_button(None, false, false);
    assert_eq!((button.label, button.primary), ("Edit", false));
    assert_eq!(details_click(None, false, false), DetailsClick::OpenForm);

    assert!(submitted_details(" ", "about").is_none());
    let details = submitted_details(" Bean Shop ", " about ").expect("named");
    assert_eq!((details.store_name.as_str(), details.description.as_str()), ("Bean Shop", "about"));
    assert_eq!(
        details_not_published("no node"),
        "Could not publish your store's details: no node"
    );
}

#[test]
fn the_observed_certificate_reads_as_a_donation_and_a_date() {
    let info = r#"{"action":"freenet-donation","amount":1,"delegate-key-created":"2024-08-13 15:45:36"}"#;
    assert_eq!(describe_notary_info(info), "$1 donated, 13 August 2024");
}

#[test]
fn a_larger_donation_keeps_its_amount() {
    let info = r#"{"action":"freenet-donation","amount":100,"delegate-key-created":"2023-01-01 00:00:00"}"#;
    assert_eq!(describe_notary_info(info), "$100 donated, 1 January 2023");
}

#[test]
fn the_legacy_encoding_still_reads() {
    assert_eq!(describe_notary_info("donation_amount:20"), "$20 donated");
}

#[test]
fn an_unrecognised_certificate_is_shown_verbatim_rather_than_guessed_at() {
    assert_eq!(describe_notary_info("Freenet Notary"), "Freenet Notary");
    assert_eq!(describe_notary_info(""), "");
}

#[test]
fn malformed_json_does_not_panic_or_invent_a_tier() {
    for info in [
        r#"{"amount":}"#,
        r#"{"amount":"not-a-number"}"#,
        r#"{"delegate-key-created":"not-a-date"}"#,
        r#"{"delegate-key-created":"2024-13-99 00:00:00"}"#,
        "{",
        r#"{"amount"#,
    ] {
        let shown = describe_notary_info(info);
        assert!(
            !shown.contains('$'),
            "{info:?} is not a readable donation but rendered as {shown:?}"
        );
    }
}

#[test]
fn a_nested_amount_does_not_shadow_the_top_level_one() {
    let info = r#"{"nested":{"amount":42},"amount":7}"#;
    assert_eq!(describe_notary_info(info), "$7 donated");
}

#[test]
fn an_amount_that_exists_only_nested_is_not_claimed() {
    let info = r#"{"nested":{"amount":42}}"#;
    assert_eq!(describe_notary_info(info), info);
}

#[test]
fn the_key_inside_a_string_value_is_not_matched() {
    let info = r#"{"note":"beware \"amount\": 99","amount":3}"#;
    assert_eq!(describe_notary_info(info), "$3 donated");
}

#[test]
fn a_date_alone_is_still_worth_showing() {
    let info = r#"{"delegate-key-created":"2024-08-13 15:45:36"}"#;
    assert_eq!(describe_notary_info(info), "donated 13 August 2024");
}

#[test]
fn a_field_is_read_out_of_an_attestation() {
    let info = r#"{"amount": 5 ,"delegate-key-created":"2024-02-03 00:00:00"}"#;
    assert_eq!(extract_json_field(info, "amount"), Some("5".to_string()));
    assert_eq!(extract_json_field(info, "missing"), None);
    assert_eq!(extract_amount(info), Some(5));
    assert_eq!(extract_amount("nothing"), None);
    assert_eq!(extract_created_date(info), Some("3 February 2024".to_string()));
    assert_eq!(extract_created_date("nothing"), None);
}

fn store_key() -> [u8; 32] {
    SigningKey::from_bytes(&[0x61; 32]).verifying_key().to_bytes()
}

fn registration(id: u8, key: Option<[u8; 32]>) -> RegisteredStore {
    RegisteredStore {
        fingerprint: "fp".into(),
        contract_id: vec![id; 32],
        store_key: key,
        code: format!("code{id}"),
        share_link: format!("link{id}"),
        foreign_owner: None,
        gap: None,
        details_resolved: true,
        publish_in_flight: false,
        requests: 0,
        loaded: None,
        unread_record: "Loading".into(),
    }
}

fn loaded(name: &str, listings: Vec<ListingAvailability>) -> Option<LoadedSellerStore> {
    Some(LoadedSellerStore {
        details: Some(StoreDetails { store_name: name.into(), description: String::new() }),
        certificate: CertificateStatus::Verified,
        listings,
        orders: Vec::new(),
        record: "Clean record".into(),
    })
}

/// My store manages only stores this device holds a store key for, and
/// counts listings a buyer can see, not ones taken down.
#[test]
fn only_keyed_stores_are_managed_and_taken_down_listings_do_not_count() {
    let mut first = registration(1, Some(store_key()));
    first.loaded = loaded(
        "",
        vec![
            ListingAvailability::Available { quantity: None },
            ListingAvailability::Withdrawn,
        ],
    );
    let stores = seller_stores(&vec![first, registration(2, None)]);
    assert_eq!(
        stores.len(),
        1,
        "a store made before store keys is offered a move instead"
    );
    assert_eq!(stores[0].contract_id, vec![1u8; 32]);
    assert_eq!(stores[0].fingerprint, "fp");
    assert_eq!(stores[0].listings, 1);
    assert_eq!(stores[0].requests, 0);
    assert!(stores[0].code.is_some() && stores[0].link.is_some());
    assert_eq!(requests_needing_seller(&stores), 0);
}

/// Stores stand by name, whatever the case of its letters, then by contract
/// id; a store without a name goes by its code.
#[test]
fn stores_are_ordered_by_name() {
    let mut all = Vec::new();
    for (id, name) in [(5, "beans"), (4, "Apples"), (3, "Beans"), (2, "")] {
        let mut r = registration(id, Some(store_key()));
        r.requests = id as usize;
        r.loaded = loaded(name, Vec::new());
        all.push(r);
    }
    let stores = seller_stores(&all);
    let labels: Vec<&str> = stores.iter().map(|s| s.label.as_str()).collect();
    assert_eq!(labels, vec!["Apples", "Beans", "beans", "Store code2"]);
    assert_eq!(requests_needing_seller(&stores), 14);
    assert_eq!(shown_store(&stores, &[5; 32]), 2);
    assert_eq!(shown_store(&stores, &[9; 32]), 0);
}

/// A registration whose bytes are no key has no code and no link.
#[test]
fn a_registration_with_unreadable_key_bytes_has_no_link() {
    // Not the encoding of a point on the curve.
    let stores = seller_stores(&vec![registration(1, Some([2; 32]))]);
    assert_eq!(stores[0].label, "Your store");
    assert_eq!(stores[0].code, None);
    assert_eq!(stores[0].link, None);
    assert_eq!(stores[0].record, "Loading");
    assert_eq!(stores[0].certificate, CertificateStatus::Absent);
}

#[test]
fn the_overview_says_what_needs_the_seller() {
    let mut r = registration(1, Some(store_key()));
    r.requests = 2;
    r.loaded = loaded("Beans", vec![ListingAvailability::SoldOut]);
    if let Some(l) = &mut r.loaded {
        for (seller, old, open) in
            [("fp", true, true), ("other", true, true), ("fp", false, true), ("fp", true, false)]
        {
            l.orders.push(SellerOrder {
                seller_fingerprint: seller.into(),
                needs_reissue: old,
                awaiting_payment: open,
            });
        }
    }
    let stores = seller_stores(&vec![r]);
    assert_eq!(stores[0].expired_invoices, 1);
    let o = overview(&stores[0], true, true);
    assert_eq!(o.waiting, Some("2 buyers are waiting for an invoice.".to_string()));
    assert!(o.expired.unwrap().starts_with("1 unpaid invoice is too old"));
    assert!(!o.nothing_needed);
    assert!(o.checklist.is_none(), "details, wallet and a listing are all there");
    let o = overview(&stores[0], false, true);
    let list = o.checklist.expect("no wallet yet");
    assert!(list.offer_wallet && list.details_done && list.listing_done);
    assert_eq!(tab_title(Tab::Orders, 2, 1), "Orders (2)");
    assert_eq!(tab_title(Tab::Orders, 0, 1), "Orders");
    assert_eq!(tab_title(Tab::Listings, 2, 1), "Listings (1)");
}

#[test]
fn a_fingerprint_is_shortened_and_a_label_preferred() {
    assert_eq!(truncate_fingerprint("abcdefghijklmnop"), "abcdefghijkl...");
    assert_eq!(truncate_fingerprint("abcdefghijkl"), "abcdefghijkl");
    assert_eq!(
        ghost_key_name(&Some(" Mine ".into()), "abcdefghijklmnop"),
        "Ghost Key \u{201c}Mine\u{201d}"
    );
    assert_eq!(ghost_key_name(&Some(" ".into()), "abc"), "Ghost Key abc");
    assert_eq!(ghost_key_name(&None, "abcdefghijklmnop"), "Ghost Key abcdefghijkl...");
}

#[test]
fn setting_up_a_store_starts_where_it_stands() {
    assert_eq!(my_store_page(0, 1), MyStorePage::NoIdentity);
    assert_eq!(my_store_page(1, 0), MyStorePage::FirstStore);
    assert_eq!(my_store_page(1, 1), MyStorePage::Dashboard);
    let facts = |creating, publishing, legacy_movable, legacy_loading, form_open| SetupFacts {
        creating,
        publishing,
        legacy_movable,
        legacy_loading,
        form_open,
    };
    assert_eq!(
        setup_panel(facts(true, false, true, true, true)),
        SetupPanel::Creating { can_cancel: true }
    );
    assert_eq!(
        setup_panel(facts(true, true, true, true, true)),
        SetupPanel::Creating { can_cancel: false }
    );
    assert_eq!(setup_panel(facts(false, true, true, true, true)), SetupPanel::MoveLegacy);
    assert_eq!(setup_panel(facts(false, true, false, true, true)), SetupPanel::LoadingLegacy);
    assert_eq!(setup_panel(facts(false, true, false, false, true)), SetupPanel::Form);
    assert_eq!(setup_panel(facts(false, true, false, false, false)), SetupPanel::Offer);

    assert_eq!(chosen_key(1, 3), 1);
    assert_eq!(chosen_key(9, 3), 2);
    let keys = vec![
        SettingsKey { fingerprint: "a".into(), has_store: true },
        SettingsKey { fingerprint: "b".into(), has_store: false },
        SettingsKey { fingerprint: "c".into(), has_store: false },
    ];
    assert_eq!(keys_without_a_store(&keys), vec![1, 2]);
    let fp = |s: &str| Some(s.to_string());
    assert!(setup_is_open("a", &fp("a"), &None, &None));
    assert!(setup_is_open("a", &None, &fp("a"), &None));
    assert!(setup_is_open("a", &None, &None, &fp("a")));
    assert!(!setup_is_open("a", &fp("b"), &fp("c"), &None));
    assert!(matches!(connect_ghostkey(true, true), ConnectStep::Ignore));
    assert!(matches!(connect_ghostkey(false, false), ConnectStep::Tell(_)));
    assert!(matches!(connect_ghostkey(false, true), ConnectStep::Ask));
}

#[test]
fn a_store_starts_only_with_a_key_the_vault_shared() {
    assert_eq!(key_of(&[5; 32]), Some([5; 32]));
    assert_eq!(key_of(&[5; 31]), None);
    assert_eq!(starting_key(StoreStart::Create, &Some(vec![5; 32])), Ok([5; 32]));
    assert!(starting_key(StoreStart::Create, &None)
        .unwrap_err()
        .starts_with("Store creation failed: "));
    assert!(starting_key(StoreStart::MoveLegacy, &Some(vec![5; 31]))
        .unwrap_err()
        .starts_with("Could not move the store: "));

    let shared = |fingerprint: &str, key: Option<Vec<u8>>| GhostKeyInfo {
        fingerprint: fingerprint.into(),
        label: None,
        notary_info: String::new(),
        verifying_key_bytes: key,
    };
    let keys = vec![shared("a", None), shared("b", Some(vec![6; 32]))];
    assert_eq!(key_to_start_with(StoreStart::Create, &keys, "b"), Ok([6; 32]));
    assert!(key_to_start_with(StoreStart::Create, &keys, "a").is_err());
    assert!(key_to_start_with(StoreStart::Create, &keys, "c").is_err());

    assert_eq!(start_notice(StoreStart::Create, &None), None);
    assert_eq!(
        start_notice(StoreStart::Create, &Some("busy".into())),
        Some("Could not create the store: busy".to_string())
    );
    assert_eq!(
        start_notice(StoreStart::MoveLegacy, &None),
        Some("Moving your store to a key of its own\u{2026}".to_string())
    );
    assert_eq!(
        start_notice(StoreStart::MoveLegacy, &Some("busy".into())),
        Some("Could not move the store: busy".to_string())
    );
}

#[test]
fn a_creation_asks_for_the_certificate_and_then_the_store_key() {
    let step = |event| send_store_creation_requests(event, 9, true);
    let fails = |event, words: &str| match step(event) {
        CreationStep::Fail(why) => assert_eq!(why, words),
        _ => panic!("expected a failure"),
    };
    assert!(matches!(
        step(CreationEvent::Start { both_registered: true }),
        CreationStep::AskCertificate
    ));
    assert!(matches!(
        step(CreationEvent::CertificateAsked),
        CreationStep::AskStoreKey { request_id: 9, another_store: true }
    ));
    assert!(matches!(step(CreationEvent::StoreKeyAsked), CreationStep::Wait));
    let payload = certificate_request("fp").ok().expect("written");
    assert!(matches!(
        ghostkey_common::from_cbor::<ghostkey_common::GhostkeyRequest>(&payload),
        Ok(ghostkey_common::GhostkeyRequest::GetCertificate { fingerprint }) if fingerprint == "fp"
    ));
    fails(
        CreationEvent::Start { both_registered: false },
        "the Harvest delegate or the Ghost Key vault is not registered",
    );
    fails(CreationEvent::CertificateUnwritten("e".into()), "serialize GetCertificate: e");
    fails(
        CreationEvent::CertificateUnsent("e".into()),
        "could not ask the vault for the certificate: e",
    );
    fails(CreationEvent::StoreKeyUnwritten("e".into()), "serialize a delegate request: e");
    fails(CreationEvent::StoreKeyUnsent("e".into()), "could not reach the Harvest delegate: e");

    let asked = request_encryption_key(true, "fp", true).expect("registered");
    assert_eq!((asked.ghostkey_fingerprint.as_str(), asked.recall_only), ("fp", true));
    assert!(!request_encryption_key(true, "fp", false).unwrap().recall_only);
    assert!(request_encryption_key(false, "fp", true).is_none());
}

fn known(id: u8, name: &str, orders: usize, conversations: usize, own: bool) -> KnownStore {
    KnownStore {
        store_contract_id: vec![id; 32],
        own,
        published_name: Some(name.into()),
        orders,
        conversations,
        shown: vec![ShownPurchase { store_key: [id; 32], order_id: [id + 100; 32] }],
    }
}

/// A store appears once this device has a conversation with it, our own
/// stores never do, and a store merely browsed does not either.
#[test]
fn only_stores_we_have_dealt_with_and_do_not_own_are_listed() {
    let stores = vec![
        known(1, "Beans", 0, 1, false),
        known(2, "Browsed", 0, 0, false),
        known(3, "Beans", 0, 1, true),
    ];
    let rows = purchase_rows(&stores);
    assert_eq!(rows.len(), 1, "{rows:?}");
    assert_eq!(rows[0].store_contract_id, vec![1u8; 32]);
    assert_eq!(rows[0].name, "Beans");
    assert_eq!(rows[0].conversations, 1);
    assert_eq!(
        shown_order_ids(&stores, &rows),
        vec![ShownPurchase { store_key: [1; 32], order_id: [101; 32] }]
    );
}

/// Named stores come first, by name whatever its case; those without a name,
/// or with a blank one, come after.
#[test]
fn named_stores_are_listed_before_unnamed_ones() {
    let mut unnamed = known(1, "", 0, 1, false);
    unnamed.published_name = None;
    let stores = vec![
        unnamed,
        known(2, "Beans", 0, 1, false),
        known(3, "  ", 1, 0, false),
        known(4, " apples ", 0, 2, false),
    ];
    let rows = purchase_rows(&stores);
    let shown: Vec<(&str, bool, usize)> =
        rows.iter().map(|r| (r.name.as_str(), r.named, r.place)).collect();
    assert_eq!(
        shown,
        vec![("apples", true, 3), ("Beans", true, 1), ("A store", false, 0), ("A store", false, 2)]
    );
}

#[test]
fn the_summary_counts_what_there_is() {
    assert_eq!(summary(0, 1), "No orders yet · 1 conversation");
    assert_eq!(summary(2, 0), "2 orders");
    assert_eq!(summary(1, 3), "1 order · 3 conversations");
}

#[test]
fn an_empty_list_of_purchases_says_why() {
    assert_eq!(empty_purchases(1, true, false), EmptyPurchases::Silent);
    assert_eq!(empty_purchases(0, true, true), EmptyPurchases::Checking);
    assert_eq!(empty_purchases(0, false, true), EmptyPurchases::Silent);
    assert_eq!(empty_purchases(0, false, false), EmptyPurchases::NothingYet);
}

/// Only a loaded record with nothing in it says "No complaints".
#[test]
fn an_unread_record_is_not_called_clean() {
    assert_eq!(empty_record_text(RecordLoad::Loaded, "Clean record"), "No complaints.");
    for (unread, badge) in [
        (RecordLoad::Loading, "Loading record"),
        (RecordLoad::NotFound, "Record not found"),
        (RecordLoad::Unavailable, "Record unavailable"),
    ] {
        let text = empty_record_text(unread, badge);
        assert!(!text.contains("No complaints"), "{unread:?}: {text}");
        assert_eq!(text, format!("{badge}."));
    }
}

fn complaint(n: u8, standing: ComplaintStanding) -> ComplaintRow {
    ComplaintRow {
        order_id: [n; 32],
        category: FeedbackCategory::Misrepresented,
        block_height: 800_000,
        standing,
    }
}

/// Setting complaints apart changes no count: those of a bridge the reader
/// does not recognise never counted.
#[test]
fn complaints_are_counted_by_how_they_stand() {
    let all = vec![
        complaint(1, ComplaintStanding::Counts),
        complaint(2, ComplaintStanding::BridgeNotRecognised),
        complaint(3, ComplaintStanding::Late { closed_at: 900 }),
        complaint(4, ComplaintStanding::PaymentReversed { counted: true }),
        complaint(5, ComplaintStanding::PaymentReversed { counted: false }),
    ];
    let sections = RecordSections::of(&all);
    assert_eq!(sections.judged.len(), 4);
    assert_eq!(sections.unrecognised.len(), 1);
    assert_eq!(sections.counted(), all.iter().filter(|c| c.standing.counts()).count());
    let words = record_words(&sections, "No complaints.");
    assert_eq!(words.judged, "2 complaint(s) counted, of 4 on record");
    assert_eq!(
        words.unrecognised,
        Some("Not counted: 1 paid, per a bridge you don't recognise".to_string())
    );
    let none = record_words(&RecordSections::of(&Vec::new()), "No complaints.");
    assert_eq!(none.judged, "No complaints.");
    assert_eq!(none.unrecognised, None);
    let apart = RecordSections::of(&vec![complaint(2, ComplaintStanding::BridgeNotRecognised)]);
    assert_eq!(record_words(&apart, "No complaints.").judged, "No complaints counted");

    assert_eq!(complaint_note(ComplaintStanding::Counts), None);
    assert_eq!(
        complaint_note(ComplaintStanding::Late { closed_at: 900 }),
        Some(
            "Made after the complaint window closed at block 900, so it is not counted."
                .to_string()
        )
    );
    assert!(complaint_note(ComplaintStanding::PaymentReversed { counted: true })
        .unwrap()
        .ends_with("still counted."));
    assert!(complaint_note(ComplaintStanding::PaymentReversed { counted: false })
        .unwrap()
        .ends_with("not counted."));
    assert_eq!(
        complaint_line("ab12", 800_000),
        "order ab12 \u{00b7} made at or after block 800000"
    );
    assert_eq!(category_label(&FeedbackCategory::NonDelivery), "Not delivered");
    assert_eq!(category_label(&FeedbackCategory::Misrepresented), "Not as described");
    assert_eq!(category_label(&FeedbackCategory::Counterfeit), "Counterfeit");
}

fn store_with(encryption_key: Option<[u8; 32]>, identity: Option<[u8; 32]>) -> LoadedStore {
    LoadedStore {
        encryption_public_key: encryption_key,
        seller_verifying_key: identity,
        closed: false,
        certificate_status: CertificateStatus::Verified,
        unverified_listings: Vec::new(),
    }
}

/// A store with no published encryption key cannot be bought from.
#[test]
fn a_store_with_no_encryption_key_cannot_be_bought_from() {
    let store = store_with(None, Some([2u8; 32]));
    assert!(buyable(&store, STORE, false).is_none());
}

/// A store whose identity did not verify cannot be bought from.
#[test]
fn a_store_whose_identity_did_not_verify_cannot_be_bought_from() {
    let store = store_with(Some([1u8; 32]), None);
    assert!(buyable(&store, STORE, false).is_none());
}

/// A closed store cannot be bought from, however well its identity checks
/// out.
#[test]
fn a_closed_store_cannot_be_bought_from() {
    let mut store = store_with(Some([1u8; 32]), Some([2u8; 32]));
    assert!(buyable(&store, STORE, false).is_some());
    store.closed = true;
    assert!(buyable(&store, STORE, false).is_none());
}

/// Your own store is not one you buy from.
#[test]
fn your_own_store_is_not_one_you_buy_from() {
    let store = store_with(Some([1u8; 32]), Some([2u8; 32]));
    assert!(buyable(&store, STORE, true).is_none());
    assert!(
        buyable(&store, STORE, false).is_some(),
        "and the same store IS buyable when it is somebody else's"
    );
}

/// A listing whose own certificate did not verify cannot be bought.
#[test]
fn a_listing_whose_certificate_did_not_verify_is_not_buyable() {
    let good = [1u8; 32];
    let bad = [2u8; 32];
    let mut store = store_with(Some([1u8; 32]), Some([2u8; 32]));
    store.unverified_listings.push(bad);

    let for_listing = |id: &[u8; 32]| listing_buyable(&store, STORE, false, id);
    assert!(for_listing(&good).is_some(), "a listing that verifies is buyable");
    assert!(
        for_listing(&bad).is_none(),
        "and one whose certificate is not this seller's is not"
    );
    assert!(certificate_mismatch(&store, &bad));
    assert!(!certificate_mismatch(&store, &good));
}

/// Whether a fragment or a query names a store by its whole id, as links did
/// before store codes.
fn names_a_whole_id(part: &str) -> bool {
    match part.strip_prefix("store=") {
        Some(id) => bs58::decode(id).into_vec().map(|b| b.len() == 32).unwrap_or(false),
        None => false,
    }
}

/// A pasted link of the old format is recognised, like a followed one.
#[test]
fn a_pasted_old_link_is_recognised() {
    let is_old = |typed: &str| typed_is_old_format_link(typed, names_a_whole_id);
    let old = bs58::encode([5u8; 32]).into_string();
    assert!(is_old(&format!("http://127.0.0.1:7509/v1/contract/web/x/#store={old}")));
    assert!(is_old(&format!(" ?store={old}\n")));
    assert!(!is_old("3Bn8xWqLd6Tz9Kf"));
    assert!(!is_old(&old), "a bare id is not a link");
}

#[test]
fn a_pasted_link_comes_apart() {
    let parts = link_parts(" http://x/?a=1#store=2 ");
    assert_eq!(parts.fragment, Some("store=2"));
    assert!(parts.query.unwrap().starts_with("a=1"));
    let parts = link_parts("3Bn8xWqLd6Tz9Kf");
    assert_eq!((parts.fragment, parts.query), (None, None));
    assert_eq!(not_a_store_code(true, "An old link."), "An old link.");
    assert!(not_a_store_code(false, "An old link.").starts_with("That is not a store code."));
}

#[test]
fn the_store_page_shows_what_there_is() {
    assert_eq!(store_page(true, true, true), StorePage::Store);
    assert_eq!(store_page(false, true, true), StorePage::LinkError);
    assert_eq!(store_page(false, true, false), StorePage::Loading);
    assert_eq!(store_page(false, false, false), StorePage::NoneOpen);

    let foot = store_list_foot(true, 0, 0, false, false);
    assert!(foot.hint && foot.button.is_none() && !foot.explains_archiving);
    let foot = store_list_foot(true, 1, 2, false, false);
    assert!(!foot.hint && foot.explains_archiving);
    assert_eq!(foot.button, Some("Show 2 archived store(s)".to_string()));
    let foot = store_list_foot(true, 3, 0, true, true);
    assert_eq!(foot.button, Some("Hide archived stores".to_string()));

    assert_eq!(complaints_badge(0), ("reputation-clean", "Clean record".to_string()));
    assert_eq!(complaints_badge(2), ("reputation-negative", "2 complaint(s)".to_string()));
    assert_eq!(certificate_warning(&CertificateStatus::Verified), "");
    assert!(certificate_warning(&CertificateStatus::Absent).contains("no ghostkey certificate"));
    assert!(certificate_warning(&CertificateStatus::Invalid("bad chain".into()))
        .contains("(bad chain)"));

    assert_eq!(listings_words(0), "No listings yet.");
    assert_eq!(listings_words(3), "3 listing(s)");
    assert_eq!(listed_on(1_700_000_000), Some("Listed 2023-11-14".to_string()));
    assert_eq!(listed_on(i64::MAX), None);
    assert_eq!(toggle_words(StoreControl::Messages, false).1, "Contact Seller");
    assert_eq!(toggle_words(StoreControl::Messages, true).1, "Hide Messages");
    assert_eq!(toggle_words(StoreControl::Buy, false).1, "Buy this");
    assert_eq!(toggle_words(StoreControl::Buy, true).1, "Cancel");
    assert_eq!(kind_badge_class(&ListingKind::Gift), "badge-gift");
    assert_eq!(kind_label(&ListingKind::Request), "Request");
}

#[test]
fn invoices_are_withheld_from_a_store_that_cannot_be_paid() {
    assert!(matches!(invoices_panel(true, 0), InvoicesPanel::Nothing));
    assert!(matches!(invoices_panel(true, 1), InvoicesPanel::Invoices));
    assert!(matches!(invoices_panel(false, 1), InvoicesPanel::Withheld(_)));
    let at = |secs: i64| AuthorizedOrder {
        order: Order {
            id: [secs as u8; 32],
            seller_fingerprint: String::new(),
            amount_sats: 1,
            network: BitcoinNetwork::Signet,
            payment_script_pubkey: Vec::new(),
            payment_address: String::new(),
            trusted_bridges: Vec::new(),
            address_instance_id: None,
            payment_window: None,
            order_binding: None,
            listing_tag: None,
            created_at: Moment { secs, nanos: 0 },
        },
        status: OrderStatus::AwaitingPayment,
    };
    let orders = vec![at(1), at(3), at(2)];
    let shown: Vec<u8> = store_invoices(&orders).iter().map(|o| o.order.id[0]).collect();
    assert_eq!(shown, vec![3, 2, 1]);
}

/// The frame around the page is told of a title once.
#[test]
fn a_title_is_passed_on_when_it_changes() {
    let mut last = LastTitle::new();
    let change = set_title(&mut last, "Harvest");
    assert_eq!((change.title.as_str(), change.tell_parent), ("Harvest", true));
    assert!(!set_default_title(&mut last).tell_parent);
    let change = set_store_title(&mut last, "Bean Shop");
    assert_eq!((change.title.as_str(), change.tell_parent), ("Harvest - Bean Shop", true));
    assert!(!show_title(&mut last, Route::Browse, Some("Bean Shop")).tell_parent);
    let change = show_title(&mut last, Route::Payments, Some("Bean Shop"));
    assert_eq!((change.title.as_str(), change.tell_parent), ("Harvest", true));
    assert!(!show_title(&mut last, Route::Browse, None).tell_parent);
}

#[test]
fn the_frame_shows_where_it_stands() {
    assert_eq!(nav_button(Route::MyStore, Route::MyStore), ("My Store", "nav-btn active"));
    assert_eq!(nav_button(Route::Browse, Route::MyStore), ("Browse", "nav-btn"));
    assert_eq!(status_class(&ConnectionStatus::Connected), "harvest-status connected");
    assert_eq!(status_class(&ConnectionStatus::Connecting), "harvest-status connecting");
    assert_eq!(status_class(&ConnectionStatus::Error("e".into())), "harvest-status error");
    assert_eq!(status_class(&ConnectionStatus::Disconnected), "harvest-status");
    assert_eq!(format_build_time(2026, 3, 9, 8, 5), "2026-03-09 08:05");
    assert_eq!(format_build_time(2026, 11, 19, 18, 55), "2026-11-19 18:55");
}

/// A start that is connected comes to listen, whatever fails on the way.
#[test]
fn a_start_goes_on_past_what_fails() {
    let run = |failing: &[StartStep]| {
        let mut steps = vec![StartStep::Connect];
        let mut answered = false;
        let mut status = None;
        while *steps.last().unwrap() != StartStep::Stopped {
            let step = *steps.last().unwrap();
            let outcome =
                if failing.contains(&step) { Err("refused".to_string()) } else { Ok(()) };
            let progress = after_start_step(step, outcome);
            answered = answered || progress.payment_key_answered;
            status = progress.status.or(status);
            steps.push(progress.next);
        }
        (steps, answered, status)
    };
    let (steps, answered, status) = run(&[]);
    assert_eq!(
        steps,
        vec![
            StartStep::Connect,
            StartStep::OpenLink,
            StartStep::RegisterHarvest,
            StartStep::RecallConversations,
            StartStep::AskBridge,
            StartStep::AskWatched,
            StartStep::AskPaymentKey,
            StartStep::FollowTip,
            StartStep::RegisterVault,
            StartStep::AskGhostKeys,
            StartStep::Listen,
            StartStep::Stopped,
        ]
    );
    assert!(!answered);
    assert_eq!(status, Some(ConnectionStatus::Disconnected));

    let (steps, _, status) = run(&[StartStep::Connect]);
    assert_eq!(steps, vec![StartStep::Connect, StartStep::Stopped]);
    assert_eq!(status, Some(ConnectionStatus::Error("refused".to_string())));

    let (steps, _, _) = run(&[StartStep::RegisterHarvest, StartStep::RegisterVault]);
    assert_eq!(
        steps,
        vec![
            StartStep::Connect,
            StartStep::OpenLink,
            StartStep::RegisterHarvest,
            StartStep::RegisterVault,
            StartStep::Listen,
            StartStep::Stopped,
        ]
    );
    let (_, answered, _) = run(&[StartStep::AskBridge, StartStep::AskPaymentKey]);
    assert!(answered, "the form to set a payment key is not waited for");
}
