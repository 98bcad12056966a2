//! Listings: the form that publishes one, and the rows a seller manages.

use harvest_ui::listing::{
    ChoiceGroup, DeliveryPrice, FixedCheckout, Listing, ListingKind, PriceInfo, RegionPrice,
};
use harvest_ui::listing_form::{
    chosen_kind, form_words, kind_value, listing_not_published, parse_quantity, parse_sats, same_terms, sentence,
    terms_problem,
    ListingDraft, ListingSubmit, TermsEdit, TermsForm,
};
use harvest_ui::payment::Moment;
use harvest_ui::seller_listings::{
    after_one_sold, availability_label, change_refused, change_status, listed_on, press_row,
    row_controls, ListingAvailability, RowButton, SellerRow, StatusChange,
};

fn original() -> Listing {
    Listing {
        checkout: None,
        choices: Vec::new(),
        id: [0u8; 32],
        title: "Mug ".to_string(),
        description: "Blue".to_string(),
        kind: ListingKind::Sale,
        price: Some(PriceInfo { amount: "0.001".to_string(), currency: "BTC".to_string() }),
        created_at: Moment { secs: 1_700_000_000, nanos: 0 },
    }
}

#[test]
fn same_terms_notices_each_term_and_ignores_formatting() {
    let o = original();
    let price = o.price.clone();
    let sale = ListingKind::Sale;
    let gift_kind = ListingKind::Gift;
    assert!(same_terms(&o, "Mug", " Blue ", &sale, &price, &o.checkout, &o.choices));
    assert!(!same_terms(&o, "Cup", "Blue", &sale, &price, &o.checkout, &o.choices));
    assert!(!same_terms(&o, "Mug", "Red", &sale, &price, &o.checkout, &o.choices));
    assert!(!same_terms(&o, "Mug", "Blue", &gift_kind, &None, &o.checkout, &o.choices));
    let dearer = Some(PriceInfo { amount: "0.002".to_string(), currency: "BTC".to_string() });
    assert!(!same_terms(&o, "Mug", "Blue", &sale, &dearer, &o.checkout, &o.choices));
    let mut unpriced = o.clone();
    unpriced.price = None;
    assert!(!same_terms(
        &unpriced,
        "Mug",
        "Blue",
        &gift_kind,
        &None,
        &unpriced.checkout,
        &unpriced.choices
    ));
    assert!(same_terms(
        &unpriced,
        "Mug",
        "Blue",
        &sale,
        &None,
        &unpriced.checkout,
        &unpriced.choices
    ));
    let checkout =
        Some(FixedCheckout { unit_sats: 10_000, delivery: DeliveryPrice::Included });
    assert!(!same_terms(&o, "Mug", "Blue", &sale, &price, &checkout, &o.choices));
    let mut instant = o.clone();
    instant.checkout = checkout.clone();
    let dearer_checkout =
        Some(FixedCheckout { unit_sats: 12_000, delivery: DeliveryPrice::Included });
    assert!(same_terms(&instant, "Mug", "Blue", &sale, &price, &checkout, &[]));
    assert!(!same_terms(&instant, "Mug", "Blue", &sale, &price, &dearer_checkout, &[]));
    let sizes = vec![ChoiceGroup {
        name: "Size".to_string(),
        options: vec!["S".to_string(), "M".to_string()],
    }];
    assert!(!same_terms(&o, "Mug", "Blue", &sale, &price, &None, &sizes));
    let mut gift = o.clone();
    gift.kind = ListingKind::Gift;
    assert!(same_terms(
        &gift,
        "Mug",
        "Blue",
        &gift_kind,
        &None,
        &gift.checkout,
        &gift.choices
    ));
}

#[test]
fn a_blank_count_is_uncounted_and_junk_is_refused() {
    assert_eq!(parse_quantity(""), Ok(None));
    assert_eq!(parse_quantity("  "), Ok(None));
    assert_eq!(parse_quantity(" 3 "), Ok(Some(3)));
    assert_eq!(parse_quantity("0"), Ok(Some(0)));
    assert!(parse_quantity("-1").is_err());
    assert!(parse_quantity("2.5").is_err());
    assert!(parse_quantity("lots").is_err());
}

#[test]
fn a_count_reads_as_a_number_does() {
    assert_eq!(parse_quantity("+7"), Ok(Some(7)));
    assert_eq!(parse_quantity("007"), Ok(Some(7)));
    assert_eq!(parse_quantity("4294967295"), Ok(Some(4_294_967_295)));
    assert!(parse_quantity("4294967296").is_err());
    assert!(parse_quantity("+").is_err());
    assert_eq!(parse_sats("18446744073709551615"), Some(18_446_744_073_709_551_615));
    assert_eq!(parse_sats("18446744073709551616"), None);
    assert_eq!(parse_sats("\u{2003}5\u{00a0}"), Some(5));
}

fn form() -> TermsForm {
    TermsForm {
        instant: true,
        unit_sats: " 10000 ".to_string(),
        by_region: true,
        regions: vec![
            (" US ".to_string(), "2000".to_string()),
            ("EU".to_string(), "5000".to_string()),
            (String::new(), String::new()),
        ],
        choices: vec![
            ("Flavour ".to_string(), "Fig, Plum ,".to_string()),
            (String::new(), " ".to_string()),
        ],
    }
}

type Built = Result<(Option<FixedCheckout>, Vec<ChoiceGroup>), String>;

fn build(form: &TermsForm, kind: &ListingKind) -> Built {
    form.build(kind, &None)
}

#[test]
fn the_terms_form_builds_trimmed_terms_and_round_trips() {
    let (checkout, choices) = build(&form(), &ListingKind::Sale).expect("valid");
    assert_eq!(
        checkout,
        Some(FixedCheckout {
            unit_sats: 10_000,
            delivery: DeliveryPrice::ByRegion(vec![
                RegionPrice { region: "US".to_string(), sats: 2000 },
                RegionPrice { region: "EU".to_string(), sats: 5000 },
            ]),
        })
    );
    assert_eq!(
        choices,
        vec![ChoiceGroup {
            name: "Flavour".to_string(),
            options: vec!["Fig".to_string(), "Plum".to_string()],
        }]
    );

    let mut listing = original();
    listing.checkout = checkout.clone();
    listing.choices = choices.clone();
    let reopened = TermsForm::from_listing(&listing);
    assert_eq!(build(&reopened, &ListingKind::Sale), Ok((checkout, choices)));
    assert_eq!(build(&form(), &ListingKind::Gift), Ok((None, Vec::new())));
}

#[test]
fn the_terms_form_refuses_unusable_terms() {
    let mut junk = form();
    junk.unit_sats = "0.5".to_string();
    assert!(build(&junk, &ListingKind::Sale).is_err());

    let mut zero = form();
    zero.unit_sats = "0".to_string();
    assert_eq!(
        build(&zero, &ListingKind::Sale),
        Err("An instant-checkout price must be more than zero.".to_string())
    );

    let mut no_regions = form();
    no_regions.regions.clear();
    assert!(build(&no_regions, &ListingKind::Sale).is_err());

    let mut twice = form();
    twice.regions[1].0 = "us".to_string();
    assert!(build(&twice, &ListingKind::Sale).is_err());

    let mut no_options = form();
    no_options.choices[0].1 = " , ".to_string();
    assert!(build(&no_options, &ListingKind::Sale).is_err());

    let mut quote = form();
    quote.instant = false;
    let (checkout, choices) = build(&quote, &ListingKind::Sale).expect("valid");
    assert_eq!(checkout, None);
    assert_eq!(choices.len(), 1);
}

#[test]
fn terms_that_do_not_read_say_which_number() {
    let mut junk = form();
    junk.unit_sats = "ten".to_string();
    assert_eq!(
        junk.typed_terms(&ListingKind::Sale),
        Err("Give the instant checkout price as a whole number of sats.".to_string())
    );
    let mut junk = form();
    junk.regions[0].1 = "free".to_string();
    assert_eq!(
        junk.typed_terms(&ListingKind::Sale),
        Err("Give each delivery price as a whole number of sats. Use 0 for free delivery."
            .to_string())
    );
    // Only a sale carries terms, so only a sale's are read.
    assert_eq!(junk.typed_terms(&ListingKind::Request), Ok((None, Vec::new())));
}

#[test]
fn a_problem_becomes_a_sentence() {
    assert_eq!(sentence("it is wrong"), "It is wrong.");
    assert_eq!(sentence("It is wrong."), "It is wrong.");
    assert_eq!(sentence("\u{df}-shaped"), "SS-shaped.");
    assert_eq!(sentence(""), ".");
}

#[test]
fn the_kind_selector_goes_both_ways() {
    for kind in [ListingKind::Sale, ListingKind::Gift, ListingKind::Request] {
        assert_eq!(chosen_kind(kind_value(&kind)), kind);
    }
    assert_eq!(kind_value(&ListingKind::Request), "request");
    assert_eq!(chosen_kind("anything else"), ListingKind::Sale);
    assert_eq!(form_words(true), ("Edit listing", "Save changes"));
    assert_eq!(form_words(false), ("New listing", "Publish listing"));
}

#[test]
fn each_edit_changes_its_own_field() {
    let mut f = TermsForm::default();
    f.edit(TermsEdit::Instant(true));
    f.edit(TermsEdit::UnitSats("5".to_string()));
    f.edit(TermsEdit::Delivery("regions".to_string()));
    f.edit(TermsEdit::AddRegion);
    f.edit(TermsEdit::AddRegion);
    f.edit(TermsEdit::Region(1, "EU".to_string()));
    f.edit(TermsEdit::RegionSats(1, "9".to_string()));
    f.edit(TermsEdit::RemoveRegion(0));
    f.edit(TermsEdit::AddChoice);
    f.edit(TermsEdit::ChoiceName(0, "Size".to_string()));
    f.edit(TermsEdit::ChoiceOptions(0, "S, M".to_string()));
    f.edit(TermsEdit::AddChoice);
    f.edit(TermsEdit::RemoveChoice(1));
    assert_eq!(
        f,
        TermsForm {
            instant: true,
            unit_sats: "5".to_string(),
            by_region: true,
            regions: vec![("EU".to_string(), "9".to_string())],
            choices: vec![("Size".to_string(), "S, M".to_string())],
        }
    );
    f.edit(TermsEdit::Delivery("included".to_string()));
    assert!(!f.by_region);
}

#[test]
fn an_edit_of_the_count_alone_keeps_the_listing() {
    let listing = original();
    let mut draft = ListingDraft::open(&Some(listing.clone()), Some(4));
    assert_eq!(draft.quantity, "4");
    assert!(draft.can_submit(&None));
    draft.quantity = " 6 ".to_string();
    let now = Moment { secs: 1_800_000_000, nanos: 0 };
    let before = draft.clone();
    assert_eq!(
        draft.submit(&Some(listing.clone()), &None, now),
        ListingSubmit::Original(Some(6))
    );
    assert_eq!(draft, before, "nothing is cleared");

    draft.title = " Big mug ".to_string();
    match draft.submit(&Some(listing), &None, now) {
        ListingSubmit::New(new, count) => {
            assert_eq!(new.title, "Big mug");
            assert_eq!(new.created_at, now);
            assert_eq!(new.price.expect("priced").amount, "0.001");
            assert_eq!(count, Some(6));
        }
        other => panic!("{other:?}"),
    }
    assert_eq!(draft.title, "", "and the form is cleared");
    assert_eq!(draft.price_currency, "BTC");
    assert_eq!(draft.submit(&None, &None, now), ListingSubmit::Nothing, "a second click is lost");
}

#[test]
fn a_form_is_submitted_only_when_all_of_it_reads() {
    let now = Moment { secs: 0, nanos: 0 };
    let mut draft = ListingDraft::open(&None, None);
    assert!(!draft.can_submit(&None), "no title");
    draft.title = "Jam".to_string();
    assert!(draft.can_submit(&None));
    assert!(!draft.can_submit(&Some("no good".to_string())));
    draft.quantity = "some".to_string();
    assert!(!draft.can_submit(&None));
    assert_eq!(draft.submit(&None, &None, now), ListingSubmit::Nothing);
    draft.quantity = String::new();
    draft.kind = ListingKind::Gift;
    draft.price_amount = "5".to_string();
    match draft.submit(&None, &Some("ignored for a gift".to_string()), now) {
        ListingSubmit::New(new, None) => assert_eq!(new.price, None, "a gift has no price"),
        other => panic!("{other:?}"),
    }
}

#[test]
fn labels_say_what_a_buyer_can_do() {
    let available = |quantity: Option<u32>| ListingAvailability::Available { quantity };
    assert_eq!(availability_label(&available(None)), "On sale");
    assert_eq!(availability_label(&available(Some(3))), "On sale \u{b7} 3 left");
    assert_eq!(availability_label(&available(Some(0))), "Sold out");
    assert_eq!(availability_label(&ListingAvailability::SoldOut), "Sold out");
    assert_eq!(availability_label(&ListingAvailability::Withdrawn), "Taken down");
}

#[test]
fn one_sold_counts_down_to_sold_out() {
    let available = |quantity: Option<u32>| ListingAvailability::Available { quantity };
    assert_eq!(after_one_sold(&available(Some(3))), Some(available(Some(2))));
    assert_eq!(after_one_sold(&available(Some(1))), Some(ListingAvailability::SoldOut));
    assert_eq!(after_one_sold(&available(Some(0))), None);
    assert_eq!(after_one_sold(&available(None)), None);
    assert_eq!(after_one_sold(&ListingAvailability::SoldOut), None);
    assert_eq!(after_one_sold(&ListingAvailability::Withdrawn), None);
}

#[test]
fn a_row_says_when_it_was_listed() {
    let row = SellerRow {
        place: 0,
        listed_secs: 1_700_000_000,
        listed_nanos: 0,
        availability: ListingAvailability::SoldOut,
        pending: false,
    };
    assert_eq!(listed_on(&row), Some("Listed 14 Nov 2023".to_string()));
    assert_eq!(
        change_status(true, ListingAvailability::SoldOut),
        StatusChange::Drop,
        "the second of two clicks is dropped"
    );
    assert_eq!(
        change_status(false, ListingAvailability::SoldOut),
        StatusChange::Queue(ListingAvailability::SoldOut)
    );
    assert_eq!(change_refused("no key"), "Could not update the listing: no key");
}

/// What each control of a row asks for.
#[test]
fn a_rows_controls_ask_for_an_availability() {
    let counted = ListingAvailability::Available { quantity: Some(3) };
    let uncounted = ListingAvailability::Available { quantity: None };
    assert_eq!(press_row(RowButton::PutBack, &ListingAvailability::Withdrawn), Some(uncounted));
    assert_eq!(press_row(RowButton::BackOnSale, &ListingAvailability::SoldOut), Some(uncounted));
    assert_eq!(
        press_row(RowButton::MarkSoldOut, &counted),
        Some(ListingAvailability::SoldOut)
    );
    assert_eq!(press_row(RowButton::TakeDown, &counted), Some(ListingAvailability::Withdrawn));
    assert_eq!(
        press_row(RowButton::OneSold, &counted),
        Some(ListingAvailability::Available { quantity: Some(2) })
    );
    assert_eq!(press_row(RowButton::OneSold, &uncounted), None);
    assert!(!row_controls(&uncounted, false).one_sold);
    assert!(row_controls(&counted, false).one_sold);
}

/// What makes terms unusable is said whether or not a reader finds more.
#[test]
fn unusable_terms_say_why() {
    let checkout = |unit_sats: u64, regions: &[&str]| {
        Some(FixedCheckout {
            unit_sats,
            delivery: DeliveryPrice::ByRegion(
                regions
                    .iter()
                    .map(|r| RegionPrice { region: r.to_string(), sats: 1 })
                    .collect(),
            ),
        })
    };
    let choice = |options: &[&str]| {
        vec![ChoiceGroup {
            name: String::new(),
            options: options.iter().map(|o| o.to_string()).collect(),
        }]
    };
    assert_eq!(terms_problem(&checkout(1, &["US", "EU"]), &choice(&["Fig"])), None);
    assert_eq!(
        terms_problem(&checkout(0, &["US"]), &choice(&["Fig"])),
        Some("an instant-checkout price must be more than zero")
    );
    assert!(terms_problem(&checkout(1, &[]), &Vec::new()).is_some());
    assert!(terms_problem(&checkout(1, &["US", "EU", "us"]), &Vec::new()).is_some());
    assert!(terms_problem(&None, &choice(&[])).is_some());

    // A row of nothing but a comma is a choice of nothing, and is refused.
    let mut comma = form();
    comma.choices.push((String::new(), ",".to_string()));
    assert!(build(&comma, &ListingKind::Sale).is_err());
    assert_eq!(
        form().build(&ListingKind::Sale, &Some("the terms are too long".to_string())),
        Err("The terms are too long.".to_string())
    );
}

#[test]
fn a_listing_that_was_not_published_says_so() {
    assert_eq!(listing_not_published(false, "full"), "Cannot add the listing: full");
    assert_eq!(listing_not_published(true, "full"), "Could not save the listing: full");
}
