//! What a seller lists, as the forms and the buyers' screens read it.

use crate::payment::Moment;
use crate::text;
use vstd::prelude::*;

verus! {

/// What kind of listing it is.
#[derive(Debug, Clone, Copy, PartialEq, Eq, Structural)]
pub enum ListingKind {
    Sale,
    Gift,
    Request,
}

/// A price as the seller wrote it.
#[derive(Debug, Clone, PartialEq, Eq)]
pub struct PriceInfo {
    pub amount: String,
    pub currency: String,
}

/// What a price says.
#[verifier::ext_equal]
pub struct PriceView {
    pub amount: Seq<char>,
    pub currency: Seq<char>,
}

impl View for PriceInfo {
    type V = PriceView;

    open spec fn view(&self) -> PriceView {
        PriceView { amount: self.amount@, currency: self.currency@ }
    }
}

/// What a price says, if there is one.
pub open spec fn price_view(p: Option<PriceInfo>) -> Option<PriceView> {
    match p {
        Some(p) => Some(p@),
        None => None,
    }
}

/// What delivery to one region costs.
#[derive(Debug, Clone, PartialEq, Eq)]
pub struct RegionPrice {
    pub region: String,
    pub sats: u64,
}

impl View for RegionPrice {
    type V = (Seq<char>, u64);

    open spec fn view(&self) -> (Seq<char>, u64) {
        (self.region@, self.sats)
    }
}

/// What delivery costs.
#[derive(Debug, Clone, PartialEq, Eq)]
pub enum DeliveryPrice {
    Included,
    ByRegion(Vec<RegionPrice>),
}

/// What delivery costs: a price per region, in order.
#[verifier::ext_equal]
pub enum DeliveryView {
    Included,
    ByRegion(Seq<(Seq<char>, u64)>),
}

/// The regions of some rows, and their prices.
pub open spec fn region_views(rows: Seq<RegionPrice>) -> Seq<(Seq<char>, u64)> {
    rows.map_values(|r: RegionPrice| r@)
}

impl View for DeliveryPrice {
    type V = DeliveryView;

    open spec fn view(&self) -> DeliveryView {
        match *self {
            DeliveryPrice::Included => DeliveryView::Included,
            DeliveryPrice::ByRegion(rows) => DeliveryView::ByRegion(region_views(rows@)),
        }
    }
}

/// Terms a buyer can buy on without asking the seller for a total.
#[derive(Debug, Clone, PartialEq, Eq)]
pub struct FixedCheckout {
    pub unit_sats: u64,
    pub delivery: DeliveryPrice,
}

/// What instant-checkout terms say.
#[verifier::ext_equal]
pub struct CheckoutView {
    pub unit_sats: u64,
    pub delivery: DeliveryView,
}

impl View for FixedCheckout {
    type V = CheckoutView;

    open spec fn view(&self) -> CheckoutView {
        CheckoutView { unit_sats: self.unit_sats, delivery: self.delivery@ }
    }
}

/// What instant-checkout terms say, if there are any.
pub open spec fn checkout_view(c: Option<FixedCheckout>) -> Option<CheckoutView> {
    match c {
        Some(c) => Some(c@),
        None => None,
    }
}

/// Something the buyer picks one of.
#[derive(Debug, Clone, PartialEq, Eq)]
pub struct ChoiceGroup {
    pub name: String,
    pub options: Vec<String>,
}

/// What a choice is of.
#[verifier::ext_equal]
pub struct ChoiceView {
    pub name: Seq<char>,
    pub options: Seq<Seq<char>>,
}

impl View for ChoiceGroup {
    type V = ChoiceView;

    open spec fn view(&self) -> ChoiceView {
        ChoiceView { name: self.name@, options: text::texts(self.options@) }
    }
}

/// What some choices are of.
pub open spec fn choice_views(groups: Seq<ChoiceGroup>) -> Seq<ChoiceView> {
    groups.map_values(|g: ChoiceGroup| g@)
}

/// A listing.
#[derive(Debug, Clone, PartialEq, Eq)]
pub struct Listing {
    /// What its terms hash to.
    pub id: [u8; 32],
    pub title: String,
    pub description: String,
    pub kind: ListingKind,
    pub price: Option<PriceInfo>,
    pub created_at: Moment,
    pub checkout: Option<FixedCheckout>,
    pub choices: Vec<ChoiceGroup>,
}

/// Whether two lists hold the same texts in the same order.
pub fn same_list(a: &Vec<String>, b: &Vec<String>) -> (r: bool)
    ensures
        r == (text::texts(a@) == text::texts(b@)),
{
    if a.len() != b.len() {
        assert(text::texts(a@).len() != text::texts(b@).len());
        return false;
    }
    let mut i: usize = 0;
    while i < a.len()
        invariant
            i <= a.len(),
            a.len() == b.len(),
            forall|j: int| 0 <= j < i ==> (#[trigger] a@[j])@ == b@[j]@,
        decreases a.len() - i,
    {
        if !text::same_text(&a[i], &b[i]) {
            assert(text::texts(a@)[i as int] != text::texts(b@)[i as int]);
            return false;
        }
        i = i + 1;
    }
    assert(text::texts(a@) =~= text::texts(b@));
    true
}

/// Whether two lists of choices are the same.
pub fn same_choices(a: &[ChoiceGroup], b: &[ChoiceGroup]) -> (r: bool)
    ensures
        r == (choice_views(a@) == choice_views(b@)),
{
    if a.len() != b.len() {
        assert(choice_views(a@).len() != choice_views(b@).len());
        return false;
    }
    let mut i: usize = 0;
    while i < a.len()
        invariant
            i <= a.len(),
            a@.len() == b@.len(),
            forall|j: int| 0 <= j < i ==> (#[trigger] a@[j])@ == b@[j]@,
        decreases a.len() - i,
    {
        if !(text::same_text(&a[i].name, &b[i].name) && same_list(&a[i].options, &b[i].options)) {
            assert(choice_views(a@)[i as int] != choice_views(b@)[i as int]);
            return false;
        }
        i = i + 1;
    }
    assert(choice_views(a@) =~= choice_views(b@));
    true
}

fn same_regions(a: &Vec<RegionPrice>, b: &Vec<RegionPrice>) -> (r: bool)
    ensures
        r == (region_views(a@) == region_views(b@)),
{
    if a.len() != b.len() {
        assert(region_views(a@).len() != region_views(b@).len());
        return false;
    }
    let mut i: usize = 0;
    while i < a.len()
        invariant
            i <= a.len(),
            a.len() == b.len(),
            forall|j: int| 0 <= j < i ==> (#[trigger] a@[j])@ == b@[j]@,
        decreases a.len() - i,
    {
        if a[i].sats != b[i].sats || !text::same_text(&a[i].region, &b[i].region) {
            assert(region_views(a@)[i as int] != region_views(b@)[i as int]);
            return false;
        }
        i = i + 1;
    }
    assert(region_views(a@) =~= region_views(b@));
    true
}

/// Whether two sets of instant-checkout terms are the same.
pub fn same_checkout(a: &Option<FixedCheckout>, b: &Option<FixedCheckout>) -> (r: bool)
    ensures
        r == (checkout_view(*a) == checkout_view(*b)),
{
    match (a, b) {
        (None, None) => true,
        (Some(x), Some(y)) => {
            if x.unit_sats != y.unit_sats {
                return false;
            }
            match (&x.delivery, &y.delivery) {
                (DeliveryPrice::Included, DeliveryPrice::Included) => true,
                (DeliveryPrice::ByRegion(p), DeliveryPrice::ByRegion(q)) => same_regions(p, q),
                _ => false,
            }
        },
        _ => false,
    }
}

/// A price is told by both its amount and its currency.
pub proof fn a_price_tells_its_amount_and_its_currency(p: PriceInfo)
    ensures
        p@.amount == p.amount@,
        p@.currency == p.currency@,
        price_view(Some(p)) == Some(p@),
        price_view(None) is None,
{
}

/// Instant-checkout terms are told by the price of one and the delivery: that
/// it is included, or each region and its price, in order.
pub proof fn checkout_terms_tell_every_price(c: FixedCheckout)
    ensures
        c@.unit_sats == c.unit_sats,
        c.delivery is Included <==> c@.delivery is Included,
        c.delivery matches DeliveryPrice::ByRegion(rows) ==> {
            &&& c@.delivery matches DeliveryView::ByRegion(told)
            &&& told.len() == rows@.len()
            &&& forall|i: int|
                0 <= i < told.len() ==> (#[trigger] told[i]).0 == rows@[i].region@ && told[i].1
                    == rows@[i].sats
        },
        checkout_view(Some(c)) == Some(c@),
        checkout_view(None) is None,
{
}

/// A choice is told by its name and each of its options, in order.
pub proof fn a_choice_tells_its_name_and_its_options(groups: Seq<ChoiceGroup>, i: int)
    requires
        0 <= i < groups.len(),
    ensures
        choice_views(groups).len() == groups.len(),
        choice_views(groups)[i].name == groups[i].name@,
        choice_views(groups)[i].options.len() == groups[i].options@.len(),
        forall|j: int|
            0 <= j < groups[i].options@.len() ==> #[trigger] choice_views(groups)[i].options[j]
                == groups[i].options@[j]@,
{
}

} // verus!
