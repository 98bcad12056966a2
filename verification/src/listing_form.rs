//! The form a seller fills in to publish a listing, or to change one.
//!
//! A listing's terms cannot change in place, since its id is a hash of them.
//! So an edit that changes any term gives a new listing, which is published
//! while the old one is taken down; an edit that changes only the count gives
//! back the listing it was opened on.

use crate::listing::{
    self, ChoiceGroup, ChoiceView, CheckoutView, DeliveryPrice, DeliveryView, FixedCheckout,
    Listing, ListingKind, PriceInfo, PriceView, RegionPrice,
};
use crate::my_store;
use crate::payment::Moment;
use crate::seqs;
use crate::text;
use vstd::prelude::*;

verus! {

/// A price as a new listing would carry it: trimmed, and only where it is a
/// sale with an amount.
pub open spec fn normalised(price: Option<PriceView>, kind: ListingKind) -> Option<PriceView> {
    match price {
        Some(p) => if kind == ListingKind::Sale && text::trimmed(p.amount).len() > 0 {
            Some(
                PriceView {
                    amount: text::trimmed(p.amount),
                    currency: text::trimmed(p.currency),
                },
            )
        } else {
            None
        },
        None => None,
    }
}

/// Whether a listing's terms are these, apart from formatting.
pub open spec fn terms_match(
    original: Listing,
    title: Seq<char>,
    description: Seq<char>,
    kind: ListingKind,
    price: Option<PriceView>,
    checkout: Option<CheckoutView>,
    choices: Seq<ChoiceView>,
) -> bool {
    &&& text::trimmed(original.title@) == text::trimmed(title)
    &&& text::trimmed(original.description@) == text::trimmed(description)
    &&& original.kind == kind
    &&& normalised(listing::price_view(original.price), original.kind) == normalised(price, kind)
    &&& listing::checkout_view(original.checkout) == checkout
    &&& listing::choice_views(original.choices@) == choices
}

/// Whether a price's normal forms are the same.
fn same_price(a: &Option<PriceInfo>, a_kind: ListingKind, b: &Option<PriceInfo>, b_kind: ListingKind) -> (r:
    bool)
    ensures
        r == (normalised(listing::price_view(*a), a_kind) == normalised(
            listing::price_view(*b),
            b_kind,
        )),
{
    match (normal_price(a, a_kind), normal_price(b, b_kind)) {
        (None, None) => true,
        (Some(x), Some(y)) => text::same_text(&x.amount, &y.amount) && text::same_text(
            &x.currency,
            &y.currency,
        ),
        _ => false,
    }
}

/// A price as a new listing would carry it.
fn normal_price(price: &Option<PriceInfo>, kind: ListingKind) -> (r: Option<PriceInfo>)
    ensures
        listing::price_view(r) == normalised(listing::price_view(*price), kind),
{
    match price {
        Some(p) => if kind == ListingKind::Sale && !text::trim(&p.amount).is_empty() {
            Some(
                PriceInfo {
                    amount: text::trim(&p.amount).to_string(),
                    currency: text::trim(&p.currency).to_string(),
                },
            )
        } else {
            None
        },
        None => None,
    }
}

/// Whether what the form holds is the listing it was opened on, term for
/// term, compared the way the form would build a new one. A mismatch that is
/// only formatting would otherwise turn a count change into a take-down and a
/// new id.
///
/// Every term is compared but for the id and the time of listing.
pub fn same_terms(
    original: &Listing,
    title: &str,
    description: &str,
    kind: &ListingKind,
    price: &Option<PriceInfo>,
    checkout: &Option<FixedCheckout>,
    choices: &[ChoiceGroup],
) -> (r: bool)
    ensures
        r == terms_match(
            *original,
            title@,
            description@,
            *kind,
            listing::price_view(*price),
            listing::checkout_view(*checkout),
            listing::choice_views(choices@),
        ),
{
    text::same_text(text::trim(&original.title), text::trim(title)) && text::same_text(
        text::trim(&original.description),
        text::trim(description),
    ) && original.kind == *kind && same_price(&original.price, original.kind, price, *kind)
        && listing::same_checkout(&original.checkout, checkout) && listing::same_choices(
        &original.choices,
        choices,
    )
}

/// The count a field holds: none where it is blank, else a whole number.
pub open spec fn typed_count(typed: Seq<char>) -> Result<Option<u32>, ()> {
    let typed = text::trimmed(typed);
    if typed.len() == 0 {
        Ok(None)
    } else {
        match text::parsed_at_most(typed, u32::MAX as nat) {
            Some(n) => Ok(Some(n as u32)),
            None => Err(()),
        }
    }
}

/// The count field: blank is "not counted", anything else a whole number.
pub fn parse_quantity(typed: &str) -> (r: Result<Option<u32>, ()>)
    ensures
        r == typed_count(typed@),
{
    let typed = text::trim(typed);
    if typed.is_empty() {
        return Ok(None);
    }
    match text::parse_u32(typed) {
        Some(n) => Ok(Some(n)),
        None => Err(()),
    }
}

/// The word the form's selector holds for a kind.
pub open spec fn kind_word(kind: ListingKind) -> Seq<char> {
    match kind {
        ListingKind::Sale => "sale"@,
        ListingKind::Gift => "gift"@,
        ListingKind::Request => "request"@,
    }
}

/// The word the form's selector holds for a kind.
pub fn kind_value(kind: &ListingKind) -> (r: &'static str)
    ensures
        r@ == kind_word(*kind),
{
    match kind {
        ListingKind::Sale => "sale",
        ListingKind::Gift => "gift",
        ListingKind::Request => "request",
    }
}

/// The kind a word of the form's selector stands for; a sale where it is
/// neither of the others.
pub open spec fn kind_of(word: Seq<char>) -> ListingKind {
    if word == "gift"@ {
        ListingKind::Gift
    } else if word == "request"@ {
        ListingKind::Request
    } else {
        ListingKind::Sale
    }
}

/// The kind a word of the form's selector stands for.
pub fn chosen_kind(word: &str) -> (r: ListingKind)
    ensures
        r == kind_of(word@),
{
    if text::same_text(word, "gift") {
        ListingKind::Gift
    } else if text::same_text(word, "request") {
        ListingKind::Request
    } else {
        ListingKind::Sale
    }
}

/// The selector's word for a kind stands for that kind.
pub proof fn a_kind_comes_back_from_its_word(kind: ListingKind)
    ensures
        kind_of(kind_word(kind)) == kind,
{
    reveal_strlit("sale");
    reveal_strlit("gift");
    reveal_strlit("request");
    assert("sale"@[0] != "gift"@[0]);
    assert("sale"@[0] != "request"@[0]);
    assert("request"@[0] != "gift"@[0]);
}

/// A form's row: two texts.
pub type Row = (String, String);

/// What a form's row holds.
pub type RowView = (Seq<char>, Seq<char>);

/// What a form's rows hold.
pub open spec fn row_views(rows: Seq<Row>) -> Seq<RowView> {
    rows.map_values(|r: Row| (r.0@, r.1@))
}

/// Whether a row was filled in at all.
pub open spec fn is_filled(row: RowView) -> bool {
    text::trimmed(row.0).len() > 0 || text::trimmed(row.1).len() > 0
}

/// What the seller has typed for instant checkout and choices, before it is
/// parsed. Kept as text so a half-typed number is shown back as typed.
#[derive(Debug, Clone, PartialEq, Eq)]
pub struct TermsForm {
    /// Whether the seller offers instant checkout at all.
    pub instant: bool,
    /// The price of one, in sats.
    pub unit_sats: String,
    /// Delivery priced per region, rather than included.
    pub by_region: bool,
    /// (region, sats) rows.
    pub regions: Vec<(String, String)>,
    /// (name, options separated by commas) rows.
    pub choices: Vec<(String, String)>,
}

/// What the seller has typed.
#[verifier::ext_equal]
pub struct FormView {
    pub instant: bool,
    pub unit_sats: Seq<char>,
    pub by_region: bool,
    pub regions: Seq<RowView>,
    pub choices: Seq<RowView>,
}

impl View for TermsForm {
    type V = FormView;

    open spec fn view(&self) -> FormView {
        FormView {
            instant: self.instant,
            unit_sats: self.unit_sats@,
            by_region: self.by_region,
            regions: row_views(self.regions@),
            choices: row_views(self.choices@),
        }
    }
}

/// A form nothing was typed into.
pub open spec fn blank_form() -> FormView {
    FormView {
        instant: false,
        unit_sats: Seq::empty(),
        by_region: false,
        regions: Seq::empty(),
        choices: Seq::empty(),
    }
}

impl Default for TermsForm {
    fn default() -> (r: Self)
        ensures
            r@ == blank_form(),
    {
        let r = TermsForm {
            instant: false,
            unit_sats: String::new(),
            by_region: false,
            regions: Vec::new(),
            choices: Vec::new(),
        };
        assert(r@ =~= blank_form());
        r
    }
}

/// What the typed terms come to.
#[verifier::ext_equal]
pub enum TypedTerms {
    Terms { checkout: Option<CheckoutView>, choices: Seq<ChoiceView> },
    /// The price of one is not a whole number of sats.
    NoUnitPrice,
    /// A delivery price is not a whole number of sats.
    NoDeliveryPrice,
}

/// The choice a row stands for.
pub open spec fn row_choice(row: RowView) -> ChoiceView {
    ChoiceView { name: text::trimmed(row.0), options: text::items(row.1, ',') }
}

/// The choices some rows stand for; rows left blank are passed over.
pub open spec fn typed_choices(rows: Seq<RowView>) -> Seq<ChoiceView> {
    rows.filter(|r: RowView| is_filled(r)).map_values(|r: RowView| row_choice(r))
}

/// A whole number of sats, if the text is one.
pub open spec fn typed_sats(typed: Seq<char>) -> Option<u64> {
    match text::parsed_at_most(text::trimmed(typed), u64::MAX as nat) {
        Some(n) => Some(n as u64),
        None => None,
    }
}

/// The delivery price a row stands for, where its sats are a number.
pub open spec fn row_region(row: RowView) -> (Seq<char>, u64) {
    (text::trimmed(row.0), typed_sats(row.1)->0)
}

/// The rows that were filled in.
pub open spec fn filled(rows: Seq<RowView>) -> Seq<RowView> {
    rows.filter(|r: RowView| is_filled(r))
}

/// Whether each of some rows has a price.
pub open spec fn all_priced(rows: Seq<RowView>) -> bool {
    forall|i: int| 0 <= i < rows.len() ==> typed_sats((#[trigger] rows[i]).1) is Some
}

/// The delivery terms a form stands for, where every filled row has a price.
pub open spec fn typed_delivery(form: FormView) -> DeliveryView {
    if form.by_region {
        DeliveryView::ByRegion(filled(form.regions).map_values(|r: RowView| row_region(r)))
    } else {
        DeliveryView::Included
    }
}

/// The terms a listing of `kind` built from a form carries. Only a sale
/// carries any.
pub open spec fn typed(form: FormView, kind: ListingKind) -> TypedTerms {
    if kind != ListingKind::Sale {
        TypedTerms::Terms { checkout: None, choices: Seq::empty() }
    } else if !form.instant {
        TypedTerms::Terms { checkout: None, choices: typed_choices(form.choices) }
    } else if typed_sats(form.unit_sats) is None {
        TypedTerms::NoUnitPrice
    } else if form.by_region && !all_priced(filled(form.regions)) {
        TypedTerms::NoDeliveryPrice
    } else {
        TypedTerms::Terms {
            checkout: Some(
                CheckoutView {
                    unit_sats: typed_sats(form.unit_sats)->0,
                    delivery: typed_delivery(form),
                },
            ),
            choices: typed_choices(form.choices),
        }
    }
}

/// What the seller is told of terms that cannot be read.
pub open spec fn typing_problem(terms: TypedTerms) -> Option<Seq<char>> {
    match terms {
        TypedTerms::Terms { .. } => None,
        TypedTerms::NoUnitPrice => Some(
            "Give the instant checkout price as a whole number of sats."@,
        ),
        TypedTerms::NoDeliveryPrice => Some(
            "Give each delivery price as a whole number of sats. Use 0 for free delivery."@,
        ),
    }
}

/// The form that shows some terms, to edit them.
pub open spec fn form_of(checkout: Option<CheckoutView>, choices: Seq<ChoiceView>) -> FormView {
    FormView {
        instant: checkout is Some,
        unit_sats: match checkout {
            Some(c) => text::decimal(c.unit_sats as nat),
            None => Seq::empty(),
        },
        by_region: checkout matches Some(c) && c.delivery is ByRegion,
        regions: match checkout {
            Some(c) => match c.delivery {
                DeliveryView::ByRegion(rows) => rows.map_values(
                    |r: (Seq<char>, u64)| (r.0, text::decimal(r.1 as nat)),
                ),
                DeliveryView::Included => Seq::empty(),
            },
            None => Seq::empty(),
        },
        choices: choices.map_values(
            |g: ChoiceView| (g.name, text::joined(g.options, ", "@)),
        ),
    }
}

fn region_rows(rows: &Vec<RegionPrice>) -> (r: Vec<(String, String)>)
    ensures
        row_views(r@) == listing::region_views(rows@).map_values(
            |r: (Seq<char>, u64)| (r.0, text::decimal(r.1 as nat)),
        ),
{
    let mut r: Vec<(String, String)> = Vec::new();
    let mut i: usize = 0;
    while i < rows.len()
        invariant
            i <= rows.len(),
            r@.len() == i,
            forall|j: int|
                0 <= j < i ==> (#[trigger] r@[j]).0@ == rows@[j].region@ && r@[j].1@
                    == text::decimal(rows@[j].sats as nat),
        decreases rows.len() - i,
    {
        r.push((rows[i].region.clone(), text::decimal_text(rows[i].sats)));
        i = i + 1;
    }
    assert(row_views(r@) =~= listing::region_views(rows@).map_values(
        |r: (Seq<char>, u64)| (r.0, text::decimal(r.1 as nat)),
    ));
    r
}

fn choice_rows(groups: &Vec<ChoiceGroup>) -> (r: Vec<(String, String)>)
    ensures
        row_views(r@) == listing::choice_views(groups@).map_values(
            |g: ChoiceView| (g.name, text::joined(g.options, ", "@)),
        ),
{
    let mut r: Vec<(String, String)> = Vec::new();
    let mut i: usize = 0;
    while i < groups.len()
        invariant
            i <= groups.len(),
            r@.len() == i,
            forall|j: int|
                0 <= j < i ==> (#[trigger] r@[j]).0@ == groups@[j].name@ && r@[j].1@
                    == text::joined(text::texts(groups@[j].options@), ", "@),
        decreases groups.len() - i,
    {
        r.push((groups[i].name.clone(), text::join(&groups[i].options, ", ")));
        i = i + 1;
    }
    assert(row_views(r@) =~= listing::choice_views(groups@).map_values(
        |g: ChoiceView| (g.name, text::joined(g.options, ", "@)),
    ));
    r
}

/// The items between the commas, each trimmed, blank ones passed over.
fn items_of(s: &str) -> (r: Vec<String>)
    ensures
        text::texts(r@) == text::items(s@, ','),
{
    let pieces = text::split(s, ',');
    let ghost clean = text::split_on(s@, ',').map_values(|p: Seq<char>| text::trimmed(p));
    let ghost keep = |item: Seq<char>| item.len() > 0;
    let mut r: Vec<String> = Vec::new();
    let mut i: usize = 0;
    proof {
        seqs::lemma_filter_none(clean, keep);
        assert(text::texts(r@) =~= Seq::empty());
        assert(text::texts(pieces@).len() == pieces@.len());
    }
    while i < pieces.len()
        invariant
            i <= pieces.len(),
            text::texts(pieces@) == text::split_on(s@, ','),
            clean == text::split_on(s@, ',').map_values(|p: Seq<char>| text::trimmed(p)),
            clean.len() == pieces@.len(),
            keep == (|item: Seq<char>| item.len() > 0),
            text::texts(r@) == clean.take(i as int).filter(keep),
        decreases pieces.len() - i,
    {
        proof {
            seqs::lemma_filter_step(clean, keep, i as int);
            assert(text::texts(pieces@)[i as int] == pieces@[i as int]@);
        }
        let item = text::trim(&pieces[i]);
        assert(clean[i as int] == item@);
        if !item.is_empty() {
            let ghost before = r@;
            r.push(item.to_string());
            assert(text::texts(r@) =~= text::texts(before).push(item@));
        }
        i = i + 1;
    }
    assert(clean.take(i as int) =~= clean);
    r
}

/// Whether a row was filled in at all.
fn row_is_filled(row: &(String, String)) -> (r: bool)
    ensures
        r == is_filled((row.0@, row.1@)),
{
    !text::trim(&row.0).is_empty() || !text::trim(&row.1).is_empty()
}

fn build_choices(rows: &Vec<(String, String)>) -> (r: Vec<ChoiceGroup>)
    ensures
        listing::choice_views(r@) == typed_choices(row_views(rows@)),
{
    let ghost views = row_views(rows@);
    let ghost keep = |r: RowView| is_filled(r);
    let ghost make = |r: RowView| row_choice(r);
    let mut r: Vec<ChoiceGroup> = Vec::new();
    let mut i: usize = 0;
    proof {
        seqs::lemma_filter_none(views, keep);
        assert(listing::choice_views(r@) =~= Seq::<RowView>::empty().map_values(make));
    }
    while i < rows.len()
        invariant
            i <= rows.len(),
            views == row_views(rows@),
            keep == (|r: RowView| is_filled(r)),
            make == (|r: RowView| row_choice(r)),
            listing::choice_views(r@) == views.take(i as int).filter(keep).map_values(make),
        decreases rows.len() - i,
    {
        proof {
            seqs::lemma_filter_step(views, keep, i as int);
        }
        let row = &rows[i];
        assert(views[i as int] == (row.0@, row.1@));
        if row_is_filled(row) {
            let ghost before = r@;
            let ghost kept = views.take(i as int).filter(keep);
            let group = ChoiceGroup {
                name: text::trim(&row.0).to_string(),
                options: items_of(&row.1),
            };
            assert(group@ == row_choice(views[i as int]));
            r.push(group);
            assert(listing::choice_views(r@) =~= listing::choice_views(before).push(group@));
            assert(kept.push(views[i as int]).map_values(make) =~= kept.map_values(make).push(
                group@,
            ));
        }
        i = i + 1;
    }
    assert(views.take(i as int) =~= views);
    r
}

/// A whole number of sats, or `None`.
pub fn parse_sats(typed: &str) -> (r: Option<u64>)
    ensures
        r == typed_sats(typed@),
{
    text::parse_u64(text::trim(typed))
}

/// The delivery prices the rows stand for, if each filled row has one.
fn build_regions(rows: &Vec<(String, String)>) -> (r: Option<Vec<RegionPrice>>)
    ensures
        (match r {
            Some(prices) => all_priced(filled(row_views(rows@))) && listing::region_views(prices@)
                == filled(row_views(rows@)).map_values(|r: RowView| row_region(r)),
            None => !all_priced(filled(row_views(rows@))),
        }),
{
    let ghost views = row_views(rows@);
    let ghost keep = |r: RowView| is_filled(r);
    let ghost make = |r: RowView| row_region(r);
    let mut r: Vec<RegionPrice> = Vec::new();
    let mut i: usize = 0;
    proof {
        seqs::lemma_filter_none(views, keep);
        assert(listing::region_views(r@) =~= Seq::<RowView>::empty().map_values(make));
    }
    while i < rows.len()
        invariant
            i <= rows.len(),
            views == row_views(rows@),
            keep == (|r: RowView| is_filled(r)),
            make == (|r: RowView| row_region(r)),
            all_priced(views.take(i as int).filter(keep)),
            listing::region_views(r@) == views.take(i as int).filter(keep).map_values(make),
        decreases rows.len() - i,
    {
        proof {
            seqs::lemma_filter_step(views, keep, i as int);
        }
        let row = &rows[i];
        assert(views[i as int] == (row.0@, row.1@));
        if row_is_filled(row) {
            let ghost before = r@;
            let ghost kept = views.take(i as int).filter(keep);
            match parse_sats(&row.1) {
                Some(sats) => {
                    let price = RegionPrice { region: text::trim(&row.0).to_string(), sats };
                    assert(price@ == row_region(views[i as int]));
                    r.push(price);
                    assert(listing::region_views(r@) =~= listing::region_views(before).push(
                        price@,
                    ));
                    assert(kept.push(views[i as int]).map_values(make) =~= kept.map_values(
                        make,
                    ).push(price@));
                    assert forall|j: int| 0 <= j < kept.push(views[i as int]).len() implies typed_sats(
                        (#[trigger] kept.push(views[i as int])[j]).1,
                    ) is Some by {
                        if j < kept.len() {
                            assert(typed_sats(kept[j].1) is Some);
                        }
                    }
                },
                None => {
                    proof {
                        views.lemma_filter_contains(keep, i as int);
                        let all = views.filter(keep);
                        let k = all.index_of(views[i as int]);
                        assert(all[k] == views[i as int]);
                    }
                    return None;
                },
            }
        }
        i = i + 1;
    }
    assert(views.take(i as int) =~= views);
    Some(r)
}

/// A problem as a sentence: a capital first letter, and a full stop at the
/// end.
pub open spec fn as_sentence(problem: Seq<char>) -> Seq<char> {
    let capital = if problem.len() == 0 {
        problem
    } else {
        text::uppercase(problem[0]) + problem.skip(1)
    };
    if capital.len() > 0 && capital.last() == '.' {
        capital
    } else {
        capital + "."@
    }
}

/// A problem as a sentence: a capital first letter, and a full stop at the
/// end.
pub fn sentence(problem: &str) -> (r: String)
    ensures
        r@ == as_sentence(problem@),
{
    let n: usize = problem.unicode_len();
    let mut out = String::new();
    if n > 0 {
        out = text::to_uppercase(problem.get_char(0));
        assert(problem@.skip(1) =~= problem@.subrange(1, n as int));
        out.append(problem.substring_char(1, n));
    } else {
        assert(out@ =~= problem@);
    }
    let m: usize = out.as_str().unicode_len();
    if m == 0 || out.as_str().get_char(m - 1) != '.' {
        out.append(".");
    }
    out
}

/// Whether two of some delivery rows are for the same region.
pub open spec fn region_twice(rows: Seq<(Seq<char>, u64)>) -> bool {
    exists|i: int, j: int|
        0 <= i < j < rows.len() && text::same_letters((#[trigger] rows[i]).0, (#[trigger] rows[j]).0)
}

/// Whether one of some choices has nothing to choose from.
pub open spec fn empty_choice(choices: Seq<ChoiceView>) -> bool {
    exists|i: int| 0 <= i < choices.len() && (#[trigger] choices[i]).options.len() == 0
}

/// What makes terms unusable whoever reads them: a price of nothing, no
/// delivery region or one given twice, or a choice of nothing.
pub open spec fn unusable(checkout: Option<CheckoutView>, choices: Seq<ChoiceView>) -> Option<
    Seq<char>,
> {
    if checkout matches Some(c) && c.unit_sats == 0 {
        Some("an instant-checkout price must be more than zero"@)
    } else if checkout matches Some(c) && (c.delivery matches DeliveryView::ByRegion(rows)
        && rows.len() == 0) {
        Some("delivery by region needs at least one region"@)
    } else if checkout matches Some(c) && (c.delivery matches DeliveryView::ByRegion(rows)
        && region_twice(rows)) {
        Some("a delivery region is given twice"@)
    } else if empty_choice(choices) {
        Some("a choice needs at least one option"@)
    } else {
        None
    }
}

fn gives_a_region_twice(rows: &Vec<RegionPrice>) -> (r: bool)
    ensures
        r == region_twice(listing::region_views(rows@)),
{
    let ghost views = listing::region_views(rows@);
    let mut j: usize = 0;
    while j < rows.len()
        invariant
            j <= rows.len(),
            views == listing::region_views(rows@),
            forall|a: int, b: int|
                0 <= a < b < j ==> !text::same_letters(
                    (#[trigger] views[a]).0,
                    (#[trigger] views[b]).0,
                ),
        decreases rows.len() - j,
    {
        let mut i: usize = 0;
        while i < j
            invariant
                i <= j,
                j < rows.len(),
                views == listing::region_views(rows@),
                forall|a: int| 0 <= a < i ==> !text::same_letters(
                    (#[trigger] views[a]).0,
                    views[j as int].0,
                ),
            decreases j - i,
        {
            assert(views[i as int].0 == rows@[i as int].region@);
            assert(views[j as int].0 == rows@[j as int].region@);
            if text::same_but_case(&rows[i].region, &rows[j].region) {
                return true;
            }
            i = i + 1;
        }
        j = j + 1;
    }
    false
}

fn has_an_empty_choice(choices: &Vec<ChoiceGroup>) -> (r: bool)
    ensures
        r == empty_choice(listing::choice_views(choices@)),
{
    let ghost views = listing::choice_views(choices@);
    let mut i: usize = 0;
    while i < choices.len()
        invariant
            i <= choices.len(),
            views == listing::choice_views(choices@),
            forall|j: int| 0 <= j < i ==> (#[trigger] views[j]).options.len() != 0,
        decreases choices.len() - i,
    {
        assert(views[i as int].options.len() == choices@[i as int].options@.len());
        if choices[i].options.len() == 0 {
            return true;
        }
        i = i + 1;
    }
    false
}

/// What makes terms unusable whoever reads them, if anything does.
pub fn terms_problem(checkout: &Option<FixedCheckout>, choices: &Vec<ChoiceGroup>) -> (r: Option<
    &'static str,
>)
    ensures
        (match r {
            Some(words) => unusable(
                listing::checkout_view(*checkout),
                listing::choice_views(choices@),
            ) == Some(words@),
            None => unusable(
                listing::checkout_view(*checkout),
                listing::choice_views(choices@),
            ) is None,
        }),
{
    if let Some(checkout) = checkout {
        if checkout.unit_sats == 0 {
            return Some("an instant-checkout price must be more than zero");
        }
        if let DeliveryPrice::ByRegion(rows) = &checkout.delivery {
            if rows.len() == 0 {
                return Some("delivery by region needs at least one region");
            }
            if gives_a_region_twice(rows) {
                return Some("a delivery region is given twice");
            }
        }
    }
    if has_an_empty_choice(choices) {
        return Some("a choice needs at least one option");
    }
    None
}

/// What is wrong with the terms of a form, in the words the seller reads;
/// `problem` is what else a reader of the listing would find wrong with them.
/// Only a sale carries terms, and only a sale is checked.
pub open spec fn refusal(form: FormView, kind: ListingKind, problem: Option<Seq<char>>) -> Option<
    Seq<char>,
> {
    if kind != ListingKind::Sale {
        None
    } else {
        match typed(form, kind) {
            TypedTerms::Terms { checkout, choices } => match (problem, unusable(checkout, choices)) {
                (Some(p), _) => Some(as_sentence(p)),
                (None, Some(p)) => Some(as_sentence(p)),
                (None, None) => None,
            },
            _ => typing_problem(typed(form, kind)),
        }
    }
}

impl TermsForm {
    /// The form as it would show `listing`, for editing it.
    pub fn from_listing(listing: &Listing) -> (r: Self)
        ensures
            r@ == form_of(
                listing::checkout_view(listing.checkout),
                listing::choice_views(listing.choices@),
            ),
    {
        let mut form = TermsForm {
            instant: false,
            unit_sats: String::new(),
            by_region: false,
            regions: Vec::new(),
            choices: choice_rows(&listing.choices),
        };
        if let Some(checkout) = &listing.checkout {
            form.instant = true;
            form.unit_sats = text::decimal_text(checkout.unit_sats);
            if let DeliveryPrice::ByRegion(rows) = &checkout.delivery {
                form.by_region = true;
                form.regions = region_rows(rows);
            }
        }
        assert(form@ =~= form_of(
            listing::checkout_view(listing.checkout),
            listing::choice_views(listing.choices@),
        ));
        form
    }

    /// The terms the seller typed, before they are checked for what every
    /// reader of a listing refuses.
    pub fn typed_terms(&self, kind: &ListingKind) -> (r: Result<
        (Option<FixedCheckout>, Vec<ChoiceGroup>),
        String,
    >)
        ensures
            (match r {
                Ok((checkout, choices)) => typed(self@, *kind) == (TypedTerms::Terms {
                    checkout: listing::checkout_view(checkout),
                    choices: listing::choice_views(choices@),
                }),
                Err(problem) => typing_problem(typed(self@, *kind)) == Some(problem@),
            }),
    {
        if *kind != ListingKind::Sale {
            let choices: Vec<ChoiceGroup> = Vec::new();
            assert(listing::choice_views(choices@) =~= Seq::empty());
            return Ok((None, choices));
        }
        let choices = build_choices(&self.choices);
        if !self.instant {
            return Ok((None, choices));
        }
        let unit_sats: u64 = match parse_sats(&self.unit_sats) {
            Some(sats) => sats,
            None => {
                return Err("Give the instant checkout price as a whole number of sats.".to_string());
            },
        };
        let delivery = if self.by_region {
            match build_regions(&self.regions) {
                Some(rows) => DeliveryPrice::ByRegion(rows),
                None => {
                    return Err(
                        "Give each delivery price as a whole number of sats. Use 0 for free delivery.".to_string(),
                    );
                },
            }
        } else {
            DeliveryPrice::Included
        };
        let checkout = FixedCheckout { unit_sats, delivery };
        assert(checkout@ =~= CheckoutView {
            unit_sats: typed_sats(self@.unit_sats)->0,
            delivery: typed_delivery(self@),
        });
        Ok((Some(checkout), choices))
    }

    /// The terms a listing of `kind` built from this form carries, or what is
    /// wrong with them. Rows left blank are passed over, so that one the
    /// seller added and did not fill in blocks nothing. `problem` is what a
    /// reader of the listing would find wrong beyond [`terms_problem`], so
    /// the form refuses exactly what a buyer would not be offered. Only a sale
    /// carries terms, and only a sale is checked.
    pub fn build(&self, kind: &ListingKind, problem: &Option<String>) -> (r: Result<
        (Option<FixedCheckout>, Vec<ChoiceGroup>),
        String,
    >)
        ensures
            (match r {
                Ok((checkout, choices)) => {
                    &&& refusal(self@, *kind, my_store::text_of(*problem)) is None
                    &&& typed(self@, *kind) == (TypedTerms::Terms {
                        checkout: listing::checkout_view(checkout),
                        choices: listing::choice_views(choices@),
                    })
                },
                Err(why) => refusal(self@, *kind, my_store::text_of(*problem)) == Some(why@),
            }),
    {
        let terms = self.typed_terms(kind);
        if *kind != ListingKind::Sale {
            return terms;
        }
        match terms {
            Err(why) => Err(why),
            Ok((checkout, choices)) => match problem {
                Some(problem) => Err(sentence(problem)),
                None => match terms_problem(&checkout, &choices) {
                    Some(problem) => Err(sentence(problem)),
                    None => Ok((checkout, choices)),
                },
            },
        }
    }

    /// Make one change to the form.
    pub fn edit(&mut self, change: TermsEdit)
        requires
            edit_fits(change, old(self)@),
        ensures
            final(self)@ == edited(old(self)@, change),
    {
        let ghost before = self@;
        match change {
            TermsEdit::Instant(on) => {
                self.instant = on;
            },
            TermsEdit::UnitSats(sats) => {
                self.unit_sats = sats;
            },
            TermsEdit::Delivery(word) => {
                self.by_region = text::same_text(&word, "regions");
            },
            TermsEdit::Region(i, region) => {
                let sats = self.regions[i].1.clone();
                self.regions.set(i, (region, sats));
            },
            TermsEdit::RegionSats(i, sats) => {
                let region = self.regions[i].0.clone();
                self.regions.set(i, (region, sats));
            },
            TermsEdit::RemoveRegion(i) => {
                let _ = self.regions.remove(i);
            },
            TermsEdit::AddRegion => {
                self.regions.push((String::new(), String::new()));
            },
            TermsEdit::ChoiceName(i, name) => {
                let options = self.choices[i].1.clone();
                self.choices.set(i, (name, options));
            },
            TermsEdit::ChoiceOptions(i, options) => {
                let name = self.choices[i].0.clone();
                self.choices.set(i, (name, options));
            },
            TermsEdit::RemoveChoice(i) => {
                let _ = self.choices.remove(i);
            },
            TermsEdit::AddChoice => {
                self.choices.push((String::new(), String::new()));
            },
        }
        assert(self@ =~= edited(before, change));
    }
}

/// One change a seller makes to the terms.
#[derive(Debug, Clone, PartialEq, Eq)]
pub enum TermsEdit {
    Instant(bool),
    UnitSats(String),
    /// The delivery selector's word.
    Delivery(String),
    Region(usize, String),
    RegionSats(usize, String),
    RemoveRegion(usize),
    AddRegion,
    ChoiceName(usize, String),
    ChoiceOptions(usize, String),
    RemoveChoice(usize),
    AddChoice,
}

/// Whether the row a change names is there.
pub open spec fn edit_fits(change: TermsEdit, form: FormView) -> bool {
    match change {
        TermsEdit::Region(i, _) => i < form.regions.len(),
        TermsEdit::RegionSats(i, _) => i < form.regions.len(),
        TermsEdit::RemoveRegion(i) => i < form.regions.len(),
        TermsEdit::ChoiceName(i, _) => i < form.choices.len(),
        TermsEdit::ChoiceOptions(i, _) => i < form.choices.len(),
        TermsEdit::RemoveChoice(i) => i < form.choices.len(),
        _ => true,
    }
}

/// The form after one change.
pub open spec fn edited(form: FormView, change: TermsEdit) -> FormView {
    let blank = (Seq::<char>::empty(), Seq::<char>::empty());
    match change {
        TermsEdit::Instant(on) => FormView { instant: on, ..form },
        TermsEdit::UnitSats(sats) => FormView { unit_sats: sats@, ..form },
        TermsEdit::Delivery(word) => FormView { by_region: word@ == "regions"@, ..form },
        TermsEdit::Region(i, region) => FormView {
            regions: form.regions.update(i as int, (region@, form.regions[i as int].1)),
            ..form
        },
        TermsEdit::RegionSats(i, sats) => FormView {
            regions: form.regions.update(i as int, (form.regions[i as int].0, sats@)),
            ..form
        },
        TermsEdit::RemoveRegion(i) => FormView { regions: form.regions.remove(i as int), ..form },
        TermsEdit::AddRegion => FormView { regions: form.regions.push(blank), ..form },
        TermsEdit::ChoiceName(i, name) => FormView {
            choices: form.choices.update(i as int, (name@, form.choices[i as int].1)),
            ..form
        },
        TermsEdit::ChoiceOptions(i, options) => FormView {
            choices: form.choices.update(i as int, (form.choices[i as int].0, options@)),
            ..form
        },
        TermsEdit::RemoveChoice(i) => FormView { choices: form.choices.remove(i as int), ..form },
        TermsEdit::AddChoice => FormView { choices: form.choices.push(blank), ..form },
    }
}

/// Terms the form gives back unchanged when a listing that carries them is
/// edited: what it builds, where no choice is wholly blank.
pub open spec fn is_settled(checkout: Option<CheckoutView>, choices: Seq<ChoiceView>) -> bool {
    &&& forall|i: int| 0 <= i < choices.len() ==> settled_choice(#[trigger] choices[i])
    &&& checkout matches Some(c) ==> (c.delivery matches DeliveryView::ByRegion(rows) ==> forall|
        i: int,
    |
        0 <= i < rows.len() ==> text::trimmed((#[trigger] rows[i]).0) == rows[i].0)
}

/// A choice the form gives back unchanged.
pub open spec fn settled_choice(g: ChoiceView) -> bool {
    &&& text::trimmed(g.name) == g.name
    &&& g.name.len() > 0 || g.options.len() > 0
    &&& forall|i: int| 0 <= i < g.options.len() ==> text::is_item(#[trigger] g.options[i], ',')
}

/// The terms a form builds are given back unchanged when the listing that
/// carries them is edited: opened again on the built listing, the form builds
/// the same terms. What else a reader finds wrong, `problem`, is about the
/// terms, and so the same both times.
pub proof fn editing_gives_back_the_built_terms(
    form: FormView,
    kind: ListingKind,
    problem: Option<Seq<char>>,
    checkout: Option<CheckoutView>,
    choices: Seq<ChoiceView>,
)
    requires
        refusal(form, kind, problem) is None,
        typed(form, kind) == (TypedTerms::Terms { checkout, choices }),
    ensures
        refusal(form_of(checkout, choices), kind, problem) is None,
        typed(form_of(checkout, choices), kind) == (TypedTerms::Terms { checkout, choices }),
{
    if kind == ListingKind::Sale {
        assert(!empty_choice(choices));
        lemma_built_choices_are_settled(form.choices);
        if checkout is Some {
            let rows = filled(form.regions);
            assert forall|i: int|
                0 <= i < rows.len() implies text::trimmed(#[trigger] row_region(rows[i]).0)
                == row_region(rows[i]).0 by {
                text::trimming_twice_changes_nothing(rows[i].0);
            }
            if checkout->0.delivery is ByRegion {
                let built = checkout->0.delivery->ByRegion_0;
                assert forall|i: int| 0 <= i < built.len() implies text::trimmed(
                    (#[trigger] built[i]).0,
                ) == built[i].0 by {
                    assert(built[i] == row_region(rows[i]));
                }
            }
        }
        assert(is_settled(checkout, choices));
        lemma_settled_terms_come_back(checkout, choices);
    }
}

proof fn lemma_built_choices_are_settled(rows: Seq<RowView>)
    ensures
        forall|i: int|
            #![trigger typed_choices(rows)[i]]
            0 <= i < typed_choices(rows).len() && (typed_choices(rows)[i].name.len() > 0
                || typed_choices(rows)[i].options.len() > 0) ==> settled_choice(
                typed_choices(rows)[i],
            ),
{
    assert forall|i: int|
        #![trigger typed_choices(rows)[i]]
        0 <= i < typed_choices(rows).len() && (typed_choices(rows)[i].name.len() > 0
            || typed_choices(rows)[i].options.len() > 0) implies settled_choice(
        typed_choices(rows)[i],
    ) by {
        let row = rows.filter(|r: RowView| is_filled(r))[i];
        assert(typed_choices(rows)[i] == row_choice(row));
        text::trimming_twice_changes_nothing(row.0);
        text::items_are_trimmed(row.1, ',');
    }
}

proof fn lemma_settled_terms_come_back(checkout: Option<CheckoutView>, choices: Seq<ChoiceView>)
    requires
        is_settled(checkout, choices),
    ensures
        typed(form_of(checkout, choices), ListingKind::Sale) == (TypedTerms::Terms {
            checkout,
            choices,
        }),
{
    let form = form_of(checkout, choices);
    let keep = |r: RowView| is_filled(r);
    assert forall|i: int| 0 <= i < form.choices.len() implies keep(#[trigger] form.choices[i])
        && row_choice(form.choices[i]) == choices[i] by {
        let g = choices[i];
        assert(settled_choice(g));
        text::items_come_back_from_the_joined_text(g.options);
        assert(row_choice(form.choices[i]) =~= g);
        if g.name.len() == 0 {
            // A blank text has no items, and this one has some.
            let joined = text::joined(g.options, ", "@);
            if text::trimmed(joined).len() == 0 {
                text::lemma_blank_items(joined, ',');
            }
        }
    }
    seqs::lemma_filter_all(form.choices, keep);
    assert(typed_choices(form.choices) =~= choices);
    if checkout is Some {
        let c = checkout->0;
        text::a_number_reads_back_from_its_digits(c.unit_sats as nat);
        assert(typed_sats(form.unit_sats) == Some(c.unit_sats));
        if c.delivery is ByRegion {
            let rows = c.delivery->ByRegion_0;
            assert forall|i: int| 0 <= i < form.regions.len() implies keep(
                #[trigger] form.regions[i],
            ) && row_region(form.regions[i]) == rows[i] && typed_sats(form.regions[i].1) is Some by {
                text::a_number_reads_back_from_its_digits(rows[i].1 as nat);
                assert(text::trimmed(rows[i].0) == rows[i].0);
            }
            seqs::lemma_filter_all(form.regions, keep);
            assert(filled(form.regions) == form.regions);
            assert(filled(form.regions).map_values(|r: RowView| row_region(r)) =~= rows);
        }
        assert(typed_delivery(form) =~= c.delivery);
    }
}

/// What a listing form holds.
#[derive(Debug, Clone, PartialEq, Eq)]
pub struct ListingDraft {
    pub title: String,
    pub description: String,
    pub kind: ListingKind,
    pub price_amount: String,
    pub price_currency: String,
    /// How many there are, as typed.
    pub quantity: String,
    pub terms: TermsForm,
}

/// What submitting a listing form comes to.
#[derive(Debug, Clone, PartialEq, Eq)]
pub enum ListingSubmit {
    /// Nothing: the form cannot be submitted as it stands.
    Nothing,
    /// Only the count changed, if that: the listing the form was opened on,
    /// with this count. Its id stays the same.
    Original(Option<u32>),
    /// A new listing, whose id is still to be derived from its terms, with
    /// this count.
    New(Listing, Option<u32>),
}

/// The price a form holds, as a listing built from it would carry it.
pub open spec fn drafted_price(d: ListingDraft) -> Option<PriceView> {
    normalised(
        Some(PriceView { amount: d.price_amount@, currency: d.price_currency@ }),
        d.kind,
    )
}

/// Whether a form can be submitted: it has a title, a count that reads, and
/// terms that nothing is wrong with.
pub open spec fn is_submittable(d: ListingDraft, problem: Option<String>) -> bool {
    &&& text::trimmed(d.title@).len() > 0
    &&& typed_count(d.quantity@) is Ok
    &&& refusal(d.terms@, d.kind, my_store::text_of(problem)) is None
}

/// Whether a form holds the terms of the listing it was opened on.
pub open spec fn is_unchanged(d: ListingDraft, original: Option<Listing>) -> bool {
    original matches Some(o) && terms_match(
        o,
        d.title@,
        d.description@,
        d.kind,
        drafted_price(d),
        typed(d.terms@, d.kind)->checkout,
        typed(d.terms@, d.kind)->choices,
    )
}

impl ListingDraft {
    /// The form as it opens: on a listing to edit, or blank.
    pub fn open(initial: &Option<Listing>, initial_quantity: Option<u32>) -> (r: Self)
        ensures
            r.quantity@ == (match initial_quantity {
                Some(n) => text::decimal(n as nat),
                None => Seq::empty(),
            }),
            (match *initial {
                Some(l) => {
                    &&& r.title@ == l.title@ && r.description@ == l.description@ && r.kind == l.kind
                    &&& r.terms@ == form_of(
                        listing::checkout_view(l.checkout),
                        listing::choice_views(l.choices@),
                    )
                },
                None => {
                    &&& r.title@ == Seq::<char>::empty() && r.description@ == Seq::<char>::empty()
                    &&& r.kind == ListingKind::Sale && r.terms@ == blank_form()
                },
            }),
            (match *initial {
                Some(l) => match l.price {
                    Some(p) => r.price_amount@ == p.amount@ && r.price_currency@ == p.currency@,
                    None => r.price_amount@ == Seq::<char>::empty() && r.price_currency@ == "BTC"@,
                },
                None => r.price_amount@ == Seq::<char>::empty() && r.price_currency@ == "BTC"@,
            }),
    {
        let quantity = match initial_quantity {
            Some(n) => text::decimal_text(n as u64),
            None => String::new(),
        };
        match initial {
            Some(l) => {
                let (price_amount, price_currency) = match &l.price {
                    Some(p) => (p.amount.clone(), p.currency.clone()),
                    None => (String::new(), "BTC".to_string()),
                };
                ListingDraft {
                    title: l.title.clone(),
                    description: l.description.clone(),
                    kind: l.kind,
                    price_amount,
                    price_currency,
                    quantity,
                    terms: TermsForm::from_listing(l),
                }
            },
            None => ListingDraft {
                title: String::new(),
                description: String::new(),
                kind: ListingKind::Sale,
                price_amount: String::new(),
                price_currency: "BTC".to_string(),
                quantity,
                terms: TermsForm::default(),
            },
        }
    }

    /// Whether the button that submits the form is on.
    pub fn can_submit(&self, problem: &Option<String>) -> (r: bool)
        ensures
            r == is_submittable(*self, *problem),
    {
        !text::trim(&self.title).is_empty() && parse_quantity(&self.quantity).is_ok()
            && self.terms.build(&self.kind, problem).is_ok()
    }

    /// Submit the form. What it holds is checked again here, not only where
    /// the button is drawn, since two clicks can land before it is drawn
    /// again, and the first clears the title.
    ///
    /// A new listing clears the form but for the kind and the currency; one
    /// whose terms are those the form was opened on leaves it as it is. The
    /// id of a new listing is all zeros until it is derived from the terms.
    pub fn submit(&mut self, original: &Option<Listing>, problem: &Option<String>, now: Moment) -> (r:
        ListingSubmit)
        ensures
            (if !is_submittable(*old(self), *problem) {
                r is Nothing && *final(self) == *old(self)
            } else if is_unchanged(*old(self), *original) {
                r == ListingSubmit::Original(typed_count(old(self).quantity@)->Ok_0) && *final(self)
                    == *old(self)
            } else {
                &&& r matches ListingSubmit::New(l, count)
                &&& count == typed_count(old(self).quantity@)->Ok_0
                &&& l.title@ == text::trimmed(old(self).title@)
                &&& l.description@ == text::trimmed(old(self).description@)
                &&& l.kind == old(self).kind && l.created_at == now
                &&& (forall|i: int| 0 <= i < 32 ==> #[trigger] l.id@[i] == 0)
                &&& listing::price_view(l.price) == drafted_price(*old(self))
                &&& listing::checkout_view(l.checkout) == typed(
                    old(self).terms@,
                    old(self).kind,
                )->checkout
                &&& listing::choice_views(l.choices@) == typed(
                    old(self).terms@,
                    old(self).kind,
                )->choices
                &&& final(self).title@.len() == 0 && final(self).description@.len() == 0
                &&& final(self).price_amount@.len() == 0 && final(self).quantity@.len() == 0
                &&& final(self).terms@ == blank_form() && final(self).kind == old(self).kind
                &&& final(self).price_currency == old(self).price_currency
            }),
    {
        if text::trim(&self.title).is_empty() {
            return ListingSubmit::Nothing;
        }
        let count = match parse_quantity(&self.quantity) {
            Ok(count) => count,
            Err(_) => {
                return ListingSubmit::Nothing;
            },
        };
        let (checkout, choices) = match self.terms.build(&self.kind, problem) {
            Ok(terms) => terms,
            Err(_) => {
                return ListingSubmit::Nothing;
            },
        };
        let price = normal_price(
            &Some(
                PriceInfo {
                    amount: self.price_amount.clone(),
                    currency: self.price_currency.clone(),
                },
            ),
            self.kind,
        );
        if let Some(o) = original {
            if same_terms(
                o,
                &self.title,
                &self.description,
                &self.kind,
                &price,
                &checkout,
                &choices,
            ) {
                return ListingSubmit::Original(count);
            }
        }
        let listing = Listing {
            id: [0u8; 32],
            title: text::trim(&self.title).to_string(),
            description: text::trim(&self.description).to_string(),
            kind: self.kind,
            price,
            created_at: now,
            checkout,
            choices,
        };
        self.title = String::new();
        self.description = String::new();
        self.price_amount = String::new();
        self.quantity = String::new();
        self.terms = TermsForm::default();
        ListingSubmit::New(listing, count)
    }
}

/// What the seller is told where a submitted listing could not be published.
pub fn listing_not_published(editing: bool, why: &str) -> (r: String)
    ensures
        r@ == (if editing {
            "Could not save the listing: "@
        } else {
            "Cannot add the listing: "@
        }) + why@,
{
    let mut words = if editing {
        "Could not save the listing: ".to_string()
    } else {
        "Cannot add the listing: ".to_string()
    };
    words.append(why);
    words
}

/// The words on the form: its heading, and its submit button.
pub fn form_words(editing: bool) -> (r: (&'static str, &'static str))
    ensures
        (r.0@, r.1@) == (if editing {
            ("Edit listing"@, "Save changes"@)
        } else {
            ("New listing"@, "Publish listing"@)
        }),
{
    if editing {
        ("Edit listing", "Save changes")
    } else {
        ("New listing", "Publish listing")
    }
}

/// Opening a form on a listing it could have built and submitting it at once
/// gives that listing back, with the count it was opened with: an edit that
/// changes no term never makes a new listing.
pub proof fn an_edit_that_changes_nothing_keeps_the_listing(l: Listing, d: ListingDraft)
    requires
        d.title@ == l.title@,
        d.description@ == l.description@,
        d.kind == l.kind,
        d.terms@ == form_of(
            listing::checkout_view(l.checkout),
            listing::choice_views(l.choices@),
        ),
        (match l.price {
            Some(p) => d.price_amount@ == p.amount@ && d.price_currency@ == p.currency@,
            None => d.price_amount@ == Seq::<char>::empty() && d.price_currency@ == "BTC"@,
        }),
        is_settled(
            listing::checkout_view(l.checkout),
            listing::choice_views(l.choices@),
        ),
        l.kind != ListingKind::Sale ==> l.checkout is None && l.choices@.len() == 0,
    ensures
        is_unchanged(d, Some(l)),
{
    let checkout = listing::checkout_view(l.checkout);
    let choices = listing::choice_views(l.choices@);
    if l.kind == ListingKind::Sale {
        lemma_settled_terms_come_back(checkout, choices);
    } else {
        assert(choices =~= Seq::empty());
    }
    assert(text::trimmed(Seq::<char>::empty()) == Seq::<char>::empty());
    if l.price is Some && l.kind == ListingKind::Sale {
        let p = l.price->0;
        text::trimming_twice_changes_nothing(p.amount@);
        text::trimming_twice_changes_nothing(p.currency@);
    }
}

/// A sale with an amount that is not blank is priced at exactly that amount
/// and that currency, each trimmed; a sale with a blank amount, and what is
/// given away or asked for, has no price.
pub proof fn a_sale_is_priced_in_the_currency_given(p: PriceView, kind: ListingKind)
    ensures
        kind is Sale && (exists|i: int|
            0 <= i < p.amount.len() && !text::is_white_space(#[trigger] p.amount[i]))
            ==> (normalised(Some(p), kind) matches Some(q) && q.amount == text::trimmed(p.amount)
            && q.currency == text::trimmed(p.currency)),
        kind is Sale && (forall|i: int|
            0 <= i < p.amount.len() ==> text::is_white_space(#[trigger] p.amount[i]))
            ==> normalised(Some(p), kind) is None,
        kind is Gift || kind is Request ==> normalised(Some(p), kind) is None,
        normalised(None, kind) is None,
{
    text::a_blank_text_is_all_white_space(p.amount);
}

/// A drafted sale carries the amount and the currency that were typed, each
/// trimmed, wherever the amount is not blank.
pub proof fn a_drafted_sale_carries_the_typed_price(d: ListingDraft)
    requires
        d.kind is Sale,
    ensures
        (exists|i: int|
            0 <= i < d.price_amount@.len() && !text::is_white_space(#[trigger] d.price_amount@[i]))
            ==> (drafted_price(d) matches Some(q) && q.amount == text::trimmed(d.price_amount@)
            && q.currency == text::trimmed(d.price_currency@)),
        (forall|i: int|
            0 <= i < d.price_amount@.len() ==> text::is_white_space(#[trigger] d.price_amount@[i]))
            ==> drafted_price(d) is None,
{
    text::a_blank_text_is_all_white_space(d.price_amount@);
}

/// Two listings are the same on their terms only where their trimmed titles
/// and descriptions, their kinds, their checkout terms and their choices are
/// the same, and, of two priced sales, their trimmed amounts and currencies;
/// a sale priced and one without a price differ. A difference in any one of
/// these alone is a difference.
pub proof fn a_change_in_any_term_is_a_change(
    original: Listing,
    title: Seq<char>,
    description: Seq<char>,
    kind: ListingKind,
    price: Option<PriceView>,
    checkout: Option<CheckoutView>,
    choices: Seq<ChoiceView>,
)
    ensures
        ({
            let same = terms_match(
                original,
                title,
                description,
                kind,
                price,
                checkout,
                choices,
            );
            let was = original.price;
            let priced = was matches Some(p) && text::trimmed(p.amount@).len() > 0;
            let prices = price matches Some(p) && text::trimmed(p.amount).len() > 0;
            &&& text::trimmed(original.title@) != text::trimmed(title) ==> !same
            &&& text::trimmed(original.description@) != text::trimmed(description) ==> !same
            &&& original.kind != kind ==> !same
            &&& listing::checkout_view(original.checkout) != checkout ==> !same
            &&& listing::choice_views(original.choices@) != choices ==> !same
            &&& kind is Sale && priced && prices && text::trimmed(was->0.amount@) != text::trimmed(
                price->0.amount,
            ) ==> !same
            &&& kind is Sale && priced && prices && text::trimmed(was->0.currency@)
                != text::trimmed(price->0.currency) ==> !same
            &&& kind is Sale && priced != prices ==> !same
            &&& {
                &&& text::trimmed(original.title@) == text::trimmed(title)
                &&& text::trimmed(original.description@) == text::trimmed(description)
                &&& original.kind == kind
                &&& listing::checkout_view(original.checkout) == checkout
                &&& listing::choice_views(original.choices@) == choices
                &&& !(kind is Sale) || (!priced && !prices) || (priced && prices && text::trimmed(
                    was->0.amount@,
                ) == text::trimmed(price->0.amount) && text::trimmed(was->0.currency@)
                    == text::trimmed(price->0.currency))
            } ==> same
        }),
{
}

/// An edit that changes the currency of a priced sale, or its amount, and
/// nothing else is no longer the listing it was opened on, so it makes a new
/// one.
pub proof fn an_edit_of_the_currency_alone_is_a_change(d: ListingDraft, original: Listing, p: PriceInfo)
    requires
        d.kind is Sale,
        original.price == Some(p),
        text::trimmed(p.amount@).len() > 0,
        text::trimmed(d.price_amount@).len() > 0,
        text::trimmed(d.price_currency@) != text::trimmed(p.currency@) || text::trimmed(
            d.price_amount@,
        ) != text::trimmed(p.amount@),
    ensures
        !is_unchanged(d, Some(original)),
{
    text::trimming_twice_changes_nothing(d.price_amount@);
    text::trimming_twice_changes_nothing(d.price_currency@);
}

/// A draft opened on no listing is never unchanged, and one opened on a
/// listing is unchanged only where its title, description and kind are that
/// listing's and it builds that listing's checkout terms and choices.
pub proof fn an_unchanged_draft_has_the_listings_terms(d: ListingDraft, original: Listing)
    ensures
        !is_unchanged(d, None),
        is_unchanged(d, Some(original)) ==> {
            &&& text::trimmed(d.title@) == text::trimmed(original.title@)
            &&& text::trimmed(d.description@) == text::trimmed(original.description@)
            &&& d.kind == original.kind
            &&& typed(d.terms@, d.kind)->checkout == listing::checkout_view(original.checkout)
            &&& typed(d.terms@, d.kind)->choices == listing::choice_views(original.choices@)
        },
{
}

/// A count that is blank is none, one that is a whole number that fits is
/// that number, and anything else is refused; zero is a count.
pub proof fn a_count_is_blank_or_a_whole_number(typed: Seq<char>, n: u32)
    ensures
        typed_count(typed) == Ok::<Option<u32>, ()>(None) <==> forall|i: int|
            0 <= i < typed.len() ==> text::is_white_space(#[trigger] typed[i]),
        typed_count(typed) == Ok::<Option<u32>, ()>(Some(n)) <==> text::parsed_number(
            text::trimmed(typed),
        ) == Some(n as nat),
        typed_count(typed) is Err <==> (exists|i: int|
            0 <= i < typed.len() && !text::is_white_space(#[trigger] typed[i])) && (
        text::parsed_number(text::trimmed(typed)) matches Some(m) ==> m > u32::MAX),
{
    text::a_blank_text_is_all_white_space(typed);
    text::only_digits_read_as_a_number(text::trimmed(typed));
}

/// An amount of sats is a whole number that fits, and it is read as that
/// number.
pub proof fn an_amount_of_sats_is_a_whole_number(typed: Seq<char>)
    ensures
        typed_sats(typed) matches Some(n) ==> text::parsed_number(text::trimmed(typed)) == Some(
            n as nat,
        ),
        text::parsed_number(text::trimmed(typed)) matches Some(n) ==> (n <= u64::MAX ==> typed_sats(
            typed,
        ) == Some(n as u64)),
        typed_sats(typed) is None ==> (text::parsed_number(text::trimmed(typed)) matches Some(n)
            ==> n > u64::MAX),
{
}

/// A word that names no other kind stands for a sale.
pub proof fn an_unknown_kind_is_a_sale(word: Seq<char>)
    ensures
        kind_of(word) is Gift <==> word == "gift"@,
        kind_of(word) is Request <==> word == "request"@,
        kind_of(word) is Sale <==> word != "gift"@ && word != "request"@,
{
    reveal_strlit("gift");
    reveal_strlit("request");
    assert("request"@[0] != "gift"@[0]);
}

/// A row counts as filled in where either of its texts has a character that
/// is no white space.
pub proof fn a_row_is_filled_by_either_of_its_texts(row: RowView)
    ensures
        is_filled(row) <==> (exists|i: int|
            0 <= i < row.0.len() && !text::is_white_space(#[trigger] row.0[i])) || (exists|i: int|
            0 <= i < row.1.len() && !text::is_white_space(#[trigger] row.1[i])),
{
    text::a_blank_text_is_all_white_space(row.0);
    text::a_blank_text_is_all_white_space(row.1);
}

/// A filled row more is a choice more, with the row's trimmed name and the
/// items between the commas of its options; a row that was not filled in adds
/// none.
pub proof fn each_filled_row_is_a_choice(rows: Seq<RowView>, row: RowView)
    ensures
        typed_choices(Seq::empty()) == Seq::<ChoiceView>::empty(),
        is_filled(row) ==> typed_choices(rows.push(row)) == typed_choices(rows).push(
            ChoiceView { name: text::trimmed(row.0), options: text::items(row.1, ',') },
        ),
        !is_filled(row) ==> typed_choices(rows.push(row)) == typed_choices(rows),
{
    reveal(Seq::filter);
    assert(rows.push(row).drop_last() =~= rows);
    assert(typed_choices(Seq::empty()) =~= Seq::<ChoiceView>::empty());
    if is_filled(row) {
        assert(typed_choices(rows.push(row)) =~= typed_choices(rows).push(row_choice(row)));
    }
}

/// The rows that count are those filled in, in their order.
pub proof fn each_filled_row_counts(rows: Seq<RowView>, row: RowView)
    ensures
        filled(Seq::empty()) == Seq::<RowView>::empty(),
        is_filled(row) ==> filled(rows.push(row)) == filled(rows).push(row),
        !is_filled(row) ==> filled(rows.push(row)) == filled(rows),
{
    reveal(Seq::filter);
    assert(rows.push(row).drop_last() =~= rows);
}

/// What is not for sale has no terms. A sale has the choices its rows make,
/// and checkout terms only where it is bought at once: the price of one as
/// typed, and delivery included, or for each row filled in its trimmed region
/// and its price as typed, in order. It is refused where the price of one, or
/// a price for a region, is no whole number.
pub proof fn a_form_types_the_terms_it_shows(form: FormView, kind: ListingKind)
    ensures
        !(kind is Sale) ==> typed(form, kind) == (TypedTerms::Terms {
            checkout: None,
            choices: Seq::empty(),
        }),
        kind is Sale && !form.instant ==> typed(form, kind) == (TypedTerms::Terms {
            checkout: None,
            choices: typed_choices(form.choices),
        }),
        kind is Sale && form.instant ==> (typed(form, kind) is NoUnitPrice <==> typed_sats(
            form.unit_sats,
        ) is None),
        kind is Sale && form.instant ==> (typed(form, kind) is NoDeliveryPrice <==> typed_sats(
            form.unit_sats,
        ) is Some && form.by_region && exists|i: int|
            0 <= i < filled(form.regions).len() && typed_sats(
                (#[trigger] filled(form.regions)[i]).1,
            ) is None),
        kind is Sale && form.instant ==> (typed(form, kind) matches TypedTerms::Terms {
            checkout,
            choices,
        } ==> {
            &&& choices == typed_choices(form.choices)
            &&& checkout matches Some(c)
            &&& typed_sats(form.unit_sats) == Some(c.unit_sats)
            &&& !form.by_region ==> c.delivery is Included
            &&& form.by_region ==> (c.delivery matches DeliveryView::ByRegion(rows) && rows.len()
                == filled(form.regions).len() && forall|i: int|
                0 <= i < rows.len() ==> (#[trigger] rows[i]).0 == text::trimmed(
                    filled(form.regions)[i].0,
                ) && typed_sats(filled(form.regions)[i].1) == Some(rows[i].1))
        }),
{
}

/// Terms can be used exactly where the price of one is more than zero,
/// delivery by region names at least one region and none twice, whatever the
/// case of its letters, and every choice has an option.
pub proof fn usable_terms_have_a_price_regions_and_options(
    checkout: Option<CheckoutView>,
    choices: Seq<ChoiceView>,
)
    ensures
        unusable(checkout, choices) is None <==> {
            &&& checkout matches Some(c) ==> {
                &&& c.unit_sats > 0
                &&& c.delivery matches DeliveryView::ByRegion(rows) ==> {
                    &&& rows.len() > 0
                    &&& forall|i: int, j: int|
                        0 <= i < j < rows.len() ==> !text::same_letters(
                            (#[trigger] rows[i]).0,
                            (#[trigger] rows[j]).0,
                        )
                }
            }
            &&& forall|i: int|
                0 <= i < choices.len() ==> (#[trigger] choices[i]).options.len() > 0
        },
{
}

/// What is not for sale is never refused. A sale is refused where its form
/// cannot be read, where its reader found a problem, or where its terms
/// cannot be used; and nowhere else.
pub proof fn a_form_is_refused_for_what_is_wrong_with_it(
    form: FormView,
    kind: ListingKind,
    problem: Option<Seq<char>>,
)
    ensures
        !(kind is Sale) ==> refusal(form, kind, problem) is None,
        kind is Sale ==> (refusal(form, kind, problem) is None <==> {
            &&& problem is None
            &&& typed(form, kind) matches TypedTerms::Terms { checkout, choices }
            &&& unusable(checkout, choices) is None
        }),
        kind is Sale && typed(form, kind) is Terms && problem is Some ==> refusal(
            form,
            kind,
            problem,
        ) == Some(as_sentence(problem->0)),
        kind is Sale && (typed(form, kind) matches TypedTerms::Terms { checkout, choices }
            && problem is None && unusable(checkout, choices) is Some) ==> refusal(
            form,
            kind,
            problem,
        ) == Some(
            as_sentence(
                unusable(
                    typed(form, kind)->checkout,
                    typed(form, kind)->choices,
                )->0,
            ),
        ),
{
}

/// A sentence starts with the capital of the first letter of what is said,
/// goes on as it does, and ends with one full stop.
pub proof fn a_sentence_starts_with_a_capital_and_stops(problem: Seq<char>)
    requires
        problem.len() > 1,
    ensures
        as_sentence(problem).len() > 0,
        as_sentence(problem).last() == '.',
        as_sentence(problem) == text::uppercase(problem[0]) + problem.skip(1) || as_sentence(problem)
            == text::uppercase(problem[0]) + problem.skip(1) + "."@,
        problem.last() == '.' ==> as_sentence(problem) == text::uppercase(problem[0])
            + problem.skip(1),
{
    reveal_strlit(".");
    let capital = text::uppercase(problem[0]) + problem.skip(1);
    assert(capital.last() == problem.last());
    assert((capital + "."@).last() == '.');
}

/// An edit changes the one thing it is of and leaves the rest of the form as
/// it was.
pub proof fn an_edit_changes_the_one_thing_it_is_of(form: FormView, i: usize, words: String, on: bool)
    ensures
        ({
            let t = edited(form, TermsEdit::Instant(on));
            t.instant == on && t == (FormView { instant: on, ..form })
        }),
        edited(form, TermsEdit::UnitSats(words)) == (FormView { unit_sats: words@, ..form }),
        edited(form, TermsEdit::Delivery(words)) == (FormView {
            by_region: words@ == "regions"@,
            ..form
        }),
        i < form.regions.len() ==> {
            let t = edited(form, TermsEdit::Region(i, words));
            &&& t == (FormView { regions: t.regions, ..form })
            &&& t.regions.len() == form.regions.len()
            &&& t.regions[i as int].0 == words@ && t.regions[i as int].1 == form.regions[i as int].1
            &&& forall|j: int|
                0 <= j < form.regions.len() && j != i ==> #[trigger] t.regions[j] == form.regions[j]
        },
        i < form.regions.len() ==> {
            let t = edited(form, TermsEdit::RegionSats(i, words));
            &&& t == (FormView { regions: t.regions, ..form })
            &&& t.regions.len() == form.regions.len()
            &&& t.regions[i as int].1 == words@ && t.regions[i as int].0 == form.regions[i as int].0
            &&& forall|j: int|
                0 <= j < form.regions.len() && j != i ==> #[trigger] t.regions[j] == form.regions[j]
        },
        i < form.regions.len() ==> {
            let t = edited(form, TermsEdit::RemoveRegion(i));
            &&& t == (FormView { regions: t.regions, ..form })
            &&& t.regions == form.regions.take(i as int) + form.regions.skip(i + 1)
        },
        i < form.choices.len() ==> {
            let t = edited(form, TermsEdit::ChoiceName(i, words));
            &&& t == (FormView { choices: t.choices, ..form })
            &&& t.choices.len() == form.choices.len()
            &&& t.choices[i as int].0 == words@ && t.choices[i as int].1 == form.choices[i as int].1
            &&& forall|j: int|
                0 <= j < form.choices.len() && j != i ==> #[trigger] t.choices[j] == form.choices[j]
        },
        i < form.choices.len() ==> {
            let t = edited(form, TermsEdit::ChoiceOptions(i, words));
            &&& t == (FormView { choices: t.choices, ..form })
            &&& t.choices.len() == form.choices.len()
            &&& t.choices[i as int].1 == words@ && t.choices[i as int].0 == form.choices[i as int].0
            &&& forall|j: int|
                0 <= j < form.choices.len() && j != i ==> #[trigger] t.choices[j] == form.choices[j]
        },
        i < form.choices.len() ==> {
            let t = edited(form, TermsEdit::RemoveChoice(i));
            &&& t == (FormView { choices: t.choices, ..form })
            &&& t.choices == form.choices.take(i as int) + form.choices.skip(i + 1)
        },
        ({
            let t = edited(form, TermsEdit::AddRegion);
            &&& t == (FormView { regions: t.regions, ..form })
            &&& t.regions.len() == form.regions.len() + 1 && t.regions.drop_last() == form.regions
            &&& t.regions.last().0.len() == 0 && t.regions.last().1.len() == 0
        }),
        ({
            let t = edited(form, TermsEdit::AddChoice);
            &&& t == (FormView { choices: t.choices, ..form })
            &&& t.choices.len() == form.choices.len() + 1 && t.choices.drop_last() == form.choices
            &&& t.choices.last().0.len() == 0 && t.choices.last().1.len() == 0
        }),
{
    let r = edited(form, TermsEdit::AddRegion);
    assert(r.regions.drop_last() =~= form.regions);
    let c = edited(form, TermsEdit::AddChoice);
    assert(c.choices.drop_last() =~= form.choices);
    if i < form.regions.len() {
        assert(edited(form, TermsEdit::RemoveRegion(i)).regions =~= form.regions.take(i as int)
            + form.regions.skip(i + 1));
    }
    if i < form.choices.len() {
        assert(edited(form, TermsEdit::RemoveChoice(i)).choices =~= form.choices.take(i as int)
            + form.choices.skip(i + 1));
    }
}

/// A draft can be submitted exactly where its title is not blank, its count
/// is blank or a whole number, and its terms are not refused.
pub proof fn a_draft_needs_a_title_a_count_and_terms(d: ListingDraft, problem: Option<String>)
    ensures
        is_submittable(d, problem) <==> {
            &&& exists|i: int|
                0 <= i < d.title@.len() && !text::is_white_space(#[trigger] d.title@[i])
            &&& typed_count(d.quantity@) is Ok
            &&& refusal(
                d.terms@,
                d.kind,
                (match problem {
                    Some(p) => Some(p@),
                    None => None,
                }),
            ) is None
        },
{
    text::a_blank_text_is_all_white_space(d.title@);
}

/// A form that was never filled in is for no instant checkout, and has no
/// price, no regions and no choices.
pub proof fn a_blank_form_holds_nothing(kind: ListingKind)
    ensures
        !blank_form().instant,
        !blank_form().by_region,
        blank_form().unit_sats.len() == 0,
        blank_form().regions.len() == 0,
        blank_form().choices.len() == 0,
        refusal(blank_form(), kind, None) is None,
        typed(blank_form(), kind) == (TypedTerms::Terms { checkout: None, choices: Seq::empty() }),
{
    reveal(Seq::filter);
    assert(typed_choices(Seq::empty()) =~= Seq::<ChoiceView>::empty());
}

/// A form is told by all it holds, its rows by both their texts.
pub proof fn a_form_is_told_whole(form: TermsForm)
    ensures
        form@.instant == form.instant,
        form@.unit_sats == form.unit_sats@,
        form@.by_region == form.by_region,
        form@.regions.len() == form.regions@.len(),
        forall|i: int|
            0 <= i < form.regions@.len() ==> (#[trigger] form@.regions[i]).0 == form.regions@[i].0@
                && form@.regions[i].1 == form.regions@[i].1@,
        form@.choices.len() == form.choices@.len(),
        forall|i: int|
            0 <= i < form.choices@.len() ==> (#[trigger] form@.choices[i]).0 == form.choices@[i].0@
                && form@.choices[i].1 == form.choices@[i].1@,
{
}

/// An edit of a row fits where there is such a row, and every other edit fits
/// any form.
pub proof fn an_edit_fits_where_its_row_is(form: FormView, i: usize, words: String, on: bool)
    ensures
        edit_fits(TermsEdit::Instant(on), form),
        edit_fits(TermsEdit::UnitSats(words), form),
        edit_fits(TermsEdit::Delivery(words), form),
        edit_fits(TermsEdit::AddRegion, form),
        edit_fits(TermsEdit::AddChoice, form),
        edit_fits(TermsEdit::Region(i, words), form) <==> i < form.regions.len(),
        edit_fits(TermsEdit::RegionSats(i, words), form) <==> i < form.regions.len(),
        edit_fits(TermsEdit::RemoveRegion(i), form) <==> i < form.regions.len(),
        edit_fits(TermsEdit::ChoiceName(i, words), form) <==> i < form.choices.len(),
        edit_fits(TermsEdit::ChoiceOptions(i, words), form) <==> i < form.choices.len(),
        edit_fits(TermsEdit::RemoveChoice(i), form) <==> i < form.choices.len(),
{
}

/// A form that cannot be read is refused for the price that is missing.
pub proof fn a_form_that_cannot_be_read_says_which_price_is_missing(
    form: FormView,
    problem: Option<Seq<char>>,
)
    ensures
        typed(form, ListingKind::Sale) is NoUnitPrice ==> refusal(form, ListingKind::Sale, problem)
            == Some("Give the instant checkout price as a whole number of sats."@),
        typed(form, ListingKind::Sale) is NoDeliveryPrice ==> refusal(
            form,
            ListingKind::Sale,
            problem,
        ) == Some(
            "Give each delivery price as a whole number of sats. Use 0 for free delivery."@,
        ),
        typing_problem(typed(form, ListingKind::Sale)) is None <==> typed(
            form,
            ListingKind::Sale,
        ) is Terms,
{
}

} // verus!
