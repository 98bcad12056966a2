//! My store, Listings: what the seller has listed, and the controls to change
//! it.
//!
//! Nothing on this page claims a change has happened until the store's own
//! state says so: while a change waits for the store key the row says
//! "Saving".

use crate::clock;
use crate::order::{self, Ranked};
use crate::seqs;
use crate::text;
use vstd::prelude::*;

verus! {

/// Whether, and how many of, a listing can be bought.
#[derive(Debug, Clone, Copy, PartialEq, Eq, Structural)]
pub enum ListingAvailability {
    /// On sale; `None` is uncounted.
    Available { quantity: Option<u32> },
    SoldOut,
    /// Taken down.
    Withdrawn,
}

impl ListingAvailability {
    /// Whether a buyer can buy it.
    pub open spec fn buyable(self) -> bool {
        self matches ListingAvailability::Available { quantity } && quantity != Some(0u32)
    }

    /// Whether a buyer can buy it.
    pub fn is_buyable(&self) -> (r: bool)
        ensures
            r == self.buyable(),
    {
        match *self {
            ListingAvailability::Available { quantity: Some(0) } => false,
            ListingAvailability::Available { .. } => true,
            _ => false,
        }
    }
}

/// What the seller sees about one listing's availability.
pub open spec fn availability_words(a: ListingAvailability) -> Seq<char> {
    match a {
        ListingAvailability::Available { quantity: None } => "On sale"@,
        ListingAvailability::Available { quantity: Some(n) } => if n == 0 {
            "Sold out"@
        } else {
            "On sale \u{b7} "@ + text::decimal(n as nat) + " left"@
        },
        ListingAvailability::SoldOut => "Sold out"@,
        ListingAvailability::Withdrawn => "Taken down"@,
    }
}

/// What the seller sees about one listing's availability.
pub fn availability_label(availability: &ListingAvailability) -> (r: String)
    ensures
        r@ == availability_words(*availability),
{
    match *availability {
        ListingAvailability::Available { quantity: None } => "On sale".to_string(),
        ListingAvailability::Available { quantity: Some(n) } => if n == 0 {
            "Sold out".to_string()
        } else {
            text::join3("On sale \u{b7} ", &text::decimal_text(n as u64), " left")
        },
        ListingAvailability::SoldOut => "Sold out".to_string(),
        ListingAvailability::Withdrawn => "Taken down".to_string(),
    }
}

/// The availability after one more is sold, for a counted listing with any
/// left.
pub open spec fn one_fewer(a: ListingAvailability) -> Option<ListingAvailability> {
    match a {
        ListingAvailability::Available { quantity: Some(n) } => if n > 1 {
            Some(ListingAvailability::Available { quantity: Some((n - 1) as u32) })
        } else if n == 1 {
            Some(ListingAvailability::SoldOut)
        } else {
            None
        },
        _ => None,
    }
}

/// The availability after one more is sold, for a counted listing: one fewer,
/// and sold out at none.
pub fn after_one_sold(availability: &ListingAvailability) -> (r: Option<ListingAvailability>)
    ensures
        r == one_fewer(*availability),
{
    match *availability {
        ListingAvailability::Available { quantity: Some(n) } => if n > 1 {
            Some(ListingAvailability::Available { quantity: Some(n - 1) })
        } else if n == 1 {
            Some(ListingAvailability::SoldOut)
        } else {
            None
        },
        _ => None,
    }
}

/// Selling one at a time, a listing of `n` is sold out after `n` sales and
/// not before, and then no more can be sold.
pub proof fn selling_counts_down_to_sold_out(a: ListingAvailability, n: u32)
    requires
        a == (ListingAvailability::Available { quantity: Some(n) }),
        n >= 1,
    ensures
        after_sales(a, n as nat) == Some(ListingAvailability::SoldOut),
        forall|k: nat| k < n ==> #[trigger] after_sales(a, k) == Some(
            ListingAvailability::Available { quantity: Some((n - k) as u32) },
        ),
        after_sales(a, n as nat + 1) is None,
{
    assert forall|k: nat| k < n implies #[trigger] after_sales(a, k) == Some(
        ListingAvailability::Available { quantity: Some((n - k) as u32) },
    ) by {
        lemma_after_sales(a, n, k);
    }
    assert(after_sales(a, (n - 1) as nat) == Some(
        ListingAvailability::Available { quantity: Some(1u32) },
    ));
    reveal_with_fuel(after_sales, 2);
}

/// The availability after `k` sales, if that many can be sold.
pub open spec fn after_sales(a: ListingAvailability, k: nat) -> Option<ListingAvailability>
    decreases k,
{
    if k == 0 {
        Some(a)
    } else {
        match after_sales(a, (k - 1) as nat) {
            Some(b) => one_fewer(b),
            None => None,
        }
    }
}

proof fn lemma_after_sales(a: ListingAvailability, n: u32, k: nat)
    requires
        a == (ListingAvailability::Available { quantity: Some(n) }),
        k < n,
    ensures
        after_sales(a, k) == Some(
            ListingAvailability::Available { quantity: Some((n - k) as u32) },
        ),
    decreases k,
{
    if k > 0 {
        lemma_after_sales(a, n, (k - 1) as nat);
    }
}

/// What a click that changes a listing's availability comes to.
#[derive(Debug, Clone, PartialEq, Eq)]
pub enum StatusChange {
    /// A change of this listing is still being saved: two clicks can land
    /// before the row is drawn again, and the second is dropped.
    Drop,
    /// Queue the change.
    Queue(ListingAvailability),
}

/// What a click that changes a listing's availability comes to.
pub fn change_status(pending: bool, availability: ListingAvailability) -> (r: StatusChange)
    ensures
        r == (if pending {
            StatusChange::Drop
        } else {
            StatusChange::Queue(availability)
        }),
{
    if pending {
        StatusChange::Drop
    } else {
        StatusChange::Queue(availability)
    }
}

/// What the seller is told when a change could not be queued.
pub fn change_refused(why: &str) -> (r: String)
    ensures
        r@ == "Could not update the listing: "@ + why@,
{
    let mut s = "Could not update the listing: ".to_string();
    s.append(why);
    s
}

/// One of a seller's listings, as its row reads it.
#[derive(Debug, Clone, Copy, PartialEq, Eq, Structural)]
pub struct SellerRow {
    /// Where the listing stands in the store's list.
    pub place: usize,
    /// When it was listed: seconds, and nanoseconds within the second.
    pub listed_secs: i64,
    pub listed_nanos: u32,
    pub availability: ListingAvailability,
    /// A change of it is still being saved.
    pub pending: bool,
}

impl Ranked for SellerRow {
    /// Newest first.
    open spec fn ranks_before(&self, other: &Self) -> bool {
        self.listed_secs > other.listed_secs || (self.listed_secs == other.listed_secs
            && self.listed_nanos > other.listed_nanos)
    }

    fn before(&self, other: &Self) -> (yes: bool) {
        self.listed_secs > other.listed_secs || (self.listed_secs == other.listed_secs
            && self.listed_nanos > other.listed_nanos)
    }

    proof fn ranking(a: &Self, b: &Self, c: &Self) {
    }
}

/// What the Listings page shows: the rows on it, and apart from them the ones
/// taken down, each newest first.
#[derive(Debug, Clone, PartialEq, Eq)]
pub struct SellerListingsPage {
    pub shown: Vec<SellerRow>,
    pub taken_down: Vec<SellerRow>,
    /// How many are shown, in words.
    pub count: String,
    pub loading: bool,
    pub empty: bool,
}

/// How many listings are shown, in words.
pub open spec fn count_words(n: nat) -> Seq<char> {
    if n == 0 {
        "Nothing on sale"@
    } else if n == 1 {
        "1 listing"@
    } else {
        text::decimal(n) + " listings"@
    }
}

/// Whether a row is of a listing that is taken down.
pub open spec fn is_taken_down(row: SellerRow) -> bool {
    row.availability == ListingAvailability::Withdrawn
}

/// Whether `page` shows `sorted`.
pub open spec fn page_shows(
    page: SellerListingsPage,
    sorted: Seq<SellerRow>,
    resolved: bool,
    adding: bool,
) -> bool {
    &&& page.shown@ == sorted.filter(|row: SellerRow| !is_taken_down(row))
    &&& page.taken_down@ == sorted.filter(|row: SellerRow| is_taken_down(row))
    &&& page.count@ == count_words(page.shown@.len())
    &&& page.loading == !resolved
    &&& page.empty == (resolved && sorted.len() == 0 && !adding)
}

/// What the Listings page shows, of a store whose details are resolved or
/// not, while a listing is being added or not.
pub fn seller_listings(rows: Vec<SellerRow>, resolved: bool, adding: bool) -> (page:
    SellerListingsPage)
    ensures
        exists|sorted: Seq<SellerRow>|
            #[trigger] order::is_sorted_from(sorted, rows@) && page_shows(
                page,
                sorted,
                resolved,
                adding,
            ),
{
    let sorted = order::sort(rows);
    let ghost on = |row: SellerRow| !is_taken_down(row);
    let ghost off = |row: SellerRow| is_taken_down(row);
    let mut shown: Vec<SellerRow> = Vec::new();
    let mut taken_down: Vec<SellerRow> = Vec::new();
    let mut i: usize = 0;
    proof {
        seqs::lemma_filter_none(sorted@, on);
        seqs::lemma_filter_none(sorted@, off);
    }
    while i < sorted.len()
        invariant
            i <= sorted.len(),
            on == (|row: SellerRow| !is_taken_down(row)),
            off == (|row: SellerRow| is_taken_down(row)),
            shown@ == sorted@.take(i as int).filter(on),
            taken_down@ == sorted@.take(i as int).filter(off),
            shown@.len() + taken_down@.len() == i,
        decreases sorted.len() - i,
    {
        proof {
            seqs::lemma_filter_step(sorted@, on, i as int);
            seqs::lemma_filter_step(sorted@, off, i as int);
        }
        if sorted[i].availability == ListingAvailability::Withdrawn {
            taken_down.push(sorted[i]);
        } else {
            shown.push(sorted[i]);
        }
        i = i + 1;
    }
    assert(sorted@.take(i as int) =~= sorted@);
    let count: String = if shown.len() == 0 {
        "Nothing on sale".to_string()
    } else if shown.len() == 1 {
        "1 listing".to_string()
    } else {
        let mut s = text::count_text(shown.len());
        s.append(" listings");
        s
    };
    let empty = resolved && shown.len() == 0 && taken_down.len() == 0 && !adding;
    SellerListingsPage { shown, taken_down, count, loading: !resolved, empty }
}

/// The controls of one row.
#[derive(Debug, Clone, Copy, PartialEq, Eq, Structural)]
pub struct RowControls {
    pub saving: bool,
    pub put_back: bool,
    pub edit: bool,
    pub one_sold: bool,
    pub mark_sold_out: bool,
    pub back_on_sale: bool,
    pub take_down: bool,
}

/// The controls of one row: none while a change is being saved; only putting
/// it back for a listing that is taken down.
pub fn row_controls(availability: &ListingAvailability, pending: bool) -> (r: RowControls)
    ensures
        r == ({
            let down = availability == ListingAvailability::Withdrawn;
            RowControls {
                saving: pending,
                put_back: !pending && down,
                edit: !pending && !down,
                one_sold: !pending && !down && one_fewer(*availability) is Some,
                mark_sold_out: !pending && !down && availability.buyable(),
                back_on_sale: !pending && !down && !availability.buyable(),
                take_down: !pending && !down,
            }
        }),
{
    let down = *availability == ListingAvailability::Withdrawn;
    let open = !pending && !down;
    let buyable = availability.is_buyable();
    RowControls {
        saving: pending,
        put_back: !pending && down,
        edit: open,
        one_sold: open && after_one_sold(availability).is_some(),
        mark_sold_out: open && buyable,
        back_on_sale: open && !buyable,
        take_down: open,
    }
}

/// A control of a row that asks for another availability.
#[derive(Debug, Clone, Copy, PartialEq, Eq, Structural)]
pub enum RowButton {
    PutBack,
    OneSold,
    MarkSoldOut,
    BackOnSale,
    TakeDown,
}

/// The availability a control asks for, of a listing that stands at
/// `availability` when it is pressed.
pub open spec fn asked_for(
    button: RowButton,
    availability: ListingAvailability,
) -> Option<ListingAvailability> {
    match button {
        RowButton::PutBack | RowButton::BackOnSale => Some(
            ListingAvailability::Available { quantity: None },
        ),
        RowButton::OneSold => one_fewer(availability),
        RowButton::MarkSoldOut => Some(ListingAvailability::SoldOut),
        RowButton::TakeDown => Some(ListingAvailability::Withdrawn),
    }
}

/// The availability a control asks for. A listing that goes back on sale has
/// no count; one more sold is counted down from what is left when it is
/// pressed, and asks for nothing where nothing is counted.
pub fn press_row(button: RowButton, availability: &ListingAvailability) -> (r: Option<
    ListingAvailability,
>)
    ensures
        r == asked_for(button, *availability),
{
    match button {
        RowButton::PutBack | RowButton::BackOnSale => Some(
            ListingAvailability::Available { quantity: None },
        ),
        RowButton::OneSold => after_one_sold(availability),
        RowButton::MarkSoldOut => Some(ListingAvailability::SoldOut),
        RowButton::TakeDown => Some(ListingAvailability::Withdrawn),
    }
}

/// The count an edit form starts with, and whether it starts as sold out.
pub fn edit_start(availability: &ListingAvailability) -> (r: (Option<u32>, bool))
    ensures
        r.0 == (match *availability {
            ListingAvailability::Available { quantity } => quantity,
            _ => None,
        }),
        r.1 == !availability.buyable(),
{
    let quantity: Option<u32> = match *availability {
        ListingAvailability::Available { quantity } => quantity,
        _ => None,
    };
    (quantity, !availability.is_buyable())
}

/// When a listing was listed, in words.
pub fn listed_on(row: &SellerRow) -> (r: Option<String>)
    ensures
        (match r {
            Some(words) => clock::day_words(row.listed_secs) is Some && words@ == "Listed "@
                + clock::day_words(row.listed_secs)->0,
            None => clock::day_words(row.listed_secs) is None,
        }),
{
    match clock::day(row.listed_secs) {
        Some(day) => {
            let mut words = "Listed ".to_string();
            words.append(&day);
            Some(words)
        },
        None => None,
    }
}

/// A listing can be bought exactly where it is on sale and not counted down
/// to none.
pub proof fn a_listing_on_sale_can_be_bought(n: u32)
    ensures
        (ListingAvailability::Available { quantity: None }).buyable(),
        (ListingAvailability::Available { quantity: Some(n) }).buyable() <==> n > 0,
        !ListingAvailability::SoldOut.buyable(),
        !ListingAvailability::Withdrawn.buyable(),
{
}

/// A sale takes one from a counted listing and sells out the last; a listing
/// that is not counted, has none left, is sold out or is taken down cannot be
/// sold one fewer.
pub proof fn a_sale_takes_one_from_the_count(n: u32)
    ensures
        n > 1 ==> one_fewer(ListingAvailability::Available { quantity: Some(n) }) == Some(
            ListingAvailability::Available { quantity: Some((n - 1) as u32) },
        ),
        one_fewer(ListingAvailability::Available { quantity: Some(1) }) == Some(
            ListingAvailability::SoldOut,
        ),
        one_fewer(ListingAvailability::Available { quantity: Some(0) }) is None,
        one_fewer(ListingAvailability::Available { quantity: None }) is None,
        one_fewer(ListingAvailability::SoldOut) is None,
        one_fewer(ListingAvailability::Withdrawn) is None,
{
}

/// A listing is called on sale exactly where it can be bought, with what is
/// left where that is counted, and else sold out, or taken down where it was.
pub proof fn a_listing_is_called_what_it_is(n: u32)
    ensures
        availability_words(ListingAvailability::Available { quantity: None }) == "On sale"@,
        n > 0 ==> availability_words(ListingAvailability::Available { quantity: Some(n) })
            == "On sale \u{b7} "@ + text::decimal(n as nat) + " left"@,
        availability_words(ListingAvailability::Available { quantity: Some(0) }) == "Sold out"@,
        availability_words(ListingAvailability::SoldOut) == "Sold out"@,
        availability_words(ListingAvailability::Withdrawn) == "Taken down"@,
{
}

/// The newest listing comes first, by seconds and then by nanoseconds.
pub proof fn the_newest_listing_comes_first(
    sorted: Seq<SellerRow>,
    all: Seq<SellerRow>,
    i: int,
    j: int,
)
    requires
        order::is_sorted_from(sorted, all),
        0 <= i < j < sorted.len(),
    ensures
        sorted[i].listed_secs >= sorted[j].listed_secs,
        sorted[i].listed_secs == sorted[j].listed_secs ==> sorted[i].listed_nanos
            >= sorted[j].listed_nanos,
{
    order::sorted_values_stand_by_rank(sorted, all, i, j);
}

/// A page shows each listing that was not taken down, and below them each
/// that was; it counts the first, is loading until the store resolved, and is
/// empty where the store resolved with no listing at all and none is being
/// added.
pub proof fn a_page_shows_every_listing_once(
    page: SellerListingsPage,
    sorted: Seq<SellerRow>,
    resolved: bool,
    adding: bool,
    row: SellerRow,
)
    requires
        page_shows(page, sorted, resolved, adding),
    ensures
        page.shown@.contains(row) <==> sorted.contains(row) && !(row.availability is Withdrawn),
        page.taken_down@.contains(row) <==> sorted.contains(row) && row.availability is Withdrawn,
        page.shown@.len() + page.taken_down@.len() == sorted.len(),
        page.shown@.len() == 0 ==> page.count@ == "Nothing on sale"@,
        page.shown@.len() == 1 ==> page.count@ == "1 listing"@,
        page.shown@.len() > 1 ==> page.count@ == text::decimal(page.shown@.len()) + " listings"@,
        page.loading <==> !resolved,
        page.empty <==> resolved && !adding && sorted.len() == 0,
{
    let up = |r: SellerRow| !is_taken_down(r);
    let down = |r: SellerRow| is_taken_down(r);
    if sorted.contains(row) {
        let i = sorted.index_of(row);
        if up(row) {
            sorted.lemma_filter_contains(up, i);
        } else {
            sorted.lemma_filter_contains(down, i);
        }
    }
    if page.shown@.contains(row) {
        let k = page.shown@.index_of(row);
        sorted.lemma_filter_pred(up, k);
        sorted.lemma_filter_contains_rev(up, row);
    }
    if page.taken_down@.contains(row) {
        let k = page.taken_down@.index_of(row);
        sorted.lemma_filter_pred(down, k);
        sorted.lemma_filter_contains_rev(down, row);
    }
    lemma_page_parts(sorted);
}

proof fn lemma_page_parts(sorted: Seq<SellerRow>)
    ensures
        sorted.filter(|r: SellerRow| !is_taken_down(r)).len() + sorted.filter(
            |r: SellerRow| is_taken_down(r),
        ).len() == sorted.len(),
    decreases sorted.len(),
{
    reveal(Seq::filter);
    if sorted.len() > 0 {
        lemma_page_parts(sorted.drop_last());
    }
}

/// Each button asks for what it says: back on sale without a count, one
/// fewer, sold out, or taken down.
pub proof fn each_button_asks_for_what_it_says(availability: ListingAvailability)
    ensures
        asked_for(RowButton::PutBack, availability) == Some(
            ListingAvailability::Available { quantity: None },
        ),
        asked_for(RowButton::BackOnSale, availability) == Some(
            ListingAvailability::Available { quantity: None },
        ),
        asked_for(RowButton::MarkSoldOut, availability) == Some(ListingAvailability::SoldOut),
        asked_for(RowButton::TakeDown, availability) == Some(ListingAvailability::Withdrawn),
        asked_for(RowButton::OneSold, availability) == one_fewer(availability),
{
}

} // verus!
