//! My purchases: every store this device has bought from or written to.

use crate::buy_view::ShownPurchase;
use crate::bytes;
use crate::my_store;
use crate::order::{self, Ranked};
use crate::seqs;
use crate::text;
use vstd::prelude::*;

verus! {

/// A store this device has loaded, as far as My purchases reads it.
#[derive(Debug, Clone, PartialEq, Eq)]
pub struct KnownStore {
    pub store_contract_id: Vec<u8>,
    /// The store is one of this device's own.
    pub own: bool,
    /// The name its seller publishes, once its details have arrived.
    pub published_name: Option<String>,
    /// Orders the seller has published for this buyer.
    pub orders: usize,
    /// Conversations this device keeps with the store.
    pub conversations: usize,
    /// The kept purchases the store's card shows.
    pub shown: Vec<ShownPurchase>,
}

/// One store on My purchases.
#[derive(Debug, Clone, PartialEq, Eq)]
pub struct PurchaseRow {
    pub store_contract_id: Vec<u8>,
    pub name: String,
    /// The store publishes a name that is not blank. Without one, `name` only
    /// stands in for it.
    pub named: bool,
    pub orders: usize,
    pub conversations: usize,
    /// Where the store stands in the list of those known.
    pub place: usize,
}

/// The name a store goes by: the one it publishes, trimmed, unless that is
/// blank.
pub open spec fn known_name(published: Option<Seq<char>>) -> Seq<char> {
    match published {
        Some(name) => if text::trimmed(name).len() > 0 {
            text::trimmed(name)
        } else {
            "A store"@
        },
        None => "A store"@,
    }
}

/// Whether a store publishes a name that is not blank.
pub open spec fn is_named(published: Option<Seq<char>>) -> bool {
    published matches Some(name) && text::trimmed(name).len() > 0
}

/// Whether a store is on My purchases: this device has an order or a
/// conversation with it, and does not own it.
pub open spec fn is_listed(s: KnownStore) -> bool {
    !s.own && (s.orders > 0 || s.conversations > 0)
}

/// Whether a row is that of a store.
pub open spec fn shows(row: PurchaseRow, s: KnownStore, place: int) -> bool {
    &&& row.store_contract_id@ == s.store_contract_id@
    &&& row.name@ == known_name(my_store::text_of(s.published_name))
    &&& row.named == is_named(my_store::text_of(s.published_name))
    &&& row.orders == s.orders
    &&& row.conversations == s.conversations
    &&& row.place == place
}

impl Ranked for PurchaseRow {
    /// Named stores first, then by name, then by contract id.
    open spec fn ranks_before(&self, other: &Self) -> bool {
        if self.named != other.named {
            self.named
        } else {
            my_store::name_before(
                text::lowercase(self.name@),
                self.store_contract_id@,
                text::lowercase(other.name@),
                other.store_contract_id@,
            )
        }
    }

    fn before(&self, other: &Self) -> (yes: bool) {
        if self.named != other.named {
            return self.named;
        }
        let a = text::to_lowercase(&self.name);
        let b = text::to_lowercase(&other.name);
        if text::same_text(&a, &b) {
            bytes::comes_before(&self.store_contract_id, &other.store_contract_id)
        } else {
            text::comes_before(&a, &b)
        }
    }

    proof fn ranking(a: &Self, b: &Self, c: &Self) {
        my_store::lemma_name_ranking(
            text::lowercase(a.name@),
            a.store_contract_id@,
            text::lowercase(b.name@),
            b.store_contract_id@,
            text::lowercase(c.name@),
            c.store_contract_id@,
        );
    }
}

/// The places of the stores that are on My purchases, in order.
pub open spec fn listed_places(stores: Seq<KnownStore>) -> Seq<int>
    decreases stores.len(),
{
    if stores.len() == 0 {
        Seq::empty()
    } else {
        let before = listed_places(stores.drop_last());
        if is_listed(stores.last()) {
            before.push(stores.len() - 1)
        } else {
            before
        }
    }
}

/// Whether some rows are those of the listed stores, in the stores' order.
pub open spec fn rows_of(rows: Seq<PurchaseRow>, stores: Seq<KnownStore>) -> bool {
    &&& rows.len() == listed_places(stores).len()
    &&& forall|i: int|
        0 <= i < rows.len() ==> shows(
            #[trigger] rows[i],
            stores[listed_places(stores)[i]],
            listed_places(stores)[i],
        )
}

/// What a store is called, and whether that is a name it publishes.
fn name_of(published: &Option<String>) -> (r: (String, bool))
    ensures
        r.0@ == known_name(my_store::text_of(*published)),
        r.1 == is_named(my_store::text_of(*published)),
{
    if let Some(name) = published {
        let name = text::trim(name);
        if !name.is_empty() {
            return (name.to_string(), true);
        }
    }
    ("A store".to_string(), false)
}

/// The stores to list: any this device has a conversation or an order with,
/// never one of its own, named stores first by name.
pub fn purchase_rows(stores: &Vec<KnownStore>) -> (r: Vec<PurchaseRow>)
    ensures
        exists|rows: Seq<PurchaseRow>|
            #[trigger] rows_of(rows, stores@) && order::is_sorted_from(r@, rows),
{
    let mut rows: Vec<PurchaseRow> = Vec::new();
    let mut i: usize = 0;
    assert(stores@.take(0) =~= Seq::empty());
    while i < stores.len()
        invariant
            i <= stores.len(),
            rows_of(rows@, stores@.take(i as int)),
        decreases stores.len() - i,
    {
        let store = &stores[i];
        let ghost done = stores@.take(i as int);
        let ghost next = stores@.take(i + 1);
        let ghost before = rows@;
        proof {
            assert(next.drop_last() =~= done);
            assert(next.last() == *store);
            lemma_listed_places(done);
        }
        if !store.own && (store.orders > 0 || store.conversations > 0) {
            let (name, named) = name_of(&store.published_name);
            rows.push(
                PurchaseRow {
                    store_contract_id: bytes::copy_bytes(&store.store_contract_id),
                    name,
                    named,
                    orders: store.orders,
                    conversations: store.conversations,
                    place: i,
                },
            );
        }
        proof {
            assert forall|k: int| 0 <= k < rows@.len() implies shows(
                #[trigger] rows@[k],
                next[listed_places(next)[k]],
                listed_places(next)[k],
            ) by {
                if k < before.len() {
                    assert(rows@[k] == before[k]);
                    assert(listed_places(next)[k] == listed_places(done)[k]);
                    assert(0 <= listed_places(done)[k] < done.len());
                    assert(shows(before[k], done[listed_places(done)[k]], listed_places(done)[k]));
                }
            }
        }
        i = i + 1;
    }
    assert(stores@.take(i as int) =~= stores@);
    let ghost all = rows@;
    let sorted = order::sort(rows);
    assert(rows_of(all, stores@) && order::is_sorted_from(sorted@, all));
    sorted
}

proof fn lemma_listed_places(stores: Seq<KnownStore>)
    ensures
        forall|i: int|
            0 <= i < listed_places(stores).len() ==> 0 <= #[trigger] listed_places(stores)[i]
                < stores.len() && is_listed(stores[listed_places(stores)[i]]),
        forall|p: int|
            0 <= p < stores.len() && is_listed(#[trigger] stores[p]) ==> listed_places(
                stores,
            ).contains(p),
    decreases stores.len(),
{
    if stores.len() > 0 {
        let rest = stores.drop_last();
        lemma_listed_places(rest);
        let before = listed_places(rest);
        let all = listed_places(stores);
        assert forall|i: int| 0 <= i < all.len() implies 0 <= #[trigger] all[i] < stores.len()
            && is_listed(stores[all[i]]) by {
            if i < before.len() {
                assert(all[i] == before[i]);
                assert(rest[before[i]] == stores[before[i]]);
            }
        }
        assert forall|p: int| 0 <= p < stores.len() && is_listed(
            #[trigger] stores[p],
        ) implies all.contains(p) by {
            if p < rest.len() {
                assert(rest[p] == stores[p]);
                let k = before.index_of(p);
                assert(before.contains(p));
                assert(all[k] == p);
            } else {
                assert(all[all.len() - 1] == p);
            }
        }
    }
}

/// A store is on My purchases just when this device has dealt with it and
/// does not own it.
pub proof fn only_stores_dealt_with_are_listed(
    stores: Seq<KnownStore>,
    rows: Seq<PurchaseRow>,
    listed: Seq<PurchaseRow>,
    place: int,
)
    requires
        rows_of(rows, stores),
        order::is_sorted_from(listed, rows),
        0 <= place < stores.len(),
    ensures
        is_listed(stores[place]) <==> exists|i: int|
            0 <= i < listed.len() && (#[trigger] listed[i]).place == place,
{
    lemma_listed_places(stores);
    order::sorting_keeps_the_values(listed, rows);
    let places = listed_places(stores);
    if is_listed(stores[place]) {
        assert(places.contains(place));
        let k = places.index_of(place);
        assert(shows(rows[k], stores[places[k]], places[k]));
        assert(listed.contains(rows[k]));
        let i = listed.index_of(rows[k]);
        assert(listed[i].place == place);
    }
    if exists|i: int| 0 <= i < listed.len() && (#[trigger] listed[i]).place == place {
        let i = choose|i: int| 0 <= i < listed.len() && (#[trigger] listed[i]).place == place;
        assert(rows.contains(listed[i]));
        let k = rows.index_of(listed[i]);
        assert(shows(rows[k], stores[places[k]], places[k]));
        assert(places[k] == place);
    }
}

/// On My purchases every store that publishes a name stands before every
/// store that does not; among those that do, and among those that do not, one
/// whose lower-case name comes first stands first.
pub proof fn named_stores_come_first_by_name(
    stores: Seq<KnownStore>,
    rows: Seq<PurchaseRow>,
    listed: Seq<PurchaseRow>,
    i: int,
    j: int,
)
    requires
        rows_of(rows, stores),
        order::is_sorted_from(listed, rows),
        0 <= i < listed.len(),
        0 <= j < listed.len(),
    ensures
        ({
            let first = my_store::text_of(stores[listed[i].place as int].published_name);
            let second = my_store::text_of(stores[listed[j].place as int].published_name);
            let one = text::lowercase(known_name(first));
            let other = text::lowercase(known_name(second));
            &&& is_named(first) && !is_named(second) ==> i < j
            &&& is_named(first) == is_named(second) && one != other && text::text_before(one, other)
                ==> i < j
        }),
{
    lemma_listed_places(stores);
    order::sorting_keeps_the_values(listed, rows);
    let places = listed_places(stores);
    assert(rows.contains(listed[i]) && rows.contains(listed[j]));
    let k = rows.index_of(listed[i]);
    let l = rows.index_of(listed[j]);
    assert(shows(rows[k], stores[places[k]], places[k]));
    assert(shows(rows[l], stores[places[l]], places[l]));
    PurchaseRow::ranking(&listed[i], &listed[j], &listed[i]);
    let by = choose|by: Seq<int>| #[trigger] order::sorted_by_places(listed, rows, by);
    assert(order::sorted_by_places(listed, rows, by));
    if j < i {
        assert(!listed[i].ranks_before(&listed[j]));
    }
}

/// The kept purchases that the cards of some stores show, in the rows' order.
pub open spec fn shown_at(stores: Seq<KnownStore>, rows: Seq<PurchaseRow>) -> Seq<ShownPurchase>
    decreases rows.len(),
{
    if rows.len() == 0 {
        Seq::empty()
    } else {
        shown_at(stores, rows.drop_last()) + stores[rows.last().place as int].shown@
    }
}

/// The kept purchases the store cards on the page already show.
pub fn shown_order_ids(stores: &Vec<KnownStore>, rows: &Vec<PurchaseRow>) -> (r: Vec<ShownPurchase>)
    requires
        forall|i: int| 0 <= i < rows@.len() ==> (#[trigger] rows@[i]).place < stores@.len(),
    ensures
        r@ == shown_at(stores@, rows@),
{
    let mut r: Vec<ShownPurchase> = Vec::new();
    let mut i: usize = 0;
    assert(rows@.take(0) =~= Seq::empty());
    while i < rows.len()
        invariant
            i <= rows.len(),
            forall|k: int| 0 <= k < rows@.len() ==> (#[trigger] rows@[k]).place < stores@.len(),
            r@ == shown_at(stores@, rows@.take(i as int)),
        decreases rows.len() - i,
    {
        assert(rows@.take(i + 1).drop_last() =~= rows@.take(i as int));
        assert(rows@.take(i + 1).last() == rows@[i as int]);
        let shown = &stores[rows[i].place].shown;
        let ghost before = r@;
        let mut j: usize = 0;
        assert(before + shown@.take(0) =~= before);
        while j < shown.len()
            invariant
                j <= shown.len(),
                r@ == before + shown@.take(j as int),
            decreases shown.len() - j,
        {
            r.push(shown[j]);
            assert(before + shown@.take(j + 1) =~= (before + shown@.take(j as int)).push(
                shown@[j as int],
            ));
            j = j + 1;
        }
        assert(shown@.take(j as int) =~= shown@);
        i = i + 1;
    }
    assert(rows@.take(i as int) =~= rows@);
    r
}

/// What there is with a store, in words.
pub open spec fn summary_words(orders: nat, conversations: nat) -> Seq<char> {
    (if orders == 0 {
        "No orders yet"@
    } else if orders == 1 {
        "1 order"@
    } else {
        text::decimal(orders) + " orders"@
    }) + (if conversations == 0 {
        Seq::empty()
    } else if conversations == 1 {
        " \u{b7} 1 conversation"@
    } else {
        " \u{b7} "@ + text::decimal(conversations) + " conversations"@
    })
}

/// What there is with a store, in words.
pub fn summary(orders: usize, conversations: usize) -> (r: String)
    ensures
        r@ == summary_words(orders as nat, conversations as nat),
{
    let mut r = if orders == 0 {
        "No orders yet".to_string()
    } else if orders == 1 {
        "1 order".to_string()
    } else {
        let mut words = text::count_text(orders);
        words.append(" orders");
        words
    };
    if conversations == 0 {
        assert(r@ + Seq::<char>::empty() =~= r@);
    } else if conversations == 1 {
        r.append(" \u{b7} 1 conversation");
    } else {
        r.append(
            &text::join3(" \u{b7} ", &text::count_text(conversations), " conversations"),
        );
    }
    r
}

/// What My purchases says where it lists no store.
#[derive(Debug, Clone, Copy, PartialEq, Eq, Structural)]
pub enum EmptyPurchases {
    /// Nothing: there is something to show.
    Silent,
    /// Stores are still being checked.
    Checking,
    /// There is nothing yet.
    NothingYet,
}

/// What My purchases says where it lists no store.
pub fn empty_purchases(rows: usize, loading: bool, any_kept: bool) -> (r: EmptyPurchases)
    ensures
        r == (if rows > 0 {
            EmptyPurchases::Silent
        } else if loading {
            EmptyPurchases::Checking
        } else if any_kept {
            EmptyPurchases::Silent
        } else {
            EmptyPurchases::NothingYet
        }),
{
    if rows == 0 && loading {
        EmptyPurchases::Checking
    } else if rows == 0 && !any_kept {
        EmptyPurchases::NothingYet
    } else {
        EmptyPurchases::Silent
    }
}

/// A store on My purchases is called by the trimmed name it publishes, and a
/// store without one, or with a blank one, is called a store; only the first
/// counts as named.
pub proof fn a_known_store_is_called_by_its_published_name(name: Seq<char>)
    ensures
        (exists|i: int| 0 <= i < name.len() && !text::is_white_space(#[trigger] name[i]))
            ==> known_name(Some(name)) == text::trimmed(name) && is_named(Some(name)),
        (forall|i: int| 0 <= i < name.len() ==> text::is_white_space(#[trigger] name[i]))
            ==> known_name(Some(name)) == "A store"@ && !is_named(Some(name)),
        known_name(None) == "A store"@,
        !is_named(None),
{
    text::a_blank_text_is_all_white_space(name);
}

/// A store is listed where it is another's and there is an order or a
/// conversation with it; either is enough, and one's own store never is.
pub proof fn a_store_is_listed_for_an_order_or_a_conversation(s: KnownStore)
    ensures
        s.own ==> !is_listed(s),
        !s.own && s.orders > 0 ==> is_listed(s),
        !s.own && s.conversations > 0 ==> is_listed(s),
        s.orders == 0 && s.conversations == 0 ==> !is_listed(s),
{
}

/// A row shows the store it stands for: its contract, its name and its
/// counts.
pub proof fn a_row_shows_its_own_store(rows: Seq<PurchaseRow>, stores: Seq<KnownStore>, i: int)
    requires
        rows_of(rows, stores),
        0 <= i < rows.len(),
    ensures
        rows[i].place < stores.len(),
        ({
            let s = stores[rows[i].place as int];
            &&& is_listed(s)
            &&& rows[i].store_contract_id@ == s.store_contract_id@
            &&& rows[i].orders == s.orders
            &&& rows[i].conversations == s.conversations
            &&& s.published_name is None ==> rows[i].name@ == "A store"@ && !rows[i].named
            &&& s.published_name matches Some(name) ==> rows[i].name@ == known_name(Some(name@))
                && rows[i].named == is_named(Some(name@))
        }),
{
    lemma_listed_places(stores);
    let places = listed_places(stores);
    assert(shows(rows[i], stores[places[i]], places[i]));
    assert(places.contains(places[i]));
}

/// Stores of one name come in the order of their contract ids.
pub proof fn stores_of_one_name_come_by_their_ids(
    rows: Seq<PurchaseRow>,
    listed: Seq<PurchaseRow>,
    i: int,
    j: int,
)
    requires
        order::is_sorted_from(listed, rows),
        0 <= i < j < listed.len(),
        listed[i].named == listed[j].named,
        text::lowercase(listed[i].name@) == text::lowercase(listed[j].name@),
    ensures
        !bytes::bytes_before(listed[j].store_contract_id@, listed[i].store_contract_id@),
{
    order::sorted_values_stand_by_rank(listed, rows, i, j);
}

/// The orders the rows show are those of each row's store, row after row.
pub proof fn each_row_shows_its_stores_orders(
    stores: Seq<KnownStore>,
    rows: Seq<PurchaseRow>,
    row: PurchaseRow,
)
    ensures
        shown_at(stores, Seq::empty()) == Seq::<ShownPurchase>::empty(),
        shown_at(stores, rows.push(row)) == shown_at(stores, rows) + stores[row.place as int].shown@,
{
    assert(rows.push(row).drop_last() =~= rows);
}

/// A row says how many orders there are, and how many conversations where
/// there are any.
pub proof fn a_row_says_how_many_there_are(orders: nat, conversations: nat)
    ensures
        summary_words(0, 0) == "No orders yet"@,
        summary_words(1, 0) == "1 order"@,
        orders > 1 ==> summary_words(orders, 0) == text::decimal(orders) + " orders"@,
        summary_words(orders, 1) == summary_words(orders, 0) + " \u{b7} 1 conversation"@,
        conversations > 1 ==> summary_words(orders, conversations) == summary_words(orders, 0)
            + (" \u{b7} "@ + text::decimal(conversations) + " conversations"@),
{
    assert("No orders yet"@ + Seq::<char>::empty() =~= "No orders yet"@);
    assert("1 order"@ + Seq::<char>::empty() =~= "1 order"@);
    let many = text::decimal(orders) + " orders"@;
    assert(many + Seq::<char>::empty() =~= many);
}

} // verus!
