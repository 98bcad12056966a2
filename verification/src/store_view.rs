//! A store as a buyer reads it: which one is open, what its record and its
//! certificate say, and what of it can be bought.

use crate::bytes;
use crate::clock;
use crate::listing::ListingKind;
use crate::my_store::CertificateStatus;
use crate::order;
use crate::payment::AuthorizedOrder;
use crate::text;
use vstd::prelude::*;

verus! {

/// What the store page shows.
#[derive(Debug, Clone, Copy, PartialEq, Eq, Structural)]
pub enum StorePage {
    /// The store that is open.
    Store,
    /// A link was followed, and the store's state has not come back yet.
    Loading,
    /// The link led nowhere: its error is shown.
    LinkError,
    /// No store is open.
    NoneOpen,
}

/// What the store page shows. Once a link has failed the wait is over, so
/// that "Loading" is not there for the rest of the session.
pub fn store_page(store_shown: bool, store_asked_for: bool, link_failed: bool) -> (r: StorePage)
    ensures
        r == (if store_shown {
            StorePage::Store
        } else if link_failed {
            StorePage::LinkError
        } else if store_asked_for {
            StorePage::Loading
        } else {
            StorePage::NoneOpen
        }),
{
    if store_shown {
        StorePage::Store
    } else if link_failed {
        StorePage::LinkError
    } else if store_asked_for {
        StorePage::Loading
    } else {
        StorePage::NoneOpen
    }
}

/// What follows the first `c` of a text, where there is one.
pub open spec fn after_char(s: Seq<char>, c: char) -> Option<Seq<char>> {
    let k = text::index_of_char(s, c);
    if 0 <= k < s.len() {
        Some(s.skip(k + 1))
    } else {
        None
    }
}

/// The part of a text before the first `c`, and all of it where there is
/// none.
pub open spec fn up_to_char(s: Seq<char>, c: char) -> Seq<char> {
    let k = text::index_of_char(s, c);
    if 0 <= k < s.len() {
        s.take(k)
    } else {
        s
    }
}

/// The fragment of a typed link, if it has one.
pub open spec fn fragment_of(typed: Seq<char>) -> Option<Seq<char>> {
    after_char(text::trimmed(typed), '#')
}

/// The query string of a typed link, if it has one.
pub open spec fn query_of(typed: Seq<char>) -> Option<Seq<char>> {
    match after_char(text::trimmed(typed), '?') {
        Some(rest) => Some(up_to_char(rest, '#')),
        None => None,
    }
}

/// The two parts of a typed link that can name a store.
#[derive(Debug, Clone, Copy, PartialEq, Eq)]
pub struct LinkParts<'a> {
    pub fragment: Option<&'a str>,
    pub query: Option<&'a str>,
}

fn rest_after<'a>(s: &'a str, c: char) -> (r: Option<&'a str>)
    ensures
        (match r {
            Some(rest) => after_char(s@, c) == Some(rest@),
            None => after_char(s@, c) is None,
        }),
{
    let n: usize = s.unicode_len();
    let at = text::find_char(s, 0, c);
    assert(s@.skip(0) =~= s@);
    if at < n {
        assert(s@.skip(at + 1) =~= s@.subrange(at + 1, n as int));
        Some(s.substring_char(at + 1, n))
    } else {
        None
    }
}

/// The fragment and the query string of a typed link.
pub fn link_parts<'a>(typed: &'a str) -> (r: LinkParts<'a>)
    ensures
        (match r.fragment {
            Some(part) => fragment_of(typed@) == Some(part@),
            None => fragment_of(typed@) is None,
        }),
        (match r.query {
            Some(part) => query_of(typed@) == Some(part@),
            None => query_of(typed@) is None,
        }),
{
    let typed = text::trim(typed);
    let fragment = rest_after(typed, '#');
    let query = match rest_after(typed, '?') {
        Some(rest) => {
            let n: usize = rest.unicode_len();
            let at = text::find_char(rest, 0, '#');
            assert(rest@.skip(0) =~= rest@);
            if at < n {
                assert(rest@.take(at as int) =~= rest@.subrange(0, at as int));
                Some(rest.substring_char(0, at))
            } else {
                Some(rest)
            }
        },
        None => None,
    };
    LinkParts { fragment, query }
}

/// Whether a pasted link names a store the old way, from its fragment or
/// query string: the check a followed link gets, which `is_old_format_link`
/// makes on each part the link has.
pub fn typed_is_old_format_link<F: Fn(&str) -> bool>(typed: &str, is_old_format_link: F) -> (r: bool)
    requires
        forall|part: &str| #[trigger] call_requires(is_old_format_link, (part,)),
    ensures
        r ==> (exists|part: &str|
            (fragment_of(typed@) == Some(part@) || query_of(typed@) == Some(part@))
                && #[trigger] call_ensures(is_old_format_link, (part,), true)),
        !r ==> (fragment_of(typed@) matches Some(f) ==> exists|part: &str|
            part@ == f && #[trigger] call_ensures(is_old_format_link, (part,), false)),
        !r ==> (query_of(typed@) matches Some(q) ==> exists|part: &str|
            part@ == q && #[trigger] call_ensures(is_old_format_link, (part,), false)),
{
    let parts = link_parts(typed);
    if let Some(fragment) = parts.fragment {
        if is_old_format_link(fragment) {
            assert(call_ensures(is_old_format_link, (fragment,), true));
            return true;
        }
        assert(call_ensures(is_old_format_link, (fragment,), false));
    }
    if let Some(query) = parts.query {
        if is_old_format_link(query) {
            assert(call_ensures(is_old_format_link, (query,), true));
            return true;
        }
        assert(call_ensures(is_old_format_link, (query,), false));
    }
    false
}

/// What the user is told of a typed text that is no store code.
pub fn not_a_store_code(is_old_format: bool, old_format_message: &str) -> (r: String)
    ensures
        r@ == (if is_old_format {
            old_format_message@
        } else {
            "That is not a store code. A store code is 16 letters and digits, the part of a store link after \"store=\"."@
        }),
{
    if is_old_format {
        old_format_message.to_string()
    } else {
        "That is not a store code. A store code is 16 letters and digits, the part of a store link after \"store=\".".to_string()
    }
}

/// The controls under the list of stores.
#[derive(Debug, Clone, PartialEq, Eq)]
pub struct StoreListFoot {
    /// That stores are listed once they are opened.
    pub hint: bool,
    /// The button that shows or hides the archived stores.
    pub button: Option<String>,
    /// What archiving does not do.
    pub explains_archiving: bool,
}

/// The controls under the list of stores: `hidden` archived ones are not
/// shown, and `archived_shown` says whether an archived one is.
pub fn store_list_foot(
    remembered: bool,
    rows: usize,
    hidden: usize,
    archived_shown: bool,
    show_archived: bool,
) -> (r: StoreListFoot)
    ensures
        r.hint == (remembered && rows == 0 && hidden == 0),
        (match r.button {
            Some(words) => if hidden > 0 {
                words@ == "Show "@ + text::decimal(hidden as nat) + " archived store(s)"@
            } else {
                show_archived && archived_shown && words@ == "Hide archived stores"@
            },
            None => hidden == 0 && !(show_archived && archived_shown),
        }),
        r.explains_archiving == (hidden > 0 || archived_shown || show_archived),
{
    let any_archived = hidden > 0 || archived_shown;
    let button: Option<String> = if hidden > 0 {
        Some(text::join3("Show ", &text::count_text(hidden), " archived store(s)"))
    } else if show_archived && any_archived {
        Some("Hide archived stores".to_string())
    } else {
        None
    };
    StoreListFoot {
        hint: remembered && rows == 0 && hidden == 0,
        button,
        explains_archiving: any_archived || show_archived,
    }
}

/// A store's badge: its style and its words.
pub fn complaints_badge(counted: usize) -> (r: (&'static str, String))
    ensures
        (if counted == 0 {
            r.0@ == "reputation-clean"@ && r.1@ == "Clean record"@
        } else {
            r.0@ == "reputation-negative"@ && r.1@ == text::decimal(counted as nat)
                + " complaint(s)"@
        }),
{
    if counted == 0 {
        ("reputation-clean", "Clean record".to_string())
    } else {
        let mut words = text::count_text(counted);
        words.append(" complaint(s)");
        ("reputation-negative", words)
    }
}

/// What an unverified certificate means for the person reading the page. The
/// two cases are kept apart: a store with no certificate claims nothing, and
/// one whose certificate fails claims a bond it does not have.
pub open spec fn warning_words(status: CertificateStatus) -> Seq<char> {
    match status {
        CertificateStatus::Verified => Seq::empty(),
        CertificateStatus::Absent => "This store publishes no ghostkey certificate, so nothing here shows that the seller's identity cost anything to create. They can abandon it and start again for free."@,
        CertificateStatus::Invalid(why) => "This store's ghostkey certificate does not check out ("@
            + why@
            + "). Treat the seller as anonymous: nothing here shows they have staked anything they would lose."@,
    }
}

/// What an unverified certificate means for the person reading the page.
pub fn certificate_warning(status: &CertificateStatus) -> (r: String)
    ensures
        r@ == warning_words(*status),
{
    match status {
        CertificateStatus::Verified => String::new(),
        CertificateStatus::Absent => "This store publishes no ghostkey certificate, so nothing here shows that the seller's identity cost anything to create. They can abandon it and start again for free.".to_string(),
        CertificateStatus::Invalid(why) => text::join3(
            "This store's ghostkey certificate does not check out (",
            why,
            "). Treat the seller as anonymous: nothing here shows they have staked anything they would lose.",
        ),
    }
}

/// A loaded store, as far as buying from it goes.
#[derive(Debug, Clone, PartialEq, Eq)]
pub struct LoadedStore {
    /// The key its seller publishes to be written to; none too where its
    /// details have not arrived.
    pub encryption_public_key: Option<[u8; 32]>,
    /// The identity its seller's certificate verifies.
    pub seller_verifying_key: Option<[u8; 32]>,
    pub closed: bool,
    pub certificate_status: CertificateStatus,
    /// Listings whose own certificate is not the seller's.
    pub unverified_listings: Vec<[u8; 32]>,
}

/// What a buy form needs. The three travel together, since they are useless
/// apart: where, what the buyer's address is sealed to, and whose signature a
/// published commitment must bear.
#[derive(Debug, Clone, PartialEq, Eq)]
pub struct Buyable {
    pub store_contract_id: Vec<u8>,
    pub seller_encryption_key: [u8; 32],
    pub seller_verifying_key: [u8; 32],
}

/// Whether a store can be bought from at all: it is somebody else's, it has
/// not closed, it publishes a key to write to, and its identity checks out.
pub open spec fn sells(store: LoadedStore, owned: bool) -> bool {
    !owned && !store.closed && store.encryption_public_key is Some && store.seller_verifying_key is Some
}

/// Whether this store can be bought from, and with what. A store whose own
/// listing is not verified is not looked at here: see [`listing_buyable`].
pub fn buyable(store: &LoadedStore, contract_id: &[u8], owned: bool) -> (r: Option<Buyable>)
    ensures
        (match r {
            Some(b) => sells(*store, owned) && b.store_contract_id@ == contract_id@
                && store.encryption_public_key == Some(b.seller_encryption_key)
                && store.seller_verifying_key == Some(b.seller_verifying_key),
            None => !sells(*store, owned),
        }),
{
    if owned || store.closed {
        return None;
    }
    match (&store.encryption_public_key, &store.seller_verifying_key) {
        (Some(key), Some(identity)) => Some(
            Buyable {
                store_contract_id: bytes::copy_bytes(contract_id),
                seller_encryption_key: *key,
                seller_verifying_key: *identity,
            },
        ),
        _ => None,
    }
}

/// Whether a listing is among those whose certificate is not the seller's.
pub open spec fn is_unverified(store: LoadedStore, listing_id: [u8; 32]) -> bool {
    store.unverified_listings@.contains(listing_id)
}

fn unverified(store: &LoadedStore, listing_id: &[u8; 32]) -> (r: bool)
    ensures
        r == is_unverified(*store, *listing_id),
{
    let mut i: usize = 0;
    while i < store.unverified_listings.len()
        invariant
            i <= store.unverified_listings.len(),
            forall|j: int| 0 <= j < i ==> (#[trigger] store.unverified_listings@[j]) != *listing_id,
        decreases store.unverified_listings.len() - i,
    {
        if bytes::same_key(&store.unverified_listings[i], listing_id) {
            assert(store.unverified_listings@[i as int] == *listing_id);
            return true;
        }
        i = i + 1;
    }
    false
}

/// What a listing's buy form needs, where the listing can be bought: the store
/// can be bought from, and the listing's own certificate is the seller's.
pub fn listing_buyable(
    store: &LoadedStore,
    contract_id: &[u8],
    owned: bool,
    listing_id: &[u8; 32],
) -> (r: Option<Buyable>)
    ensures
        (match r {
            Some(b) => sells(*store, owned) && !is_unverified(*store, *listing_id)
                && b.store_contract_id@ == contract_id@ && store.encryption_public_key == Some(
                b.seller_encryption_key,
            ) && store.seller_verifying_key == Some(b.seller_verifying_key),
            None => !sells(*store, owned) || is_unverified(*store, *listing_id),
        }),
{
    if unverified(store, listing_id) {
        return None;
    }
    buyable(store, contract_id, owned)
}

/// Whether a listing's card warns that its certificate is not the seller's.
/// Only where it adds something: where the store's own certificate failed,
/// the warning above covers everything under it.
pub fn certificate_mismatch(store: &LoadedStore, listing_id: &[u8; 32]) -> (r: bool)
    ensures
        r == (store.certificate_status is Verified && is_unverified(*store, *listing_id)),
{
    store.certificate_status.is_verified() && unverified(store, listing_id)
}

/// What stands where a store's invoices would.
#[derive(Debug, Clone, Copy, PartialEq, Eq)]
pub enum InvoicesPanel {
    /// Nothing: there are none.
    Nothing,
    /// The invoices.
    Invoices,
    /// Why they are not shown.
    Withheld(&'static str),
}

/// What stands where a store's invoices would: no payment address on a store
/// buyers must not pay.
pub fn invoices_panel(payable: bool, orders: usize) -> (r: InvoicesPanel)
    ensures
        (if orders == 0 {
            r is Nothing
        } else if payable {
            r is Invoices
        } else {
            r matches InvoicesPanel::Withheld(words) && words@
                == "This store's invoices are not shown: it has closed, or nothing vouches for the key that signs them, so none of them should be paid."@
        }),
{
    if orders == 0 {
        InvoicesPanel::Nothing
    } else if payable {
        InvoicesPanel::Invoices
    } else {
        InvoicesPanel::Withheld(
            "This store's invoices are not shown: it has closed, or nothing vouches for the key that signs them, so none of them should be paid.",
        )
    }
}

/// A store's invoices, newest first.
pub fn store_invoices<'a>(orders: &'a Vec<AuthorizedOrder>) -> (r: Vec<&'a AuthorizedOrder>)
    ensures
        order::is_sorted_from(order::behind(r@), orders@),
{
    let mut all: Vec<&'a AuthorizedOrder> = Vec::new();
    let mut i: usize = 0;
    while i < orders.len()
        invariant
            i <= orders.len(),
            all@.len() == i,
            forall|j: int| 0 <= j < i ==> *(#[trigger] all@[j]) == orders@[j],
        decreases orders.len() - i,
    {
        all.push(&orders[i]);
        i = i + 1;
    }
    assert(order::behind(all@) =~= orders@);
    order::sort_refs(all)
}

/// How many listings a store has, in words.
pub fn listings_words(listings: usize) -> (r: String)
    ensures
        r@ == (if listings == 0 {
            "No listings yet."@
        } else {
            text::decimal(listings as nat) + " listing(s)"@
        }),
{
    if listings == 0 {
        return "No listings yet.".to_string();
    }
    let mut words = text::count_text(listings);
    words.append(" listing(s)");
    words
}

/// When a listing was listed, in words.
pub fn listed_on(created_secs: i64) -> (r: Option<String>)
    ensures
        (match r {
            Some(words) => clock::date_words(created_secs) is Some && words@ == "Listed "@
                + clock::date_words(created_secs)->0,
            None => clock::date_words(created_secs) is None,
        }),
{
    match clock::date(created_secs) {
        Some(date) => {
            let mut words = "Listed ".to_string();
            words.append(&date);
            Some(words)
        },
        None => None,
    }
}

/// A button that opens something and closes it again: its style and words.
pub fn toggle_words(control: StoreControl, open: bool) -> (r: (&'static str, &'static str))
    ensures
        (r.0@, r.1@) == (match (control, open) {
            (StoreControl::Messages, true) => ("btn btn-sm btn-outline"@, "Hide Messages"@),
            (StoreControl::Messages, false) => ("btn btn-primary"@, "Contact Seller"@),
            (StoreControl::Buy, true) => ("btn btn-sm btn-outline"@, "Cancel"@),
            (StoreControl::Buy, false) => ("btn btn-primary btn-sm"@, "Buy this"@),
        }),
{
    match (control, open) {
        (StoreControl::Messages, true) => ("btn btn-sm btn-outline", "Hide Messages"),
        (StoreControl::Messages, false) => ("btn btn-primary", "Contact Seller"),
        (StoreControl::Buy, true) => ("btn btn-sm btn-outline", "Cancel"),
        (StoreControl::Buy, false) => ("btn btn-primary btn-sm", "Buy this"),
    }
}

/// What a store page can open and close.
#[derive(Debug, Clone, Copy, PartialEq, Eq, Structural)]
pub enum StoreControl {
    Messages,
    Buy,
}

/// The style of a listing's badge.
pub fn kind_badge_class(kind: &ListingKind) -> (r: &'static str)
    ensures
        r@ == (match *kind {
            ListingKind::Sale => "badge-sale"@,
            ListingKind::Gift => "badge-gift"@,
            ListingKind::Request => "badge-request"@,
        }),
{
    match kind {
        ListingKind::Sale => "badge-sale",
        ListingKind::Gift => "badge-gift",
        ListingKind::Request => "badge-request",
    }
}

/// The words on a listing's badge.
pub fn kind_label(kind: &ListingKind) -> (r: &'static str)
    ensures
        r@ == (match *kind {
            ListingKind::Sale => "Sale"@,
            ListingKind::Gift => "Gift"@,
            ListingKind::Request => "Request"@,
        }),
{
    match kind {
        ListingKind::Sale => "Sale",
        ListingKind::Gift => "Gift",
        ListingKind::Request => "Request",
    }
}

/// What follows a character is the text behind its first place, and what
/// comes before it the text up to there: the two and the character make the
/// text. Where the character is not in it, nothing follows and all of it
/// comes before.
pub proof fn a_text_is_parted_at_the_first_place_of_a_character(s: Seq<char>, c: char)
    ensures
        !up_to_char(s, c).contains(c),
        after_char(s, c) matches Some(rest) ==> s == up_to_char(s, c) + seq![c] + rest,
        after_char(s, c) is None ==> up_to_char(s, c) == s,
        after_char(s, c) is None <==> !s.contains(c),
{
    text::a_character_is_found_at_its_first_place(s, c);
    let k = text::index_of_char(s, c);
    let head = up_to_char(s, c);
    assert(!head.contains(c)) by {
        if head.contains(c) {
            let i = head.index_of(c);
            assert(s[i] == c);
        }
    }
    if k < s.len() {
        assert(s =~= s.take(k) + seq![c] + s.skip(k + 1));
        assert(s.contains(s[k]));
    }
}

/// The fragment of a typed link is what follows its first hash, and its query
/// what follows its first question mark, up to a hash.
pub proof fn a_link_has_its_fragment_and_its_query(
    typed: Seq<char>,
    page: Seq<char>,
    query: Seq<char>,
    fragment: Seq<char>,
)
    requires
        !page.contains('#'),
        !page.contains('?'),
        !query.contains('#'),
        text::trimmed(typed) == page + seq!['?'] + query + seq!['#'] + fragment,
    ensures
        query_of(typed) == Some(query),
        fragment_of(typed) == Some(fragment),
{
    let s = text::trimmed(typed);
    let head = page + seq!['?'] + query;
    assert(!head.contains('#')) by {
        if head.contains('#') {
            let i = head.index_of('#');
            if i < page.len() {
                assert(page.contains(page[i]));
            } else if i > page.len() {
                assert(query.contains(query[i - page.len() - 1]));
            }
        }
    }
    lemma_parted_at(s, head, fragment, '#');
    let rest = query + seq!['#'] + fragment;
    assert(s =~= page + seq!['?'] + rest);
    lemma_parted_at(s, page, rest, '?');
    lemma_parted_at(rest, query, fragment, '#');
}

/// A typed text without a hash has no fragment, and one without a question
/// mark no query.
pub proof fn a_link_without_a_mark_has_no_part(typed: Seq<char>)
    ensures
        !text::trimmed(typed).contains('#') <==> fragment_of(typed) is None,
        !text::trimmed(typed).contains('?') <==> query_of(typed) is None,
{
    a_text_is_parted_at_the_first_place_of_a_character(text::trimmed(typed), '#');
    a_text_is_parted_at_the_first_place_of_a_character(text::trimmed(typed), '?');
}

proof fn lemma_parted_at(s: Seq<char>, head: Seq<char>, rest: Seq<char>, c: char)
    requires
        s == head + seq![c] + rest,
        !head.contains(c),
    ensures
        after_char(s, c) == Some(rest),
        up_to_char(s, c) == head,
{
    text::a_character_is_found_at_its_first_place(s, c);
    let k = text::index_of_char(s, c);
    assert(s[head.len() as int] == c);
    if k < head.len() {
        assert(s[k] == head[k]);
        assert(head.contains(head[k]));
    }
    assert(s.take(k) =~= head);
    assert(s.skip(k + 1) =~= rest);
}

/// A store sells exactly where it is another's and open, and both its
/// encryption key and its seller's key are known; each alone missing, it does
/// not. A listing is unverified where it is among those that are.
pub proof fn a_store_sells_where_it_is_open_and_its_keys_are_known(
    store: LoadedStore,
    owned: bool,
    listing_id: [u8; 32],
)
    ensures
        owned ==> !sells(store, owned),
        store.closed ==> !sells(store, owned),
        store.encryption_public_key is None ==> !sells(store, owned),
        store.seller_verifying_key is None ==> !sells(store, owned),
        !owned && !store.closed && store.encryption_public_key is Some
            && store.seller_verifying_key is Some ==> sells(store, owned),
        is_unverified(store, listing_id) <==> exists|i: int|
            0 <= i < store.unverified_listings@.len() && #[trigger] store.unverified_listings@[i]
                == listing_id,
{
}

/// Only a verified certificate gives no warning, and an invalid one tells
/// why.
pub proof fn only_a_verified_certificate_gives_no_warning(why: String)
    ensures
        warning_words(CertificateStatus::Verified).len() == 0,
        warning_words(CertificateStatus::Absent).len() > 0,
        exists|head: Seq<char>, tail: Seq<char>|
            head.len() > 0 && warning_words(CertificateStatus::Invalid(why)) == #[trigger] (head
                + why@ + tail),
{
    reveal_strlit(
        "This store publishes no ghostkey certificate, so nothing here shows that the seller's identity cost anything to create. They can abandon it and start again for free.",
    );
    reveal_strlit("This store's ghostkey certificate does not check out (");
    assert(warning_words(CertificateStatus::Invalid(why))
        == "This store's ghostkey certificate does not check out ("@ + why@
        + "). Treat the seller as anonymous: nothing here shows they have staked anything they would lose."@);
}

} // verus!
