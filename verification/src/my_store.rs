//! My store: the stores a seller can manage from this device, and what each
//! page about them shows and does.

use crate::bytes;
use crate::keys;
use crate::order::{self, Ranked};
use crate::seller_listings::ListingAvailability;
use crate::seqs;
use crate::state::GhostKeyInfo;
use crate::text;
use crate::vault::{self, VaultRequest, VaultRequestView};
use vstd::prelude::*;

verus! {

/// What a buyer finds about a store's Ghost Key certificate.
#[derive(Debug, Clone, PartialEq, Eq)]
pub enum CertificateStatus {
    Verified,
    /// The store publishes none.
    Absent,
    /// It does not check out, and why.
    Invalid(String),
}

impl CertificateStatus {
    /// Whether the certificate checks out.
    pub fn is_verified(&self) -> (r: bool)
        ensures
            r == (self is Verified),
    {
        match self {
            CertificateStatus::Verified => true,
            _ => false,
        }
    }

    /// A copy.
    pub fn duplicate(&self) -> (r: Self)
        ensures
            r == *self,
    {
        match self {
            CertificateStatus::Verified => CertificateStatus::Verified,
            CertificateStatus::Absent => CertificateStatus::Absent,
            CertificateStatus::Invalid(why) => CertificateStatus::Invalid(why.clone()),
        }
    }
}

/// What is wrong with a store's published details.
#[derive(Debug, Clone, Copy, PartialEq, Eq, Structural)]
pub enum StoreDetailsGap {
    /// Nothing was ever published.
    NeverPublished,
    /// No name was.
    NoName,
    /// The key buyers write to is missing; the delegate already holds it.
    NoEncryptionKey,
}

/// A store's name and description.
#[derive(Debug, Clone, PartialEq, Eq)]
pub struct StoreDetails {
    pub store_name: String,
    pub description: String,
}

/// One of a store's orders, as far as its seller's overview reads it.
#[derive(Debug, Clone, PartialEq, Eq)]
pub struct SellerOrder {
    pub seller_fingerprint: String,
    /// Unpaid, with an anchor too old for a buyer to start paying.
    pub needs_reissue: bool,
    /// Still open: waiting for a payment.
    pub awaiting_payment: bool,
}

/// A registered store's loaded state, as far as its seller's pages read it.
#[derive(Debug, Clone, PartialEq, Eq)]
pub struct LoadedSellerStore {
    /// Its published name and description, if it has published any.
    pub details: Option<StoreDetails>,
    pub certificate: CertificateStatus,
    /// The availability of each of its listings.
    pub listings: Vec<ListingAvailability>,
    pub orders: Vec<SellerOrder>,
    /// Its record, as its badge reads.
    pub record: String,
}

/// A store this device is registered for, with what is known about it.
#[derive(Debug, Clone, PartialEq, Eq)]
pub struct RegisteredStore {
    /// The Ghost Key the store is registered under on this device.
    pub fingerprint: String,
    pub contract_id: Vec<u8>,
    /// The store's own key. A store made before stores had keys has none.
    pub store_key: Option<[u8; 32]>,
    /// The code of that key, where it is one.
    pub code: String,
    /// The link to share, built from the code.
    pub share_link: String,
    /// What to tell the seller when another key holds the store's address.
    pub foreign_owner: Option<String>,
    pub gap: Option<StoreDetailsGap>,
    pub details_resolved: bool,
    pub publish_in_flight: bool,
    /// Buyers' requests still waiting for an invoice.
    pub requests: usize,
    pub loaded: Option<LoadedSellerStore>,
    /// The badge of a record that has not been read.
    pub unread_record: String,
}

/// One store the seller can manage from this device: one with a store key.
#[derive(Debug, Clone, PartialEq, Eq)]
pub struct SellerStore {
    pub contract_id: Vec<u8>,
    pub fingerprint: String,
    /// The store's name, or "Store <code>" before it has one.
    pub label: String,
    pub code: Option<String>,
    pub link: Option<String>,
    pub foreign_owner: Option<String>,
    pub gap: Option<StoreDetailsGap>,
    /// Current values, to fill the form with when editing.
    pub details: StoreDetails,
    /// Whether what the store has published is known.
    pub details_resolved: bool,
    pub certificate: CertificateStatus,
    pub publish_in_flight: bool,
    /// Listings not taken down.
    pub listings: usize,
    pub requests: usize,
    pub record: String,
    /// Invoices this seller issued, unpaid and still open, whose anchor is too
    /// old for a buyer to start paying.
    pub expired_invoices: usize,
}

/// The text of an optional string.
pub open spec fn text_of(s: Option<String>) -> Option<Seq<char>> {
    match s {
        Some(s) => Some(s@),
        None => None,
    }
}

/// The name a store has published.
pub open spec fn published_name(r: RegisteredStore) -> Option<Seq<char>> {
    match r.loaded {
        Some(l) => match l.details {
            Some(d) => Some(d.store_name@),
            None => None,
        },
        None => None,
    }
}

/// What a store is called on its seller's pages: its name, or its code before
/// it has one. A blank name is none.
pub open spec fn store_label(code: Option<Seq<char>>, name: Option<Seq<char>>) -> Seq<char> {
    match (code, name) {
        (Some(code), Some(name)) => if text::trimmed(name).len() > 0 {
            name
        } else {
            "Store "@ + code
        },
        (Some(code), None) => "Store "@ + code,
        (None, Some(name)) => name,
        (None, None) => "Your store"@,
    }
}

/// How many of `listings` are not taken down.
pub open spec fn listed(listings: Seq<ListingAvailability>) -> nat {
    listings.filter(|a: ListingAvailability| a != ListingAvailability::Withdrawn).len()
}

/// Whether an order is one of this seller's, still open, and too old for a
/// buyer to start paying.
pub open spec fn is_expired_invoice(o: SellerOrder, fingerprint: Seq<char>) -> bool {
    o.seller_fingerprint@ == fingerprint && o.needs_reissue && o.awaiting_payment
}

/// How many of `orders` are.
pub open spec fn expired(orders: Seq<SellerOrder>, fingerprint: Seq<char>) -> nat {
    orders.filter(|o: SellerOrder| is_expired_invoice(o, fingerprint)).len()
}

/// Whether a registration is of a store that can be managed here: it has a
/// store key, and a contract id from which its contract can be rebuilt.
pub open spec fn is_managed(r: RegisteredStore) -> bool {
    r.store_key is Some && r.contract_id@.len() == 32
}

/// Whether `s` is the store that the registration `r` describes, where
/// `key_reads` says whether its store key is one.
pub open spec fn describes(s: SellerStore, r: RegisteredStore, key_reads: bool) -> bool {
    let code = if key_reads {
        Some(r.code@)
    } else {
        None
    };
    &&& s.contract_id@ == r.contract_id@
    &&& s.fingerprint@ == r.fingerprint@
    &&& s.label@ == store_label(code, published_name(r))
    &&& text_of(s.code) == code
    &&& text_of(s.link) == (if key_reads {
        Some(r.share_link@)
    } else {
        None
    })
    &&& text_of(s.foreign_owner) == text_of(r.foreign_owner)
    &&& s.gap == r.gap
    &&& s.details_resolved == r.details_resolved
    &&& s.publish_in_flight == r.publish_in_flight
    &&& s.requests == r.requests
    &&& match r.loaded {
        Some(l) => {
            &&& s.certificate == l.certificate
            &&& s.listings == listed(l.listings@)
            &&& s.record@ == l.record@
            &&& s.expired_invoices == expired(l.orders@, r.fingerprint@)
            &&& match l.details {
                Some(d) => s.details.store_name@ == d.store_name@ && s.details.description@
                    == d.description@,
                None => s.details.store_name@ == Seq::<char>::empty() && s.details.description@
                    == Seq::<char>::empty(),
            }
        },
        None => {
            &&& s.certificate is Absent
            &&& s.listings == 0
            &&& s.record@ == r.unread_record@
            &&& s.expired_invoices == 0
            &&& s.details.store_name@ == Seq::<char>::empty()
            &&& s.details.description@ == Seq::<char>::empty()
        },
    }
}

/// Whether the bytes a registration has for its store key are a key.
pub open spec fn key_reads(r: RegisteredStore) -> bool {
    r.store_key matches Some(k) && keys::is_verifying_key(k@)
}

impl Ranked for SellerStore {
    /// By name, then by contract id.
    open spec fn ranks_before(&self, other: &Self) -> bool {
        let a = text::lowercase(self.label@);
        let b = text::lowercase(other.label@);
        if a == b {
            bytes::bytes_before(self.contract_id@, other.contract_id@)
        } else {
            text::text_before(a, b)
        }
    }

    fn before(&self, other: &Self) -> (yes: bool) {
        let a = text::to_lowercase(&self.label);
        let b = text::to_lowercase(&other.label);
        if text::same_text(&a, &b) {
            bytes::comes_before(&self.contract_id, &other.contract_id)
        } else {
            text::comes_before(&a, &b)
        }
    }

    proof fn ranking(a: &Self, b: &Self, c: &Self) {
        lemma_name_ranking(
            text::lowercase(a.label@),
            a.contract_id@,
            text::lowercase(b.label@),
            b.contract_id@,
            text::lowercase(c.label@),
            c.contract_id@,
        );
    }
}

/// Ordering by a name and then by an id is an order.
pub proof fn lemma_name_ranking(
    a: Seq<char>,
    a_id: Seq<u8>,
    b: Seq<char>,
    b_id: Seq<u8>,
    c: Seq<char>,
    c_id: Seq<u8>,
)
    ensures
        name_before(a, a_id, b, b_id) ==> !name_before(b, b_id, a, a_id),
        !name_before(b, b_id, a, a_id) && !name_before(c, c_id, b, b_id) ==> !name_before(
            c,
            c_id,
            a,
            a_id,
        ),
{
    text::text_order_is_total(a, b);
    text::text_order_is_total(b, c);
    text::text_order_is_total(a, c);
    bytes::byte_order_is_total(a_id, b_id);
    bytes::byte_order_is_total(b_id, c_id);
    bytes::byte_order_is_total(a_id, c_id);
    if text::text_before(a, b) && text::text_before(b, c) {
        text::text_order_is_transitive(a, b, c);
    }
    if bytes::bytes_before(a_id, b_id) && bytes::bytes_before(b_id, c_id) {
        bytes::byte_order_is_transitive(a_id, b_id, c_id);
    }
}

/// Whether one (name, id) pair comes before another.
pub open spec fn name_before(a: Seq<char>, a_id: Seq<u8>, b: Seq<char>, b_id: Seq<u8>) -> bool {
    if a == b {
        bytes::bytes_before(a_id, b_id)
    } else {
        text::text_before(a, b)
    }
}

fn count_listed(listings: &Vec<ListingAvailability>) -> (n: usize)
    ensures
        n == listed(listings@),
{
    let ghost keep = |a: ListingAvailability| a != ListingAvailability::Withdrawn;
    let mut n: usize = 0;
    let mut i: usize = 0;
    proof {
        seqs::lemma_filter_none(listings@, keep);
    }
    while i < listings.len()
        invariant
            i <= listings.len(),
            n <= i,
            keep == (|a: ListingAvailability| a != ListingAvailability::Withdrawn),
            n == listings@.take(i as int).filter(keep).len(),
        decreases listings.len() - i,
    {
        proof {
            seqs::lemma_filter_step(listings@, keep, i as int);
        }
        if listings[i] != ListingAvailability::Withdrawn {
            n = n + 1;
        }
        i = i + 1;
    }
    assert(listings@.take(i as int) =~= listings@);
    n
}

fn count_expired(orders: &Vec<SellerOrder>, fingerprint: &str) -> (n: usize)
    ensures
        n == expired(orders@, fingerprint@),
{
    let ghost keep = |o: SellerOrder| is_expired_invoice(o, fingerprint@);
    let mut n: usize = 0;
    let mut i: usize = 0;
    proof {
        seqs::lemma_filter_none(orders@, keep);
    }
    while i < orders.len()
        invariant
            i <= orders.len(),
            n <= i,
            keep == (|o: SellerOrder| is_expired_invoice(o, fingerprint@)),
            n == orders@.take(i as int).filter(keep).len(),
        decreases orders.len() - i,
    {
        proof {
            seqs::lemma_filter_step(orders@, keep, i as int);
        }
        let o = &orders[i];
        if o.needs_reissue && o.awaiting_payment && text::same_text(
            &o.seller_fingerprint,
            fingerprint,
        ) {
            n = n + 1;
        }
        i = i + 1;
    }
    assert(orders@.take(i as int) =~= orders@);
    n
}

/// What a store goes by before it has a name.
fn label_from_code(code: &str) -> (r: String)
    ensures
        r@ == "Store "@ + code@,
{
    let mut label = "Store ".to_string();
    label.append(code);
    label
}

/// The store a managed registration describes, given whether its store key is
/// one.
pub fn seller_store(r: &RegisteredStore, key_reads: bool) -> (s: SellerStore)
    ensures
        describes(s, *r, key_reads),
{
    let code: Option<String> = if key_reads {
        Some(r.code.clone())
    } else {
        None
    };
    let name: Option<String> = match &r.loaded {
        Some(l) => match &l.details {
            Some(d) => Some(d.store_name.clone()),
            None => None,
        },
        None => None,
    };
    let label: String = match (&code, name) {
        (Some(code), Some(name)) => if !text::trim(&name).is_empty() {
            name
        } else {
            label_from_code(code)
        },
        (Some(code), None) => label_from_code(code),
        (None, Some(name)) => name,
        (None, None) => "Your store".to_string(),
    };
    let link: Option<String> = if key_reads {
        Some(r.share_link.clone())
    } else {
        None
    };
    let foreign_owner: Option<String> = match &r.foreign_owner {
        Some(s) => Some(s.clone()),
        None => None,
    };
    let (details, certificate, listings, record, expired_invoices) = match &r.loaded {
        Some(l) => {
            let details = match &l.details {
                Some(d) => StoreDetails {
                    store_name: d.store_name.clone(),
                    description: d.description.clone(),
                },
                None => StoreDetails { store_name: String::new(), description: String::new() },
            };
            (
                details,
                l.certificate.duplicate(),
                count_listed(&l.listings),
                l.record.clone(),
                count_expired(&l.orders, &r.fingerprint),
            )
        },
        None => (
            StoreDetails { store_name: String::new(), description: String::new() },
            CertificateStatus::Absent,
            0usize,
            r.unread_record.clone(),
            0usize,
        ),
    };
    SellerStore {
        contract_id: bytes::copy_bytes(&r.contract_id),
        fingerprint: r.fingerprint.clone(),
        label,
        code,
        link,
        foreign_owner,
        gap: r.gap,
        details,
        details_resolved: r.details_resolved,
        certificate,
        publish_in_flight: r.publish_in_flight,
        listings,
        requests: r.requests,
        record,
        expired_invoices,
    }
}

/// Whether `stores` are the managed ones of `registrations`, each described,
/// in their order.
pub open spec fn managed_stores(
    stores: Seq<SellerStore>,
    registrations: Seq<RegisteredStore>,
) -> bool {
    let kept = registrations.filter(|r: RegisteredStore| is_managed(r));
    &&& stores.len() == kept.len()
    &&& forall|i: int|
        0 <= i < stores.len() ==> describes(#[trigger] stores[i], kept[i], key_reads(kept[i]))
}

/// Every store this device can manage, by name.
pub fn seller_stores(registrations: &Vec<RegisteredStore>) -> (r: Vec<SellerStore>)
    ensures
        exists|stores: Seq<SellerStore>|
            managed_stores(stores, registrations@) && #[trigger] order::is_sorted_from(r@, stores),
{
    let ghost keep = |r: RegisteredStore| is_managed(r);
    let mut stores: Vec<SellerStore> = Vec::new();
    let mut i: usize = 0;
    proof {
        seqs::lemma_filter_none(registrations@, keep);
    }
    while i < registrations.len()
        invariant
            i <= registrations.len(),
            keep == (|r: RegisteredStore| is_managed(r)),
            stores@.len() == registrations@.take(i as int).filter(keep).len(),
            forall|j: int|
                0 <= j < stores@.len() ==> describes(
                    #[trigger] stores@[j],
                    registrations@.take(i as int).filter(keep)[j],
                    key_reads(registrations@.take(i as int).filter(keep)[j]),
                ),
        decreases registrations.len() - i,
    {
        proof {
            seqs::lemma_filter_step(registrations@, keep, i as int);
        }
        let r = &registrations[i];
        if let Some(key) = &r.store_key {
            if r.contract_id.len() == 32 {
                let reads = keys::verifying_key(key);
                stores.push(seller_store(r, reads));
            }
        }
        i = i + 1;
    }
    assert(registrations@.take(i as int) =~= registrations@);
    let ghost all = stores@;
    assert(managed_stores(all, registrations@));
    order::sort(stores)
}

/// The requests of `stores` together.
pub open spec fn total_requests(stores: Seq<SellerStore>) -> nat
    decreases stores.len(),
{
    if stores.len() == 0 {
        0
    } else {
        total_requests(stores.drop_last()) + stores.last().requests as nat
    }
}

/// Requests waiting for an invoice across every store this device manages: the
/// number beside "My store" in the navigation.
pub fn requests_needing_seller(stores: &Vec<SellerStore>) -> (r: usize)
    requires
        total_requests(stores@) <= usize::MAX,
    ensures
        r == total_requests(stores@),
{
    let mut total: usize = 0;
    let mut i: usize = 0;
    while i < stores.len()
        invariant
            i <= stores.len(),
            total == total_requests(stores@.take(i as int)),
            total_requests(stores@) <= usize::MAX,
        decreases stores.len() - i,
    {
        proof {
            assert(stores@.take(i + 1).drop_last() =~= stores@.take(i as int));
            lemma_total_grows(stores@, i + 1);
        }
        total = total + stores[i].requests;
        i = i + 1;
    }
    assert(stores@.take(i as int) =~= stores@);
    total
}

proof fn lemma_total_grows(stores: Seq<SellerStore>, k: int)
    requires
        0 <= k <= stores.len(),
    ensures
        total_requests(stores.take(k)) <= total_requests(stores),
    decreases stores.len() - k,
{
    if k == stores.len() {
        assert(stores.take(k) =~= stores);
    } else {
        lemma_total_grows(stores, k + 1);
        assert(stores.take(k + 1).drop_last() =~= stores.take(k));
    }
}

/// Whether `r` is a fingerprint shortened to its first 12 bytes, where it is
/// longer.
pub open spec fn is_truncated(r: Seq<char>, fp: Seq<char>) -> bool {
    if vstd::utf8::encode_utf8(fp).len() > 12 {
        exists|head: Seq<char>|
            r == head + "..."@ && #[trigger] vstd::utf8::encode_utf8(head)
                == vstd::utf8::encode_utf8(fp).subrange(0, 12)
    } else {
        r == fp
    }
}

/// Whether a fingerprint can be shortened: its first 12 bytes end a
/// character.
pub open spec fn can_truncate(fp: Seq<char>) -> bool {
    vstd::utf8::encode_utf8(fp).len() > 12 ==> vstd::utf8::is_char_boundary(
        vstd::utf8::encode_utf8(fp),
        12,
    )
}

/// A fingerprint's first 12 bytes, where it is longer.
pub fn truncate_fingerprint(fp: &str) -> (r: String)
    requires
        can_truncate(fp@),
    ensures
        is_truncated(r@, fp@),
{
    if fp.as_bytes().len() > 12 {
        let (head, _tail) = fp.split_at(12);
        let mut r = head.to_string();
        r.append("...");
        assert(vstd::utf8::encode_utf8(head@) == vstd::utf8::encode_utf8(fp@).subrange(0, 12));
        r
    } else {
        fp.to_string()
    }
}

/// Whether `r` names a Ghost Key: by its label, or by its fingerprint where
/// the label is blank.
pub open spec fn names_ghost_key(r: Seq<char>, label: Option<Seq<char>>, fp: Seq<char>) -> bool {
    match label {
        Some(label) => if text::trimmed(label).len() > 0 {
            r == "Ghost Key \u{201c}"@ + text::trimmed(label) + "\u{201d}"@
        } else {
            names_by_fingerprint(r, fp)
        },
        None => names_by_fingerprint(r, fp),
    }
}

/// Whether `r` names a Ghost Key by its fingerprint.
pub open spec fn names_by_fingerprint(r: Seq<char>, fp: Seq<char>) -> bool {
    exists|short: Seq<char>| #[trigger] is_truncated(short, fp) && r == "Ghost Key "@ + short
}

/// What a Ghost Key is called.
pub fn ghost_key_name(label: &Option<String>, fingerprint: &str) -> (r: String)
    requires
        can_truncate(fingerprint@),
    ensures
        names_ghost_key(r@, text_of(*label), fingerprint@),
{
    if let Some(label) = label {
        let name = text::trim(label);
        if !name.is_empty() {
            return text::join3("Ghost Key \u{201c}", name, "\u{201d}");
        }
    }
    let short = truncate_fingerprint(fingerprint);
    let mut r = "Ghost Key ".to_string();
    r.append(&short);
    assert(is_truncated(short@, fingerprint@));
    r
}

/// What clicking the store-details button does.
#[derive(Debug, Clone, Copy, PartialEq, Eq, Structural)]
pub enum StoreDetailsAction {
    /// Publish the details already on record, unchanged.
    PublishNow,
    /// Open (or close) the form so the seller can type something.
    ToggleForm,
}

/// What the store-details button does: it publishes where only the key the
/// delegate already holds is missing, and opens the form otherwise. While the
/// form is open it always closes it, so that nothing the seller has typed is
/// passed over.
pub open spec fn details_action(gap: Option<StoreDetailsGap>, is_editing: bool) -> StoreDetailsAction {
    if !is_editing && gap == Some(StoreDetailsGap::NoEncryptionKey) {
        StoreDetailsAction::PublishNow
    } else {
        StoreDetailsAction::ToggleForm
    }
}

/// Decide what the store-details button does.
pub fn store_details_button_action(gap: Option<StoreDetailsGap>, is_editing: bool) -> (r:
    StoreDetailsAction)
    ensures
        r == details_action(gap, is_editing),
{
    if is_editing {
        return StoreDetailsAction::ToggleForm;
    }
    match gap {
        Some(StoreDetailsGap::NoEncryptionKey) => StoreDetailsAction::PublishNow,
        _ => StoreDetailsAction::ToggleForm,
    }
}

/// The store-details button as it is drawn.
#[derive(Debug, Clone, Copy, PartialEq, Eq)]
pub struct DetailsButton {
    pub label: &'static str,
    /// Drawn as the thing to do.
    pub primary: bool,
    pub disabled: bool,
}

/// The store-details button: only publishing at once can send twice, so only
/// that is disabled while a publish is on its way.
pub fn details_button(gap: Option<StoreDetailsGap>, is_editing: bool, publish_in_flight: bool) -> (r:
    DetailsButton)
    ensures
        r.primary == (gap is Some),
        r.disabled == (details_action(gap, is_editing) == StoreDetailsAction::PublishNow
            && publish_in_flight),
        r.label@ == (if is_editing {
            "Cancel"@
        } else if gap is Some {
            "Publish details"@
        } else {
            "Edit"@
        }),
{
    let action = store_details_button_action(gap, is_editing);
    let label = if action == StoreDetailsAction::PublishNow {
        "Publish details"
    } else if is_editing {
        "Cancel"
    } else if gap.is_some() {
        "Publish details"
    } else {
        "Edit"
    };
    DetailsButton {
        label,
        primary: gap.is_some(),
        disabled: action == StoreDetailsAction::PublishNow && publish_in_flight,
    }
}

/// What a click on the store-details button comes to.
#[derive(Debug, Clone, Copy, PartialEq, Eq, Structural)]
pub enum DetailsClick {
    /// Publish the details on record.
    Publish,
    /// Nothing: a publish is already on its way.
    Ignore,
    /// Open the form, on the page that has it.
    OpenForm,
    /// Close the form.
    CloseForm,
}

/// What a click on the store-details button comes to, from what holds when it
/// is clicked.
pub fn details_click(gap: Option<StoreDetailsGap>, is_editing: bool, publish_in_flight: bool) -> (r:
    DetailsClick)
    ensures
        r == (match details_action(gap, is_editing) {
            StoreDetailsAction::PublishNow => if publish_in_flight {
                DetailsClick::Ignore
            } else {
                DetailsClick::Publish
            },
            StoreDetailsAction::ToggleForm => if is_editing {
                DetailsClick::CloseForm
            } else {
                DetailsClick::OpenForm
            },
        }),
{
    match store_details_button_action(gap, is_editing) {
        StoreDetailsAction::PublishNow => if publish_in_flight {
            DetailsClick::Ignore
        } else {
            DetailsClick::Publish
        },
        StoreDetailsAction::ToggleForm => if is_editing {
            DetailsClick::CloseForm
        } else {
            DetailsClick::OpenForm
        },
    }
}

/// An open form is always closed by the button, whatever the gap: a click
/// never publishes over what is being typed.
pub proof fn an_open_form_is_never_published_over(gap: Option<StoreDetailsGap>)
    ensures
        details_action(gap, true) == StoreDetailsAction::ToggleForm,
{
}

/// The details a form hands over, if it can be submitted: it needs a name.
pub fn submitted_details(store_name: &str, description: &str) -> (r: Option<StoreDetails>)
    ensures
        r is Some == (text::trimmed(store_name@).len() > 0),
        r matches Some(d) ==> d.store_name@ == text::trimmed(store_name@) && d.description@
            == text::trimmed(description@),
{
    let name = text::trim(store_name);
    if name.is_empty() {
        return None;
    }
    Some(
        StoreDetails {
            store_name: name.to_string(),
            description: text::trim(description).to_string(),
        },
    )
}

/// The pages of My store.
#[derive(Debug, Clone, Copy, PartialEq, Eq, Structural)]
pub enum Tab {
    Overview,
    Listings,
    Orders,
    Settings,
}

/// What a page of My store is called: Orders counts what needs the seller, and
/// Listings what there is.
pub open spec fn tab_label(tab: Tab, requests: nat, listings: nat) -> Seq<char> {
    match tab {
        Tab::Overview => "Overview"@,
        Tab::Listings => "Listings ("@ + text::decimal(listings) + ")"@,
        Tab::Orders => if requests == 0 {
            "Orders"@
        } else {
            "Orders ("@ + text::decimal(requests) + ")"@
        },
        Tab::Settings => "Settings"@,
    }
}

/// What a page of My store is called.
pub fn tab_title(tab: Tab, requests: usize, listings: usize) -> (r: String)
    ensures
        r@ == tab_label(tab, requests as nat, listings as nat),
{
    match tab {
        Tab::Overview => "Overview".to_string(),
        Tab::Listings => text::join3("Listings (", &text::count_text(listings), ")"),
        Tab::Orders => if requests == 0 {
            "Orders".to_string()
        } else {
            text::join3("Orders (", &text::count_text(requests), ")")
        },
        Tab::Settings => "Settings".to_string(),
    }
}

/// The store a dashboard shows: the one that was picked, while it is there,
/// and the first otherwise.
pub fn shown_store(stores: &Vec<SellerStore>, picked: &[u8]) -> (r: usize)
    requires
        stores@.len() > 0,
    ensures
        r < stores@.len(),
        (exists|i: int| 0 <= i < stores@.len() && (#[trigger] stores@[i]).contract_id@ == picked@)
            ==> stores@[r as int].contract_id@ == picked@ && forall|i: int|
            0 <= i < r ==> (#[trigger] stores@[i]).contract_id@ != picked@,
        !(exists|i: int| 0 <= i < stores@.len() && (#[trigger] stores@[i]).contract_id@ == picked@)
            ==> r == 0,
{
    let mut i: usize = 0;
    while i < stores.len()
        invariant
            i <= stores.len(),
            forall|j: int| 0 <= j < i ==> (#[trigger] stores@[j]).contract_id@ != picked@,
        decreases stores.len() - i,
    {
        if bytes::same_bytes(&stores[i].contract_id, picked) {
            return i;
        }
        i = i + 1;
    }
    0
}

/// The Ghost Key a first store is set up with: the one that was picked, or the
/// last where there are fewer.
pub fn chosen_key(picked: usize, keys: usize) -> (r: usize)
    requires
        keys > 0,
    ensures
        r < keys,
        r == (if picked < keys {
            picked as int
        } else {
            keys - 1
        }),
{
    if picked < keys {
        picked
    } else {
        keys - 1
    }
}

/// What My store shows.
#[derive(Debug, Clone, Copy, PartialEq, Eq, Structural)]
pub enum MyStorePage {
    /// How to get a Ghost Key.
    NoIdentity,
    /// How to set up a first store.
    FirstStore,
    /// The dashboard of the stores there are.
    Dashboard,
}

/// What My store shows, by what there is.
pub fn my_store_page(ghostkeys: usize, stores: usize) -> (r: MyStorePage)
    ensures
        r == (if ghostkeys == 0 {
            MyStorePage::NoIdentity
        } else if stores == 0 {
            MyStorePage::FirstStore
        } else {
            MyStorePage::Dashboard
        }),
{
    if ghostkeys == 0 {
        MyStorePage::NoIdentity
    } else if stores == 0 {
        MyStorePage::FirstStore
    } else {
        MyStorePage::Dashboard
    }
}

/// What one Ghost Key needs before it has a store this device can manage.
#[derive(Debug, Clone, Copy, PartialEq, Eq, Structural)]
pub enum SetupPanel {
    /// A creation is under way. It can be cancelled until it publishes.
    Creating { can_cancel: bool },
    /// A store from before stores had keys can be moved.
    MoveLegacy,
    /// Such a store is still loading: a creation now would make a second one.
    LoadingLegacy,
    /// The form for a new store.
    Form,
    /// The offer to open that form.
    Offer,
}

/// What holds about one Ghost Key's stores when its setup panel is drawn.
#[derive(Debug, Clone, Copy, PartialEq, Eq, Structural)]
pub struct SetupFacts {
    /// A creation or a move is under way for this Ghost Key.
    pub creating: bool,
    /// Its contracts are being put on the network.
    pub publishing: bool,
    pub legacy_movable: bool,
    pub legacy_loading: bool,
    pub form_open: bool,
}

/// What a Ghost Key's setup panel shows.
pub fn setup_panel(facts: SetupFacts) -> (r: SetupPanel)
    ensures
        r == (if facts.creating {
            SetupPanel::Creating { can_cancel: !facts.publishing }
        } else if facts.legacy_movable {
            SetupPanel::MoveLegacy
        } else if facts.legacy_loading {
            SetupPanel::LoadingLegacy
        } else if facts.form_open {
            SetupPanel::Form
        } else {
            SetupPanel::Offer
        }),
{
    if facts.creating {
        SetupPanel::Creating { can_cancel: !facts.publishing }
    } else if facts.legacy_movable {
        SetupPanel::MoveLegacy
    } else if facts.legacy_loading {
        SetupPanel::LoadingLegacy
    } else if facts.form_open {
        SetupPanel::Form
    } else {
        SetupPanel::Offer
    }
}

/// The overview of one store: what needs the seller, and what is left to set
/// up.
#[derive(Debug, Clone, PartialEq, Eq)]
pub struct StoreOverview {
    /// What to say about another key that holds the store's address.
    pub refusal: Option<String>,
    pub loading_details: bool,
    /// The repair prompt for the store's published details.
    pub repair: Option<StoreDetailsGap>,
    /// Buyers see the store as unbacked.
    pub unbacked: bool,
    /// How many buyers wait for an invoice, in words.
    pub waiting: Option<String>,
    /// How many unpaid invoices are too old to start paying, in words.
    pub expired: Option<String>,
    pub nothing_needed: bool,
    /// The setup checklist, while something of it is left.
    pub checklist: Option<Checklist>,
}

/// What is left to set up.
#[derive(Debug, Clone, Copy, PartialEq, Eq, Structural)]
pub struct Checklist {
    pub details_done: bool,
    pub offer_details: bool,
    pub wallet_done: bool,
    pub offer_wallet: bool,
    pub listing_done: bool,
}

/// Whether something needs the seller of `store`.
pub open spec fn needs_seller(store: SellerStore) -> bool {
    store.foreign_owner is Some || (store.details_resolved && store.gap is Some)
        || !(store.certificate is Verified) || store.expired_invoices > 0 || store.requests > 0
}

/// How many buyers wait for an invoice, in words.
pub open spec fn waiting_words(requests: nat) -> Seq<char> {
    if requests == 1 {
        "1 buyer is waiting for an invoice."@
    } else {
        text::decimal(requests) + " buyers are waiting for an invoice."@
    }
}

/// How many unpaid invoices are too old to start paying, in words.
pub open spec fn expired_words(invoices: nat) -> Seq<char> {
    if invoices == 1 {
        "1 unpaid invoice is too old for a buyer to start paying. Issue it again if they still want it."@
    } else {
        text::decimal(invoices)
            + " unpaid invoices are too old for a buyer to start paying. Issue them again if the buyers still want them."@
    }
}

/// Whether a store's name and description are published and complete.
pub open spec fn details_done(store: SellerStore) -> bool {
    store.details_resolved && store.gap is None
}

/// The overview of one store.
pub fn overview(store: &SellerStore, has_wallet: bool, wallet_known: bool) -> (r: StoreOverview)
    ensures
        text_of(r.refusal) == text_of(store.foreign_owner),
        r.loading_details == !store.details_resolved,
        r.repair == (if store.details_resolved {
            store.gap
        } else {
            None
        }),
        r.unbacked == (store.details_resolved && !(store.certificate is Verified)),
        text_of(r.waiting) == (if store.requests > 0 {
            Some(waiting_words(store.requests as nat))
        } else {
            None
        }),
        text_of(r.expired) == (if store.expired_invoices > 0 {
            Some(expired_words(store.expired_invoices as nat))
        } else {
            None
        }),
        r.nothing_needed == (!needs_seller(*store) && store.details_resolved),
        r.checklist == (if details_done(*store) && has_wallet && store.listings > 0 {
            None
        } else {
            Some(
                Checklist {
                    details_done: details_done(*store),
                    offer_details: !details_done(*store) && store.details_resolved,
                    wallet_done: has_wallet,
                    offer_wallet: !has_wallet && wallet_known,
                    listing_done: store.listings > 0,
                },
            )
        }),
{
    let done = store.details_resolved && store.gap.is_none();
    let verified = store.certificate.is_verified();
    let needs = store.foreign_owner.is_some() || (store.details_resolved && store.gap.is_some())
        || !verified || store.expired_invoices > 0 || store.requests > 0;
    let refusal: Option<String> = match &store.foreign_owner {
        Some(s) => Some(s.clone()),
        None => None,
    };
    let waiting: Option<String> = if store.requests == 0 {
        None
    } else if store.requests == 1 {
        Some("1 buyer is waiting for an invoice.".to_string())
    } else {
        let mut s = text::count_text(store.requests);
        s.append(" buyers are waiting for an invoice.");
        Some(s)
    };
    let expired: Option<String> = if store.expired_invoices == 0 {
        None
    } else if store.expired_invoices == 1 {
        Some(
            "1 unpaid invoice is too old for a buyer to start paying. Issue it again if they still want it.".to_string(),
        )
    } else {
        let mut s = text::count_text(store.expired_invoices);
        s.append(
            " unpaid invoices are too old for a buyer to start paying. Issue them again if the buyers still want them.",
        );
        Some(s)
    };
    let checklist: Option<Checklist> = if done && has_wallet && store.listings > 0 {
        None
    } else {
        Some(
            Checklist {
                details_done: done,
                offer_details: !done && store.details_resolved,
                wallet_done: has_wallet,
                offer_wallet: !has_wallet && wallet_known,
                listing_done: store.listings > 0,
            },
        )
    };
    StoreOverview {
        refusal,
        loading_details: !store.details_resolved,
        repair: if store.details_resolved {
            store.gap
        } else {
            None
        },
        unbacked: store.details_resolved && !verified,
        waiting,
        expired,
        nothing_needed: !needs && store.details_resolved,
        checklist,
    }
}

/// A connected Ghost Key, as the settings page lists it.
#[derive(Debug, Clone, PartialEq, Eq)]
pub struct SettingsKey {
    pub fingerprint: String,
    /// A store this device can sign for is registered under it.
    pub has_store: bool,
}

/// The places of the connected Ghost Keys with no store this device can
/// manage: each can open one, or move one.
pub fn keys_without_a_store(keys: &Vec<SettingsKey>) -> (r: Vec<usize>)
    ensures
        forall|i: int|
            #![trigger r@[i]]
            0 <= i < r@.len() ==> r@[i] < keys@.len() && !keys@[r@[i] as int].has_store,
        forall|i: int, j: int| 0 <= i < j < r@.len() ==> r@[i] < r@[j],
        forall|k: int|
            0 <= k < keys@.len() && !(#[trigger] keys@[k]).has_store ==> r@.contains(k as usize),
{
    let mut r: Vec<usize> = Vec::new();
    let mut i: usize = 0;
    while i < keys.len()
        invariant
            i <= keys.len(),
            forall|a: int|
                #![trigger r@[a]]
                0 <= a < r@.len() ==> r@[a] < i && !keys@[r@[a] as int].has_store,
            forall|a: int, b: int| 0 <= a < b < r@.len() ==> r@[a] < r@[b],
            forall|k: int|
                0 <= k < i && !(#[trigger] keys@[k]).has_store ==> r@.contains(k as usize),
        decreases keys.len() - i,
    {
        let ghost before = r@;
        if !keys[i].has_store {
            r.push(i);
            assert(r@[before.len() as int] == i);
            assert forall|k: int| 0 <= k < i + 1 && !(#[trigger] keys@[k]).has_store implies r@.contains(
                k as usize,
            ) by {
                if k < i {
                    let a = before.index_of(k as usize);
                    assert(before.contains(k as usize));
                    assert(r@[a] == k as usize);
                }
            }
        }
        i = i + 1;
    }
    r
}

/// Whether a Ghost Key's setup panel is open on the settings page: the seller
/// opened it, or its creation is under way, or waits for their answer about a
/// second store.
pub fn setup_is_open(
    fingerprint: &str,
    opened: &Option<String>,
    creating_for: &Option<String>,
    asked_about: &Option<String>,
) -> (r: bool)
    ensures
        r == (text_of(*opened) == Some(fingerprint@) || text_of(*creating_for) == Some(
            fingerprint@,
        ) || text_of(*asked_about) == Some(fingerprint@)),
{
    let a = match opened {
        Some(f) => text::same_text(f, fingerprint),
        None => false,
    };
    let b = match creating_for {
        Some(f) => text::same_text(f, fingerprint),
        None => false,
    };
    let c = match asked_about {
        Some(f) => text::same_text(f, fingerprint),
        None => false,
    };
    a || b || c
}

/// What asking the vault for a Ghost Key comes to.
#[derive(Debug, Clone, Copy, PartialEq, Eq)]
pub enum ConnectStep {
    /// A request is already on its way: a second prompt would overwrite the
    /// first one's answer.
    Ignore,
    /// The vault is not there yet: say this.
    Tell(&'static str),
    /// Ask.
    Ask,
}

/// What asking the vault for a Ghost Key comes to.
pub fn connect_ghostkey(in_flight: bool, vault_registered: bool) -> (r: ConnectStep)
    ensures
        (if in_flight {
            r is Ignore
        } else if !vault_registered {
            r matches ConnectStep::Tell(words) && words@
                == "Still connecting to the gateway. Please try again in a moment."@
        } else {
            r is Ask
        }),
{
    if in_flight {
        ConnectStep::Ignore
    } else if !vault_registered {
        ConnectStep::Tell("Still connecting to the gateway. Please try again in a moment.")
    } else {
        ConnectStep::Ask
    }
}

/// What a new or moved store is started with.
#[derive(Debug, Clone, Copy, PartialEq, Eq, Structural)]
pub enum StoreStart {
    Create,
    MoveLegacy,
}

/// The 32-byte key a store is started with, from the bytes the vault has
/// shared for its Ghost Key, or why it cannot be.
pub fn starting_key(start: StoreStart, shared: &Option<Vec<u8>>) -> (r: Result<[u8; 32], String>)
    ensures
        (match shared {
            Some(b) => if b@.len() == 32 {
                r matches Ok(key) && key@ == b@
            } else {
                r matches Err(why) && why@ == no_key_words(start)
            },
            None => r matches Err(why) && why@ == no_key_words(start),
        }),
{
    if let Some(b) = shared {
        if let Some(key) = key_of(b) {
            return Ok(key);
        }
    }
    match start {
        StoreStart::Create => Err(
            "Store creation failed: the vault has not shared this Ghost Key's public key.".to_string(),
        ),
        StoreStart::MoveLegacy => Err(
            "Could not move the store: the vault has not shared this Ghost Key's public key.".to_string(),
        ),
    }
}

/// What the seller is told when the vault has shared no key.
pub open spec fn no_key_words(start: StoreStart) -> Seq<char> {
    match start {
        StoreStart::Create => {
            "Store creation failed: the vault has not shared this Ghost Key's public key."@
        },
        StoreStart::MoveLegacy => {
            "Could not move the store: the vault has not shared this Ghost Key's public key."@
        },
    }
}

/// The 32 bytes of a key, if there are as many.
pub fn key_of(b: &[u8]) -> (r: Option<[u8; 32]>)
    ensures
        r is Some == (b@.len() == 32),
        r matches Some(key) ==> key@ == b@,
{
    if b.len() != 32 {
        return None;
    }
    let mut key: [u8; 32] = [0; 32];
    let mut i: usize = 0;
    while i < 32
        invariant
            i <= 32,
            b@.len() == 32,
            forall|j: int| 0 <= j < i ==> key@[j] == b@[j],
        decreases 32 - i,
    {
        key[i] = b[i];
        i = i + 1;
    }
    assert(key@ =~= b@);
    Some(key)
}

/// What the seller is told about a store being started: that it could not be,
/// or that a move is under way.
pub fn start_notice(start: StoreStart, refused: &Option<String>) -> (r: Option<String>)
    ensures
        text_of(r) == (match (start, text_of(*refused)) {
            (StoreStart::Create, Some(why)) => Some("Could not create the store: "@ + why),
            (StoreStart::MoveLegacy, Some(why)) => Some("Could not move the store: "@ + why),
            (StoreStart::Create, None) => None,
            (StoreStart::MoveLegacy, None) => Some("Moving your store to a key of its own\u{2026}"@),
        }),
{
    match (start, refused) {
        (StoreStart::Create, Some(why)) => {
            let mut s = "Could not create the store: ".to_string();
            s.append(why);
            Some(s)
        },
        (StoreStart::MoveLegacy, Some(why)) => {
            let mut s = "Could not move the store: ".to_string();
            s.append(why);
            Some(s)
        },
        (StoreStart::Create, None) => None,
        (StoreStart::MoveLegacy, None) => {
            Some("Moving your store to a key of its own\u{2026}".to_string())
        },
    }
}

/// What a store creation asks for next.
#[derive(Debug, Clone, PartialEq, Eq)]
pub enum CreationStep {
    /// The Ghost Key's certificate, from the vault.
    AskCertificate,
    /// A store key, from the Harvest delegate.
    AskStoreKey { request_id: u64, another_store: bool },
    /// Nothing more: the answers are awaited.
    Wait,
    /// The creation has failed, for this reason.
    Fail(String),
}

/// What happened to the last thing a store creation asked for.
#[derive(Debug, Clone, PartialEq, Eq)]
pub enum CreationEvent {
    /// The creation starts. It needs the Harvest delegate and the vault.
    Start { both_registered: bool },
    CertificateAsked,
    /// The certificate request could not be written.
    CertificateUnwritten(String),
    /// The certificate request could not be sent.
    CertificateUnsent(String),
    StoreKeyAsked,
    /// The store-key request could not be written.
    StoreKeyUnwritten(String),
    /// The store-key request could not be sent.
    StoreKeyUnsent(String),
}

/// Why a creation fails on an event, if it does.
pub open spec fn creation_failure(event: CreationEvent) -> Option<Seq<char>> {
    match event {
        CreationEvent::Start { both_registered } => if both_registered {
            None
        } else {
            Some("the Harvest delegate or the Ghost Key vault is not registered"@)
        },
        CreationEvent::CertificateAsked => None,
        CreationEvent::StoreKeyAsked => None,
        CreationEvent::CertificateUnwritten(e) => Some("serialize GetCertificate: "@ + e@),
        CreationEvent::CertificateUnsent(e) => Some(
            "could not ask the vault for the certificate: "@ + e@,
        ),
        CreationEvent::StoreKeyUnwritten(e) => Some("serialize a delegate request: "@ + e@),
        CreationEvent::StoreKeyUnsent(e) => Some("could not reach the Harvest delegate: "@ + e@),
    }
}

/// The payload that asks the vault for a Ghost Key's certificate, or what the
/// creation has to hear.
pub fn certificate_request(fingerprint: &str) -> (r: Result<Vec<u8>, CreationEvent>)
    ensures
        (match vault::written_request(
            VaultRequestView::GetCertificate { fingerprint: fingerprint@ },
        ) {
            Ok(written) => r matches Ok(payload) && payload@ == written,
            Err(why) => r matches Err(CreationEvent::CertificateUnwritten(e)) && e@ == why,
        }),
{
    let request = VaultRequest::GetCertificate { fingerprint: fingerprint.to_string() };
    match vault::request_payload(&request) {
        Ok(payload) => Ok(payload),
        Err(why) => Err(CreationEvent::CertificateUnwritten(why)),
    }
}

/// The next request of a store creation: the certificate first, then the
/// store key, and the answers are awaited. The store key is asked for under
/// the id the creation began with, and says whether a second store under this
/// Ghost Key is deliberate.
pub fn send_store_creation_requests(event: CreationEvent, request_id: u64, another_store: bool) -> (r:
    CreationStep)
    ensures
        (match creation_failure(event) {
            Some(why) => r matches CreationStep::Fail(words) && words@ == why,
            None => match event {
                CreationEvent::Start { .. } => r is AskCertificate,
                CreationEvent::CertificateAsked => r == (CreationStep::AskStoreKey {
                    request_id,
                    another_store,
                }),
                _ => r is Wait,
            },
        }),
{
    match event {
        CreationEvent::Start { both_registered } => if both_registered {
            CreationStep::AskCertificate
        } else {
            CreationStep::Fail(
                "the Harvest delegate or the Ghost Key vault is not registered".to_string(),
            )
        },
        CreationEvent::CertificateAsked => CreationStep::AskStoreKey { request_id, another_store },
        CreationEvent::StoreKeyAsked => CreationStep::Wait,
        CreationEvent::CertificateUnwritten(e) => {
            let mut s = "serialize GetCertificate: ".to_string();
            s.append(&e);
            CreationStep::Fail(s)
        },
        CreationEvent::CertificateUnsent(e) => {
            let mut s = "could not ask the vault for the certificate: ".to_string();
            s.append(&e);
            CreationStep::Fail(s)
        },
        CreationEvent::StoreKeyUnwritten(e) => {
            let mut s = "serialize a delegate request: ".to_string();
            s.append(&e);
            CreationStep::Fail(s)
        },
        CreationEvent::StoreKeyUnsent(e) => {
            let mut s = "could not reach the Harvest delegate: ".to_string();
            s.append(&e);
            CreationStep::Fail(s)
        },
    }
}

/// The bytes the vault has shared for the Ghost Key with a fingerprint.
pub open spec fn shared_bytes(ghostkeys: Seq<GhostKeyInfo>, fingerprint: Seq<char>) -> Option<
    Seq<u8>,
> {
    match seqs::find_first(ghostkeys, |k: GhostKeyInfo| k.fingerprint@ == fingerprint) {
        Some(k) => match k.verifying_key_bytes {
            Some(b) => Some(b@),
            None => None,
        },
        None => None,
    }
}

/// The key a store is started with, from what the vault has shared, or why it
/// cannot be started.
pub fn key_to_start_with(
    start: StoreStart,
    ghostkeys: &Vec<GhostKeyInfo>,
    fingerprint: &str,
) -> (r: Result<[u8; 32], String>)
    ensures
        (match shared_bytes(ghostkeys@, fingerprint@) {
            Some(b) => if b.len() == 32 {
                r matches Ok(key) && key@ == b
            } else {
                r matches Err(why) && why@ == no_key_words(start)
            },
            None => r matches Err(why) && why@ == no_key_words(start),
        }),
{
    let ghost want = |k: GhostKeyInfo| k.fingerprint@ == fingerprint@;
    let mut i: usize = 0;
    while i < ghostkeys.len()
        invariant
            i <= ghostkeys.len(),
            want == (|k: GhostKeyInfo| k.fingerprint@ == fingerprint@),
            forall|j: int| 0 <= j < i ==> !want(#[trigger] ghostkeys@[j]),
        decreases ghostkeys.len() - i,
    {
        if text::same_text(&ghostkeys[i].fingerprint, fingerprint) {
            proof {
                seqs::lemma_find_first(ghostkeys@, want, i as int);
            }
            return starting_key(start, &ghostkeys[i].verifying_key_bytes);
        }
        i = i + 1;
    }
    proof {
        seqs::lemma_find_first(ghostkeys@, want, i as int);
    }
    starting_key(start, &None)
}

/// What the seller is told when their store's details could not be published.
pub fn details_not_published(why: &str) -> (r: String)
    ensures
        r@ == "Could not publish your store's details: "@ + why@,
{
    let mut words = "Could not publish your store's details: ".to_string();
    words.append(why);
    words
}

/// What the delegate is asked about the key buyers write to.
#[derive(Debug, Clone, PartialEq, Eq)]
pub struct EncryptionKeyRequest {
    pub ghostkey_fingerprint: String,
    /// Only recall a key it holds; mint none.
    pub recall_only: bool,
}

/// What the delegate is asked about the key buyers write to, where it is
/// registered: to recall it, or to mint one where it holds none.
pub fn request_encryption_key(registered: bool, fingerprint: &str, recall_only: bool) -> (r: Option<
    EncryptionKeyRequest,
>)
    ensures
        (match r {
            Some(q) => registered && q.ghostkey_fingerprint@ == fingerprint@ && q.recall_only
                == recall_only,
            None => !registered,
        }),
{
    if !registered {
        return None;
    }
    Some(EncryptionKeyRequest { ghostkey_fingerprint: fingerprint.to_string(), recall_only })
}

/// A store is called by the name it publishes where that is not blank, and
/// else by its code; without a code it is called by its name whatever that
/// is, and without either it is the seller's store.
pub proof fn a_store_is_called_by_its_name_or_its_code(
    code: Seq<char>,
    name: Seq<char>,
)
    ensures
        (exists|i: int| 0 <= i < name.len() && !text::is_white_space(#[trigger] name[i]))
            ==> store_label(Some(code), Some(name)) == name,
        (forall|i: int| 0 <= i < name.len() ==> text::is_white_space(#[trigger] name[i]))
            ==> store_label(Some(code), Some(name)) == "Store "@ + code,
        store_label(Some(code), None) == "Store "@ + code,
        store_label(None, Some(name)) == name,
        store_label(None, None) == "Your store"@,
{
    text::a_blank_text_is_all_white_space(name);
}

/// A store publishes a name where it is loaded and has published its details,
/// and that name is the one in them.
pub proof fn a_stores_name_is_the_one_in_its_details(r: RegisteredStore)
    ensures
        published_name(r) matches Some(name) ==> (r.loaded matches Some(l) && (
        l.details matches Some(d) && d.store_name@ == name)),
        published_name(r) is None <==> (r.loaded is None || r.loaded->0.details is None),
{
}

/// A listing more counts as listed unless it was withdrawn; one that is sold
/// out counts.
pub proof fn each_listing_not_withdrawn_counts(
    listings: Seq<ListingAvailability>,
    more: ListingAvailability,
)
    ensures
        listed(Seq::empty()) == 0,
        listed(listings.push(more)) == listed(listings) + (if more is Withdrawn {
            0nat
        } else {
            1
        }),
{
    reveal(Seq::filter);
    assert(listings.push(more).drop_last() =~= listings);
}

/// An order more counts as an expired invoice exactly where it is of that
/// seller, needs to be issued again and still waits for payment.
pub proof fn each_expired_invoice_of_the_seller_counts(
    orders: Seq<SellerOrder>,
    more: SellerOrder,
    fingerprint: Seq<char>,
)
    ensures
        expired(Seq::empty(), fingerprint) == 0,
        more.seller_fingerprint@ == fingerprint && more.needs_reissue && more.awaiting_payment
            ==> expired(orders.push(more), fingerprint) == expired(orders, fingerprint) + 1,
        more.seller_fingerprint@ != fingerprint || !more.needs_reissue || !more.awaiting_payment
            ==> expired(orders.push(more), fingerprint) == expired(orders, fingerprint),
{
    reveal(Seq::filter);
    assert(orders.push(more).drop_last() =~= orders);
}

/// A store is managed here exactly where its key is known and its contract id
/// is 32 bytes long; its key reads where it is a verifying key.
pub proof fn a_store_is_managed_with_a_key_and_a_whole_id(r: RegisteredStore)
    ensures
        r.store_key is None ==> !is_managed(r) && !key_reads(r),
        r.contract_id@.len() != 32 ==> !is_managed(r),
        r.store_key is Some && r.contract_id@.len() == 32 ==> is_managed(r),
        r.store_key matches Some(k) ==> (key_reads(r) <==> keys::is_verifying_key(k@)),
{
}

/// What the seller sees of a store is what is registered and loaded of it:
/// under its own contract and Ghost Key, its gap, its requests and its
/// progress as registered; its code and its link only where its key reads;
/// its certificate, its details, its record and its counts as loaded, and
/// where it is not loaded, none.
pub proof fn a_seller_sees_the_store_as_it_stands(
    s: SellerStore,
    r: RegisteredStore,
    reads: bool,
)
    requires
        describes(s, r, reads),
    ensures
        s.contract_id@ == r.contract_id@,
        s.fingerprint@ == r.fingerprint@,
        s.gap == r.gap,
        s.requests == r.requests,
        s.details_resolved == r.details_resolved,
        s.publish_in_flight == r.publish_in_flight,
        reads ==> (s.code matches Some(code) && code@ == r.code@) && (s.link matches Some(link)
            && link@ == r.share_link@),
        !reads ==> s.code is None && s.link is None,
        s.foreign_owner is Some <==> r.foreign_owner is Some,
        s.foreign_owner matches Some(owner) ==> owner@ == r.foreign_owner->0@,
        r.loaded matches Some(l) ==> {
            &&& s.certificate == l.certificate
            &&& s.record@ == l.record@
            &&& s.listings == listed(l.listings@)
            &&& s.expired_invoices == expired(l.orders@, r.fingerprint@)
            &&& l.details matches Some(d) ==> s.details.store_name@ == d.store_name@
                && s.details.description@ == d.description@
            &&& l.details is None ==> s.details.store_name@.len() == 0 && s.details.description@.len()
                == 0
        },
        r.loaded is None ==> s.certificate is Absent && s.listings == 0 && s.expired_invoices == 0
            && s.record@ == r.unread_record@ && s.details.store_name@.len() == 0
            && s.details.description@.len() == 0,
        reads && published_name(r) is None ==> s.label@ == "Store "@ + r.code@,
        !reads && published_name(r) is None ==> s.label@ == "Your store"@,
{
}

/// The stores a seller manages are those registered that can be managed, each
/// once.
pub proof fn the_managed_stores_are_those_that_can_be(
    stores: Seq<SellerStore>,
    registrations: Seq<RegisteredStore>,
    k: int,
)
    requires
        managed_stores(stores, registrations),
        0 <= k < registrations.len(),
    ensures
        stores.len() <= registrations.len(),
        registrations[k].store_key is Some && registrations[k].contract_id@.len() == 32 ==> exists|
            i: int,
        |
            0 <= i < stores.len() && (#[trigger] stores[i]).contract_id@
                == registrations[k].contract_id@ && stores[i].fingerprint@
                == registrations[k].fingerprint@,
        forall|i: int|
            0 <= i < stores.len() ==> (#[trigger] stores[i]).contract_id@.len() == 32,
{
    let keep = |r: RegisteredStore| is_managed(r);
    let kept = registrations.filter(keep);
    registrations.lemma_filter_len(keep);
    if is_managed(registrations[k]) {
        registrations.lemma_filter_contains(keep, k);
        let i = kept.index_of(registrations[k]);
        assert(describes(stores[i], kept[i], key_reads(kept[i])));
    }
    assert forall|i: int| 0 <= i < stores.len() implies (#[trigger] stores[i]).contract_id@.len()
        == 32 by {
        registrations.lemma_filter_pred(keep, i);
        assert(describes(stores[i], kept[i], key_reads(kept[i])));
    }
}

/// A seller's stores come by their lower-case names, and under one name by
/// their contract ids.
pub proof fn a_sellers_stores_come_by_name(
    sorted: Seq<SellerStore>,
    all: Seq<SellerStore>,
    i: int,
    j: int,
)
    requires
        order::is_sorted_from(sorted, all),
        0 <= i < j < sorted.len(),
    ensures
        ({
            let first = text::lowercase(sorted[i].label@);
            let second = text::lowercase(sorted[j].label@);
            &&& !text::text_before(second, first)
            &&& first == second ==> !bytes::bytes_before(
                sorted[j].contract_id@,
                sorted[i].contract_id@,
            )
        }),
{
    order::sorted_values_stand_by_rank(sorted, all, i, j);
    let first = text::lowercase(sorted[i].label@);
    text::text_order_is_total(first, first);
}

/// Requests that wait add up over the stores.
pub proof fn requests_add_up_over_the_stores(stores: Seq<SellerStore>, more: SellerStore)
    ensures
        total_requests(Seq::empty()) == 0,
        total_requests(stores.push(more)) == total_requests(stores) + more.requests,
{
    assert(stores.push(more).drop_last() =~= stores);
}

/// A fingerprint of up to twelve bytes is shown whole, and a longer one by
/// its first twelve bytes and an ellipsis of three dots.
pub proof fn a_long_fingerprint_is_cut_after_twelve_bytes(r: Seq<char>, fp: Seq<char>)
    requires
        is_truncated(r, fp),
    ensures
        vstd::utf8::encode_utf8(fp).len() <= 12 ==> r == fp,
        vstd::utf8::encode_utf8(fp).len() > 12 ==> exists|head: Seq<char>|
            {
                &&& r == head + seq!['.', '.', '.']
                &&& #[trigger] vstd::utf8::encode_utf8(head) == vstd::utf8::encode_utf8(fp).subrange(
                    0,
                    12,
                )
            },
{
    reveal_strlit("...");
    if vstd::utf8::encode_utf8(fp).len() > 12 {
        let head = choose|head: Seq<char>|
            r == head + "..."@ && #[trigger] vstd::utf8::encode_utf8(head)
                == vstd::utf8::encode_utf8(fp).subrange(0, 12);
        assert("..."@ =~= seq!['.', '.', '.']);
        assert(r == head + seq!['.', '.', '.']);
    }
}

/// A Ghost Key is named by its trimmed label, in quotes, where that is not
/// blank, and else by its fingerprint.
pub proof fn a_ghost_key_is_named_by_its_label(r: Seq<char>, label: Seq<char>, fp: Seq<char>)
    ensures
        (exists|i: int| 0 <= i < label.len() && !text::is_white_space(#[trigger] label[i])) ==> (
        names_ghost_key(r, Some(label), fp) <==> r == "Ghost Key \u{201c}"@ + text::trimmed(label)
            + "\u{201d}"@),
        (forall|i: int| 0 <= i < label.len() ==> text::is_white_space(#[trigger] label[i])) ==> (
        names_ghost_key(r, Some(label), fp) <==> names_ghost_key(r, None, fp)),
        names_ghost_key(r, None, fp) <==> exists|short: Seq<char>| #[trigger]
            is_truncated(short, fp) && r == "Ghost Key "@ + short,
{
    text::a_blank_text_is_all_white_space(label);
}

/// The button publishes at once exactly where the form is closed and only the
/// encryption key is missing; everywhere else it opens or closes the form.
pub proof fn only_a_missing_encryption_key_is_published_at_once(
    gap: Option<StoreDetailsGap>,
    is_editing: bool,
)
    ensures
        details_action(gap, is_editing) is PublishNow <==> !is_editing && (gap matches Some(g)
            && g is NoEncryptionKey),
        details_action(gap, is_editing) is ToggleForm <==> is_editing || gap is None || !(
        gap->0 is NoEncryptionKey),
{
}

/// A tab tells its count: the listings always, the requests only where there
/// are any.
pub proof fn a_tab_tells_its_count(requests: nat, listings: nat)
    ensures
        tab_label(Tab::Overview, requests, listings) == "Overview"@,
        tab_label(Tab::Settings, requests, listings) == "Settings"@,
        tab_label(Tab::Listings, requests, listings) == "Listings ("@ + text::decimal(listings)
            + ")"@,
        tab_label(Tab::Orders, 0, listings) == "Orders"@,
        requests > 0 ==> tab_label(Tab::Orders, requests, listings) == "Orders ("@ + text::decimal(
            requests,
        ) + ")"@,
{
}

/// A store needs its seller exactly where another owns it, its details have a
/// gap, its certificate is not verified, an invoice expired or a buyer waits;
/// each alone is enough. Its details are done where they are known and have
/// no gap.
pub proof fn a_store_needs_its_seller_for_any_one_thing(store: SellerStore)
    ensures
        store.foreign_owner is Some ==> needs_seller(store),
        store.details_resolved && store.gap is Some ==> needs_seller(store),
        !(store.certificate is Verified) ==> needs_seller(store),
        store.expired_invoices > 0 ==> needs_seller(store),
        store.requests > 0 ==> needs_seller(store),
        store.foreign_owner is None && (!store.details_resolved || store.gap is None)
            && store.certificate is Verified && store.expired_invoices == 0 && store.requests == 0
            ==> !needs_seller(store),
        details_done(store) <==> store.details_resolved && store.gap is None,
{
}

/// Waiting buyers and expired invoices are told by their number.
pub proof fn what_waits_is_told_by_its_number(n: nat)
    ensures
        waiting_words(1) == "1 buyer is waiting for an invoice."@,
        n != 1 ==> waiting_words(n) == text::decimal(n) + " buyers are waiting for an invoice."@,
        n != 1 ==> text::decimal(n).is_prefix_of(expired_words(n)),
        expired_words(1)
            == "1 unpaid invoice is too old for a buyer to start paying. Issue it again if they still want it."@,
{
}

/// Creation fails exactly where something it needs is not registered, or a
/// request could not be written or sent; the words of the failure end with
/// what went wrong.
pub proof fn a_creation_fails_where_a_request_does(event: CreationEvent)
    ensures
        creation_failure(event) is None <==> {
            ||| event matches CreationEvent::Start { both_registered } && both_registered
            ||| event is CertificateAsked
            ||| event is StoreKeyAsked
        },
        event matches CreationEvent::CertificateUnwritten(e) ==> creation_failure(event) == Some(
            "serialize GetCertificate: "@ + e@,
        ),
        event matches CreationEvent::CertificateUnsent(e) ==> creation_failure(event) == Some(
            "could not ask the vault for the certificate: "@ + e@,
        ),
        event matches CreationEvent::StoreKeyUnwritten(e) ==> creation_failure(event) == Some(
            "serialize a delegate request: "@ + e@,
        ),
        event matches CreationEvent::StoreKeyUnsent(e) ==> creation_failure(event) == Some(
            "could not reach the Harvest delegate: "@ + e@,
        ),
{
}

/// The key a Ghost Key shares is that of the first of its fingerprint.
pub proof fn a_shared_key_is_found_by_its_fingerprint(
    ghostkeys: Seq<GhostKeyInfo>,
    fingerprint: Seq<char>,
)
    ensures
        (match shared_bytes(ghostkeys, fingerprint) {
            Some(b) => exists|i: int|
                {
                    &&& 0 <= i < ghostkeys.len()
                    &&& (#[trigger] ghostkeys[i]).fingerprint@ == fingerprint
                    &&& ghostkeys[i].verifying_key_bytes matches Some(k) && k@ == b
                    &&& forall|j: int|
                        0 <= j < i ==> (#[trigger] ghostkeys[j]).fingerprint@ != fingerprint
                },
            None => forall|i: int|
                {
                    &&& 0 <= i < ghostkeys.len()
                    &&& (#[trigger] ghostkeys[i]).fingerprint@ == fingerprint
                    &&& forall|j: int|
                        0 <= j < i ==> (#[trigger] ghostkeys[j]).fingerprint@ != fingerprint
                } ==> ghostkeys[i].verifying_key_bytes is None,
        }),
    decreases ghostkeys.len(),
{
    if ghostkeys.len() > 0 {
        if ghostkeys[0].fingerprint@ == fingerprint {
            assert(seqs::find_first(ghostkeys, |k: GhostKeyInfo| k.fingerprint@ == fingerprint)
                == Some(ghostkeys[0]));
            assert(shared_bytes(ghostkeys, fingerprint) == (match ghostkeys[0].verifying_key_bytes {
                Some(b) => Some(b@),
                None => None,
            }));
        } else {
            let rest = ghostkeys.skip(1);
            a_shared_key_is_found_by_its_fingerprint(rest, fingerprint);
            assert(shared_bytes(ghostkeys, fingerprint) == shared_bytes(rest, fingerprint));
            assert forall|i: int| 0 < i < ghostkeys.len() implies #[trigger] ghostkeys[i]
                == rest[i - 1] by {}
            if let Some(b) = shared_bytes(rest, fingerprint) {
                let i = choose|i: int|
                    {
                        &&& 0 <= i < rest.len()
                        &&& (#[trigger] rest[i]).fingerprint@ == fingerprint
                        &&& rest[i].verifying_key_bytes matches Some(k) && k@ == b
                        &&& forall|j: int|
                            0 <= j < i ==> (#[trigger] rest[j]).fingerprint@ != fingerprint
                    };
                assert(ghostkeys[i + 1] == rest[i]);
            } else {
                assert forall|i: int|
                    {
                        &&& 0 <= i < ghostkeys.len()
                        &&& (#[trigger] ghostkeys[i]).fingerprint@ == fingerprint
                        &&& forall|j: int|
                            0 <= j < i ==> (#[trigger] ghostkeys[j]).fingerprint@ != fingerprint
                    } implies ghostkeys[i].verifying_key_bytes is None by {
                    assert(rest[i - 1] == ghostkeys[i]);
                    assert forall|j: int| 0 <= j < i - 1 implies (
                    #[trigger] rest[j]).fingerprint@ != fingerprint by {
                        assert(rest[j] == ghostkeys[j + 1]);
                    }
                }
            }
        }
    }
}

/// A fingerprint can be cut where it is short, or where its first twelve
/// bytes end with a whole character.
pub proof fn a_fingerprint_can_be_cut_between_characters(fp: Seq<char>)
    ensures
        vstd::utf8::encode_utf8(fp).len() <= 12 ==> can_truncate(fp),
        vstd::utf8::encode_utf8(fp).len() > 12 ==> (can_truncate(fp)
            <==> vstd::utf8::is_char_boundary(vstd::utf8::encode_utf8(fp), 12)),
{
}

/// A store that cannot be started for want of a key says what was not done.
pub proof fn a_missing_key_says_what_was_not_done()
    ensures
        no_key_words(StoreStart::Create)
            == "Store creation failed: the vault has not shared this Ghost Key's public key."@,
        no_key_words(StoreStart::MoveLegacy)
            == "Could not move the store: the vault has not shared this Ghost Key's public key."@,
{
}

/// A text that may be missing is told as it is, or as missing.
pub proof fn a_text_that_may_be_missing_is_told_as_it_is(s: String)
    ensures
        text_of(Some(s)) == Some(s@),
        text_of(None) is None,
{
}

} // verus!
