//! Issuing invoices: the seller's payment key, the form that turns a listing
//! into a signed order, and the controls on the invoices already issued.

use crate::bytes;
use crate::order;
use crate::payment::{AuthorizedOrder, BitcoinNetwork, OrderStatus};
use crate::seqs;
use crate::text;
use vstd::prelude::*;

verus! {

/// The most confirmations an order may require: about a day of blocks. One
/// that needs more could not read as paid in time for a complaint about it.
pub const MAX_REQUIRED_CONFIRMATIONS: u32 = 144;

/// A network the picker offers, and the name it is offered by.
#[derive(Debug, Clone, PartialEq, Eq)]
pub struct OfferedNetwork {
    pub network: BitcoinNetwork,
    pub name: String,
}

/// The network the picker is on after a pick: the first offered under the
/// picked name, and the one it was on where none is.
pub fn pick_network(offered: &Vec<OfferedNetwork>, picked: &str, current: BitcoinNetwork) -> (r:
    BitcoinNetwork)
    ensures
        r == (match seqs::find_first(offered@, |n: OfferedNetwork| n.name@ == picked@) {
            Some(n) => n.network,
            None => current,
        }),
{
    let ghost want = |n: OfferedNetwork| n.name@ == picked@;
    let mut i: usize = 0;
    while i < offered.len()
        invariant
            i <= offered.len(),
            want == (|n: OfferedNetwork| n.name@ == picked@),
            forall|j: int| 0 <= j < i ==> !want(#[trigger] offered@[j]),
        decreases offered.len() - i,
    {
        if text::same_text(&offered[i].name, picked) {
            proof {
                seqs::lemma_find_first(offered@, want, i as int);
            }
            return offered[i].network;
        }
        i = i + 1;
    }
    proof {
        seqs::lemma_find_first(offered@, want, i as int);
    }
    current
}

/// What a picker can be on is what it started on or what is offered: a pick
/// never names a network that is not.
pub proof fn a_pick_stays_among_the_offered(
    offered: Seq<OfferedNetwork>,
    picked: Seq<char>,
    n: OfferedNetwork,
)
    requires
        seqs::find_first(offered, |n: OfferedNetwork| n.name@ == picked) == Some(n),
    ensures
        offered.contains(n),
        n.name@ == picked,
{
    seqs::lemma_find_first_is_one(offered, |n: OfferedNetwork| n.name@ == picked);
}

/// What the part of the seller's payments panel that issues invoices shows.
#[derive(Debug, Clone, Copy, PartialEq, Eq)]
pub enum IssuePanel {
    /// Nothing: no payment key is set.
    Nothing,
    /// Why nothing can be issued yet.
    Wait(&'static str),
    /// The button that opens or closes the form: its style and its words.
    Button(&'static str, &'static str),
}

/// What the part of the seller's payments panel that issues invoices shows.
/// "No listings" and "the store's state has not arrived" are kept apart: a
/// seller who has listings is not told to add one.
pub fn issue_panel(has_key: bool, store_loaded: bool, listings: usize, form_open: bool) -> (r:
    IssuePanel)
    ensures
        (if !has_key {
            r is Nothing
        } else if !store_loaded {
            r matches IssuePanel::Wait(words) && words@ == "Loading this store's listings\u{2026}"@
        } else if listings == 0 {
            r matches IssuePanel::Wait(words) && words@
                == "Add a listing first \u{2014} an invoice is issued against one, so a buyer can see what they are paying for."@
        } else if form_open {
            r matches IssuePanel::Button(style, words) && style@ == "btn btn-sm btn-outline"@
                && words@ == "Cancel"@
        } else {
            r matches IssuePanel::Button(style, words) && style@ == "btn btn-sm btn-primary"@
                && words@ == "Issue an invoice"@
        }),
{
    if !has_key {
        IssuePanel::Nothing
    } else if !store_loaded {
        IssuePanel::Wait("Loading this store's listings\u{2026}")
    } else if listings == 0 {
        IssuePanel::Wait(
            "Add a listing first \u{2014} an invoice is issued against one, so a buyer can see what they are paying for.",
        )
    } else if form_open {
        IssuePanel::Button("btn btn-sm btn-outline", "Cancel")
    } else {
        IssuePanel::Button("btn btn-sm btn-primary", "Issue an invoice")
    }
}

/// How many invoices are issued, in words; nothing where there are none.
pub fn issued_words(invoices: usize) -> (r: Option<String>)
    ensures
        (match r {
            Some(words) => invoices > 0 && words@ == text::decimal(invoices as nat)
                + " invoice(s) issued"@,
            None => invoices == 0,
        }),
{
    if invoices == 0 {
        return None;
    }
    let mut words = text::count_text(invoices);
    words.append(" invoice(s) issued");
    Some(words)
}

/// What the seller is told above an invoice nobody can pay any more; `short`
/// is its id in short.
pub fn reissue_words(needs_reissue: bool, short: &str) -> (r: Option<String>)
    ensures
        (match r {
            Some(words) => needs_reissue && words@ == "Invoice "@ + short@
                + " has expired: it is anchored to a Bitcoin block too old for a buyer's software to accept, so nobody can pay it now. Issue it again if the buyer still wants it."@,
            None => !needs_reissue,
        }),
{
    if needs_reissue {
        Some(
            text::join3(
                "Invoice ",
                short,
                " has expired: it is anchored to a Bitcoin block too old for a buyer's software to accept, so nobody can pay it now. Issue it again if the buyer still wants it.",
            ),
        )
    } else {
        None
    }
}

/// The control under an issued invoice.
#[derive(Debug, Clone, Copy, PartialEq, Eq, Structural)]
pub enum InvoiceControl {
    Cancel,
    MarkDespatched,
    /// None: there is nothing to do.
    Nothing,
}

/// The control under an issued invoice: one that awaits payment can be
/// cancelled, and one that is paid can be marked despatched.
pub fn invoice_control(status: OrderStatus) -> (r: InvoiceControl)
    ensures
        r == (match status {
            OrderStatus::AwaitingPayment => InvoiceControl::Cancel,
            OrderStatus::Paid => InvoiceControl::MarkDespatched,
            _ => InvoiceControl::Nothing,
        }),
{
    match status {
        OrderStatus::AwaitingPayment => InvoiceControl::Cancel,
        OrderStatus::Paid => InvoiceControl::MarkDespatched,
        OrderStatus::PaymentReversed => InvoiceControl::Nothing,
        OrderStatus::Cancelled => InvoiceControl::Nothing,
    }
}

/// What a control for something public and permanent shows.
#[derive(Debug, Clone, PartialEq, Eq)]
pub enum ControlState {
    /// Nothing at all.
    Hidden,
    /// Where it stands, in words.
    Note(String),
    /// The question, and the words on its two buttons.
    Question(String, &'static str, &'static str),
    /// The button, by its words.
    Button(&'static str),
}

/// The control to cancel one unpaid invoice. What could not be signed for is
/// said instead of a button that would be refused.
pub fn cancel_invoice(
    short: &str,
    pending: bool,
    unsignable: &Option<String>,
    sent: bool,
    confirming: bool,
) -> (r: ControlState)
    ensures
        (if pending {
            r matches ControlState::Note(words) && words@ == "Cancelling invoice "@ + short@
                + "\u{2026}"@
        } else if *unsignable is Some {
            r matches ControlState::Note(words) && words@ == "Invoice "@ + short@
                + " cannot be cancelled from this device yet: "@ + unsignable->0@
        } else if sent {
            r matches ControlState::Note(words) && words@ == "Cancellation of invoice "@ + short@
                + " sent. It shows here once the store has it."@
        } else if confirming {
            r matches ControlState::Question(words, yes, no) && words@ == "Cancel invoice "@ + short@
                + "? This is public and cannot be undone. If the buyer has already paid, or pays anyway, their payment still counts and you owe them the goods."@
                && yes@ == "Yes, cancel it"@ && no@ == "Keep it"@
        } else {
            r matches ControlState::Button(words) && words@ == "Cancel invoice"@
        }),
{
    if pending {
        return ControlState::Note(text::join3("Cancelling invoice ", short, "\u{2026}"));
    }
    if let Some(why) = unsignable {
        let mut words = text::join3(
            "Invoice ",
            short,
            " cannot be cancelled from this device yet: ",
        );
        words.append(why);
        return ControlState::Note(words);
    }
    if sent {
        return ControlState::Note(
            text::join3(
                "Cancellation of invoice ",
                short,
                " sent. It shows here once the store has it.",
            ),
        );
    }
    if confirming {
        return ControlState::Question(
            text::join3(
                "Cancel invoice ",
                short,
                "? This is public and cannot be undone. If the buyer has already paid, or pays anyway, their payment still counts and you owe them the goods.",
            ),
            "Yes, cancel it",
            "Keep it",
        );
    }
    ControlState::Button("Cancel invoice")
}

/// The control to record that a paid order has been sent. It is gone once a
/// despatch is on record.
pub fn mark_despatched(
    short: &str,
    recorded: bool,
    pending: bool,
    sent: bool,
    refusal: &Option<String>,
    confirming: bool,
) -> (r: ControlState)
    ensures
        (if recorded {
            r is Hidden
        } else if pending {
            r matches ControlState::Note(words) && words@ == "Recording the despatch of order "@
                + short@ + "\u{2026}"@
        } else if sent {
            r matches ControlState::Note(words) && words@ == "Despatch of order "@ + short@
                + " sent. It shows here once the store has it."@
        } else if *refusal is Some {
            r matches ControlState::Note(words) && words@ == "Order "@ + short@
                + " cannot be marked despatched yet: "@ + refusal->0@
        } else if confirming {
            r matches ControlState::Question(words, yes, no) && words@ == "Mark order "@ + short@
                + " as despatched? This is public and cannot be undone. Only do it once the goods are on their way."@
                && yes@ == "Yes, it has been sent"@ && no@ == "Not yet"@
        } else {
            r matches ControlState::Button(words) && words@ == "Mark despatched"@
        }),
{
    if recorded {
        return ControlState::Hidden;
    }
    if pending {
        return ControlState::Note(
            text::join3("Recording the despatch of order ", short, "\u{2026}"),
        );
    }
    if sent {
        return ControlState::Note(
            text::join3(
                "Despatch of order ",
                short,
                " sent. It shows here once the store has it.",
            ),
        );
    }
    if let Some(why) = refusal {
        let mut words = text::join3("Order ", short, " cannot be marked despatched yet: ");
        words.append(why);
        return ControlState::Note(words);
    }
    if confirming {
        return ControlState::Question(
            text::join3(
                "Mark order ",
                short,
                " as despatched? This is public and cannot be undone. Only do it once the goods are on their way.",
            ),
            "Yes, it has been sent",
            "Not yet",
        );
    }
    ControlState::Button("Mark despatched")
}

/// The invoices on a store that one seller issued, newest first.
///
/// The filter is on who issued the invoice rather than on who owns the store:
/// a seller with more than one connected Ghost Key sees one panel per
/// identity, and another identity's invoice is one they cannot cancel.
pub fn invoices_issued_by<'a>(orders: &'a Vec<AuthorizedOrder>, seller_fingerprint: &str) -> (r: Vec<
    &'a AuthorizedOrder,
>)
    ensures
        order::is_sorted_from(
            order::behind(r@),
            orders@.filter(
                |o: AuthorizedOrder| o.order.seller_fingerprint@ == seller_fingerprint@,
            ),
        ),
{
    let ghost keep = |o: AuthorizedOrder| o.order.seller_fingerprint@ == seller_fingerprint@;
    let mut mine: Vec<&'a AuthorizedOrder> = Vec::new();
    let mut i: usize = 0;
    proof {
        seqs::lemma_filter_none(orders@, keep);
        assert(order::behind(mine@) =~= Seq::empty());
    }
    while i < orders.len()
        invariant
            i <= orders.len(),
            keep == (|o: AuthorizedOrder| o.order.seller_fingerprint@ == seller_fingerprint@),
            order::behind(mine@) == orders@.take(i as int).filter(keep),
        decreases orders.len() - i,
    {
        proof {
            seqs::lemma_filter_step(orders@, keep, i as int);
        }
        if text::same_text(&orders[i].order.seller_fingerprint, seller_fingerprint) {
            let ghost before = mine@;
            mine.push(&orders[i]);
            assert(order::behind(mine@) =~= order::behind(before).push(orders@[i as int]));
        }
        i = i + 1;
    }
    assert(orders@.take(i as int) =~= orders@);
    order::sort_refs(mine)
}

/// What the payment-key panel shows.
#[derive(Debug, Clone, PartialEq, Eq)]
pub enum KeyPanel {
    /// Whether a key is set is not known yet: it has not been asked.
    Checking,
    /// The key that is set: what is said after the name of its network.
    Shown(String),
    /// The form that takes a key; whether it would replace one.
    Form { replacing: bool },
}

/// What the payment-key panel shows. `next_index` is how many addresses of
/// the key that is set are taken, where one is.
pub fn payment_key_panel(next_index: Option<u32>, loaded: bool, editing: bool) -> (r: KeyPanel)
    ensures
        (if !loaded {
            r is Checking
        } else {
            match next_index {
                Some(n) if !editing => r matches KeyPanel::Shown(words) && words@ == " wallet. "@
                    + text::decimal(n as nat)
                    + " address(es) from this key are already taken, counting the orders your stores have published, so the next invoice gets a new one. This key is shared by every store and every Ghost Key in this app."@,
                _ => r == (KeyPanel::Form { replacing: next_index is Some }),
            }
        }),
{
    if !loaded {
        return KeyPanel::Checking;
    }
    match next_index {
        Some(n) => if editing {
            KeyPanel::Form { replacing: true }
        } else {
            KeyPanel::Shown(
                text::join3(
                    " wallet. ",
                    &text::decimal_text(n as u64),
                    " address(es) from this key are already taken, counting the orders your stores have published, so the next invoice gets a new one. This key is shared by every store and every Ghost Key in this app.",
                ),
            )
        },
        None => KeyPanel::Form { replacing: false },
    }
}

/// The payment key a form submits: trimmed, and none where it is blank.
pub fn submitted_key(typed: &str) -> (r: Option<String>)
    ensures
        (match r {
            Some(key) => key@ == text::trimmed(typed@) && key@.len() > 0,
            None => text::trimmed(typed@).len() == 0,
        }),
{
    let key = text::trim(typed);
    if key.is_empty() {
        None
    } else {
        Some(key.to_string())
    }
}

/// What the seller is told when a payment key could not be saved.
pub fn key_not_saved(why: &str) -> (r: String)
    ensures
        r@ == "Could not save your payment key: "@ + why@,
{
    let mut words = "Could not save your payment key: ".to_string();
    words.append(why);
    words
}

/// An instant-checkout request that an order answers: the id its order would
/// have, and when it was made by the buyer's clock, in milliseconds.
#[derive(Debug, Clone, Copy, PartialEq, Eq)]
pub struct AnsweredRequest {
    pub order_id: [u8; 32],
    pub requested_at_ms: i64,
}

/// An invoice to be issued.
#[derive(Debug, Clone, PartialEq, Eq)]
pub struct PendingInvoice {
    pub store_contract_id: Vec<u8>,
    pub seller_fingerprint: String,
    pub listing_id: [u8; 32],
    pub listing_title: String,
    /// A label only: Bitcoin cannot say who sent a payment.
    pub buyer_fingerprint: String,
    pub amount_sats: u64,
    pub required_confirmations: u32,
    /// The conversation to answer into, where the invoice answers a request.
    pub reply_to: Option<[u8; 32]>,
    /// The buyer's own value, carried from their request.
    pub order_binding: Option<[u8; 32]>,
    pub buyer_receipt_key: Option<[u8; 32]>,
    pub answers_request: Option<AnsweredRequest>,
}

/// A listing an invoice can be issued for, with the text its id shows as.
#[derive(Debug, Clone, PartialEq, Eq)]
pub struct InvoiceListing {
    pub id: [u8; 32],
    pub shown_id: String,
    pub title: String,
}

/// A positive whole number, if the text is one.
pub open spec fn typed_amount(typed: Seq<char>) -> Option<u64> {
    match text::parsed_at_most(text::trimmed(typed), u64::MAX as nat) {
        Some(n) => if n > 0 {
            Some(n as u64)
        } else {
            None
        },
        None => None,
    }
}

/// An amount in satoshis: a whole number greater than zero.
pub fn parse_amount(typed: &str) -> (r: Option<u64>)
    ensures
        r == typed_amount(typed@),
{
    match text::parse_u64(text::trim(typed)) {
        Some(n) => if n > 0 {
            Some(n)
        } else {
            None
        },
        None => None,
    }
}

/// What the form says under an amount that does not read. A blank one is
/// passed over in silence.
pub fn amount_warning(typed: &str) -> (r: Option<&'static str>)
    ensures
        (match r {
            Some(words) => text::trimmed(typed@).len() > 0 && typed_amount(typed@) is None && words@
                == "Enter the amount as a whole number of satoshis, greater than zero."@,
            None => text::trimmed(typed@).len() == 0 || typed_amount(typed@) is Some,
        }),
{
    if !text::trim(typed).is_empty() && parse_amount(typed).is_none() {
        Some("Enter the amount as a whole number of satoshis, greater than zero.")
    } else {
        None
    }
}

/// What the confirmations a seller typed come to.
pub open spec fn typed_confirmations(typed: Seq<char>) -> Result<u32, Seq<char>> {
    match text::parsed_at_most(text::trimmed(typed), u32::MAX as nat) {
        Some(n) => if n > MAX_REQUIRED_CONFIRMATIONS {
            Err(
                "At most "@ + text::decimal(MAX_REQUIRED_CONFIRMATIONS as nat)
                    + " confirmations, about a day of blocks. An order needing more could not count as paid in time for a buyer to complain about it, so buyers will not pay it."@,
            )
        } else if n > 0 {
            Ok(n as u32)
        } else {
            Err(no_confirmations())
        },
        None => Err(no_confirmations()),
    }
}

/// Why an order may not require no confirmations.
pub open spec fn no_confirmations() -> Seq<char> {
    "At least one confirmation. Accepting zero would count a payment as settled while it is still only in the mempool, where it can still be replaced."@
}

/// The confirmations a seller typed, or why an order may not require that
/// many: at least one, since a payment in the mempool can still be replaced,
/// and at most [`MAX_REQUIRED_CONFIRMATIONS`].
pub fn parse_required_confirmations(input: &str) -> (r: Result<u32, String>)
    ensures
        (match r {
            Ok(n) => typed_confirmations(input@) == Ok::<u32, Seq<char>>(n),
            Err(why) => typed_confirmations(input@) == Err::<u32, Seq<char>>(why@),
        }),
{
    match text::parse_u32(text::trim(input)) {
        Some(n) => if n > MAX_REQUIRED_CONFIRMATIONS {
            Err(
                text::join3(
                    "At most ",
                    &text::decimal_text(MAX_REQUIRED_CONFIRMATIONS as u64),
                    " confirmations, about a day of blocks. An order needing more could not count as paid in time for a buyer to complain about it, so buyers will not pay it.",
                ),
            )
        } else if n > 0 {
            Ok(n)
        } else {
            Err(
                "At least one confirmation. Accepting zero would count a payment as settled while it is still only in the mempool, where it can still be replaced.".to_string(),
            )
        },
        None => Err(
            "At least one confirmation. Accepting zero would count a payment as settled while it is still only in the mempool, where it can still be replaced.".to_string(),
        ),
    }
}

/// The confirmations that are taken are from one up to the cap.
pub proof fn required_confirmations_are_within_the_cap(typed: Seq<char>)
    ensures
        typed_confirmations(typed) matches Ok(n) ==> 1 <= n <= MAX_REQUIRED_CONFIRMATIONS,
{
}

/// What an invoice form holds.
#[derive(Debug, Clone, PartialEq, Eq)]
pub struct InvoiceDraft {
    /// The listing, by the text its id shows as: a place in the list would go
    /// wrong the moment the list changes under an open form.
    pub chosen: String,
    pub amount: String,
    pub buyer: String,
    pub confirmations: String,
}

/// What submitting an invoice form comes to.
#[derive(Debug, Clone, PartialEq, Eq)]
pub enum InvoiceSubmit {
    /// Nothing: a number does not read.
    Nothing,
    /// The chosen listing is gone: what the seller is told.
    ListingGone(&'static str),
    Issue(PendingInvoice),
}

/// The listing a form has chosen.
pub open spec fn chosen_listing(listings: Seq<InvoiceListing>, chosen: Seq<char>) -> Option<
    InvoiceListing,
> {
    seqs::find_first(listings, |l: InvoiceListing| l.shown_id@ == chosen)
}

fn find_listing<'a>(listings: &'a Vec<InvoiceListing>, chosen: &str) -> (r: Option<
    &'a InvoiceListing,
>)
    ensures
        (match r {
            Some(l) => chosen_listing(listings@, chosen@) == Some(*l),
            None => chosen_listing(listings@, chosen@) is None,
        }),
{
    let ghost want = |l: InvoiceListing| l.shown_id@ == chosen@;
    let mut i: usize = 0;
    while i < listings.len()
        invariant
            i <= listings.len(),
            want == (|l: InvoiceListing| l.shown_id@ == chosen@),
            forall|j: int| 0 <= j < i ==> !want(#[trigger] listings@[j]),
        decreases listings.len() - i,
    {
        if text::same_text(&listings[i].shown_id, chosen) {
            proof {
                seqs::lemma_find_first(listings@, want, i as int);
            }
            return Some(&listings[i]);
        }
        i = i + 1;
    }
    proof {
        seqs::lemma_find_first(listings@, want, i as int);
    }
    None
}

impl InvoiceDraft {
    /// The form as it opens: on the first listing, requiring one
    /// confirmation.
    pub fn open(listings: &Vec<InvoiceListing>) -> (r: Self)
        ensures
            r.chosen@ == (if listings@.len() > 0 {
                listings@[0].shown_id@
            } else {
                Seq::empty()
            }),
            r.amount@.len() == 0,
            r.buyer@.len() == 0,
            r.confirmations@ == "1"@,
    {
        let chosen = if listings.len() > 0 {
            listings[0].shown_id.clone()
        } else {
            String::new()
        };
        InvoiceDraft {
            chosen,
            amount: String::new(),
            buyer: String::new(),
            confirmations: "1".to_string(),
        }
    }

    /// Whether the button that issues the invoice is on.
    pub fn is_ready(&self) -> (r: bool)
        ensures
            r == (typed_amount(self.amount@) is Some && typed_confirmations(self.confirmations@) is Ok),
    {
        parse_amount(&self.amount).is_some() && parse_required_confirmations(
            &self.confirmations,
        ).is_ok()
    }

    /// Submit the form. The invoice is written from scratch: it answers no
    /// request, so it carries no buyer's value and no conversation. Issuing
    /// it clears the amount and the buyer.
    pub fn submit(
        &mut self,
        store_contract_id: &Vec<u8>,
        seller_fingerprint: &str,
        listings: &Vec<InvoiceListing>,
    ) -> (r: InvoiceSubmit)
        ensures
            (match chosen_listing(listings@, old(self).chosen@) {
                None => {
                    &&& r matches InvoiceSubmit::ListingGone(words)
                    &&& words@
                        == "That listing is no longer on this store \u{2014} pick another."@
                    &&& *final(self) == *old(self)
                },
                Some(l) => if typed_amount(old(self).amount@) is None || typed_confirmations(
                    old(self).confirmations@,
                ) is Err {
                    r is Nothing && *final(self) == *old(self)
                } else {
                    &&& r matches InvoiceSubmit::Issue(i)
                    &&& i.store_contract_id@ == store_contract_id@ && i.seller_fingerprint@
                        == seller_fingerprint@
                    &&& i.listing_id == l.id && i.listing_title@ == l.title@
                    &&& i.buyer_fingerprint@ == text::trimmed(old(self).buyer@)
                    &&& Some(i.amount_sats) == typed_amount(old(self).amount@)
                    &&& typed_confirmations(old(self).confirmations@) == Ok::<u32, Seq<char>>(
                        i.required_confirmations,
                    )
                    &&& i.reply_to is None && i.order_binding is None && i.buyer_receipt_key is None
                        && i.answers_request is None
                    &&& final(self).chosen == old(self).chosen && final(self).confirmations
                        == old(self).confirmations
                    &&& final(self).amount@.len() == 0 && final(self).buyer@.len() == 0
                },
            }),
    {
        let listing = match find_listing(listings, &self.chosen) {
            Some(listing) => listing,
            None => {
                return InvoiceSubmit::ListingGone(
                    "That listing is no longer on this store \u{2014} pick another.",
                );
            },
        };
        let amount_sats: u64 = match parse_amount(&self.amount) {
            Some(n) => n,
            None => {
                return InvoiceSubmit::Nothing;
            },
        };
        let required_confirmations: u32 = match parse_required_confirmations(&self.confirmations) {
            Ok(n) => n,
            Err(_) => {
                return InvoiceSubmit::Nothing;
            },
        };
        let invoice = PendingInvoice {
            store_contract_id: bytes::copy_bytes(store_contract_id),
            seller_fingerprint: seller_fingerprint.to_string(),
            listing_id: listing.id,
            listing_title: listing.title.clone(),
            buyer_fingerprint: text::trim(&self.buyer).to_string(),
            amount_sats,
            required_confirmations,
            reply_to: None,
            order_binding: None,
            buyer_receipt_key: None,
            answers_request: None,
        };
        self.amount = String::new();
        self.buyer = String::new();
        InvoiceSubmit::Issue(invoice)
    }
}

/// What the seller is told once issuing an invoice was tried.
pub fn issue_invoice(title: &str, outcome: &Result<(), String>) -> (r: String)
    ensures
        r@ == (match *outcome {
            Ok(_) => "Issuing an invoice for '"@ + title@ + "'\u{2026}"@,
            Err(why) => "Could not issue an invoice: "@ + why@,
        }),
{
    match outcome {
        Ok(_) => text::join3("Issuing an invoice for '", title, "'\u{2026}"),
        Err(why) => {
            let mut words = "Could not issue an invoice: ".to_string();
            words.append(why);
            words
        },
    }
}

/// An amount is read exactly where what is typed, trimmed, is a whole number
/// of at least one that fits, and it is that number.
pub proof fn an_amount_is_a_whole_number_over_zero(typed: Seq<char>)
    ensures
        typed_amount(typed) matches Some(n) ==> n > 0 && text::parsed_number(text::trimmed(typed))
            == Some(n as nat),
        text::parsed_number(text::trimmed(typed)) matches Some(n) ==> (1 <= n <= u64::MAX
            ==> typed_amount(typed) == Some(n as u64)),
        text::parsed_number(text::trimmed(typed)) is None ==> typed_amount(typed) is None,
        text::parsed_number(text::trimmed(typed)) == Some(0nat) ==> typed_amount(typed) is None,
{
}

/// Confirmations are taken exactly where what is typed, trimmed, is a whole
/// number from one to a hundred and forty-four, and they are that number; too
/// many and too few are told apart.
pub proof fn confirmations_are_a_whole_number_up_to_a_day_of_blocks(typed: Seq<char>, n: u32)
    ensures
        typed_confirmations(typed) == Ok::<u32, Seq<char>>(n) <==> text::parsed_number(
            text::trimmed(typed),
        ) == Some(n as nat) && 1 <= n <= 144,
        text::parsed_number(text::trimmed(typed)) is None ==> typed_confirmations(typed) == Err::<
            u32,
            Seq<char>,
        >(no_confirmations()),
        text::parsed_number(text::trimmed(typed)) == Some(0nat) ==> typed_confirmations(typed)
            == Err::<u32, Seq<char>>(no_confirmations()),
        text::parsed_number(text::trimmed(typed)) matches Some(m) ==> (144 < m <= u32::MAX
            ==> typed_confirmations(typed) == Err::<u32, Seq<char>>(
            "At most "@ + text::decimal(144)
                + " confirmations, about a day of blocks. An order needing more could not count as paid in time for a buyer to complain about it, so buyers will not pay it."@,
        )),
{
}

/// The listing an invoice is for is the first whose id shows as the chosen
/// one, and it is gone only where none does.
pub proof fn the_chosen_listing_is_found_by_its_shown_id(
    listings: Seq<InvoiceListing>,
    chosen: Seq<char>,
)
    ensures
        (match chosen_listing(listings, chosen) {
            Some(l) => exists|i: int|
                {
                    &&& 0 <= i < listings.len()
                    &&& #[trigger] listings[i] == l
                    &&& l.shown_id@ == chosen
                    &&& forall|j: int| 0 <= j < i ==> (#[trigger] listings[j]).shown_id@ != chosen
                },
            None => forall|i: int|
                0 <= i < listings.len() ==> (#[trigger] listings[i]).shown_id@ != chosen,
        }),
    decreases listings.len(),
{
    if listings.len() > 0 {
        if listings[0].shown_id@ == chosen {
            assert(chosen_listing(listings, chosen) == Some(listings[0]));
        } else {
            let rest = listings.skip(1);
            the_chosen_listing_is_found_by_its_shown_id(rest, chosen);
            assert(chosen_listing(listings, chosen) == chosen_listing(rest, chosen));
            if let Some(l) = chosen_listing(rest, chosen) {
                let i = choose|i: int|
                    {
                        &&& 0 <= i < rest.len()
                        &&& #[trigger] rest[i] == l
                        &&& l.shown_id@ == chosen
                        &&& forall|j: int|
                            0 <= j < i ==> (#[trigger] rest[j]).shown_id@ != chosen
                    };
                assert(listings[i + 1] == rest[i]);
                assert forall|j: int| 0 <= j < i + 1 implies (
                #[trigger] listings[j]).shown_id@ != chosen by {
                    if j > 0 {
                        assert(listings[j] == rest[j - 1]);
                    }
                }
            } else {
                assert forall|i: int| 0 <= i < listings.len() implies (
                #[trigger] listings[i]).shown_id@ != chosen by {
                    if i > 0 {
                        assert(listings[i] == rest[i - 1]);
                    }
                }
            }
        }
    }
}

} // verus!
