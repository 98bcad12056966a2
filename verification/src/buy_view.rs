//! Buying: the buyer's request, what has to be true before they pay, and the
//! control a seller accepts with.

use crate::bytes;
use crate::invoice_form::{self, AnsweredRequest, ControlState, PendingInvoice};
use crate::keys;
use crate::listing::{ChoiceGroup, DeliveryPrice, Listing};
use crate::message_view::{
    self, Addressing, ConversationMessage, DeliveryStep, MessageContent, StepView,
};
use crate::my_store;
use crate::order::{self, Ranked};
use crate::payment::{AuthorizedOrder, OrderStatus};
use crate::random;
use crate::reputation_view::{self, FeedbackCategory};
use crate::seqs;
use crate::text;
use vstd::prelude::*;

verus! {

/// What a buyer has filled in.
#[derive(Debug, Clone, PartialEq, Eq)]
pub struct BuyDraft {
    pub quantity: String,
    pub shipping: String,
    pub note: String,
    /// The region to deliver to; empty where none is chosen.
    pub region: String,
    /// One for each choice the listing has; empty where none is picked.
    pub picks: Vec<String>,
}

/// A positive quantity, if the text is one.
pub open spec fn typed_quantity(typed: Seq<char>) -> Option<u32> {
    match text::parsed_at_most(text::trimmed(typed), u32::MAX as nat) {
        Some(n) => if n > 0 {
            Some(n as u32)
        } else {
            None
        },
        None => None,
    }
}

/// A quantity: a whole number greater than zero.
pub fn parse_wanted(typed: &str) -> (r: Option<u32>)
    ensures
        r == typed_quantity(typed@),
{
    match text::parse_u32(text::trim(typed)) {
        Some(n) => if n > 0 {
            Some(n)
        } else {
            None
        },
        None => None,
    }
}

/// Whether every choice was picked from.
pub open spec fn all_picked(picks: Seq<String>) -> bool {
    forall|i: int| 0 <= i < picks.len() ==> (#[trigger] picks[i])@.len() > 0
}

/// The region chosen, if one is.
pub open spec fn chosen_region(region: Seq<char>) -> Option<Seq<char>> {
    if region.len() > 0 {
        Some(region)
    } else {
        None
    }
}

/// Whether a request can be sent. `total` is the instant total of what was
/// picked, where there is one.
pub open spec fn can_request(d: BuyDraft, instant: bool, total: Option<u64>) -> bool {
    &&& typed_quantity(d.quantity@) is Some
    &&& text::trimmed(d.shipping@).len() > 0
    &&& all_picked(d.picks@)
    &&& instant ==> total is Some
}

/// What instant checkout adds to a request.
#[derive(Debug, Clone, PartialEq, Eq)]
pub struct InstantSelection {
    pub nonce: [u8; 16],
    pub region: Option<String>,
    pub choices: Vec<String>,
    pub expected_total_sats: u64,
    pub requested_at_ms: i64,
}

/// A request to buy, ready to be sealed.
#[derive(Debug, Clone, PartialEq, Eq)]
pub struct BuyRequest {
    pub quantity: u32,
    pub shipping: String,
    pub note: String,
    pub selection: Option<InstantSelection>,
}

/// A request nonce fresh from the random source; none where that fails. Only
/// a buyer's own resends reuse one, and the form never resends.
pub fn fresh_nonce() -> (r: Option<[u8; 16]>) {
    random::random_bytes()
}

impl BuyDraft {
    /// The form as it opens on a listing with this many choices.
    pub fn open(choices: usize) -> (r: Self)
        ensures
            r.quantity@ == "1"@,
            r.shipping@.len() == 0,
            r.note@.len() == 0,
            r.region@.len() == 0,
            r.picks@.len() == choices,
            forall|i: int| 0 <= i < choices ==> (#[trigger] r.picks@[i])@.len() == 0,
    {
        let mut picks: Vec<String> = Vec::new();
        let mut i: usize = 0;
        while i < choices
            invariant
                i <= choices,
                picks@.len() == i,
                forall|j: int| 0 <= j < i ==> (#[trigger] picks@[j])@.len() == 0,
            decreases choices - i,
        {
            picks.push(String::new());
            i = i + 1;
        }
        BuyDraft {
            quantity: "1".to_string(),
            shipping: String::new(),
            note: String::new(),
            region: String::new(),
            picks,
        }
    }

    /// What the listing's terms are asked for the total of: how many, and for
    /// which region. Nothing is asked where the request is for a quote, or
    /// the quantity does not read.
    pub fn total_question(&self, instant: bool) -> (r: Option<(u32, Option<String>)>)
        ensures
            (match r {
                Some((quantity, region)) => {
                    &&& instant
                    &&& typed_quantity(self.quantity@) == Some(quantity)
                    &&& my_store::text_of(region) == chosen_region(self.region@)
                },
                None => !instant || typed_quantity(self.quantity@) is None,
            }),
    {
        if !instant {
            return None;
        }
        match parse_wanted(&self.quantity) {
            Some(quantity) => Some((quantity, self.region_chosen())),
            None => None,
        }
    }

    fn region_chosen(&self) -> (r: Option<String>)
        ensures
            my_store::text_of(r) == chosen_region(self.region@),
    {
        if self.region.as_str().unicode_len() == 0 {
            None
        } else {
            Some(self.region.clone())
        }
    }

    fn picked_all(&self) -> (r: bool)
        ensures
            r == all_picked(self.picks@),
    {
        let mut i: usize = 0;
        while i < self.picks.len()
            invariant
                i <= self.picks.len(),
                forall|j: int| 0 <= j < i ==> (#[trigger] self.picks@[j])@.len() > 0,
            decreases self.picks.len() - i,
        {
            if self.picks[i].as_str().unicode_len() == 0 {
                return false;
            }
            i = i + 1;
        }
        true
    }

    /// Whether the button that sends the request is on.
    pub fn is_ready(&self, instant: bool, total: Option<u64>) -> (r: bool)
        ensures
            r == can_request(*self, instant, total),
    {
        parse_wanted(&self.quantity).is_some() && !text::trim(&self.shipping).is_empty()
            && self.picked_all() && (!instant || total.is_some())
    }

    /// The request a click sends, as far as the quantity reads and, for an
    /// instant one, there is a total and a nonce. The text is trimmed. A
    /// quote request carries the picks in its note: the seller reads the
    /// note, and the request has no other place for them.
    pub fn request(
        &self,
        listing: &Listing,
        instant: bool,
        total: Option<u64>,
        nonce: Option<[u8; 16]>,
        now_ms: u64,
    ) -> (r: Option<BuyRequest>)
        ensures
            (if typed_quantity(self.quantity@) is None || (instant && (total is None || nonce is None)) {
                r is None
            } else {
                &&& r matches Some(q)
                &&& Some(q.quantity) == typed_quantity(self.quantity@)
                &&& q.shipping@ == text::trimmed(self.shipping@)
                &&& (if instant {
                    &&& q.note@ == text::trimmed(self.note@)
                    &&& q.selection matches Some(s)
                    &&& Some(s.nonce) == nonce && Some(s.expected_total_sats) == total
                    &&& my_store::text_of(s.region) == chosen_region(self.region@)
                    &&& text::texts(s.choices@) == text::texts(self.picks@)
                    &&& s.requested_at_ms == now_ms as i64
                } else {
                    &&& q.note@ == picked_note(
                        listing.choices@,
                        self.picks@,
                        text::trimmed(self.note@),
                    )
                    &&& q.selection is None
                })
            }),
    {
        let quantity: u32 = match parse_wanted(&self.quantity) {
            Some(quantity) => quantity,
            None => {
                return None;
            },
        };
        let shipping = text::trim(&self.shipping).to_string();
        if !instant {
            let note = note_with_picks(listing, &self.picks, text::trim(&self.note));
            return Some(BuyRequest { quantity, shipping, note, selection: None });
        }
        let expected_total_sats: u64 = match total {
            Some(total) => total,
            None => {
                return None;
            },
        };
        let nonce = match nonce {
            Some(nonce) => nonce,
            None => {
                return None;
            },
        };
        let selection = InstantSelection {
            nonce,
            region: self.region_chosen(),
            choices: copy_texts(&self.picks),
            expected_total_sats,
            requested_at_ms: now_ms as i64,
        };
        Some(
            BuyRequest {
                quantity,
                shipping,
                note: text::trim(&self.note).to_string(),
                selection: Some(selection),
            },
        )
    }
}

/// Whether the form buys at once: where the listing offers it, unless the
/// buyer would rather ask for a total.
pub fn buys_at_once(offered: bool, quote_instead: bool) -> (r: bool)
    ensures
        r == (offered && !quote_instead),
{
    offered && !quote_instead
}

/// The words on the form.
#[derive(Debug, Clone, Copy, PartialEq, Eq)]
pub struct BuyWords {
    pub intro: &'static str,
    pub button: &'static str,
    /// Whether the buyer is offered to ask for a total instead.
    pub offers_quote: bool,
}

/// The words on the form.
pub fn buy_words(instant: bool) -> (r: BuyWords)
    ensures
        r.intro@ == (if instant {
            "Your address is encrypted to this seller before it leaves your browser and is not part of anything they publish. Buying commits you to nothing until you pay: the seller's store issues the order, and you decide whether to pay it."@
        } else {
            "Your address is encrypted to this seller before it leaves your browser and is not part of anything they publish. Sending this commits you to nothing: the seller decides whether to accept, and you decide whether to pay."@
        }),
        r.button@ == (if instant {
            "Buy now"@
        } else {
            "Send this request"@
        }),
        r.offers_quote == instant,
{
    if instant {
        BuyWords {
            intro: "Your address is encrypted to this seller before it leaves your browser and is not part of anything they publish. Buying commits you to nothing until you pay: the seller's store issues the order, and you decide whether to pay it.",
            button: "Buy now",
            offers_quote: true,
        }
    } else {
        BuyWords {
            intro: "Your address is encrypted to this seller before it leaves your browser and is not part of anything they publish. Sending this commits you to nothing: the seller decides whether to accept, and you decide whether to pay.",
            button: "Send this request",
            offers_quote: false,
        }
    }
}

/// What is kept of a request that was sent: an instant one is waited for, and
/// only answers beyond those already there answer it.
pub fn sent_now(request: &BuyRequest, now_ms: u64, answers: usize) -> (r: Option<Sent>)
    ensures
        r == (if request.selection is Some {
            Some(Sent { at_ms: now_ms, answers_before: answers })
        } else {
            None
        }),
{
    if request.selection.is_some() {
        Some(Sent { at_ms: now_ms, answers_before: answers })
    } else {
        None
    }
}

fn copy_texts(list: &Vec<String>) -> (r: Vec<String>)
    ensures
        text::texts(r@) == text::texts(list@),
{
    let mut r: Vec<String> = Vec::new();
    let mut i: usize = 0;
    while i < list.len()
        invariant
            i <= list.len(),
            r@.len() == i,
            forall|j: int| 0 <= j < i ==> (#[trigger] r@[j])@ == list@[j]@,
        decreases list.len() - i,
    {
        r.push(list[i].clone());
        i = i + 1;
    }
    assert(text::texts(r@) =~= text::texts(list@));
    r
}

/// The regions a listing delivers to, where it prices them apart.
pub fn delivery_regions(listing: &Listing) -> (r: Vec<String>)
    ensures
        text::texts(r@) == (match listing.checkout {
            Some(checkout) => match checkout.delivery {
                DeliveryPrice::ByRegion(rows) => Seq::new(
                    rows@.len(),
                    |i: int| rows@[i].region@,
                ),
                DeliveryPrice::Included => Seq::empty(),
            },
            None => Seq::empty(),
        }),
{
    let mut r: Vec<String> = Vec::new();
    if let Some(checkout) = &listing.checkout {
        if let DeliveryPrice::ByRegion(rows) = &checkout.delivery {
            let mut i: usize = 0;
            while i < rows.len()
                invariant
                    i <= rows.len(),
                    r@.len() == i,
                    forall|j: int| 0 <= j < i ==> (#[trigger] r@[j])@ == rows@[j].region@,
                decreases rows.len() - i,
            {
                r.push(rows[i].region.clone());
                i = i + 1;
            }
            assert(text::texts(r@) =~= Seq::new(rows@.len(), |i: int| rows@[i].region@));
            return r;
        }
    }
    assert(text::texts(r@) =~= Seq::empty());
    r
}

/// The lines that say what was picked, one for each choice with a pick.
pub open spec fn pick_lines(choices: Seq<ChoiceGroup>, picks: Seq<String>) -> Seq<Seq<char>> {
    Seq::new(
        if choices.len() < picks.len() {
            choices.len()
        } else {
            picks.len()
        },
        |i: int| choices[i].name@ + ": "@ + picks[i]@,
    )
}

/// A note with the picks in front of it, one on each line.
pub open spec fn picked_note(choices: Seq<ChoiceGroup>, picks: Seq<String>, note: Seq<char>) -> Seq<
    char,
> {
    text::joined(
        if note.len() > 0 {
            pick_lines(choices, picks).push(note)
        } else {
            pick_lines(choices, picks)
        },
        "\n"@,
    )
}

/// The buyer's note, with the choices they picked in front of it, one per
/// line ("Flavour: Fig").
pub fn note_with_picks(listing: &Listing, picks: &Vec<String>, note: &str) -> (r: String)
    ensures
        r@ == picked_note(listing.choices@, picks@, note@),
{
    let ghost want = pick_lines(listing.choices@, picks@);
    let mut lines: Vec<String> = Vec::new();
    let mut i: usize = 0;
    while i < listing.choices.len() && i < picks.len()
        invariant
            i <= want.len(),
            want == pick_lines(listing.choices@, picks@),
            lines@.len() == i,
            forall|j: int| 0 <= j < i ==> (#[trigger] lines@[j])@ == want[j],
        decreases want.len() - i,
    {
        lines.push(text::join3(&listing.choices[i].name, ": ", &picks[i]));
        i = i + 1;
    }
    assert(text::texts(lines@) =~= want);
    if note.unicode_len() > 0 {
        let ghost before = lines@;
        lines.push(note.to_string());
        assert(text::texts(lines@) =~= text::texts(before).push(note@));
    }
    text::join(&lines, "\n")
}

/// An instant request that was sent: when, and how many seller answers the
/// thread held at that moment.
#[derive(Debug, Clone, Copy, PartialEq, Eq, Structural)]
pub struct Sent {
    pub at_ms: u64,
    pub answers_before: usize,
}

/// How long a buyer waits for the seller's store before being told it is not
/// answering.
pub const INSTANT_WAIT_MS: u64 = 30_000;

/// Where an instant request stands, as the buyer is told.
#[derive(Debug, Clone, Copy, PartialEq, Eq, Structural)]
pub enum InstantWait {
    Waiting,
    Answered,
    /// Nothing yet after [`INSTANT_WAIT_MS`]. The request is still valid, and
    /// an answer arriving later is still shown.
    NotResponding,
}

/// Where an instant request stands: answered as soon as there is an answer,
/// however late; else not responding from [`INSTANT_WAIT_MS`] on. A clock
/// that went backwards is still waiting.
pub fn instant_wait(sent_at_ms: u64, now_ms: u64, answered: bool) -> (r: InstantWait)
    ensures
        r == (if answered {
            InstantWait::Answered
        } else if now_ms >= sent_at_ms + INSTANT_WAIT_MS {
            InstantWait::NotResponding
        } else {
            InstantWait::Waiting
        }),
{
    if answered {
        InstantWait::Answered
    } else if now_ms >= sent_at_ms && now_ms - sent_at_ms >= INSTANT_WAIT_MS {
        InstantWait::NotResponding
    } else {
        InstantWait::Waiting
    }
}

/// Whether a message answers a request: an acceptance or a decline addressed
/// to the buyer.
pub open spec fn is_answer(m: ConversationMessage) -> bool {
    m.addressing == Addressing::ToBuyer && (m.content is OrderAccepted || m.content is Decline)
}

/// How many answers from the seller the buyer's thread holds. Counted before
/// and after a request, it does not depend on the seller's clock.
pub fn seller_answers(thread: &Vec<ConversationMessage>) -> (n: usize)
    ensures
        n == thread@.filter(|m: ConversationMessage| is_answer(m)).len(),
{
    let ghost keep = |m: ConversationMessage| is_answer(m);
    let mut n: usize = 0;
    let mut i: usize = 0;
    proof {
        seqs::lemma_filter_none(thread@, keep);
    }
    while i < thread.len()
        invariant
            i <= thread.len(),
            n <= i,
            keep == (|m: ConversationMessage| is_answer(m)),
            n == thread@.take(i as int).filter(keep).len(),
        decreases thread.len() - i,
    {
        proof {
            seqs::lemma_filter_step(thread@, keep, i as int);
        }
        if thread[i].addressing == Addressing::ToBuyer {
            match &thread[i].content {
                MessageContent::OrderAccepted { .. } => {
                    n = n + 1;
                },
                MessageContent::Decline { .. } => {
                    n = n + 1;
                },
                MessageContent::Text(_) => {},
                MessageContent::InitiateTransaction { .. } => {},
                MessageContent::AcceptTransaction { .. } => {},
                MessageContent::OrderRequest { .. } => {},
            }
        }
        i = i + 1;
    }
    assert(thread@.take(i as int) =~= thread@);
    n
}

/// What a buyer is told about a request that was sent.
pub fn sent_words(
    title: &str,
    sent: &Option<Sent>,
    now_ms: u64,
    answers: usize,
) -> (r: String)
    ensures
        r@ == (match *sent {
            None => "Your request for "@ + title@
                + " has been handed to your Freenet node. Harvest checks that it shows up in the seller's mailbox, and says so under \"Your conversation\" if it does not. The seller has to publish the order publicly before you can pay for it, and it will appear under \"Your purchases\" below when they do."@,
            Some(sent) => if answers > sent.answers_before {
                "The seller's store has answered. Their reply is under \"Your conversation\", and an accepted order appears under \"Your purchases\" below."@
            } else if now_ms >= sent.at_ms + INSTANT_WAIT_MS {
                "The seller's store isn't responding right now. Your request is saved and they'll see it when they're back."@
            } else {
                "Your order for "@ + title@
                    + " has been sent. Waiting for the seller's store to answer; this usually takes a few seconds."@
            },
        }),
{
    match sent {
        None => text::join3(
            "Your request for ",
            title,
            " has been handed to your Freenet node. Harvest checks that it shows up in the seller's mailbox, and says so under \"Your conversation\" if it does not. The seller has to publish the order publicly before you can pay for it, and it will appear under \"Your purchases\" below when they do.",
        ),
        Some(sent) => match instant_wait(sent.at_ms, now_ms, answers > sent.answers_before) {
            InstantWait::Answered => "The seller's store has answered. Their reply is under \"Your conversation\", and an accepted order appears under \"Your purchases\" below.".to_string(),
            InstantWait::NotResponding => "The seller's store isn't responding right now. Your request is saved and they'll see it when they're back.".to_string(),
            InstantWait::Waiting => text::join3(
                "Your order for ",
                title,
                " has been sent. Waiting for the seller's store to answer; this usually takes a few seconds.",
            ),
        },
    }
}

/// What the buyer's own record calls a request.
pub open spec fn record_words(quantity: u32, instant_total: Option<u64>) -> Seq<char> {
    match instant_total {
        Some(total) => "Asked to buy "@ + text::decimal(quantity as nat)
            + " with instant checkout, "@ + text::decimal(total as nat) + " sats."@,
        None => "Asked to buy "@ + text::decimal(quantity as nat) + "."@,
    }
}

/// What sending a request comes to, once sealing it was tried: subscribed to
/// the seller's mailbox, handed over, and recorded under words that say what
/// was asked.
pub fn request(
    seller_verifying_key: &[u8; 32],
    quantity: u32,
    instant_total: Option<u64>,
    sealed: Result<Vec<u8>, String>,
    mailbox: Result<Vec<u8>, String>,
) -> (r: Result<Vec<DeliveryStep>, String>)
    ensures
        (if !keys::is_verifying_key(seller_verifying_key@) {
            r matches Err(why) && why@ == "this store's identity key is unusable: "@
                + keys::key_problem(seller_verifying_key@)->0
        } else {
            match sealed {
                Err(why) => r == Err::<Vec<DeliveryStep>, String>(why),
                Ok(sealed) => match mailbox {
                    Err(why) => r == Err::<Vec<DeliveryStep>, String>(why),
                    Ok(mailbox) => r matches Ok(steps) && message_view::step_views(steps@) == seq![
                        StepView::Subscribe(mailbox@),
                        StepView::HandOver(mailbox@, sealed@),
                        StepView::Record(record_words(quantity, instant_total), sealed@),
                    ],
                },
            }
        }),
{
    let mut record_as = text::join3(
        "Asked to buy ",
        &text::decimal_text(quantity as u64),
        match instant_total {
            Some(_) => " with instant checkout, ",
            None => ".",
        },
    );
    if let Some(total) = instant_total {
        record_as.append(&text::decimal_text(total));
        record_as.append(" sats.");
    }
    message_view::send(seller_verifying_key, sealed, mailbox, record_as)
}

/// Why an order must not be paid.
#[derive(Debug, Clone, PartialEq, Eq)]
pub enum PaymentBlocker {
    CommitmentNotPublished,
    ChainUnknown,
    AnchorUnverifiable,
    AnchorAheadOfTip,
    AddressContractNotCurrent { generation_known: bool },
    ConversationNotKept,
    PurchaseNotKept,
    NoTrustedBridge,
    BridgeNotRecognised(String),
    DestinationDisagrees,
    DestinationUnreadable,
    AnchorMissing,
    AnchorStale,
    UnfitForComplaint(String),
    CommitmentLacksBuyerKey,
    ConversationForgotten,
    SellerIdentityUnknown,
    StoreClosed,
    CommitmentNotTheSellers(String),
    CommitmentNotForThisBuyer,
    CommitmentNotRequested,
    NotAwaitingPayment(OrderStatus),
    AnchorOffChain,
}

/// What a buyer can actually do about one blocker.
#[derive(Debug, Clone, Copy, PartialEq, Eq, Structural)]
pub enum Remedy {
    /// Nothing is wrong; this node is not ready yet. Look again shortly.
    Wait,
    /// The seller can put this right by issuing the order again.
    AskTheSeller,
    /// Only a new request can put this right: the order answers a request
    /// that did not carry what it lacks.
    AskAgain,
    /// Nothing either party can do makes this order safe to pay.
    WalkAway,
}

/// What can be done about one blocker.
pub open spec fn remedy_for(blocker: PaymentBlocker) -> Remedy {
    match blocker {
        PaymentBlocker::CommitmentNotPublished => Remedy::Wait,
        PaymentBlocker::ChainUnknown => Remedy::Wait,
        PaymentBlocker::AnchorUnverifiable => Remedy::Wait,
        PaymentBlocker::AnchorAheadOfTip => Remedy::Wait,
        PaymentBlocker::AddressContractNotCurrent { generation_known } => if generation_known {
            Remedy::AskTheSeller
        } else {
            Remedy::Wait
        },
        PaymentBlocker::ConversationNotKept => Remedy::Wait,
        PaymentBlocker::PurchaseNotKept => Remedy::Wait,
        PaymentBlocker::NoTrustedBridge => Remedy::AskTheSeller,
        PaymentBlocker::BridgeNotRecognised(_) => Remedy::AskTheSeller,
        PaymentBlocker::DestinationDisagrees => Remedy::AskTheSeller,
        PaymentBlocker::DestinationUnreadable => Remedy::AskTheSeller,
        PaymentBlocker::AnchorMissing => Remedy::AskTheSeller,
        PaymentBlocker::AnchorStale => Remedy::AskTheSeller,
        PaymentBlocker::UnfitForComplaint(_) => Remedy::AskTheSeller,
        PaymentBlocker::CommitmentLacksBuyerKey => Remedy::AskAgain,
        PaymentBlocker::ConversationForgotten => Remedy::AskAgain,
        PaymentBlocker::SellerIdentityUnknown => Remedy::WalkAway,
        PaymentBlocker::StoreClosed => Remedy::WalkAway,
        PaymentBlocker::CommitmentNotTheSellers(_) => Remedy::WalkAway,
        PaymentBlocker::CommitmentNotForThisBuyer => Remedy::WalkAway,
        PaymentBlocker::CommitmentNotRequested => Remedy::WalkAway,
        PaymentBlocker::NotAwaitingPayment(_) => Remedy::WalkAway,
        PaymentBlocker::AnchorOffChain => Remedy::WalkAway,
    }
}

/// What can be done about one blocker.
pub fn remedy(blocker: &PaymentBlocker) -> (r: Remedy)
    ensures
        r == remedy_for(*blocker),
{
    match blocker {
        // Not ready yet, on this side of the wire.
        PaymentBlocker::CommitmentNotPublished
        | PaymentBlocker::ChainUnknown
        | PaymentBlocker::AnchorUnverifiable
        | PaymentBlocker::AnchorAheadOfTip
        | PaymentBlocker::AddressContractNotCurrent { generation_known: false }
        | PaymentBlocker::ConversationNotKept
        | PaymentBlocker::PurchaseNotKept => Remedy::Wait,
        // The seller issued something that cannot be acted on, and issuing it
        // again fixes every one of these.
        PaymentBlocker::NoTrustedBridge
        | PaymentBlocker::BridgeNotRecognised(_)
        | PaymentBlocker::DestinationDisagrees
        | PaymentBlocker::DestinationUnreadable
        | PaymentBlocker::AnchorMissing
        | PaymentBlocker::AnchorStale
        | PaymentBlocker::UnfitForComplaint(_)
        | PaymentBlocker::AddressContractNotCurrent { generation_known: true } =>
            Remedy::AskTheSeller,
        // Only a new request carries what the order lacks.
        PaymentBlocker::CommitmentLacksBuyerKey | PaymentBlocker::ConversationForgotten =>
            Remedy::AskAgain,
        // The order is not this buyer's, not this seller's, or not payable at
        // all.
        PaymentBlocker::SellerIdentityUnknown
        | PaymentBlocker::StoreClosed
        | PaymentBlocker::CommitmentNotTheSellers(_)
        | PaymentBlocker::CommitmentNotForThisBuyer
        | PaymentBlocker::CommitmentNotRequested
        | PaymentBlocker::NotAwaitingPayment(_)
        | PaymentBlocker::AnchorOffChain => Remedy::WalkAway,
    }
}

/// How hard a remedy is. A new request is above asking the seller: it gets a
/// new order, which puts right whatever else is wrong with this one.
pub open spec fn hardness(r: Remedy) -> nat {
    match r {
        Remedy::Wait => 0,
        Remedy::AskTheSeller => 1,
        Remedy::AskAgain => 2,
        Remedy::WalkAway => 3,
    }
}

/// The harder of two remedies.
pub open spec fn harder(a: Remedy, b: Remedy) -> Remedy {
    if hardness(a) > hardness(b) {
        a
    } else {
        b
    }
}

/// The hardest remedy among some blockers' own.
pub open spec fn hardest(blockers: Seq<PaymentBlocker>) -> Option<Remedy>
    decreases blockers.len(),
{
    if blockers.len() == 0 {
        None
    } else {
        match hardest(blockers.drop_last()) {
            Some(r) => Some(harder(r, remedy_for(blockers.last()))),
            None => Some(remedy_for(blockers.last())),
        }
    }
}

fn hardness_of(r: Remedy) -> (n: u8)
    ensures
        n == hardness(r),
{
    match r {
        Remedy::Wait => 0,
        Remedy::AskTheSeller => 1,
        Remedy::AskAgain => 2,
        Remedy::WalkAway => 3,
    }
}

/// The hardest remedy among some blockers' own, because the buyer has to do
/// the hardest of them: one thing that waiting will not fix means that
/// waiting is not the answer.
pub fn hardest_remedy(blockers: &Vec<PaymentBlocker>) -> (r: Option<Remedy>)
    ensures
        r == hardest(blockers@),
{
    let mut worst: Option<Remedy> = None;
    let mut i: usize = 0;
    assert(blockers@.take(0) =~= Seq::empty());
    while i < blockers.len()
        invariant
            i <= blockers.len(),
            worst == hardest(blockers@.take(i as int)),
        decreases blockers.len() - i,
    {
        assert(blockers@.take(i + 1).drop_last() =~= blockers@.take(i as int));
        assert(blockers@.take(i + 1).last() == blockers@[i as int]);
        let next = remedy(&blockers[i]);
        worst = match worst {
            Some(r) => if hardness_of(r) > hardness_of(next) {
                Some(r)
            } else {
                Some(next)
            },
            None => Some(next),
        };
        i = i + 1;
    }
    assert(blockers@.take(i as int) =~= blockers@);
    worst
}

/// The remedy a buyer is told is that of one of the blockers, and none of the
/// others asks for a harder one.
pub proof fn the_remedy_told_is_the_hardest(blockers: Seq<PaymentBlocker>)
    requires
        blockers.len() > 0,
    ensures
        hardest(blockers) is Some,
        exists|i: int|
            0 <= i < blockers.len() && remedy_for(#[trigger] blockers[i]) == hardest(blockers)->0,
        forall|i: int|
            0 <= i < blockers.len() ==> hardness(remedy_for(#[trigger] blockers[i])) <= hardness(
                hardest(blockers)->0,
            ),
    decreases blockers.len(),
{
    let rest = blockers.drop_last();
    let last = blockers.len() - 1;
    if rest.len() > 0 {
        the_remedy_told_is_the_hardest(rest);
        let k = choose|k: int|
            0 <= k < rest.len() && remedy_for(#[trigger] rest[k]) == hardest(rest)->0;
        assert(blockers[k] == rest[k]);
        assert(remedy_for(blockers[last]) == remedy_for(blockers.last()));
        assert forall|i: int| 0 <= i < blockers.len() implies hardness(
            remedy_for(#[trigger] blockers[i]),
        ) <= hardness(hardest(blockers)->0) by {
            if i < rest.len() {
                assert(rest[i] == blockers[i]);
            }
        }
    } else {
        assert(remedy_for(blockers[last]) == hardest(blockers)->0);
    }
}

/// What a buyer is told to do while payment details are withheld.
pub open spec fn remedy_words(r: Option<Remedy>) -> Seq<char> {
    match r {
        Some(Remedy::WalkAway) => "No payment details are shown while that is true, and this is not something either of you can put right."@,
        Some(Remedy::AskTheSeller) => "No payment details are shown while that is true. The seller can fix it by issuing the order again."@,
        Some(Remedy::AskAgain) => "No payment details are shown while that is true. Send your request to buy again from this device: a request from this version of Harvest carries your key, and the seller can answer it with an order you can pay."@,
        _ => "No payment details are shown while that is true. Look again in a moment."@,
    }
}

/// What a buyer is told to do while payment details are withheld.
pub fn remedy_text(r: Option<Remedy>) -> (words: &'static str)
    ensures
        words@ == remedy_words(r),
{
    match r {
        Some(Remedy::WalkAway) => "No payment details are shown while that is true, and this is not something either of you can put right.",
        Some(Remedy::AskTheSeller) => "No payment details are shown while that is true. The seller can fix it by issuing the order again.",
        Some(Remedy::AskAgain) => "No payment details are shown while that is true. Send your request to buy again from this device: a request from this version of Harvest carries your key, and the seller can answer it with an order you can pay.",
        Some(Remedy::Wait) => "No payment details are shown while that is true. Look again in a moment.",
        None => "No payment details are shown while that is true. Look again in a moment.",
    }
}

/// What is known of a purchase, as its card reads it.
pub struct PurchaseFacts {
    /// The order is one of this buyer's, and paid.
    pub paid: bool,
    /// The order has moved past payment in another way.
    pub settled: bool,
    /// The seller's record says paid, but it cannot be confirmed as this
    /// buyer's.
    pub unconfirmed_paid: bool,
    /// All that is left to do before paying is to keep a copy.
    pub ready_to_keep: bool,
    /// The seller's signed order is at hand.
    pub has_commitment: bool,
    pub blockers: Vec<PaymentBlocker>,
}

/// What a purchase's card shows.
#[derive(Debug, Clone, Copy, PartialEq, Eq)]
pub enum PurchaseBody {
    /// Settled, and a complaint can be made.
    Paid,
    /// Settled.
    Settled,
    /// The seller's record cannot be confirmed: a warning.
    Unconfirmed(&'static str),
    /// The press that keeps a copy first.
    KeepFirst,
    /// The payment details.
    PaymentDetails(&'static str),
    /// What is in the way, and what to do about it.
    Blocked(&'static str),
}

/// What a purchase's card shows.
///
/// A paid order is shown as paid whatever the payment checks now say: they
/// are about whether to pay, and a seller can trip them after payment. And
/// there is no payment address while anything is outstanding: a greyed-out
/// button next to a visible address is an invitation to pay it by hand.
pub fn purchase_body(p: &PurchaseFacts) -> (r: PurchaseBody)
    ensures
        (if p.paid {
            r is Paid
        } else if p.settled {
            r is Settled
        } else if p.unconfirmed_paid {
            r matches PurchaseBody::Unconfirmed(words) && words@
                == "The seller's record says this order is paid, but it is not a purchase this app can confirm as yours."@
        } else if p.ready_to_keep {
            r is KeepFirst
        } else if p.blockers@.len() == 0 && p.has_commitment {
            r matches PurchaseBody::PaymentDetails(words) && words@
                == "This order is published, signed by this store's seller, and anchored to a recent block your node agrees with."@
        } else {
            r matches PurchaseBody::Blocked(words) && words@ == remedy_words(hardest(p.blockers@))
        }),
        r is PaymentDetails ==> p.blockers@.len() == 0 && p.has_commitment,
{
    if p.paid {
        return PurchaseBody::Paid;
    }
    if p.settled {
        return PurchaseBody::Settled;
    }
    if p.unconfirmed_paid {
        return PurchaseBody::Unconfirmed(
            "The seller's record says this order is paid, but it is not a purchase this app can confirm as yours.",
        );
    }
    if p.ready_to_keep {
        return PurchaseBody::KeepFirst;
    }
    if p.blockers.len() == 0 && p.has_commitment {
        return PurchaseBody::PaymentDetails(
            "This order is published, signed by this store's seller, and anchored to a recent block your node agrees with.",
        );
    }
    PurchaseBody::Blocked(remedy_text(hardest_remedy(&p.blockers)))
}

/// The control that keeps a copy of an order before any payment details are
/// shown.
#[derive(Debug, Clone, PartialEq, Eq)]
pub enum KeepPanel {
    /// Keeping was refused: why, with a button to try again.
    Refused(String),
    /// A copy is being kept.
    Keeping(&'static str),
    /// What keeping is for, with the button.
    Offer(&'static str),
}

/// The control that keeps a copy of an order. A refusal may pass, so it
/// offers another try.
pub fn pay_this_order(refusal: &Option<String>, sent: bool) -> (r: KeepPanel)
    ensures
        (match *refusal {
            Some(why) => r matches KeepPanel::Refused(words) && words@
                == "Your node would not keep a copy of this order, so no payment details are shown: "@
                + why@,
            None => if sent {
                r matches KeepPanel::Keeping(words) && words@
                    == "Keeping your copy of this order. The payment details appear here once your node has it."@
            } else {
                r matches KeepPanel::Offer(words) && words@
                    == "This order is published, signed by this store's seller, and anchored to a recent block your node agrees with. Before you pay, your node keeps its own copy of it, so a complaint about it never depends on what the seller keeps."@
            },
        }),
{
    match refusal {
        Some(why) => {
            let mut words =
                "Your node would not keep a copy of this order, so no payment details are shown: ".to_string();
            words.append(why);
            KeepPanel::Refused(words)
        },
        None => if sent {
            KeepPanel::Keeping(
                "Keeping your copy of this order. The payment details appear here once your node has it.",
            )
        } else {
            KeepPanel::Offer(
                "This order is published, signed by this store's seller, and anchored to a recent block your node agrees with. Before you pay, your node keeps its own copy of it, so a complaint about it never depends on what the seller keeps.",
            )
        },
    }
}

/// The control to cancel one of the buyer's own unpaid purchases.
pub fn cancel_purchase(short: &str, sent: bool, refusal: &Option<String>, confirming: bool) -> (r:
    ControlState)
    ensures
        (if sent {
            r matches ControlState::Note(words) && words@ == "Cancellation of order "@ + short@
                + " sent. It shows here once the store has it."@
        } else if *refusal is Some {
            r matches ControlState::Note(words) && words@ == "Order "@ + short@
                + " cannot be cancelled right now: "@ + refusal->0@
        } else if confirming {
            r matches ControlState::Question(words, yes, no) && words@ == "Cancel order "@ + short@
                + "? This is public and cannot be undone. If you have already paid, your payment still counts and the seller owes you the goods."@
                && yes@ == "Yes, cancel it"@ && no@ == "Keep it"@
        } else {
            r matches ControlState::Button(words) && words@ == "Cancel order"@
        }),
{
    if sent {
        return ControlState::Note(
            text::join3(
                "Cancellation of order ",
                short,
                " sent. It shows here once the store has it.",
            ),
        );
    }
    if let Some(why) = refusal {
        let mut words = text::join3("Order ", short, " cannot be cancelled right now: ");
        words.append(why);
        return ControlState::Note(words);
    }
    if confirming {
        return ControlState::Question(
            text::join3(
                "Cancel order ",
                short,
                "? This is public and cannot be undone. If you have already paid, your payment still counts and the seller owes you the goods.",
            ),
            "Yes, cancel it",
            "Keep it",
        );
    }
    ControlState::Button("Cancel order")
}

/// What a complaint control shows.
#[derive(Debug, Clone, PartialEq, Eq)]
pub enum ComplaintPanel {
    /// Where it stands, or why none can be made.
    Note(String),
    /// The question before it is made.
    Question(String),
    /// The categories to choose from, below these words.
    Choose(String),
}

/// What a complaint control shows: the complaint on record; else that one is
/// on its way; else why none can be made; else the question about the
/// category chosen; else the choice. `refusal` is asked for only where there
/// is neither a complaint on record nor one on its way.
pub fn file_complaint(
    short: &str,
    on_record: Option<FeedbackCategory>,
    sent: bool,
    refusal: &Option<String>,
    chosen: Option<FeedbackCategory>,
) -> (r: ComplaintPanel)
    ensures
        (match on_record {
            Some(category) => r matches ComplaintPanel::Note(words) && words@
                == "Your complaint about order "@ + short@ + " ("@ + reputation_view::category_words(
                category,
            ) + ") is on the seller's public record."@,
            None => if sent {
                r matches ComplaintPanel::Note(words) && words@ == "Complaint about order "@ + short@
                    + " is being kept on your node. It goes to the seller's record once it is kept, and shows there once the network has it."@
            } else if *refusal is Some {
                r matches ComplaintPanel::Note(words) && words@
                    == "No complaint can be made about order "@ + short@ + " right now: "@
                    + refusal->0@ + "."@
            } else {
                match chosen {
                    Some(category) => r matches ComplaintPanel::Question(words) && words@
                        == "Complain that order "@ + short@ + " was \""@
                        + reputation_view::category_words(category)
                        + "\"? This goes on the seller's public record permanently, cannot be withdrawn, and is one per order."@,
                    None => r matches ComplaintPanel::Choose(words) && words@
                        == "Something wrong with order "@ + short@
                        + "? You can put one complaint on the seller's public record:"@,
                }
            },
        }),
{
    if let Some(category) = on_record {
        let mut words = text::join3("Your complaint about order ", short, " (");
        words.append(reputation_view::category_label(&category));
        words.append(") is on the seller's public record.");
        return ComplaintPanel::Note(words);
    }
    if sent {
        return ComplaintPanel::Note(
            text::join3(
                "Complaint about order ",
                short,
                " is being kept on your node. It goes to the seller's record once it is kept, and shows there once the network has it.",
            ),
        );
    }
    if let Some(why) = refusal {
        let mut words = text::join3("No complaint can be made about order ", short, " right now: ");
        words.append(why);
        words.append(".");
        return ComplaintPanel::Note(words);
    }
    match chosen {
        Some(category) => {
            let mut words = text::join3("Complain that order ", short, " was \"");
            words.append(reputation_view::category_label(&category));
            words.append(
                "\"? This goes on the seller's public record permanently, cannot be withdrawn, and is one per order.",
            );
            ComplaintPanel::Question(words)
        },
        None => ComplaintPanel::Choose(
            text::join3(
                "Something wrong with order ",
                short,
                "? You can put one complaint on the seller's public record:",
            ),
        ),
    }
}

/// What a complaint control is about: a purchase on a loaded store's page, or
/// one this node keeps, judged from the kept record alone.
#[derive(Debug, Clone, PartialEq, Eq)]
pub enum ComplaintTarget {
    AtStore { store_contract_id: Vec<u8>, order_id: [u8; 32] },
    Kept { store_key: [u8; 32], order_id: [u8; 32] },
}

impl ComplaintTarget {
    /// The order a complaint would be about.
    pub fn order_id(&self) -> (r: [u8; 32])
        ensures
            r == (match *self {
                ComplaintTarget::AtStore { order_id, .. } => order_id,
                ComplaintTarget::Kept { order_id, .. } => order_id,
            }),
    {
        match self {
            ComplaintTarget::AtStore { order_id, .. } => *order_id,
            ComplaintTarget::Kept { order_id, .. } => *order_id,
        }
    }
}

/// A purchase this node keeps its own copy of.
#[derive(Debug, Clone, PartialEq, Eq)]
pub struct KeptPurchase {
    pub store_key: [u8; 32],
    pub order: AuthorizedOrder,
}

impl Ranked for KeptPurchase {
    /// Newest first.
    open spec fn ranks_before(&self, other: &Self) -> bool {
        self.order.order.created_at.later_than(other.order.order.created_at)
    }

    fn before(&self, other: &Self) -> (yes: bool) {
        self.order.order.created_at.is_later_than(&other.order.order.created_at)
    }

    proof fn ranking(a: &Self, b: &Self, c: &Self) {
    }
}

/// A purchase that a store's own card already shows.
#[derive(Debug, Clone, Copy, PartialEq, Eq)]
pub struct ShownPurchase {
    pub store_key: [u8; 32],
    pub order_id: [u8; 32],
}

/// Whether a kept purchase is shown already. The pair is matched, never the
/// order id alone: another store's card naming the same id does not hide it.
pub open spec fn is_shown(k: KeptPurchase, shown: Seq<ShownPurchase>) -> bool {
    shown.contains(ShownPurchase { store_key: k.store_key, order_id: k.order.order.id })
}

fn shown_already(k: &KeptPurchase, shown: &Vec<ShownPurchase>) -> (r: bool)
    ensures
        r == is_shown(*k, shown@),
{
    let ghost pair = ShownPurchase { store_key: k.store_key, order_id: k.order.order.id };
    let mut i: usize = 0;
    while i < shown.len()
        invariant
            i <= shown.len(),
            pair == (ShownPurchase { store_key: k.store_key, order_id: k.order.order.id }),
            forall|j: int| 0 <= j < i ==> (#[trigger] shown@[j]) != pair,
        decreases shown.len() - i,
    {
        if bytes::same_key(&shown[i].store_key, &k.store_key) && bytes::same_key(
            &shown[i].order_id,
            &k.order.order.id,
        ) {
            assert(shown@[i as int] == pair);
            return true;
        }
        i = i + 1;
    }
    false
}

/// The kept purchases to list, newest first: every one this node keeps but
/// those that a store's card on the same page already shows.
pub fn kept_purchases_to_list<'a>(kept: &'a Vec<KeptPurchase>, shown: &Vec<ShownPurchase>) -> (r:
    Vec<&'a KeptPurchase>)
    ensures
        order::is_sorted_from(
            order::behind(r@),
            kept@.filter(|k: KeptPurchase| !is_shown(k, shown@)),
        ),
{
    let ghost keep = |k: KeptPurchase| !is_shown(k, shown@);
    let mut listed: Vec<&'a KeptPurchase> = Vec::new();
    let mut i: usize = 0;
    proof {
        seqs::lemma_filter_none(kept@, keep);
        assert(order::behind(listed@) =~= Seq::empty());
    }
    while i < kept.len()
        invariant
            i <= kept.len(),
            keep == (|k: KeptPurchase| !is_shown(k, shown@)),
            order::behind(listed@) == kept@.take(i as int).filter(keep),
        decreases kept.len() - i,
    {
        proof {
            seqs::lemma_filter_step(kept@, keep, i as int);
        }
        if !shown_already(&kept[i], shown) {
            let ghost before = listed@;
            listed.push(&kept[i]);
            assert(order::behind(listed@) =~= order::behind(before).push(kept@[i as int]));
        }
        i = i + 1;
    }
    assert(kept@.take(i as int) =~= kept@);
    order::sort_refs(listed)
}

/// A kept purchase is listed or shown by a store's card, never both and never
/// neither.
pub proof fn a_kept_purchase_is_listed_or_shown(
    kept: Seq<KeptPurchase>,
    shown: Seq<ShownPurchase>,
    listed: Seq<KeptPurchase>,
    k: KeptPurchase,
)
    requires
        order::is_sorted_from(listed, kept.filter(|k: KeptPurchase| !is_shown(k, shown))),
        kept.contains(k),
    ensures
        listed.contains(k) <==> !is_shown(k, shown),
{
    let keep = |k: KeptPurchase| !is_shown(k, shown);
    let all = kept.filter(keep);
    order::sorting_keeps_the_values(listed, all);
    let i = kept.index_of(k);
    if !is_shown(k, shown) {
        kept.lemma_filter_contains(keep, i);
        let j = all.index_of(k);
        assert(listed.contains(all[j]));
    }
    if listed.contains(k) {
        let j = listed.index_of(k);
        assert(all.contains(listed[j]));
        let m = all.index_of(k);
        kept.lemma_filter_pred(keep, m);
    }
}

/// The heading over the kept purchases.
pub fn kept_heading(shown: usize) -> (r: &'static str)
    ensures
        r@ == (if shown == 0 {
            "Your purchases"@
        } else {
            "Other purchases your node keeps"@
        }),
{
    if shown == 0 {
        "Your purchases"
    } else {
        "Other purchases your node keeps"
    }
}

/// What a kept purchase's row shows.
#[derive(Debug, Clone, PartialEq, Eq)]
pub enum KeptRow {
    /// Settled, and a complaint can be made from the kept copy.
    Paid,
    /// Where its payment stands.
    Note(String),
}

/// What a kept purchase's row shows; `amount` is what it costs, in words.
/// Never a payment address, and no prompt to pay: a buyer whose payment went
/// unseen would read it as one to pay again.
pub fn kept_row(status: OrderStatus, seen_paid: bool, amount: &str) -> (r: KeptRow)
    ensures
        (if status == OrderStatus::Paid {
            r is Paid
        } else if seen_paid {
            r matches KeptRow::Note(words) && words@ == amount@
                + " \u{00b7} Payment seen. Your node is keeping its proof of payment, and a complaint can be made once it has."@
        } else {
            r matches KeptRow::Note(words) && words@ == amount@
                + " \u{00b7} No payment seen yet. Your node keeps this order and follows what the bridge reports for its address. If you have not paid, the seller's store page is where to."@
        }),
{
    if status == OrderStatus::Paid {
        return KeptRow::Paid;
    }
    let mut words = amount.to_string();
    words.append(
        if seen_paid {
            " \u{00b7} Payment seen. Your node is keeping its proof of payment, and a complaint can be made once it has."
        } else {
            " \u{00b7} No payment seen yet. Your node keeps this order and follows what the bridge reports for its address. If you have not paid, the seller's store page is where to."
        },
    );
    KeptRow::Note(words)
}

/// The line of a purchase that has moved past payment: its style and its
/// words. `note` is where it stands against the windows its reader applies.
pub fn settled_purchase(amount: &str, note: &Option<String>, needs_attention: bool) -> (r: (
    &'static str,
    String,
))
    ensures
        r.0@ == (if needs_attention {
            "text-warning"@
        } else {
            ""@
        }),
        r.1@ == amount@ + " \u{00b7} "@ + (match *note {
            Some(note) => note@,
            None => "This order is no longer awaiting payment."@,
        }),
{
    let style = if needs_attention {
        "text-warning"
    } else {
        ""
    };
    let words = match note {
        Some(note) => text::join3(amount, " \u{00b7} ", note),
        None => text::join3(amount, " \u{00b7} ", "This order is no longer awaiting payment."),
    };
    (style, words)
}

/// What the accept control shows.
#[derive(Debug, Clone, PartialEq, Eq)]
pub enum AcceptPanel {
    /// It was accepted: what happens next.
    Accepted(&'static str),
    /// It cannot be named, so it cannot be priced yet.
    Unnamed(String),
    /// The heading of the form, and whether the button is on.
    Form { heading: String, ready: bool },
}

/// What the accept control shows. Without a title the store's listings have
/// not arrived, and the control is withheld: a seller pricing what the screen
/// cannot name is signing for something they cannot see.
pub fn accept_panel(
    accepted: bool,
    listing_title: &str,
    quantity: u32,
    amount: &str,
    confirmations: &str,
) -> (r: AcceptPanel)
    ensures
        (if accepted {
            r matches AcceptPanel::Accepted(words) && words@
                == "Accepted. The order is being published and the buyer is being told which one is theirs; they cannot pay until the published entry reaches them."@
        } else if text::trimmed(listing_title@).len() == 0 {
            r matches AcceptPanel::Unnamed(words) && words@ == "A buyer has asked to buy "@
                + text::decimal(quantity as nat)
                + " of a listing this page cannot name yet. Wait for your store's listings to load before pricing it."@
        } else {
            &&& r matches AcceptPanel::Form { heading, ready }
            &&& heading@ == text::decimal(quantity as nat) + " x "@ + listing_title@
            &&& ready == (invoice_form::typed_amount(amount@) is Some
                && invoice_form::typed_confirmations(confirmations@) is Ok)
        }),
{
    if accepted {
        return AcceptPanel::Accepted(
            "Accepted. The order is being published and the buyer is being told which one is theirs; they cannot pay until the published entry reaches them.",
        );
    }
    let count = text::decimal_text(quantity as u64);
    if text::trim(listing_title).is_empty() {
        return AcceptPanel::Unnamed(
            text::join3(
                "A buyer has asked to buy ",
                &count,
                " of a listing this page cannot name yet. Wait for your store's listings to load before pricing it.",
            ),
        );
    }
    AcceptPanel::Form {
        heading: text::join3(&count, " x ", listing_title),
        ready: invoice_form::parse_amount(amount).is_some()
            && invoice_form::parse_required_confirmations(confirmations).is_ok(),
    }
}

/// What the accept form adds for an instant request, whose `total` the buyer
/// was shown, and for no other: the seller's own instant checkout does not
/// know of the order.
pub fn accept_note(total: Option<u64>) -> (r: Option<&'static str>)
    ensures
        (match r {
            Some(words) => total is Some && words@
                == "The buyer used instant checkout. Your device's instant checkout does not count an order you answer here: if you count this listing, lower the count yourself once it is paid."@,
            None => total is None,
        }),
{
    match total {
        Some(_) => Some(
            "The buyer used instant checkout. Your device's instant checkout does not count an order you answer here: if you count this listing, lower the count yourself once it is paid.",
        ),
        None => None,
    }
}

/// The amount the accept control opens on: the total the buyer was shown, for
/// an instant request, and blank otherwise.
pub fn opening_amount(instant_total: Option<u64>) -> (r: String)
    ensures
        r@ == (match instant_total {
            Some(total) => text::decimal(total as nat),
            None => Seq::empty(),
        }),
{
    match instant_total {
        Some(total) => text::decimal_text(total),
        None => String::new(),
    }
}

/// A day, in milliseconds.
pub const DAY_MS: u64 = 86_400_000;

/// Whether an order is among those a store has published.
pub open spec fn is_published(published: Seq<AuthorizedOrder>, id: [u8; 32]) -> bool {
    exists|i: int| 0 <= i < published.len() && (#[trigger] published[i]).order.id == id
}

/// Whether a moment by the buyer's clock is more than a day from now.
pub open spec fn is_far_dated(requested_at_ms: int, now_ms: int) -> bool {
    requested_at_ms < 0 || requested_at_ms - now_ms > DAY_MS || now_ms - requested_at_ms > DAY_MS
}

/// Why a seller may not answer an instant request by hand, if they may not:
/// it is answered already, or the buyer's clock put it more than a day from
/// this one, and the order is dated at the request.
pub open spec fn refusal_words(
    published: Seq<AuthorizedOrder>,
    request: AnsweredRequest,
    now_ms: u64,
) -> Option<Seq<char>> {
    if is_published(published, request.order_id) {
        Some("this request has already been answered with an order; it is under Orders"@)
    } else if is_far_dated(request.requested_at_ms as int, now_ms as int) {
        Some(
            "this request is dated more than a day from now by the buyer's clock; ask them to send it again"@,
        )
    } else {
        None
    }
}

/// Why a seller may not answer an instant request by hand, if they may not.
pub fn manual_answer_refusal(
    published: &Vec<AuthorizedOrder>,
    request: &AnsweredRequest,
    now_ms: u64,
) -> (r: Option<String>)
    ensures
        my_store::text_of(r) == refusal_words(published@, *request, now_ms),
{
    let mut i: usize = 0;
    while i < published.len()
        invariant
            i <= published.len(),
            forall|j: int| 0 <= j < i ==> (#[trigger] published@[j]).order.id != request.order_id,
        decreases published.len() - i,
    {
        if bytes::same_key(&published[i].order.id, &request.order_id) {
            return Some(
                "this request has already been answered with an order; it is under Orders".to_string(),
            );
        }
        i = i + 1;
    }
    let at: i64 = request.requested_at_ms;
    let far = if at < 0 {
        true
    } else {
        let at: u64 = at as u64;
        if at > now_ms {
            at - now_ms > DAY_MS
        } else {
            now_ms - at > DAY_MS
        }
    };
    if far {
        return Some(
            "this request is dated more than a day from now by the buyer's clock; ask them to send it again".to_string(),
        );
    }
    None
}

/// What a buyer's request asks the seller to sign into the commitment: the
/// values travel together from the request to the terms.
#[derive(Debug, Clone, Copy, PartialEq, Eq)]
pub struct BuyerValues {
    pub order_binding: [u8; 32],
    pub buyer_receipt_key: Option<[u8; 32]>,
    /// The instant-checkout request this answers, if it was one.
    pub request: Option<AnsweredRequest>,
}

/// Why the request behind some values may not be answered by hand; nothing
/// where there is none, or it may.
pub open spec fn refusal_of(
    published: Seq<AuthorizedOrder>,
    request: Option<AnsweredRequest>,
    now_ms: u64,
) -> Option<Seq<char>> {
    match request {
        Some(request) => refusal_words(published, request, now_ms),
        None => None,
    }
}

/// The invoice that answers one request, or why there is none.
///
/// The conversation travels on the invoice, so the acceptance is sent from
/// the same place the commitment is published. A buyer has no Ghost Key, so
/// there is no fingerprint to name; their own values are carried from their
/// request, since without them no buyer would pay.
pub fn accept(
    store_contract_id: &Vec<u8>,
    tag: &Vec<u8>,
    listing_id: &[u8; 32],
    listing_title: String,
    buyer: &BuyerValues,
    amount_sats: u64,
    required_confirmations: u32,
    seller_fingerprint: Option<String>,
    published: &Vec<AuthorizedOrder>,
    now_ms: u64,
) -> (r: Result<PendingInvoice, String>)
    ensures
        (if tag@.len() != 32 {
            r matches Err(why) && why@ == "this conversation's tag is "@ + text::decimal(tag@.len())
                + " bytes, not 32"@
        } else if seller_fingerprint is None {
            r matches Err(why) && why@ == "this store is not one of yours"@
        } else if refusal_of(published@, buyer.request, now_ms) is Some {
            r matches Err(why) && why@ == refusal_of(published@, buyer.request, now_ms)->0
        } else {
            &&& r matches Ok(i)
            &&& i.store_contract_id@ == store_contract_id@ && Some(i.seller_fingerprint)
                == seller_fingerprint
            &&& i.listing_id == *listing_id && i.listing_title == listing_title
            &&& i.buyer_fingerprint@.len() == 0
            &&& i.amount_sats == amount_sats && i.required_confirmations == required_confirmations
            &&& i.reply_to matches Some(to) && to@ == tag@
            &&& i.order_binding == Some(buyer.order_binding)
            &&& i.buyer_receipt_key == buyer.buyer_receipt_key
            &&& i.answers_request == buyer.request
        }),
{
    let reply_to = match my_store::key_of(tag) {
        Some(tag) => tag,
        None => {
            return Err(
                text::join3(
                    "this conversation's tag is ",
                    &text::count_text(tag.len()),
                    " bytes, not 32",
                ),
            );
        },
    };
    let seller_fingerprint = match seller_fingerprint {
        Some(fingerprint) => fingerprint,
        None => {
            return Err("this store is not one of yours".to_string());
        },
    };
    if let Some(request) = &buyer.request {
        if let Some(why) = manual_answer_refusal(published, request, now_ms) {
            return Err(why);
        }
    }
    Ok(
        PendingInvoice {
            store_contract_id: bytes::copy_bytes(store_contract_id),
            seller_fingerprint,
            listing_id: *listing_id,
            listing_title,
            buyer_fingerprint: String::new(),
            amount_sats,
            required_confirmations,
            reply_to: Some(reply_to),
            order_binding: Some(buyer.order_binding),
            buyer_receipt_key: buyer.buyer_receipt_key,
            answers_request: buyer.request,
        },
    )
}

/// A quantity is read exactly where what is typed, trimmed, is a whole number
/// of at least one that fits, and it is that number.
pub proof fn a_quantity_is_a_whole_number_over_zero(typed: Seq<char>)
    ensures
        typed_quantity(typed) matches Some(n) ==> n > 0 && text::parsed_number(text::trimmed(typed))
            == Some(n as nat),
        text::parsed_number(text::trimmed(typed)) matches Some(n) ==> (1 <= n <= u32::MAX
            ==> typed_quantity(typed) == Some(n as u32)),
        text::parsed_number(text::trimmed(typed)) is None ==> typed_quantity(typed) is None,
        text::parsed_number(text::trimmed(typed)) == Some(0nat) ==> typed_quantity(typed) is None,
{
}

/// A request can be sent exactly where its shipping has a character that is
/// no white space, its quantity is a whole number of at least one that fits,
/// every choice has a pick, and, where it buys at once, there is a total.
pub proof fn a_request_needs_an_address_a_quantity_and_every_pick(
    d: BuyDraft,
    instant: bool,
    total: Option<u64>,
)
    ensures
        can_request(d, instant, total) <==> {
            &&& exists|i: int|
                0 <= i < d.shipping@.len() && !text::is_white_space(#[trigger] d.shipping@[i])
            &&& text::parsed_number(text::trimmed(d.quantity@)) matches Some(n) && 1 <= n
                <= u32::MAX
            &&& forall|i: int| 0 <= i < d.picks@.len() ==> (#[trigger] d.picks@[i])@.len() > 0
            &&& !instant || total is Some
        },
{
    text::a_blank_text_is_all_white_space(d.shipping@);
    a_quantity_is_a_whole_number_over_zero(d.quantity@);
}

/// Whatever else is filled in, a request without a shipping address, or with
/// a blank one, cannot be sent; so neither can a form that was just opened.
pub proof fn a_request_without_an_address_cannot_be_sent(
    d: BuyDraft,
    instant: bool,
    total: Option<u64>,
)
    requires
        forall|i: int|
            0 <= i < d.shipping@.len() ==> text::is_white_space(#[trigger] d.shipping@[i]),
    ensures
        !can_request(d, instant, total),
{
    text::a_blank_text_is_all_white_space(d.shipping@);
}

/// A region is chosen where one is named, and it is the one named.
pub proof fn a_region_is_chosen_where_one_is_named(region: Seq<char>)
    ensures
        chosen_region(region) is None <==> region.len() == 0,
        chosen_region(region) matches Some(r) ==> r == region,
{
}

/// A note starts with a line for each pick, its choice's name before it, and
/// ends with what the buyer wrote, where they wrote anything.
pub proof fn a_note_has_a_line_for_each_pick(
    choices: Seq<ChoiceGroup>,
    picks: Seq<String>,
    choice: ChoiceGroup,
    pick: String,
    note: Seq<char>,
)
    requires
        choices.len() == picks.len(),
    ensures
        picked_note(Seq::empty(), Seq::empty(), note) == note,
        note.len() > 0 && choices.len() > 0 ==> picked_note(choices, picks, note) == picked_note(
            choices,
            picks,
            Seq::empty(),
        ) + "\n"@ + note,
        picked_note(choices.push(choice), picks.push(pick), Seq::empty()) == (if choices.len() > 0 {
            picked_note(choices, picks, Seq::empty()) + "\n"@
        } else {
            Seq::empty()
        }) + choice.name@ + ": "@ + pick@,
{
    let lines = pick_lines(choices, picks);
    let line = choice.name@ + ": "@ + pick@;
    let none = pick_lines(Seq::empty(), Seq::empty());
    assert(none =~= Seq::<Seq<char>>::empty());
    assert(none.push(note) =~= seq![note]);
    text::a_piece_more_is_joined_by_the_separator(none, note, "\n"@);
    text::a_piece_more_is_joined_by_the_separator(lines, note, "\n"@);
    text::a_piece_more_is_joined_by_the_separator(lines, line, "\n"@);
    assert(pick_lines(choices.push(choice), picks.push(pick)) =~= lines.push(line));
    if choices.len() == 0 {
        assert(lines.push(line) =~= seq![line]);
        assert(Seq::<char>::empty() + choice.name@ + ": "@ + pick@ =~= line);
    } else {
        assert(picked_note(choices, picks, Seq::empty()) + "\n"@ + choice.name@ + ": "@ + pick@
            =~= picked_note(choices, picks, Seq::empty()) + "\n"@ + line);
    }
}

/// A seller has answered with an acceptance or a refusal sent to the buyer,
/// and with nothing else: no other message of theirs, and none of the
/// buyer's.
pub proof fn only_an_acceptance_or_a_refusal_answers(m: ConversationMessage)
    ensures
        is_answer(m) <==> m.addressing is ToBuyer && (match m.content {
            MessageContent::OrderAccepted { .. } => true,
            MessageContent::Decline { .. } => true,
            _ => false,
        }),
{
}

/// One message more in a thread is one answer more where it answers, and none
/// where it does not.
pub proof fn each_answer_counts_once(thread: Seq<ConversationMessage>, m: ConversationMessage)
    ensures
        thread.push(m).filter(|x: ConversationMessage| is_answer(x)).len() == thread.filter(
            |x: ConversationMessage| is_answer(x),
        ).len() + (if is_answer(m) {
            1nat
        } else {
            0
        }),
{
    reveal(Seq::filter);
    assert(thread.push(m).drop_last() =~= thread);
}

/// A request's record says how many were asked for, and the total where it
/// was bought at once.
pub proof fn the_record_says_what_was_asked_for(quantity: u32, total: u64)
    ensures
        record_words(quantity, None) == "Asked to buy "@ + text::decimal(quantity as nat) + "."@,
        record_words(quantity, Some(total)) == "Asked to buy "@ + text::decimal(quantity as nat)
            + " with instant checkout, "@ + text::decimal(total as nat) + " sats."@,
{
}

/// A buyer waits on what the network or their own node has still to show,
/// asks the seller for what the seller can issue again, asks again for what
/// their own request lacks, and walks away from what nobody can put right.
pub proof fn each_blocker_has_its_remedy(blocker: PaymentBlocker)
    ensures
        remedy_for(blocker) is WalkAway <==> {
            ||| blocker is SellerIdentityUnknown
            ||| blocker is StoreClosed
            ||| blocker is CommitmentNotTheSellers
            ||| blocker is CommitmentNotForThisBuyer
            ||| blocker is CommitmentNotRequested
            ||| blocker is NotAwaitingPayment
            ||| blocker is AnchorOffChain
        },
        remedy_for(blocker) is AskAgain <==> blocker is CommitmentLacksBuyerKey
            || blocker is ConversationForgotten,
        remedy_for(blocker) is AskTheSeller <==> {
            ||| blocker is NoTrustedBridge
            ||| blocker is BridgeNotRecognised
            ||| blocker is DestinationDisagrees
            ||| blocker is DestinationUnreadable
            ||| blocker is AnchorMissing
            ||| blocker is AnchorStale
            ||| blocker is UnfitForComplaint
            ||| blocker matches PaymentBlocker::AddressContractNotCurrent { generation_known }
                && generation_known
        },
{
}

/// Walking away is harder than asking again, that harder than asking the
/// seller, and that harder than waiting: a buyer is told to walk away where
/// any blocker asks for it, and to wait only where every blocker does.
pub proof fn one_blocker_to_walk_away_from_is_enough(blockers: Seq<PaymentBlocker>)
    ensures
        blockers.len() == 0 <==> hardest(blockers) is None,
        hardest(blockers) == Some(Remedy::WalkAway) <==> exists|i: int|
            0 <= i < blockers.len() && remedy_for(#[trigger] blockers[i]) is WalkAway,
        hardest(blockers) == Some(Remedy::AskAgain) <==> {
            &&& exists|i: int|
                0 <= i < blockers.len() && remedy_for(#[trigger] blockers[i]) is AskAgain
            &&& forall|i: int|
                0 <= i < blockers.len() ==> !(remedy_for(#[trigger] blockers[i]) is WalkAway)
        },
        hardest(blockers) == Some(Remedy::Wait) <==> blockers.len() > 0 && forall|i: int|
            0 <= i < blockers.len() ==> remedy_for(#[trigger] blockers[i]) is Wait,
{
    if blockers.len() > 0 {
        the_remedy_told_is_the_hardest(blockers);
        let told = hardest(blockers)->0;
        let k = choose|k: int|
            0 <= k < blockers.len() && remedy_for(#[trigger] blockers[k]) == told;
        assert forall|i: int| 0 <= i < blockers.len() implies hardness(
            remedy_for(#[trigger] blockers[i]),
        ) <= hardness(told) by {}
    }
}

/// The buyer is told who can put it right: nobody, the seller, the buyer by
/// asking again, or time; and never the same words for two of those.
pub proof fn each_remedy_has_its_own_words(a: Option<Remedy>, b: Option<Remedy>)
    requires
        a matches Some(x) && !(x is Wait),
        a != b,
    ensures
        remedy_words(a) != remedy_words(b),
{
    reveal_strlit(
        "No payment details are shown while that is true, and this is not something either of you can put right.",
    );
    reveal_strlit(
        "No payment details are shown while that is true. The seller can fix it by issuing the order again.",
    );
    reveal_strlit(
        "No payment details are shown while that is true. Send your request to buy again from this device: a request from this version of Harvest carries your key, and the seller can answer it with an order you can pay.",
    );
    reveal_strlit("No payment details are shown while that is true. Look again in a moment.");
    assert(remedy_words(Some(Remedy::WalkAway))[47] == ',');
    assert(remedy_words(Some(Remedy::AskTheSeller))[49] == 'T');
    assert(remedy_words(Some(Remedy::AskAgain))[49] == 'S');
    assert(remedy_words(Some(Remedy::Wait))[49] == 'L');
    assert(remedy_words(None)[49] == 'L');
    assert(remedy_words(Some(Remedy::WalkAway))[49] == 'a');
}

/// Kept purchases come newest first.
pub proof fn the_newest_kept_purchase_comes_first(
    sorted: Seq<KeptPurchase>,
    all: Seq<KeptPurchase>,
    i: int,
    j: int,
)
    requires
        order::is_sorted_from(sorted, all),
        0 <= i < j < sorted.len(),
    ensures
        sorted[i].order.order.created_at.secs >= sorted[j].order.order.created_at.secs,
        sorted[i].order.order.created_at.secs == sorted[j].order.order.created_at.secs
            ==> sorted[i].order.order.created_at.nanos >= sorted[j].order.order.created_at.nanos,
{
    order::sorted_values_stand_by_rank(sorted, all, i, j);
}

/// A kept purchase is shown by a card exactly where some card shows an order
/// of both its store and its id.
pub proof fn a_kept_purchase_is_shown_by_store_and_order(
    k: KeptPurchase,
    shown: Seq<ShownPurchase>,
)
    ensures
        is_shown(k, shown) <==> exists|i: int|
            0 <= i < shown.len() && (#[trigger] shown[i]).store_key == k.store_key
                && shown[i].order_id == k.order.order.id,
{
    if exists|i: int|
        0 <= i < shown.len() && (#[trigger] shown[i]).store_key == k.store_key && shown[i].order_id
            == k.order.order.id {
        let i = choose|i: int|
            0 <= i < shown.len() && (#[trigger] shown[i]).store_key == k.store_key
                && shown[i].order_id == k.order.order.id;
        assert(shown[i] == (ShownPurchase { store_key: k.store_key, order_id: k.order.order.id }));
    }
}

/// A request is refused where its order is published, and else where its date
/// is before the epoch or more than a day away from now, either way; within a
/// day it is not refused.
pub proof fn a_request_is_refused_when_answered_or_a_day_off(
    published: Seq<AuthorizedOrder>,
    request: AnsweredRequest,
    now_ms: u64,
)
    ensures
        ({
            let answered = exists|i: int|
                0 <= i < published.len() && (#[trigger] published[i]).order.id == request.order_id;
            let at = request.requested_at_ms as int;
            let far = at < 0 || at > now_ms + 86_400_000 || at < now_ms - 86_400_000;
            &&& refusal_words(published, request, now_ms) is Some <==> answered || far
            &&& answered ==> refusal_words(published, request, now_ms) == Some(
                "this request has already been answered with an order; it is under Orders"@,
            )
            &&& !answered && far ==> refusal_words(published, request, now_ms) == Some(
                "this request is dated more than a day from now by the buyer's clock; ask them to send it again"@,
            )
            &&& refusal_of(published, Some(request), now_ms) == refusal_words(
                published,
                request,
                now_ms,
            )
        }),
        refusal_of(published, None, now_ms) is None,
{
}

/// A buyer at once waits half a minute before the store counts as not
/// responding.
pub proof fn a_store_has_half_a_minute_to_answer()
    ensures
        INSTANT_WAIT_MS == 30 * 1000,
        DAY_MS == 24 * 60 * 60 * 1000,
{
}

} // verus!
