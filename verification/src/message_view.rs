//! Buyer-to-seller messaging: what may be sent, what has arrived, who it can
//! be said to come from, and which requests a seller has still to answer.

use crate::bytes;
use crate::clock;
use crate::keys;
use crate::order::{self, Ranked};
use crate::payment::{AuthorizedOrder, Moment};
use crate::seqs;
use crate::text;
use vstd::prelude::*;

verus! {

/// Which direction a message was encrypted for. Both parties hold both keys,
/// so it is not proof of who wrote it.
#[derive(Debug, Clone, Copy, PartialEq, Eq, Structural)]
pub enum Addressing {
    ToBuyer,
    ToSeller,
}

/// What a message says.
#[derive(Debug, Clone, PartialEq, Eq)]
pub enum MessageContent {
    Text(String),
    InitiateTransaction { message: String },
    AcceptTransaction { message: String },
    Decline { reason: String },
    OrderRequest {
        listing_id: [u8; 32],
        quantity: u32,
        shipping: String,
        note: String,
        order_binding: [u8; 32],
    },
    /// The accepted order, and its id in short.
    OrderAccepted { order_id: [u8; 32], short: String },
}

/// One entry of a mailbox.
#[derive(Debug, Clone, PartialEq, Eq)]
pub enum MailboxEntry {
    Readable {
        conversation: Vec<u8>,
        addressing: Addressing,
        timestamp: Moment,
        /// The hash of the entry as it stands in the mailbox.
        digest: [u8; 32],
        content: MessageContent,
    },
    Unreadable { conversation: Vec<u8>, timestamp: Moment, digest: [u8; 32], why: String },
}

impl MailboxEntry {
    /// The conversation the entry belongs to.
    pub open spec fn tag(self) -> Seq<u8> {
        match self {
            MailboxEntry::Readable { conversation, .. } => conversation@,
            MailboxEntry::Unreadable { conversation, .. } => conversation@,
        }
    }

    /// The conversation the entry belongs to.
    pub fn conversation(&self) -> (r: &Vec<u8>)
        ensures
            r@ == self.tag(),
    {
        match self {
            MailboxEntry::Readable { conversation, .. } => conversation,
            MailboxEntry::Unreadable { conversation, .. } => conversation,
        }
    }

    /// The hash of the entry as it stands in the mailbox.
    pub open spec fn hash(self) -> [u8; 32] {
        match self {
            MailboxEntry::Readable { digest, .. } => digest,
            MailboxEntry::Unreadable { digest, .. } => digest,
        }
    }

    /// The hash of the entry as it stands in the mailbox.
    pub fn digest(&self) -> (r: [u8; 32])
        ensures
            r == self.hash(),
    {
        match self {
            MailboxEntry::Readable { digest, .. } => *digest,
            MailboxEntry::Unreadable { digest, .. } => *digest,
        }
    }

    /// The sender's own timestamp: chosen by whoever wrote the message and
    /// signed by nobody.
    pub fn timestamp(&self) -> (r: Moment)
        ensures
            r == (match *self {
                MailboxEntry::Readable { timestamp, .. } => timestamp,
                MailboxEntry::Unreadable { timestamp, .. } => timestamp,
            }),
    {
        match self {
            MailboxEntry::Readable { timestamp, .. } => *timestamp,
            MailboxEntry::Unreadable { timestamp, .. } => *timestamp,
        }
    }
}

/// What the messaging page of a store shows.
#[derive(Debug, Clone, PartialEq, Eq)]
pub enum MessageScreen {
    /// The store is the reader's own: its mailbox is read, not written to.
    Inbox,
    /// The store's details have not arrived.
    Loading,
    /// A message can be sealed to this key, and addressed to this identity.
    Compose { seller_encryption_key: [u8; 32], seller_verifying_key: [u8; 32] },
    /// The store cannot be messaged, and why.
    Unavailable(&'static str),
}

/// What the messaging page of a store shows. The compose box is there only
/// where a message can genuinely be sealed and addressed; otherwise the page
/// says which of the two is missing.
pub fn message_screen(
    owned: bool,
    loaded: bool,
    seller_key: &Option<[u8; 32]>,
    seller_identity: &Option<[u8; 32]>,
) -> (r: MessageScreen)
    ensures
        (if owned {
            r is Inbox
        } else if !loaded {
            r is Loading
        } else {
            match *seller_key {
                None => r matches MessageScreen::Unavailable(why) && why@
                    == "This seller has not published an encryption key, so there is no way to send them a private message. Stores created before Harvest supported messaging are in this state until the seller publishes their details again."@,
                Some(key) => match *seller_identity {
                    None => r matches MessageScreen::Unavailable(why) && why@
                        == "Harvest cannot confirm this store's identity, so it cannot work out where the seller's mailbox is. Either the store's ghostkey certificate does not check out, or the store was published by a newer version of Harvest than this one. A message sent anyway could land in a stranger's mailbox, so nothing is sent."@,
                    Some(identity) => r == (MessageScreen::Compose {
                        seller_encryption_key: key,
                        seller_verifying_key: identity,
                    }),
                },
            }
        }),
{
    if owned {
        return MessageScreen::Inbox;
    }
    if !loaded {
        return MessageScreen::Loading;
    }
    match (seller_key, seller_identity) {
        (Some(key), Some(identity)) => MessageScreen::Compose {
            seller_encryption_key: *key,
            seller_verifying_key: *identity,
        },
        (None, _) => MessageScreen::Unavailable(
            "This seller has not published an encryption key, so there is no way to send them a private message. Stores created before Harvest supported messaging are in this state until the seller publishes their details again.",
        ),
        (Some(_), None) => MessageScreen::Unavailable(
            "Harvest cannot confirm this store's identity, so it cannot work out where the seller's mailbox is. Either the store's ghostkey certificate does not check out, or the store was published by a newer version of Harvest than this one. A message sent anyway could land in a stranger's mailbox, so nothing is sent.",
        ),
    }
}

/// The name the messaging page calls a store by: the one it publishes, unless
/// that is blank.
pub fn contact_name(published: &Option<String>) -> (r: String)
    ensures
        r@ == (match *published {
            Some(name) => if text::trimmed(name@).len() > 0 {
                name@
            } else {
                "this store"@
            },
            None => "this store"@,
        }),
{
    match published {
        Some(name) => if text::trim(name).is_empty() {
            "this store".to_string()
        } else {
            name.clone()
        },
        None => "this store".to_string(),
    }
}

/// A conversation whose key this node keeps for the buyer.
#[derive(Debug, Clone, Copy, PartialEq, Eq)]
pub struct KeptConversation {
    pub buyer_public_key: [u8; 32],
    /// When it was started, in seconds since the epoch.
    pub created_at: i64,
    /// The buyer has said they hold a copy elsewhere.
    pub backed_up: bool,
}

/// How many of the conversations kept exist on this device alone.
pub open spec fn unsaved(kept: Seq<KeptConversation>) -> nat {
    kept.filter(|k: KeptConversation| !k.backed_up).len()
}

/// How many of the conversations kept exist on this device alone.
pub fn count_unsaved(kept: &Vec<KeptConversation>) -> (n: usize)
    ensures
        n == unsaved(kept@),
        n <= kept@.len(),
{
    let ghost keep = |k: KeptConversation| !k.backed_up;
    let mut n: usize = 0;
    let mut i: usize = 0;
    proof {
        seqs::lemma_filter_none(kept@, keep);
    }
    while i < kept.len()
        invariant
            i <= kept.len(),
            n <= i,
            keep == (|k: KeptConversation| !k.backed_up),
            n == kept@.take(i as int).filter(keep).len(),
        decreases kept.len() - i,
    {
        proof {
            seqs::lemma_filter_step(kept@, keep, i as int);
        }
        if !kept[i].backed_up {
            n = n + 1;
        }
        i = i + 1;
    }
    assert(kept@.take(i as int) =~= kept@);
    n
}

/// What the page says above the conversations kept: how many there are, and,
/// where some exist on this device alone, what that risks.
pub struct KeptWords {
    pub kept: Option<String>,
    pub warning: Option<String>,
}

/// What the page says above the conversations kept.
pub fn kept_words(kept: &Vec<KeptConversation>) -> (r: KeptWords)
    ensures
        (if kept@.len() == 0 {
            r.kept is None && r.warning is None
        } else {
            &&& r.kept matches Some(words)
            &&& words@ == "This node is keeping the key that reads "@ + text::decimal(kept@.len())
                + " conversation(s) with this store, so a reply is still readable after you close this tab."@
            &&& (match r.warning {
                Some(words) => unsaved(kept@) > 0 && words@ == text::decimal(unsaved(kept@))
                    + " of them exist on this device and nowhere else. If you lose this machine you lose the conversation, and anything the seller sent you in it. Make a backup you can keep somewhere else."@,
                None => unsaved(kept@) == 0,
            })
        }),
{
    if kept.len() == 0 {
        return KeptWords { kept: None, warning: None };
    }
    let lines = text::join3(
        "This node is keeping the key that reads ",
        &text::count_text(kept.len()),
        " conversation(s) with this store, so a reply is still readable after you close this tab.",
    );
    let n = count_unsaved(kept);
    let warning: Option<String> = if n > 0 {
        let mut words = text::count_text(n);
        words.append(
            " of them exist on this device and nowhere else. If you lose this machine you lose the conversation, and anything the seller sent you in it. Make a backup you can keep somewhere else.",
        );
        Some(words)
    } else {
        None
    };
    KeptWords { kept: Some(lines), warning }
}

/// The line above one conversation kept; `short` is its tag in short.
pub fn kept_heading(short: &str, created_at: i64) -> (r: String)
    ensures
        r@ == "Conversation "@ + short@ + ", started "@ + (match clock::minute_words(created_at) {
            Some(when) => when,
            None => "an unknown time"@,
        }),
{
    let mut r = text::join3("Conversation ", short, ", started ");
    match clock::minute(created_at) {
        Some(when) => {
            r.append(&when);
        },
        None => {
            r.append("an unknown time");
        },
    }
    r
}

/// What the page says about where a kept conversation exists.
pub fn backup_words(backed_up: bool) -> (r: &'static str)
    ensures
        r@ == (if backed_up {
            "You have said you hold a copy of this elsewhere."@
        } else {
            "On this device only."@
        }),
{
    if backed_up {
        "You have said you hold a copy of this elsewhere."
    } else {
        "On this device only."
    }
}

/// What a click on a conversation's controls asks for.
#[derive(Debug, Clone, Copy, PartialEq, Eq)]
pub enum ForgetClick {
    /// "Forget this conversation".
    Ask([u8; 32]),
    /// "Yes, forget it".
    Confirm([u8; 32]),
    /// "Keep it".
    Keep,
}

/// Which conversation is a click away from being forgotten, and which is to
/// be forgotten now. Forgetting takes two steps, since it cannot be undone:
/// only a confirmation of the conversation that was asked about forgets it.
pub fn forget_click(confirming: Option<[u8; 32]>, click: ForgetClick) -> (r: (
    Option<[u8; 32]>,
    Option<[u8; 32]>,
))
    ensures
        r == (match click {
            ForgetClick::Ask(tag) => (Some(tag), None),
            ForgetClick::Confirm(tag) => if confirming == Some(tag) {
                (None, Some(tag))
            } else {
                (confirming, None)
            },
            ForgetClick::Keep => (None, None),
        }),
{
    match click {
        ForgetClick::Ask(tag) => (Some(tag), None),
        ForgetClick::Confirm(tag) => match confirming {
            Some(asked) => if bytes::same_key(&asked, &tag) {
                (None, Some(tag))
            } else {
                (confirming, None)
            },
            None => (confirming, None),
        },
        ForgetClick::Keep => (None, None),
    }
}

/// The backup of one conversation, on screen.
#[derive(Debug, Clone, PartialEq, Eq)]
pub struct ConversationBackup {
    pub store_contract_id: Vec<u8>,
    pub buyer_public_key: [u8; 32],
    pub text: String,
}

/// The backup to show under one conversation's heading. One is on screen at a
/// time, and it never appears under another conversation's heading.
pub fn backup_shown<'a>(
    on_screen: &'a Option<ConversationBackup>,
    store_contract_id: &[u8],
    tag: &[u8; 32],
) -> (r: Option<&'a String>)
    ensures
        (match r {
            Some(shown) => *on_screen matches Some(b) && b.store_contract_id@ == store_contract_id@
                && b.buyer_public_key == *tag && *shown == b.text,
            None => !(*on_screen matches Some(b) && b.store_contract_id@ == store_contract_id@
                && b.buyer_public_key == *tag),
        }),
{
    match on_screen {
        Some(b) => if bytes::same_bytes(&b.store_contract_id, store_contract_id)
            && bytes::same_key(&b.buyer_public_key, tag) {
            Some(&b.text)
        } else {
            None
        },
        None => None,
    }
}

/// What a click on a conversation's backup comes to.
#[derive(Debug, Clone, Copy, PartialEq, Eq, Structural)]
pub enum BackupClick {
    /// "Back up this conversation".
    Show,
    /// "I have saved this".
    Saved,
    /// "Hide it".
    Hide,
}

/// What a click on a conversation's backup does.
#[derive(Debug, Clone, Copy, PartialEq, Eq, Structural)]
pub struct BackupStep {
    /// Ask the delegate for the backup.
    pub export: bool,
    /// Mark the conversation as backed up.
    pub mark_saved: bool,
    /// Take the backup off the screen.
    pub take_down: bool,
}

/// What a click on a conversation's backup does. Showing a backup is not
/// saving one: only the buyer saying they have it marks it as saved.
pub fn backup_click(click: BackupClick) -> (r: BackupStep)
    ensures
        r.export == (click == BackupClick::Show),
        r.mark_saved == (click == BackupClick::Saved),
        r.take_down == (click != BackupClick::Show),
{
    match click {
        BackupClick::Show => BackupStep { export: true, mark_saved: false, take_down: false },
        BackupClick::Saved => BackupStep { export: false, mark_saved: true, take_down: true },
        BackupClick::Hide => BackupStep { export: false, mark_saved: false, take_down: true },
    }
}

/// A box to write in, and what went wrong with the last try.
#[derive(Debug, Clone, PartialEq, Eq)]
pub struct ComposeBox {
    pub draft: String,
    pub problem: Option<String>,
}

impl ComposeBox {
    /// What a click on the button submits: the text without the white space
    /// around it, and nothing where there is no text.
    pub fn submitted(&self) -> (r: Option<String>)
        ensures
            (match r {
                Some(words) => words@ == text::trimmed(self.draft@) && words@.len() > 0,
                None => text::trimmed(self.draft@).len() == 0,
            }),
    {
        let words = text::trim(&self.draft);
        if words.is_empty() {
            None
        } else {
            Some(words.to_string())
        }
    }

    /// Take note of how a submission went: what was sent is cleared, and what
    /// was not stays beside the reason.
    pub fn note_outcome(&mut self, outcome: Result<(), String>)
        ensures
            (match outcome {
                Ok(_) => final(self).draft@.len() == 0 && final(self).problem is None,
                Err(why) => final(self).draft == old(self).draft && final(self).problem == Some(why),
            }),
    {
        match outcome {
            Ok(_) => {
                self.draft = String::new();
                self.problem = None;
            },
            Err(why) => {
                self.problem = Some(why);
            },
        }
    }
}

/// One thing to do to get a sealed message to a mailbox.
#[derive(Debug, Clone, PartialEq, Eq)]
pub enum DeliveryStep {
    /// Subscribe to the seller's mailbox, so that a reply can be read.
    Subscribe(Vec<u8>),
    /// Hand the sealed message to the node, for this mailbox.
    HandOver(Vec<u8>, Vec<u8>),
    /// Record that this browser wrote the sealed message, under these words.
    Record(String, Vec<u8>),
}

/// What a step does, and with what.
#[verifier::ext_equal]
pub enum StepView {
    Subscribe(Seq<u8>),
    HandOver(Seq<u8>, Seq<u8>),
    Record(Seq<char>, Seq<u8>),
}

impl View for DeliveryStep {
    type V = StepView;

    open spec fn view(&self) -> StepView {
        match *self {
            DeliveryStep::Subscribe(mailbox) => StepView::Subscribe(mailbox@),
            DeliveryStep::HandOver(mailbox, sealed) => StepView::HandOver(mailbox@, sealed@),
            DeliveryStep::Record(words, sealed) => StepView::Record(words@, sealed@),
        }
    }
}

/// What some steps do.
pub open spec fn step_views(steps: Seq<DeliveryStep>) -> Seq<StepView> {
    steps.map_values(|s: DeliveryStep| s@)
}

/// Whether a message can be sent to a seller with this identity key at all.
pub fn usable_seller(seller_verifying_key: &[u8; 32]) -> (r: Result<(), String>)
    ensures
        (match r {
            Ok(_) => keys::is_verifying_key(seller_verifying_key@),
            Err(why) => !keys::is_verifying_key(seller_verifying_key@) && why@
                == "this store's identity key is unusable: "@ + keys::key_problem(
                seller_verifying_key@,
            )->0,
        }),
{
    match keys::problem_with_key(seller_verifying_key) {
        None => Ok(()),
        Some(why) => {
            let mut words = "this store's identity key is unusable: ".to_string();
            words.append(&why);
            Err(words)
        },
    }
}

/// Everything a buyer's outgoing message needs once it is sealed: subscribe,
/// hand over, and record, in that order. Without the subscription the
/// seller's answer would sit unread; and what could not be addressed is not
/// recorded as written. `mailbox` is where the seller's mailbox is, or why
/// that is not known.
pub fn deliver_to_seller(mailbox: Result<Vec<u8>, String>, sealed: &Vec<u8>, record_as: String) -> (r:
    Result<Vec<DeliveryStep>, String>)
    ensures
        (match mailbox {
            Ok(mailbox) => r matches Ok(steps) && step_views(steps@) == seq![
                StepView::Subscribe(mailbox@),
                StepView::HandOver(mailbox@, sealed@),
                StepView::Record(record_as@, sealed@),
            ],
            Err(why) => r == Err::<Vec<DeliveryStep>, String>(why),
        }),
{
    let mailbox = match mailbox {
        Ok(mailbox) => mailbox,
        Err(why) => {
            return Err(why);
        },
    };
    let mut steps: Vec<DeliveryStep> = Vec::new();
    steps.push(DeliveryStep::Subscribe(bytes::copy_bytes(&mailbox)));
    steps.push(DeliveryStep::HandOver(mailbox, bytes::copy_bytes(sealed)));
    steps.push(DeliveryStep::Record(record_as, bytes::copy_bytes(sealed)));
    assert(step_views(steps@) =~= seq![
        StepView::Subscribe(mailbox@),
        StepView::HandOver(mailbox@, sealed@),
        StepView::Record(record_as@, sealed@),
    ]);
    Ok(steps)
}

/// What sending one message comes to, once sealing it was tried: what could
/// not be sealed is neither handed over nor recorded.
pub fn send(
    seller_verifying_key: &[u8; 32],
    sealed: Result<Vec<u8>, String>,
    mailbox: Result<Vec<u8>, String>,
    text: String,
) -> (r: Result<Vec<DeliveryStep>, String>)
    ensures
        (if !keys::is_verifying_key(seller_verifying_key@) {
            r matches Err(why) && why@ == "this store's identity key is unusable: "@
                + keys::key_problem(seller_verifying_key@)->0
        } else {
            match sealed {
                Err(why) => r == Err::<Vec<DeliveryStep>, String>(why),
                Ok(sealed) => match mailbox {
                    Err(why) => r == Err::<Vec<DeliveryStep>, String>(why),
                    Ok(mailbox) => r matches Ok(steps) && step_views(steps@) == seq![
                        StepView::Subscribe(mailbox@),
                        StepView::HandOver(mailbox@, sealed@),
                        StepView::Record(text@, sealed@),
                    ],
                },
            }
        }),
{
    match usable_seller(seller_verifying_key) {
        Err(why) => Err(why),
        Ok(_) => match sealed {
            Err(why) => Err(why),
            Ok(sealed) => deliver_to_seller(mailbox, &sealed, text),
        },
    }
}

/// What sending a seller's reply comes to: handed over, and recorded, since
/// that is the only thing this browser can know about authorship.
pub fn reply(sealed: Result<Vec<u8>, String>, mailbox: Option<Vec<u8>>, text: String) -> (r: Result<
    Vec<DeliveryStep>,
    String,
>)
    ensures
        (match sealed {
            Err(why) => r == Err::<Vec<DeliveryStep>, String>(why),
            Ok(sealed) => match mailbox {
                None => r matches Err(why) && why@
                    == "this store's mailbox id is not known, so there is nowhere to reply into"@,
                Some(mailbox) => r matches Ok(steps) && step_views(steps@) == seq![
                    StepView::HandOver(mailbox@, sealed@),
                    StepView::Record(text@, sealed@),
                ],
            },
        }),
{
    let sealed = match sealed {
        Err(why) => {
            return Err(why);
        },
        Ok(sealed) => sealed,
    };
    let mailbox = match mailbox {
        None => {
            return Err(
                "this store's mailbox id is not known, so there is nowhere to reply into".to_string(),
            );
        },
        Some(mailbox) => mailbox,
    };
    let mut steps: Vec<DeliveryStep> = Vec::new();
    steps.push(DeliveryStep::HandOver(mailbox, bytes::copy_bytes(&sealed)));
    steps.push(DeliveryStep::Record(text, sealed));
    assert(step_views(steps@) =~= seq![
        StepView::HandOver(mailbox@, sealed@),
        StepView::Record(text@, sealed@),
    ]);
    Ok(steps)
}

/// What the user is told when the node could not be reached.
pub fn hand_over_failed(is_reply: bool, why: &str) -> (r: String)
    ensures
        r@ == (if is_reply {
            "Your reply could not be sent: "@
        } else {
            "Your message could not be sent: "@
        }) + why@,
{
    let mut words = if is_reply {
        "Your reply could not be sent: ".to_string()
    } else {
        "Your message could not be sent: ".to_string()
    };
    words.append(why);
    words
}

/// Which side of a conversation this browser is on.
#[derive(Debug, Clone, Copy, PartialEq, Eq, Structural)]
pub enum Role {
    Buyer,
    Seller,
}

/// What to put above a message, given what is actually known about it.
///
/// Only one thing is knowable: what this browser sent itself. That gets a
/// name. Everything else is described by direction, in words that say
/// direction, "addressed to" and not "from".
pub open spec fn attribution_words(authored_here: bool, addressing: Addressing, role: Role) -> Seq<
    char,
> {
    if authored_here {
        "You, from this tab"@
    } else {
        match (role, addressing) {
            (Role::Buyer, Addressing::ToBuyer) => "Addressed to you"@,
            (Role::Buyer, Addressing::ToSeller) => "Addressed to the seller"@,
            (Role::Seller, Addressing::ToSeller) => "Addressed to you"@,
            (Role::Seller, Addressing::ToBuyer) => "Addressed to this buyer"@,
        }
    }
}

/// What to put above a message.
pub fn attribution(authored_here: bool, addressing: Addressing, role: Role) -> (r: &'static str)
    ensures
        r@ == attribution_words(authored_here, addressing, role),
{
    if authored_here {
        return "You, from this tab";
    }
    match (role, addressing) {
        (Role::Buyer, Addressing::ToBuyer) => "Addressed to you",
        (Role::Buyer, Addressing::ToSeller) => "Addressed to the seller",
        (Role::Seller, Addressing::ToSeller) => "Addressed to you",
        (Role::Seller, Addressing::ToBuyer) => "Addressed to this buyer",
    }
}

/// A message is called the reader's own only where this browser sent it: no
/// direction and no role makes another's message read as theirs.
pub proof fn only_what_was_sent_here_is_called_yours(
    authored_here: bool,
    addressing: Addressing,
    role: Role,
)
    ensures
        attribution_words(authored_here, addressing, role) == "You, from this tab"@
            <==> authored_here,
{
    reveal_strlit("You, from this tab");
    reveal_strlit("Addressed to you");
    reveal_strlit("Addressed to the seller");
    reveal_strlit("Addressed to this buyer");
    assert("You, from this tab"@[0] == 'Y');
    assert("Addressed to you"@[0] == 'A');
    assert("Addressed to the seller"@[0] == 'A');
    assert("Addressed to this buyer"@[0] == 'A');
}

/// What to show for one message's content.
pub open spec fn described(content: MessageContent) -> Seq<char> {
    match content {
        MessageContent::Text(words) => words@,
        MessageContent::InitiateTransaction { message } => message@
            + "\n\n(This message also carries a feedback-token request, which this version of Harvest cannot act on.)"@,
        MessageContent::AcceptTransaction { message } => message@
            + "\n\n(This message also carries a blind signature, which this version of Harvest cannot act on.)"@,
        MessageContent::Decline { reason } => "Declined: "@ + reason@,
        MessageContent::OrderRequest { quantity, shipping, note, .. } => "Wants to buy "@
            + text::decimal(quantity as nat) + ".\n\nShip to:\n"@ + shipping@ + (if text::trimmed(
            note@,
        ).len() > 0 {
            "\n\n"@ + note@
        } else {
            Seq::empty()
        }),
        MessageContent::OrderAccepted { short, .. } => "Accepted -- invoice "@ + short@
            + " is published."@,
    }
}

/// What to show for one message's content. What this build cannot act on is
/// named rather than shown as nothing.
pub fn describe(content: &MessageContent) -> (r: String)
    ensures
        r@ == described(*content),
{
    match content {
        MessageContent::Text(words) => words.clone(),
        MessageContent::InitiateTransaction { message } => {
            let mut r = message.clone();
            r.append(
                "\n\n(This message also carries a feedback-token request, which this version of Harvest cannot act on.)",
            );
            r
        },
        MessageContent::AcceptTransaction { message } => {
            let mut r = message.clone();
            r.append(
                "\n\n(This message also carries a blind signature, which this version of Harvest cannot act on.)",
            );
            r
        },
        MessageContent::Decline { reason } => {
            let mut r = "Declined: ".to_string();
            r.append(reason);
            r
        },
        MessageContent::OrderRequest { quantity, shipping, note, .. } => {
            let mut r = text::join3(
                "Wants to buy ",
                &text::decimal_text(*quantity as u64),
                ".\n\nShip to:\n",
            );
            r.append(shipping);
            if !text::trim(note).is_empty() {
                let ghost before = r@;
                r.append("\n\n");
                r.append(note);
                assert(r@ =~= before + ("\n\n"@ + note@));
            } else {
                assert(r@ + Seq::<char>::empty() =~= r@);
            }
            r
        },
        MessageContent::OrderAccepted { short, .. } => text::join3(
            "Accepted -- invoice ",
            short,
            " is published.",
        ),
    }
}

/// One message as it is shown.
#[derive(Debug, Clone, PartialEq, Eq)]
pub struct MessageCard {
    /// Who the message can be said to come from or go to; nothing where it
    /// cannot be read.
    pub who: Option<&'static str>,
    pub body: String,
    /// The sender's timestamp, labelled as a claim.
    pub when: Option<String>,
}

/// When a message says it was written, labelled as the claim it is.
pub open spec fn claimed_time(secs: i64) -> Option<Seq<char>> {
    match clock::minute_words(secs) {
        Some(words) => Some("Sender's timestamp: "@ + words),
        None => None,
    }
}

fn claimed_time_words(secs: i64) -> (r: Option<String>)
    ensures
        (match r {
            Some(words) => claimed_time(secs) == Some(words@),
            None => claimed_time(secs) is None,
        }),
{
    match clock::minute(secs) {
        Some(words) => {
            let mut line = "Sender's timestamp: ".to_string();
            line.append(&words);
            Some(line)
        },
        None => None,
    }
}

/// The card of one entry of the seller's inbox. What cannot be read is shown
/// too, so that "nobody wrote" and "it cannot be read" stay apart.
pub fn message_card(entry: &MailboxEntry, authored_here: bool) -> (r: MessageCard)
    ensures
        (match *entry {
            MailboxEntry::Readable { addressing, content, .. } => {
                &&& r.who matches Some(who)
                &&& who@ == attribution_words(authored_here, addressing, Role::Seller)
                &&& r.body@ == described(content)
            },
            MailboxEntry::Unreadable { why, .. } => r.who is None && r.body@ == "Cannot be read: "@
                + why@,
        }),
        ({
            let secs = match *entry {
                MailboxEntry::Readable { timestamp, .. } => timestamp.secs,
                MailboxEntry::Unreadable { timestamp, .. } => timestamp.secs,
            };
            match r.when {
                Some(words) => claimed_time(secs) == Some(words@),
                None => claimed_time(secs) is None,
            }
        }),
{
    let when = claimed_time_words(entry.timestamp().secs);
    match entry {
        MailboxEntry::Readable { addressing, content, .. } => MessageCard {
            who: Some(attribution(authored_here, *addressing, Role::Seller)),
            body: describe(content),
            when,
        },
        MailboxEntry::Unreadable { why, .. } => {
            let mut body = "Cannot be read: ".to_string();
            body.append(why);
            MessageCard { who: None, body, when }
        },
    }
}

/// One message of a buyer's conversation with a store.
#[derive(Debug, Clone, PartialEq, Eq)]
pub struct ConversationMessage {
    pub addressing: Addressing,
    pub timestamp: Moment,
    pub digest: [u8; 32],
    pub content: MessageContent,
}

/// The card of one message of the buyer's thread; `authored` are the digests
/// of what this browser wrote.
pub fn thread_card(message: &ConversationMessage, authored: &Vec<[u8; 32]>) -> (r: MessageCard)
    ensures
        r.who matches Some(who) && who@ == attribution_words(
            is_authored(authored@, message.digest),
            message.addressing,
            Role::Buyer,
        ),
        r.body@ == described(message.content),
        (match r.when {
            Some(words) => claimed_time(message.timestamp.secs) == Some(words@),
            None => claimed_time(message.timestamp.secs) is None,
        }),
{
    MessageCard {
        who: Some(
            attribution(authored_here(authored, &message.digest), message.addressing, Role::Buyer),
        ),
        body: describe(&message.content),
        when: claimed_time_words(message.timestamp.secs),
    }
}

/// Whether a digest is among some.
pub open spec fn is_authored(authored: Seq<[u8; 32]>, digest: [u8; 32]) -> bool {
    exists|i: int| 0 <= i < authored.len() && #[trigger] authored[i] == digest
}

/// Whether this browser wrote the entry with this digest: the only authorship
/// it can establish.
pub fn authored_here(authored: &Vec<[u8; 32]>, digest: &[u8; 32]) -> (r: bool)
    ensures
        r == is_authored(authored@, *digest),
{
    let mut i: usize = 0;
    while i < authored.len()
        invariant
            i <= authored.len(),
            forall|j: int| 0 <= j < i ==> (#[trigger] authored@[j]) != *digest,
        decreases authored.len() - i,
    {
        if bytes::same_key(&authored[i], digest) {
            return true;
        }
        i = i + 1;
    }
    false
}

/// The conversations of a mailbox, each in the place of its first entry.
pub open spec fn tags(entries: Seq<MailboxEntry>) -> Seq<Seq<u8>>
    decreases entries.len(),
{
    if entries.len() == 0 {
        Seq::empty()
    } else {
        let before = tags(entries.drop_last());
        let tag = entries.last().tag();
        if before.contains(tag) {
            before
        } else {
            before.push(tag)
        }
    }
}

/// The entries of one conversation, in order.
pub open spec fn of_conversation(entries: Seq<MailboxEntry>, tag: Seq<u8>) -> Seq<MailboxEntry> {
    entries.filter(|e: MailboxEntry| e.tag() == tag)
}

/// One conversation of a mailbox.
pub struct InboxGroup<'a> {
    pub tag: &'a Vec<u8>,
    pub entries: Vec<&'a MailboxEntry>,
}

/// Whether some groups are the conversations of `entries`.
pub open spec fn groups_of(groups: Seq<InboxGroup>, entries: Seq<MailboxEntry>) -> bool {
    &&& groups.len() == tags(entries).len()
    &&& forall|i: int|
        0 <= i < groups.len() ==> (#[trigger] groups[i]).tag@ == tags(entries)[i]
            && order::behind(groups[i].entries@) == of_conversation(entries, tags(entries)[i])
}

/// The entries of a mailbox by conversation, each conversation in the place
/// of its first entry. A reply belongs to a conversation rather than to a
/// message.
pub fn conversations<'a>(entries: &'a Vec<MailboxEntry>) -> (r: Vec<InboxGroup<'a>>)
    ensures
        groups_of(r@, entries@),
{
    let mut groups: Vec<InboxGroup<'a>> = Vec::new();
    let mut i: usize = 0;
    assert(entries@.take(0) =~= Seq::empty());
    while i < entries.len()
        invariant
            i <= entries.len(),
            groups_of(groups@, entries@.take(i as int)),
        decreases entries.len() - i,
    {
        let entry = &entries[i];
        let ghost done = entries@.take(i as int);
        let ghost next = entries@.take(i + 1);
        proof {
            assert(next.drop_last() =~= done);
            assert(next.last() == *entry);
        }
        let at = place_of(&groups, entry.conversation());
        proof {
            lemma_tags(done);
            assert forall|t: Seq<u8>| #[trigger] of_conversation(next, t) == (if entry.tag() == t {
                of_conversation(done, t).push(*entry)
            } else {
                of_conversation(done, t)
            }) by {
                seqs::lemma_filter_step(
                    entries@,
                    |e: MailboxEntry| e.tag() == t,
                    i as int,
                );
            }
        }
        if at < groups.len() {
            let ghost before = groups@;
            let mut group = groups.remove(at);
            let ghost held = group.entries@;
            group.entries.push(entry);
            assert(order::behind(group.entries@) =~= order::behind(held).push(*entry));
            groups.insert(at, group);
            proof {
                assert(tags(done)[at as int] == entry.tag());
                assert(tags(done).contains(entry.tag()));
                assert forall|k: int| 0 <= k < groups@.len() implies (#[trigger] groups@[k]).tag@
                    == tags(next)[k] && order::behind(groups@[k].entries@) == of_conversation(
                    next,
                    tags(next)[k],
                ) by {
                    if k != at {
                        assert(groups@[k] == before[k]);
                        assert(tags(done)[k] != tags(done)[at as int]);
                    }
                }
            }
        } else {
            let ghost before = groups@;
            let mut one: Vec<&'a MailboxEntry> = Vec::new();
            one.push(entry);
            assert(order::behind(one@) =~= seq![*entry]);
            groups.push(InboxGroup { tag: entry.conversation(), entries: one });
            proof {
                if tags(done).contains(entry.tag()) {
                    let k = tags(done).index_of(entry.tag());
                    assert(before[k].tag@ == tags(done)[k]);
                }
                lemma_unknown_tag(done, entry.tag());
                assert forall|k: int| 0 <= k < groups@.len() implies (#[trigger] groups@[k]).tag@
                    == tags(next)[k] && order::behind(groups@[k].entries@) == of_conversation(
                    next,
                    tags(next)[k],
                ) by {
                    if k < before.len() {
                        assert(groups@[k] == before[k]);
                        assert(tags(done).contains(tags(done)[k]));
                    } else {
                        assert(of_conversation(next, entry.tag()) =~= seq![*entry]);
                    }
                }
            }
        }
        i = i + 1;
    }
    assert(entries@.take(i as int) =~= entries@);
    groups
}

/// Where the group of a conversation is, or the number of groups.
fn place_of<'a>(groups: &Vec<InboxGroup<'a>>, tag: &Vec<u8>) -> (at: usize)
    ensures
        at <= groups@.len(),
        at < groups@.len() ==> groups@[at as int].tag@ == tag@,
        forall|k: int| 0 <= k < at ==> (#[trigger] groups@[k]).tag@ != tag@,
{
    let mut at: usize = 0;
    while at < groups.len()
        invariant
            at <= groups@.len(),
            forall|k: int| 0 <= k < at ==> (#[trigger] groups@[k]).tag@ != tag@,
        decreases groups.len() - at,
    {
        if bytes::same_bytes(groups[at].tag, tag) {
            return at;
        }
        at = at + 1;
    }
    at
}

proof fn lemma_tags(entries: Seq<MailboxEntry>)
    ensures
        tags(entries).no_duplicates(),
        forall|i: int| 0 <= i < entries.len() ==> tags(entries).contains(
            (#[trigger] entries[i]).tag(),
        ),
    decreases entries.len(),
{
    if entries.len() > 0 {
        let rest = entries.drop_last();
        lemma_tags(rest);
        let before = tags(rest);
        assert forall|i: int| 0 <= i < entries.len() implies tags(entries).contains(
            (#[trigger] entries[i]).tag(),
        ) by {
            if i < rest.len() {
                assert(rest[i] == entries[i]);
                let k = before.index_of(entries[i].tag());
                assert(before.contains(rest[i].tag()));
                assert(tags(entries)[k] == entries[i].tag());
            } else if !before.contains(entries.last().tag()) {
                assert(tags(entries)[before.len() as int] == entries.last().tag());
            }
        }
    }
}

proof fn lemma_unknown_tag(entries: Seq<MailboxEntry>, tag: Seq<u8>)
    requires
        !tags(entries).contains(tag),
    ensures
        of_conversation(entries, tag) == Seq::<MailboxEntry>::empty(),
    decreases entries.len(),
{
    reveal(Seq::filter);
    if entries.len() > 0 {
        let rest = entries.drop_last();
        let before = tags(rest);
        if before.contains(tag) {
            let k = before.index_of(tag);
            assert(tags(entries)[k] == tag);
        }
        lemma_unknown_tag(rest, tag);
        if entries.last().tag() == tag {
            lemma_tags(entries);
            assert(tags(entries).contains(entries[entries.len() - 1].tag()));
        }
    }
}

/// Every message of a mailbox is in one conversation: no conversation stands
/// twice, each entry's conversation is among them, and the conversation holds
/// it.
pub proof fn every_message_is_in_one_conversation(entries: Seq<MailboxEntry>, i: int)
    requires
        0 <= i < entries.len(),
    ensures
        tags(entries).no_duplicates(),
        tags(entries).contains(entries[i].tag()),
        of_conversation(entries, entries[i].tag()).contains(entries[i]),
        forall|t: Seq<u8>|
            t != entries[i].tag() ==> !(#[trigger] of_conversation(entries, t)).contains(
                entries[i],
            ),
{
    lemma_tags(entries);
    let tag = entries[i].tag();
    entries.lemma_filter_contains(|e: MailboxEntry| e.tag() == tag, i);
    assert forall|t: Seq<u8>| t != entries[i].tag() implies !(
    #[trigger] of_conversation(entries, t)).contains(entries[i]) by {
        let held = of_conversation(entries, t);
        if held.contains(entries[i]) {
            let k = held.index_of(entries[i]);
            entries.lemma_filter_pred(|e: MailboxEntry| e.tag() == t, k);
        }
    }
}

/// Whether an entry can be read.
pub open spec fn is_readable(e: MailboxEntry) -> bool {
    e is Readable
}

/// How many entries of a mailbox cannot be read.
pub fn count_unreadable(entries: &Vec<MailboxEntry>) -> (n: usize)
    ensures
        n == entries@.filter(|e: MailboxEntry| !is_readable(e)).len(),
        n <= entries@.len(),
{
    let ghost keep = |e: MailboxEntry| !is_readable(e);
    let mut n: usize = 0;
    let mut i: usize = 0;
    proof {
        seqs::lemma_filter_none(entries@, keep);
    }
    while i < entries.len()
        invariant
            i <= entries.len(),
            n <= i,
            keep == (|e: MailboxEntry| !is_readable(e)),
            n == entries@.take(i as int).filter(keep).len(),
        decreases entries.len() - i,
    {
        proof {
            seqs::lemma_filter_step(entries@, keep, i as int);
        }
        match &entries[i] {
            MailboxEntry::Unreadable { .. } => {
                n = n + 1;
            },
            MailboxEntry::Readable { .. } => {},
        }
        i = i + 1;
    }
    assert(entries@.take(i as int) =~= entries@);
    n
}

/// What the inbox says above its conversations.
#[derive(Debug, Clone, PartialEq, Eq)]
pub struct InboxWords {
    /// How much there is, or that there is nothing.
    pub count: String,
    /// How much of it cannot be read, where some cannot.
    pub unreadable: Option<String>,
}

/// What the inbox says above its conversations.
pub fn inbox_words(entries: &Vec<MailboxEntry>) -> (r: InboxWords)
    ensures
        ({
            let hidden = entries@.filter(|e: MailboxEntry| !is_readable(e)).len();
            if entries@.len() == 0 {
                r.count@ == "No one has written to this store yet."@ && r.unreadable is None
            } else {
                &&& r.count@ == text::decimal(entries@.len()) + " message(s) in "@ + text::decimal(
                    tags(entries@).len(),
                ) + " conversation(s)"@
                &&& (match r.unreadable {
                    Some(words) => hidden > 0 && words@ == text::decimal(hidden)
                        + " of these cannot be read. Anyone can write to this mailbox, so some entries are junk or were encrypted to a key you do not hold."@,
                    None => hidden == 0,
                })
            }
        }),
{
    let hidden = count_unreadable(entries);
    if entries.len() == 0 {
        return InboxWords {
            count: "No one has written to this store yet.".to_string(),
            unreadable: None,
        };
    }
    let groups = conversations(entries);
    let mut count = text::join3(
        &text::count_text(entries.len()),
        " message(s) in ",
        &text::count_text(groups.len()),
    );
    count.append(" conversation(s)");
    let unreadable = if hidden > 0 {
        let mut words = text::count_text(hidden);
        words.append(
            " of these cannot be read. Anyone can write to this mailbox, so some entries are junk or were encrypted to a key you do not hold.",
        );
        Some(words)
    } else {
        None
    };
    InboxWords { count, unreadable }
}

/// Whether a conversation can be replied to: a reply has to name the
/// conversation, which only a message that can be read carries.
pub fn can_reply(entries: &Vec<&MailboxEntry>) -> (r: bool)
    ensures
        r == exists|i: int| 0 <= i < entries@.len() && is_readable(*#[trigger] entries@[i]),
{
    let mut i: usize = 0;
    while i < entries.len()
        invariant
            i <= entries.len(),
            forall|j: int| 0 <= j < i ==> !is_readable(*#[trigger] entries@[j]),
        decreases entries.len() - i,
    {
        match entries[i] {
            MailboxEntry::Readable { .. } => {
                assert(is_readable(*entries@[i as int]));
                return true;
            },
            MailboxEntry::Unreadable { .. } => {},
        }
        i = i + 1;
    }
    false
}

/// The tags a conversation's keys give to listings: what stands for a
/// listing's id in the orders of that conversation.
#[derive(Debug, Clone, PartialEq, Eq)]
pub struct ConversationTags {
    pub tags: Vec<ListingTag>,
}

/// The tag one conversation's keys give to one listing.
#[derive(Debug, Clone, Copy, PartialEq, Eq)]
pub struct ListingTag {
    pub listing_id: [u8; 32],
    pub tag: [u8; 32],
}

/// The tag of a listing among some.
pub open spec fn tag_of(tags: Seq<ListingTag>, listing_id: [u8; 32]) -> Option<[u8; 32]> {
    match seqs::find_first(tags, |t: ListingTag| t.listing_id == listing_id) {
        Some(t) => Some(t.tag),
        None => None,
    }
}

impl ConversationTags {
    /// The tag of a listing.
    pub fn listing_tag(&self, listing_id: &[u8; 32]) -> (r: Option<[u8; 32]>)
        ensures
            r == tag_of(self.tags@, *listing_id),
    {
        let ghost want = |t: ListingTag| t.listing_id == *listing_id;
        let mut i: usize = 0;
        while i < self.tags.len()
            invariant
                i <= self.tags.len(),
                want == (|t: ListingTag| t.listing_id == *listing_id),
                forall|j: int| 0 <= j < i ==> !want(#[trigger] self.tags@[j]),
            decreases self.tags.len() - i,
        {
            if bytes::same_key(&self.tags[i].listing_id, listing_id) {
                proof {
                    seqs::lemma_find_first(self.tags@, want, i as int);
                }
                return Some(self.tags[i].tag);
            }
            i = i + 1;
        }
        proof {
            seqs::lemma_find_first(self.tags@, want, i as int);
        }
        None
    }
}

/// One listing of a store, as its requests are named by.
#[derive(Debug, Clone, PartialEq, Eq)]
pub struct ListingName {
    pub id: [u8; 32],
    pub title: String,
}

/// What a buyer asks for.
#[derive(Debug, Clone, Copy, PartialEq, Eq)]
pub struct Ask {
    pub listing_id: [u8; 32],
    pub quantity: u32,
    pub order_binding: [u8; 32],
    pub digest: [u8; 32],
}

impl Ranked for Ask {
    /// By the entry's own content, and not by a timestamp the sender chose.
    open spec fn ranks_before(&self, other: &Self) -> bool {
        bytes::bytes_before(self.digest@, other.digest@)
    }

    fn before(&self, other: &Self) -> (yes: bool) {
        bytes::comes_before(&self.digest, &other.digest)
    }

    proof fn ranking(a: &Self, b: &Self, c: &Self) {
        bytes::byte_order_is_total(a.digest@, b.digest@);
        bytes::byte_order_is_total(b.digest@, c.digest@);
        bytes::byte_order_is_total(a.digest@, c.digest@);
        if bytes::bytes_before(c.digest@, a.digest@) && bytes::bytes_before(a.digest@, b.digest@) {
            bytes::byte_order_is_transitive(c.digest@, a.digest@, b.digest@);
        }
    }
}

/// What an entry asks for, where it is a request to buy.
pub open spec fn ask_in(entry: MailboxEntry) -> Option<Ask> {
    match entry {
        MailboxEntry::Readable { content, digest, .. } => match content {
            MessageContent::OrderRequest { listing_id, quantity, order_binding, .. } => Some(
                Ask { listing_id, quantity, order_binding, digest },
            ),
            _ => None,
        },
        MailboxEntry::Unreadable { .. } => None,
    }
}

/// Whether a conversation's tags, where its keys are known, have one for the
/// listing an entry asks for.
pub open spec fn tags_ask(keys: Option<ConversationTags>, entry: MailboxEntry) -> bool {
    keys matches Some(keys) ==> (ask_in(entry) matches Some(ask) ==> tag_of(
        keys.tags@,
        ask.listing_id,
    ) is Some)
}

/// Whether they have one for every listing that some entries ask for.
pub open spec fn tags_cover(keys: Option<ConversationTags>, entries: Seq<&MailboxEntry>) -> bool {
    forall|i: int| 0 <= i < entries.len() ==> tags_ask(keys, *#[trigger] entries[i])
}

/// Whether a conversation's tags have one for every listing that some entries
/// ask for.
pub fn covers(keys: &Option<ConversationTags>, entries: &Vec<&MailboxEntry>) -> (r: bool)
    ensures
        r == tags_cover(*keys, entries@),
{
    let tags = match keys {
        Some(tags) => tags,
        None => {
            return true;
        },
    };
    let mut i: usize = 0;
    while i < entries.len()
        invariant
            i <= entries.len(),
            *keys == Some(*tags),
            forall|j: int| 0 <= j < i ==> tags_ask(*keys, *#[trigger] entries@[j]),
        decreases entries.len() - i,
    {
        if let MailboxEntry::Readable {
            content: MessageContent::OrderRequest { listing_id, .. },
            ..
        } = entries[i] {
            if tags.listing_tag(listing_id).is_none() {
                assert(!tags_ask(*keys, *entries@[i as int]));
                return false;
            }
        }
        i = i + 1;
    }
    true
}

/// Whether an order of the store's own answers a request: it carries the
/// request's binding and its listing's tag. Without the conversation's keys
/// nothing can be matched.
pub open spec fn is_answered(
    ask: Ask,
    published: Seq<AuthorizedOrder>,
    keys: Option<ConversationTags>,
) -> bool {
    keys matches Some(keys) && (tag_of(keys.tags@, ask.listing_id) matches Some(tag) && exists|
        i: int,
    |
        0 <= i < published.len() && #[trigger] answers(published[i], ask, tag))
}

/// Whether an order carries a request's binding, and this tag.
pub open spec fn answers(o: AuthorizedOrder, ask: Ask, tag: [u8; 32]) -> bool {
    o.order.order_binding == Some(ask.order_binding) && o.order.listing_tag == Some(tag)
}

/// Whether two asks are for the same thing.
pub open spec fn same_ask(a: Ask, b: Ask) -> bool {
    a.listing_id == b.listing_id && a.quantity == b.quantity
}

/// Whether an ask for the same thing is among some.
pub open spec fn is_held(held: Seq<Ask>, ask: Ask) -> bool {
    exists|i: int| 0 <= i < held.len() && #[trigger] same_ask(held[i], ask)
}

/// The requests of a conversation that nothing answers, the first of each
/// that ask for the same thing, in the order of the entries.
pub open spec fn asked(
    entries: Seq<&MailboxEntry>,
    published: Seq<AuthorizedOrder>,
    keys: Option<ConversationTags>,
) -> Seq<Ask>
    decreases entries.len(),
{
    if entries.len() == 0 {
        Seq::empty()
    } else {
        let held = asked(entries.drop_last(), published, keys);
        match ask_in(*entries.last()) {
            Some(ask) => if is_answered(ask, published, keys) || is_held(held, ask) {
                held
            } else {
                held.push(ask)
            },
            None => held,
        }
    }
}

/// One request a seller has not yet answered, as the accept control needs it.
#[derive(Debug, Clone, PartialEq, Eq)]
pub struct PendingRequest {
    pub listing_id: [u8; 32],
    /// The listing's title as the seller's own store publishes it, or empty
    /// when this store's listings have not arrived. It is never taken from
    /// the message.
    pub listing_title: String,
    pub quantity: u32,
    pub order_binding: [u8; 32],
    pub digest: [u8; 32],
}

/// What a pending request asks for.
pub open spec fn ask_of(r: PendingRequest) -> Ask {
    Ask {
        listing_id: r.listing_id,
        quantity: r.quantity,
        order_binding: r.order_binding,
        digest: r.digest,
    }
}

/// What some pending requests ask for.
pub open spec fn asks(requests: Seq<PendingRequest>) -> Seq<Ask> {
    requests.map_values(|r: PendingRequest| ask_of(r))
}

/// A listing's title as the store publishes it, empty where it does not.
pub open spec fn title_of(listings: Seq<ListingName>, id: [u8; 32]) -> Seq<char> {
    match seqs::find_first(listings, |l: ListingName| l.id == id) {
        Some(l) => l.title@,
        None => Seq::empty(),
    }
}

fn published_title(listings: &Vec<ListingName>, id: &[u8; 32]) -> (r: String)
    ensures
        r@ == title_of(listings@, *id),
{
    let ghost want = |l: ListingName| l.id == *id;
    let mut i: usize = 0;
    while i < listings.len()
        invariant
            i <= listings.len(),
            want == (|l: ListingName| l.id == *id),
            forall|j: int| 0 <= j < i ==> !want(#[trigger] listings@[j]),
        decreases listings.len() - i,
    {
        if bytes::same_key(&listings[i].id, id) {
            proof {
                seqs::lemma_find_first(listings@, want, i as int);
            }
            return listings[i].title.clone();
        }
        i = i + 1;
    }
    proof {
        seqs::lemma_find_first(listings@, want, i as int);
    }
    String::new()
}

/// Whether an order of the store's own answers a request.
fn answered(ask: &Ask, published: &Vec<AuthorizedOrder>, keys: &Option<ConversationTags>) -> (r: bool)
    requires
        *keys matches Some(keys) ==> tag_of(keys.tags@, ask.listing_id) is Some,
    ensures
        r == is_answered(*ask, published@, *keys),
{
    let tag = match keys {
        Some(keys) => match keys.listing_tag(&ask.listing_id) {
            Some(tag) => tag,
            None => {
                return false;
            },
        },
        None => {
            return false;
        },
    };
    let mut i: usize = 0;
    while i < published.len()
        invariant
            i <= published.len(),
            *keys matches Some(k) && tag_of(k.tags@, ask.listing_id) == Some(tag),
            forall|j: int| 0 <= j < i ==> !#[trigger] answers(published@[j], *ask, tag),
        decreases published.len() - i,
    {
        let o = &published[i].order;
        if bytes::same_key_option(&o.order_binding, &ask.order_binding) && bytes::same_key_option(
            &o.listing_tag,
            &tag,
        ) {
            assert(answers(published@[i as int], *ask, tag));
            assert(tag_of(keys->0.tags@, ask.listing_id)->0 == tag);
            return true;
        }
        i = i + 1;
    }
    false
}

fn held(asks: &Vec<Ask>, ask: &Ask) -> (r: bool)
    ensures
        r == is_held(asks@, *ask),
{
    let mut i: usize = 0;
    while i < asks.len()
        invariant
            i <= asks.len(),
            forall|j: int| 0 <= j < i ==> !#[trigger] same_ask(asks@[j], *ask),
        decreases asks.len() - i,
    {
        if bytes::same_key(&asks[i].listing_id, &ask.listing_id) && asks[i].quantity
            == ask.quantity {
            assert(same_ask(asks@[i as int], *ask));
            return true;
        }
        i = i + 1;
    }
    false
}

/// The requests to buy of one conversation that the seller has not answered,
/// each with its listing's title, in the order of their entries' digests.
///
/// "Answered" is decided from the seller's own published orders, which the
/// buyer can neither forge nor withdraw. One control per distinct request:
/// two that ask for the same thing are one ask repeated. The order is not
/// that of the entries, whose timestamps whoever wrote them chose.
///
/// A conversation's keys give a tag for every listing, so the table of tags
/// has one for each listing that is asked for.
pub fn unanswered_requests(
    entries: &Vec<&MailboxEntry>,
    listings: &Vec<ListingName>,
    published: &Vec<AuthorizedOrder>,
    keys: &Option<ConversationTags>,
) -> (r: Vec<PendingRequest>)
    requires
        tags_cover(*keys, entries@),
    ensures
        order::is_sorted_from(asks(r@), asked(entries@, published@, *keys)),
        forall|i: int|
            0 <= i < r@.len() ==> (#[trigger] r@[i]).listing_title@ == title_of(
                listings@,
                r@[i].listing_id,
            ),
{
    let mut open: Vec<Ask> = Vec::new();
    let mut i: usize = 0;
    assert(entries@.take(0) =~= Seq::empty());
    while i < entries.len()
        invariant
            i <= entries.len(),
            tags_cover(*keys, entries@),
            open@ == asked(entries@.take(i as int), published@, *keys),
        decreases entries.len() - i,
    {
        assert(entries@.take(i + 1).drop_last() =~= entries@.take(i as int));
        assert(entries@.take(i + 1).last() == entries@[i as int]);
        if let MailboxEntry::Readable {
            content: MessageContent::OrderRequest { listing_id, quantity, order_binding, .. },
            digest,
            ..
        } = entries[i] {
            let ask = Ask {
                listing_id: *listing_id,
                quantity: *quantity,
                order_binding: *order_binding,
                digest: *digest,
            };
            assert(tags_ask(*keys, *entries@[i as int]));
            if !answered(&ask, published, keys) && !held(&open, &ask) {
                open.push(ask);
            }
        }
        i = i + 1;
    }
    assert(entries@.take(i as int) =~= entries@);
    let sorted = order::sort(open);
    let mut r: Vec<PendingRequest> = Vec::new();
    let mut k: usize = 0;
    while k < sorted.len()
        invariant
            k <= sorted.len(),
            asks(r@) =~= sorted@.take(k as int),
            forall|j: int|
                0 <= j < r@.len() ==> (#[trigger] r@[j]).listing_title@ == title_of(
                    listings@,
                    r@[j].listing_id,
                ),
        decreases sorted.len() - k,
    {
        let ask = sorted[k];
        let ghost before = r@;
        r.push(
            PendingRequest {
                listing_id: ask.listing_id,
                listing_title: published_title(listings, &ask.listing_id),
                quantity: ask.quantity,
                order_binding: ask.order_binding,
                digest: ask.digest,
            },
        );
        assert(asks(r@) =~= asks(before).push(ask));
        k = k + 1;
    }
    assert(sorted@.take(k as int) =~= sorted@);
    r
}

/// Each request that nothing answers is offered once: what is offered is
/// unanswered, no two offers ask for the same thing, and for each unanswered
/// request there is an offer that asks for what it asks for.
pub proof fn each_open_request_is_offered_once(
    entries: Seq<&MailboxEntry>,
    published: Seq<AuthorizedOrder>,
    keys: Option<ConversationTags>,
)
    ensures
        forall|i: int|
            0 <= i < asked(entries, published, keys).len() ==> !is_answered(
                #[trigger] asked(entries, published, keys)[i],
                published,
                keys,
            ),
        forall|i: int, j: int|
            0 <= i < j < asked(entries, published, keys).len() ==> !same_ask(
                #[trigger] asked(entries, published, keys)[i],
                #[trigger] asked(entries, published, keys)[j],
            ),
        forall|i: int|
            0 <= i < entries.len() && (ask_in(*#[trigger] entries[i]) matches Some(ask)
                && !is_answered(ask, published, keys)) ==> is_held(
                asked(entries, published, keys),
                ask_in(*entries[i])->0,
            ),
    decreases entries.len(),
{
    if entries.len() > 0 {
        let rest = entries.drop_last();
        each_open_request_is_offered_once(rest, published, keys);
        let before = asked(rest, published, keys);
        let all = asked(entries, published, keys);
        assert forall|i: int| 0 <= i < before.len() implies all[i] == #[trigger] before[i] by {}
        assert forall|i: int, j: int| 0 <= i < j < all.len() implies !same_ask(
            #[trigger] all[i],
            #[trigger] all[j],
        ) by {
            assert(all[i] == before[i]);
            if j < before.len() {
                assert(all[j] == before[j]);
            }
        }
        assert forall|i: int|
            0 <= i < entries.len() && (ask_in(*#[trigger] entries[i]) matches Some(ask)
                && !is_answered(ask, published, keys)) implies is_held(
            all,
            ask_in(*entries[i])->0,
        ) by {
            let ask = ask_in(*entries[i])->0;
            if i < rest.len() {
                assert(rest[i] == entries[i]);
                let k = choose|k: int| 0 <= k < before.len() && #[trigger] same_ask(before[k], ask);
                assert(same_ask(all[k], ask));
            } else if is_held(before, ask) {
                let k = choose|k: int| 0 <= k < before.len() && #[trigger] same_ask(before[k], ask);
                assert(same_ask(all[k], ask));
            } else {
                assert(same_ask(all[before.len() as int], ask));
            }
        }
    }
}

/// Whether of the requests among some entries no two ask for the same thing,
/// and no two have the same digest.
pub open spec fn asks_apart(entries: Seq<&MailboxEntry>) -> bool {
    forall|i: int, j: int|
        #![trigger entries[i], entries[j]]
        0 <= i < j < entries.len() ==> (ask_in(*entries[i]) matches Some(a) ==> (ask_in(
            *entries[j],
        ) matches Some(b) ==> !same_ask(a, b) && a.digest@ != b.digest@))
}

/// Which request is offered first is not decided by the order the entries
/// arrive in, and so not by the sender's clock: the same entries in another
/// order give the same list. Entries that ask for the same thing are left out
/// of this, since only the first of them is offered.
pub proof fn the_offers_do_not_depend_on_the_order_of_arrival(
    entries: Seq<&MailboxEntry>,
    other: Seq<&MailboxEntry>,
    published: Seq<AuthorizedOrder>,
    keys: Option<ConversationTags>,
    offered: Seq<Ask>,
    offered_other: Seq<Ask>,
)
    requires
        asks_apart(entries),
        asks_apart(other),
        forall|e: &MailboxEntry| entries.contains(e) <==> other.contains(e),
        order::is_sorted_from(offered, asked(entries, published, keys)),
        order::is_sorted_from(offered_other, asked(other, published, keys)),
    ensures
        offered == offered_other,
{
    lemma_asked_apart(entries, published, keys);
    lemma_asked_apart(other, published, keys);
    assert forall|a: Ask|
        asked(entries, published, keys).contains(a) <==> asked(other, published, keys).contains(
            a,
        ) by {
        if asked(entries, published, keys).contains(a) {
            let i = choose|i: int|
                0 <= i < entries.len() && ask_in(*#[trigger] entries[i]) == Some(a);
            assert(entries.contains(entries[i]));
            let j = other.index_of(entries[i]);
            assert(other[j] == entries[i]);
            assert(ask_in(*other[j]) == Some(a));
        }
        if asked(other, published, keys).contains(a) {
            let i = choose|i: int|
                0 <= i < other.len() && ask_in(*#[trigger] other[i]) == Some(a);
            assert(other.contains(other[i]));
            let j = entries.index_of(other[i]);
            assert(entries[j] == other[i]);
            assert(ask_in(*entries[j]) == Some(a));
        }
    }
    order::sorting_ignores_the_order_of_arrival(
        offered,
        asked(entries, published, keys),
        offered_other,
        asked(other, published, keys),
    );
}

proof fn lemma_asked_apart(
    entries: Seq<&MailboxEntry>,
    published: Seq<AuthorizedOrder>,
    keys: Option<ConversationTags>,
)
    requires
        asks_apart(entries),
    ensures
        order::all_rank_apart(asked(entries, published, keys)),
        forall|a: Ask|
            #[trigger] asked(entries, published, keys).contains(a) <==> !is_answered(
                a,
                published,
                keys,
            ) && exists|i: int| 0 <= i < entries.len() && ask_in(*#[trigger] entries[i]) == Some(a),
    decreases entries.len(),
{
    let all = asked(entries, published, keys);
    if entries.len() > 0 {
        let rest = entries.drop_last();
        assert(asks_apart(rest)) by {
            assert forall|i: int, j: int|
                #![trigger rest[i], rest[j]]
                0 <= i < j < rest.len() implies (ask_in(*rest[i]) matches Some(a) ==> (ask_in(
                *rest[j],
            ) matches Some(b) ==> !same_ask(a, b) && a.digest@ != b.digest@)) by {
                assert(entries[i] == rest[i] && entries[j] == rest[j]);
            }
        }
        lemma_asked_apart(rest, published, keys);
        let before = asked(rest, published, keys);
        let last = ask_in(*entries.last());
        // Nothing before the last entry asks for what it asks for.
        if last is Some {
            assert forall|k: int| 0 <= k < before.len() implies !same_ask(
                #[trigger] before[k],
                last->0,
            ) && before[k].digest@ != last->0.digest@ by {
                assert(before.contains(before[k]));
                let i = choose|i: int|
                    0 <= i < rest.len() && ask_in(*#[trigger] rest[i]) == Some(before[k]);
                assert(entries[i] == rest[i]);
                assert(entries[entries.len() - 1] == entries.last());
            }
        }
        assert forall|a: Ask|
            #[trigger] all.contains(a) <==> !is_answered(a, published, keys) && exists|i: int|
                0 <= i < entries.len() && ask_in(*#[trigger] entries[i]) == Some(a) by {
            if all.contains(a) {
                let k = all.index_of(a);
                assert(all[k] == a);
                if k < before.len() {
                    assert(before[k] == a);
                    assert(before.contains(a));
                    let i = choose|i: int|
                        0 <= i < rest.len() && ask_in(*#[trigger] rest[i]) == Some(a);
                    assert(ask_in(*entries[i]) == Some(a));
                } else {
                    assert(ask_in(*entries[entries.len() - 1]) == Some(a));
                }
            }
            if !is_answered(a, published, keys) && exists|i: int|
                0 <= i < entries.len() && ask_in(*#[trigger] entries[i]) == Some(a) {
                let i = choose|i: int|
                    0 <= i < entries.len() && ask_in(*#[trigger] entries[i]) == Some(a);
                if i < rest.len() {
                    assert(ask_in(*rest[i]) == Some(a));
                    assert(before.contains(a));
                    let k = before.index_of(a);
                    assert(all[k] == a);
                } else {
                    assert(!is_held(before, a)) by {
                        if is_held(before, a) {
                            let k = choose|k: int|
                                0 <= k < before.len() && #[trigger] same_ask(before[k], a);
                            assert(!same_ask(before[k], last->0));
                        }
                    }
                    assert(all[before.len() as int] == a);
                }
            }
        }
        assert forall|i: int, j: int| 0 <= i < j < all.len() implies (
        #[trigger] all[i]).ranks_before(#[trigger] &all[j]) || all[j].ranks_before(&all[i]) by {
            assert(all[i] == before[i]);
            if j < before.len() {
                assert(all[j] == before[j]);
                assert(before[i].ranks_before(&before[j]) || before[j].ranks_before(&before[i]));
            } else {
                assert(all[j] == last->0);
                bytes::byte_order_is_total(all[i].digest@, all[j].digest@);
            }
        }
    }
}

/// An entry is of the conversation it names and has its own digest, whether
/// it can be read or not; it can be read where it is readable.
pub proof fn an_entry_is_of_the_conversation_it_names(
    conversation: Vec<u8>,
    addressing: Addressing,
    timestamp: Moment,
    digest: [u8; 32],
    content: MessageContent,
    why: String,
)
    ensures
        ({
            let e = MailboxEntry::Readable { conversation, addressing, timestamp, digest, content };
            e.tag() == conversation@ && e.hash() == digest && is_readable(e)
        }),
        ({
            let e = MailboxEntry::Unreadable { conversation, timestamp, digest, why };
            e.tag() == conversation@ && e.hash() == digest && !is_readable(e)
        }),
{
}

/// A conversation more counts as unsaved exactly where it was not backed up.
pub proof fn each_conversation_not_backed_up_counts(
    kept: Seq<KeptConversation>,
    more: KeptConversation,
)
    ensures
        unsaved(Seq::empty()) == 0,
        unsaved(kept.push(more)) == unsaved(kept) + (if more.backed_up {
            0nat
        } else {
            1
        }),
{
    reveal(Seq::filter);
    assert(kept.push(more).drop_last() =~= kept);
}

/// A message that was not sent from here is addressed to the reader exactly
/// where it is addressed to the reader's side.
pub proof fn a_message_is_addressed_by_its_direction(addressing: Addressing, role: Role)
    ensures
        attribution_words(false, addressing, role) == "Addressed to you"@ <==> (role is Buyer
            && addressing is ToBuyer) || (role is Seller && addressing is ToSeller),
        attribution_words(false, Addressing::ToSeller, Role::Buyer) == "Addressed to the seller"@,
        attribution_words(false, Addressing::ToBuyer, Role::Seller) == "Addressed to this buyer"@,
{
    reveal_strlit("Addressed to you");
    reveal_strlit("Addressed to the seller");
    reveal_strlit("Addressed to this buyer");
    assert("Addressed to you"@.len() == 16);
    assert("Addressed to the seller"@.len() == 23);
    assert("Addressed to this buyer"@.len() == 23);
}

/// A message is shown with what it says: its text, the reason of a refusal,
/// the quantity and the address of a request and its note where that is not
/// blank, and the short id of an accepted order.
pub proof fn a_message_shows_what_it_says(
    words: String,
    listing_id: [u8; 32],
    quantity: u32,
    shipping: String,
    note: String,
    order_binding: [u8; 32],
    order_id: [u8; 32],
)
    ensures
        described(MessageContent::Text(words)) == words@,
        described(MessageContent::Decline { reason: words }) == "Declined: "@ + words@,
        described(MessageContent::OrderAccepted { order_id, short: words })
            == "Accepted -- invoice "@ + words@ + " is published."@,
        words@.is_prefix_of(described(MessageContent::InitiateTransaction { message: words })),
        words@.is_prefix_of(described(MessageContent::AcceptTransaction { message: words })),
        (forall|i: int| 0 <= i < note@.len() ==> text::is_white_space(#[trigger] note@[i]))
            ==> described(
            MessageContent::OrderRequest { listing_id, quantity, shipping, note, order_binding },
        ) == "Wants to buy "@ + text::decimal(quantity as nat) + ".\n\nShip to:\n"@ + shipping@,
        (exists|i: int| 0 <= i < note@.len() && !text::is_white_space(#[trigger] note@[i]))
            ==> described(
            MessageContent::OrderRequest { listing_id, quantity, shipping, note, order_binding },
        ) == "Wants to buy "@ + text::decimal(quantity as nat) + ".\n\nShip to:\n"@ + shipping@
            + "\n\n"@ + note@,
{
    text::a_blank_text_is_all_white_space(note@);
    let told = "Wants to buy "@ + text::decimal(quantity as nat) + ".\n\nShip to:\n"@ + shipping@;
    assert(told + Seq::<char>::empty() =~= told);
    assert(told + ("\n\n"@ + note@) =~= told + "\n\n"@ + note@);
}

/// Every conversation of a mailbox is named once, in the order its first
/// message came.
pub proof fn a_new_conversation_is_named_behind_the_others(
    entries: Seq<MailboxEntry>,
    e: MailboxEntry,
)
    ensures
        tags(Seq::empty()) == Seq::<Seq<u8>>::empty(),
        (exists|i: int| 0 <= i < entries.len() && (#[trigger] entries[i]).tag() == e.tag()) ==> tags(
            entries.push(e),
        ) == tags(entries),
        (forall|i: int| 0 <= i < entries.len() ==> (#[trigger] entries[i]).tag() != e.tag()) ==> tags(
            entries.push(e),
        ) == tags(entries).push(e.tag()),
{
    assert(entries.push(e).drop_last() =~= entries);
    if exists|i: int| 0 <= i < entries.len() && (#[trigger] entries[i]).tag() == e.tag() {
        let i = choose|i: int| 0 <= i < entries.len() && (#[trigger] entries[i]).tag() == e.tag();
        every_message_is_in_one_conversation(entries, i);
    } else {
        lemma_tags_come_from_entries(entries);
        if tags(entries).contains(e.tag()) {
            let k = tags(entries).index_of(e.tag());
            let i = choose|i: int|
                0 <= i < entries.len() && (#[trigger] entries[i]).tag() == tags(entries)[k];
            assert(entries[i].tag() == e.tag());
        }
    }
}

proof fn lemma_tags_come_from_entries(entries: Seq<MailboxEntry>)
    ensures
        forall|k: int|
            0 <= k < tags(entries).len() ==> exists|i: int|
                0 <= i < entries.len() && (#[trigger] entries[i]).tag() == #[trigger] tags(
                    entries,
                )[k],
    decreases entries.len(),
{
    if entries.len() > 0 {
        let rest = entries.drop_last();
        lemma_tags_come_from_entries(rest);
        assert forall|k: int| 0 <= k < tags(entries).len() implies exists|i: int|
            0 <= i < entries.len() && (#[trigger] entries[i]).tag() == #[trigger] tags(
                entries,
            )[k] by {
            if k < tags(rest).len() {
                let i = choose|i: int|
                    0 <= i < rest.len() && (#[trigger] rest[i]).tag() == tags(rest)[k];
                assert(entries[i] == rest[i]);
            } else {
                assert(entries[entries.len() - 1].tag() == tags(entries)[k]);
            }
        }
    }
}

/// A conversation holds its messages in the order they came.
pub proof fn a_conversation_holds_its_messages_in_order(
    entries: Seq<MailboxEntry>,
    e: MailboxEntry,
    tag: Seq<u8>,
)
    ensures
        of_conversation(Seq::empty(), tag) == Seq::<MailboxEntry>::empty(),
        e.tag() == tag ==> of_conversation(entries.push(e), tag) == of_conversation(
            entries,
            tag,
        ).push(e),
        e.tag() != tag ==> of_conversation(entries.push(e), tag) == of_conversation(entries, tag),
{
    reveal(Seq::filter);
    assert(entries.push(e).drop_last() =~= entries);
}

/// The tag of a listing is that of its first entry, and its title that of the
/// first listing of that id; without an entry there is no tag, and the title
/// is empty.
pub proof fn a_listings_tag_and_title_are_found_by_its_id(
    tags: Seq<ListingTag>,
    listings: Seq<ListingName>,
    id: [u8; 32],
)
    ensures
        (match tag_of(tags, id) {
            Some(tag) => exists|i: int|
                {
                    &&& 0 <= i < tags.len()
                    &&& (#[trigger] tags[i]).listing_id == id
                    &&& tags[i].tag == tag
                    &&& forall|j: int| 0 <= j < i ==> (#[trigger] tags[j]).listing_id != id
                },
            None => forall|i: int| 0 <= i < tags.len() ==> (#[trigger] tags[i]).listing_id != id,
        }),
        (exists|i: int|
            {
                &&& 0 <= i < listings.len()
                &&& (#[trigger] listings[i]).id == id
                &&& listings[i].title@ == title_of(listings, id)
                &&& forall|j: int| 0 <= j < i ==> (#[trigger] listings[j]).id != id
            }) || (title_of(listings, id).len() == 0 && forall|i: int|
            0 <= i < listings.len() ==> (#[trigger] listings[i]).id != id),
{
    seqs::the_first_that_passes_is_found(tags, |t: ListingTag| t.listing_id == id);
    seqs::the_first_that_passes_is_found(listings, |l: ListingName| l.id == id);
}

/// Only a readable request to buy asks for anything, and what it asks for is
/// what it says: its listing, its quantity and its binding, under its own
/// digest.
pub proof fn only_a_readable_request_asks(entry: MailboxEntry)
    ensures
        (match ask_in(entry) {
            Some(ask) => entry matches MailboxEntry::Readable { content, digest, .. } && (
            content matches MessageContent::OrderRequest {
                listing_id,
                quantity,
                order_binding,
                ..
            } && ask.listing_id == listing_id && ask.quantity == quantity && ask.order_binding
                == order_binding) && ask.digest == digest,
            None => entry is Unreadable || (entry matches MailboxEntry::Readable { content, .. }
                && !(content is OrderRequest)),
        }),
{
}

/// A request is answered exactly where an order was published that has both
/// the request's binding and the tag of the listing it asks for; without the
/// conversation's tags, or a tag for that listing, nothing answers it.
pub proof fn a_request_is_answered_by_its_binding_and_its_listing(
    ask: Ask,
    published: Seq<AuthorizedOrder>,
    keys: ConversationTags,
)
    ensures
        !is_answered(ask, published, None),
        tag_of(keys.tags@, ask.listing_id) is None ==> !is_answered(ask, published, Some(keys)),
        tag_of(keys.tags@, ask.listing_id) matches Some(tag) ==> (is_answered(
            ask,
            published,
            Some(keys),
        ) <==> exists|i: int|
            0 <= i < published.len() && (#[trigger] published[i]).order.order_binding == Some(
                ask.order_binding,
            ) && published[i].order.listing_tag == Some(tag)),
{
    if let Some(tag) = tag_of(keys.tags@, ask.listing_id) {
        if exists|i: int|
            0 <= i < published.len() && (#[trigger] published[i]).order.order_binding == Some(
                ask.order_binding,
            ) && published[i].order.listing_tag == Some(tag) {
            let i = choose|i: int|
                0 <= i < published.len() && (#[trigger] published[i]).order.order_binding == Some(
                    ask.order_binding,
                ) && published[i].order.listing_tag == Some(tag);
            assert(answers(published[i], ask, tag));
        }
        if is_answered(ask, published, Some(keys)) {
            let i = choose|i: int|
                0 <= i < published.len() && #[trigger] answers(published[i], ask, tag);
            assert(published[i].order.order_binding == Some(ask.order_binding));
        }
    }
}

/// An entry more is an offer more exactly where it asks for something that
/// nothing answers and that no offer so far asks for: the same listing and
/// the same quantity.
pub proof fn a_new_open_request_is_offered(
    entries: Seq<&MailboxEntry>,
    e: &MailboxEntry,
    published: Seq<AuthorizedOrder>,
    keys: Option<ConversationTags>,
)
    ensures
        ({
            let held = asked(entries, published, keys);
            let more = asked(entries.push(e), published, keys);
            match ask_in(*e) {
                None => more == held,
                Some(ask) => {
                    let known = exists|i: int|
                        0 <= i < held.len() && (#[trigger] held[i]).listing_id == ask.listing_id
                            && held[i].quantity == ask.quantity;
                    more == (if is_answered(ask, published, keys) || known {
                        held
                    } else {
                        held.push(ask)
                    })
                },
            }
        }),
        asked(Seq::empty(), published, keys) == Seq::<Ask>::empty(),
{
    assert(entries.push(e).drop_last() =~= entries);
    let held = asked(entries, published, keys);
    if let Some(ask) = ask_in(*e) {
        if is_held(held, ask) {
            let i = choose|i: int| 0 <= i < held.len() && #[trigger] same_ask(held[i], ask);
            assert(held[i].listing_id == ask.listing_id);
        }
        if exists|i: int|
            0 <= i < held.len() && (#[trigger] held[i]).listing_id == ask.listing_id
                && held[i].quantity == ask.quantity {
            let i = choose|i: int|
                0 <= i < held.len() && (#[trigger] held[i]).listing_id == ask.listing_id
                    && held[i].quantity == ask.quantity;
            assert(same_ask(held[i], ask));
        }
    }
}

/// Offers come in the order of their digests, byte by byte, and a request is
/// offered with all it asks for.
pub proof fn offers_come_in_the_order_of_their_digests(
    offered: Seq<Ask>,
    all: Seq<Ask>,
    i: int,
    j: int,
    r: PendingRequest,
)
    requires
        order::is_sorted_from(offered, all),
        0 <= i < j < offered.len(),
    ensures
        !bytes::bytes_before(offered[j].digest@, offered[i].digest@),
        ask_of(r).listing_id == r.listing_id && ask_of(r).quantity == r.quantity && ask_of(
            r,
        ).order_binding == r.order_binding && ask_of(r).digest == r.digest,
{
    order::sorted_values_stand_by_rank(offered, all, i, j);
}

/// The tags of a conversation cover its entries exactly where each request
/// among them asks for a listing that has a tag.
pub proof fn tags_cover_the_listings_asked_for(
    keys: ConversationTags,
    entries: Seq<&MailboxEntry>,
)
    ensures
        tags_cover(None, entries),
        tags_cover(Some(keys), entries) <==> forall|i: int|
            0 <= i < entries.len() ==> (ask_in(*#[trigger] entries[i]) matches Some(ask)
                ==> tag_of(keys.tags@, ask.listing_id) is Some),
{
    if tags_cover(Some(keys), entries) {
        assert forall|i: int| 0 <= i < entries.len() implies (ask_in(
            *#[trigger] entries[i],
        ) matches Some(ask) ==> tag_of(keys.tags@, ask.listing_id) is Some) by {
            assert(tags_ask(Some(keys), *entries[i]));
        }
    } else {
        let i = choose|i: int|
            0 <= i < entries.len() && !tags_ask(Some(keys), *#[trigger] entries[i]);
        assert(ask_in(*entries[i]) is Some);
    }
}

/// A message was sent from here exactly where its digest is among those sent.
pub proof fn a_message_is_ones_own_by_its_digest(authored: Seq<[u8; 32]>, sent: [u8; 32], digest: [u8; 32])
    ensures
        !is_authored(Seq::empty(), digest),
        is_authored(authored.push(sent), digest) <==> is_authored(authored, digest) || sent
            == digest,
{
    if is_authored(authored, digest) {
        let i = choose|i: int| 0 <= i < authored.len() && #[trigger] authored[i] == digest;
        assert(authored.push(sent)[i] == digest);
    }
    if sent == digest {
        assert(authored.push(sent)[authored.len() as int] == digest);
    }
    if is_authored(authored.push(sent), digest) && sent != digest {
        let i = choose|i: int|
            0 <= i < authored.push(sent).len() && #[trigger] authored.push(sent)[i] == digest;
        assert(authored[i] == digest);
    }
}

/// A step is told by its kind, its mailbox and what is handed over or
/// recorded.
pub proof fn a_step_is_told_whole(mailbox: Vec<u8>, sealed: Vec<u8>, words: String)
    ensures
        DeliveryStep::Subscribe(mailbox)@ == StepView::Subscribe(mailbox@),
        DeliveryStep::HandOver(mailbox, sealed)@ == StepView::HandOver(mailbox@, sealed@),
        DeliveryStep::Record(words, sealed)@ == StepView::Record(words@, sealed@),
{
}

/// A time a sender claims is shown as theirs, where it is a time at all.
pub proof fn a_claimed_time_is_shown_as_the_senders(secs: i64)
    ensures
        claimed_time(secs) is None <==> clock::minute_words(secs) is None,
        clock::minute_words(secs) matches Some(words) ==> claimed_time(secs) == Some(
            "Sender's timestamp: "@ + words,
        ),
{
}

/// A mailbox's groups are its conversations, each with its messages in order:
/// every entry is in a group of its conversation, and a group holds entries
/// of its own conversation alone.
pub proof fn every_entry_is_in_the_group_of_its_conversation(
    groups: Seq<InboxGroup>,
    entries: Seq<MailboxEntry>,
    i: int,
)
    requires
        groups_of(groups, entries),
        0 <= i < entries.len(),
    ensures
        exists|g: int|
            0 <= g < groups.len() && (#[trigger] groups[g]).tag@ == entries[i].tag()
                && order::behind(groups[g].entries@).contains(entries[i]),
        forall|g: int, k: int|
            #![trigger groups[g].entries@[k]]
            0 <= g < groups.len() && 0 <= k < groups[g].entries@.len()
                ==> groups[g].entries@[k].tag() == groups[g].tag@,
        forall|g: int, h: int|
            0 <= g < h < groups.len() ==> (#[trigger] groups[g]).tag@ != (
            #[trigger] groups[h]).tag@,
{
    every_message_is_in_one_conversation(entries, i);
    let g = tags(entries).index_of(entries[i].tag());
    assert(groups[g].tag@ == tags(entries)[g]);
    assert forall|g: int, k: int|
        #![trigger groups[g].entries@[k]]
        0 <= g < groups.len() && 0 <= k < groups[g].entries@.len() implies groups[g].entries@[k].tag()
        == groups[g].tag@ by {
        let tag = tags(entries)[g];
        assert(groups[g].tag@ == tag);
        let held = of_conversation(entries, tag);
        assert(order::behind(groups[g].entries@) == held);
        assert(held[k] == *groups[g].entries@[k]);
        entries.lemma_filter_pred(|e: MailboxEntry| e.tag() == tag, k);
    }
    assert forall|g: int, h: int| 0 <= g < h < groups.len() implies (#[trigger] groups[g]).tag@ != (
    #[trigger] groups[h]).tag@ by {
        assert(tags(entries)[g] != tags(entries)[h]);
    }
}

/// Steps are told one by one, in order, and so are requests.
pub proof fn steps_and_requests_are_told_in_order(
    steps: Seq<DeliveryStep>,
    requests: Seq<PendingRequest>,
)
    ensures
        step_views(steps).len() == steps.len(),
        forall|i: int| 0 <= i < steps.len() ==> #[trigger] step_views(steps)[i] == steps[i]@,
        asks(requests).len() == requests.len(),
        forall|i: int|
            0 <= i < requests.len() ==> (#[trigger] asks(requests)[i]).listing_id
                == requests[i].listing_id && asks(requests)[i].quantity == requests[i].quantity
                && asks(requests)[i].order_binding == requests[i].order_binding && asks(
                requests,
            )[i].digest == requests[i].digest,
{
}

} // verus!
