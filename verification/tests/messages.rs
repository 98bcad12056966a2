//! Messages between a buyer and a seller: the inbox and its open requests,
//! the conversations kept, the compose box, and the two-step controls.

use ed25519_dalek::SigningKey;
use harvest_ui::confirm::{Press, TwoStep};
use harvest_ui::message_view::{
    attribution, authored_here, backup_click, backup_shown, backup_words, can_reply, contact_name,
    conversations, count_unreadable, count_unsaved, covers, deliver_to_seller, describe, forget_click,
    hand_over_failed, inbox_words, kept_heading, kept_words, message_card, message_screen, reply,
    send, thread_card, unanswered_requests, usable_seller, Addressing, BackupClick, BackupStep, ComposeBox,
    ConversationBackup, ConversationMessage, ConversationTags, DeliveryStep, ForgetClick, KeptConversation,
    ListingName, ListingTag, MailboxEntry, MessageContent, MessageScreen, PendingRequest, Role,
};
use harvest_ui::payment::{AuthorizedOrder, BitcoinNetwork, Moment, Order, OrderStatus};

const BINDING: [u8; 32] = [0xb1; 32];

fn moment(secs: i64) -> Moment {
    Moment { secs, nanos: 0 }
}

fn readable(content: MessageContent, digest: [u8; 32]) -> MailboxEntry {
    MailboxEntry::Readable {
        conversation: vec![1u8; 32],
        addressing: Addressing::ToSeller,
        timestamp: moment(1_700_000_000),
        digest,
        content,
    }
}

fn unreadable(conversation: u8, digest: [u8; 32]) -> MailboxEntry {
    MailboxEntry::Unreadable {
        conversation: vec![conversation; 32],
        timestamp: moment(1_700_000_000),
        digest,
        why: "not for us".to_string(),
    }
}

fn listing(id: [u8; 32], title: &str) -> ListingName {
    ListingName { id, title: title.to_string() }
}

fn request(listing_id: [u8; 32], quantity: u32, digest: [u8; 32]) -> MailboxEntry {
    readable(
        MessageContent::OrderRequest {
            listing_id,
            quantity,
            shipping: "12 Example St".into(),
            note: String::new(),
            order_binding: BINDING,
        },
        digest,
    )
}

/// The tag a conversation, known by its secret, gives a listing: different
/// for every secret and every listing used here.
fn tag_under(secret: u8, listing_id: &[u8; 32]) -> [u8; 32] {
    let mut tag = [secret; 32];
    tag[0] = listing_id[0];
    tag
}

/// This conversation's tags, for the listings used here.
fn keys() -> Option<ConversationTags> {
    let mut tags = Vec::new();
    for n in [1u8, 2, 8, 9] {
        let listing_id = [n; 32];
        tags.push(ListingTag { listing_id, tag: tag_under(4, &listing_id) });
    }
    Some(ConversationTags { tags })
}

/// A published commitment with order id `[n; 32]` under `binding`.
fn published(n: u8, binding: Option<[u8; 32]>, tag: Option<[u8; 32]>) -> AuthorizedOrder {
    AuthorizedOrder {
        order: Order {
            id: [n; 32],
            seller_fingerprint: "seller-fp".to_string(),
            amount_sats: 1,
            network: BitcoinNetwork::Signet,
            payment_script_pubkey: Vec::new(),
            payment_address: String::new(),
            trusted_bridges: Vec::new(),
            address_instance_id: None,
            payment_window: None,
            order_binding: binding,
            listing_tag: tag,
            created_at: moment(1_700_000_000),
        },
        status: OrderStatus::AwaitingPayment,
    }
}

fn open_requests(
    entries: &[MailboxEntry],
    listings: &[ListingName],
    orders: &[AuthorizedOrder],
    keys: Option<ConversationTags>,
) -> Vec<PendingRequest> {
    let entries: Vec<&MailboxEntry> = entries.iter().collect();
    unanswered_requests(&entries, &listings.to_vec(), &orders.to_vec(), &keys)
}

/// The seller is offered an Accept only when there is a request.
#[test]
fn an_ordinary_message_offers_nothing_to_accept() {
    let entries = vec![readable(MessageContent::Text("is this in stock?".into()), [1u8; 32])];
    assert!(open_requests(&entries, &[], &[], keys()).is_empty());
}

/// A request carries its listing, its title, its quantity and its binding
/// through to the accept control.
#[test]
fn a_request_carries_everything_the_accept_control_publishes() {
    let id = [9u8; 32];
    let entries = vec![
        readable(MessageContent::Text("hello".into()), [1u8; 32]),
        request(id, 4, [2u8; 32]),
    ];
    let found = open_requests(&entries, &[listing(id, "Ghost Pepper")], &[], keys());
    assert_eq!(found.len(), 1);
    assert_eq!(found[0].listing_id, id);
    assert_eq!(found[0].listing_title, "Ghost Pepper");
    assert_eq!(found[0].quantity, 4);
    assert_eq!(found[0].order_binding, BINDING);
}

/// A title the store has not published is empty, not invented.
#[test]
fn a_listing_the_store_has_not_published_has_no_title() {
    let id = [9u8; 32];
    let found = open_requests(&[request(id, 1, [2u8; 32])], &[], &[], keys());
    assert_eq!(found[0].listing_title, "");
}

/// An unreadable entry is not a request.
#[test]
fn an_unreadable_entry_is_not_a_request() {
    let entries = vec![unreadable(1, [0u8; 32])];
    assert!(open_requests(&entries, &[], &[], keys()).is_empty());
}

/// A request the seller has already answered is not offered again.
#[test]
fn a_request_already_answered_is_not_offered_again() {
    let id = [9u8; 32];
    let entries = vec![request(id, 1, [2u8; 32])];
    let listings = vec![listing(id, "Ghost Pepper")];
    let tag = tag_under(4, &id);

    assert_eq!(
        open_requests(&entries, &listings, &[], keys()).len(),
        1,
        "unanswered while nothing is published"
    );
    assert!(
        open_requests(&entries, &listings, &[published(7, Some(BINDING), Some(tag))], keys())
            .is_empty(),
        "an order carrying this request's binding and listing tag IS the answer to it"
    );
}

/// Nothing short of that answers the request.
#[test]
fn a_request_is_answered_only_by_an_order_with_its_binding_and_tag() {
    let id = [9u8; 32];
    let entries = vec![request(id, 1, [2u8; 32])];
    let listings = vec![listing(id, "Ghost Pepper")];
    let tag = tag_under(4, &id);
    let still_open = |orders: &[AuthorizedOrder], keys: Option<ConversationTags>, why: &str| {
        assert_eq!(open_requests(&entries, &listings, orders, keys).len(), 1, "{why}");
    };

    still_open(
        &[published(7, Some([0x11; 32]), Some(tag))],
        keys(),
        "same listing, another buyer's binding",
    );
    still_open(
        &[published(7, Some(BINDING), Some(tag_under(4, &[8u8; 32])))],
        keys(),
        "this buyer's binding, another listing",
    );
    still_open(
        &[published(7, None, Some(tag))],
        keys(),
        "an unbound commitment answers nobody",
    );
    still_open(
        &[published(7, Some(BINDING), None)],
        keys(),
        "an order naming no listing answers no request",
    );
    still_open(
        &[published(7, Some(BINDING), Some(tag_under(5, &id)))],
        keys(),
        "a tag computed under another conversation's key",
    );
    still_open(
        &[published(7, Some(BINDING), Some(tag))],
        None,
        "without this conversation's keys nothing can be matched",
    );
}

/// Which request is offered first is not decided by the sender's clock.
#[test]
fn the_order_offered_does_not_depend_on_the_senders_clock() {
    let cheap = [1u8; 32];
    let dear = [2u8; 32];
    let listings = vec![listing(cheap, "Cheap"), listing(dear, "Dear")];
    let first = request(cheap, 1, [0x01; 32]);
    let second = request(dear, 1, [0x02; 32]);

    let one = open_requests(&[first.clone(), second.clone()], &listings, &[], keys());
    let other = open_requests(&[second, first], &listings, &[], keys());
    assert_eq!(one, other, "the seller sees the same order either way");
    assert_eq!(one[0].digest, [0x01; 32], "and it is the digest order");
}

/// A table of tags covers a conversation where it has one for each listing
/// that is asked for.
#[test]
fn tags_cover_what_is_asked_for() {
    let entries = [
        request([9; 32], 1, [2; 32]),
        readable(MessageContent::Text("hello".into()), [3; 32]),
    ];
    let known: Vec<&MailboxEntry> = entries.iter().collect();
    assert!(covers(&keys(), &known));
    assert!(covers(&None, &known));
    let strange = request([7; 32], 1, [4; 32]);
    assert!(!covers(&keys(), &vec![&entries[0], &strange]));
    assert!(covers(&None, &vec![&strange]));
}

/// One ask repeated is one control.
#[test]
fn the_same_request_twice_is_offered_once() {
    let id = [9u8; 32];
    let entries = vec![request(id, 2, [0x01; 32]), request(id, 2, [0x02; 32])];
    let found = open_requests(&entries, &[listing(id, "Ghost Pepper")], &[], keys());
    assert_eq!(found.len(), 1);

    // Another quantity is another ask.
    let entries = vec![request(id, 2, [0x01; 32]), request(id, 3, [0x02; 32])];
    assert_eq!(open_requests(&entries, &[], &[], keys()).len(), 2);
}

/// Every message is in one conversation, and the conversations stand in the
/// order their first messages do.
#[test]
fn messages_fall_into_their_conversations() {
    let entries = vec![
        unreadable(2, [1; 32]),
        unreadable(1, [2; 32]),
        unreadable(2, [3; 32]),
        readable(MessageContent::Text("hi".into()), [4; 32]),
    ];
    let groups = conversations(&entries);
    assert_eq!(groups.len(), 2);
    assert_eq!(*groups[0].tag, vec![2u8; 32]);
    let digests: Vec<[u8; 32]> = groups[0].entries.iter().map(|e| e.digest()).collect();
    assert_eq!(digests, vec![[1; 32], [3; 32]]);
    assert_eq!(*groups[1].tag, vec![1u8; 32]);
    assert_eq!(groups[1].entries.len(), 2);
    assert!(conversations(&Vec::new()).is_empty());

    // A conversation with something readable in it can be replied into.
    assert!(!can_reply(&groups[0].entries));
    assert!(can_reply(&groups[1].entries));
}

#[test]
fn the_inbox_says_what_it_holds_and_what_it_cannot_read() {
    let entries = vec![
        unreadable(2, [1; 32]),
        readable(MessageContent::Text("hi".into()), [4; 32]),
    ];
    assert_eq!(count_unreadable(&entries), 1);
    let words = inbox_words(&entries);
    assert!(words.count.contains('2'), "{}", words.count);
    assert!(words.unreadable.unwrap().contains('1'));
    assert_eq!(inbox_words(&Vec::new()).unreadable, None);
}

#[test]
fn every_kind_of_message_is_described() {
    assert_eq!(describe(&MessageContent::Text("hello".into())), "hello");
    assert_eq!(
        describe(&MessageContent::InitiateTransaction { message: "deal?".into() }),
        "deal?\n\n(This message also carries a feedback-token request, which this version of Harvest cannot act on.)"
    );
    assert_eq!(
        describe(&MessageContent::AcceptTransaction { message: "deal".into() }),
        "deal\n\n(This message also carries a blind signature, which this version of Harvest cannot act on.)"
    );
    assert_eq!(
        describe(&MessageContent::Decline { reason: "Sold out".into() }),
        "Declined: Sold out"
    );
    let asked = |note: &str| MessageContent::OrderRequest {
        listing_id: [9; 32],
        quantity: 3,
        shipping: "12 Example St".into(),
        note: note.into(),
        order_binding: BINDING,
    };
    assert_eq!(describe(&asked("  ")), "Wants to buy 3.\n\nShip to:\n12 Example St");
    assert_eq!(
        describe(&asked("By Friday")),
        "Wants to buy 3.\n\nShip to:\n12 Example St\n\nBy Friday"
    );
    assert!(describe(&MessageContent::OrderAccepted {
        order_id: [7; 32],
        short: "07070707".into()
    })
    .starts_with("Accepted -- invoice 07070707 is published."));
}

/// Only what this browser sent is called the reader's own.
#[test]
fn a_message_is_named_by_what_is_known_of_it() {
    for role in [Role::Buyer, Role::Seller] {
        for addressing in [Addressing::ToBuyer, Addressing::ToSeller] {
            assert_eq!(attribution(true, addressing, role), "You, from this tab");
        }
    }
    assert_eq!(attribution(false, Addressing::ToBuyer, Role::Buyer), "Addressed to you");
    assert_eq!(attribution(false, Addressing::ToSeller, Role::Buyer), "Addressed to the seller");
    assert_eq!(attribution(false, Addressing::ToSeller, Role::Seller), "Addressed to you");
    assert_eq!(attribution(false, Addressing::ToBuyer, Role::Seller), "Addressed to this buyer");

    assert!(authored_here(&vec![[1; 32], [2; 32]], &[2; 32]));
    assert!(!authored_here(&vec![[1; 32], [2; 32]], &[3; 32]));
}

#[test]
fn a_card_shows_the_message_or_why_it_cannot_be_read() {
    let card = message_card(&readable(MessageContent::Text("hello".into()), [1; 32]), false);
    assert_eq!(card.who, Some("Addressed to you"));
    assert_eq!(card.body, "hello");
    assert_eq!(card.when, Some("Sender's timestamp: 2023-11-14 22:13 UTC".to_string()));

    let card = message_card(&unreadable(1, [1; 32]), false);
    assert_eq!(card.who, None);
    assert_eq!(card.body, "Cannot be read: not for us");

    let message = ConversationMessage {
        addressing: Addressing::ToBuyer,
        timestamp: moment(1_700_000_000),
        digest: [1; 32],
        content: MessageContent::Text("hello".into()),
    };
    let card = thread_card(&message, &Vec::new());
    assert_eq!(card.who, Some("Addressed to you"));
    assert_eq!(card.body, "hello");
    assert_eq!(card.when, Some("Sender's timestamp: 2023-11-14 22:13 UTC".to_string()));
    assert_eq!(thread_card(&message, &vec![[1; 32]]).who, Some("You, from this tab"));
}

#[test]
fn the_compose_box_is_there_only_where_a_message_can_be_sent() {
    let key = Some([1; 32]);
    let identity = Some([2; 32]);
    assert_eq!(message_screen(true, false, &None, &None), MessageScreen::Inbox);
    assert_eq!(message_screen(false, false, &key, &identity), MessageScreen::Loading);
    assert_eq!(
        message_screen(false, true, &key, &identity),
        MessageScreen::Compose { seller_encryption_key: [1; 32], seller_verifying_key: [2; 32] }
    );
    match message_screen(false, true, &None, &identity) {
        MessageScreen::Unavailable(why) => {
            assert!(why.starts_with("This seller has not published an encryption key"))
        }
        other => panic!("{other:?}"),
    }
    match message_screen(false, true, &key, &None) {
        MessageScreen::Unavailable(why) => {
            assert!(why.starts_with("Harvest cannot confirm this store's identity"))
        }
        other => panic!("{other:?}"),
    }
}

#[test]
fn a_store_without_a_name_has_one_to_go_by() {
    assert_eq!(contact_name(&Some("Bean Shop".into())), "Bean Shop");
    assert!(!contact_name(&None).is_empty());
}

#[test]
fn an_empty_draft_is_not_sent_and_a_refused_one_is_kept() {
    let mut compose = ComposeBox { draft: "  \n".into(), problem: None };
    assert_eq!(compose.submitted(), None);
    compose.draft = " hello ".into();
    assert_eq!(compose.submitted(), Some("hello".to_string()));
    compose.note_outcome(Err("no node".into()));
    assert_eq!(compose.draft, " hello ");
    assert_eq!(compose.problem, Some("no node".to_string()));
    compose.note_outcome(Ok(()));
    assert_eq!(compose.draft, "");
    assert_eq!(compose.problem, None);
}

#[test]
fn a_message_is_subscribed_for_handed_over_and_recorded() {
    let identity = SigningKey::from_bytes(&[0x71; 32]).verifying_key().to_bytes();
    let steps = vec![
        DeliveryStep::Subscribe(vec![5; 32]),
        DeliveryStep::HandOver(vec![5; 32], vec![9, 9]),
        DeliveryStep::Record("hello".into(), vec![9, 9]),
    ];
    assert_eq!(usable_seller(&identity), Ok(()));
    assert_eq!(
        send(&identity, Ok(vec![9, 9]), Ok(vec![5; 32]), "hello".into()),
        Ok(steps.clone())
    );
    assert_eq!(deliver_to_seller(Ok(vec![5; 32]), &vec![9, 9], "hello".into()), Ok(steps));
    assert_eq!(
        send(&identity, Err("seal".into()), Ok(vec![5; 32]), "hello".into()),
        Err("seal".to_string())
    );
    assert_eq!(
        send(&identity, Ok(vec![9, 9]), Err("nowhere".into()), "hello".into()),
        Err("nowhere".to_string())
    );
    // Not the encoding of a point on the curve.
    let problem = ed25519_dalek::VerifyingKey::from_bytes(&[2; 32]).unwrap_err().to_string();
    assert_eq!(
        send(&[2; 32], Ok(vec![9, 9]), Ok(vec![5; 32]), "hello".into()),
        Err(format!("this store's identity key is unusable: {problem}"))
    );
}

#[test]
fn a_reply_is_handed_over_and_recorded() {
    assert_eq!(
        reply(Ok(vec![9, 9]), Some(vec![5; 32]), "yes".into()),
        Ok(vec![
            DeliveryStep::HandOver(vec![5; 32], vec![9, 9]),
            DeliveryStep::Record("yes".into(), vec![9, 9]),
        ])
    );
    assert_eq!(reply(Err("seal".into()), None, "yes".into()), Err("seal".to_string()));
    assert_eq!(
        reply(Ok(vec![9, 9]), None, "yes".into()),
        Err("this store's mailbox id is not known, so there is nowhere to reply into".to_string())
    );
    assert_eq!(hand_over_failed(true, "no node"), "Your reply could not be sent: no node");
    assert_eq!(hand_over_failed(false, "no node"), "Your message could not be sent: no node");
}

fn kept(tag: u8, backed_up: bool) -> KeptConversation {
    KeptConversation { buyer_public_key: [tag; 32], created_at: 1_700_000_000, backed_up }
}

#[test]
fn conversations_not_backed_up_are_warned_about() {
    let none = kept_words(&Vec::new());
    assert_eq!((none.kept, none.warning), (None, None));

    let some = vec![kept(1, false), kept(2, true), kept(3, false)];
    assert_eq!(count_unsaved(&some), 2);
    let words = kept_words(&some);
    assert!(words.kept.unwrap().contains("reads 3 conversation(s)"));
    assert!(words.warning.unwrap().starts_with("2 of them exist on this device"));

    let saved = kept_words(&vec![kept(1, true)]);
    assert!(saved.kept.is_some());
    assert_eq!(saved.warning, None);
    assert_ne!(backup_words(true), backup_words(false));
    assert_eq!(
        kept_heading("ab12", 1_700_000_000),
        "Conversation ab12, started 2023-11-14 22:13 UTC"
    );
    assert_eq!(kept_heading("ab12", i64::MAX), "Conversation ab12, started an unknown time");
}

/// Only a confirmation of the conversation that was asked about forgets it.
#[test]
fn forgetting_a_conversation_takes_two_steps() {
    let (asked, gone) = forget_click(None, ForgetClick::Ask([1; 32]));
    assert_eq!((asked, gone), (Some([1; 32]), None));
    assert_eq!(forget_click(asked, ForgetClick::Keep), (None, None));
    assert_eq!(forget_click(asked, ForgetClick::Confirm([2; 32])), (asked, None));
    assert_eq!(forget_click(asked, ForgetClick::Confirm([1; 32])), (None, Some([1; 32])));
    assert_eq!(forget_click(None, ForgetClick::Confirm([1; 32])), (None, None));
}

#[test]
fn a_backup_is_shown_under_its_own_conversation() {
    let shown = Some(ConversationBackup {
        store_contract_id: vec![7; 32],
        buyer_public_key: [1; 32],
        text: "words to keep".into(),
    });
    assert_eq!(
        backup_shown(&shown, &[7; 32], &[1; 32]),
        Some(&"words to keep".to_string())
    );
    assert_eq!(backup_shown(&shown, &[7; 32], &[2; 32]), None);
    assert_eq!(backup_shown(&shown, &[8; 32], &[1; 32]), None);
    assert_eq!(backup_shown(&None, &[7; 32], &[1; 32]), None);

    assert_eq!(
        backup_click(BackupClick::Show),
        BackupStep { export: true, mark_saved: false, take_down: false }
    );
    assert_eq!(
        backup_click(BackupClick::Saved),
        BackupStep { export: false, mark_saved: true, take_down: true }
    );
    assert_eq!(
        backup_click(BackupClick::Hide),
        BackupStep { export: false, mark_saved: false, take_down: true }
    );
}

/// A control that cannot be undone acts on the second press.
#[test]
fn a_two_step_control_acts_on_the_second_press() {
    let mut control = TwoStep::new();
    assert!(!control.press(Press::Confirm), "nothing was asked yet");
    assert!(!control.press(Press::Ask));
    assert!(control.confirming);
    assert!(!control.press(Press::Decline));
    assert!(!control.press(Press::Confirm), "declined");
    assert!(!control.press(Press::Ask));
    assert!(control.press(Press::Confirm));
    control.note_outcome(Err("refused".into()));
    assert_eq!(control.problem, Some("refused".to_string()));
}
