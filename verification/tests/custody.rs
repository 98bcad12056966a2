//! Store-key custody: wrapping a held key for its backer, recovering a lost
//! one, and what every answer, silence and failed send leaves behind.

use ed25519_dalek::{Signer as _, SigningKey};
use freenet_stdlib::prelude::ContractInstanceId;
use ghostkey_common::{GhostkeyRequest, ScopedPayload, SignatureRequestor};
use harvest_ui::custody_flow::{
    copy_for, recheck_delay, CUSTODY_RECHECKS, MAX_CUSTODY_SEND_ATTEMPTS,
};
use harvest_ui::keyed::{KeyedMap, KeyedSet};
use harvest_ui::state::{
    AppState, AuthorizedCopy, BrowsingStore, CustodyMessage, CustodyPurpose, CustodyRequest,
    Errand, GhostKeyInfo, OwnedStore, PendingSignature, PendingStoreCreation, PublishedInfo,
    StoreRegistration, StoreSubkeyInfo, WrappedStoreKey,
};
use harvest_ui::vault::{
    delegate_request, delegate_unreached, judge_wrap_request, request_payload, vault_unreached,
    wrap_signature_request, VaultRequest,
};

const FINGERPRINT: &str = "fp-backer";
const STORE: u8 = 0x71;
const BACKER: u8 = 0x41;
const ID: u8 = 1;

/// The scope copies are wrapped under now.
const SCOPE: [u8; 32] = [0x5c; 32];
/// How long an unanswered request is kept.
const CUSTODY_TIMEOUT_MS: u64 = 120_000;
/// When the tests' requests start.
const NOW: u64 = 1_700_000_000_000;
/// The mailbox the backer addresses.
const MAILBOX: u8 = 0x3b;

fn key_of(seed: u8) -> [u8; 32] {
    SigningKey::from_bytes(&[seed; 32]).verifying_key().to_bytes()
}

fn store_vk() -> [u8; 32] {
    key_of(STORE)
}

fn backer_vk() -> [u8; 32] {
    key_of(BACKER)
}

fn connect(state: &mut AppState, fingerprint: &str, key: [u8; 32]) {
    state.ghostkeys.push(GhostKeyInfo {
        fingerprint: fingerprint.to_string(),
        label: None,
        notary_info: String::new(),
        verifying_key_bytes: Some(key.to_vec()),
    });
}

fn connect_backer(state: &mut AppState) {
    connect(state, FINGERPRINT, backer_vk());
}

fn registration_of(id: u8, key: [u8; 32]) -> StoreRegistration {
    StoreRegistration {
        store_contract_id: vec![id; 32],
        reputation_contract_id: vec![id + 1; 32],
        mailbox_contract_id: vec![id + 2; 32],
        store_verifying_key: Some(key),
    }
}

fn own(state: &mut AppState, registration: StoreRegistration) {
    state.my_stores.push(OwnedStore { fingerprint: FINGERPRINT.to_string(), registration });
}

fn register(state: &mut AppState) {
    own(state, registration_of(ID, store_vk()));
}

fn wrapped() -> WrappedStoreKey {
    WrappedStoreKey { scheme: 1, ciphertext: vec![0xc0; 72] }
}

fn copy(backer: [u8; 32], scope: [u8; 32]) -> AuthorizedCopy {
    AuthorizedCopy { backer, scope, wrapped: wrapped() }
}

fn loaded(state: &mut AppState) -> &mut BrowsingStore {
    state
        .browsing_stores
        .iter_mut()
        .find(|s| s.contract_id == vec![ID; 32])
        .expect("the store is loaded")
}

fn add_copy(state: &mut AppState, scope: [u8; 32]) {
    loaded(state).copies.push(copy(backer_vk(), scope));
}

/// Load a store with these backings, the first of them the current one.
fn load_backed(state: &mut AppState, id: u8, owner: u8, backers: Vec<u8>) {
    let backers: Vec<[u8; 32]> = backers.into_iter().map(key_of).collect();
    state.browsing_stores.push(BrowsingStore {
        contract_id: vec![id; 32],
        owner: Some(key_of(owner)),
        current_backer: backers.first().copied(),
        backers,
        retired: KeyedSet::new(),
        copies: Vec::new(),
        info: None,
        closed: false,
    });
}

fn fresh() -> AppState {
    AppState::new(SCOPE)
}

/// A store owned by `STORE`, currently backed by `BACKER`, which is
/// connected to this tab.
fn backed_store() -> AppState {
    let mut state = fresh();
    load_backed(&mut state, ID, STORE, vec![BACKER]);
    connect_backer(&mut state);
    state.harvest_delegate_registered = true;
    state
}

/// Mark the store's pending custody request as sent under `id`, as
/// `on_wrap_signature` does once the vault has signed.
fn sent_under(state: &mut AppState, store: [u8; 32], id: u64) {
    let mut request = state.pending_custody.remove(&store).expect("a pending custody request");
    request.request_id = Some(id);
    state.pending_custody.insert(store, request);
}

fn purpose(state: &AppState) -> Option<CustodyPurpose> {
    state.custody_needed(&[ID; 32]).map(|r| r.purpose)
}

fn pending_purpose(state: &AppState) -> Option<CustodyPurpose> {
    state.pending_custody.get(&store_vk()).map(|r| r.purpose.clone())
}

/// A store list arrives for the backer's Ghost Key: its registrations are
/// taken over, each key's held state is what the delegate says of it, or
/// left alone where it says nothing, and custody is decided again.
fn store_list(state: &mut AppState, stores: Vec<StoreRegistration>, held: Option<Vec<[u8; 32]>>) {
    if let Some(held) = &held {
        for key in stores.iter().filter_map(|s| s.store_verifying_key) {
            state.store_keys_held.insert(key, held.contains(&key));
        }
    }
    state.my_stores.retain(|o| o.fingerprint != FINGERPRINT);
    for registration in stores {
        own(state, registration);
    }
    state.start_custody_where_needed(NOW);
}

/// The store list of a device whose registration came across and whose key
/// may not have.
fn store_list_holding(state: &mut AppState, held: Vec<[u8; 32]>) {
    store_list(state, vec![registration_of(ID, store_vk())], Some(held));
}

fn recovered(state: &mut AppState, id: u64, result: Result<(), String>) {
    state.on_store_key_recovered(store_vk(), id, result, Some(vec![MAILBOX; 32]), NOW);
}

/// What the vault is asked to sign for a store.
fn wrap_message(store: &[u8; 32]) -> Vec<u8> {
    [b"wrap this store's key: ".as_slice(), store].concat()
}

fn wrap_message_store(message: &[u8]) -> Option<[u8; 32]> {
    message.strip_prefix(b"wrap this store's key: ")?.try_into().ok()
}

/// What the vault answers when it has signed a message.
fn signed(message: Vec<u8>) -> (Vec<u8>, Vec<u8>) {
    let scoped = ScopedPayload {
        requestor: SignatureRequestor::WebApp(ContractInstanceId::new(SCOPE)),
        payload: message,
    };
    let scoped_payload = ghostkey_common::to_cbor(&scoped).expect("encode");
    let signature =
        SigningKey::from_bytes(&[BACKER; 32]).sign(&scoped_payload).to_bytes().to_vec();
    (scoped_payload, signature)
}

fn wrap_signature(state: &mut AppState) {
    let (scoped_payload, signature) = signed(wrap_message(&store_vk()));
    state.on_wrap_signature(scoped_payload, signature, wrap_message_store);
}

fn custody_sent(state: &AppState) -> Vec<CustodyMessage> {
    let mut sent = Vec::new();
    for errand in &state.errands {
        if let Errand::SendCustody { message, .. } = errand {
            sent.push(message.clone());
        }
    }
    sent
}

fn says(state: &AppState, words: &str) -> bool {
    count_said(state, words) > 0
}

fn count_said(state: &AppState, words: &str) -> usize {
    state.notifications.iter().filter(|n| n.contains(words)).count()
}

fn set_published(state: &mut AppState, record_public_key: Option<Vec<u8>>) {
    loaded(state).info =
        Some(PublishedInfo { reputation_contract_id: [0x0e; 32], record_public_key });
}

fn pending_request(request_id: Option<u64>) -> CustodyRequest {
    CustodyRequest {
        store_contract_id: vec![ID; 32],
        backer: backer_vk(),
        fingerprint: FINGERPRINT.to_string(),
        purpose: CustodyPurpose::Recover(wrapped()),
        request_id,
    }
}

fn creation() -> PendingStoreCreation {
    PendingStoreCreation {
        store_verifying_key: Some(store_vk()),
        rsa_public_key_der: None,
        encryption_public_key: None,
    }
}

fn subkeys(record: Vec<u8>) -> StoreSubkeyInfo {
    StoreSubkeyInfo { inbox_public_key: [0x1b; 32], record_public_key: record }
}

fn no_attempts(state: &mut AppState) {
    state.custody_attempted = KeyedSet::new();
}

fn no_pending(state: &mut AppState) {
    state.pending_custody = KeyedMap::new();
}

/// The four cases the decision distinguishes.
#[test]
fn custody_wraps_a_held_key_and_recovers_a_lost_one() {
    // Held, no copy: wrap.
    let mut state = backed_store();
    register(&mut state);
    assert_eq!(purpose(&state), Some(CustodyPurpose::Wrap));
    // Held, copy under the current scope: nothing to do.
    add_copy(&mut state, SCOPE);
    assert_eq!(purpose(&state), None);

    // Held, copy only under an older scope: wrap again for this one.
    let mut state = backed_store();
    register(&mut state);
    add_copy(&mut state, [0xee; 32]);
    assert_eq!(purpose(&state), Some(CustodyPurpose::Wrap));

    // Not held, copy: recover it.
    let mut state = backed_store();
    add_copy(&mut state, SCOPE);
    assert_eq!(purpose(&state), Some(CustodyPurpose::Recover(wrapped())));

    // Not held, no copy: nothing a device can do.
    let state = backed_store();
    assert_eq!(purpose(&state), None);
}

/// Custody needs the backing Ghost Key in this tab's vault, and asks once
/// per store and backer in a session.
#[test]
fn custody_needs_the_backer_connected_and_asks_once() {
    let mut state = backed_store();
    register(&mut state);
    state.ghostkeys.clear();
    assert_eq!(purpose(&state), None, "the backer is not connected");

    connect_backer(&mut state);
    state.start_custody_for(&[ID; 32], NOW);
    assert!(state.pending_custody.contains_key(&store_vk()));
    assert_eq!(purpose(&state), None, "one request at a time");

    no_pending(&mut state);
    assert_eq!(purpose(&state), None, "a declined prompt is not re-asked");
}

/// A store with a custody request in flight gets no second one, even for a
/// backer not yet attempted.
#[test]
fn a_store_with_a_request_in_flight_gets_no_second_one() {
    let mut state = backed_store();
    register(&mut state);
    state.pending_custody.insert(
        store_vk(),
        CustodyRequest {
            store_contract_id: vec![ID; 32],
            backer: [0; 32],
            fingerprint: "another".into(),
            purpose: CustodyPurpose::Wrap,
            request_id: None,
        },
    );
    assert_eq!(purpose(&state), None);
}

/// A device that does not hold the key can recover through a backer that is
/// not the current one; wrapping is only ever for the current backer.
#[test]
fn recovery_can_use_any_unretired_backer() {
    const OLD: u8 = 0x42;
    let mut state = fresh();
    // BACKER is current; OLD backed it earlier.
    load_backed(&mut state, ID, STORE, vec![BACKER, OLD]);
    let old = key_of(OLD);
    connect(&mut state, "fp-old", old);
    loaded(&mut state).copies.push(copy(old, SCOPE));
    let request = state.custody_needed(&[ID; 32]).expect("recovers");
    assert_eq!(request.backer, old);
    assert_eq!(request.fingerprint, "fp-old");
    assert_eq!(request.purpose, CustodyPurpose::Recover(wrapped()));

    // Holding the key, the old backer is not wrapped for.
    register(&mut state);
    assert_eq!(purpose(&state), None, "the current backer is not connected");
}

/// A backing that was retired is not recovered through, though its copy is
/// still there.
#[test]
fn a_retired_backing_is_not_recovered_through() {
    let mut state = backed_store();
    add_copy(&mut state, SCOPE);
    let _ = loaded(&mut state).retired.insert(backer_vk());
    assert_eq!(purpose(&state), None);
}

/// Custody waits while anything else waits on the vault, and counts as the
/// seller's own vault work while it waits.
#[test]
fn custody_is_the_only_vault_prompt_while_it_waits() {
    let mut state = backed_store();
    register(&mut state);
    state.pending_signatures.push(PendingSignature::Seller);
    state.start_custody_for(&[ID; 32], NOW);
    assert!(state.pending_custody.is_empty(), "deferred behind the vault");
    assert!(state.custody_attempted.is_empty(), "deferred, not recorded as tried");

    state.pending_signatures.clear();
    state.start_custody_where_needed(NOW);
    assert!(!state.pending_custody.is_empty(), "started once the vault is free");
    assert!(state.user_signature_under_way(), "and counts as the seller's");
}

/// A listing waiting on its certificate holds custody back, and the
/// certificate's arrival starts it again.
#[test]
fn a_certificate_arriving_starts_custody_deferred_behind_a_listing() {
    let mut state = backed_store();
    register(&mut state);
    state.listings_awaiting_certificate = 1;
    state.start_custody_where_needed(NOW);
    assert!(state.pending_custody.is_empty(), "deferred behind the listing");

    // The certificate arrives: no listing waits any more.
    state.listings_awaiting_certificate = 0;
    state.start_custody_where_needed(NOW);
    assert!(!state.pending_custody.is_empty(), "started once the vault is free");
}

/// Custody is decided again when the Ghost Keys connected to the tab arrive.
#[test]
fn a_ghost_key_list_starts_custody() {
    let mut state = backed_store();
    register(&mut state);
    let keys = state.ghostkeys.clone();
    state.ghostkeys.clear();
    state.start_custody_where_needed(NOW);
    assert!(state.pending_custody.is_empty());
    state.ghostkeys = keys;
    state.start_custody_where_needed(NOW);
    assert!(!state.pending_custody.is_empty());
}

/// Custody is decided again when the store registrations arrive: a store
/// list naming the store's key makes this device a holder.
#[test]
fn a_store_list_starts_custody() {
    let mut state = backed_store();
    state.start_custody_where_needed(NOW);
    assert!(state.pending_custody.is_empty(), "not held, no copy");
    store_list_holding(&mut state, vec![store_vk()]);
    assert_eq!(pending_purpose(&state), Some(CustodyPurpose::Wrap));
}

/// A store registered here whose key the delegate does not hold is
/// recovered from its copy, not wrapped.
#[test]
fn a_registered_store_whose_key_is_not_held_is_recovered() {
    // Copy published, key lost: recover it.
    let mut state = backed_store();
    add_copy(&mut state, SCOPE);
    store_list_holding(&mut state, Vec::new());
    assert_eq!(state.store_owner_key(&[ID; 32]), Some(store_vk()));
    assert_eq!(pending_purpose(&state), Some(CustodyPurpose::Recover(wrapped())));

    // No copy anywhere, key lost: nothing can be done.
    let mut state = backed_store();
    store_list_holding(&mut state, Vec::new());
    assert!(state.pending_custody.is_empty());

    // The key is held and the copy is there: nothing to do.
    let mut state = backed_store();
    add_copy(&mut state, SCOPE);
    store_list_holding(&mut state, vec![store_vk()]);
    assert!(state.pending_custody.is_empty());
}

/// One store list, two stores: each key's held state is its own.
#[test]
fn a_store_list_records_each_keys_held_state_on_its_own() {
    let mut state = fresh();
    let other = key_of(0x72);
    store_list(
        &mut state,
        vec![registration_of(ID, store_vk()), registration_of(9, other)],
        Some(vec![other]),
    );
    assert!(!state.holds_store_key(&store_vk()));
    assert!(state.holds_store_key(&other));
}

/// A registered store whose key this device lacks, with nothing custody can
/// recover it from, is said once per session.
#[test]
fn an_unrecoverable_store_key_is_said_once() {
    let words = "does not hold your store's key";
    let mut state = backed_store();
    store_list_holding(&mut state, Vec::new());
    assert_eq!(count_said(&state, words), 1);
    state.start_custody_where_needed(NOW);
    state.start_custody_where_needed(NOW);
    assert_eq!(count_said(&state, words), 1, "once per session");

    // Held, or recoverable: nothing said.
    let mut state = backed_store();
    store_list_holding(&mut state, vec![store_vk()]);
    add_copy(&mut state, SCOPE);
    state.start_custody_where_needed(NOW);
    assert_eq!(count_said(&state, words), 0);
    let mut state = backed_store();
    add_copy(&mut state, SCOPE);
    store_list_holding(&mut state, Vec::new());
    assert_eq!(count_said(&state, words), 0, "recovering instead");
}

/// A recovery that succeeds after its request was given up still says the
/// delegate holds the key.
#[test]
fn a_late_recovery_answer_still_marks_the_key_held() {
    let again = "Recovered your store's key";
    let mut state = backed_store();
    add_copy(&mut state, SCOPE);
    store_list_holding(&mut state, Vec::new());
    // A late answer while a different attempt is live leaves it alone.
    sent_under(&mut state, store_vk(), 5);
    state.store_subkeys_requested = KeyedSet::new();
    recovered(&mut state, 77, Ok(()));
    assert!(state.holds_store_key(&store_vk()));
    assert!(
        state.pending_custody.contains_key(&store_vk()),
        "the live attempt is left to its own answer"
    );
    // The follow-up runs on the transition to held, once.
    assert_eq!(count_said(&state, again), 1);
    assert!(state.store_subkeys_requested.contains(&store_vk()));
    // The live attempt then fails: not news, and not said.
    recovered(&mut state, 5, Err("the vault refused".into()));
    assert!(state.pending_custody.is_empty());
    assert!(!says(&state, "could not be recovered"));
    // A live attempt that then times out is not "did not finish" either.
    state.pending_custody.insert(store_vk(), pending_request(Some(9)));
    state.custody_started_ms.insert(store_vk(), 0);
    state.expire_custody(CUSTODY_TIMEOUT_MS, CUSTODY_TIMEOUT_MS);
    assert!(!says(&state, "did not finish"));
    // A further success is not said twice.
    recovered(&mut state, 6, Ok(()));
    assert_eq!(count_said(&state, again), 1);
}

/// An unregistered store is not made this device's by a late success, so a
/// live attempt's failure afterwards is still said.
#[test]
fn an_unregistered_stores_failure_is_said_after_a_late_success() {
    let mut state = backed_store();
    add_copy(&mut state, SCOPE);
    state.start_custody_for(&[ID; 32], NOW);
    sent_under(&mut state, store_vk(), 5);
    recovered(&mut state, 77, Ok(()));
    recovered(&mut state, 5, Err("bad copy".into()));
    assert!(says(&state, "could not be recovered"));

    // And the same for a timeout instead of a failure.
    let mut state = backed_store();
    add_copy(&mut state, SCOPE);
    state.start_custody_for(&[ID; 32], NOW);
    sent_under(&mut state, store_vk(), 5);
    recovered(&mut state, 77, Ok(()));
    state.expire_custody(u64::MAX, CUSTODY_TIMEOUT_MS);
    assert!(says(&state, "did not finish"));
}

/// A recovery that was tried and failed, with the copy there and the backer
/// connected, has its own message.
#[test]
fn a_failed_recovery_is_not_called_unrecoverable() {
    let mut state = backed_store();
    add_copy(&mut state, SCOPE);
    store_list_holding(&mut state, Vec::new());
    sent_under(&mut state, store_vk(), 0);
    recovered(&mut state, 0, Err("the vault refused".into()));
    state.start_custody_where_needed(NOW);
    assert!(!says(&state, "does not hold your store's key"), "{:?}", state.notifications);
    assert!(says(&state, "could not be recovered"));
}

/// The registration is found by its key: a move that rewrote its contract id
/// while the vault prompt was open does not make the recovery rebuild it.
#[test]
fn a_registration_moved_to_a_new_contract_id_is_still_kept() {
    let mut state = backed_store();
    add_copy(&mut state, SCOPE);
    store_list_holding(&mut state, Vec::new());
    sent_under(&mut state, store_vk(), 0);
    // With its details loaded, so a rebuilt registration would be made.
    set_published(&mut state, None);
    state.my_stores[0].registration.store_contract_id = vec![0x3d; 32];
    let before = state.my_stores.clone();
    recovered(&mut state, 0, Ok(()));
    assert_eq!(state.my_stores, before);
}

/// Buyers' messages that could not be opened while the key was missing are
/// asked about again once it is recovered.
#[test]
fn recovering_a_registered_stores_key_asks_for_its_conversation_keys_again() {
    let mut state = backed_store();
    add_copy(&mut state, SCOPE);
    store_list_holding(&mut state, Vec::new());
    sent_under(&mut state, store_vk(), 0);
    state.errands.clear();
    recovered(&mut state, 0, Ok(()));
    assert!(
        state.errands.contains(&Errand::AskConversationKeys { store_contract_id: vec![ID; 32] }),
        "{:?}",
        state.errands
    );
}

/// A store list that says nothing about holding leaves the registration
/// taken as held.
#[test]
fn a_store_list_that_says_nothing_about_holding_leaves_the_key_held() {
    let mut state = backed_store();
    store_list(&mut state, vec![registration_of(ID, store_vk())], None);
    assert!(state.holds_store_key(&store_vk()));
    assert_eq!(pending_purpose(&state), Some(CustodyPurpose::Wrap));
}

/// Recovering the key of a store that is already registered here keeps the
/// registration it has.
#[test]
fn recovering_a_registered_stores_key_keeps_its_registration() {
    let mut state = backed_store();
    add_copy(&mut state, SCOPE);
    store_list_holding(&mut state, Vec::new());
    let before = state.my_stores.clone();
    let request_id = state.pending_custody.get(&store_vk()).expect("recovery started").request_id;
    assert_eq!(request_id, None, "not sent yet");
    sent_under(&mut state, store_vk(), 0);

    recovered(&mut state, 0, Ok(()));

    assert_eq!(state.my_stores, before);
    assert!(state.holds_store_key(&store_vk()));
    assert!(state.pending_custody.is_empty());
    no_attempts(&mut state);
    assert_eq!(state.custody_needed(&[ID; 32]), None, "held, copy published");
    assert!(state.store_subkeys_requested.contains(&store_vk()));
}

/// A custody request that nothing answers is given up after its time, and
/// the seller told.
#[test]
fn an_unanswered_custody_request_times_out() {
    let mut state = backed_store();
    register(&mut state);
    state.start_custody_for(&[ID; 32], NOW);
    let started = *state.custody_started_ms.get(&store_vk()).expect("its start is kept");
    assert_eq!(started, NOW);
    state.expire_custody(started + CUSTODY_TIMEOUT_MS - 1, CUSTODY_TIMEOUT_MS);
    assert!(!state.pending_custody.is_empty(), "not yet");
    state.expire_custody(started + CUSTODY_TIMEOUT_MS, CUSTODY_TIMEOUT_MS);
    assert!(state.pending_custody.is_empty());
    assert!(!state.user_signature_under_way(), "the vault is free again");
    assert!(says(&state, "did not finish"));
}

/// Store details that arrive after the subkeys are checked too, and the
/// block lifts when a later check agrees.
#[test]
fn a_record_key_block_follows_the_published_details() {
    let mut state = backed_store();
    state.on_store_subkeys(store_vk(), Ok(subkeys(vec![9, 9, 9])));
    assert!(state.record_key_mismatch.is_empty(), "nothing published yet");

    set_published(&mut state, Some(vec![1, 2, 3]));
    state.recheck_record_key(&[ID; 32]);
    assert!(state.record_key_mismatch.contains(&store_vk()));

    set_published(&mut state, Some(vec![9, 9, 9]));
    state.recheck_record_key(&[ID; 32]);
    assert!(state.record_key_mismatch.is_empty(), "lifted");
}

/// Whether a creation was filled, not whether the subkeys exist.
#[test]
fn filling_a_creation_answers_whether_it_filled_one() {
    let mut state = backed_store();
    let other = key_of(0x7e);
    state.store_subkeys.insert(other, subkeys(vec![0x2e; 4]));
    assert!(!state.fill_creation_from_subkeys(other), "no creation at all");

    state.pending_store_creation = Some(creation());
    assert!(!state.fill_creation_from_subkeys(other), "another store's keys fill nothing");
    assert!(state.pending_store_creation.as_ref().unwrap().rsa_public_key_der.is_none());

    // The creation's own store fills it.
    state.store_subkeys.insert(store_vk(), subkeys(vec![0x2f; 4]));
    assert!(state.fill_creation_from_subkeys(store_vk()));
    let filled = state.pending_store_creation.as_ref().unwrap();
    assert_eq!(filled.rsa_public_key_der, Some(vec![0x2f; 4]));
    assert_eq!(filled.encryption_public_key, Some([0x1b; 32]));
}

/// A custody request taken off the pending list takes its timestamp with it.
#[test]
fn a_finished_custody_request_leaves_no_timestamp_behind() {
    let mut state = backed_store();
    register(&mut state);
    state.start_custody_for(&[ID; 32], NOW);
    sent_under(&mut state, store_vk(), 0);
    let started = *state.custody_started_ms.get(&store_vk()).unwrap();
    state.on_store_key_wrapped(store_vk(), 0, Err("no".into()), NOW);
    assert!(state.pending_custody.is_empty());
    assert!(state.custody_started_ms.is_empty(), "and its timestamp");

    // A request with no timestamp is not expired on sight.
    state.pending_custody.insert(
        store_vk(),
        CustodyRequest {
            store_contract_id: vec![ID; 32],
            backer: [0; 32],
            fingerprint: "fp".into(),
            purpose: CustodyPurpose::Wrap,
            request_id: None,
        },
    );
    state.expire_custody(started + CUSTODY_TIMEOUT_MS * 10, CUSTODY_TIMEOUT_MS);
    assert!(!state.pending_custody.is_empty(), "not a guess");
}

/// With no delegate registered, a wrap signature is not left waiting: the
/// request is dropped and the seller told.
#[test]
fn with_no_harvest_delegate_custody_is_dropped_and_said() {
    let mut state = backed_store();
    register(&mut state);
    state.start_custody_for(&[ID; 32], NOW);
    state.harvest_delegate_registered = false;
    wrap_signature(&mut state);
    assert!(state.pending_custody.is_empty());
    assert!(custody_sent(&state).is_empty());
    assert!(says(&state, "Harvest delegate is not registered"));
}

/// A store with no backing asks for nothing.
#[test]
fn a_store_with_no_current_backing_needs_no_custody() {
    let mut state = fresh();
    load_backed(&mut state, ID, STORE, Vec::new());
    connect_backer(&mut state);
    register(&mut state);
    assert_eq!(purpose(&state), None);
}

/// The wrap signature goes to the delegate and nowhere else, and never
/// consumes a signature something else is waiting for.
#[test]
fn a_wrap_signature_goes_to_the_delegate_and_never_to_the_signing_queue() {
    let mut state = backed_store();
    register(&mut state);
    state.start_custody_for(&[ID; 32], NOW);
    state.pending_signatures.push(PendingSignature::Seller);

    wrap_signature(&mut state);

    assert_eq!(state.pending_signatures.len(), 1, "the queue is untouched");
    match custody_sent(&state).as_slice() {
        [CustodyMessage::WrapStoreKeyFor {
            request_id,
            store_verifying_key,
            backer_verifying_key,
            scoped_payload,
            signature,
        }] => {
            assert_eq!(*store_verifying_key, store_vk());
            assert_eq!(*backer_verifying_key, backer_vk());
            assert_eq!(
                (scoped_payload.clone(), signature.clone()),
                signed(wrap_message(&store_vk()))
            );
            // The answer is matched to the request by the id it went out under.
            let pending = state.pending_custody.get(&store_vk()).unwrap();
            assert_eq!(pending.request_id, Some(*request_id));
        }
        other => panic!("expected one WrapStoreKeyFor, got {other:?}"),
    }
}

/// A wrap signature nobody asked for is dropped, not forwarded.
#[test]
fn an_unrequested_wrap_signature_is_dropped() {
    let mut state = backed_store();
    wrap_signature(&mut state);
    assert!(custody_sent(&state).is_empty());
    // So is a signature over a message that is no wrap message, and one over
    // what is no scoped payload at all, though a request waits.
    register(&mut state);
    state.start_custody_for(&[ID; 32], NOW);
    let (scoped_payload, signature) = signed(b"something else".to_vec());
    state.on_wrap_signature(scoped_payload, signature, wrap_message_store);
    state.on_wrap_signature(wrap_message(&store_vk()), vec![8], wrap_message_store);
    assert!(custody_sent(&state).is_empty());
    state.on_store_wrap_signature(None, vec![7], vec![8]);
    assert!(custody_sent(&state).is_empty());
    wrap_signature(&mut state);
    assert_eq!(custody_sent(&state).len(), 1);
}

/// The same signature on a device without the key asks the delegate to
/// unwrap the copy the store holds.
#[test]
fn recovery_sends_the_stores_copy_to_unwrap() {
    let mut state = backed_store();
    add_copy(&mut state, SCOPE);
    state.start_custody_for(&[ID; 32], NOW);
    wrap_signature(&mut state);
    match custody_sent(&state).as_slice() {
        [CustodyMessage::UnwrapStoreKey { wrapped: sent, .. }] => assert_eq!(*sent, wrapped()),
        other => panic!("expected one UnwrapStoreKey, got {other:?}"),
    }
}

/// A recovered key makes the store this device's again: registered under its
/// backer, with its store key, its published record and the mailbox its
/// backer addresses.
#[test]
fn a_recovered_store_is_registered_again() {
    let mut state = backed_store();
    add_copy(&mut state, SCOPE);
    set_published(&mut state, None);
    state.start_custody_for(&[ID; 32], NOW);
    sent_under(&mut state, store_vk(), 0);
    assert_eq!(state.store_owner_key(&[ID; 32]), None);

    recovered(&mut state, 0, Ok(()));

    assert_eq!(state.store_owner_key(&[ID; 32]), Some(store_vk()));
    let owned = &state.my_stores[0];
    assert_eq!(owned.fingerprint, FINGERPRINT);
    assert_eq!(owned.registration.reputation_contract_id, vec![0x0e; 32]);
    assert_eq!(owned.registration.mailbox_contract_id, vec![MAILBOX; 32]);
    assert!(state.pending_custody.is_empty());
    assert!(
        state.store_subkeys_requested.contains(&store_vk()),
        "the recovered key's record key is checked against the published one"
    );
}

/// A backer whose bytes are no key has no mailbox, so nothing is registered
/// under it.
#[test]
fn a_store_is_not_registered_under_a_backer_that_is_no_key() {
    let mut state = backed_store();
    set_published(&mut state, None);
    let mut request = pending_request(Some(0));
    // Not the encoding of a point on the curve.
    request.backer = [2; 32];
    assert!(ed25519_dalek::VerifyingKey::from_bytes(&[2; 32]).is_err());
    assert_eq!(
        state.recovered_registration(&request, store_vk(), Some(vec![MAILBOX; 32])),
        None
    );
    // The backer's own key does have one.
    assert!(state
        .recovered_registration(&pending_request(Some(0)), store_vk(), Some(vec![MAILBOX; 32]))
        .is_some());
}

/// A subkeys request that cannot be sent releases a creation waiting on it.
#[test]
fn a_subkeys_send_failure_releases_the_creation() {
    let mut state = fresh();
    state.store_creation_in_flight = Some("fp".to_string());
    state.pending_store_creation = Some(creation());
    let _ = state.store_subkeys_requested.insert(store_vk());

    state.on_subkeys_request_failed(store_vk(), "the delegate is not registered");

    assert!(
        state.store_creation_in_flight.is_none(),
        "a creation that can never finish must not hold the single-flight marker"
    );
    assert!(state.pending_store_creation.is_none());
    assert!(
        !state.store_subkeys_requested.contains(&store_vk()),
        "a retry must be able to ask again"
    );
    assert!(says(&state, "not registered"));
}

/// The same failure with no creation waiting says so and asks nothing else
/// to fail.
#[test]
fn a_subkeys_send_failure_without_a_creation_only_reports() {
    let mut state = fresh();
    let _ = state.store_subkeys_requested.insert(store_vk());
    state.on_subkeys_request_failed(store_vk(), "could not reach the delegate");
    assert!(state.store_creation_in_flight.is_none());
    assert!(says(&state, "could not reach the delegate"));
}

/// Custody runs one store at a time, and the next one starts when the first
/// answers.
#[test]
fn the_next_store_s_custody_starts_when_the_first_answers() {
    const ID2: u8 = 2;
    const STORE2: u8 = 0x72;
    let mut state = backed_store();
    register(&mut state);
    // A second store under the same Ghost Key, also held by this device.
    load_backed(&mut state, ID2, STORE2, vec![BACKER]);
    own(&mut state, registration_of(ID2, key_of(STORE2)));

    state.start_custody_where_needed(NOW);
    assert_eq!(state.pending_custody.keys().len(), 1, "one vault prompt at a time");
    let first = state.pending_custody.keys()[0];
    let second = if first == store_vk() { key_of(STORE2) } else { store_vk() };

    // The first answers. The second must then start on its own.
    sent_under(&mut state, first, 7);
    state.on_store_key_wrapped(first, 7, Err("no".into()), NOW);
    assert!(
        state.pending_custody.contains_key(&second),
        "the deferred store's custody must start when the vault frees up"
    );
}

/// Custody does not act on a generation this session moved the store away
/// from.
#[test]
fn custody_leaves_an_earlier_generation_alone() {
    let mut state = backed_store();
    register(&mut state);
    assert!(state.custody_needed(&[ID; 32]).is_some(), "this store calls for custody");
    // The session moved the store on; the earlier id stays loaded.
    state.migrated_contract_ids.push((vec![ID; 32], vec![0x77; 32]));
    assert!(state.custody_needed(&[ID; 32]).is_none());
}

/// An edit parked under the store's earlier id is released after this
/// session moved the store.
#[test]
fn a_subkeys_failure_releases_an_edit_parked_while_moving() {
    let (earlier, current) = (vec![0x11; 32], vec![0x22; 32]);
    let mut state = fresh();
    own(&mut state, registration_of(0x11, store_vk()));
    state.pending_store_edit = Some(earlier.clone());
    let _ = state.store_subkeys_requested.insert(store_vk());
    // The store moves: its registration takes the new id, and the old one is
    // remembered as having moved there.
    state.my_stores[0].registration.store_contract_id = current.clone();
    state.migrated_contract_ids.push((earlier, current));
    state.on_subkeys_request_failed(store_vk(), "no key here");
    assert!(state.pending_store_edit.is_none());
}

/// A subkeys failure releases a parked edit, not just a creation.
#[test]
fn a_subkeys_failure_releases_a_parked_edit_and_unblocks_the_vault() {
    for delegate_answered in [false, true] {
        let mut state = backed_store();
        register(&mut state);
        state.pending_store_edit = Some(vec![ID; 32]);
        let _ = state.store_subkeys_requested.insert(store_vk());
        assert!(state.user_signature_under_way(), "a parked edit holds the vault");

        if delegate_answered {
            state.on_store_subkeys(store_vk(), Err("no key here".into()));
        } else {
            state.on_subkeys_request_failed(store_vk(), "no key here");
        }

        assert!(
            state.pending_store_edit.is_none(),
            "the edit must be released (delegate_answered = {delegate_answered})"
        );
        assert!(
            !state.user_signature_under_way(),
            "and the vault must be free again (delegate_answered = {delegate_answered})"
        );
        assert!(
            says(&state, "no key here"),
            "and the seller must be told (delegate_answered = {delegate_answered})"
        );
    }
}

/// A custody request that fails to send is retried a bounded number of
/// times, and then stops and says so once.
#[test]
fn a_custody_send_failure_retries_a_bounded_number_of_times() {
    let mut state = backed_store();
    register(&mut state);
    let key = (store_vk(), backer_vk());

    for attempt in 1..MAX_CUSTODY_SEND_ATTEMPTS {
        state.start_custody_for(&[ID; 32], NOW);
        assert!(
            state.pending_custody.contains_key(&store_vk()),
            "attempt {attempt} must start"
        );
        state.on_custody_send_failed(store_vk(), "no delegate");
        assert!(
            !state.custody_attempted.contains(&key),
            "attempt {attempt} must be retryable"
        );
        assert!(state.notifications.is_empty(), "and must not nag on attempt {attempt}");
    }

    // The last permitted attempt gives up and says so, once.
    state.start_custody_for(&[ID; 32], NOW);
    state.on_custody_send_failed(store_vk(), "no delegate");
    assert!(state.custody_attempted.contains(&key), "past the cap it stops retrying");
    assert_eq!(count_said(&state, "no delegate"), 1, "and says so exactly once");

    // Nothing restarts it, and nothing says it again.
    state.start_custody_where_needed(NOW);
    assert!(state.pending_custody.is_empty());
}

/// A late answer to a custody attempt that has already timed out does not
/// consume the attempt that replaced it.
#[test]
fn a_late_custody_answer_does_not_consume_the_next_attempt() {
    let mut state = backed_store();
    add_copy(&mut state, SCOPE);
    state.start_custody_for(&[ID; 32], NOW);
    // The first attempt is sent under id 1.
    sent_under(&mut state, store_vk(), 1);
    // It times out; another replaces it, sent under id 2.
    let _ = state.take_custody(&store_vk());
    no_attempts(&mut state);
    state.start_custody_for(&[ID; 32], NOW);
    sent_under(&mut state, store_vk(), 2);

    // The first one's answer arrives late. It must be ignored.
    recovered(&mut state, 1, Err("stale".into()));
    assert!(
        state.pending_custody.contains_key(&store_vk()),
        "a stale answer must not cancel the live attempt"
    );
    assert!(state.my_stores.is_empty(), "and must not register anything");

    // The live one's own answer settles it.
    recovered(&mut state, 2, Err("real".into()));
    assert!(state.pending_custody.is_empty());
    assert!(says(&state, "real"));
}

/// A failed recovery registers nothing and says so.
#[test]
fn a_failed_recovery_registers_nothing() {
    let mut state = backed_store();
    add_copy(&mut state, SCOPE);
    state.start_custody_for(&[ID; 32], NOW);
    sent_under(&mut state, store_vk(), 0);
    recovered(&mut state, 0, Err("wrong key".into()));
    assert!(state.my_stores.is_empty());
    assert!(says(&state, "wrong key"));
}

/// A wrapped copy is published to the store it came from.
#[test]
fn a_wrapped_copy_is_published() {
    let mut state = backed_store();
    register(&mut state);
    state.start_custody_for(&[ID; 32], NOW);
    sent_under(&mut state, store_vk(), 0);
    let made = copy(backer_vk(), SCOPE);
    state.on_store_key_wrapped(store_vk(), 0, Ok(made.clone()), NOW);
    let mut published = Vec::new();
    for errand in &state.errands {
        if let Errand::PublishCopy { store_contract_id, copy } = errand {
            published.push((store_contract_id.clone(), copy.clone()));
        }
    }
    assert_eq!(published, vec![(vec![ID; 32], made)]);
}

/// A device that derives a different record key from the one the store
/// publishes says so; one that agrees says nothing.
#[test]
fn a_record_key_that_disagrees_with_the_published_one_is_reported() {
    for (derived, warned) in [(vec![1, 2, 3], false), (vec![9, 9, 9], true)] {
        let mut state = backed_store();
        set_published(&mut state, Some(vec![1, 2, 3]));
        state.on_store_subkeys(store_vk(), Ok(subkeys(derived)));
        assert_eq!(says(&state, "different record key"), warned);
        assert_eq!(
            state.record_key_mismatch.contains(&store_vk()),
            warned,
            "and a mismatch blocks publishing"
        );
    }
}

/// A copy is found by its backer and its scope together.
#[test]
fn a_copy_is_found_by_backer_and_scope() {
    let mut state = backed_store();
    add_copy(&mut state, SCOPE);
    let store = state.loaded_store(&[ID; 32]).expect("loaded");
    assert_eq!(copy_for(store, &backer_vk(), &SCOPE), Some(&copy(backer_vk(), SCOPE)));
    assert_eq!(copy_for(store, &backer_vk(), &[0; 32]), None);
    assert_eq!(copy_for(store, &store_vk(), &SCOPE), None);
    assert!(state.loaded_store(&[9; 32]).is_none());
    assert_eq!(state.connected_fingerprint(&backer_vk()), Some(FINGERPRINT.to_string()));
    assert_eq!(state.connected_fingerprint(&store_vk()), None);
    assert!(state.a_connected_backer_has_a_copy(&[ID; 32]));
    assert!(!state.a_connected_backer_has_a_copy(&[9; 32]));
}

/// A buyer's entry waiting to be signed holds the vault, but is not the
/// seller's own work.
#[test]
fn an_inbox_entry_holds_the_vault_without_being_the_sellers() {
    let mut state = backed_store();
    state.pending_signatures.push(PendingSignature::InboxEntry);
    assert!(state.vault_work_outstanding());
    assert!(!state.user_signature_under_way());
}

/// The subkeys of a store are asked for once.
#[test]
fn subkeys_are_asked_for_once() {
    let mut state = fresh();
    state.request_store_subkeys(store_vk());
    state.request_store_subkeys(store_vk());
    assert_eq!(state.errands.len(), 1);
    assert!(matches!(
        &state.errands[0],
        Errand::AskSubkeys { store, .. } if *store == store_vk()
    ));
}

/// The vault reads back what a request was written from.
#[test]
fn vault_requests_are_written_as_the_vault_reads_them() {
    let read = |request: &VaultRequest| {
        let payload = request_payload(request).expect("written");
        ghostkey_common::from_cbor::<GhostkeyRequest>(&payload).expect("read back")
    };
    assert!(matches!(read(&VaultRequest::ListGhostKeys), GhostkeyRequest::ListGhostKeys));
    assert!(matches!(read(&VaultRequest::RequestAnyAccess), GhostkeyRequest::RequestAnyAccess));
    assert!(matches!(
        read(&VaultRequest::GetCertificate { fingerprint: "fp".into() }),
        GhostkeyRequest::GetCertificate { fingerprint } if fingerprint == "fp"
    ));

    let message = wrap_message(&store_vk());
    let payload = wrap_signature_request("fp", &store_vk(), &message, true).expect("written");
    assert!(matches!(
        ghostkey_common::from_cbor::<GhostkeyRequest>(&payload),
        Ok(GhostkeyRequest::SignMessage { fingerprint, message: asked })
            if fingerprint == "fp" && asked == message
    ));
}

#[test]
fn what_stands_in_the_way_of_a_request_is_said() {
    let message = wrap_message(&store_vk());
    // Not the encoding of a point on the curve.
    assert_eq!(
        wrap_signature_request("fp", &[2; 32], &message, true),
        Err("not a store key".to_string())
    );
    assert_eq!(
        wrap_signature_request("fp", &store_vk(), &message, false),
        Err("the Ghost Key vault is not registered".to_string())
    );
    assert_eq!(
        judge_wrap_request(true, true, Err("full".into())),
        Err("serialize SignMessage: full".to_string())
    );
    assert_eq!(judge_wrap_request(true, true, Ok(vec![1])), Ok(vec![1]));
    assert_eq!(vault_unreached("gone"), "could not ask the vault: gone");

    assert_eq!(
        delegate_request(false, Ok(vec![1])),
        Err("the Harvest delegate is not registered".to_string())
    );
    assert_eq!(
        delegate_request(true, Err("full".into())),
        Err("could not encode the request: full".to_string())
    );
    assert_eq!(delegate_request(true, Ok(vec![1])), Ok(vec![1]));
    assert_eq!(delegate_unreached("gone"), "could not reach the Harvest delegate: gone");
}

/// A request is looked at again before and after its time is up.
#[test]
fn a_request_is_looked_at_again() {
    assert_eq!(recheck_delay(CUSTODY_TIMEOUT_MS), 60_000);
    assert_eq!(recheck_delay(0), 1);
    for timeout in [0, 1, 2, 3, CUSTODY_TIMEOUT_MS] {
        assert!(recheck_delay(timeout) * CUSTODY_RECHECKS >= timeout);
    }
}
