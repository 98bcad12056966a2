//! What this device knows and has under way, as far as store-key custody
//! reads and changes it.
//!
//! The collections are lists: a store or a Ghost Key is found by what names
//! it, and the first that fits is the one. [`StateView`] is the model the
//! contracts of `custody_flow` speak of.

use crate::bytes;
use crate::keyed::{KeyedMap, KeyedSet};
use crate::text;
use vstd::prelude::*;

verus! {

/// A Ghost Key connected to this tab, as the vault describes it.
#[derive(Debug, Clone, PartialEq, Eq)]
pub struct GhostKeyInfo {
    pub fingerprint: String,
    pub label: Option<String>,
    /// The notary's attestation, as the certificate holds it.
    pub notary_info: String,
    pub verifying_key_bytes: Option<Vec<u8>>,
}

/// A [`GhostKeyInfo`] as sequences.
#[verifier::ext_equal]
pub struct GhostKeyView {
    pub fingerprint: Seq<char>,
    pub label: Option<Seq<char>>,
    pub notary_info: Seq<char>,
    pub key: Option<Seq<u8>>,
}

impl View for GhostKeyInfo {
    type V = GhostKeyView;

    open spec fn view(&self) -> GhostKeyView {
        GhostKeyView {
            fingerprint: self.fingerprint@,
            label: match self.label {
                Some(label) => Some(label@),
                None => None,
            },
            notary_info: self.notary_info@,
            key: match self.verifying_key_bytes {
                Some(k) => Some(k@),
                None => None,
            },
        }
    }
}

/// A store this device is registered for, and the contracts it uses.
#[derive(Debug, Clone, PartialEq, Eq)]
pub struct StoreRegistration {
    pub store_contract_id: Vec<u8>,
    pub reputation_contract_id: Vec<u8>,
    pub mailbox_contract_id: Vec<u8>,
    /// The store's own key. A store made before stores had keys has none.
    pub store_verifying_key: Option<[u8; 32]>,
}

/// A [`StoreRegistration`] as byte sequences.
#[verifier::ext_equal]
pub struct RegistrationView {
    pub store_contract_id: Seq<u8>,
    pub reputation_contract_id: Seq<u8>,
    pub mailbox_contract_id: Seq<u8>,
    pub store_verifying_key: Option<[u8; 32]>,
}

impl View for StoreRegistration {
    type V = RegistrationView;

    open spec fn view(&self) -> RegistrationView {
        RegistrationView {
            store_contract_id: self.store_contract_id@,
            reputation_contract_id: self.reputation_contract_id@,
            mailbox_contract_id: self.mailbox_contract_id@,
            store_verifying_key: self.store_verifying_key,
        }
    }
}

/// A store registered under one Ghost Key.
#[derive(Debug, Clone, PartialEq, Eq)]
pub struct OwnedStore {
    pub fingerprint: String,
    pub registration: StoreRegistration,
}

/// An [`OwnedStore`] as sequences.
#[verifier::ext_equal]
pub struct OwnedView {
    pub fingerprint: Seq<char>,
    pub registration: RegistrationView,
}

impl View for OwnedStore {
    type V = OwnedView;

    open spec fn view(&self) -> OwnedView {
        OwnedView { fingerprint: self.fingerprint@, registration: self.registration@ }
    }
}

/// A store key, encrypted so that one Ghost Key's signature opens it.
#[derive(Debug, Clone, PartialEq, Eq)]
pub struct WrappedStoreKey {
    pub scheme: u8,
    pub ciphertext: Vec<u8>,
}

/// A [`WrappedStoreKey`] as a byte sequence.
#[verifier::ext_equal]
pub struct WrappedView {
    pub scheme: u8,
    pub ciphertext: Seq<u8>,
}

impl View for WrappedStoreKey {
    type V = WrappedView;

    open spec fn view(&self) -> WrappedView {
        WrappedView { scheme: self.scheme, ciphertext: self.ciphertext@ }
    }
}

impl WrappedStoreKey {
    /// A copy.
    pub fn duplicate(&self) -> (r: Self)
        ensures
            r@ == self@,
    {
        WrappedStoreKey { scheme: self.scheme, ciphertext: bytes::copy_bytes(&self.ciphertext) }
    }
}

/// A wrapped copy of a store's key, published by the store: wrapped to one
/// backer, under one web-app scope.
#[derive(Debug, Clone, PartialEq, Eq)]
pub struct AuthorizedCopy {
    pub backer: [u8; 32],
    pub scope: [u8; 32],
    pub wrapped: WrappedStoreKey,
}

/// An [`AuthorizedCopy`] as sequences.
#[verifier::ext_equal]
pub struct CopyView {
    pub backer: [u8; 32],
    pub scope: [u8; 32],
    pub wrapped: WrappedView,
}

impl View for AuthorizedCopy {
    type V = CopyView;

    open spec fn view(&self) -> CopyView {
        CopyView { backer: self.backer, scope: self.scope, wrapped: self.wrapped@ }
    }
}

/// What a store has published about itself, as far as custody reads it.
#[derive(Debug, Clone, PartialEq, Eq)]
pub struct PublishedInfo {
    pub reputation_contract_id: [u8; 32],
    pub record_public_key: Option<Vec<u8>>,
}

/// A [`PublishedInfo`] as sequences.
#[verifier::ext_equal]
pub struct PublishedView {
    pub reputation_contract_id: [u8; 32],
    pub record_public_key: Option<Seq<u8>>,
}

impl View for PublishedInfo {
    type V = PublishedView;

    open spec fn view(&self) -> PublishedView {
        PublishedView {
            reputation_contract_id: self.reputation_contract_id,
            record_public_key: match self.record_public_key {
                Some(k) => Some(k@),
                None => None,
            },
        }
    }
}

/// A store whose state this device has loaded.
pub struct BrowsingStore {
    pub contract_id: Vec<u8>,
    /// The store's own key.
    pub owner: Option<[u8; 32]>,
    /// The Ghost Keys that have backed the store.
    pub backers: Vec<[u8; 32]>,
    /// The backers whose backing is retired.
    pub retired: KeyedSet<[u8; 32]>,
    /// The backer readers treat as the store's now.
    pub current_backer: Option<[u8; 32]>,
    /// The wrapped copies the store publishes.
    pub copies: Vec<AuthorizedCopy>,
    pub info: Option<PublishedInfo>,
    /// Its seller closed it.
    pub closed: bool,
}

/// A [`BrowsingStore`] as sequences.
#[verifier::ext_equal]
pub struct LoadedView {
    pub contract_id: Seq<u8>,
    pub owner: Option<[u8; 32]>,
    pub backers: Seq<[u8; 32]>,
    pub retired: Set<[u8; 32]>,
    pub current_backer: Option<[u8; 32]>,
    pub copies: Seq<CopyView>,
    pub info: Option<PublishedView>,
    pub closed: bool,
}

impl View for BrowsingStore {
    type V = LoadedView;

    open spec fn view(&self) -> LoadedView {
        LoadedView {
            contract_id: self.contract_id@,
            owner: self.owner,
            backers: self.backers@,
            retired: self.retired@,
            current_backer: self.current_backer,
            copies: self.copies@.map_values(|c: AuthorizedCopy| c@),
            info: match self.info {
                Some(i) => Some(i@),
                None => None,
            },
            closed: self.closed,
        }
    }
}

/// What a custody request is for.
#[derive(Debug, Clone, PartialEq, Eq)]
pub enum CustodyPurpose {
    /// Wrap this device's store key to the backer, and publish the copy.
    Wrap,
    /// Recover the store key from this copy.
    Recover(WrappedStoreKey),
}

/// A [`CustodyPurpose`] as sequences.
#[verifier::ext_equal]
pub enum PurposeView {
    Wrap,
    Recover(WrappedView),
}

impl View for CustodyPurpose {
    type V = PurposeView;

    open spec fn view(&self) -> PurposeView {
        match self {
            CustodyPurpose::Wrap => PurposeView::Wrap,
            CustodyPurpose::Recover(w) => PurposeView::Recover(w@),
        }
    }
}

impl CustodyPurpose {
    /// A copy.
    pub fn duplicate(&self) -> (r: Self)
        ensures
            r@ == self@,
    {
        match self {
            CustodyPurpose::Wrap => CustodyPurpose::Wrap,
            CustodyPurpose::Recover(w) => CustodyPurpose::Recover(w.duplicate()),
        }
    }
}

/// A custody request waiting on the vault, then on the Harvest delegate.
#[derive(Debug, Clone, PartialEq, Eq)]
pub struct CustodyRequest {
    pub store_contract_id: Vec<u8>,
    pub backer: [u8; 32],
    pub fingerprint: String,
    pub purpose: CustodyPurpose,
    /// The id the delegate request went out under, once it has been sent.
    ///
    /// The delegate answers by store key, and a store can have a second
    /// attempt under a different backer after the first timed out; the id is
    /// what tells a late answer to the first from the answer to the second.
    pub request_id: Option<u64>,
}

/// A [`CustodyRequest`] as sequences.
#[verifier::ext_equal]
pub struct RequestView {
    pub store_contract_id: Seq<u8>,
    pub backer: [u8; 32],
    pub fingerprint: Seq<char>,
    pub purpose: PurposeView,
    pub request_id: Option<u64>,
}

impl View for CustodyRequest {
    type V = RequestView;

    open spec fn view(&self) -> RequestView {
        RequestView {
            store_contract_id: self.store_contract_id@,
            backer: self.backer,
            fingerprint: self.fingerprint@,
            purpose: self.purpose@,
            request_id: self.request_id,
        }
    }
}

impl CustodyRequest {
    /// A copy.
    pub fn duplicate(&self) -> (r: Self)
        ensures
            r@ == self@,
    {
        CustodyRequest {
            store_contract_id: bytes::copy_bytes(&self.store_contract_id),
            backer: self.backer,
            fingerprint: self.fingerprint.clone(),
            purpose: self.purpose.duplicate(),
            request_id: self.request_id,
        }
    }
}

/// The public keys a delegate derives from a store key.
#[derive(Debug, Clone, PartialEq, Eq)]
pub struct StoreSubkeyInfo {
    pub inbox_public_key: [u8; 32],
    pub record_public_key: Vec<u8>,
}

/// A [`StoreSubkeyInfo`] as sequences.
#[verifier::ext_equal]
pub struct SubkeyView {
    pub inbox_public_key: [u8; 32],
    pub record_public_key: Seq<u8>,
}

impl View for StoreSubkeyInfo {
    type V = SubkeyView;

    open spec fn view(&self) -> SubkeyView {
        SubkeyView {
            inbox_public_key: self.inbox_public_key,
            record_public_key: self.record_public_key@,
        }
    }
}

impl StoreSubkeyInfo {
    /// A copy.
    pub fn duplicate(&self) -> (r: Self)
        ensures
            r@ == self@,
    {
        StoreSubkeyInfo {
            inbox_public_key: self.inbox_public_key,
            record_public_key: bytes::copy_bytes(&self.record_public_key),
        }
    }
}

/// A store being created, as far as its derived keys go.
#[derive(Debug, Clone, PartialEq, Eq)]
pub struct PendingStoreCreation {
    pub store_verifying_key: Option<[u8; 32]>,
    pub rsa_public_key_der: Option<Vec<u8>>,
    pub encryption_public_key: Option<[u8; 32]>,
}

/// A [`PendingStoreCreation`] as sequences.
#[verifier::ext_equal]
pub struct CreationView {
    pub store_verifying_key: Option<[u8; 32]>,
    pub rsa_public_key_der: Option<Seq<u8>>,
    pub encryption_public_key: Option<[u8; 32]>,
}

impl View for PendingStoreCreation {
    type V = CreationView;

    open spec fn view(&self) -> CreationView {
        CreationView {
            store_verifying_key: self.store_verifying_key,
            rsa_public_key_der: match self.rsa_public_key_der {
                Some(k) => Some(k@),
                None => None,
            },
            encryption_public_key: self.encryption_public_key,
        }
    }
}

/// Whose signature a vault prompt is for.
#[derive(Clone, Copy, Debug, PartialEq, Eq, Structural)]
pub enum PendingSignature {
    /// A watch request's.
    InboxEntry,
    /// The seller's own.
    Seller,
}

/// A message to the Harvest delegate about a store's key.
#[derive(Debug, Clone, PartialEq, Eq)]
pub enum CustodyMessage {
    WrapStoreKeyFor {
        request_id: u64,
        store_verifying_key: [u8; 32],
        backer_verifying_key: [u8; 32],
        scoped_payload: Vec<u8>,
        signature: Vec<u8>,
    },
    UnwrapStoreKey {
        request_id: u64,
        store_verifying_key: [u8; 32],
        backer_verifying_key: [u8; 32],
        scoped_payload: Vec<u8>,
        signature: Vec<u8>,
        wrapped: WrappedStoreKey,
    },
}

/// A [`CustodyMessage`] as sequences: `purpose` tells the two apart.
#[verifier::ext_equal]
pub struct MessageView {
    pub request_id: u64,
    pub store: [u8; 32],
    pub backer: [u8; 32],
    pub scoped_payload: Seq<u8>,
    pub signature: Seq<u8>,
    pub purpose: PurposeView,
}

impl View for CustodyMessage {
    type V = MessageView;

    open spec fn view(&self) -> MessageView {
        match self {
            CustodyMessage::WrapStoreKeyFor {
                request_id,
                store_verifying_key,
                backer_verifying_key,
                scoped_payload,
                signature,
            } => MessageView {
                request_id: *request_id,
                store: *store_verifying_key,
                backer: *backer_verifying_key,
                scoped_payload: scoped_payload@,
                signature: signature@,
                purpose: PurposeView::Wrap,
            },
            CustodyMessage::UnwrapStoreKey {
                request_id,
                store_verifying_key,
                backer_verifying_key,
                scoped_payload,
                signature,
                wrapped,
            } => MessageView {
                request_id: *request_id,
                store: *store_verifying_key,
                backer: *backer_verifying_key,
                scoped_payload: scoped_payload@,
                signature: signature@,
                purpose: PurposeView::Recover(wrapped@),
            },
        }
    }
}

/// Work for the surroundings to do, in the order it was decided.
#[derive(Debug, Clone, PartialEq, Eq)]
pub enum Errand {
    /// Ask the vault for a Ghost Key's signature over a store's wrap message.
    AskVault { fingerprint: String, store: [u8; 32] },
    /// Ask the Harvest delegate for a store key's derived keys.
    AskSubkeys { request_id: u64, store: [u8; 32] },
    /// Send a custody message to the Harvest delegate.
    SendCustody { store: [u8; 32], message: CustodyMessage },
    /// Publish a wrapped copy to the store it came from.
    PublishCopy { store_contract_id: Vec<u8>, copy: AuthorizedCopy },
    /// Register a recovered store with the Harvest delegate.
    RegisterStore { fingerprint: String, registration: StoreRegistration },
    /// Ask again for the keys of a store's conversations.
    AskConversationKeys { store_contract_id: Vec<u8> },
    /// Go on with a store creation, if it has all it waits for.
    ResumeCreation,
    /// Go on with a store edit, if it has all it waits for.
    ResumeEdit,
}

/// An [`Errand`] as sequences.
#[verifier::ext_equal]
pub enum ErrandView {
    AskVault(Seq<char>, [u8; 32]),
    AskSubkeys(u64, [u8; 32]),
    SendCustody([u8; 32], MessageView),
    PublishCopy(Seq<u8>, CopyView),
    RegisterStore(Seq<char>, RegistrationView),
    AskConversationKeys(Seq<u8>),
    ResumeCreation,
    ResumeEdit,
}

impl View for Errand {
    type V = ErrandView;

    open spec fn view(&self) -> ErrandView {
        match self {
            Errand::AskVault { fingerprint, store } => ErrandView::AskVault(fingerprint@, *store),
            Errand::AskSubkeys { request_id, store } => ErrandView::AskSubkeys(*request_id, *store),
            Errand::SendCustody { store, message } => ErrandView::SendCustody(*store, message@),
            Errand::PublishCopy { store_contract_id, copy } => ErrandView::PublishCopy(
                store_contract_id@,
                copy@,
            ),
            Errand::RegisterStore { fingerprint, registration } => ErrandView::RegisterStore(
                fingerprint@,
                registration@,
            ),
            Errand::AskConversationKeys { store_contract_id } => ErrandView::AskConversationKeys(
                store_contract_id@,
            ),
            Errand::ResumeCreation => ErrandView::ResumeCreation,
            Errand::ResumeEdit => ErrandView::ResumeEdit,
        }
    }
}

/// What this device knows and has under way.
pub struct AppState {
    /// The Ghost Keys connected to this tab.
    pub ghostkeys: Vec<GhostKeyInfo>,
    /// The stores whose state has been loaded.
    pub browsing_stores: Vec<BrowsingStore>,
    /// The stores this device is registered for.
    pub my_stores: Vec<OwnedStore>,
    /// Custody requests under way, by store key.
    pub pending_custody: KeyedMap<[u8; 32], CustodyRequest>,
    /// When each of them started.
    pub custody_started_ms: KeyedMap<[u8; 32], u64>,
    /// The (store, backer) pairs tried this session.
    pub custody_attempted: KeyedSet<([u8; 32], [u8; 32])>,
    /// How often a request for a (store, backer) pair could not be sent.
    pub custody_send_failures: KeyedMap<([u8; 32], [u8; 32]), u8>,
    /// What the delegate has said about holding each store key.
    pub store_keys_held: KeyedMap<[u8; 32], bool>,
    /// The keys derived from each store key this session.
    pub store_subkeys: KeyedMap<[u8; 32], StoreSubkeyInfo>,
    /// The store keys whose derived keys have been asked for.
    pub store_subkeys_requested: KeyedSet<[u8; 32]>,
    /// The store keys this device has said it does not hold.
    pub store_key_unheld_announced: KeyedSet<[u8; 32]>,
    /// The stores whose published record key is not the one derived here.
    pub record_key_mismatch: KeyedSet<[u8; 32]>,
    /// What the seller has been told.
    pub notifications: Vec<String>,
    /// Contract ids this session moved a store away from, and where to.
    pub migrated_contract_ids: Vec<(Vec<u8>, Vec<u8>)>,
    pub pending_store_creation: Option<PendingStoreCreation>,
    /// The Ghost Key a store creation is under way for.
    pub store_creation_in_flight: Option<String>,
    /// The store whose details wait to be published.
    pub pending_store_edit: Option<Vec<u8>>,
    /// Signatures the vault has been asked for.
    pub pending_signatures: Vec<PendingSignature>,
    /// Listings that wait for a certificate from the vault.
    pub listings_awaiting_certificate: usize,
    /// Whether the Harvest delegate is registered.
    pub harvest_delegate_registered: bool,
    /// Harvest's current web-app scope, which wrapped copies are made under.
    pub wrap_scope: [u8; 32],
    /// The id the next delegate request goes out under.
    pub next_request_id: u64,
    /// Work for the surroundings to do.
    pub errands: Vec<Errand>,
}

/// An [`AppState`] as sequences, maps and sets.
#[verifier::ext_equal]
pub struct StateView {
    pub ghostkeys: Seq<GhostKeyView>,
    pub stores: Seq<LoadedView>,
    pub my_stores: Seq<OwnedView>,
    pub pending: Map<[u8; 32], RequestView>,
    pub started: Map<[u8; 32], u64>,
    pub attempted: Set<([u8; 32], [u8; 32])>,
    pub failures: Map<([u8; 32], [u8; 32]), u8>,
    pub held: Map<[u8; 32], bool>,
    pub subkeys: Map<[u8; 32], SubkeyView>,
    pub subkeys_requested: Set<[u8; 32]>,
    pub announced: Set<[u8; 32]>,
    pub mismatch: Set<[u8; 32]>,
    pub notes: Seq<Seq<char>>,
    pub migrated: Seq<(Seq<u8>, Seq<u8>)>,
    pub creation: Option<CreationView>,
    pub creation_in_flight: Option<Seq<char>>,
    pub edit: Option<Seq<u8>>,
    pub signatures: Seq<PendingSignature>,
    pub listings_waiting: nat,
    pub delegate_registered: bool,
    pub scope: [u8; 32],
    pub next_id: u64,
    pub errands: Seq<ErrandView>,
}

impl View for AppState {
    type V = StateView;

    open spec fn view(&self) -> StateView {
        StateView {
            ghostkeys: self.ghostkeys@.map_values(|k: GhostKeyInfo| k@),
            stores: self.browsing_stores@.map_values(|s: BrowsingStore| s@),
            my_stores: self.my_stores@.map_values(|o: OwnedStore| o@),
            pending: self.pending_custody@,
            started: self.custody_started_ms@,
            attempted: self.custody_attempted@,
            failures: self.custody_send_failures@,
            held: self.store_keys_held@,
            subkeys: self.store_subkeys@,
            subkeys_requested: self.store_subkeys_requested@,
            announced: self.store_key_unheld_announced@,
            mismatch: self.record_key_mismatch@,
            notes: text::texts(self.notifications@),
            migrated: self.migrated_contract_ids@.map_values(
                |p: (Vec<u8>, Vec<u8>)| (p.0@, p.1@),
            ),
            creation: match self.pending_store_creation {
                Some(c) => Some(c@),
                None => None,
            },
            creation_in_flight: match self.store_creation_in_flight {
                Some(fingerprint) => Some(fingerprint@),
                None => None,
            },
            edit: match self.pending_store_edit {
                Some(id) => Some(id@),
                None => None,
            },
            signatures: self.pending_signatures@,
            listings_waiting: self.listings_awaiting_certificate as nat,
            delegate_registered: self.harvest_delegate_registered,
            scope: self.wrap_scope,
            next_id: self.next_request_id,
            errands: self.errands@.map_values(|e: Errand| e@),
        }
    }
}

impl StateView {
    /// The state of a device that has just started, under a web-app scope.
    pub open spec fn fresh(scope: [u8; 32]) -> StateView {
        StateView {
            ghostkeys: Seq::empty(),
            stores: Seq::empty(),
            my_stores: Seq::empty(),
            pending: Map::empty(),
            started: Map::empty(),
            attempted: Set::empty(),
            failures: Map::empty(),
            held: Map::empty(),
            subkeys: Map::empty(),
            subkeys_requested: Set::empty(),
            announced: Set::empty(),
            mismatch: Set::empty(),
            notes: Seq::empty(),
            migrated: Seq::empty(),
            creation: None,
            creation_in_flight: None,
            edit: None,
            signatures: Seq::empty(),
            listings_waiting: 0,
            delegate_registered: false,
            scope,
            next_id: 0,
            errands: Seq::empty(),
        }
    }

    /// The state after the seller is told `words`.
    pub open spec fn told(self, words: Seq<char>) -> StateView {
        StateView { notes: self.notes.push(words), ..self }
    }

    /// The state with one more errand.
    pub open spec fn sent_on(self, errand: ErrandView) -> StateView {
        StateView { errands: self.errands.push(errand), ..self }
    }
}

impl AppState {
    /// The state of a device that has just started, under a web-app scope.
    pub fn new(wrap_scope: [u8; 32]) -> (r: Self)
        ensures
            r@ == StateView::fresh(wrap_scope),
    {
        AppState {
            ghostkeys: Vec::new(),
            browsing_stores: Vec::new(),
            my_stores: Vec::new(),
            pending_custody: KeyedMap::new(),
            custody_started_ms: KeyedMap::new(),
            custody_attempted: KeyedSet::new(),
            custody_send_failures: KeyedMap::new(),
            store_keys_held: KeyedMap::new(),
            store_subkeys: KeyedMap::new(),
            store_subkeys_requested: KeyedSet::new(),
            store_key_unheld_announced: KeyedSet::new(),
            record_key_mismatch: KeyedSet::new(),
            notifications: Vec::new(),
            migrated_contract_ids: Vec::new(),
            pending_store_creation: None,
            store_creation_in_flight: None,
            pending_store_edit: None,
            pending_signatures: Vec::new(),
            listings_awaiting_certificate: 0,
            harvest_delegate_registered: false,
            wrap_scope,
            next_request_id: 0,
            errands: Vec::new(),
        }
    }

    /// Tell the seller something.
    pub fn tell(&mut self, words: String)
        ensures
            final(self)@ == old(self)@.told(words@),
    {
        let ghost before = self.notifications@;
        self.notifications.push(words);
        assert(text::texts(self.notifications@) =~= text::texts(before).push(words@));
    }

    /// Add an errand.
    pub fn send_on(&mut self, errand: Errand)
        ensures
            final(self)@ == old(self)@.sent_on(errand@),
    {
        let ghost before = self.errands@;
        self.errands.push(errand);
        assert(self.errands@.map_values(|e: Errand| e@) =~= before.map_values(
            |e: Errand| e@,
        ).push(errand@));
    }
}

/// A state is told by all it holds: each list entry by entry in its order,
/// and everything else as it is.
pub proof fn a_state_is_told_whole(s: AppState)
    ensures
        s@.ghostkeys.len() == s.ghostkeys@.len(),
        forall|i: int|
            0 <= i < s.ghostkeys@.len() ==> #[trigger] s@.ghostkeys[i] == s.ghostkeys@[i]@,
        s@.stores.len() == s.browsing_stores@.len(),
        forall|i: int|
            0 <= i < s.browsing_stores@.len() ==> #[trigger] s@.stores[i] == s.browsing_stores@[i]@,
        s@.my_stores.len() == s.my_stores@.len(),
        forall|i: int|
            0 <= i < s.my_stores@.len() ==> #[trigger] s@.my_stores[i] == s.my_stores@[i]@,
        s@.notes.len() == s.notifications@.len(),
        forall|i: int|
            0 <= i < s.notifications@.len() ==> #[trigger] s@.notes[i] == s.notifications@[i]@,
        s@.migrated.len() == s.migrated_contract_ids@.len(),
        forall|i: int|
            0 <= i < s.migrated_contract_ids@.len() ==> (#[trigger] s@.migrated[i]).0
                == s.migrated_contract_ids@[i].0@ && s@.migrated[i].1
                == s.migrated_contract_ids@[i].1@,
        s@.errands.len() == s.errands@.len(),
        forall|i: int| 0 <= i < s.errands@.len() ==> #[trigger] s@.errands[i] == s.errands@[i]@,
        s@.pending == s.pending_custody@,
        s@.started == s.custody_started_ms@,
        s@.attempted == s.custody_attempted@,
        s@.failures == s.custody_send_failures@,
        s@.held == s.store_keys_held@,
        s@.subkeys == s.store_subkeys@,
        s@.subkeys_requested == s.store_subkeys_requested@,
        s@.announced == s.store_key_unheld_announced@,
        s@.mismatch == s.record_key_mismatch@,
        s@.signatures == s.pending_signatures@,
        s@.listings_waiting == s.listings_awaiting_certificate,
        s@.delegate_registered == s.harvest_delegate_registered,
        s@.scope == s.wrap_scope,
        s@.next_id == s.next_request_id,
        s@.creation is Some <==> s.pending_store_creation is Some,
        s.pending_store_creation matches Some(c) ==> s@.creation == Some(c@),
        s@.edit is Some <==> s.pending_store_edit is Some,
        s.pending_store_edit matches Some(id) ==> s@.edit == Some(id@),
        s@.creation_in_flight is Some <==> s.store_creation_in_flight is Some,
        s.store_creation_in_flight matches Some(f) ==> s@.creation_in_flight == Some(f@),
{
}

/// A Ghost Key, a registration, a loaded store and a request are told by all
/// they hold.
pub proof fn the_parts_of_a_state_are_told_whole(
    k: GhostKeyInfo,
    o: OwnedStore,
    b: BrowsingStore,
    q: CustodyRequest,
    c: PendingStoreCreation,
    i: StoreSubkeyInfo,
)
    ensures
        k@.fingerprint == k.fingerprint@,
        k@.notary_info == k.notary_info@,
        k@.key is Some <==> k.verifying_key_bytes is Some,
        k.verifying_key_bytes matches Some(bytes) ==> k@.key == Some(bytes@),
        k@.label is Some <==> k.label is Some,
        k.label matches Some(label) ==> k@.label == Some(label@),
        o@.fingerprint == o.fingerprint@,
        o@.registration.store_contract_id == o.registration.store_contract_id@,
        o@.registration.reputation_contract_id == o.registration.reputation_contract_id@,
        o@.registration.mailbox_contract_id == o.registration.mailbox_contract_id@,
        o@.registration.store_verifying_key == o.registration.store_verifying_key,
        b@.contract_id == b.contract_id@,
        b@.owner == b.owner,
        b@.backers == b.backers@,
        b@.retired == b.retired@,
        b@.current_backer == b.current_backer,
        b@.closed == b.closed,
        b@.copies.len() == b.copies@.len(),
        forall|n: int|
            0 <= n < b.copies@.len() ==> (#[trigger] b@.copies[n]).backer == b.copies@[n].backer
                && b@.copies[n].scope == b.copies@[n].scope && b@.copies[n].wrapped.scheme
                == b.copies@[n].wrapped.scheme && b@.copies[n].wrapped.ciphertext
                == b.copies@[n].wrapped.ciphertext@,
        b@.info is Some <==> b.info is Some,
        b.info matches Some(info) ==> b@.info->0.reputation_contract_id
            == info.reputation_contract_id && (b@.info->0.record_public_key is Some
            <==> info.record_public_key is Some) && (info.record_public_key matches Some(key)
            ==> b@.info->0.record_public_key == Some(key@)),
        q@.store_contract_id == q.store_contract_id@,
        q@.backer == q.backer,
        q@.fingerprint == q.fingerprint@,
        q@.request_id == q.request_id,
        q@.purpose is Wrap <==> q.purpose is Wrap,
        q.purpose matches CustodyPurpose::Recover(w) ==> (q@.purpose matches PurposeView::Recover(t)
            && t.scheme == w.scheme && t.ciphertext == w.ciphertext@),
        c@.store_verifying_key == c.store_verifying_key,
        c@.encryption_public_key == c.encryption_public_key,
        c@.rsa_public_key_der is Some <==> c.rsa_public_key_der is Some,
        c.rsa_public_key_der matches Some(key) ==> c@.rsa_public_key_der == Some(key@),
        i@.inbox_public_key == i.inbox_public_key,
        i@.record_public_key == i.record_public_key@,
{
}

/// A message to the delegate asks for a wrap or an unwrapping, as it is, and
/// is told by all it carries.
pub proof fn a_custody_message_is_told_whole(m: CustodyMessage)
    ensures
        (match m {
            CustodyMessage::WrapStoreKeyFor {
                request_id,
                store_verifying_key,
                backer_verifying_key,
                scoped_payload,
                signature,
            } => m@.request_id == request_id && m@.store == store_verifying_key && m@.backer
                == backer_verifying_key && m@.scoped_payload == scoped_payload@ && m@.signature
                == signature@ && m@.purpose is Wrap,
            CustodyMessage::UnwrapStoreKey {
                request_id,
                store_verifying_key,
                backer_verifying_key,
                scoped_payload,
                signature,
                wrapped,
            } => m@.request_id == request_id && m@.store == store_verifying_key && m@.backer
                == backer_verifying_key && m@.scoped_payload == scoped_payload@ && m@.signature
                == signature@ && (m@.purpose matches PurposeView::Recover(w) && w.scheme
                == wrapped.scheme && w.ciphertext == wrapped.ciphertext@),
        }),
{
}

/// An errand is told by its kind and all it carries.
pub proof fn an_errand_is_told_whole(e: Errand)
    ensures
        (match e {
            Errand::AskVault { fingerprint, store } => e@ == ErrandView::AskVault(
                fingerprint@,
                store,
            ),
            Errand::AskSubkeys { request_id, store } => e@ == ErrandView::AskSubkeys(
                request_id,
                store,
            ),
            Errand::SendCustody { store, message } => e@ == ErrandView::SendCustody(store, message@),
            Errand::PublishCopy { store_contract_id, copy } => e@ == ErrandView::PublishCopy(
                store_contract_id@,
                copy@,
            ),
            Errand::RegisterStore { fingerprint, registration } => e@
                == ErrandView::RegisterStore(fingerprint@, registration@),
            Errand::AskConversationKeys { store_contract_id } => e@
                == ErrandView::AskConversationKeys(store_contract_id@),
            Errand::ResumeCreation => e@ is ResumeCreation,
            Errand::ResumeEdit => e@ is ResumeEdit,
        }),
{
}

/// A device that has just started knows nothing and has nothing under way,
/// under the scope it was started with.
pub proof fn a_fresh_state_is_empty(scope: [u8; 32], owner: [u8; 32], pair: ([u8; 32], [u8; 32]))
    ensures
        ({
            let s = StateView::fresh(scope);
            &&& s.scope == scope && s.next_id == 0
            &&& s.ghostkeys.len() == 0 && s.stores.len() == 0 && s.my_stores.len() == 0
            &&& s.notes.len() == 0 && s.migrated.len() == 0 && s.errands.len() == 0
                && s.signatures.len() == 0
            &&& !s.pending.dom().contains(owner) && !s.started.dom().contains(owner)
                && !s.held.dom().contains(owner) && !s.subkeys.dom().contains(owner)
            &&& !s.attempted.contains(pair) && !s.failures.dom().contains(pair)
            &&& !s.subkeys_requested.contains(owner) && !s.announced.contains(owner)
                && !s.mismatch.contains(owner)
            &&& s.creation is None && s.creation_in_flight is None && s.edit is None
            &&& s.listings_waiting == 0 && !s.delegate_registered
        }),
{
}

/// Telling the seller adds one note, and sending on one errand, behind those
/// before; nothing else changes.
pub proof fn a_note_and_an_errand_are_added_behind_the_others(
    s: StateView,
    words: Seq<char>,
    errand: ErrandView,
)
    ensures
        s.told(words).notes.len() == s.notes.len() + 1,
        s.told(words).notes.last() == words,
        s.told(words).notes.drop_last() == s.notes,
        s.told(words) == (StateView { notes: s.told(words).notes, ..s }),
        s.sent_on(errand).errands.len() == s.errands.len() + 1,
        s.sent_on(errand).errands.last() == errand,
        s.sent_on(errand).errands.drop_last() == s.errands,
        s.sent_on(errand) == (StateView { errands: s.sent_on(errand).errands, ..s }),
{
    assert(s.told(words).notes.drop_last() =~= s.notes);
    assert(s.sent_on(errand).errands.drop_last() =~= s.errands);
}

} // verus!
