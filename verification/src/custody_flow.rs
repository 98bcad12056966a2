//! Keeping a store's key recoverable from its backing Ghost Key, and
//! recovering it on a device that has lost it.
//!
//! Whenever a store's state arrives, [`AppState::start_custody_for`] decides
//! one of three things, from the state and the Ghost Keys connected to this
//! tab alone:
//!
//! * **Wrap.** The store is ours, this device's delegate holds its key, its
//!   current backing is a connected Ghost Key, and the store holds no wrapped
//!   copy for that key under the current web-app scope.
//! * **Recover.** This device's delegate does not hold the store's key, one of
//!   its unretired backings is a connected Ghost Key, and the store holds a
//!   copy for that key under the current scope.
//! * Nothing, otherwise.
//!
//! A vault refusal names no request, so custody is started only while nothing
//! else waits on the vault. Each (store, backing key) pair is attempted once
//! per session. Whatever has to happen outside (a message to the vault or to
//! the delegate, a copy to publish) is left in [`AppState::errands`].

use crate::bytes;
use crate::seqs;
use crate::state::{
    AppState, AuthorizedCopy, BrowsingStore, CustodyMessage, Errand, OwnedStore, PendingSignature,
    StoreRegistration, StoreSubkeyInfo,
};
use crate::vault;
use vstd::prelude::*;

pub use crate::state::{CustodyPurpose, CustodyRequest};

verus! {

use crate::state::{
    CopyView, CreationView, ErrandView, GhostKeyView, LoadedView, MessageView, OwnedView,
    PurposeView, RegistrationView, RequestView, StateView, SubkeyView,
};

/// How many times a custody request may fail to be sent before this session
/// stops retrying it and tells the seller.
pub const MAX_CUSTODY_SEND_ATTEMPTS: u8 = 3;

/// How often a custody request that is under way is looked at again.
pub const CUSTODY_RECHECKS: u64 = 4;

/// How long to wait before each look at a custody request that is given up
/// after `timeout_ms`.
pub open spec fn recheck_wait(timeout_ms: u64) -> u64 {
    if timeout_ms < 2 {
        1
    } else {
        timeout_ms / 2
    }
}

/// How long to wait before each look at a custody request. A single look
/// could come a moment too early and leave the request for the session.
pub fn recheck_delay(timeout_ms: u64) -> (r: u64)
    ensures
        r == recheck_wait(timeout_ms),
{
    if timeout_ms < 2 {
        1
    } else {
        timeout_ms / 2
    }
}

/// The last look comes after the request's time is up, and there is a look
/// before it.
pub proof fn a_request_is_looked_at_after_its_time(timeout_ms: u64)
    ensures
        recheck_wait(timeout_ms) * CUSTODY_RECHECKS >= timeout_ms,
        timeout_ms >= 2 ==> recheck_wait(timeout_ms) < timeout_ms,
{
}

/// The copy `store` holds for `backer` under `scope`, if any.
pub open spec fn copy_of(store: LoadedView, backer: [u8; 32], scope: [u8; 32]) -> Option<CopyView> {
    seqs::find_first(store.copies, |c: CopyView| c.backer == backer && c.scope == scope)
}

/// The copy `store` holds for `backer` under `scope`, if any.
pub fn copy_for<'a>(store: &'a BrowsingStore, backer: &[u8; 32], scope: &[u8; 32]) -> (r: Option<
    &'a AuthorizedCopy,
>)
    ensures
        (match r {
            Some(c) => copy_of(store@, *backer, *scope) == Some(c@),
            None => copy_of(store@, *backer, *scope) is None,
        }),
{
    let ghost want = |c: CopyView| c.backer == *backer && c.scope == *scope;
    let mut i: usize = 0;
    while i < store.copies.len()
        invariant
            i <= store.copies.len(),
            want == (|c: CopyView| c.backer == *backer && c.scope == *scope),
            forall|j: int| 0 <= j < i ==> !want(#[trigger] store@.copies[j]),
        decreases store.copies.len() - i,
    {
        let copy = &store.copies[i];
        assert(store@.copies[i as int] == copy@);
        if bytes::same_key(&copy.backer, backer) && bytes::same_key(&copy.scope, scope) {
            proof {
                seqs::lemma_find_first(store@.copies, want, i as int);
            }
            return Some(copy);
        }
        i = i + 1;
    }
    proof {
        seqs::lemma_find_first(store@.copies, want, i as int);
    }
    None
}

/// Whether recovery tries the backer `a` before `b`: the current backer
/// first, then the others by their bytes.
pub open spec fn tried_before(current: Option<[u8; 32]>, a: [u8; 32], b: [u8; 32]) -> bool {
    if (current == Some(a)) != (current == Some(b)) {
        current == Some(a)
    } else {
        bytes::bytes_before(a@, b@)
    }
}

/// The number after `n`, from the first again at the end.
pub open spec fn next_number(n: u64) -> u64 {
    if n == u64::MAX {
        0
    } else {
        (n + 1) as u64
    }
}

impl StateView {
    /// The fingerprint of a connected Ghost Key whose verifying key is `key`.
    pub open spec fn connected(self, key: [u8; 32]) -> Option<Seq<char>> {
        match seqs::find_first(self.ghostkeys, |k: GhostKeyView| k.key == Some(key@)) {
            Some(k) => Some(k.fingerprint),
            None => None,
        }
    }

    /// The loaded store at the contract `id`.
    pub open spec fn store_at(self, id: Seq<u8>) -> Option<LoadedView> {
        seqs::find_first(self.stores, |s: LoadedView| s.contract_id == id)
    }

    /// The key of the store loaded at the contract `id`.
    pub open spec fn loaded_owner(self, id: Seq<u8>) -> Option<[u8; 32]> {
        match self.store_at(id) {
            Some(store) => store.owner,
            None => None,
        }
    }

    /// The key of the store this device is registered for at the contract
    /// `id`.
    pub open spec fn owner_key(self, id: Seq<u8>) -> Option<[u8; 32]> {
        match seqs::find_first(
            self.my_stores,
            |o: OwnedView|
                o.registration.store_contract_id == id && o.registration.store_verifying_key is Some,
        ) {
            Some(o) => o.registration.store_verifying_key,
            None => None,
        }
    }

    /// The contract this session moved the store at `id` to.
    pub open spec fn moved_to(self, id: Seq<u8>) -> Option<Seq<u8>> {
        match seqs::find_first(self.migrated, |p: (Seq<u8>, Seq<u8>)| p.0 == id) {
            Some(p) => Some(p.1),
            None => None,
        }
    }

    /// The key that work parked under the contract `id` signs with: the
    /// store's, wherever this session has moved it.
    pub open spec fn work_key(self, id: Seq<u8>) -> Option<[u8; 32]> {
        match self.owner_key(id) {
            Some(key) => Some(key),
            None => match self.moved_to(id) {
                Some(to) => self.owner_key(to),
                None => None,
            },
        }
    }

    /// Whether the delegate holds the store key `key`, as far as it has said:
    /// where it has said nothing, a key is taken as held.
    pub open spec fn holds(self, key: [u8; 32]) -> bool {
        self.held.dom().contains(key) ==> self.held[key]
    }

    /// Whether the delegate has said it holds `key`.
    pub open spec fn known_held(self, key: [u8; 32]) -> bool {
        self.held.dom().contains(key) && self.held[key]
    }

    /// Whether this device is registered for the store whose key is `key`.
    pub open spec fn registered(self, key: [u8; 32]) -> bool {
        exists|i: int|
            0 <= i < self.my_stores.len() && (
            #[trigger] self.my_stores[i]).registration.store_verifying_key == Some(key)
    }

    /// Whether the seller's own work waits on the vault.
    pub open spec fn seller_waits(self) -> bool {
        ||| self.signatures.contains(PendingSignature::Seller)
        ||| self.edit is Some
        ||| self.listings_waiting > 0
        ||| self.pending != Map::<[u8; 32], RequestView>::empty()
    }

    /// Whether anything waits on the vault.
    pub open spec fn vault_busy(self) -> bool {
        self.seller_waits() || self.signatures.contains(PendingSignature::InboxEntry)
    }

    /// Whether the key of `store`, owned by `owner`, can be recovered through
    /// the backer `b` and this was not tried yet.
    pub open spec fn recovers_through(self, store: LoadedView, owner: [u8; 32], b: [u8; 32]) -> bool {
        &&& !store.retired.contains(b)
        &&& !self.attempted.contains((owner, b))
        &&& copy_of(store, b, self.scope) is Some
        &&& self.connected(b) is Some
    }

    /// The backer recovery goes through: of the first `n` backers that it can
    /// go through, the one it tries first.
    pub open spec fn recovery_backer(self, store: LoadedView, owner: [u8; 32], n: int) -> Option<
        [u8; 32],
    >
        decreases n,
    {
        if n <= 0 {
            None
        } else {
            let best = self.recovery_backer(store, owner, n - 1);
            let b = store.backers[n - 1];
            if self.recovers_through(store, owner, b) && (best matches Some(other) ==> tried_before(
                store.current_backer,
                b,
                other,
            )) {
                Some(b)
            } else {
                best
            }
        }
    }

    /// The custody request the loaded store at `id` calls for, if any.
    pub open spec fn custody_needed(self, id: Seq<u8>) -> Option<RequestView> {
        if self.moved_to(id) is Some {
            None
        } else {
            match self.store_at(id) {
                None => None,
                Some(store) => match store.owner {
                    None => None,
                    Some(owner) => if self.pending.dom().contains(owner) {
                        None
                    } else if self.owner_key(id) == Some(owner) && self.holds(owner) {
                        self.wrap_needed(id, store, owner)
                    } else {
                        self.recovery_needed(id, store, owner)
                    },
                },
            }
        }
    }

    /// The wrap that a held store's key calls for: for the current backer
    /// alone.
    pub open spec fn wrap_needed(self, id: Seq<u8>, store: LoadedView, owner: [u8; 32]) -> Option<
        RequestView,
    > {
        match store.current_backer {
            None => None,
            Some(b) => if self.attempted.contains((owner, b)) || copy_of(
                store,
                b,
                self.scope,
            ) is Some {
                None
            } else {
                match self.connected(b) {
                    None => None,
                    Some(fingerprint) => Some(
                        RequestView {
                            store_contract_id: id,
                            backer: b,
                            fingerprint,
                            purpose: PurposeView::Wrap,
                            request_id: None,
                        },
                    ),
                }
            },
        }
    }

    /// The recovery that a store whose key is not held calls for.
    pub open spec fn recovery_needed(
        self,
        id: Seq<u8>,
        store: LoadedView,
        owner: [u8; 32],
    ) -> Option<RequestView> {
        match self.recovery_backer(store, owner, store.backers.len() as int) {
            None => None,
            Some(b) => Some(
                RequestView {
                    store_contract_id: id,
                    backer: b,
                    fingerprint: self.connected(b)->0,
                    purpose: PurposeView::Recover(copy_of(store, b, self.scope)->0.wrapped),
                    request_id: None,
                },
            ),
        }
    }

    /// Whether some connected, unretired backer of the store has a copy,
    /// tried or not.
    pub open spec fn a_backer_has_a_copy(self, store: LoadedView) -> bool {
        exists|i: int|
            0 <= i < store.backers.len() && !store.retired.contains(#[trigger] store.backers[i])
                && copy_of(store, store.backers[i], self.scope) is Some && self.connected(
                store.backers[i],
            ) is Some
    }

    /// Whether this device cannot sign for its own store at `id`, and custody
    /// has nothing it can do about it.
    pub open spec fn unrecoverable(self, id: Seq<u8>) -> bool {
        match self.store_at(id) {
            None => false,
            Some(store) => match store.owner {
                None => false,
                Some(owner) => {
                    &&& self.owner_key(id) == Some(owner)
                    &&& !self.holds(owner)
                    &&& !store.closed
                    &&& !self.pending.dom().contains(owner)
                    &&& !self.a_backer_has_a_copy(store)
                },
            },
        }
    }

    /// The state after that was said, once per session.
    pub open spec fn noted_unrecoverable(self, id: Seq<u8>) -> StateView {
        if self.unrecoverable(id) && !self.announced.contains(self.loaded_owner(id)->0) {
            StateView {
                announced: self.announced.insert(self.loaded_owner(id)->0),
                ..self
            }.told(unrecoverable_words())
        } else {
            self
        }
    }

    /// The state after a store's derived keys were asked for, once per
    /// session.
    pub open spec fn asked_subkeys(self, store: [u8; 32]) -> StateView {
        if self.subkeys_requested.contains(store) {
            self
        } else {
            StateView {
                subkeys_requested: self.subkeys_requested.insert(store),
                next_id: next_number(self.next_id),
                ..self
            }.sent_on(ErrandView::AskSubkeys(self.next_id, store))
        }
    }

    /// The state after custody was decided for the store at `id`.
    pub open spec fn custody_started(self, id: Seq<u8>, now_ms: u64) -> StateView {
        if self.vault_busy() {
            self
        } else {
            match self.custody_needed(id) {
                None => self.noted_unrecoverable(id),
                Some(request) => {
                    let owner = self.loaded_owner(id)->0;
                    let s = if request.purpose is Wrap {
                        self.asked_subkeys(owner)
                    } else {
                        self
                    };
                    StateView {
                        attempted: s.attempted.insert((owner, request.backer)),
                        pending: s.pending.insert(owner, request),
                        started: s.started.insert(owner, now_ms),
                        ..s
                    }.sent_on(ErrandView::AskVault(request.fingerprint, owner))
                },
            }
        }
    }

    /// The state after custody was decided for each of `ids` in turn.
    pub open spec fn custody_started_each(self, ids: Seq<Seq<u8>>, now_ms: u64) -> StateView
        decreases ids.len(),
    {
        if ids.len() == 0 {
            self
        } else {
            self.custody_started_each(ids.drop_last(), now_ms).custody_started(ids.last(), now_ms)
        }
    }

    /// The contract ids of the loaded stores.
    pub open spec fn loaded_ids(self) -> Seq<Seq<u8>> {
        self.stores.map_values(|s: LoadedView| s.contract_id)
    }

    /// The state after custody was decided for every loaded store.
    pub open spec fn custody_started_everywhere(self, now_ms: u64) -> StateView {
        self.custody_started_each(self.loaded_ids(), now_ms)
    }

    /// The state without the custody request for `store`, nor its timestamp.
    pub open spec fn custody_taken(self, store: [u8; 32]) -> StateView {
        StateView { pending: self.pending.remove(store), started: self.started.remove(store), ..self }
    }

    /// Whether `request_id` answers the custody request under way for
    /// `store`.
    pub open spec fn answers(self, store: [u8; 32], request_id: u64) -> bool {
        self.pending.dom().contains(store) && self.pending[store].request_id == Some(request_id)
    }

    /// How often a custody request of this pair has failed to be sent, after
    /// one more failure.
    pub open spec fn failures_after_one_more(self, pair: ([u8; 32], [u8; 32])) -> u8 {
        if !self.failures.dom().contains(pair) {
            1
        } else if self.failures[pair] == u8::MAX {
            u8::MAX
        } else {
            (self.failures[pair] + 1) as u8
        }
    }

    /// The state after the custody request for `store` could not be sent.
    pub open spec fn custody_send_failed(self, store: [u8; 32], why: Seq<char>) -> StateView {
        if !self.pending.dom().contains(store) {
            self.custody_taken(store)
        } else {
            let pair = (store, self.pending[store].backer);
            let n = self.failures_after_one_more(pair);
            let s = StateView { failures: self.failures.insert(pair, n), ..self.custody_taken(store) };
            if n < MAX_CUSTODY_SEND_ATTEMPTS {
                StateView { attempted: s.attempted.remove(pair), ..s }
            } else if n == MAX_CUSTODY_SEND_ATTEMPTS {
                s.told(send_failed_words(why))
            } else {
                s
            }
        }
    }
}

/// What the seller is told when a custody request could not be sent.
pub open spec fn send_failed_words(why: Seq<char>) -> Seq<char> {
    "Your store's key could not be backed up or recovered: "@ + why + ". Reload to try again."@
}

/// What the seller is told when this device cannot sign for their store.
pub open spec fn unrecoverable_words() -> Seq<char> {
    "This device does not hold your store's key, so it cannot sign anything for the store (despatch, cancel, invoices, listings). It is recovered from the backup wrapped to a Ghost Key that backs the store, once that Ghost Key is connected here. If no device ever made that backup, this device cannot sign for the store."@
}

impl AppState {
    /// The fingerprint of a connected Ghost Key whose verifying key is
    /// `backer`, if one is connected.
    pub fn connected_fingerprint(&self, backer: &[u8; 32]) -> (r: Option<String>)
        ensures
            (match r {
                Some(f) => self@.connected(*backer) == Some(f@),
                None => self@.connected(*backer) is None,
            }),
    {
        let ghost want = |k: GhostKeyView| k.key == Some(backer@);
        let mut i: usize = 0;
        while i < self.ghostkeys.len()
            invariant
                i <= self.ghostkeys.len(),
                want == (|k: GhostKeyView| k.key == Some(backer@)),
                forall|j: int| 0 <= j < i ==> !want(#[trigger] self@.ghostkeys[j]),
            decreases self.ghostkeys.len() - i,
        {
            let key = &self.ghostkeys[i];
            assert(self@.ghostkeys[i as int] == key@);
            let same = match &key.verifying_key_bytes {
                Some(k) => bytes::same_bytes(k, backer),
                None => false,
            };
            if same {
                proof {
                    seqs::lemma_find_first(self@.ghostkeys, want, i as int);
                }
                return Some(key.fingerprint.clone());
            }
            i = i + 1;
        }
        proof {
            seqs::lemma_find_first(self@.ghostkeys, want, i as int);
        }
        None
    }

    /// The loaded store at a contract id.
    pub fn loaded_store(&self, id: &[u8]) -> (r: Option<&BrowsingStore>)
        ensures
            (match r {
                Some(s) => self@.store_at(id@) == Some(s@),
                None => self@.store_at(id@) is None,
            }),
    {
        let ghost want = |s: LoadedView| s.contract_id == id@;
        let mut i: usize = 0;
        while i < self.browsing_stores.len()
            invariant
                i <= self.browsing_stores.len(),
                want == (|s: LoadedView| s.contract_id == id@),
                forall|j: int| 0 <= j < i ==> !want(#[trigger] self@.stores[j]),
            decreases self.browsing_stores.len() - i,
        {
            let store = &self.browsing_stores[i];
            assert(self@.stores[i as int] == store@);
            if bytes::same_bytes(&store.contract_id, id) {
                proof {
                    seqs::lemma_find_first(self@.stores, want, i as int);
                }
                return Some(store);
            }
            i = i + 1;
        }
        proof {
            seqs::lemma_find_first(self@.stores, want, i as int);
        }
        None
    }

    /// The key of the store loaded at a contract id.
    fn loaded_store_key(&self, id: &[u8]) -> (r: Option<[u8; 32]>)
        ensures
            r == self@.loaded_owner(id@),
    {
        match self.loaded_store(id) {
            Some(store) => store.owner,
            None => None,
        }
    }

    /// The key of the store this device is registered for at a contract id.
    pub fn store_owner_key(&self, id: &[u8]) -> (r: Option<[u8; 32]>)
        ensures
            r == self@.owner_key(id@),
    {
        let ghost want = |o: OwnedView|
            o.registration.store_contract_id == id@ && o.registration.store_verifying_key is Some;
        let mut i: usize = 0;
        while i < self.my_stores.len()
            invariant
                i <= self.my_stores.len(),
                want == (|o: OwnedView|
                    o.registration.store_contract_id == id@
                        && o.registration.store_verifying_key is Some),
                forall|j: int| 0 <= j < i ==> !want(#[trigger] self@.my_stores[j]),
            decreases self.my_stores.len() - i,
        {
            let registration = &self.my_stores[i].registration;
            assert(self@.my_stores[i as int].registration == registration@);
            if registration.store_verifying_key.is_some() && bytes::same_bytes(
                &registration.store_contract_id,
                id,
            ) {
                proof {
                    seqs::lemma_find_first(self@.my_stores, want, i as int);
                }
                return registration.store_verifying_key;
            }
            i = i + 1;
        }
        proof {
            seqs::lemma_find_first(self@.my_stores, want, i as int);
        }
        None
    }

    /// Where this session moved the store at a contract id to.
    fn moved_id(&self, id: &[u8]) -> (r: Option<Vec<u8>>)
        ensures
            (match r {
                Some(to) => self@.moved_to(id@) == Some(to@),
                None => self@.moved_to(id@) is None,
            }),
    {
        let ghost want = |p: (Seq<u8>, Seq<u8>)| p.0 == id@;
        let mut i: usize = 0;
        while i < self.migrated_contract_ids.len()
            invariant
                i <= self.migrated_contract_ids.len(),
                want == (|p: (Seq<u8>, Seq<u8>)| p.0 == id@),
                forall|j: int| 0 <= j < i ==> !want(#[trigger] self@.migrated[j]),
            decreases self.migrated_contract_ids.len() - i,
        {
            let entry = &self.migrated_contract_ids[i];
            assert(self@.migrated[i as int] == (entry.0@, entry.1@));
            if bytes::same_bytes(&entry.0, id) {
                proof {
                    seqs::lemma_find_first(self@.migrated, want, i as int);
                }
                return Some(bytes::copy_bytes(&entry.1));
            }
            i = i + 1;
        }
        proof {
            seqs::lemma_find_first(self@.migrated, want, i as int);
        }
        None
    }

    /// The key that work parked under a contract id signs with.
    fn work_store_key(&self, id: &[u8]) -> (r: Option<[u8; 32]>)
        ensures
            r == self@.work_key(id@),
    {
        match self.store_owner_key(id) {
            Some(key) => Some(key),
            None => match self.moved_id(id) {
                Some(to) => self.store_owner_key(&to),
                None => None,
            },
        }
    }

    /// Whether the delegate holds a store key, as far as it has said.
    pub fn holds_store_key(&self, key: &[u8; 32]) -> (r: bool)
        ensures
            r == self@.holds(*key),
    {
        match self.store_keys_held.get(key) {
            Some(held) => *held,
            None => true,
        }
    }

    /// Whether the delegate has said it holds a store key.
    fn known_to_hold(&self, key: &[u8; 32]) -> (r: bool)
        ensures
            r == self@.known_held(*key),
    {
        match self.store_keys_held.get(key) {
            Some(held) => *held,
            None => false,
        }
    }

    /// Whether this device is registered for the store whose key is `key`.
    fn is_registered(&self, key: &[u8; 32]) -> (r: bool)
        ensures
            r == self@.registered(*key),
    {
        let mut i: usize = 0;
        while i < self.my_stores.len()
            invariant
                i <= self.my_stores.len(),
                forall|j: int|
                    0 <= j < i ==> (
                    #[trigger] self@.my_stores[j]).registration.store_verifying_key != Some(*key),
            decreases self.my_stores.len() - i,
        {
            assert(self@.my_stores[i as int] == self.my_stores@[i as int]@);
            if bytes::same_key_option(&self.my_stores[i].registration.store_verifying_key, key) {
                return true;
            }
            i = i + 1;
        }
        false
    }

    /// Whether the seller's own work waits on the vault: a signature of
    /// theirs, a store edit, a listing that waits for its certificate, or a
    /// custody request.
    pub fn user_signature_under_way(&self) -> (r: bool)
        ensures
            r == self@.seller_waits(),
    {
        self.signature_waits(PendingSignature::Seller) || self.pending_store_edit.is_some()
            || self.listings_awaiting_certificate > 0 || !self.pending_custody.is_empty()
    }

    /// Whether a signature of this sort waits on the vault.
    fn signature_waits(&self, whose: PendingSignature) -> (r: bool)
        ensures
            r == self@.signatures.contains(whose),
    {
        let mut i: usize = 0;
        while i < self.pending_signatures.len()
            invariant
                i <= self.pending_signatures.len(),
                forall|j: int| 0 <= j < i ==> self@.signatures[j] != whose,
            decreases self.pending_signatures.len() - i,
        {
            if self.pending_signatures[i] == whose {
                assert(self@.signatures[i as int] == whose);
                return true;
            }
            i = i + 1;
        }
        false
    }

    /// Whether anything is waiting on the Ghost Key vault: the seller's own
    /// signatures, a watch request, or a custody request.
    pub fn vault_work_outstanding(&self) -> (r: bool)
        ensures
            r == self@.vault_busy(),
    {
        self.user_signature_under_way() || self.signature_waits(PendingSignature::InboxEntry)
    }

    /// The custody request a loaded store calls for, if any.
    ///
    /// Wrap is for the current backer only: that is the key readers treat as
    /// the store's. Recovery can use any backer whose backing is not retired
    /// and whose copy the store holds: the current one first, then the
    /// others.
    pub fn custody_needed(&self, store_contract_id: &[u8]) -> (r: Option<CustodyRequest>)
        ensures
            (match r {
                Some(q) => self@.custody_needed(store_contract_id@) == Some(q@),
                None => self@.custody_needed(store_contract_id@) is None,
            }),
    {
        if self.moved_id(store_contract_id).is_some() {
            return None;
        }
        let store = match self.loaded_store(store_contract_id) {
            Some(store) => store,
            None => {
                return None;
            },
        };
        let owner = match store.owner {
            Some(owner) => owner,
            None => {
                return None;
            },
        };
        if self.pending_custody.contains_key(&owner) {
            return None;
        }
        let ours = match self.store_owner_key(store_contract_id) {
            Some(key) => bytes::same_key(&key, &owner),
            None => false,
        };
        if ours && self.holds_store_key(&owner) {
            let backer = match store.current_backer {
                Some(backer) => backer,
                None => {
                    return None;
                },
            };
            if self.custody_attempted.contains(&(owner, backer)) || copy_for(
                store,
                &backer,
                &self.wrap_scope,
            ).is_some() {
                return None;
            }
            let fingerprint = match self.connected_fingerprint(&backer) {
                Some(fingerprint) => fingerprint,
                None => {
                    return None;
                },
            };
            return Some(
                CustodyRequest {
                    store_contract_id: bytes::copy_bytes(store_contract_id),
                    backer,
                    fingerprint,
                    purpose: CustodyPurpose::Wrap,
                    request_id: None,
                },
            );
        }
        let backer = match self.best_recovery_backer(store, &owner) {
            Some(backer) => backer,
            None => {
                return None;
            },
        };
        proof {
            lemma_recovery_backer_fits(self@, store@, owner, store@.backers.len() as int);
        }
        match (copy_for(store, &backer, &self.wrap_scope), self.connected_fingerprint(&backer)) {
            (Some(copy), Some(fingerprint)) => Some(
                CustodyRequest {
                    store_contract_id: bytes::copy_bytes(store_contract_id),
                    backer,
                    fingerprint,
                    purpose: CustodyPurpose::Recover(copy.wrapped.duplicate()),
                    request_id: None,
                },
            ),
            _ => None,
        }
    }

    /// The backer recovery goes through, if there is one.
    fn best_recovery_backer(&self, store: &BrowsingStore, owner: &[u8; 32]) -> (r: Option<
        [u8; 32],
    >)
        ensures
            r == self@.recovery_backer(store@, *owner, store@.backers.len() as int),
    {
        let mut best: Option<[u8; 32]> = None;
        let mut i: usize = 0;
        while i < store.backers.len()
            invariant
                i <= store.backers.len(),
                best == self@.recovery_backer(store@, *owner, i as int),
            decreases store.backers.len() - i,
        {
            let b = store.backers[i];
            let fits = !store.retired.contains(&b) && !self.custody_attempted.contains(
                &(*owner, b),
            ) && copy_for(store, &b, &self.wrap_scope).is_some() && self.connected_fingerprint(
                &b,
            ).is_some();
            assert(fits == self@.recovers_through(store@, *owner, b));
            let sooner = match &best {
                Some(other) => tries_before(&store.current_backer, &b, other),
                None => true,
            };
            if fits && sooner {
                best = Some(b);
            }
            i = i + 1;
        }
        best
    }

    /// Whether a connected Ghost Key that backs the store (and is not
    /// retired) has a copy of its key under the current scope, whether or not
    /// it was tried this session.
    pub fn a_connected_backer_has_a_copy(&self, store_contract_id: &[u8]) -> (r: bool)
        ensures
            r == (self@.store_at(store_contract_id@) matches Some(store)
                && self@.a_backer_has_a_copy(store)),
    {
        let store = match self.loaded_store(store_contract_id) {
            Some(store) => store,
            None => {
                return false;
            },
        };
        let mut i: usize = 0;
        while i < store.backers.len()
            invariant
                i <= store.backers.len(),
                self@.store_at(store_contract_id@) == Some(store@),
                forall|j: int|
                    0 <= j < i ==> !(!store@.retired.contains(#[trigger] store@.backers[j])
                        && copy_of(store@, store@.backers[j], self@.scope) is Some
                        && self@.connected(store@.backers[j]) is Some),
            decreases store.backers.len() - i,
        {
            let b = store.backers[i];
            if !store.retired.contains(&b) && copy_for(store, &b, &self.wrap_scope).is_some()
                && self.connected_fingerprint(&b).is_some() {
                assert(store@.backers[i as int] == b);
                return true;
            }
            i = i + 1;
        }
        false
    }

    /// Say once per session that this device cannot sign for one of its own
    /// stores and why, when custody has nothing it can do about it: the
    /// store is registered here, the delegate does not hold its key, and no
    /// connected, unretired backer has a copy to recover it from.
    pub fn note_unrecoverable_store_key(&mut self, store_contract_id: &[u8])
        ensures
            final(self)@ == old(self)@.noted_unrecoverable(store_contract_id@),
    {
        let (owner, closed) = match self.loaded_store(store_contract_id) {
            Some(store) => match store.owner {
                Some(owner) => (owner, store.closed),
                None => {
                    return;
                },
            },
            None => {
                return;
            },
        };
        let ours = match self.store_owner_key(store_contract_id) {
            Some(key) => bytes::same_key(&key, &owner),
            None => false,
        };
        if !ours || self.holds_store_key(&owner) || closed || self.pending_custody.contains_key(
            &owner,
        ) {
            return;
        }
        if self.a_connected_backer_has_a_copy(store_contract_id) {
            return;
        }
        if self.store_key_unheld_announced.contains(&owner) {
            return;
        }
        let _ = self.store_key_unheld_announced.insert(owner);
        self.tell(
            "This device does not hold your store's key, so it cannot sign anything for the store (despatch, cancel, invoices, listings). It is recovered from the backup wrapped to a Ghost Key that backs the store, once that Ghost Key is connected here. If no device ever made that backup, this device cannot sign for the store.".to_string(),
        );
    }

    /// The id for the next delegate request.
    fn next_messaging_request_id(&mut self) -> (r: u64)
        ensures
            r == old(self)@.next_id,
            final(self)@ == (StateView { next_id: next_number(r), ..old(self)@ }),
    {
        let id = self.next_request_id;
        self.next_request_id = if id == u64::MAX {
            0
        } else {
            id + 1
        };
        id
    }

    /// Ask the delegate for a store key's derived keys, once per session.
    pub fn request_store_subkeys(&mut self, store: [u8; 32])
        ensures
            final(self)@ == old(self)@.asked_subkeys(store),
    {
        if self.store_subkeys_requested.contains(&store) {
            return;
        }
        let _ = self.store_subkeys_requested.insert(store);
        let request_id = self.next_messaging_request_id();
        self.send_on(Errand::AskSubkeys { request_id, store });
    }

    /// Decide what custody work a store needs, record it, and start it.
    ///
    /// While anything waits on the vault nothing is started, and nothing is
    /// recorded as tried.
    pub fn start_custody_for(&mut self, store_contract_id: &[u8], now_ms: u64)
        ensures
            final(self)@ == old(self)@.custody_started(store_contract_id@, now_ms),
    {
        if self.vault_work_outstanding() {
            return;
        }
        let request = match self.custody_needed(store_contract_id) {
            Some(request) => request,
            None => {
                self.note_unrecoverable_store_key(store_contract_id);
                return;
            },
        };
        let store = match self.loaded_store_key(store_contract_id) {
            Some(store) => store,
            None => {
                return;
            },
        };
        let wraps = match &request.purpose {
            CustodyPurpose::Wrap => true,
            _ => false,
        };
        if wraps {
            self.request_store_subkeys(store);
        }
        let _ = self.custody_attempted.insert((store, request.backer));
        let fingerprint = request.fingerprint.clone();
        self.pending_custody.insert(store, request);
        self.custody_started_ms.insert(store, now_ms);
        self.send_on(Errand::AskVault { fingerprint, store });
    }

    /// Re-decide custody for every loaded store: when the Ghost Keys
    /// connected to this tab change, when the store registrations arrive, and
    /// when the vault has answered and a deferred request can start.
    pub fn start_custody_where_needed(&mut self, now_ms: u64)
        ensures
            final(self)@ == old(self)@.custody_started_everywhere(now_ms),
    {
        let ghost before = self@;
        let mut ids: Vec<Vec<u8>> = Vec::new();
        let mut i: usize = 0;
        while i < self.browsing_stores.len()
            invariant
                i <= self.browsing_stores.len(),
                self@ == before,
                ids@.len() == i,
                forall|j: int| 0 <= j < i ==> (#[trigger] ids@[j])@ == before.loaded_ids()[j],
            decreases self.browsing_stores.len() - i,
        {
            assert(before.stores[i as int] == self.browsing_stores@[i as int]@);
            ids.push(bytes::copy_bytes(&self.browsing_stores[i].contract_id));
            i = i + 1;
        }
        let ghost all = before.loaded_ids();
        assert(all.take(0) =~= Seq::empty());
        let mut k: usize = 0;
        while k < ids.len()
            invariant
                k <= ids.len(),
                ids@.len() == all.len(),
                forall|j: int| 0 <= j < ids@.len() ==> (#[trigger] ids@[j])@ == all[j],
                self@ == before.custody_started_each(all.take(k as int), now_ms),
            decreases ids.len() - k,
        {
            assert(all.take(k + 1).drop_last() =~= all.take(k as int));
            assert(all.take(k + 1).last() == all[k as int]);
            self.start_custody_for(&ids[k], now_ms);
            k = k + 1;
        }
        assert(all.take(k as int) =~= all);
    }

    /// Take a custody request off the pending list, with the timestamp the
    /// timeout reads. The two go together: a timestamp left behind would time
    /// out the next request for that store as soon as it started.
    pub fn take_custody(&mut self, store: &[u8; 32]) -> (r: Option<CustodyRequest>)
        ensures
            final(self)@ == old(self)@.custody_taken(*store),
            (match r {
                Some(q) => old(self)@.pending.dom().contains(*store) && old(self)@.pending[*store]
                    == q@,
                None => !old(self)@.pending.dom().contains(*store),
            }),
    {
        let _ = self.custody_started_ms.remove(store);
        self.pending_custody.remove(store)
    }

    /// Take the pending custody request for `store`, but only if it is the
    /// one `request_id` answers. An answer to anything else leaves the live
    /// attempt to its own reply or its timeout.
    pub fn take_custody_answering(&mut self, store: &[u8; 32], request_id: u64) -> (r: Option<
        CustodyRequest,
    >)
        ensures
            (if old(self)@.answers(*store, request_id) {
                final(self)@ == old(self)@.custody_taken(*store) && (r matches Some(q) && q@ == old(
                    self,
                )@.pending[*store])
            } else {
                r is None && final(self)@ == old(self)@
            }),
    {
        let answers = match self.pending_custody.get(store) {
            Some(p) => match p.request_id {
                Some(id) => id == request_id,
                None => false,
            },
            None => false,
        };
        if answers {
            self.take_custody(store)
        } else {
            None
        }
    }

    /// A custody request could not be sent. Give it up, and let it be tried
    /// again a bounded number of times: nothing was ever asked, so this is
    /// not recorded like a refusal.
    pub fn on_custody_send_failed(&mut self, store: [u8; 32], why: &str)
        ensures
            final(self)@ == old(self)@.custody_send_failed(store, why@),
    {
        let backer = match self.take_custody(&store) {
            Some(request) => request.backer,
            None => {
                return;
            },
        };
        let before: u8 = match self.custody_send_failures.get(&(store, backer)) {
            Some(n) => *n,
            None => 0,
        };
        let failures: u8 = if before == u8::MAX {
            u8::MAX
        } else {
            before + 1
        };
        self.custody_send_failures.insert((store, backer), failures);
        if failures >= MAX_CUSTODY_SEND_ATTEMPTS {
            if failures == MAX_CUSTODY_SEND_ATTEMPTS {
                let mut words = "Your store's key could not be backed up or recovered: ".to_string();
                words.append(why);
                words.append(". Reload to try again.");
                self.tell(words);
            }
            return;
        }
        self.custody_attempted.remove(&(store, backer));
    }
}

/// Whether recovery tries the backer `a` before `b`.
fn tries_before(current: &Option<[u8; 32]>, a: &[u8; 32], b: &[u8; 32]) -> (r: bool)
    ensures
        r == tried_before(*current, *a, *b),
{
    let first = bytes::same_key_option(current, a);
    let second = bytes::same_key_option(current, b);
    if first != second {
        first
    } else {
        bytes::comes_before(a, b)
    }
}

proof fn lemma_recovery_backer_fits(s: StateView, store: LoadedView, owner: [u8; 32], n: int)
    ensures
        s.recovery_backer(store, owner, n) matches Some(b) ==> s.recovers_through(store, owner, b),
    decreases n,
{
    if n > 0 {
        lemma_recovery_backer_fits(s, store, owner, n - 1);
    }
}

impl StateView {
    /// Whether the custody request for `store` has waited for `timeout_ms`. A
    /// request with no timestamp has not.
    pub open spec fn timed_out(self, store: [u8; 32], now_ms: u64, timeout_ms: u64) -> bool {
        &&& self.pending.dom().contains(store)
        &&& self.started.dom().contains(store)
        &&& (if now_ms >= self.started[store] {
            now_ms - self.started[store]
        } else {
            0
        }) >= timeout_ms
    }

    /// Whether the request for `store` is a recovery of a registered store
    /// whose key another attempt already recovered.
    pub open spec fn already_recovered(self, store: [u8; 32]) -> bool {
        self.registered(store) && self.pending[store].purpose is Recover && self.known_held(store)
    }

    /// The state after every request that has waited for `timeout_ms` was
    /// given up.
    pub open spec fn custody_expired(self, now_ms: u64, timeout_ms: u64) -> StateView {
        let gone = Set::new(|store: [u8; 32]| self.timed_out(store, now_ms, timeout_ms));
        let news = exists|store: [u8; 32]| #[trigger]
            self.timed_out(store, now_ms, timeout_ms) && !self.already_recovered(store);
        let s = StateView {
            pending: self.pending.remove_keys(gone),
            started: self.started.remove_keys(gone),
            ..self
        };
        let s = if news {
            s.told(timed_out_words())
        } else {
            s
        };
        if exists|store: [u8; 32]| #[trigger] self.timed_out(store, now_ms, timeout_ms) {
            s.custody_started_everywhere(now_ms)
        } else {
            s
        }
    }

    /// The state after the vault signed the wrap message of `store`, if it
    /// names one.
    pub open spec fn wrap_signed(
        self,
        store: Option<[u8; 32]>,
        scoped_payload: Seq<u8>,
        signature: Seq<u8>,
    ) -> StateView {
        match store {
            None => self,
            Some(store) => if !self.pending.dom().contains(store) {
                self
            } else if !self.delegate_registered {
                self.custody_taken(store).told(no_delegate_words())
            } else {
                let request = self.pending[store];
                StateView {
                    next_id: next_number(self.next_id),
                    pending: self.pending.insert(
                        store,
                        RequestView { request_id: Some(self.next_id), ..request },
                    ),
                    ..self
                }.sent_on(
                    ErrandView::SendCustody(
                        store,
                        MessageView {
                            request_id: self.next_id,
                            store,
                            backer: request.backer,
                            scoped_payload,
                            signature,
                            purpose: request.purpose,
                        },
                    ),
                )
            },
        }
    }

    /// The state after the delegate wrapped a store key, or said why not.
    pub open spec fn key_wrapped(
        self,
        store: [u8; 32],
        request_id: u64,
        result: Result<CopyView, Seq<char>>,
        now_ms: u64,
    ) -> StateView {
        if !self.answers(store, request_id) {
            self
        } else {
            let id = self.pending[store].store_contract_id;
            let s = self.custody_taken(store);
            (match result {
                Ok(copy) => s.sent_on(ErrandView::PublishCopy(id, copy)),
                Err(why) => s.told(wrap_failed_words(why)),
            }).custody_started_everywhere(now_ms)
        }
    }

    /// The state after the conversations of each store of `owned` whose key
    /// is `store` were asked for.
    pub open spec fn asked_conversations(self, owned: Seq<OwnedView>, store: [u8; 32]) -> StateView
        decreases owned.len(),
    {
        if owned.len() == 0 {
            self
        } else {
            let s = self.asked_conversations(owned.drop_last(), store);
            if owned.last().registration.store_verifying_key == Some(store) {
                s.sent_on(
                    ErrandView::AskConversationKeys(owned.last().registration.store_contract_id),
                )
            } else {
                s
            }
        }
    }

    /// The state after a registered store's key is held again.
    pub open spec fn key_back(self, store: [u8; 32]) -> StateView {
        self.told(recovered_words()).asked_subkeys(store).asked_conversations(self.my_stores, store)
    }

    /// The registration a recovered store gets: its record from its published
    /// details, and the mailbox its backer addresses.
    pub open spec fn registration_for(
        self,
        request: RequestView,
        store: [u8; 32],
        backer_is_key: bool,
        mailbox: Option<Seq<u8>>,
    ) -> Option<RegistrationView> {
        match self.store_at(request.store_contract_id) {
            None => None,
            Some(loaded) => match (loaded.info, mailbox) {
                (Some(info), Some(mailbox)) => if backer_is_key {
                    Some(
                        RegistrationView {
                            store_contract_id: request.store_contract_id,
                            reputation_contract_id: info.reputation_contract_id@,
                            mailbox_contract_id: mailbox,
                            store_verifying_key: Some(store),
                        },
                    )
                } else {
                    None
                },
                _ => None,
            },
        }
    }

    /// The state after a recovered store that was not registered here was
    /// given a registration, or could not be.
    pub open spec fn recovery_registered(
        self,
        fingerprint: Seq<char>,
        store: [u8; 32],
        registration: Option<RegistrationView>,
    ) -> StateView {
        match registration {
            None => self.told(not_registered_words()),
            Some(registration) => StateView {
                my_stores: self.my_stores.push(OwnedView { fingerprint, registration }),
                ..self
            }.told(recovered_words()).asked_subkeys(store).sent_on(
                ErrandView::RegisterStore(fingerprint, registration),
            ),
        }
    }

    /// The state after the delegate recovered a store key (`why` is `None`),
    /// or said why not, before anything else is started.
    pub open spec fn key_recovered_inner(
        self,
        store: [u8; 32],
        request_id: u64,
        why: Option<Seq<char>>,
        mailbox: Option<Seq<u8>>,
    ) -> StateView {
        let s = match why {
            Some(_) => self,
            None => {
                let h = StateView { held: self.held.insert(store, true), ..self };
                if self.registered(store) && !self.known_held(store) {
                    h.key_back(store)
                } else {
                    h
                }
            },
        };
        if !s.answers(store, request_id) {
            s
        } else {
            let request = s.pending[store];
            let t = s.custody_taken(store);
            match why {
                Some(why) => if self.registered(store) && self.known_held(store) {
                    t
                } else {
                    t.told(recovery_failed_words(why))
                },
                None => if self.registered(store) {
                    t
                } else {
                    t.recovery_registered(
                        request.fingerprint,
                        store,
                        t.registration_for(
                            request,
                            store,
                            crate::keys::is_verifying_key(request.backer@),
                            mailbox,
                        ),
                    )
                },
            }
        }
    }

    /// The record key published by a loaded store whose key is `store`.
    pub open spec fn published_record_key(self, store: [u8; 32]) -> Option<Seq<u8>> {
        match seqs::find_first(
            self.stores,
            |s: LoadedView|
                s.owner == Some(store) && s.info is Some && s.info->0.record_public_key is Some,
        ) {
            Some(s) => s.info->0.record_public_key,
            None => None,
        }
    }

    /// The state after the record key this device derives for `store` was
    /// held against the one the store publishes.
    pub open spec fn record_key_checked(self, store: [u8; 32], record: Seq<u8>) -> StateView {
        match self.published_record_key(store) {
            Some(published) => if published == record {
                StateView { mismatch: self.mismatch.remove(store), ..self }
            } else if self.mismatch.contains(store) {
                self
            } else {
                StateView { mismatch: self.mismatch.insert(store), ..self }.told(mismatch_words())
            },
            None => StateView { mismatch: self.mismatch.remove(store), ..self },
        }
    }

    /// Whether a store creation waits for the keys derived from `store`.
    pub open spec fn creation_waits(self, store: [u8; 32]) -> bool {
        self.creation matches Some(c) && c.store_verifying_key == Some(store)
    }

    /// Whether a store edit waits for the keys derived from `store`.
    pub open spec fn edit_waits(self, store: [u8; 32]) -> bool {
        self.edit matches Some(id) && self.work_key(id) == Some(store)
    }

    /// Whether a creation takes the derived keys this session holds for
    /// `store`.
    pub open spec fn fills_creation(self, store: [u8; 32]) -> bool {
        self.subkeys.dom().contains(store) && self.creation_waits(store)
    }

    /// The state after a creation took the derived keys this session holds
    /// for `store`, if it waits for them.
    pub open spec fn creation_filled(self, store: [u8; 32]) -> StateView {
        if self.fills_creation(store) {
            let info = self.subkeys[store];
            StateView {
                creation: Some(
                    CreationView {
                        rsa_public_key_der: Some(info.record_public_key),
                        encryption_public_key: Some(info.inbox_public_key),
                        ..self.creation->0
                    },
                ),
                ..self
            }
        } else {
            self
        }
    }

    /// The state after a store creation failed.
    pub open spec fn creation_failed(self, why: Seq<char>) -> StateView {
        StateView { creation: None, creation_in_flight: None, ..self }.told(
            "Store creation failed: "@ + why,
        )
    }

    /// The state after everything that waits for the keys derived from
    /// `store` was let go, because they will not come.
    pub open spec fn waiters_released(self, store: [u8; 32], why: Seq<char>) -> StateView {
        let s = StateView { subkeys_requested: self.subkeys_requested.remove(store), ..self };
        let s = if self.creation_waits(store) {
            s.creation_failed("the store's keys could not be derived: "@ + why)
        } else {
            s
        };
        if self.edit_waits(store) {
            StateView { edit: None, ..s }.told(edit_dropped_words(why))
        } else {
            s
        }
    }

    /// Whether letting them go told the seller something.
    pub open spec fn release_is_said(self, store: [u8; 32]) -> bool {
        self.creation_waits(store) || self.edit_waits(store)
    }

    /// The state after the delegate answered with a store key's derived keys.
    pub open spec fn subkeys_arrived(self, store: [u8; 32], info: SubkeyView) -> StateView {
        let s = self.record_key_checked(store, info.record_public_key);
        StateView { subkeys: s.subkeys.insert(store, info), ..s }.creation_filled(store).sent_on(
            ErrandView::ResumeCreation,
        ).sent_on(ErrandView::ResumeEdit)
    }
}

/// What the seller is told when a custody request ran out of time.
pub open spec fn timed_out_words() -> Seq<char> {
    "Backing up or recovering your store's key did not finish: the Ghost Key vault or the Harvest delegate did not answer. Reload to try again."@
}

/// What the seller is told when there is no delegate to ask.
pub open spec fn no_delegate_words() -> Seq<char> {
    "Your store's key could not be backed up or recovered: the Harvest delegate is not registered. Reload to try again."@
}

/// What the seller is told when a store key could not be wrapped.
pub open spec fn wrap_failed_words(why: Seq<char>) -> Seq<char> {
    "Your store's key could not be backed up to your Ghost Key: "@ + why
        + ". Another device will not be able to recover it until this succeeds."@
}

/// What the seller is told when a store key is theirs again.
pub open spec fn recovered_words() -> Seq<char> {
    "Recovered your store's key from your Ghost Key."@
}

/// What the seller is told when a recovery failed.
pub open spec fn recovery_failed_words(why: Seq<char>) -> Seq<char> {
    "Your store's key could not be recovered from your Ghost Key: "@ + why
}

/// What the seller is told when a recovered store could not be registered.
pub open spec fn not_registered_words() -> Seq<char> {
    "Your store's key was recovered, but the store could not be registered on this device; reload to try again."@
}

/// What the seller is told when the record keys disagree.
pub open spec fn mismatch_words() -> Seq<char> {
    "This device derives a different record key for your store than the one it publishes, so it will not publish the store's details: its build of Harvest may generate keys differently. Publish from a device that agrees."@
}

/// What the seller is told when a parked edit is dropped.
pub open spec fn edit_dropped_words(why: Seq<char>) -> Seq<char> {
    "Your store's details were not published: the keys it publishes them with could not be derived ("@
        + why + ")."@
}

/// What the seller is told when derived keys could not be derived and nothing
/// waited for them.
pub open spec fn subkeys_failed_words(why: Seq<char>) -> Seq<char> {
    "Your store's derived keys could not be derived: "@ + why + ". Reload to try again."@
}

/// What the seller is told when derived keys could not be asked for and
/// nothing waited for them.
pub open spec fn subkeys_unasked_words(why: Seq<char>) -> Seq<char> {
    "Your store's derived keys could not be asked for: "@ + why + ". Reload to try again."@
}

impl AppState {
    /// Give up every custody request that has waited `timeout_ms`, say so,
    /// and let the vault take the next one. The attempt stays recorded, so it
    /// is not retried until a reload.
    ///
    /// A recovery of a registered store whose key another attempt already
    /// recovered did not fail in any sense the seller needs to hear.
    pub fn expire_custody(&mut self, now_ms: u64, timeout_ms: u64)
        ensures
            final(self)@ == old(self)@.custody_expired(now_ms, timeout_ms),
    {
        let ghost before = self@;
        let keys = self.pending_custody.keys();
        let ghost mut gone: Set<[u8; 32]> = Set::empty();
        let mut any = false;
        let mut news = false;
        let mut i: usize = 0;
        assert(self@.pending =~= before.pending.remove_keys(gone));
        assert(self@.started =~= before.started.remove_keys(gone));
        while i < keys.len()
            invariant
                i <= keys.len(),
                keys@.no_duplicates(),
                forall|k: [u8; 32]| #[trigger] keys@.contains(k) <==> before.pending.dom().contains(k),
                forall|k: [u8; 32]| #[trigger]
                    gone.contains(k) <==> before.timed_out(k, now_ms, timeout_ms)
                        && keys@.take(i as int).contains(k),
                self@ == (StateView {
                    pending: before.pending.remove_keys(gone),
                    started: before.started.remove_keys(gone),
                    ..before
                }),
                any == (exists|k: [u8; 32]| #[trigger] gone.contains(k)),
                news == (exists|k: [u8; 32]| #[trigger]
                    gone.contains(k) && !before.already_recovered(k)),
            decreases keys.len() - i,
        {
            let store = keys[i];
            proof {
                assert(keys@.contains(store));
                assert forall|k: [u8; 32]| #[trigger] keys@.take(i + 1).contains(k) <==> keys@.take(
                    i as int,
                ).contains(k) || k == store by {
                    if keys@.take(i as int).contains(k) {
                        let j = choose|j: int| 0 <= j < i && keys@.take(i as int)[j] == k;
                        assert(keys@.take(i + 1)[j] == k);
                    }
                    if k == store {
                        assert(keys@.take(i + 1)[i as int] == k);
                    }
                    if keys@.take(i + 1).contains(k) && k != store {
                        let upto = keys@.take(i + 1);
                        let j = upto.index_of(k);
                        assert(keys@.take(i as int)[j] == k);
                    }
                }
                if keys@.take(i as int).contains(store) {
                    let j = choose|j: int| 0 <= j < i && keys@.take(i as int)[j] == store;
                    assert(keys@[j] == keys@[i as int]);
                }
                assert(!gone.contains(store));
                assert(before.pending.dom().contains(store));
                assert(self@.pending.dom().contains(store));
                assert(self@.started.dom().contains(store) == before.started.dom().contains(store));
            }
            let expired = match self.custody_started_ms.get(&store) {
                Some(t) => {
                    let waited: u64 = if now_ms >= *t {
                        now_ms - *t
                    } else {
                        0
                    };
                    waited >= timeout_ms
                },
                None => false,
            };
            assert(expired == before.timed_out(store, now_ms, timeout_ms));
            if expired {
                let ghost gone_before = gone;
                let registered = self.is_registered(&store);
                let held = self.known_to_hold(&store);
                let request = self.take_custody(&store);
                let recovers = match request {
                    Some(r) => match r.purpose {
                        CustodyPurpose::Recover(_) => true,
                        CustodyPurpose::Wrap => false,
                    },
                    None => false,
                };
                assert(before.already_recovered(store) == (registered && recovers && held));
                proof {
                    gone = gone.insert(store);
                    assert(before.pending.remove_keys(gone_before).remove(store)
                        =~= before.pending.remove_keys(gone));
                    assert(before.started.remove_keys(gone_before).remove(store)
                        =~= before.started.remove_keys(gone));
                    assert(gone.contains(store));
                    if exists|k: [u8; 32]| #[trigger]
                        gone_before.contains(k) && !before.already_recovered(k) {
                        let k = choose|k: [u8; 32]| #[trigger]
                            gone_before.contains(k) && !before.already_recovered(k);
                        assert(gone.contains(k));
                    }
                }
                any = true;
                if !(registered && recovers && held) {
                    news = true;
                }
            }
            i = i + 1;
        }
        proof {
            assert(keys@.take(i as int) =~= keys@);
            let all = Set::new(|store: [u8; 32]| before.timed_out(store, now_ms, timeout_ms));
            assert forall|k: [u8; 32]| gone.contains(k) == all.contains(k) by {
                if before.timed_out(k, now_ms, timeout_ms) {
                    assert(keys@.contains(k));
                }
            }
            assert(gone =~= all);
            if exists|store: [u8; 32]| #[trigger]
                before.timed_out(store, now_ms, timeout_ms) && !before.already_recovered(store) {
                let k = choose|store: [u8; 32]| #[trigger]
                    before.timed_out(store, now_ms, timeout_ms) && !before.already_recovered(store);
                assert(gone.contains(k));
            }
            if news {
                let k = choose|k: [u8; 32]| #[trigger]
                    gone.contains(k) && !before.already_recovered(k);
                assert(before.timed_out(k, now_ms, timeout_ms));
            }
            if exists|store: [u8; 32]| #[trigger] before.timed_out(store, now_ms, timeout_ms) {
                let k = choose|store: [u8; 32]| #[trigger]
                    before.timed_out(store, now_ms, timeout_ms);
                assert(gone.contains(k));
            }
            if any {
                let k = choose|k: [u8; 32]| #[trigger] gone.contains(k);
                assert(before.timed_out(k, now_ms, timeout_ms));
            }
        }
        if news {
            self.tell(
                "Backing up or recovering your store's key did not finish: the Ghost Key vault or the Harvest delegate did not answer. Reload to try again.".to_string(),
            );
        }
        if any {
            self.start_custody_where_needed(now_ms);
        }
    }

    /// The vault signed a message: where it is the wrap message of a store,
    /// send the signature to the Harvest delegate for the request that asked,
    /// and let go of it.
    ///
    /// `wrap_message_store` reads which store's wrap message some bytes are.
    pub fn on_wrap_signature<F: Fn(&[u8]) -> Option<[u8; 32]>>(
        &mut self,
        scoped_payload: Vec<u8>,
        signature: Vec<u8>,
        wrap_message_store: F,
    )
        requires
            forall|message: &[u8]| #[trigger] call_requires(wrap_message_store, (message,)),
        ensures
            (match vault::scoped_message(scoped_payload@) {
                None => final(self)@ == old(self)@,
                Some(signed) => exists|message: &[u8], store: Option<[u8; 32]>|
                    message@ == signed && #[trigger] call_ensures(
                        wrap_message_store,
                        (message,),
                        store,
                    ) && final(self)@ == old(self)@.wrap_signed(
                        store,
                        scoped_payload@,
                        signature@,
                    ),
            }),
    {
        let message = match vault::read_scoped(&scoped_payload) {
            Some(message) => message,
            None => {
                return;
            },
        };
        let signed: &[u8] = &message;
        let store = wrap_message_store(signed);
        self.on_store_wrap_signature(store, scoped_payload, signature);
        assert(signed@ == message@ && call_ensures(wrap_message_store, (signed,), store));
    }

    /// The vault signed the wrap message of `store`, if the message names one:
    /// send the signature to the Harvest delegate. A wrap signature nobody
    /// asked for is dropped.
    pub fn on_store_wrap_signature(
        &mut self,
        store: Option<[u8; 32]>,
        scoped_payload: Vec<u8>,
        signature: Vec<u8>,
    )
        ensures
            final(self)@ == old(self)@.wrap_signed(store, scoped_payload@, signature@),
    {
        let store = match store {
            Some(store) => store,
            None => {
                return;
            },
        };
        let pending = match self.pending_custody.get(&store) {
            Some(pending) => pending.duplicate(),
            None => {
                return;
            },
        };
        if !self.harvest_delegate_registered {
            let _ = self.take_custody(&store);
            self.tell(
                "Your store's key could not be backed up or recovered: the Harvest delegate is not registered. Reload to try again.".to_string(),
            );
            return;
        }
        let request_id = self.next_messaging_request_id();
        let backer = pending.backer;
        let message = match pending.purpose.duplicate() {
            CustodyPurpose::Wrap => CustodyMessage::WrapStoreKeyFor {
                request_id,
                store_verifying_key: store,
                backer_verifying_key: backer,
                scoped_payload,
                signature,
            },
            CustodyPurpose::Recover(wrapped) => CustodyMessage::UnwrapStoreKey {
                request_id,
                store_verifying_key: store,
                backer_verifying_key: backer,
                scoped_payload,
                signature,
                wrapped,
            },
        };
        let mut sent = pending;
        sent.request_id = Some(request_id);
        self.pending_custody.insert(store, sent);
        self.send_on(Errand::SendCustody { store, message });
    }

    /// The delegate wrapped the store key: publish the copy. Either way the
    /// vault is free again, so the store deferred behind this one can start.
    pub fn on_store_key_wrapped(
        &mut self,
        store: [u8; 32],
        request_id: u64,
        result: Result<AuthorizedCopy, String>,
        now_ms: u64,
    )
        ensures
            final(self)@ == old(self)@.key_wrapped(
                store,
                request_id,
                (match result {
                    Ok(copy) => Ok(copy@),
                    Err(why) => Err(why@),
                }),
                now_ms,
            ),
    {
        let pending = match self.take_custody_answering(&store, request_id) {
            Some(pending) => pending,
            None => {
                return;
            },
        };
        match result {
            Ok(copy) => {
                self.send_on(
                    Errand::PublishCopy { store_contract_id: pending.store_contract_id, copy },
                );
            },
            Err(why) => {
                let mut words =
                    "Your store's key could not be backed up to your Ghost Key: ".to_string();
                words.append(&why);
                words.append(
                    ". Another device will not be able to recover it until this succeeds.",
                );
                self.tell(words);
            },
        }
        self.start_custody_where_needed(now_ms);
    }

    /// The delegate recovered the store key, or could not: every way out
    /// frees the vault, so the store deferred behind this one can start.
    ///
    /// `mailbox` is the mailbox that the backer of the request under way for
    /// this store addresses, if it has one.
    pub fn on_store_key_recovered(
        &mut self,
        store: [u8; 32],
        request_id: u64,
        result: Result<(), String>,
        mailbox: Option<Vec<u8>>,
        now_ms: u64,
    )
        ensures
            final(self)@ == old(self)@.key_recovered_inner(
                store,
                request_id,
                (match result {
                    Ok(()) => None,
                    Err(why) => Some(why@),
                }),
                (match mailbox {
                    Some(m) => Some(m@),
                    None => None,
                }),
            ).custody_started_everywhere(now_ms),
    {
        self.on_store_key_recovered_inner(store, request_id, result, mailbox);
        self.start_custody_where_needed(now_ms);
    }

    /// What a recovery's answer means.
    ///
    /// That the delegate now holds the key is acted on once, on the
    /// transition to held, whichever request the answer is for; the rest only
    /// for the request it answers. The registration is matched by key, since
    /// a store migration can rewrite its contract id while a prompt is open.
    pub fn on_store_key_recovered_inner(
        &mut self,
        store: [u8; 32],
        request_id: u64,
        result: Result<(), String>,
        mailbox: Option<Vec<u8>>,
    )
        ensures
            final(self)@ == old(self)@.key_recovered_inner(
                store,
                request_id,
                (match result {
                    Ok(()) => None,
                    Err(why) => Some(why@),
                }),
                (match mailbox {
                    Some(m) => Some(m@),
                    None => None,
                }),
            ),
    {
        let ghost before = self@;
        let registered = self.is_registered(&store);
        let known_held = self.known_to_hold(&store);
        if result.is_ok() {
            self.store_keys_held.insert(store, true);
            if registered && !known_held {
                self.after_registered_store_key_recovered(store);
            }
        }
        proof {
            lemma_conversations_keep_rest(
                StateView { held: before.held.insert(store, true), ..before }.told(
                    recovered_words(),
                ).asked_subkeys(store),
                before.my_stores,
                store,
            );
        }
        let pending = match self.take_custody_answering(&store, request_id) {
            Some(pending) => pending,
            None => {
                return;
            },
        };
        match result {
            Err(why) => {
                if !(registered && self.known_to_hold(&store)) {
                    let mut words =
                        "Your store's key could not be recovered from your Ghost Key: ".to_string();
                    words.append(&why);
                    self.tell(words);
                }
            },
            Ok(()) => {
                if !registered {
                    let registration = self.recovered_registration(&pending, store, mailbox);
                    self.register_recovered(pending.fingerprint, store, registration);
                }
            },
        }
    }

    /// A registered store's key is held again: say so, and redo what failed
    /// while it was missing. The registration it has is kept as it is.
    pub fn after_registered_store_key_recovered(&mut self, store: [u8; 32])
        ensures
            final(self)@ == old(self)@.key_back(store),
    {
        let ghost owned = self@.my_stores;
        self.tell("Recovered your store's key from your Ghost Key.".to_string());
        self.request_store_subkeys(store);
        let ghost base = self@;
        let mut i: usize = 0;
        assert(owned.take(0) =~= Seq::empty());
        while i < self.my_stores.len()
            invariant
                i <= self.my_stores.len(),
                self.my_stores@.len() == owned.len(),
                self@.my_stores == owned,
                self@ == base.asked_conversations(owned.take(i as int), store),
            decreases self.my_stores.len() - i,
        {
            assert(owned.take(i + 1).drop_last() =~= owned.take(i as int));
            assert(owned.take(i + 1).last() == self@.my_stores[i as int]);
            assert(self@.my_stores[i as int] == self.my_stores@[i as int]@);
            if bytes::same_key_option(&self.my_stores[i].registration.store_verifying_key, &store) {
                let id = bytes::copy_bytes(&self.my_stores[i].registration.store_contract_id);
                self.send_on(Errand::AskConversationKeys { store_contract_id: id });
            }
            i = i + 1;
        }
        assert(owned.take(i as int) =~= owned);
    }

    /// The registration a recovered store gets, if it can have one: its
    /// details are loaded, its backer is a key, and that key addresses a
    /// mailbox.
    pub fn recovered_registration(
        &self,
        pending: &CustodyRequest,
        store: [u8; 32],
        mailbox: Option<Vec<u8>>,
    ) -> (r: Option<StoreRegistration>)
        ensures
            (match r {
                Some(g) => Some(g@),
                None => None,
            }) == self@.registration_for(
                pending@,
                store,
                crate::keys::is_verifying_key(pending.backer@),
                (match mailbox {
                    Some(m) => Some(m@),
                    None => None,
                }),
            ),
    {
        let backer_is_key = crate::keys::verifying_key(&pending.backer);
        self.registration_of(pending, store, backer_is_key, mailbox)
    }

    /// The registration a recovered store gets, given whether its backer is a
    /// key.
    pub fn registration_of(
        &self,
        pending: &CustodyRequest,
        store: [u8; 32],
        backer_is_key: bool,
        mailbox: Option<Vec<u8>>,
    ) -> (r: Option<StoreRegistration>)
        ensures
            (match r {
                Some(g) => Some(g@),
                None => None,
            }) == self@.registration_for(
                pending@,
                store,
                backer_is_key,
                (match mailbox {
                    Some(m) => Some(m@),
                    None => None,
                }),
            ),
    {
        let loaded = match self.loaded_store(&pending.store_contract_id) {
            Some(loaded) => loaded,
            None => {
                return None;
            },
        };
        match (&loaded.info, mailbox) {
            (Some(info), Some(mailbox)) => {
                if backer_is_key {
                    Some(
                        StoreRegistration {
                            store_contract_id: bytes::copy_bytes(&pending.store_contract_id),
                            reputation_contract_id: bytes::copy_bytes(&info.reputation_contract_id),
                            mailbox_contract_id: mailbox,
                            store_verifying_key: Some(store),
                        },
                    )
                } else {
                    None
                }
            },
            _ => None,
        }
    }

    /// Make a recovered store this device's again, or say that it could not
    /// be registered.
    pub fn register_recovered(
        &mut self,
        fingerprint: String,
        store: [u8; 32],
        registration: Option<StoreRegistration>,
    )
        ensures
            final(self)@ == old(self)@.recovery_registered(
                fingerprint@,
                store,
                (match registration {
                    Some(g) => Some(g@),
                    None => None,
                }),
            ),
    {
        let registration = match registration {
            Some(registration) => registration,
            None => {
                self.tell(
                    "Your store's key was recovered, but the store could not be registered on this device; reload to try again.".to_string(),
                );
                return;
            },
        };
        let kept = StoreRegistration {
            store_contract_id: bytes::copy_bytes(&registration.store_contract_id),
            reputation_contract_id: bytes::copy_bytes(&registration.reputation_contract_id),
            mailbox_contract_id: bytes::copy_bytes(&registration.mailbox_contract_id),
            store_verifying_key: registration.store_verifying_key,
        };
        let ghost owned = self.my_stores@;
        self.my_stores.push(OwnedStore { fingerprint: fingerprint.clone(), registration: kept });
        assert(self.my_stores@.map_values(|o: OwnedStore| o@) =~= owned.map_values(
            |o: OwnedStore| o@,
        ).push(OwnedView { fingerprint: fingerprint@, registration: registration@ }));
        self.tell("Recovered your store's key from your Ghost Key.".to_string());
        self.request_store_subkeys(store);
        self.send_on(Errand::RegisterStore { fingerprint, registration });
    }

    /// The delegate derived a store key's public keys, or said why not:
    /// record them, finish a creation or an edit that waits on them, and
    /// check them against what the store has published.
    pub fn on_store_subkeys(&mut self, store: [u8; 32], result: Result<StoreSubkeyInfo, String>)
        ensures
            final(self)@ == (match result {
                Ok(info) => old(self)@.subkeys_arrived(store, info@),
                Err(why) => if old(self)@.release_is_said(store) {
                    old(self)@.waiters_released(store, why@)
                } else {
                    old(self)@.waiters_released(store, why@).told(subkeys_failed_words(why@))
                },
            }),
    {
        let info = match result {
            Ok(info) => info,
            Err(why) => {
                if !self.release_waiters_on_subkeys(store, &why) {
                    let mut words =
                        "Your store's derived keys could not be derived: ".to_string();
                    words.append(&why);
                    words.append(". Reload to try again.");
                    self.tell(words);
                }
                return;
            },
        };
        self.check_published_record_key(&store, &info);
        self.store_subkeys.insert(store, info);
        let _ = self.fill_creation_from_subkeys(store);
        self.send_on(Errand::ResumeCreation);
        self.send_on(Errand::ResumeEdit);
    }

    /// A store creation failed: it is no longer under way, and the seller is
    /// told.
    fn store_creation_failed(&mut self, why: &str)
        ensures
            final(self)@ == old(self)@.creation_failed(why@),
    {
        self.pending_store_creation = None;
        self.store_creation_in_flight = None;
        let mut words = "Store creation failed: ".to_string();
        words.append(why);
        self.tell(words);
    }

    /// A store's derived keys will not arrive. Release everything waiting on
    /// them: a creation, and a parked edit, which would otherwise hold the
    /// vault for the session. Says whether it already told the seller
    /// something.
    pub fn release_waiters_on_subkeys(&mut self, store: [u8; 32], why: &str) -> (said: bool)
        ensures
            final(self)@ == old(self)@.waiters_released(store, why@),
            said == old(self)@.release_is_said(store),
    {
        let edit_is_this_store = match &self.pending_store_edit {
            Some(id) => match self.work_store_key(id) {
                Some(key) => bytes::same_key(&key, &store),
                None => false,
            },
            None => false,
        };
        self.store_subkeys_requested.remove(&store);
        let mut said = false;
        let creation_is_this_store = match &self.pending_store_creation {
            Some(creation) => bytes::same_key_option(&creation.store_verifying_key, &store),
            None => false,
        };
        if creation_is_this_store {
            let mut words = "the store's keys could not be derived: ".to_string();
            words.append(why);
            self.store_creation_failed(&words);
            said = true;
        }
        if edit_is_this_store {
            self.pending_store_edit = None;
            let mut words =
                "Your store's details were not published: the keys it publishes them with could not be derived (".to_string();
            words.append(why);
            words.append(").");
            self.tell(words);
            said = true;
        }
        said
    }

    /// The request for a store's derived keys could not be sent.
    pub fn on_subkeys_request_failed(&mut self, store: [u8; 32], why: &str)
        ensures
            final(self)@ == (if old(self)@.release_is_said(store) {
                old(self)@.waiters_released(store, why@)
            } else {
                old(self)@.waiters_released(store, why@).told(subkeys_unasked_words(why@))
            }),
    {
        if !self.release_waiters_on_subkeys(store, why) {
            let mut words = "Your store's derived keys could not be asked for: ".to_string();
            words.append(why);
            words.append(". Reload to try again.");
            self.tell(words);
        }
    }

    /// Check the record key again for a loaded store, if this device has
    /// derived its keys.
    pub fn recheck_record_key(&mut self, store_contract_id: &[u8])
        ensures
            final(self)@ == (match old(self)@.loaded_owner(store_contract_id@) {
                Some(owner) => if old(self)@.subkeys.dom().contains(owner) {
                    old(self)@.record_key_checked(
                        owner,
                        old(self)@.subkeys[owner].record_public_key,
                    )
                } else {
                    old(self)@
                },
                None => old(self)@,
            }),
    {
        let owner = match self.loaded_store_key(store_contract_id) {
            Some(owner) => owner,
            None => {
                return;
            },
        };
        let info = match self.store_subkeys.get(&owner) {
            Some(info) => info.duplicate(),
            None => {
                return;
            },
        };
        self.check_published_record_key(&owner, &info);
    }

    /// Fill the pending creation for the store key `store` from the derived
    /// keys this session holds for it. Says whether a creation was filled:
    /// the caller asks the delegate when this says no.
    pub fn fill_creation_from_subkeys(&mut self, store: [u8; 32]) -> (filled: bool)
        ensures
            filled == old(self)@.fills_creation(store),
            final(self)@ == old(self)@.creation_filled(store),
    {
        let info = match self.store_subkeys.get(&store) {
            Some(info) => info.duplicate(),
            None => {
                return false;
            },
        };
        let waits = match &self.pending_store_creation {
            Some(creation) => bytes::same_key_option(&creation.store_verifying_key, &store),
            None => false,
        };
        if !waits {
            return false;
        }
        self.pending_store_creation = Some(
            crate::state::PendingStoreCreation {
                store_verifying_key: Some(store),
                rsa_public_key_der: Some(info.record_public_key),
                encryption_public_key: Some(info.inbox_public_key),
            },
        );
        true
    }

    /// The record key a store publishes must be the one this device derives
    /// from its store key: a mismatch blocks publishing from here, and is
    /// said once.
    pub fn check_published_record_key(&mut self, store: &[u8; 32], info: &StoreSubkeyInfo)
        ensures
            final(self)@ == old(self)@.record_key_checked(*store, info@.record_public_key),
    {
        let differs = match self.published_key(store) {
            Some(published) => !bytes::same_bytes(&published, &info.record_public_key),
            None => false,
        };
        if differs {
            if self.record_key_mismatch.contains(store) {
                return;
            }
            let _ = self.record_key_mismatch.insert(*store);
            self.tell(
                "This device derives a different record key for your store than the one it publishes, so it will not publish the store's details: its build of Harvest may generate keys differently. Publish from a device that agrees.".to_string(),
            );
        } else {
            self.record_key_mismatch.remove(store);
        }
    }

    /// The record key published by a loaded store whose key is `store`.
    fn published_key(&self, store: &[u8; 32]) -> (r: Option<Vec<u8>>)
        ensures
            (match r {
                Some(k) => self@.published_record_key(*store) == Some(k@),
                None => self@.published_record_key(*store) is None,
            }),
    {
        let ghost want = |s: LoadedView|
            s.owner == Some(*store) && s.info is Some && s.info->0.record_public_key is Some;
        let mut i: usize = 0;
        while i < self.browsing_stores.len()
            invariant
                i <= self.browsing_stores.len(),
                want == (|s: LoadedView|
                    s.owner == Some(*store) && s.info is Some
                        && s.info->0.record_public_key is Some),
                forall|j: int| 0 <= j < i ==> !want(#[trigger] self@.stores[j]),
            decreases self.browsing_stores.len() - i,
        {
            let loaded = &self.browsing_stores[i];
            assert(self@.stores[i as int] == loaded@);
            if bytes::same_key_option(&loaded.owner, store) {
                if let Some(info) = &loaded.info {
                    if let Some(key) = &info.record_public_key {
                        proof {
                            seqs::lemma_find_first(self@.stores, want, i as int);
                        }
                        return Some(bytes::copy_bytes(key));
                    }
                }
            }
            i = i + 1;
        }
        proof {
            seqs::lemma_find_first(self@.stores, want, i as int);
        }
        None
    }
}

/// Asking for conversations changes nothing but the errands.
proof fn lemma_conversations_keep_rest(s: StateView, owned: Seq<OwnedView>, store: [u8; 32])
    ensures
        s.asked_conversations(owned, store) == (StateView {
            errands: s.asked_conversations(owned, store).errands,
            ..s
        }),
    decreases owned.len(),
{
    if owned.len() > 0 {
        lemma_conversations_keep_rest(s, owned.drop_last(), store);
    }
}

/// Whether at most one custody request is under way, and no timestamp is kept
/// for a request that is not.
pub open spec fn one_custody_request(s: StateView) -> bool {
    &&& forall|a: [u8; 32], b: [u8; 32]|
        #![trigger s.pending.dom().contains(a), s.pending.dom().contains(b)]
        s.pending.dom().contains(a) && s.pending.dom().contains(b) ==> a == b
    &&& forall|a: [u8; 32]| #[trigger] s.started.dom().contains(a) ==> s.pending.dom().contains(a)
}

/// Deciding custody, for one store or for every loaded one, keeps at most one
/// custody request under way, and gives it a timestamp.
pub proof fn deciding_custody_keeps_one_request(s: StateView, ids: Seq<Seq<u8>>, id: Seq<u8>, now_ms: u64)
    requires
        one_custody_request(s),
    ensures
        one_custody_request(s.custody_started(id, now_ms)),
        one_custody_request(s.custody_started_each(ids, now_ms)),
        one_custody_request(s.custody_started_everywhere(now_ms)),
{
    lemma_started_keeps_one(s, id, now_ms);
    lemma_started_each_keeps_one(s, ids, now_ms);
    lemma_started_each_keeps_one(s, s.loaded_ids(), now_ms);
}

proof fn lemma_started_keeps_one(s: StateView, id: Seq<u8>, now_ms: u64)
    requires
        one_custody_request(s),
    ensures
        one_custody_request(s.custody_started(id, now_ms)),
{
    if !s.vault_busy() {
        assert(s.pending =~= Map::<[u8; 32], RequestView>::empty());
        if let Some(request) = s.custody_needed(id) {
            let owner = s.loaded_owner(id)->0;
            let t = s.custody_started(id, now_ms);
            assert(t.pending =~= Map::<[u8; 32], RequestView>::empty().insert(owner, request));
            assert(s.started.dom() =~= Set::empty()) by {
                assert forall|a: [u8; 32]| !s.started.dom().contains(a) by {}
            }
        }
    }
}

proof fn lemma_started_each_keeps_one(s: StateView, ids: Seq<Seq<u8>>, now_ms: u64)
    requires
        one_custody_request(s),
    ensures
        one_custody_request(s.custody_started_each(ids, now_ms)),
    decreases ids.len(),
{
    if ids.len() > 0 {
        lemma_started_each_keeps_one(s, ids.drop_last(), now_ms);
        lemma_started_keeps_one(s.custody_started_each(ids.drop_last(), now_ms), ids.last(), now_ms);
    }
}

/// Whatever answers come from the vault, the delegate or the clock, at most
/// one custody request stays under way.
pub proof fn answers_keep_one_request(
    s: StateView,
    store: [u8; 32],
    request_id: u64,
    named: Option<[u8; 32]>,
    payload: Seq<u8>,
    signature: Seq<u8>,
    wrapped: Result<CopyView, Seq<char>>,
    why: Option<Seq<char>>,
    words: Seq<char>,
    mailbox: Option<Seq<u8>>,
    now_ms: u64,
    timeout_ms: u64,
)
    requires
        one_custody_request(s),
    ensures
        one_custody_request(s.custody_taken(store)),
        one_custody_request(s.custody_send_failed(store, words)),
        one_custody_request(s.wrap_signed(named, payload, signature)),
        one_custody_request(s.key_wrapped(store, request_id, wrapped, now_ms)),
        one_custody_request(s.key_recovered_inner(store, request_id, why, mailbox)),
        one_custody_request(
            s.key_recovered_inner(store, request_id, why, mailbox).custody_started_everywhere(
                now_ms,
            ),
        ),
        one_custody_request(s.custody_expired(now_ms, timeout_ms)),
{
    assert(one_custody_request(s.custody_taken(store)));
    // A wrapped key.
    if s.answers(store, request_id) {
        let id = s.pending[store].store_contract_id;
        let t = s.custody_taken(store);
        let u = match wrapped {
            Ok(copy) => t.sent_on(ErrandView::PublishCopy(id, copy)),
            Err(w) => t.told(wrap_failed_words(w)),
        };
        assert(one_custody_request(u));
        lemma_started_each_keeps_one(u, u.loaded_ids(), now_ms);
    }
    // A recovered key.
    let h = StateView { held: s.held.insert(store, true), ..s };
    lemma_conversations_keep_rest(
        h.told(recovered_words()).asked_subkeys(store),
        h.my_stores,
        store,
    );
    let v = s.key_recovered_inner(store, request_id, why, mailbox);
    assert(one_custody_request(v));
    lemma_started_each_keeps_one(v, v.loaded_ids(), now_ms);
    // A request that ran out of time.
    let gone = Set::new(|k: [u8; 32]| s.timed_out(k, now_ms, timeout_ms));
    let e = StateView {
        pending: s.pending.remove_keys(gone),
        started: s.started.remove_keys(gone),
        ..s
    };
    assert(one_custody_request(e));
    let e2 = e.told(timed_out_words());
    assert(one_custody_request(e2));
    lemma_started_each_keeps_one(e, e.loaded_ids(), now_ms);
    lemma_started_each_keeps_one(e2, e2.loaded_ids(), now_ms);
}

/// Custody wraps a key that is held, for the current backer, and recovers one
/// that is not, through a copy the store holds; it asks through a connected
/// Ghost Key, for a pair not tried yet, of a store with nothing under way.
pub proof fn custody_fits_the_store(s: StateView, id: Seq<u8>)
    requires
        s.custody_needed(id) is Some,
    ensures
        s.store_at(id) is Some,
        s.loaded_owner(id) is Some,
        ({
            let request = s.custody_needed(id)->0;
            let store = s.store_at(id)->0;
            let owner = s.loaded_owner(id)->0;
            let held = s.owner_key(id) == Some(owner) && s.holds(owner);
            &&& request.purpose is Wrap <==> held
            &&& held ==> store.current_backer == Some(request.backer) && copy_of(
                store,
                request.backer,
                s.scope,
            ) is None
            &&& !held ==> !store.retired.contains(request.backer)
            &&& !held ==> (copy_of(store, request.backer, s.scope) matches Some(copy)
                && request.purpose == PurposeView::Recover(copy.wrapped))
            &&& s.connected(request.backer) == Some(request.fingerprint)
            &&& !s.attempted.contains((owner, request.backer))
            &&& !s.pending.dom().contains(owner)
            &&& s.moved_to(id) is None
            &&& request.store_contract_id == id && request.request_id is None
        }),
{
    let store = s.store_at(id)->0;
    let owner = s.loaded_owner(id)->0;
    lemma_recovery_backer_fits(s, store, owner, store.backers.len() as int);
}

/// Recovery goes through the backer it should try first: one of the store's,
/// that it can go through, with none that it could go through tried before.
pub proof fn recovery_tries_the_first_backer(s: StateView, store: LoadedView, owner: [u8; 32])
    ensures
        (match s.recovery_backer(store, owner, store.backers.len() as int) {
            Some(b) => {
                &&& store.backers.contains(b)
                &&& s.recovers_through(store, owner, b)
                &&& forall|i: int|
                    0 <= i < store.backers.len() && s.recovers_through(
                        store,
                        owner,
                        #[trigger] store.backers[i],
                    ) ==> !tried_before(store.current_backer, store.backers[i], b)
            },
            None => forall|i: int|
                0 <= i < store.backers.len() ==> !s.recovers_through(
                    store,
                    owner,
                    #[trigger] store.backers[i],
                ),
        }),
{
    lemma_recovery_first(s, store, owner, store.backers.len() as int);
}

proof fn lemma_recovery_first(s: StateView, store: LoadedView, owner: [u8; 32], n: int)
    requires
        0 <= n <= store.backers.len(),
    ensures
        (match s.recovery_backer(store, owner, n) {
            Some(b) => {
                &&& store.backers.contains(b)
                &&& s.recovers_through(store, owner, b)
                &&& forall|i: int|
                    0 <= i < n && s.recovers_through(store, owner, #[trigger] store.backers[i])
                        ==> !tried_before(store.current_backer, store.backers[i], b)
            },
            None => forall|i: int|
                0 <= i < n ==> !s.recovers_through(store, owner, #[trigger] store.backers[i]),
        }),
    decreases n,
{
    if n > 0 {
        lemma_recovery_first(s, store, owner, n - 1);
        let b = store.backers[n - 1];
        assert(store.backers.contains(b));
        lemma_tried_before_order(store.current_backer, b, b, b);
        if let Some(other) = s.recovery_backer(store, owner, n - 1) {
            if s.recovery_backer(store, owner, n) == Some(b) {
                assert forall|i: int|
                    0 <= i < n && s.recovers_through(
                        store,
                        owner,
                        #[trigger] store.backers[i],
                    ) implies !tried_before(store.current_backer, store.backers[i], b) by {
                    lemma_tried_before_order(store.current_backer, store.backers[i], b, other);
                }
            }
        }
    }
}

proof fn lemma_tried_before_order(
    current: Option<[u8; 32]>,
    a: [u8; 32],
    b: [u8; 32],
    c: [u8; 32],
)
    ensures
        !tried_before(current, a, a),
        tried_before(current, a, b) && tried_before(current, b, c) ==> tried_before(current, a, c),
{
    bytes::byte_order_is_total(a@, a@);
    if bytes::bytes_before(a@, b@) && bytes::bytes_before(b@, c@) {
        bytes::byte_order_is_transitive(a@, b@, c@);
    }
}

/// A pair is asked about once: after custody was started, taking the request
/// away without an answer does not let the same backer be asked again.
pub proof fn a_declined_prompt_is_not_asked_again(
    s: StateView,
    id: Seq<u8>,
    now_ms: u64,
)
    requires
        !s.vault_busy(),
        s.custody_needed(id) is Some,
    ensures
        ({
            let owner = s.loaded_owner(id)->0;
            let asked = s.custody_needed(id)->0.backer;
            let later = s.custody_started(id, now_ms).custody_taken(owner);
            &&& s.custody_started(id, now_ms).pending.dom().contains(owner)
            &&& s.custody_started(id, now_ms).custody_needed(id) is None
            &&& later.custody_needed(id) matches Some(next) ==> next.backer != asked
        }),
{
    let owner = s.loaded_owner(id)->0;
    let asked = s.custody_needed(id)->0.backer;
    let later = s.custody_started(id, now_ms).custody_taken(owner);
    if later.custody_needed(id) is Some {
        custody_fits_the_store(later, id);
        assert(later.attempted.contains((owner, asked)));
    }
}

/// An answer to a request that is no longer under way changes nothing, where
/// it is a failure, and never touches the request that is.
pub proof fn a_stale_answer_leaves_the_live_request(
    s: StateView,
    store: [u8; 32],
    request_id: u64,
    wrapped: Result<CopyView, Seq<char>>,
    why: Option<Seq<char>>,
    mailbox: Option<Seq<u8>>,
    now_ms: u64,
)
    requires
        !s.answers(store, request_id),
    ensures
        s.key_wrapped(store, request_id, wrapped, now_ms) == s,
        why is Some ==> s.key_recovered_inner(store, request_id, why, mailbox) == s,
        s.key_recovered_inner(store, request_id, why, mailbox).pending == s.pending,
        s.key_recovered_inner(store, request_id, why, mailbox).my_stores == s.my_stores,
{
    let h = StateView { held: s.held.insert(store, true), ..s };
    lemma_conversations_keep_rest(
        h.told(recovered_words()).asked_subkeys(store),
        h.my_stores,
        store,
    );
}

/// A registered store keeps the registration it has when its key comes back,
/// and the seller is told on the transition to held and at no other time.
pub proof fn a_registered_store_keeps_its_registration(
    s: StateView,
    store: [u8; 32],
    request_id: u64,
    why: Option<Seq<char>>,
    mailbox: Option<Seq<u8>>,
)
    requires
        s.registered(store),
    ensures
        s.key_recovered_inner(store, request_id, why, mailbox).my_stores == s.my_stores,
        why is None ==> s.key_recovered_inner(store, request_id, why, mailbox).known_held(store),
        why is None ==> s.key_recovered_inner(store, request_id, why, mailbox).notes == (
        if s.known_held(store) {
            s.notes
        } else {
            s.notes.push(recovered_words())
        }),
        why is Some && s.known_held(store) ==> s.key_recovered_inner(
            store,
            request_id,
            why,
            mailbox,
        ).notes == s.notes,
{
    let h = StateView { held: s.held.insert(store, true), ..s };
    lemma_conversations_keep_rest(
        h.told(recovered_words()).asked_subkeys(store),
        h.my_stores,
        store,
    );
}

/// A failed send lets the pair be tried again until the last permitted one,
/// which is said; after that it is neither tried again nor said.
pub proof fn send_failures_are_bounded(s: StateView, store: [u8; 32], why: Seq<char>)
    requires
        s.pending.dom().contains(store),
    ensures
        ({
            let pair = (store, s.pending[store].backer);
            let before: int = if s.failures.dom().contains(pair) {
                s.failures[pair] as int
            } else {
                0
            };
            let after = s.custody_send_failed(store, why);
            &&& after.failures.dom().contains(pair)
            &&& after.failures[pair] == (if before < u8::MAX {
                before + 1
            } else {
                before
            })
            &&& before + 1 < MAX_CUSTODY_SEND_ATTEMPTS ==> !after.attempted.contains(pair)
                && after.notes == s.notes
            &&& before + 1 == MAX_CUSTODY_SEND_ATTEMPTS ==> after.attempted == s.attempted
                && after.notes == s.notes.push(send_failed_words(why))
            &&& before + 1 > MAX_CUSTODY_SEND_ATTEMPTS ==> after.attempted == s.attempted
                && after.notes == s.notes
            &&& !after.pending.dom().contains(store) && !after.started.dom().contains(store)
        }),
{
}

/// When a store's derived keys will not come, nothing is left waiting for
/// them, they can be asked for again, and an edit that waited no longer holds
/// the vault.
pub proof fn a_subkeys_failure_frees_what_waited(s: StateView, store: [u8; 32], why: Seq<char>)
    ensures
        !s.waiters_released(store, why).creation_waits(store),
        !s.waiters_released(store, why).edit_waits(store),
        !s.waiters_released(store, why).subkeys_requested.contains(store),
        s.edit_waits(store) && s.signatures.len() == 0 && s.listings_waiting == 0 && s.pending
            == Map::<[u8; 32], RequestView>::empty() ==> s.vault_busy() && !s.waiters_released(
            store,
            why,
        ).vault_busy(),
        s.release_is_said(store) <==> s.waiters_released(store, why).notes != s.notes,
{
    let r = s.waiters_released(store, why);
    if s.release_is_said(store) {
        assert(r.notes.len() > s.notes.len());
    }
}

/// A record key that disagrees with the published one blocks the store until
/// a check agrees, and is said when the block begins and not again.
pub proof fn a_record_key_block_follows_the_published_key(
    s: StateView,
    store: [u8; 32],
    record: Seq<u8>,
)
    ensures
        s.record_key_checked(store, record).mismatch.contains(store) <==> (
        s.published_record_key(store) is Some && s.published_record_key(store) != Some(record)),
        s.record_key_checked(store, record).record_key_checked(store, record)
            == s.record_key_checked(store, record),
{
    let t = s.record_key_checked(store, record);
    assert(t.record_key_checked(store, record) =~= t);
}

/// A store's copy for a backer under a scope is the first of its copies that
/// has both that backer and that scope, and it has none only where no copy
/// has both.
pub proof fn a_copy_has_both_its_backer_and_its_scope(
    store: LoadedView,
    backer: [u8; 32],
    scope: [u8; 32],
)
    ensures
        (match copy_of(store, backer, scope) {
            Some(copy) => exists|i: int|
                {
                    &&& 0 <= i < store.copies.len()
                    &&& #[trigger] store.copies[i] == copy
                    &&& copy.backer == backer
                    &&& copy.scope == scope
                    &&& forall|j: int|
                        0 <= j < i ==> (#[trigger] store.copies[j]).backer != backer
                            || store.copies[j].scope != scope
                },
            None => forall|i: int|
                0 <= i < store.copies.len() ==> (#[trigger] store.copies[i]).backer != backer
                    || store.copies[i].scope != scope,
        }),
{
    seqs::the_first_that_passes_is_found(
        store.copies,
        |c: CopyView| c.backer == backer && c.scope == scope,
    );
}

/// What the state holds under a name is the first entry of that name, and it
/// holds nothing there only where no entry has the name: a Ghost Key by its
/// verifying key, a loaded store by its contract, the key of a registered
/// store by the contract of a registration that has one, and where a store
/// was moved to by the contract it was moved from.
pub proof fn the_first_entry_of_a_name_is_read(s: StateView, key: [u8; 32], id: Seq<u8>)
    ensures
        (match s.connected(key) {
            Some(fingerprint) => exists|i: int|
                {
                    &&& 0 <= i < s.ghostkeys.len()
                    &&& (#[trigger] s.ghostkeys[i]).key == Some(key@)
                    &&& s.ghostkeys[i].fingerprint == fingerprint
                    &&& forall|j: int|
                        0 <= j < i ==> (#[trigger] s.ghostkeys[j]).key != Some(key@)
                },
            None => forall|i: int|
                0 <= i < s.ghostkeys.len() ==> (#[trigger] s.ghostkeys[i]).key != Some(key@),
        }),
        (match s.store_at(id) {
            Some(store) => exists|i: int|
                {
                    &&& 0 <= i < s.stores.len()
                    &&& #[trigger] s.stores[i] == store
                    &&& store.contract_id == id
                    &&& forall|j: int| 0 <= j < i ==> (#[trigger] s.stores[j]).contract_id != id
                },
            None => forall|i: int|
                0 <= i < s.stores.len() ==> (#[trigger] s.stores[i]).contract_id != id,
        }),
        (match s.owner_key(id) {
            Some(owner) => exists|i: int|
                {
                    &&& 0 <= i < s.my_stores.len()
                    &&& (#[trigger] s.my_stores[i]).registration.store_contract_id == id
                    &&& s.my_stores[i].registration.store_verifying_key == Some(owner)
                    &&& forall|j: int|
                        0 <= j < i ==> (#[trigger] s.my_stores[j]).registration.store_contract_id
                            != id || s.my_stores[j].registration.store_verifying_key is None
                },
            None => forall|i: int|
                0 <= i < s.my_stores.len() ==> (
                #[trigger] s.my_stores[i]).registration.store_contract_id != id
                    || s.my_stores[i].registration.store_verifying_key is None,
        }),
        (match s.moved_to(id) {
            Some(to) => exists|i: int|
                {
                    &&& 0 <= i < s.migrated.len()
                    &&& (#[trigger] s.migrated[i]).0 == id
                    &&& s.migrated[i].1 == to
                    &&& forall|j: int| 0 <= j < i ==> (#[trigger] s.migrated[j]).0 != id
                },
            None => forall|i: int| 0 <= i < s.migrated.len() ==> (#[trigger] s.migrated[i]).0 != id,
        }),
{
    seqs::the_first_that_passes_is_found(s.ghostkeys, |k: GhostKeyView| k.key == Some(key@));
    seqs::the_first_that_passes_is_found(s.stores, |l: LoadedView| l.contract_id == id);
    seqs::the_first_that_passes_is_found(
        s.my_stores,
        |o: OwnedView|
            o.registration.store_contract_id == id && o.registration.store_verifying_key is Some,
    );
    lemma_moved_to(s, id);
}

proof fn lemma_moved_to(s: StateView, id: Seq<u8>)
    ensures
        (match s.moved_to(id) {
            Some(to) => exists|i: int|
                {
                    &&& 0 <= i < s.migrated.len()
                    &&& (#[trigger] s.migrated[i]).0 == id
                    &&& s.migrated[i].1 == to
                    &&& forall|j: int| 0 <= j < i ==> (#[trigger] s.migrated[j]).0 != id
                },
            None => forall|i: int| 0 <= i < s.migrated.len() ==> (#[trigger] s.migrated[i]).0 != id,
        }),
    decreases s.migrated.len(),
{
    if s.migrated.len() > 0 && s.migrated[0].0 != id {
        let rest = StateView { migrated: s.migrated.skip(1), ..s };
        lemma_moved_to(rest, id);
        assert(s.moved_to(id) == rest.moved_to(id));
        if s.moved_to(id) is Some {
            let i = choose|i: int|
                {
                    &&& 0 <= i < rest.migrated.len()
                    &&& (#[trigger] rest.migrated[i]).0 == id
                    &&& rest.migrated[i].1 == s.moved_to(id)->0
                    &&& forall|j: int| 0 <= j < i ==> (#[trigger] rest.migrated[j]).0 != id
                };
            assert(s.migrated[i + 1] == rest.migrated[i]);
            assert forall|j: int| 0 <= j < i + 1 implies (#[trigger] s.migrated[j]).0 != id by {
                if j > 0 {
                    assert(s.migrated[j] == rest.migrated[j - 1]);
                }
            }
        } else {
            assert forall|i: int| 0 <= i < s.migrated.len() implies (
            #[trigger] s.migrated[i]).0 != id by {
                if i > 0 {
                    assert(s.migrated[i] == rest.migrated[i - 1]);
                }
            }
        }
    }
}

/// A store loaded here, registered here under its own key, whose key is held,
/// and not moved away, calls for a wrap to its current backer exactly where
/// nothing is under way for it, that backer is connected and was not tried,
/// and none of its copies has both that backer and the current scope.
pub proof fn a_held_key_is_wrapped_where_its_backer_has_no_copy(
    s: StateView,
    id: Seq<u8>,
    n: int,
    m: int,
    owner: [u8; 32],
)
    requires
        forall|i: int| 0 <= i < s.migrated.len() ==> (#[trigger] s.migrated[i]).0 != id,
        0 <= n < s.stores.len(),
        s.stores[n].contract_id == id,
        forall|i: int| 0 <= i < n ==> (#[trigger] s.stores[i]).contract_id != id,
        s.stores[n].owner == Some(owner),
        0 <= m < s.my_stores.len(),
        s.my_stores[m].registration.store_contract_id == id,
        s.my_stores[m].registration.store_verifying_key == Some(owner),
        forall|i: int|
            0 <= i < m ==> (#[trigger] s.my_stores[i]).registration.store_contract_id != id
                || s.my_stores[i].registration.store_verifying_key is None,
        s.held.dom().contains(owner) ==> s.held[owner],
    ensures
        s.custody_needed(id) is Some <==> {
            &&& !s.pending.dom().contains(owner)
            &&& s.stores[n].current_backer matches Some(backer)
            &&& !s.attempted.contains((owner, backer))
            &&& forall|c: int|
                0 <= c < s.stores[n].copies.len() ==> (#[trigger] s.stores[n].copies[c]).backer
                    != backer || s.stores[n].copies[c].scope != s.scope
            &&& exists|k: int|
                0 <= k < s.ghostkeys.len() && (#[trigger] s.ghostkeys[k]).key == Some(backer@)
        },
        s.custody_needed(id) matches Some(request) ==> {
            &&& request.purpose is Wrap
            &&& s.stores[n].current_backer == Some(request.backer)
            &&& request.store_contract_id == id
            &&& request.request_id is None
            &&& exists|k: int|
                {
                    &&& 0 <= k < s.ghostkeys.len()
                    &&& (#[trigger] s.ghostkeys[k]).key == Some(request.backer@)
                    &&& s.ghostkeys[k].fingerprint == request.fingerprint
                }
        },
{
    the_first_entry_of_a_name_is_read(s, owner, id);
    seqs::lemma_find_first(s.stores, |l: LoadedView| l.contract_id == id, n);
    seqs::lemma_find_first(
        s.my_stores,
        |o: OwnedView|
            o.registration.store_contract_id == id && o.registration.store_verifying_key is Some,
        m,
    );
    assert(s.moved_to(id) is None);
    assert(s.store_at(id) == Some(s.stores[n]));
    assert(s.owner_key(id) == Some(owner));
    if let Some(backer) = s.stores[n].current_backer {
        a_copy_has_both_its_backer_and_its_scope(s.stores[n], backer, s.scope);
        the_first_entry_of_a_name_is_read(s, backer, id);
    }
}

/// A store that was moved away, is not loaded here, or says no key of its own
/// calls for no custody.
pub proof fn a_store_out_of_reach_calls_for_no_custody(s: StateView, id: Seq<u8>)
    requires
        (exists|i: int| 0 <= i < s.migrated.len() && (#[trigger] s.migrated[i]).0 == id) || (forall|
            i: int,
        |
            0 <= i < s.stores.len() && (#[trigger] s.stores[i]).contract_id == id
                ==> s.stores[i].owner is None),
    ensures
        s.custody_needed(id) is None,
{
    the_first_entry_of_a_name_is_read(s, s.scope, id);
}

/// A store loaded here, not moved away, with nothing under way for it, whose
/// key this device does not both have registered there and hold, calls for a
/// recovery exactly where one of its unretired backers is connected, was not
/// tried and has a copy under the current scope. The backer asked is the
/// current one where it is among those, and else the first of those by its
/// bytes; what is unwrapped is a copy for that backer under that scope.
pub proof fn a_lost_key_is_recovered_through_the_first_backer_that_can(
    s: StateView,
    id: Seq<u8>,
    n: int,
    owner: [u8; 32],
)
    requires
        forall|i: int| 0 <= i < s.migrated.len() ==> (#[trigger] s.migrated[i]).0 != id,
        0 <= n < s.stores.len(),
        s.stores[n].contract_id == id,
        forall|i: int| 0 <= i < n ==> (#[trigger] s.stores[i]).contract_id != id,
        s.stores[n].owner == Some(owner),
        !s.pending.dom().contains(owner),
        (s.held.dom().contains(owner) && !s.held[owner]) || (forall|i: int|
            0 <= i < s.my_stores.len() && (#[trigger] s.my_stores[i]).registration.store_contract_id
                == id ==> s.my_stores[i].registration.store_verifying_key != Some(owner)),
    ensures
        ({
            let store = s.stores[n];
            let can = |b: [u8; 32]|
                {
                    &&& store.backers.contains(b)
                    &&& !store.retired.contains(b)
                    &&& !s.attempted.contains((owner, b))
                    &&& exists|c: int|
                        0 <= c < store.copies.len() && (#[trigger] store.copies[c]).backer == b
                            && store.copies[c].scope == s.scope
                    &&& exists|k: int|
                        0 <= k < s.ghostkeys.len() && (#[trigger] s.ghostkeys[k]).key == Some(b@)
                };
            match s.custody_needed(id) {
                Some(request) => {
                    &&& can(request.backer)
                    &&& store.current_backer matches Some(current) ==> (can(current)
                        ==> request.backer == current)
                    &&& store.current_backer != Some(request.backer) ==> forall|b: [u8; 32]| #[trigger]
                        can(b) && b@ != request.backer@ ==> bytes::bytes_before(
                            request.backer@,
                            b@,
                        )
                    &&& request.purpose matches PurposeView::Recover(wrapped) && exists|c: int|
                        0 <= c < store.copies.len() && (#[trigger] store.copies[c]).backer
                            == request.backer && store.copies[c].scope == s.scope
                            && store.copies[c].wrapped == wrapped
                    &&& exists|k: int|
                        0 <= k < s.ghostkeys.len() && (#[trigger] s.ghostkeys[k]).key == Some(
                            request.backer@,
                        ) && s.ghostkeys[k].fingerprint == request.fingerprint
                    &&& request.store_contract_id == id
                    &&& request.request_id is None
                },
                None => forall|b: [u8; 32]| !(#[trigger] can(b)),
            }
        }),
{
    let store = s.stores[n];
    let can = |b: [u8; 32]|
        {
            &&& store.backers.contains(b)
            &&& !store.retired.contains(b)
            &&& !s.attempted.contains((owner, b))
            &&& exists|c: int|
                0 <= c < store.copies.len() && (#[trigger] store.copies[c]).backer == b
                    && store.copies[c].scope == s.scope
            &&& exists|k: int|
                0 <= k < s.ghostkeys.len() && (#[trigger] s.ghostkeys[k]).key == Some(b@)
        };
    the_first_entry_of_a_name_is_read(s, owner, id);
    seqs::lemma_find_first(s.stores, |l: LoadedView| l.contract_id == id, n);
    assert(s.store_at(id) == Some(store));
    assert(s.moved_to(id) is None);
    assert(!(s.owner_key(id) == Some(owner) && s.holds(owner)));
    assert(s.custody_needed(id) == s.recovery_needed(id, store, owner));
    assert forall|b: [u8; 32]| #[trigger] can(b) <==> store.backers.contains(b)
        && s.recovers_through(store, owner, b) by {
        a_copy_has_both_its_backer_and_its_scope(store, b, s.scope);
        the_first_entry_of_a_name_is_read(s, b, id);
    }
    recovery_tries_the_first_backer(s, store, owner);
    if let Some(request) = s.custody_needed(id) {
        let chosen = request.backer;
        assert(can(chosen));
        a_copy_has_both_its_backer_and_its_scope(store, chosen, s.scope);
        the_first_entry_of_a_name_is_read(s, chosen, id);
        if let Some(current) = store.current_backer {
            if can(current) {
                let i = store.backers.index_of(current);
                assert(!tried_before(store.current_backer, store.backers[i], chosen));
            }
        }
        if store.current_backer != Some(chosen) {
            assert forall|b: [u8; 32]| #[trigger]
                can(b) && b@ != chosen@ implies bytes::bytes_before(chosen@, b@) by {
                let i = store.backers.index_of(b);
                assert(!tried_before(store.current_backer, store.backers[i], chosen));
                bytes::byte_order_is_total(b@, chosen@);
            }
        }
    } else {
        assert forall|b: [u8; 32]| !(#[trigger] can(b)) by {
            if can(b) {
                let i = store.backers.index_of(b);
                assert(!s.recovers_through(store, owner, store.backers[i]));
            }
        }
    }
}

/// The delegate holds a key unless it has said that it does not, is known to
/// hold one only where it has said so, and a store is registered here where
/// some registration has its key.
pub proof fn a_key_is_held_until_the_delegate_says_otherwise(s: StateView, key: [u8; 32])
    ensures
        !s.held.dom().contains(key) ==> s.holds(key) && !s.known_held(key),
        s.held.dom().contains(key) && s.held[key] ==> s.holds(key) && s.known_held(key),
        s.held.dom().contains(key) && !s.held[key] ==> !s.holds(key) && !s.known_held(key),
        s.registered(key) <==> exists|i: int|
            0 <= i < s.my_stores.len() && Some(key) == (
            #[trigger] s.my_stores[i]).registration.store_verifying_key,
{
}

/// Work parked under a contract signs with the key registered there, and
/// where there is none with the key registered where this session moved the
/// store to.
pub proof fn parked_work_follows_a_moved_store(s: StateView, id: Seq<u8>)
    ensures
        s.owner_key(id) is Some ==> s.work_key(id) == s.owner_key(id),
        s.owner_key(id) is None && s.moved_to(id) is None ==> s.work_key(id) is None,
        s.owner_key(id) is None && s.moved_to(id) is Some ==> s.work_key(id) == s.owner_key(
            s.moved_to(id)->0,
        ),
{
}

/// The seller waits on the vault exactly where a signature of theirs, an
/// edit, a listing or a custody request is under way, and the vault is busy
/// where the seller or any signature waits.
pub proof fn the_vault_is_busy_while_anything_waits(s: StateView)
    ensures
        s.vault_busy() <==> {
            ||| s.signatures.len() > 0
            ||| s.edit is Some
            ||| s.listings_waiting > 0
            ||| exists|owner: [u8; 32]| #[trigger] s.pending.dom().contains(owner)
        },
        s.seller_waits() <==> {
            ||| exists|i: int|
                0 <= i < s.signatures.len() && #[trigger] s.signatures[i]
                    == PendingSignature::Seller
            ||| s.edit is Some
            ||| s.listings_waiting > 0
            ||| exists|owner: [u8; 32]| #[trigger] s.pending.dom().contains(owner)
        },
{
    if s.signatures.len() > 0 {
        assert(s.signatures.contains(s.signatures[0]));
    }
    if forall|owner: [u8; 32]| !(#[trigger] s.pending.dom().contains(owner)) {
        assert(s.pending =~= Map::<[u8; 32], RequestView>::empty());
    } else {
        let owner = choose|owner: [u8; 32]| #[trigger] s.pending.dom().contains(owner);
        assert(!Map::<[u8; 32], RequestView>::empty().dom().contains(owner));
    }
}

/// While anything waits on the vault, deciding custody changes nothing, for
/// one store or for all of them.
pub proof fn nothing_is_started_while_the_vault_is_busy(
    s: StateView,
    id: Seq<u8>,
    ids: Seq<Seq<u8>>,
    now_ms: u64,
)
    requires
        s.signatures.len() > 0 || s.edit is Some || s.listings_waiting > 0 || exists|
            owner: [u8; 32],
        | #[trigger] s.pending.dom().contains(owner),
    ensures
        s.custody_started(id, now_ms) == s,
        s.custody_started_each(ids, now_ms) == s,
        s.custody_started_everywhere(now_ms) == s,
{
    the_vault_is_busy_while_anything_waits(s);
    lemma_busy_each(s, ids, now_ms);
    lemma_busy_each(s, s.loaded_ids(), now_ms);
}

proof fn lemma_busy_each(s: StateView, ids: Seq<Seq<u8>>, now_ms: u64)
    requires
        s.vault_busy(),
    ensures
        s.custody_started_each(ids, now_ms) == s,
    decreases ids.len(),
{
    if ids.len() > 0 {
        lemma_busy_each(s, ids.drop_last(), now_ms);
    }
}

/// A request that is started is the one custody calls for: it is under way
/// from now, its pair counts as tried, and the vault is asked through the
/// backer's Ghost Key. Before a wrap the store's derived keys are asked for,
/// once. Nothing else changes, and nothing is said.
pub proof fn a_started_request_is_recorded_and_sent(
    s: StateView,
    id: Seq<u8>,
    now_ms: u64,
    owner: [u8; 32],
    request: RequestView,
)
    requires
        s.signatures.len() == 0,
        s.edit is None,
        s.listings_waiting == 0,
        forall|a: [u8; 32]| !(#[trigger] s.pending.dom().contains(a)),
        s.custody_needed(id) == Some(request),
        s.store_at(id) matches Some(store) && store.owner == Some(owner),
    ensures
        ({
            let t = s.custody_started(id, now_ms);
            let ask = ErrandView::AskVault(request.fingerprint, owner);
            let keys = request.purpose is Wrap && !s.subkeys_requested.contains(owner);
            &&& t.pending == Map::<[u8; 32], RequestView>::empty().insert(owner, request)
            &&& t.started.dom().contains(owner) && t.started[owner] == now_ms
            &&& t.attempted == s.attempted.insert((owner, request.backer))
            &&& keys ==> t.errands == s.errands.push(ErrandView::AskSubkeys(s.next_id, owner)).push(
                ask,
            ) && t.subkeys_requested == s.subkeys_requested.insert(owner) && (s.next_id < u64::MAX
                ==> t.next_id == s.next_id + 1)
            &&& !keys ==> t.errands == s.errands.push(ask) && t.subkeys_requested
                == s.subkeys_requested && t.next_id == s.next_id
            &&& t.notes == s.notes && t.held == s.held && t.my_stores == s.my_stores && t.stores
                == s.stores && t.failures == s.failures && t.announced == s.announced
            &&& forall|a: [u8; 32]|
                a != owner && #[trigger] t.started.dom().contains(a) ==> s.started.dom().contains(a)
                    && t.started[a] == s.started[a]
        }),
{
    the_vault_is_busy_while_anything_waits(s);
    assert(s.pending =~= Map::<[u8; 32], RequestView>::empty());
}

/// A store registered here under its own key, loaded and not closed, whose
/// key the delegate said it does not hold, with no custody for it, is said to
/// be out of reach where no connected, unretired backer of it has a copy
/// under the current scope; and that once. Otherwise nothing changes.
pub proof fn a_key_that_cannot_be_recovered_is_said_once(
    s: StateView,
    id: Seq<u8>,
    n: int,
    m: int,
    owner: [u8; 32],
    now_ms: u64,
)
    requires
        0 <= n < s.stores.len(),
        s.stores[n].contract_id == id,
        forall|i: int| 0 <= i < n ==> (#[trigger] s.stores[i]).contract_id != id,
        s.stores[n].owner == Some(owner),
        0 <= m < s.my_stores.len(),
        s.my_stores[m].registration.store_contract_id == id,
        s.my_stores[m].registration.store_verifying_key == Some(owner),
        forall|i: int|
            0 <= i < m ==> (#[trigger] s.my_stores[i]).registration.store_contract_id != id
                || s.my_stores[i].registration.store_verifying_key is None,
        s.signatures.len() == 0,
        s.edit is None,
        s.listings_waiting == 0,
        forall|a: [u8; 32]| !(#[trigger] s.pending.dom().contains(a)),
        s.custody_needed(id) is None,
    ensures
        ({
            let t = s.custody_started(id, now_ms);
            let store = s.stores[n];
            let said = {
                &&& s.held.dom().contains(owner) && !s.held[owner]
                &&& !store.closed
                &&& !s.announced.contains(owner)
                &&& !exists|i: int, c: int, k: int|
                    {
                        &&& 0 <= i < store.backers.len()
                        &&& 0 <= c < store.copies.len()
                        &&& 0 <= k < s.ghostkeys.len()
                        &&& !store.retired.contains(#[trigger] store.backers[i])
                        &&& (#[trigger] store.copies[c]).backer == store.backers[i]
                        &&& store.copies[c].scope == s.scope
                        &&& (#[trigger] s.ghostkeys[k]).key == Some(store.backers[i]@)
                    }
            };
            &&& said ==> t.notes == s.notes.push(unrecoverable_words()) && t.announced
                == s.announced.insert(owner)
            &&& !said ==> t == s
            &&& t.custody_started(id, now_ms) == t
        }),
{
    let store = s.stores[n];
    let t = s.custody_started(id, now_ms);
    the_vault_is_busy_while_anything_waits(s);
    the_vault_is_busy_while_anything_waits(t);
    seqs::lemma_find_first(s.stores, |l: LoadedView| l.contract_id == id, n);
    seqs::lemma_find_first(
        s.my_stores,
        |o: OwnedView|
            o.registration.store_contract_id == id && o.registration.store_verifying_key is Some,
        m,
    );
    assert(s.store_at(id) == Some(store));
    assert(s.owner_key(id) == Some(owner));
    let covered = exists|i: int, c: int, k: int|
        {
            &&& 0 <= i < store.backers.len()
            &&& 0 <= c < store.copies.len()
            &&& 0 <= k < s.ghostkeys.len()
            &&& !store.retired.contains(#[trigger] store.backers[i])
            &&& (#[trigger] store.copies[c]).backer == store.backers[i]
            &&& store.copies[c].scope == s.scope
            &&& (#[trigger] s.ghostkeys[k]).key == Some(store.backers[i]@)
        };
    if s.a_backer_has_a_copy(store) {
        let i = choose|i: int|
            0 <= i < store.backers.len() && !store.retired.contains(#[trigger] store.backers[i])
                && copy_of(store, store.backers[i], s.scope) is Some && s.connected(
                store.backers[i],
            ) is Some;
        let b = store.backers[i];
        a_copy_has_both_its_backer_and_its_scope(store, b, s.scope);
        the_first_entry_of_a_name_is_read(s, b, id);
        let c = choose|c: int|
            0 <= c < store.copies.len() && (#[trigger] store.copies[c]).backer == b
                && store.copies[c].scope == s.scope;
        let k = choose|k: int|
            0 <= k < s.ghostkeys.len() && (#[trigger] s.ghostkeys[k]).key == Some(b@);
        assert(store.copies[c].backer == store.backers[i] && s.ghostkeys[k].key == Some(
            store.backers[i]@,
        ));
        assert(covered);
    }
    if covered {
        let (i, c, k) = choose|i: int, c: int, k: int|
            {
                &&& 0 <= i < store.backers.len()
                &&& 0 <= c < store.copies.len()
                &&& 0 <= k < s.ghostkeys.len()
                &&& !store.retired.contains(#[trigger] store.backers[i])
                &&& (#[trigger] store.copies[c]).backer == store.backers[i]
                &&& store.copies[c].scope == s.scope
                &&& (#[trigger] s.ghostkeys[k]).key == Some(store.backers[i]@)
            };
        a_copy_has_both_its_backer_and_its_scope(store, store.backers[i], s.scope);
        the_first_entry_of_a_name_is_read(s, store.backers[i], id);
        assert(s.a_backer_has_a_copy(store));
    }
    assert(covered <==> s.a_backer_has_a_copy(store));
    if t != s {
        assert(t.stores == s.stores && t.my_stores == s.my_stores && t.pending == s.pending);
        assert(t.store_at(id) == s.store_at(id));
        assert(t.moved_to(id) == s.moved_to(id));
        lemma_same_recovery(s, t, store, owner, store.backers.len() as int);
        assert(t.custody_needed(id) is None);
    }
}

proof fn lemma_same_recovery(
    s: StateView,
    t: StateView,
    store: LoadedView,
    owner: [u8; 32],
    n: int,
)
    requires
        t.ghostkeys == s.ghostkeys,
        t.attempted == s.attempted,
        t.scope == s.scope,
    ensures
        t.recovery_backer(store, owner, n) == s.recovery_backer(store, owner, n),
    decreases n,
{
    if n > 0 {
        lemma_same_recovery(s, t, store, owner, n - 1);
    }
}

/// Deciding custody for stores in turn keeps every request under way and its
/// timestamp, and what was said and sent; what it starts, it starts now.
proof fn lemma_started_each_adds(s: StateView, ids: Seq<Seq<u8>>, now_ms: u64)
    ensures
        ({
            let t = s.custody_started_each(ids, now_ms);
            &&& s.notes.is_prefix_of(t.notes)
            &&& s.errands.is_prefix_of(t.errands)
            &&& t.stores == s.stores && t.my_stores == s.my_stores && t.held == s.held
            &&& forall|a: [u8; 32]| #[trigger]
                s.pending.dom().contains(a) ==> t.pending.dom().contains(a) && t.pending[a]
                    == s.pending[a]
            &&& forall|a: [u8; 32]|
                s.pending.dom().contains(a) && #[trigger] s.started.dom().contains(a)
                    ==> t.started.dom().contains(a) && t.started[a] == s.started[a]
            &&& forall|a: [u8; 32]| #[trigger]
                t.pending.dom().contains(a) && !s.pending.dom().contains(a)
                    ==> t.started.dom().contains(a) && t.started[a] == now_ms
        }),
    decreases ids.len(),
{
    if ids.len() > 0 {
        lemma_started_each_adds(s, ids.drop_last(), now_ms);
        let u = s.custody_started_each(ids.drop_last(), now_ms);
        let t = u.custody_started(ids.last(), now_ms);
        if !u.vault_busy() {
            the_vault_is_busy_while_anything_waits(u);
        }
        assert(u.notes.is_prefix_of(t.notes));
        assert(u.errands.is_prefix_of(t.errands));
    }
}

/// A request is given up once it has waited its time, counted from when it
/// was started; one that has not, or has no timestamp, is kept as it is, and
/// where none has, nothing changes. What is given up is said, unless it is
/// the recovery of a registered store whose key is known to be held.
pub proof fn a_request_is_given_up_once_its_time_is_up(
    s: StateView,
    owner: [u8; 32],
    now_ms: u64,
    timeout_ms: u64,
)
    requires
        timeout_ms > 0,
    ensures
        ({
            let t = s.custody_expired(now_ms, timeout_ms);
            let waited = |a: [u8; 32]|
                s.pending.dom().contains(a) && s.started.dom().contains(a) && s.started[a]
                    + timeout_ms <= now_ms;
            &&& (forall|a: [u8; 32]| !(#[trigger] waited(a))) ==> t == s
            &&& s.pending.dom().contains(owner) && !waited(owner) ==> t.pending.dom().contains(owner)
                && t.pending[owner] == s.pending[owner]
            &&& waited(owner) && t.pending.dom().contains(owner) ==> t.started.dom().contains(owner)
                && t.started[owner] == now_ms
            &&& waited(owner) && !(s.registered(owner) && s.pending[owner].purpose is Recover
                && s.known_held(owner)) ==> t.notes.len() > s.notes.len() && t.notes[s.notes.len() as int]
                == timed_out_words()
        }),
{
    let waited = |a: [u8; 32]|
        s.pending.dom().contains(a) && s.started.dom().contains(a) && s.started[a] + timeout_ms
            <= now_ms;
    assert forall|a: [u8; 32]| #[trigger] waited(a) <==> s.timed_out(a, now_ms, timeout_ms) by {}
    let gone = Set::new(|a: [u8; 32]| s.timed_out(a, now_ms, timeout_ms));
    let e = StateView {
        pending: s.pending.remove_keys(gone),
        started: s.started.remove_keys(gone),
        ..s
    };
    let told = e.told(timed_out_words());
    lemma_started_each_adds(e, e.loaded_ids(), now_ms);
    lemma_started_each_adds(told, told.loaded_ids(), now_ms);
    if forall|a: [u8; 32]| !(#[trigger] waited(a)) {
        assert forall|a: [u8; 32]| !(#[trigger] s.timed_out(a, now_ms, timeout_ms)) by {
            assert(!waited(a));
        }
        assert(e.pending =~= s.pending);
        assert(e.started =~= s.started);
    }
    let t = s.custody_expired(now_ms, timeout_ms);
    if waited(owner) {
        assert(s.timed_out(owner, now_ms, timeout_ms));
        assert(gone.contains(owner));
        if !s.already_recovered(owner) {
            assert(t == told.custody_started_everywhere(now_ms));
            assert(t.notes.subrange(0, told.notes.len() as int)[s.notes.len() as int]
                == timed_out_words());
        }
    }
    if s.pending.dom().contains(owner) && !waited(owner) {
        assert(!gone.contains(owner));
        assert(e.pending.dom().contains(owner) && told.pending.dom().contains(owner));
    }
}

/// The vault's signature over a request's message sends the delegate that
/// request, under a fresh number that the request then waits for: its store,
/// its backer and what is to be done are the request's, and the payload and
/// the signature are the vault's. With no delegate, the request is dropped
/// and that is said. A signature that names no request changes nothing.
pub proof fn a_signature_sends_the_request_it_was_asked_for(
    s: StateView,
    store: [u8; 32],
    payload: Seq<u8>,
    signature: Seq<u8>,
)
    ensures
        s.wrap_signed(None, payload, signature) == s,
        !s.pending.dom().contains(store) ==> s.wrap_signed(Some(store), payload, signature) == s,
        s.pending.dom().contains(store) && !s.delegate_registered ==> {
            let t = s.wrap_signed(Some(store), payload, signature);
            &&& t.pending == s.pending.remove(store)
            &&& t.started == s.started.remove(store)
            &&& t.notes == s.notes.push(no_delegate_words())
            &&& t.errands == s.errands
        },
        s.pending.dom().contains(store) && s.delegate_registered ==> {
            let t = s.wrap_signed(Some(store), payload, signature);
            let was = s.pending[store];
            &&& t.errands.len() == s.errands.len() + 1
            &&& t.errands.drop_last() == s.errands
            &&& t.errands.last() matches ErrandView::SendCustody(to, message) && to == store
                && message.request_id == s.next_id && message.store == store && message.backer
                == was.backer && message.purpose == was.purpose && message.scoped_payload
                == payload && message.signature == signature
            &&& t.pending.dom() == s.pending.dom()
            &&& t.pending[store].request_id == Some(s.next_id)
            &&& t.pending[store].backer == was.backer && t.pending[store].purpose == was.purpose
                && t.pending[store].fingerprint == was.fingerprint
                && t.pending[store].store_contract_id == was.store_contract_id
            &&& forall|a: [u8; 32]|
                a != store && #[trigger] s.pending.dom().contains(a) ==> t.pending[a] == s.pending[a]
            &&& t.started == s.started && t.notes == s.notes
            &&& s.next_id < u64::MAX ==> t.next_id == s.next_id + 1
            &&& s.next_id == u64::MAX ==> t.next_id == 0
        },
{
    if s.pending.dom().contains(store) && s.delegate_registered {
        let t = s.wrap_signed(Some(store), payload, signature);
        assert(t.pending.dom() =~= s.pending.dom());
        assert(t.errands.drop_last() =~= s.errands);
    }
}

/// Only an answer with the number of the request under way for the store is
/// taken. A wrapped copy is then published at the contract the request was
/// made for, and a failure is said; either way the request is over, and one
/// under way afterwards is a new one.
pub proof fn a_wrapped_copy_is_published_where_it_was_asked_for(
    s: StateView,
    store: [u8; 32],
    request_id: u64,
    result: Result<CopyView, Seq<char>>,
    now_ms: u64,
)
    ensures
        ({
            let t = s.key_wrapped(store, request_id, result, now_ms);
            let live = s.pending.dom().contains(store) && s.pending[store].request_id == Some(
                request_id,
            );
            &&& !live ==> t == s
            &&& live ==> (t.pending.dom().contains(store) ==> t.started.dom().contains(store)
                && t.started[store] == now_ms)
            &&& live ==> (result matches Ok(copy) ==> t.errands.len() > s.errands.len()
                && t.errands[s.errands.len() as int] == ErrandView::PublishCopy(
                s.pending[store].store_contract_id,
                copy,
            ))
            &&& live ==> (result matches Err(why) ==> t.notes.len() > s.notes.len()
                && t.notes[s.notes.len() as int] == wrap_failed_words(why))
            &&& t.held == s.held && t.my_stores == s.my_stores
        }),
{
    if s.pending.dom().contains(store) && s.pending[store].request_id == Some(request_id) {
        let id = s.pending[store].store_contract_id;
        let taken = s.custody_taken(store);
        let u = match result {
            Ok(copy) => taken.sent_on(ErrandView::PublishCopy(id, copy)),
            Err(why) => taken.told(wrap_failed_words(why)),
        };
        lemma_started_each_adds(u, u.loaded_ids(), now_ms);
        let t = s.key_wrapped(store, request_id, result, now_ms);
        match result {
            Ok(copy) => {
                assert(t.errands.subrange(0, u.errands.len() as int)[s.errands.len() as int]
                    == ErrandView::PublishCopy(id, copy));
            },
            Err(why) => {
                assert(t.notes.subrange(0, u.notes.len() as int)[s.notes.len() as int]
                    == wrap_failed_words(why));
            },
        }
    }
}

/// A recovered key that was not registered here, answering the request under
/// way, is registered under the Ghost Key that was asked: at the contract the
/// request was made for, with the record the loaded store publishes, the
/// mailbox given and the store's own key. Where the store is not loaded,
/// publishes no details, the backer is no key or no mailbox is given, nothing
/// is registered and that is said.
pub proof fn a_recovered_store_is_registered_from_what_it_publishes(
    s: StateView,
    store: [u8; 32],
    request_id: u64,
    mailbox: Option<Seq<u8>>,
)
    requires
        s.pending.dom().contains(store),
        s.pending[store].request_id == Some(request_id),
        forall|i: int|
            0 <= i < s.my_stores.len() ==> (
            #[trigger] s.my_stores[i]).registration.store_verifying_key != Some(store),
    ensures
        ({
            let t = s.key_recovered_inner(store, request_id, None, mailbox);
            let request = s.pending[store];
            let able = {
                &&& s.store_at(request.store_contract_id) matches Some(loaded)
                &&& loaded.info is Some
                &&& mailbox is Some
                &&& crate::keys::is_verifying_key(request.backer@)
            };
            &&& t.held == s.held.insert(store, true)
            &&& t.pending == s.pending.remove(store) && t.started == s.started.remove(store)
            &&& !able ==> t.my_stores == s.my_stores && t.notes == s.notes.push(
                not_registered_words(),
            ) && t.errands == s.errands
            &&& able ==> {
                let loaded = s.store_at(request.store_contract_id)->0;
                let added = t.my_stores.last();
                &&& t.my_stores.len() == s.my_stores.len() + 1
                &&& t.my_stores.drop_last() == s.my_stores
                &&& added.fingerprint == request.fingerprint
                &&& added.registration.store_contract_id == request.store_contract_id
                &&& added.registration.reputation_contract_id == loaded.info->0.reputation_contract_id@
                &&& added.registration.mailbox_contract_id == mailbox->0
                &&& added.registration.store_verifying_key == Some(store)
                &&& t.notes == s.notes.push(recovered_words())
                &&& t.errands.last() == ErrandView::RegisterStore(
                    request.fingerprint,
                    added.registration,
                )
                &&& t.subkeys_requested == s.subkeys_requested.insert(store)
            }
        }),
{
    let t = s.key_recovered_inner(store, request_id, None, mailbox);
    assert(!s.registered(store));
    assert(s.subkeys_requested.contains(store) ==> s.subkeys_requested.insert(store)
        =~= s.subkeys_requested);
    if t.my_stores.len() > s.my_stores.len() {
        assert(t.my_stores.drop_last() =~= s.my_stores);
    }
}

/// A failed recovery that answers the request under way ends it and is said,
/// unless the store is registered and its key is known to be held; nothing is
/// registered and no key is taken as held for it.
pub proof fn a_failed_recovery_is_said(
    s: StateView,
    store: [u8; 32],
    request_id: u64,
    why: Seq<char>,
    mailbox: Option<Seq<u8>>,
)
    requires
        s.pending.dom().contains(store),
        s.pending[store].request_id == Some(request_id),
    ensures
        ({
            let t = s.key_recovered_inner(store, request_id, Some(why), mailbox);
            &&& t.pending == s.pending.remove(store) && t.started == s.started.remove(store)
            &&& t.held == s.held && t.my_stores == s.my_stores && t.errands == s.errands
            &&& t.notes == (if s.registered(store) && s.held.dom().contains(store) && s.held[store] {
                s.notes
            } else {
                s.notes.push(recovery_failed_words(why))
            })
        }),
{
}

/// Conversations are asked for at the contract of each registration with the
/// store's key, in the order of the registrations, and of no other.
pub proof fn conversations_are_asked_for_at_the_stores_contracts(
    s: StateView,
    owned: Seq<OwnedView>,
    more: OwnedView,
    store: [u8; 32],
)
    ensures
        s.asked_conversations(Seq::empty(), store) == s,
        more.registration.store_verifying_key != Some(store) ==> s.asked_conversations(
            owned.push(more),
            store,
        ) == s.asked_conversations(owned, store),
        more.registration.store_verifying_key == Some(store) ==> s.asked_conversations(
            owned.push(more),
            store,
        ).errands == s.asked_conversations(owned, store).errands.push(
            ErrandView::AskConversationKeys(more.registration.store_contract_id),
        ),
{
    assert(owned.push(more).drop_last() =~= owned);
}

/// A registered store whose key comes back and was not known to be held is
/// said to be recovered, and its derived keys are asked for, once a session,
/// before its conversations.
pub proof fn a_key_that_comes_back_is_put_to_use(s: StateView, store: [u8; 32])
    ensures
        ({
            let t = s.key_back(store);
            &&& t.notes == s.notes.push(recovered_words())
            &&& t.subkeys_requested.contains(store)
            &&& t.my_stores == s.my_stores && t.pending == s.pending && t.held == s.held
            &&& t == s.told(recovered_words()).asked_subkeys(store).asked_conversations(
                s.my_stores,
                store,
            )
        }),
{
    lemma_conversations_keep_rest(
        s.told(recovered_words()).asked_subkeys(store),
        s.my_stores,
        store,
    );
}

/// Derived keys are asked for once a session, each time under a fresh number.
pub proof fn derived_keys_are_asked_for_once(s: StateView, store: [u8; 32])
    ensures
        s.subkeys_requested.contains(store) ==> s.asked_subkeys(store) == s,
        !s.subkeys_requested.contains(store) ==> s.asked_subkeys(store).errands == s.errands.push(
            ErrandView::AskSubkeys(s.next_id, store),
        ),
        s.asked_subkeys(store).subkeys_requested.contains(store),
        s.asked_subkeys(store).asked_subkeys(store) == s.asked_subkeys(store),
        !s.subkeys_requested.contains(store) && s.next_id < u64::MAX ==> s.asked_subkeys(
            store,
        ).next_id == s.next_id + 1,
{
}

/// Derived keys that arrive are kept, and a store creation under way for that
/// store takes both of them: the record key and the inbox key. A creation for
/// another store is left as it is, and whatever waited is taken up again.
pub proof fn derived_keys_fill_the_creation_that_waits_for_them(
    s: StateView,
    store: [u8; 32],
    info: SubkeyView,
)
    ensures
        ({
            let t = s.subkeys_arrived(store, info);
            &&& t.subkeys == s.subkeys.insert(store, info)
            &&& s.creation is None ==> t.creation is None
            &&& s.creation matches Some(c) ==> (c.store_verifying_key == Some(store)
                ==> t.creation == Some(
                CreationView {
                    store_verifying_key: Some(store),
                    rsa_public_key_der: Some(info.record_public_key),
                    encryption_public_key: Some(info.inbox_public_key),
                },
            ))
            &&& s.creation matches Some(c) ==> (c.store_verifying_key != Some(store) ==> t.creation
                == s.creation)
            &&& t.errands == s.errands.push(ErrandView::ResumeCreation).push(ErrandView::ResumeEdit)
            &&& t.edit == s.edit && t.pending == s.pending && t.held == s.held
        }),
        s.fills_creation(store) <==> s.subkeys.dom().contains(store) && (s.creation matches Some(c)
            && c.store_verifying_key == Some(store)),
        !s.fills_creation(store) ==> s.creation_filled(store) == s,
{
}

/// A creation waits for a store's derived keys where it is for that store,
/// and an edit where the key its work signs with is the store's. When the
/// keys will not come, each that waited is dropped and said; what waits for
/// another store's keys is kept, and nothing is said of it.
pub proof fn only_what_waited_is_let_go(s: StateView, store: [u8; 32], why: Seq<char>)
    ensures
        ({
            let t = s.waiters_released(store, why);
            let creation = s.creation matches Some(c) && c.store_verifying_key == Some(store);
            let edit = s.edit matches Some(id) && s.work_key(id) == Some(store);
            &&& s.release_is_said(store) <==> creation || edit
            &&& creation ==> t.creation is None && t.creation_in_flight is None
            &&& !creation ==> t.creation == s.creation && t.creation_in_flight
                == s.creation_in_flight
            &&& edit ==> t.edit is None
            &&& !edit ==> t.edit == s.edit
            &&& t.notes.len() == s.notes.len() + (if creation {
                1int
            } else {
                0
            }) + (if edit {
                1int
            } else {
                0
            })
            &&& s.notes.is_prefix_of(t.notes)
            &&& t.subkeys_requested == s.subkeys_requested.remove(store)
            &&& t.pending == s.pending && t.errands == s.errands && t.held == s.held
        }),
{
}

/// The record key a store publishes is read from the first loaded store of
/// that key that publishes one.
pub proof fn a_record_key_is_read_from_the_store_that_publishes_it(s: StateView, store: [u8; 32])
    ensures
        (match s.published_record_key(store) {
            Some(record) => exists|i: int|
                {
                    &&& 0 <= i < s.stores.len()
                    &&& (#[trigger] s.stores[i]).owner == Some(store)
                    &&& s.stores[i].info matches Some(info) && info.record_public_key == Some(record)
                    &&& forall|j: int|
                        0 <= j < i && (#[trigger] s.stores[j]).owner == Some(store)
                            && s.stores[j].info is Some
                            ==> s.stores[j].info->0.record_public_key is None
                },
            None => forall|i: int|
                0 <= i < s.stores.len() && (#[trigger] s.stores[i]).owner == Some(store)
                    && s.stores[i].info is Some ==> s.stores[i].info->0.record_public_key is None,
        }),
{
    seqs::the_first_that_passes_is_found(
        s.stores,
        |l: LoadedView|
            l.owner == Some(store) && l.info is Some && l.info->0.record_public_key is Some,
    );
}

/// A record key that disagrees with the published one is said once, when the
/// block begins; the check changes no more than the block and what is said.
pub proof fn a_record_key_that_disagrees_is_said_once(
    s: StateView,
    store: [u8; 32],
    record: Seq<u8>,
)
    ensures
        ({
            let t = s.record_key_checked(store, record);
            let differs = s.published_record_key(store) matches Some(published) && published
                != record;
            &&& differs && !s.mismatch.contains(store) ==> t.notes == s.notes.push(mismatch_words())
            &&& !(differs && !s.mismatch.contains(store)) ==> t.notes == s.notes
            &&& forall|other: [u8; 32]|
                other != store ==> (#[trigger] t.mismatch.contains(other)
                    <==> s.mismatch.contains(other))
            &&& t == (StateView { mismatch: t.mismatch, notes: t.notes, ..s })
        }),
{
}

/// A pair is sent three times at most, and the third failure is said.
pub proof fn the_third_failed_send_is_the_last(s: StateView, store: [u8; 32], why: Seq<char>)
    requires
        s.pending.dom().contains(store),
        s.failures.dom().contains((store, s.pending[store].backer)),
        s.failures[(store, s.pending[store].backer)] == 2,
    ensures
        s.custody_send_failed(store, why).notes == s.notes.push(send_failed_words(why)),
        s.custody_send_failed(store, why).attempted == s.attempted,
        s.custody_send_failed(store, why).failures[(store, s.pending[store].backer)] == 3,
{
}

/// Two states that differ only in what was said call for the same custody.
proof fn lemma_same_need(s: StateView, t: StateView, id: Seq<u8>)
    requires
        t == (StateView { notes: t.notes, announced: t.announced, ..s }),
    ensures
        t.custody_needed(id) == s.custody_needed(id),
        t.vault_busy() == s.vault_busy(),
        t.loaded_owner(id) == s.loaded_owner(id),
{
    if let Some(store) = s.store_at(id) {
        if let Some(owner) = store.owner {
            lemma_same_recovery(s, t, store, owner, store.backers.len() as int);
        }
    }
}

proof fn lemma_none_started(s: StateView, ids: Seq<Seq<u8>>, now_ms: u64)
    requires
        !s.vault_busy(),
        forall|i: int| 0 <= i < ids.len() ==> s.custody_needed(#[trigger] ids[i]) is None,
    ensures
        ({
            let t = s.custody_started_each(ids, now_ms);
            t == (StateView { notes: t.notes, announced: t.announced, ..s })
        }),
    decreases ids.len(),
{
    if ids.len() > 0 {
        assert forall|i: int| 0 <= i < ids.drop_last().len() implies s.custody_needed(
            #[trigger] ids.drop_last()[i],
        ) is None by {
            assert(ids.drop_last()[i] == ids[i]);
        }
        lemma_none_started(s, ids.drop_last(), now_ms);
        let u = s.custody_started_each(ids.drop_last(), now_ms);
        assert(s.custody_needed(ids[ids.len() - 1]) is None);
        lemma_same_need(s, u, ids.last());
    }
}

proof fn lemma_started_at(s: StateView, ids: Seq<Seq<u8>>, k: int, now_ms: u64)
    requires
        !s.vault_busy(),
        0 <= k < ids.len(),
        s.custody_needed(ids[k]) is Some,
        forall|i: int| 0 <= i < k ==> s.custody_needed(#[trigger] ids[i]) is None,
    ensures
        s.custody_started_each(ids, now_ms).pending == s.custody_started(ids[k], now_ms).pending,
        s.custody_started_each(ids, now_ms).vault_busy(),
    decreases ids.len(),
{
    let rest = ids.drop_last();
    if k < ids.len() - 1 {
        assert(rest[k] == ids[k]);
        assert forall|i: int| 0 <= i < k implies s.custody_needed(#[trigger] rest[i]) is None by {
            assert(rest[i] == ids[i]);
        }
        lemma_started_at(s, rest, k, now_ms);
    } else {
        assert forall|i: int| 0 <= i < rest.len() implies s.custody_needed(
            #[trigger] rest[i],
        ) is None by {
            assert(rest[i] == ids[i]);
        }
        lemma_none_started(s, rest, now_ms);
        let u = s.custody_started_each(rest, now_ms);
        lemma_same_need(s, u, ids[k]);
        let t = u.custody_started(ids[k], now_ms);
        the_vault_is_busy_while_anything_waits(t);
        assert(t.pending.dom().contains(s.loaded_owner(ids[k])->0));
    }
}

/// With nothing waiting, of all the loaded stores the first that calls for
/// custody gets its request started, and no other does; where none calls for
/// any, no request is under way afterwards.
pub proof fn the_first_loaded_store_that_needs_custody_gets_it(s: StateView, k: int, now_ms: u64)
    requires
        s.signatures.len() == 0,
        s.edit is None,
        s.listings_waiting == 0,
        forall|a: [u8; 32]| !(#[trigger] s.pending.dom().contains(a)),
        0 <= k <= s.stores.len(),
        forall|i: int| 0 <= i < k ==> s.custody_needed((#[trigger] s.stores[i]).contract_id) is None,
        k < s.stores.len() ==> s.custody_needed(s.stores[k].contract_id) is Some,
    ensures
        k < s.stores.len() ==> s.custody_started_everywhere(now_ms).pending == s.custody_started(
            s.stores[k].contract_id,
            now_ms,
        ).pending,
        k == s.stores.len() ==> s.custody_started_everywhere(now_ms).pending == s.pending,
{
    the_vault_is_busy_while_anything_waits(s);
    let ids = s.loaded_ids();
    assert forall|i: int| 0 <= i < k implies s.custody_needed(#[trigger] ids[i]) is None by {
        assert(ids[i] == s.stores[i].contract_id);
    }
    if k < s.stores.len() {
        assert(ids[k] == s.stores[k].contract_id);
        lemma_started_at(s, ids, k, now_ms);
    } else {
        lemma_none_started(s, ids, now_ms);
    }
}

/// A connected backer has a copy exactly where one of the store's unretired
/// backers is the key of a connected Ghost Key and the backer of a copy under
/// the current scope, whether it was tried or not.
pub proof fn a_backer_with_a_copy_is_connected_and_unretired(s: StateView, store: LoadedView)
    ensures
        s.a_backer_has_a_copy(store) <==> exists|i: int, c: int, k: int|
            {
                &&& 0 <= i < store.backers.len()
                &&& 0 <= c < store.copies.len()
                &&& 0 <= k < s.ghostkeys.len()
                &&& !store.retired.contains(#[trigger] store.backers[i])
                &&& (#[trigger] store.copies[c]).backer == store.backers[i]
                &&& store.copies[c].scope == s.scope
                &&& (#[trigger] s.ghostkeys[k]).key == Some(store.backers[i]@)
            },
{
    let id = Seq::<u8>::empty();
    if s.a_backer_has_a_copy(store) {
        let i = choose|i: int|
            0 <= i < store.backers.len() && !store.retired.contains(#[trigger] store.backers[i])
                && copy_of(store, store.backers[i], s.scope) is Some && s.connected(
                store.backers[i],
            ) is Some;
        let b = store.backers[i];
        a_copy_has_both_its_backer_and_its_scope(store, b, s.scope);
        the_first_entry_of_a_name_is_read(s, b, id);
        let c = choose|c: int|
            0 <= c < store.copies.len() && (#[trigger] store.copies[c]).backer == b
                && store.copies[c].scope == s.scope;
        let k = choose|k: int|
            0 <= k < s.ghostkeys.len() && (#[trigger] s.ghostkeys[k]).key == Some(b@);
        assert(store.copies[c].backer == store.backers[i] && s.ghostkeys[k].key == Some(
            store.backers[i]@,
        ));
    }
    if exists|i: int, c: int, k: int|
        {
            &&& 0 <= i < store.backers.len()
            &&& 0 <= c < store.copies.len()
            &&& 0 <= k < s.ghostkeys.len()
            &&& !store.retired.contains(#[trigger] store.backers[i])
            &&& (#[trigger] store.copies[c]).backer == store.backers[i]
            &&& store.copies[c].scope == s.scope
            &&& (#[trigger] s.ghostkeys[k]).key == Some(store.backers[i]@)
        } {
        let (i, c, k) = choose|i: int, c: int, k: int|
            {
                &&& 0 <= i < store.backers.len()
                &&& 0 <= c < store.copies.len()
                &&& 0 <= k < s.ghostkeys.len()
                &&& !store.retired.contains(#[trigger] store.backers[i])
                &&& (#[trigger] store.copies[c]).backer == store.backers[i]
                &&& store.copies[c].scope == s.scope
                &&& (#[trigger] s.ghostkeys[k]).key == Some(store.backers[i]@)
            };
        a_copy_has_both_its_backer_and_its_scope(store, store.backers[i], s.scope);
        the_first_entry_of_a_name_is_read(s, store.backers[i], id);
    }
}

/// A store is said to be out of reach exactly where it is loaded and open,
/// registered here under its own key, that key is said not to be held,
/// nothing is under way for it, no connected backer has a copy, and it was
/// not said before. Saying it adds the words and remembers the store.
pub proof fn a_store_out_of_reach_is_said_once(s: StateView, id: Seq<u8>)
    ensures
        ({
            let t = s.noted_unrecoverable(id);
            let said = {
                &&& s.store_at(id) matches Some(store)
                &&& store.owner matches Some(owner)
                &&& s.owner_key(id) == Some(owner)
                &&& s.held.dom().contains(owner) && !s.held[owner]
                &&& !store.closed
                &&& !s.pending.dom().contains(owner)
                &&& !s.a_backer_has_a_copy(store)
                &&& !s.announced.contains(owner)
            };
            &&& !said ==> t == s
            &&& said ==> {
                let owner = s.store_at(id)->0.owner->0;
                &&& t.notes == s.notes.push(unrecoverable_words())
                &&& t.announced == s.announced.insert(owner)
                &&& t == (StateView { notes: t.notes, announced: t.announced, ..s })
            }
            &&& t.noted_unrecoverable(id) == t
        }),
{
    let t = s.noted_unrecoverable(id);
    if t != s {
        assert(t.announced.contains(s.loaded_owner(id)->0));
        assert(t.store_at(id) == s.store_at(id));
    }
}

/// Whatever fails, the seller is told why: the words hold the reason, with
/// words before it.
pub proof fn every_failure_is_told_with_its_reason(s: StateView, store: [u8; 32], why: Seq<char>)
    ensures
        send_failed_words(why) == "Your store's key could not be backed up or recovered: "@ + why
            + ". Reload to try again."@,
        wrap_failed_words(why) == "Your store's key could not be backed up to your Ghost Key: "@
            + why + ". Another device will not be able to recover it until this succeeds."@,
        recovery_failed_words(why)
            == "Your store's key could not be recovered from your Ghost Key: "@ + why,
        subkeys_failed_words(why) == "Your store's derived keys could not be derived: "@ + why
            + ". Reload to try again."@,
        subkeys_unasked_words(why) == "Your store's derived keys could not be asked for: "@ + why
            + ". Reload to try again."@,
        s.edit_waits(store) ==> s.waiters_released(store, why).notes.last()
            == "Your store's details were not published: the keys it publishes them with could not be derived ("@
            + why + ")."@,
        s.creation_waits(store) && !s.edit_waits(store) ==> s.waiters_released(
            store,
            why,
        ).notes.last() == "Store creation failed: "@ + (
        "the store's keys could not be derived: "@ + why),
{
}

/// Taking a request away takes it and its timestamp, and nothing else: no
/// other request, and not that its pair was tried.
pub proof fn taking_a_request_away_changes_nothing_else(
    s: StateView,
    store: [u8; 32],
    other: [u8; 32],
)
    ensures
        ({
            let t = s.custody_taken(store);
            &&& !t.pending.dom().contains(store) && !t.started.dom().contains(store)
            &&& other != store && s.pending.dom().contains(other) ==> t.pending.dom().contains(other)
                && t.pending[other] == s.pending[other]
            &&& other != store && s.started.dom().contains(other) ==> t.started.dom().contains(other)
                && t.started[other] == s.started[other]
            &&& t == (StateView { pending: t.pending, started: t.started, ..s })
        }),
        forall|n: u64| #[trigger]
            s.answers(store, n) <==> s.pending.dom().contains(store) && s.pending[store].request_id
                == Some(n),
{
}

/// A failed send touches its own pair alone: no other pair's failures or
/// attempts change, and nothing is sent or held for it.
pub proof fn a_failed_send_touches_its_own_pair_alone(
    s: StateView,
    store: [u8; 32],
    why: Seq<char>,
    pair: ([u8; 32], [u8; 32]),
)
    ensures
        ({
            let t = s.custody_send_failed(store, why);
            let own = s.pending.dom().contains(store) && pair == (store, s.pending[store].backer);
            &&& !own ==> (t.attempted.contains(pair) <==> s.attempted.contains(pair))
            &&& !own ==> (t.failures.dom().contains(pair) <==> s.failures.dom().contains(pair))
            &&& !own && s.failures.dom().contains(pair) ==> t.failures[pair] == s.failures[pair]
            &&& !s.pending.dom().contains(store) ==> t.notes == s.notes
            &&& t == (StateView {
                pending: s.pending.remove(store),
                started: s.started.remove(store),
                failures: t.failures,
                attempted: t.attempted,
                notes: t.notes,
                ..s
            })
        }),
{
}

/// What answers come change no more than what they are about: a signature
/// only the request it names and what is sent, a recovery only what is held,
/// registered, asked for, sent and said, and derived keys only themselves,
/// the creation that waits for them, the block on the store and what is said
/// and taken up.
pub proof fn answers_change_only_what_they_are_about(
    s: StateView,
    named: Option<[u8; 32]>,
    payload: Seq<u8>,
    signature: Seq<u8>,
    store: [u8; 32],
    request_id: u64,
    why: Option<Seq<char>>,
    mailbox: Option<Seq<u8>>,
    info: SubkeyView,
    other: [u8; 32],
)
    ensures
        ({
            let t = s.wrap_signed(named, payload, signature);
            t == (StateView {
                pending: t.pending,
                started: t.started,
                notes: t.notes,
                errands: t.errands,
                next_id: t.next_id,
                ..s
            })
        }),
        ({
            let t = s.key_recovered_inner(store, request_id, why, mailbox);
            &&& t == (StateView {
                held: t.held,
                pending: t.pending,
                started: t.started,
                my_stores: t.my_stores,
                subkeys_requested: t.subkeys_requested,
                notes: t.notes,
                errands: t.errands,
                next_id: t.next_id,
                ..s
            })
            &&& other != store ==> (t.held.dom().contains(other) <==> s.held.dom().contains(other))
            &&& other != store && s.held.dom().contains(other) ==> t.held[other] == s.held[other]
            &&& why is None ==> t.held.dom().contains(store) && t.held[store]
            &&& why is Some ==> t.held == s.held
        }),
        ({
            let t = s.subkeys_arrived(store, info);
            t == (StateView {
                subkeys: t.subkeys,
                creation: t.creation,
                mismatch: t.mismatch,
                notes: t.notes,
                errands: t.errands,
                ..s
            })
        }),
{
    let h = StateView { held: s.held.insert(store, true), ..s };
    lemma_conversations_keep_rest(
        h.told(recovered_words()).asked_subkeys(store),
        h.my_stores,
        store,
    );
}

} // verus!
