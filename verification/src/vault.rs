//! What the Ghost Key vault is sent, and the message inside what it signs.

use crate::bytes;
use vstd::prelude::*;

verus! {

/// A request to the Ghost Key vault.
#[derive(Debug, Clone, PartialEq, Eq)]
pub enum VaultRequest {
    /// Which Ghost Keys are shared with this app already.
    ListGhostKeys,
    /// Any Ghost Key the user picks; this puts a prompt before them.
    RequestAnyAccess,
    /// The certificate of a Ghost Key.
    GetCertificate { fingerprint: String },
    /// A Ghost Key's signature over a message.
    SignMessage { fingerprint: String, message: Vec<u8> },
}

/// A [`VaultRequest`] as plain values.
#[verifier::ext_equal]
pub enum VaultRequestView {
    ListGhostKeys,
    RequestAnyAccess,
    GetCertificate { fingerprint: Seq<char> },
    SignMessage { fingerprint: Seq<char>, message: Seq<u8> },
}

impl View for VaultRequest {
    type V = VaultRequestView;

    open spec fn view(&self) -> VaultRequestView {
        match self {
            VaultRequest::ListGhostKeys => VaultRequestView::ListGhostKeys,
            VaultRequest::RequestAnyAccess => VaultRequestView::RequestAnyAccess,
            VaultRequest::GetCertificate { fingerprint } => VaultRequestView::GetCertificate {
                fingerprint: fingerprint@,
            },
            VaultRequest::SignMessage { fingerprint, message } => VaultRequestView::SignMessage {
                fingerprint: fingerprint@,
                message: message@,
            },
        }
    }
}

/// The bytes a request travels as, or why it cannot be written: what
/// `ghostkey_common::to_cbor` gives for it.
pub uninterp spec fn written_request(request: VaultRequestView) -> Result<Seq<u8>, Seq<char>>;

/// `ghostkey_common::to_cbor` on the `ghostkey_common::GhostkeyRequest` of the
/// same name and fields: what it writes, and what it says where it cannot,
/// depend on the request alone, and are what [`written_request`] names. The
/// bytes themselves are not stated.
#[verifier::external_body]
fn write_request(request: &VaultRequest) -> (r: Result<Vec<u8>, String>)
    ensures
        (match r {
            Ok(payload) => written_request(request@) == Ok::<Seq<u8>, Seq<char>>(payload@),
            Err(why) => written_request(request@) == Err::<Seq<u8>, Seq<char>>(why@),
        }),
{
    ghostkey_common::to_cbor(&match request.clone() {
        VaultRequest::ListGhostKeys => ghostkey_common::GhostkeyRequest::ListGhostKeys,
        VaultRequest::RequestAnyAccess => ghostkey_common::GhostkeyRequest::RequestAnyAccess,
        VaultRequest::GetCertificate { fingerprint } => {
            ghostkey_common::GhostkeyRequest::GetCertificate { fingerprint }
        },
        VaultRequest::SignMessage { fingerprint, message } => {
            ghostkey_common::GhostkeyRequest::SignMessage { fingerprint, message }
        },
    })
}

/// The payload that asks the vault for `request`, or why there is none.
pub fn request_payload(request: &VaultRequest) -> (r: Result<Vec<u8>, String>)
    ensures
        (match r {
            Ok(payload) => written_request(request@) == Ok::<Seq<u8>, Seq<char>>(payload@),
            Err(why) => written_request(request@) == Err::<Seq<u8>, Seq<char>>(why@),
        }),
{
    write_request(request)
}

/// The message inside a payload the vault signed: what
/// `ghostkey_common::from_cbor` reads a `ghostkey_common::ScopedPayload` to
/// hold, and none where it reads no such thing.
pub uninterp spec fn scoped_message(payload: Seq<u8>) -> Option<Seq<u8>>;

/// `ghostkey_common::from_cbor` for a `ghostkey_common::ScopedPayload`: the
/// message it holds depends on the payload's bytes alone, and is what
/// [`scoped_message`] names. Which payloads are one is not stated.
#[verifier::external_body]
pub(crate) fn read_scoped(payload: &[u8]) -> (r: Option<Vec<u8>>)
    ensures
        (match r {
            Some(message) => scoped_message(payload@) == Some(message@),
            None => scoped_message(payload@) is None,
        }),
{
    ghostkey_common::from_cbor::<ghostkey_common::ScopedPayload>(payload).ok().map(
        |scoped| scoped.payload,
    )
}

/// What a Ghost Key is asked to sign so that a store's key can be wrapped to
/// it, and what the seller is told where it cannot be asked.
pub open spec fn wrap_request(
    store_is_key: bool,
    vault_registered: bool,
    written: Result<Seq<u8>, Seq<char>>,
) -> Result<Seq<u8>, Seq<char>> {
    if !store_is_key {
        Err("not a store key"@)
    } else if !vault_registered {
        Err("the Ghost Key vault is not registered"@)
    } else {
        match written {
            Ok(payload) => Ok(payload),
            Err(why) => Err("serialize SignMessage: "@ + why),
        }
    }
}

/// A payload, or why there is none, as plain values.
pub open spec fn outcome_of(r: Result<Vec<u8>, String>) -> Result<Seq<u8>, Seq<char>> {
    match r {
        Ok(payload) => Ok(payload@),
        Err(why) => Err(why@),
    }
}

/// The payload of a request for a wrap signature, once writing it was tried.
pub fn judge_wrap_request(
    store_is_key: bool,
    vault_registered: bool,
    written: Result<Vec<u8>, String>,
) -> (r: Result<Vec<u8>, String>)
    ensures
        outcome_of(r) == wrap_request(store_is_key, vault_registered, outcome_of(written)),
{
    if !store_is_key {
        return Err("not a store key".to_string());
    }
    if !vault_registered {
        return Err("the Ghost Key vault is not registered".to_string());
    }
    match written {
        Ok(payload) => Ok(payload),
        Err(why) => {
            let mut words = "serialize SignMessage: ".to_string();
            words.append(&why);
            Err(words)
        },
    }
}

/// The payload that asks the vault for a Ghost Key's signature over a store's
/// wrap message, or what stands in the way.
pub fn wrap_signature_request(
    fingerprint: &str,
    store: &[u8; 32],
    wrap_message: &[u8],
    vault_registered: bool,
) -> (r: Result<Vec<u8>, String>)
    ensures
        outcome_of(r) == wrap_request(
            crate::keys::is_verifying_key(store@),
            vault_registered,
            written_request(
                VaultRequestView::SignMessage { fingerprint: fingerprint@, message: wrap_message@ },
            ),
        ),
{
    let request = VaultRequest::SignMessage {
        fingerprint: fingerprint.to_string(),
        message: bytes::copy_bytes(wrap_message),
    };
    judge_wrap_request(crate::keys::verifying_key(store), vault_registered, write_request(&request))
}

/// What the seller is told when the vault could not be reached.
pub fn vault_unreached(why: &str) -> (r: String)
    ensures
        r@ == "could not ask the vault: "@ + why@,
{
    let mut words = "could not ask the vault: ".to_string();
    words.append(why);
    words
}

/// The payload of a request to the Harvest delegate, once writing it was
/// tried.
pub fn delegate_request(registered: bool, written: Result<Vec<u8>, String>) -> (r: Result<
    Vec<u8>,
    String,
>)
    ensures
        (if !registered {
            r matches Err(why) && why@ == "the Harvest delegate is not registered"@
        } else {
            match written {
                Ok(payload) => r == Ok::<Vec<u8>, String>(payload),
                Err(e) => r matches Err(why) && why@ == "could not encode the request: "@ + e@,
            }
        }),
{
    if !registered {
        return Err("the Harvest delegate is not registered".to_string());
    }
    match written {
        Ok(payload) => Ok(payload),
        Err(e) => {
            let mut words = "could not encode the request: ".to_string();
            words.append(&e);
            Err(words)
        },
    }
}

/// What the seller is told when the Harvest delegate could not be reached.
pub fn delegate_unreached(why: &str) -> (r: String)
    ensures
        r@ == "could not reach the Harvest delegate: "@ + why@,
{
    let mut words = "could not reach the Harvest delegate: ".to_string();
    words.append(why);
    words
}

/// A wrap request is made only for a store key and with the vault registered,
/// and it is then what was written; each failure is told apart.
pub proof fn a_wrap_request_needs_a_store_key_and_the_vault(
    store_is_key: bool,
    vault_registered: bool,
    payload: Seq<u8>,
    why: Seq<char>,
)
    ensures
        wrap_request(store_is_key, vault_registered, Ok(payload)) == Ok::<Seq<u8>, Seq<char>>(
            payload,
        ) <==> store_is_key && vault_registered,
        wrap_request(store_is_key, vault_registered, Err(why)) is Err,
        !store_is_key ==> wrap_request(store_is_key, vault_registered, Ok(payload)) == Err::<
            Seq<u8>,
            Seq<char>,
        >("not a store key"@),
        store_is_key && !vault_registered ==> wrap_request(
            store_is_key,
            vault_registered,
            Ok(payload),
        ) == Err::<Seq<u8>, Seq<char>>("the Ghost Key vault is not registered"@),
        store_is_key && vault_registered ==> wrap_request(
            store_is_key,
            vault_registered,
            Err(why),
        ) == Err::<Seq<u8>, Seq<char>>("serialize SignMessage: "@ + why),
{
}

/// A request to the vault is told by its kind and all it carries.
pub proof fn a_vault_request_is_told_whole(fingerprint: String, message: Vec<u8>)
    ensures
        VaultRequest::ListGhostKeys@ is ListGhostKeys,
        VaultRequest::RequestAnyAccess@ is RequestAnyAccess,
        (VaultRequest::GetCertificate { fingerprint })@ == (VaultRequestView::GetCertificate {
            fingerprint: fingerprint@,
        }),
        (VaultRequest::SignMessage { fingerprint, message })@ == (VaultRequestView::SignMessage {
            fingerprint: fingerprint@,
            message: message@,
        }),
{
}

/// An outcome is told by its payload or by why there is none.
pub proof fn an_outcome_is_told_whole(payload: Vec<u8>, why: String)
    ensures
        outcome_of(Ok(payload)) == Ok::<Seq<u8>, Seq<char>>(payload@),
        outcome_of(Err(why)) == Err::<Seq<u8>, Seq<char>>(why@),
{
}

} // verus!
