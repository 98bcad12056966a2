//! Carrying the Harvest delegate's secrets across a delegate re-key.
//!
//! A delegate lives at a hash of its code, and its secrets live on the node
//! under that key, so every rebuild strands everything it holds. Every
//! generation from [`FIRST_EXPORTING_GENERATION`] on can hand its secrets
//! over. A walk asks each of them, newest first, and hands what it recovers
//! to the current delegate, which never overwrites.
//!
//! The `freenet_migrate` driver decides which predecessor is next and when it
//! is sealed. This module decides everything in between: what each message
//! asks, which answer is the one awaited, what an answer means, and when the
//! walk must stop because going on would let an older generation's value
//! stand for good in place of a newer one's.
//!
//! The policy is union over all generations: a generation this node never ran
//! answers [`Reply::Missing`], and one skipped release must not hide every
//! older one. A generation that is registered here and does not answer stops
//! the walk instead, and so does one that carried travelling records and did
//! not finish for a reason a retry fixes.

use crate::bytes;
use crate::my_store;
use crate::seqs;
use crate::text;
use vstd::prelude::*;

verus! {

/// The first generation whose delegate can answer an export request. Earlier
/// ones reject it in a way that can only time out.
pub const FIRST_EXPORTING_GENERATION: u32 = 5;

/// One predecessor generation of the delegate, as the registry records it.
#[derive(Clone, Copy, Debug, PartialEq, Eq)]
pub struct DelegateLineageEntry {
    /// Older generations have smaller numbers.
    pub generation: u32,
    /// The hash of the generation's code.
    pub code_hash: [u8; 32],
    /// The key the generation has on the network.
    pub delegate_key: [u8; 32],
    /// Whether the key predates the standard derivation from the code hash.
    pub irregular_key: bool,
}

/// The generations of `lineage` that can answer an export request.
pub open spec fn exporting(lineage: Seq<DelegateLineageEntry>) -> Seq<DelegateLineageEntry> {
    lineage.filter(|e: DelegateLineageEntry| e.generation >= FIRST_EXPORTING_GENERATION)
}

/// The predecessor generations a walk asks, in the order the registry records
/// them.
pub fn exporting_predecessors(lineage: &Vec<DelegateLineageEntry>) -> (r: Vec<DelegateLineageEntry>)
    ensures
        r@ == exporting(lineage@),
{
    let ghost keep = |e: DelegateLineageEntry| e.generation >= FIRST_EXPORTING_GENERATION;
    let mut r: Vec<DelegateLineageEntry> = Vec::new();
    let mut i: usize = 0;
    proof {
        seqs::lemma_filter_none(lineage@, keep);
    }
    while i < lineage.len()
        invariant
            i <= lineage.len(),
            keep == (|e: DelegateLineageEntry| e.generation >= FIRST_EXPORTING_GENERATION),
            r@ == lineage@.take(i as int).filter(keep),
        decreases lineage.len() - i,
    {
        proof {
            seqs::lemma_filter_step(lineage@, keep, i as int);
        }
        if lineage[i].generation >= FIRST_EXPORTING_GENERATION {
            r.push(lineage[i]);
        }
        i = i + 1;
    }
    assert(lineage@.take(i as int) =~= lineage@);
    r
}

/// What came back for one delegate message.
#[derive(Debug, Clone, PartialEq, Eq)]
pub enum Reply {
    /// The delegate answered with these application-message payloads.
    Payloads(Vec<Vec<u8>>),
    /// The node answered that no delegate is registered under the key: a
    /// generation this node never ran.
    Missing,
}

/// Why a delegate message produced no reply.
#[derive(Debug, Clone, PartialEq, Eq)]
pub enum CallError {
    /// Nothing came back within the transport's deadline.
    Timeout,
    /// The message could not be sent.
    Send(String),
}

impl CallError {
    /// The error in words.
    pub open spec fn words(self) -> Seq<char> {
        match self {
            CallError::Timeout => "no answer within the deadline"@,
            CallError::Send(e) => "could not send: "@ + e@,
        }
    }

    /// The error in words.
    pub fn message(&self) -> (r: String)
        ensures
            r@ == self.words(),
    {
        match self {
            CallError::Timeout => "no answer within the deadline".to_string(),
            CallError::Send(e) => {
                let mut r = "could not send: ".to_string();
                r.append(e);
                r
            },
        }
    }
}

/// How far the current delegate has recorded one predecessor's migration.
#[derive(Debug, Clone, Copy, PartialEq, Eq, Structural)]
pub enum PredecessorMarkerState {
    /// An import started and did not complete.
    InProgress { saw_data: bool },
    /// The import completed.
    Done { had_data: bool },
}

/// The current delegate's verdict on one migrated secret.
#[derive(Debug, Clone, PartialEq, Eq)]
pub enum SecretImport {
    /// The secret was applied.
    Written,
    /// The current delegate's own value stands.
    AlreadyAuthoritative,
    /// Not applied, for a reason a retry may fix.
    Retryable(String),
    /// Refused, for good.
    Permanent(String),
}

/// An answer of the current delegate, as far as the walk reads it.
#[allow(inconsistent_fields)]
#[derive(Debug, Clone, PartialEq, Eq)]
pub enum HarvestDelegateResponse {
    /// The recorded state of one predecessor's migration.
    PredecessorMarker { predecessor: [u8; 32], marker: Option<PredecessorMarkerState> },
    /// Whether a marker was recorded.
    PredecessorMarkerRecorded {
        predecessor: [u8; 32],
        marker: PredecessorMarkerState,
        recorded: bool,
    },
    /// What became of one migrated secret.
    MigratedSecretImported { predecessor: [u8; 32], key: Vec<u8>, outcome: SecretImport },
    /// Any other answer, none of which the walk asks for.
    Other,
}

/// A message the walk sends.
#[derive(Debug, Clone, PartialEq, Eq)]
pub enum HarvestDelegateRequest {
    /// A cheap read every generation answers.
    ListStores { ghostkey_fingerprint: String },
    /// Hand over every secret.
    ExportSecrets { source_generation: u32 },
    /// Read one predecessor's marker.
    GetPredecessorMarker { predecessor: [u8; 32] },
    /// Record one predecessor's marker.
    RecordPredecessorMarker { predecessor: [u8; 32], marker: PredecessorMarkerState },
    /// Apply one migrated secret.
    ImportMigratedSecret { predecessor: [u8; 32], key: Vec<u8>, value: Vec<u8> },
}

/// Which answer a call is waiting for.
///
/// A predecessor is talked to by nothing but this walk, so any answer from its
/// key is the answer. The current delegate answers the whole app, so a call to
/// it names the response, and the fields, that make an answer its own.
#[derive(Debug, Clone, PartialEq, Eq)]
pub enum Expect {
    AnyFrom,
    /// Only a payload that decodes as an export.
    Export,
    PredecessorMarker([u8; 32]),
    PredecessorMarkerRecorded([u8; 32]),
    SecretImported { predecessor: [u8; 32], key: Vec<u8> },
}

/// A request to a delegate, and the answer it waits for.
#[derive(Debug, Clone, PartialEq, Eq)]
pub struct DelegateCall {
    pub request: HarvestDelegateRequest,
    pub awaits: Expect,
}

/// A delegate key's 32 bytes. Every key is 32 bytes; a malformed one is an
/// error.
pub fn key_bytes(key: &[u8]) -> (r: Result<[u8; 32], String>)
    ensures
        (match r {
            Ok(bytes) => key@.len() == 32 && bytes@ == key@,
            Err(why) => key@.len() != 32 && why@ == "a delegate key that is not 32 bytes"@,
        }),
{
    match my_store::key_of(key) {
        Some(bytes) => Ok(bytes),
        None => Err("a delegate key that is not 32 bytes".to_string()),
    }
}

/// What a predecessor handed over: the generation it answered for, and its
/// `(key, value)` pairs.
#[derive(Debug, Clone, PartialEq, Eq)]
pub struct ExportedSecrets {
    pub source_generation: u32,
    pub secrets: Vec<(Vec<u8>, Vec<u8>)>,
}

/// The pairs of an export as byte sequences.
pub open spec fn pairs(secrets: Seq<(Vec<u8>, Vec<u8>)>) -> Seq<(Seq<u8>, Seq<u8>)> {
    secrets.map_values(|p: (Vec<u8>, Vec<u8>)| (p.0@, p.1@))
}

/// What a payload decodes to as an export, if it is one:
/// `freenet_migrate::ExportedSecrets::from_bytes`, which reads it as CBOR.
pub uninterp spec fn decoded_export(payload: Seq<u8>) -> Option<(u32, Seq<(Seq<u8>, Seq<u8>)>)>;

/// `freenet_migrate::ExportedSecrets::from_bytes`: what a payload decodes to
/// depends on its bytes alone, and is what [`decoded_export`] names. Which
/// payloads decode is not stated.
#[verifier::external_body]
fn decode_export(payload: &[u8]) -> (r: Option<ExportedSecrets>)
    ensures
        (match r {
            Some(e) => decoded_export(payload@) == Some((e.source_generation, pairs(e.secrets@))),
            None => decoded_export(payload@) is None,
        }),
{
    freenet_migrate::ExportedSecrets::from_bytes(payload).ok().map(
        |e| ExportedSecrets { source_generation: e.source_generation, secrets: e.secrets },
    )
}

impl Expect {
    /// Whether `response` is the answer this call is waiting for.
    pub open spec fn is_answered_by(self, response: HarvestDelegateResponse) -> bool {
        match self {
            Expect::AnyFrom => true,
            Expect::Export => false,
            Expect::PredecessorMarker(want) => {
                response matches HarvestDelegateResponse::PredecessorMarker { predecessor, .. }
                    && predecessor == want
            },
            Expect::PredecessorMarkerRecorded(want) => {
                response matches HarvestDelegateResponse::PredecessorMarkerRecorded {
                    predecessor,
                    ..
                } && predecessor == want
            },
            Expect::SecretImported { predecessor: want, key: want_key } => {
                response matches HarvestDelegateResponse::MigratedSecretImported {
                    predecessor,
                    key,
                    ..
                } && predecessor == want && key@ == want_key@
            },
        }
    }

    /// Whether `response` from the current delegate is the one this call is
    /// waiting for.
    pub fn matches(&self, response: &HarvestDelegateResponse) -> (r: bool)
        ensures
            r == self.is_answered_by(*response),
    {
        match (self, response) {
            (Expect::AnyFrom, _) => true,
            (Expect::Export, _) => false,
            (
                Expect::PredecessorMarker(want),
                HarvestDelegateResponse::PredecessorMarker { predecessor, .. },
            ) => bytes::same_key(predecessor, want),
            (
                Expect::PredecessorMarkerRecorded(want),
                HarvestDelegateResponse::PredecessorMarkerRecorded { predecessor, .. },
            ) => bytes::same_key(predecessor, want),
            (
                Expect::SecretImported { predecessor: want, key: want_key },
                HarvestDelegateResponse::MigratedSecretImported { predecessor, key, .. },
            ) => bytes::same_key(predecessor, want) && bytes::same_bytes(key, want_key),
            _ => false,
        }
    }

    /// Whether this call goes to a predecessor (true) or to the current
    /// delegate. A predecessor may be exporting its whole store, and silence
    /// from it stops the walk, so the transport gives it longer.
    pub fn is_predecessor_call(&self) -> (r: bool)
        ensures
            r == (self is AnyFrom || self is Export),
    {
        match self {
            Expect::AnyFrom => true,
            Expect::Export => true,
            _ => false,
        }
    }

    /// Whether a raw payload from the delegate being waited on is this call's
    /// answer, given what the payload decodes to as a Harvest response, if it
    /// is one.
    pub fn accepts_payload(&self, payload: &[u8], decoded: &Option<HarvestDelegateResponse>) -> (r:
        bool)
        ensures
            r == self.accepts(payload@, *decoded),
    {
        match self {
            Expect::AnyFrom => true,
            Expect::Export => decode_export(payload).is_some(),
            _ => match decoded {
                Some(response) => self.matches(response),
                None => false,
            },
        }
    }

    /// Whether a payload is this call's answer.
    pub open spec fn accepts(self, payload: Seq<u8>, decoded: Option<HarvestDelegateResponse>) -> bool {
        match self {
            Expect::AnyFrom => true,
            Expect::Export => decoded_export(payload) is Some,
            _ => decoded matches Some(response) && self.is_answered_by(response),
        }
    }
}

/// What one walk learned.
///
/// Once `halted`, nothing older is imported in this run: a registered
/// predecessor failed to answer, and an older generation's value would land
/// first and then stand for good, since the import never overwrites.
#[derive(Debug, Clone)]
pub struct Walk {
    /// The walk stops: see above.
    pub halted: bool,
    /// The predecessor whose items are being written, and what happened to
    /// them.
    pub carrier: Option<Carrier>,
    /// Keys the current delegate reported written, in order.
    pub written: Vec<Vec<u8>>,
}

/// What happened to the items of the predecessor most recently written.
///
/// A predecessor can carry travelling records ("that generation was folded
/// into me"), which take effect only when it is sealed. One that staged
/// records, was not sealed, and failed for a reason a retry fixes stops the
/// walk: the generation it folded in would otherwise be walked in this run,
/// and what the carrier had deleted since would come back.
#[derive(Debug, Clone, Copy, PartialEq, Eq)]
pub struct Carrier {
    pub predecessor: [u8; 32],
    /// It carried at least one travelling record that was not refused
    /// permanently.
    pub staged: bool,
    /// At least one of its items failed for a reason a retry may fix, or its
    /// seal failed.
    pub retryable: bool,
    /// Its completion marker landed.
    pub sealed: bool,
}

/// A [`Walk`], with what it has written as byte sequences.
pub struct WalkView {
    pub halted: bool,
    pub carrier: Option<Carrier>,
    pub written: Seq<Seq<u8>>,
}

/// A list of byte strings as sequences.
pub open spec fn byte_seqs(v: Seq<Vec<u8>>) -> Seq<Seq<u8>> {
    v.map_values(|b: Vec<u8>| b@)
}

impl View for Walk {
    type V = WalkView;

    open spec fn view(&self) -> WalkView {
        WalkView {
            halted: self.halted,
            carrier: self.carrier,
            written: byte_seqs(self.written@),
        }
    }
}

impl WalkView {
    /// A walk that has learned nothing.
    pub open spec fn fresh() -> WalkView {
        WalkView { halted: false, carrier: None, written: Seq::empty() }
    }

    /// The walk, stopped.
    pub open spec fn stopped(self) -> WalkView {
        WalkView { halted: true, ..self }
    }

    /// The carrier the walk keeps for `predecessor`: the one it has, or a
    /// fresh one in place of another predecessor's.
    pub open spec fn carrier_of(self, predecessor: [u8; 32]) -> Carrier {
        match self.carrier {
            Some(c) => if c.predecessor == predecessor {
                c
            } else {
                Carrier { predecessor, staged: false, retryable: false, sealed: false }
            },
            None => Carrier { predecessor, staged: false, retryable: false, sealed: false },
        }
    }

    /// Whether the predecessor just written leaves the walk unsafe to go on.
    pub open spec fn blocked(self) -> bool {
        self.carrier matches Some(c) && c.staged && !c.sealed && c.retryable
    }

    /// The walk after the next marker is asked for: a blocked carrier stops
    /// it.
    pub open spec fn at_marker(self) -> WalkView {
        if self.blocked() {
            self.stopped()
        } else {
            self
        }
    }

    /// The walk after a completion marker was answered.
    pub open spec fn sealing(self, predecessor: [u8; 32], landed: bool) -> WalkView {
        let c = self.carrier_of(predecessor);
        WalkView {
            carrier: Some(
                if landed {
                    Carrier { sealed: true, ..c }
                } else {
                    Carrier { retryable: true, ..c }
                },
            ),
            ..self
        }
    }

    /// The walk after one item was offered to the current delegate.
    pub open spec fn wrote(
        self,
        predecessor: [u8; 32],
        key: Seq<u8>,
        outcome: SecretImport,
    ) -> WalkView {
        let c = self.carrier_of(predecessor);
        WalkView {
            carrier: Some(
                Carrier {
                    staged: c.staged || (is_travelling(key) && !(outcome is Permanent)),
                    retryable: c.retryable || outcome is Retryable,
                    ..c
                },
            ),
            written: if outcome is Written {
                self.written.push(key)
            } else {
                self.written
            },
            ..self
        }
    }
}

/// The first bytes of a travelling record's key.
pub open spec fn travelling_prefix() -> Seq<u8> {
    seq![
        104u8, 97u8, 114u8, 118u8, 101u8, 115u8, 116u8, 58u8, 102u8, 111u8, 108u8, 100u8, 101u8,
        100u8, 58u8,
    ]
}

/// Whether a secret's key, which starts `harvest:folded:`, is a travelling
/// record's.
pub open spec fn is_travelling(key: Seq<u8>) -> bool {
    bytes::has_prefix(key, travelling_prefix())
}

/// The first bytes of the key of an RSA public key: `harvest:rsa_pk:`.
pub open spec fn rsa_prefix() -> Seq<u8> {
    seq![
        104u8, 97u8, 114u8, 118u8, 101u8, 115u8, 116u8, 58u8, 114u8, 115u8, 97u8, 95u8, 112u8,
        107u8, 58u8,
    ]
}

/// Whether a secret's key is a travelling record's.
fn travelling(key: &[u8]) -> (r: bool)
    ensures
        r == is_travelling(key@),
{
    // harvest:folded:
    let prefix: [u8; 15] = [
        104, 97, 114, 118, 101, 115, 116, 58, 102, 111, 108, 100, 101, 100, 58,
    ];
    assert(prefix@ =~= travelling_prefix());
    bytes::starts_with(key, &prefix)
}

impl Default for Walk {
    fn default() -> (r: Self)
        ensures
            r@ == WalkView::fresh(),
    {
        let r = Walk { halted: false, carrier: None, written: Vec::new() };
        assert(byte_seqs(r.written@) =~= Seq::empty());
        r
    }
}

impl Walk {
    /// The carrier for `predecessor`, put in place of another predecessor's.
    pub fn carrier_for(&mut self, predecessor: [u8; 32]) -> (c: Carrier)
        ensures
            c == old(self)@.carrier_of(predecessor),
            final(self)@ == (WalkView { carrier: Some(c), ..old(self)@ }),
    {
        let keep = match &self.carrier {
            Some(c) => bytes::same_key(&c.predecessor, &predecessor),
            None => false,
        };
        if !keep {
            self.carrier = Some(
                Carrier { predecessor, staged: false, retryable: false, sealed: false },
            );
        }
        match self.carrier {
            Some(c) => c,
            None => Carrier { predecessor, staged: false, retryable: false, sealed: false },
        }
    }

    /// Whether the predecessor just written leaves the walk unsafe to go on.
    pub fn carrier_blocks(&self) -> (r: bool)
        ensures
            r == self@.blocked(),
    {
        match &self.carrier {
            Some(c) => c.staged && !c.sealed && c.retryable,
            None => false,
        }
    }
}

/// The generation `lineage` records for the delegate `key`. Where it records
/// the key twice, the later entry stands.
pub open spec fn recorded_generation(lineage: Seq<DelegateLineageEntry>, key: [u8; 32]) -> Option<u32>
    decreases lineage.len(),
{
    if lineage.len() == 0 {
        None
    } else if lineage.last().delegate_key == key {
        Some(lineage.last().generation)
    } else {
        recorded_generation(lineage.drop_last(), key)
    }
}

/// The predecessor side of a walk: Harvest's own protocol, spoken to old
/// delegates.
pub struct Predecessors {
    lineage: Vec<DelegateLineageEntry>,
}

impl Predecessors {
    /// The generations this side knows.
    pub closed spec fn known(&self) -> Seq<DelegateLineageEntry> {
        self.lineage@
    }

    /// The predecessor side over `lineage`.
    pub fn new(lineage: Vec<DelegateLineageEntry>) -> (r: Self)
        ensures
            r.known() == lineage@,
    {
        Predecessors { lineage }
    }

    /// Stop the walk.
    pub fn halt(&self, walk: &mut Walk)
        ensures
            final(walk)@ == old(walk)@.stopped(),
    {
        walk.halted = true;
    }

    /// The message that asks whether a predecessor runs at all. Any answer
    /// says that it does.
    pub fn probe_request(&self) -> (r: DelegateCall)
        ensures
            r.request matches HarvestDelegateRequest::ListStores { ghostkey_fingerprint }
                && ghostkey_fingerprint@ == Seq::<char>::empty(),
            r.awaits is AnyFrom,
    {
        DelegateCall {
            request: HarvestDelegateRequest::ListStores { ghostkey_fingerprint: String::new() },
            awaits: Expect::AnyFrom,
        }
    }

    /// What the answer to that message says: whether the predecessor ran.
    ///
    /// `Missing` and silence both say it did not, but only silence, or a
    /// message that could not be sent, stops the walk.
    pub fn probe_executable(&self, walk: &mut Walk, answer: Result<Reply, CallError>) -> (r: Result<
        bool,
        String,
    >)
        ensures
            (match answer {
                Ok(Reply::Payloads(_)) => r == Ok::<bool, String>(true) && final(walk)@ == old(walk)@,
                Ok(Reply::Missing) => r == Ok::<bool, String>(false) && final(walk)@ == old(walk)@,
                Err(CallError::Timeout) => r == Ok::<bool, String>(false) && final(walk)@ == old(
                    walk,
                )@.stopped(),
                Err(CallError::Send(e)) => r == Err::<bool, String>(e) && final(walk)@ == old(
                    walk,
                )@.stopped(),
            }),
    {
        match answer {
            Ok(Reply::Payloads(_)) => Ok(true),
            Ok(Reply::Missing) => Ok(false),
            Err(CallError::Timeout) => {
                self.halt(walk);
                Ok(false)
            },
            Err(CallError::Send(e)) => {
                self.halt(walk);
                Err(e)
            },
        }
    }

    /// The message that asks a predecessor for its secrets, and the generation
    /// it names: the one the registry records for the predecessor. One it does
    /// not record is not asked.
    pub fn export_request(&self, predecessor: &[u8; 32]) -> (r: Result<(u32, DelegateCall), String>)
        ensures
            (match recorded_generation(self.known(), *predecessor) {
                Some(generation) => {
                    &&& r matches Ok((named, call))
                    &&& named == generation
                    &&& call.request == (HarvestDelegateRequest::ExportSecrets {
                        source_generation: generation,
                    })
                    &&& call.awaits is Export
                },
                None => r matches Err(e) && e@ == "not a recorded predecessor"@,
            }),
    {
        match self.generation_of(predecessor) {
            Some(source_generation) => Ok(
                (
                    source_generation,
                    DelegateCall {
                        request: HarvestDelegateRequest::ExportSecrets { source_generation },
                        awaits: Expect::Export,
                    },
                ),
            ),
            None => Err("not a recorded predecessor".to_string()),
        }
    }

    /// The generation the registry records for a predecessor.
    fn generation_of(&self, predecessor: &[u8; 32]) -> (r: Option<u32>)
        ensures
            r == recorded_generation(self.known(), *predecessor),
    {
        let mut i: usize = self.lineage.len();
        assert(self.lineage@.take(i as int) =~= self.lineage@);
        while i > 0
            invariant
                i <= self.lineage.len(),
                recorded_generation(self.known(), *predecessor) == recorded_generation(
                    self.lineage@.take(i as int),
                    *predecessor,
                ),
            decreases i,
        {
            assert(self.lineage@.take(i as int).last() == self.lineage@[i - 1]);
            assert(self.lineage@.take(i as int).drop_last() =~= self.lineage@.take(i - 1));
            if bytes::same_key(&self.lineage[i - 1].delegate_key, predecessor) {
                return Some(self.lineage[i - 1].generation);
            }
            i = i - 1;
        }
        None
    }

    /// Read the answer to an export request.
    ///
    /// An empty list is the positive claim that the predecessor has nothing,
    /// which seals it for good, so silence is an error: a retry next load,
    /// never a seal.
    pub fn export(&self, generation: u32, answer: Result<Reply, CallError>) -> (r: Result<
        Vec<(Vec<u8>, Vec<u8>)>,
        String,
    >)
        ensures
            (match answer {
                Ok(reply) => export_reads(reply, generation, r),
                Err(e) => r matches Err(why) && why@ == "export not answered: "@ + e.words(),
            }),
    {
        match answer {
            Ok(reply) => interpret_export(reply, generation),
            Err(e) => {
                let mut why = "export not answered: ".to_string();
                why.append(&e.message());
                Err(why)
            },
        }
    }

    /// What a fetch that ended does to the walk: a predecessor that answered
    /// the probe runs, and may hold data, so any failure to export stops it.
    pub fn fetch_secrets(
        &self,
        walk: &mut Walk,
        answer: Result<Vec<(Vec<u8>, Vec<u8>)>, String>,
    ) -> (r: Result<Vec<(Vec<u8>, Vec<u8>)>, String>)
        ensures
            r == answer,
            final(walk)@ == (if answer is Err {
                old(walk)@.stopped()
            } else {
                old(walk)@
            }),
    {
        if answer.is_err() {
            self.halt(walk);
        }
        answer
    }
}

/// The first payload that decodes as an export, if one does.
pub open spec fn first_export(payloads: Seq<Vec<u8>>) -> Option<(u32, Seq<(Seq<u8>, Seq<u8>)>)>
    decreases payloads.len(),
{
    if payloads.len() == 0 {
        None
    } else if decoded_export(payloads[0]@) is Some {
        decoded_export(payloads[0]@)
    } else {
        first_export(payloads.skip(1))
    }
}

/// What an answer to an export request says: `r` is the secrets of the first
/// payload that is an export, if it is the asked generation's, and an error
/// otherwise.
pub open spec fn export_reads(
    reply: Reply,
    generation: u32,
    r: Result<Vec<(Vec<u8>, Vec<u8>)>, String>,
) -> bool {
    match reply {
        Reply::Missing => r matches Err(why) && why@
            == "the predecessor is not registered on this node"@,
        Reply::Payloads(payloads) => export_found(first_export(payloads@), generation, r),
    }
}

/// What the export that was found, if any, says about the asked generation.
pub open spec fn export_found(
    found: Option<(u32, Seq<(Seq<u8>, Seq<u8>)>)>,
    generation: u32,
    r: Result<Vec<(Vec<u8>, Vec<u8>)>, String>,
) -> bool {
    match found {
        None => r matches Err(why) && why@ == "the predecessor answered, but not with an export"@,
        Some((source, secrets)) => if source == generation {
            r matches Ok(s) && pairs(s@) == secrets
        } else {
            r matches Err(why) && why@ == "asked generation "@ + text::decimal(generation as nat)
                + " to export and generation "@ + text::decimal(source as nat) + " answered"@
        },
    }
}

/// Judge the export that was found, if any: only one for the asked generation
/// counts.
pub fn judge_export(found: Option<ExportedSecrets>, generation: u32) -> (r: Result<
    Vec<(Vec<u8>, Vec<u8>)>,
    String,
>)
    ensures
        (match found {
            Some(e) => export_found(Some((e.source_generation, pairs(e.secrets@))), generation, r),
            None => export_found(None, generation, r),
        }),
{
    match found {
        None => Err("the predecessor answered, but not with an export".to_string()),
        Some(e) => {
            if e.source_generation != generation {
                let mut why = "asked generation ".to_string();
                why.append(&text::decimal_text(generation as u64));
                why.append(" to export and generation ");
                why.append(&text::decimal_text(e.source_generation as u64));
                why.append(" answered");
                Err(why)
            } else {
                Ok(e.secrets)
            }
        },
    }
}

/// Read a predecessor's answer to an export request.
pub fn interpret_export(reply: Reply, generation: u32) -> (r: Result<
    Vec<(Vec<u8>, Vec<u8>)>,
    String,
>)
    ensures
        export_reads(reply, generation, r),
{
    match reply {
        Reply::Missing => Err("the predecessor is not registered on this node".to_string()),
        Reply::Payloads(payloads) => judge_export(find_export(&payloads), generation),
    }
}

/// The first payload that decodes as an export, if one does.
fn find_export(payloads: &Vec<Vec<u8>>) -> (r: Option<ExportedSecrets>)
    ensures
        (match r {
            Some(e) => first_export(payloads@) == Some((e.source_generation, pairs(e.secrets@))),
            None => first_export(payloads@) is None,
        }),
{
    let mut i: usize = 0;
    assert(payloads@.skip(0) =~= payloads@);
    while i < payloads.len()
        invariant
            i <= payloads.len(),
            first_export(payloads@) == first_export(payloads@.skip(i as int)),
        decreases payloads.len() - i,
    {
        assert(payloads@.skip(i as int)[0] == payloads@[i as int]);
        assert(payloads@.skip(i as int).skip(1) =~= payloads@.skip(i + 1));
        let found = decode_export(&payloads[i]);
        if found.is_some() {
            return found;
        }
        i = i + 1;
    }
    None
}

/// What came back from the current delegate, each payload decoded: `None`
/// stands for one that is no Harvest response.
pub enum DecodedReply {
    Answers(Vec<Option<HarvestDelegateResponse>>),
    Missing,
}

/// The first of `answers` that is the one `expect` waits for.
pub open spec fn first_match(
    expect: Expect,
    answers: Seq<Option<HarvestDelegateResponse>>,
) -> Option<HarvestDelegateResponse>
    decreases answers.len(),
{
    if answers.len() == 0 {
        None
    } else if answers[0] matches Some(a) && expect.is_answered_by(a) {
        answers[0]
    } else {
        first_match(expect, answers.skip(1))
    }
}

/// The first of `answers` that is the one `expect` waits for.
fn find_answer(expect: &Expect, answers: Vec<Option<HarvestDelegateResponse>>) -> (r: Option<
    HarvestDelegateResponse,
>)
    ensures
        r == first_match(*expect, answers@),
{
    let ghost all = answers@;
    let mut rest = answers;
    while rest.len() > 0
        invariant
            all == answers@,
            first_match(*expect, all) == first_match(*expect, rest@),
        decreases rest.len(),
    {
        let ghost before = rest@;
        let next = rest.remove(0);
        assert(rest@ =~= before.skip(1));
        if let Some(response) = next {
            if expect.matches(&response) {
                return Some(response);
            }
        }
    }
    None
}

/// What a call to the current delegate says: `r` is the first answer awaited,
/// or why there is none.
pub open spec fn asked(
    expect: Expect,
    reply: Result<DecodedReply, CallError>,
    r: Result<HarvestDelegateResponse, String>,
) -> bool {
    match reply {
        Err(e) => r matches Err(why) && why@ == "the current delegate did not answer: "@ + e.words(),
        Ok(DecodedReply::Missing) => r matches Err(why) && why@
            == "the current delegate is not registered"@,
        Ok(DecodedReply::Answers(answers)) => match first_match(expect, answers@) {
            Some(a) => r == Ok::<HarvestDelegateResponse, String>(a),
            None => r matches Err(why) && why@ == "the current delegate answered something else"@,
        },
    }
}

/// What an answer about one secret's import amounts to.
pub open spec fn import_outcome(
    asked: Result<HarvestDelegateResponse, String>,
    outcome: SecretImport,
) -> bool {
    match asked {
        Ok(HarvestDelegateResponse::MigratedSecretImported { outcome: o, .. }) => outcome == o,
        Ok(_) => outcome matches SecretImport::Retryable(why) && why@ == "unexpected answer"@,
        Err(e) => outcome == SecretImport::Retryable(e),
    }
}

/// Why a marker read is refused.
pub open spec fn stopping_words() -> Seq<char> {
    "a newer generation did not answer, or did not finish for a reason a retry fixes; stopping so an older one cannot shadow it"@
}

/// The successor side of a walk: the current delegate's own import path.
pub struct Successor {
    /// The current delegate's key.
    pub current: [u8; 32],
}

impl Successor {
    /// The successor side that speaks to the delegate `current`.
    pub fn new(current: [u8; 32]) -> (r: Self)
        ensures
            r.current == current,
    {
        Successor { current }
    }

    /// Pick the awaited answer out of a reply of the current delegate.
    pub fn ask(&self, expect: &Expect, reply: Result<DecodedReply, CallError>) -> (r: Result<
        HarvestDelegateResponse,
        String,
    >)
        ensures
            asked(*expect, reply, r),
    {
        match reply {
            Err(e) => {
                let mut why = "the current delegate did not answer: ".to_string();
                why.append(&e.message());
                Err(why)
            },
            Ok(DecodedReply::Missing) => Err("the current delegate is not registered".to_string()),
            Ok(DecodedReply::Answers(answers)) => match find_answer(expect, answers) {
                Some(response) => Ok(response),
                None => Err("the current delegate answered something else".to_string()),
            },
        }
    }

    /// The request that reads the marker of the predecessor with this key,
    /// unless the walk has to stop here: it is halted already, or the
    /// predecessor just written blocks it.
    pub fn migration_marker_request(&self, walk: &mut Walk, key: &[u8]) -> (r: Result<
        DelegateCall,
        String,
    >)
        ensures
            final(walk)@ == old(walk)@.at_marker(),
            (if final(walk)@.halted {
                r matches Err(why) && why@ == stopping_words()
            } else if key@.len() != 32 {
                r matches Err(why) && why@ == "a delegate key that is not 32 bytes"@
            } else {
                &&& r matches Ok(call)
                &&& call.request matches HarvestDelegateRequest::GetPredecessorMarker { predecessor }
                &&& predecessor@ == key@
                &&& call.awaits == Expect::PredecessorMarker(predecessor)
            }),
    {
        if walk.carrier_blocks() {
            walk.halted = true;
        }
        if walk.halted {
            return Err(
                "a newer generation did not answer, or did not finish for a reason a retry fixes; stopping so an older one cannot shadow it".to_string(),
            );
        }
        match key_bytes(key) {
            Ok(predecessor) => Ok(
                DelegateCall {
                    request: HarvestDelegateRequest::GetPredecessorMarker { predecessor },
                    awaits: Expect::PredecessorMarker(predecessor),
                },
            ),
            Err(why) => Err(why),
        }
    }

    /// The request that records a predecessor's marker.
    pub fn record_marker_request(
        &self,
        predecessor: [u8; 32],
        marker: PredecessorMarkerState,
    ) -> (r: DelegateCall)
        ensures
            r.request == (HarvestDelegateRequest::RecordPredecessorMarker { predecessor, marker }),
            r.awaits == Expect::PredecessorMarkerRecorded(predecessor),
    {
        DelegateCall {
            request: HarvestDelegateRequest::RecordPredecessorMarker { predecessor, marker },
            awaits: Expect::PredecessorMarkerRecorded(predecessor),
        }
    }

    /// The request that applies one secret a predecessor handed over. Only an
    /// answer about that predecessor and that secret answers it.
    pub fn import_request(&self, predecessor: [u8; 32], key: &[u8], value: &[u8]) -> (r:
        DelegateCall)
        ensures
            r.request matches HarvestDelegateRequest::ImportMigratedSecret {
                predecessor: from,
                key: k,
                value: v,
            } && from == predecessor && k@ == key@ && v@ == value@,
            r.awaits matches Expect::SecretImported { predecessor: from, key: k } && from
                == predecessor && k@ == key@,
    {
        DelegateCall {
            request: HarvestDelegateRequest::ImportMigratedSecret {
                predecessor,
                key: bytes::copy_bytes(key),
                value: bytes::copy_bytes(value),
            },
            awaits: Expect::SecretImported { predecessor, key: bytes::copy_bytes(key) },
        }
    }

    /// What the answer to that request says.
    pub fn migration_marker(
        &self,
        predecessor: [u8; 32],
        reply: Result<DecodedReply, CallError>,
    ) -> (r: Result<Option<PredecessorMarkerState>, String>)
        ensures
            exists|answer: Result<HarvestDelegateResponse, String>|
                asked(Expect::PredecessorMarker(predecessor), reply, answer) && (match answer {
                    Ok(HarvestDelegateResponse::PredecessorMarker { marker, .. }) => r == Ok::<
                        Option<PredecessorMarkerState>,
                        String,
                    >(marker),
                    Ok(_) => false,
                    Err(e) => r == Err::<Option<PredecessorMarkerState>, String>(e),
                }),
    {
        let expect = Expect::PredecessorMarker(predecessor);
        let ghost received = reply;
        proof {
            if let Ok(DecodedReply::Answers(answers)) = received {
                lemma_first_match_matches(expect, answers@);
            }
        }
        let answer = self.ask(&expect, reply);
        let ghost said = answer;
        assert(asked(expect, received, said));
        match answer {
            Ok(HarvestDelegateResponse::PredecessorMarker { marker, .. }) => Ok(marker),
            Ok(_) => Err("unexpected answer".to_string()),
            Err(e) => Err(e),
        }
    }

    /// What the answer to a marker write does: whether the marker was
    /// recorded, and, for a completion marker, whether the predecessor is
    /// sealed or left for a retry.
    pub fn record_marker(
        &self,
        walk: &mut Walk,
        predecessor: [u8; 32],
        marker: PredecessorMarkerState,
        reply: Result<DecodedReply, CallError>,
    ) -> (r: Result<(), String>)
        ensures
            exists|answer: Result<HarvestDelegateResponse, String>|
                asked(Expect::PredecessorMarkerRecorded(predecessor), reply, answer)
                    && marker_recorded(answer, r),
            final(walk)@ == (if marker is Done {
                old(walk)@.sealing(predecessor, r is Ok)
            } else {
                old(walk)@
            }),
    {
        let expect = Expect::PredecessorMarkerRecorded(predecessor);
        let answer = self.ask(&expect, reply);
        let ghost said = answer;
        assert(asked(expect, reply, said));
        let result: Result<(), String> = match answer {
            Ok(HarvestDelegateResponse::PredecessorMarkerRecorded { recorded: true, .. }) => Ok(()),
            Ok(_) => Err("the current delegate did not record the marker".to_string()),
            Err(e) => Err(e),
        };
        assert(marker_recorded(said, result));
        if let PredecessorMarkerState::Done { .. } = marker {
            let mut carrier = walk.carrier_for(predecessor);
            if result.is_ok() {
                carrier.sealed = true;
            } else {
                carrier.retryable = true;
            }
            walk.carrier = Some(carrier);
        }
        result
    }

    /// What the answer to one secret's import does to the walk, and what the
    /// driver is told. Silence is a retry, never a success.
    pub fn write_secret(
        &self,
        walk: &mut Walk,
        predecessor: [u8; 32],
        key: &[u8],
        reply: Result<DecodedReply, CallError>,
    ) -> (r: ItemWrite)
        ensures
            exists|expect: Expect, answer: Result<HarvestDelegateResponse, String>, outcome: SecretImport|
                #![trigger asked(expect, reply, answer), import_outcome(answer, outcome)]
                awaits_import(expect, predecessor, key@) && asked(expect, reply, answer)
                    && import_outcome(answer, outcome) && final(walk)@ == old(walk)@.wrote(
                    predecessor,
                    key@,
                    outcome,
                ) && r == item_write(outcome),
    {
        let expect = Expect::SecretImported { predecessor, key: bytes::copy_bytes(key) };
        let answer = self.ask(&expect, reply);
        let ghost said = answer;
        assert(asked(expect, reply, said));
        let outcome = match answer {
            Ok(HarvestDelegateResponse::MigratedSecretImported { outcome, .. }) => outcome,
            Ok(_) => SecretImport::Retryable("unexpected answer".to_string()),
            Err(e) => SecretImport::Retryable(e),
        };
        assert(import_outcome(said, outcome));
        let ghost before = walk@;
        let is_written = match &outcome {
            SecretImport::Written => true,
            _ => false,
        };
        if is_written {
            let ghost old_written = walk.written@;
            walk.written.push(bytes::copy_bytes(key));
            assert(byte_seqs(walk.written@) =~= byte_seqs(old_written).push(key@));
        }
        let mut carrier = walk.carrier_for(predecessor);
        let permanent = match &outcome {
            SecretImport::Permanent(_) => true,
            _ => false,
        };
        let retryable = match &outcome {
            SecretImport::Retryable(_) => true,
            _ => false,
        };
        if travelling(key) && !permanent {
            carrier.staged = true;
        }
        if retryable {
            carrier.retryable = true;
        }
        walk.carrier = Some(carrier);
        assert(walk@ == before.wrote(predecessor, key@, outcome));
        assert(awaits_import(expect, predecessor, key@));
        to_item_write(outcome)
    }
}

/// Whether `expect` waits for the verdict on the secret `key` of
/// `predecessor`.
pub open spec fn awaits_import(expect: Expect, predecessor: [u8; 32], key: Seq<u8>) -> bool {
    expect matches Expect::SecretImported { predecessor: p, key: k } && p == predecessor && k@ == key
}

/// Whether `r` is what an answer to a marker write says.
pub open spec fn marker_recorded(
    answer: Result<HarvestDelegateResponse, String>,
    r: Result<(), String>,
) -> bool {
    match answer {
        Ok(HarvestDelegateResponse::PredecessorMarkerRecorded { recorded, .. }) => if recorded {
            r is Ok
        } else {
            r matches Err(why) && why@ == "the current delegate did not record the marker"@
        },
        Ok(_) => r matches Err(why) && why@ == "the current delegate did not record the marker"@,
        Err(e) => r == Err::<(), String>(e),
    }
}

proof fn lemma_first_match_matches(
    expect: Expect,
    answers: Seq<Option<HarvestDelegateResponse>>,
)
    ensures
        first_match(expect, answers) matches Some(a) ==> expect.is_answered_by(a),
    decreases answers.len(),
{
    if answers.len() > 0 {
        lemma_first_match_matches(expect, answers.skip(1));
    }
}

/// Whether re-running the migration could make a failed item succeed.
#[derive(Debug, Clone, Copy, PartialEq, Eq, Structural)]
pub enum RetryAdvice {
    Retryable,
    Permanent,
}

/// What became of one recovered secret, as the driver counts it.
#[derive(Debug, Clone, PartialEq, Eq)]
pub enum ItemWrite {
    Written,
    AlreadyAuthoritative,
    Failed { error: String, retry: RetryAdvice },
}

/// The delegate's verdict on one secret, in the driver's terms.
pub open spec fn item_write(outcome: SecretImport) -> ItemWrite {
    match outcome {
        SecretImport::Written => ItemWrite::Written,
        SecretImport::AlreadyAuthoritative => ItemWrite::AlreadyAuthoritative,
        SecretImport::Retryable(why) => ItemWrite::Failed {
            error: why,
            retry: RetryAdvice::Retryable,
        },
        SecretImport::Permanent(why) => ItemWrite::Failed {
            error: why,
            retry: RetryAdvice::Permanent,
        },
    }
}

/// The delegate's verdict on one secret, in the driver's terms.
pub fn to_item_write(outcome: SecretImport) -> (r: ItemWrite)
    ensures
        r == item_write(outcome),
{
    match outcome {
        SecretImport::Written => ItemWrite::Written,
        SecretImport::AlreadyAuthoritative => ItemWrite::AlreadyAuthoritative,
        SecretImport::Retryable(why) => ItemWrite::Failed {
            error: why,
            retry: RetryAdvice::Retryable,
        },
        SecretImport::Permanent(why) => ItemWrite::Failed {
            error: why,
            retry: RetryAdvice::Permanent,
        },
    }
}

/// How many of a predecessor's items were written, failed, and were refused.
#[derive(Debug, Clone, Copy, PartialEq, Eq, Structural)]
pub struct ImportTally {
    pub written: usize,
    pub failed: usize,
    pub rejected: usize,
}

/// What happened for one predecessor.
#[derive(Debug, Clone, Copy, PartialEq, Eq, Structural)]
pub enum PredecessorMigration {
    Imported { generation: u32, tally: ImportTally },
    NoData { generation: u32 },
    AlreadyMigrated { generation: u32 },
    Unresponsive { generation: u32 },
    Incomplete { generation: u32, tally: ImportTally },
    WriterUnavailable { generation: u32 },
    Superseded { generation: u32 },
}

impl PredecessorMigration {
    /// The generation this is about.
    pub open spec fn which(self) -> u32 {
        match self {
            PredecessorMigration::Imported { generation, .. } => generation,
            PredecessorMigration::NoData { generation } => generation,
            PredecessorMigration::AlreadyMigrated { generation } => generation,
            PredecessorMigration::Unresponsive { generation } => generation,
            PredecessorMigration::Incomplete { generation, .. } => generation,
            PredecessorMigration::WriterUnavailable { generation } => generation,
            PredecessorMigration::Superseded { generation } => generation,
        }
    }

    /// The generation this is about.
    pub fn generation(&self) -> (r: u32)
        ensures
            r == self.which(),
    {
        match *self {
            PredecessorMigration::Imported { generation, .. } => generation,
            PredecessorMigration::NoData { generation } => generation,
            PredecessorMigration::AlreadyMigrated { generation } => generation,
            PredecessorMigration::Unresponsive { generation } => generation,
            PredecessorMigration::Incomplete { generation, .. } => generation,
            PredecessorMigration::WriterUnavailable { generation } => generation,
            PredecessorMigration::Superseded { generation } => generation,
        }
    }

    /// Whether this predecessor reached no verdict the walk can rest on.
    pub open spec fn unsettled(self) -> bool {
        self is Incomplete || self is WriterUnavailable
    }

    /// Whether something of this predecessor was carried in.
    pub open spec fn carried_something(self) -> bool {
        match self {
            PredecessorMigration::Imported { tally, .. } => tally.written > 0,
            PredecessorMigration::Incomplete { tally, .. } => tally.written > 0,
            _ => false,
        }
    }

    /// What the log says of this predecessor.
    pub open spec fn words(self) -> Seq<char> {
        "V"@ + text::decimal(self.which() as nat) + ": "@ + (match self {
            PredecessorMigration::Imported { tally, .. } => "imported "@ + text::decimal(
                tally.written as nat,
            ),
            PredecessorMigration::NoData { .. } => "empty"@,
            PredecessorMigration::AlreadyMigrated { .. } => "done earlier"@,
            PredecessorMigration::Unresponsive { .. } => "not answering"@,
            PredecessorMigration::Incomplete { tally, .. } => "incomplete ("@ + text::decimal(
                tally.written as nat,
            ) + " written, "@ + text::decimal(tally.failed as nat) + " failed, "@ + text::decimal(
                tally.rejected as nat,
            ) + " refused)"@,
            PredecessorMigration::WriterUnavailable { .. } => "current delegate unavailable"@,
            PredecessorMigration::Superseded { .. } => "superseded"@,
        })
    }

    fn describe(&self) -> (r: String)
        ensures
            r@ == self.words(),
    {
        let what: String = match self {
            PredecessorMigration::Imported { tally, .. } => {
                let mut s = "imported ".to_string();
                s.append(&text::count_text(tally.written));
                s
            },
            PredecessorMigration::NoData { .. } => "empty".to_string(),
            PredecessorMigration::AlreadyMigrated { .. } => "done earlier".to_string(),
            PredecessorMigration::Unresponsive { .. } => "not answering".to_string(),
            PredecessorMigration::Incomplete { tally, .. } => {
                let mut s = "incomplete (".to_string();
                s.append(&text::count_text(tally.written));
                s.append(" written, ");
                s.append(&text::count_text(tally.failed));
                s.append(" failed, ");
                s.append(&text::count_text(tally.rejected));
                s.append(" refused)");
                s
            },
            PredecessorMigration::WriterUnavailable { .. } => {
                "current delegate unavailable".to_string()
            },
            PredecessorMigration::Superseded { .. } => "superseded".to_string(),
        };
        let mut r = "V".to_string();
        r.append(&text::decimal_text(self.generation() as u64));
        r.append(": ");
        r.append(&what);
        r
    }
}

/// What happened for each predecessor, newest first.
#[derive(Debug, Clone, PartialEq, Eq)]
pub struct DelegateMigrationReport {
    pub predecessors: Vec<PredecessorMigration>,
}

/// What a walk ended with.
pub struct Outcome {
    pub report: DelegateMigrationReport,
    pub walk: Walk,
}

/// The fingerprints named by the RSA public keys among `keys`.
pub open spec fn rsa_fingerprints(keys: Seq<Seq<u8>>) -> Seq<Seq<u8>> {
    keys.filter(
        |k: Seq<u8>|
            bytes::has_prefix(k, rsa_prefix()) && vstd::utf8::valid_utf8(
                k.skip(rsa_prefix().len() as int),
            ),
    ).map_values(|k: Seq<u8>| k.skip(rsa_prefix().len() as int))
}

/// The UTF-8 bytes of each text.
pub open spec fn encoded(v: Seq<String>) -> Seq<Seq<u8>> {
    v.map_values(|s: String| vstd::utf8::encode_utf8(s@))
}

impl Outcome {
    /// Every registered predecessor was dealt with: nothing was silent,
    /// nothing is half-imported, the current delegate answered throughout.
    /// Only then may work that could pre-empt an import go ahead.
    pub fn complete(&self) -> (r: bool)
        ensures
            r == (!self.walk.halted && forall|i: int|
                0 <= i < self.report.predecessors@.len()
                    ==> !(#[trigger] self.report.predecessors@[i]).unsettled()),
            r == (!self.walk.halted && forall|i: int|
                0 <= i < self.report.predecessors@.len() ==> !((
                #[trigger] self.report.predecessors@[i]) is Incomplete)
                    && !(self.report.predecessors@[i] is WriterUnavailable)),
    {
        if self.walk.halted {
            return false;
        }
        let mut i: usize = 0;
        while i < self.report.predecessors.len()
            invariant
                i <= self.report.predecessors.len(),
                forall|j: int|
                    0 <= j < i ==> !(#[trigger] self.report.predecessors@[j]).unsettled(),
            decreases self.report.predecessors.len() - i,
        {
            match self.report.predecessors[i] {
                PredecessorMigration::Incomplete { .. } => {
                    assert(self.report.predecessors@[i as int].unsettled());
                    return false;
                },
                PredecessorMigration::WriterUnavailable { .. } => {
                    assert(self.report.predecessors@[i as int].unsettled());
                    return false;
                },
                _ => {},
            }
            i = i + 1;
        }
        true
    }

    /// The Ghost Key fingerprints whose RSA public key was imported, in the
    /// order they were written, so the app can ask for exactly those.
    pub fn imported_rsa_fingerprints(&self) -> (r: Vec<String>)
        ensures
            encoded(r@) == rsa_fingerprints(self.walk@.written),
    {
        // harvest:rsa_pk:
        let prefix: [u8; 15] = [
            104, 97, 114, 118, 101, 115, 116, 58, 114, 115, 97, 95, 112, 107, 58,
        ];
        assert(prefix@ =~= rsa_prefix());
        let ghost keys = self.walk@.written;
        let ghost keep = |k: Seq<u8>|
            bytes::has_prefix(k, rsa_prefix()) && vstd::utf8::valid_utf8(
                k.skip(rsa_prefix().len() as int),
            );
        let ghost cut = |k: Seq<u8>| k.skip(rsa_prefix().len() as int);
        let mut r: Vec<String> = Vec::new();
        let mut i: usize = 0;
        proof {
            seqs::lemma_filter_none(keys, keep);
            assert(encoded(r@) =~= keys.take(0).filter(keep).map_values(cut));
        }
        while i < self.walk.written.len()
            invariant
                i <= self.walk.written.len(),
                keys == byte_seqs(self.walk.written@),
                prefix@ == rsa_prefix(),
                keep == (|k: Seq<u8>|
                    bytes::has_prefix(k, rsa_prefix()) && vstd::utf8::valid_utf8(
                        k.skip(rsa_prefix().len() as int),
                    )),
                cut == (|k: Seq<u8>| k.skip(rsa_prefix().len() as int)),
                encoded(r@) == keys.take(i as int).filter(keep).map_values(cut),
            decreases self.walk.written.len() - i,
        {
            proof {
                seqs::lemma_filter_step(keys, keep, i as int);
                assert(keys[i as int] == self.walk.written@[i as int]@);
            }
            let key = &self.walk.written[i];
            let ghost before = r@;
            if bytes::starts_with(key, &prefix) {
                if let Some(fingerprint) = bytes::utf8_text(bytes::skip_bytes(key, 15)) {
                    r.push(fingerprint);
                    assert(encoded(r@) =~= encoded(before).push(cut(keys[i as int])));
                    assert(keys.take(i as int).filter(keep).push(keys[i as int]).map_values(cut)
                        =~= keys.take(i as int).filter(keep).map_values(cut).push(
                        cut(keys[i as int]),
                    ));
                }
            }
            i = i + 1;
        }
        assert(keys.take(i as int) =~= keys);
        r
    }
}

/// Whether a report carried anything in, so the app should ask the delegate
/// again for what it now holds.
pub fn imported_anything(report: &DelegateMigrationReport) -> (r: bool)
    ensures
        r == exists|i: int|
            0 <= i < report.predecessors@.len() && (
            #[trigger] report.predecessors@[i]).carried_something(),
{
    let mut i: usize = 0;
    while i < report.predecessors.len()
        invariant
            i <= report.predecessors.len(),
            forall|j: int|
                0 <= j < i ==> !(#[trigger] report.predecessors@[j]).carried_something(),
        decreases report.predecessors.len() - i,
    {
        let carried = match report.predecessors[i] {
            PredecessorMigration::Imported { tally, .. } => tally.written > 0,
            PredecessorMigration::Incomplete { tally, .. } => tally.written > 0,
            _ => false,
        };
        if carried {
            assert(report.predecessors@[i as int].carried_something());
            return true;
        }
        i = i + 1;
    }
    false
}

/// The words for each predecessor, separated by `, `.
pub open spec fn summary(predecessors: Seq<PredecessorMigration>) -> Seq<char>
    decreases predecessors.len(),
{
    if predecessors.len() == 0 {
        Seq::empty()
    } else if predecessors.len() == 1 {
        predecessors[0].words()
    } else {
        summary(predecessors.drop_last()) + ", "@ + predecessors.last().words()
    }
}

/// A one-line summary of a report for the log. Names generations and counts,
/// never a secret key or value.
pub fn summarize(report: &DelegateMigrationReport) -> (r: String)
    ensures
        r@ == summary(report.predecessors@),
{
    let mut r = String::new();
    let mut i: usize = 0;
    while i < report.predecessors.len()
        invariant
            i <= report.predecessors.len(),
            r@ == summary(report.predecessors@.take(i as int)),
        decreases report.predecessors.len() - i,
    {
        let ghost next = report.predecessors@.take(i + 1);
        assert(next.drop_last() =~= report.predecessors@.take(i as int));
        assert(next.last() == report.predecessors@[i as int]);
        if i > 0 {
            r.append(", ");
        } else {
            assert(r@ + next.last().words() =~= next.last().words());
        }
        r.append(&report.predecessors[i].describe());
        i = i + 1;
    }
    assert(report.predecessors@.take(i as int) =~= report.predecessors@);
    r
}

/// Work that must wait for the delegate migration, and what becomes of it.
///
/// The work runs only once a walk has reached a verdict on every registered
/// predecessor. A walk that did not drops the work for this load, and the
/// next load tries again; there is no deadline that lets it go ahead anyway.
pub enum SettleGate<W> {
    Waiting(Vec<W>),
    Released,
    Withheld,
}

/// A [`SettleGate`], with its queue as a sequence.
pub enum GateView<W> {
    Waiting(Seq<W>),
    Released,
    Withheld,
}

impl<W> View for SettleGate<W> {
    type V = GateView<W>;

    open spec fn view(&self) -> GateView<W> {
        match self {
            SettleGate::Waiting(queue) => GateView::Waiting(queue@),
            SettleGate::Released => GateView::Released,
            SettleGate::Withheld => GateView::Withheld,
        }
    }
}

impl<W> GateView<W> {
    /// How it stands after work was offered.
    pub open spec fn after_defer(self, work: W) -> GateView<W> {
        match self {
            GateView::Waiting(queue) => GateView::Waiting(queue.push(work)),
            other => other,
        }
    }

    /// Whether work offered now runs now.
    pub open spec fn runs_now(self) -> bool {
        self is Released
    }

    /// How it stands after a walk ended.
    pub open spec fn after_settle(self, complete: bool) -> GateView<W> {
        match self {
            GateView::Waiting(_) => if complete {
                GateView::Released
            } else {
                GateView::Withheld
            },
            other => other,
        }
    }

    /// The work a walk's end lets run.
    pub open spec fn released_by(self, complete: bool) -> Seq<W> {
        match self {
            GateView::Waiting(queue) => if complete {
                queue
            } else {
                Seq::empty()
            },
            _ => Seq::empty(),
        }
    }

    /// How it stands after a run of offers, none of them settled in between.
    pub open spec fn after_offers(self, offers: Seq<W>) -> GateView<W>
        decreases offers.len(),
    {
        if offers.len() == 0 {
            self
        } else {
            self.after_offers(offers.drop_last()).after_defer(offers.last())
        }
    }
}

impl<W> Default for SettleGate<W> {
    fn default() -> (r: Self)
        ensures
            r@ == GateView::<W>::Waiting(Seq::empty()),
    {
        SettleGate::Waiting(Vec::new())
    }
}

impl<W> SettleGate<W> {
    /// Offer work. Returns it back if it may run now; keeps it if the walk is
    /// still running; drops it if this load's walk did not complete.
    pub fn defer(&mut self, work: W) -> (r: Option<W>)
        ensures
            final(self)@ == old(self)@.after_defer(work),
            r == (if old(self)@.runs_now() {
                Some(work)
            } else {
                None
            }),
    {
        match self {
            SettleGate::Waiting(queue) => {
                queue.push(work);
                None
            },
            SettleGate::Released => Some(work),
            SettleGate::Withheld => None,
        }
    }

    /// The walk ended. Returns the work that may now run: all of it if the
    /// walk completed, none if it did not. A second call changes nothing.
    pub fn settle(&mut self, complete: bool) -> (r: Vec<W>)
        ensures
            final(self)@ == old(self)@.after_settle(complete),
            r@ == old(self)@.released_by(complete),
    {
        let mut before = SettleGate::Withheld;
        std::mem::swap(self, &mut before);
        match before {
            SettleGate::Waiting(queue) => {
                if complete {
                    *self = SettleGate::Released;
                    queue
                } else {
                    Vec::new()
                }
            },
            SettleGate::Released => {
                *self = SettleGate::Released;
                Vec::new()
            },
            SettleGate::Withheld => Vec::new(),
        }
    }
}

/// A second settle changes nothing and releases nothing, whatever the two
/// walks came to.
pub proof fn a_second_settle_changes_nothing<W>(gate: GateView<W>, first: bool, second: bool)
    ensures
        gate.after_settle(first).after_settle(second) == gate.after_settle(first),
        gate.after_settle(first).released_by(second) == Seq::<W>::empty(),
{
}

/// Work offered while the walk runs is kept, all of it and in order: it runs
/// when a complete walk settles, and none of it before.
pub proof fn deferred_work_runs_once_the_walk_completes<W>(offers: Seq<W>)
    ensures
        !GateView::<W>::Waiting(Seq::empty()).after_offers(offers).runs_now(),
        GateView::<W>::Waiting(Seq::empty()).after_offers(offers).released_by(true) == offers,
        GateView::<W>::Waiting(Seq::empty()).after_offers(offers) == GateView::Waiting(offers),
    decreases offers.len(),
{
    if offers.len() == 0 {
        assert(offers =~= Seq::empty());
    } else {
        deferred_work_runs_once_the_walk_completes(offers.drop_last());
        assert(offers.drop_last().push(offers.last()) =~= offers);
    }
}

/// An incomplete walk releases nothing, and nothing offered after it ever
/// runs, however much is offered and however often a walk ends.
pub proof fn an_incomplete_walk_runs_nothing<W>(
    queue: Seq<W>,
    offers: Seq<W>,
    complete: bool,
)
    ensures
        GateView::Waiting(queue).released_by(false) == Seq::<W>::empty(),
        !GateView::Waiting(queue).after_settle(false).after_offers(offers).runs_now(),
        GateView::Waiting(queue).after_settle(false).after_offers(offers).after_settle(complete)
            == GateView::<W>::Withheld,
        GateView::Waiting(queue).after_settle(false).after_offers(offers).released_by(complete)
            == Seq::<W>::empty(),
    decreases offers.len(),
{
    if offers.len() > 0 {
        an_incomplete_walk_runs_nothing(queue, offers.drop_last(), complete);
    }
}

/// Something that happens during a walk.
pub enum WalkEvent {
    /// A predecessor answered the probe, or the node never ran it.
    ProbeAnswered,
    /// A registered predecessor was silent, or could not be asked.
    ProbeSilent,
    /// An export was answered.
    ExportAnswered,
    /// An export failed.
    ExportFailed,
    /// The driver asks for the next predecessor's marker.
    MarkerAsked,
    /// A completion marker was answered.
    Sealed { predecessor: [u8; 32], landed: bool },
    /// An item was offered to the current delegate.
    Wrote { predecessor: [u8; 32], key: Seq<u8>, outcome: SecretImport },
}

impl WalkView {
    /// The walk after one event.
    pub open spec fn step(self, event: WalkEvent) -> WalkView {
        match event {
            WalkEvent::ProbeAnswered => self,
            WalkEvent::ExportAnswered => self,
            WalkEvent::ProbeSilent => self.stopped(),
            WalkEvent::ExportFailed => self.stopped(),
            WalkEvent::MarkerAsked => self.at_marker(),
            WalkEvent::Sealed { predecessor, landed } => self.sealing(predecessor, landed),
            WalkEvent::Wrote { predecessor, key, outcome } => self.wrote(predecessor, key, outcome),
        }
    }

    /// The walk after a run of events.
    pub open spec fn after(self, events: Seq<WalkEvent>) -> WalkView
        decreases events.len(),
    {
        if events.len() == 0 {
            self
        } else {
            self.after(events.drop_last()).step(events.last())
        }
    }
}

/// A walk that has stopped stays stopped, whatever happens next, so no older
/// generation's marker is read again in this run.
pub proof fn a_stopped_walk_stays_stopped(walk: WalkView, events: Seq<WalkEvent>)
    requires
        walk.halted,
    ensures
        walk.after(events).halted,
        walk.after(events).at_marker().halted,
    decreases events.len(),
{
    if events.len() > 0 {
        a_stopped_walk_stays_stopped(walk, events.drop_last());
    }
}

/// A generation that is registered and silent, or whose export fails, stops
/// the walk for good: after it, whatever else happens, the next marker is
/// refused.
pub proof fn a_silent_generation_stops_the_walk(walk: WalkView, events: Seq<WalkEvent>)
    ensures
        walk.step(WalkEvent::ProbeSilent).after(events).at_marker().halted,
        walk.step(WalkEvent::ExportFailed).after(events).at_marker().halted,
{
    a_stopped_walk_stays_stopped(walk.step(WalkEvent::ProbeSilent), events);
    a_stopped_walk_stays_stopped(walk.step(WalkEvent::ExportFailed), events);
}

/// A generation the node never ran, like one that answers, leaves the walk as
/// it was: it hides no older generation.
pub proof fn a_missing_generation_hides_nothing(walk: WalkView)
    ensures
        walk.step(WalkEvent::ProbeAnswered) == walk,
        walk.step(WalkEvent::ExportAnswered) == walk,
{
}

/// A carrier that staged a travelling record and was left to a retry blocks
/// the next marker, whichever of its items the retry is for; one that failed
/// only permanently does not block it; and sealing it unblocks the walk.
pub proof fn a_carrier_left_to_a_retry_blocks_the_walk(
    walk: WalkView,
    predecessor: [u8; 32],
    record: Seq<u8>,
    taken: SecretImport,
    other: Seq<u8>,
    retried: SecretImport,
)
    requires
        walk.carrier_of(predecessor) == (Carrier {
            predecessor,
            staged: false,
            retryable: false,
            sealed: false,
        }),
        is_travelling(record),
        !(taken is Permanent),
        retried is Retryable,
    ensures
        walk.wrote(predecessor, record, taken).wrote(predecessor, other, retried).blocked(),
        walk.wrote(predecessor, other, retried).wrote(predecessor, record, taken).blocked(),
        walk.wrote(predecessor, record, retried).blocked(),
        !walk.wrote(predecessor, record, taken).wrote(predecessor, other, retried).sealing(
            predecessor,
            true,
        ).blocked(),
        forall|refused: SecretImport|
            refused is Permanent && taken !is Retryable ==> !#[trigger] walk.wrote(
                predecessor,
                record,
                taken,
            ).wrote(predecessor, other, refused).blocked(),
        walk.wrote(predecessor, record, taken).sealing(predecessor, false).blocked(),
{
}

/// A refusal is never told to the driver as a success: only what the current
/// delegate wrote, or already held, counts as done.
pub proof fn a_refusal_is_never_authoritative(outcome: SecretImport)
    ensures
        item_write(outcome) is Written <==> outcome is Written,
        item_write(outcome) is AlreadyAuthoritative <==> outcome is AlreadyAuthoritative,
        item_write(outcome) matches ItemWrite::Failed { retry, .. } ==> (retry is Retryable
            <==> outcome is Retryable),
{
}

/// A row that did not finish leaves the walk unsettled whatever it carried,
/// as does one whose writer was unavailable; no other row does.
pub proof fn only_an_unfinished_row_is_unsettled(generation: u32, tally: ImportTally)
    ensures
        (PredecessorMigration::Incomplete { generation, tally }).unsettled(),
        (PredecessorMigration::WriterUnavailable { generation }).unsettled(),
        !(PredecessorMigration::Imported { generation, tally }).unsettled(),
        !(PredecessorMigration::NoData { generation }).unsettled(),
        !(PredecessorMigration::AlreadyMigrated { generation }).unsettled(),
        !(PredecessorMigration::Unresponsive { generation }).unsettled(),
        !(PredecessorMigration::Superseded { generation }).unsettled(),
{
}

/// A walk is complete exactly where it was not stopped and no row of its
/// report is incomplete, whatever the row's tally, or lacked a writer.
pub proof fn a_walk_with_an_unfinished_row_is_not_complete(outcome: Outcome)
    ensures
        (!outcome.walk.halted && forall|i: int|
            0 <= i < outcome.report.predecessors@.len() ==> !(
            #[trigger] outcome.report.predecessors@[i]).unsettled()) <==> (!outcome.walk.halted
            && forall|i: int|
            0 <= i < outcome.report.predecessors@.len() ==> (match (
            #[trigger] outcome.report.predecessors@[i]) {
                PredecessorMigration::Incomplete { .. } => false,
                PredecessorMigration::WriterUnavailable { .. } => false,
                _ => true,
            })),
{
}

/// A row carried something exactly where it is an import, finished or not,
/// that wrote at least one secret.
pub proof fn only_a_written_secret_was_carried(generation: u32, tally: ImportTally)
    ensures
        (PredecessorMigration::Imported { generation, tally }).carried_something()
            <==> tally.written > 0,
        (PredecessorMigration::Incomplete { generation, tally }).carried_something()
            <==> tally.written > 0,
        !(PredecessorMigration::NoData { generation }).carried_something(),
        !(PredecessorMigration::AlreadyMigrated { generation }).carried_something(),
        !(PredecessorMigration::Unresponsive { generation }).carried_something(),
        !(PredecessorMigration::WriterUnavailable { generation }).carried_something(),
        !(PredecessorMigration::Superseded { generation }).carried_something(),
{
}

/// Every row names the generation it is about.
pub proof fn a_row_names_its_generation(generation: u32, tally: ImportTally)
    ensures
        (PredecessorMigration::Imported { generation, tally }).which() == generation,
        (PredecessorMigration::NoData { generation }).which() == generation,
        (PredecessorMigration::AlreadyMigrated { generation }).which() == generation,
        (PredecessorMigration::Unresponsive { generation }).which() == generation,
        (PredecessorMigration::Incomplete { generation, tally }).which() == generation,
        (PredecessorMigration::WriterUnavailable { generation }).which() == generation,
        (PredecessorMigration::Superseded { generation }).which() == generation,
{
}

/// Every generation from the fifth on exports, and no earlier one does; those
/// that do keep their order.
pub proof fn the_fifth_generation_and_later_export(
    lineage: Seq<DelegateLineageEntry>,
    entry: DelegateLineageEntry,
)
    ensures
        exporting(Seq::empty()) == Seq::<DelegateLineageEntry>::empty(),
        entry.generation >= 5 ==> exporting(lineage.push(entry)) == exporting(lineage).push(entry),
        entry.generation < 5 ==> exporting(lineage.push(entry)) == exporting(lineage),
{
    reveal(Seq::filter);
    assert(lineage.push(entry).drop_last() =~= lineage);
}

/// An answer about a predecessor is a call's own only where the call asked
/// for that kind of answer about that predecessor, and, for a secret, about
/// that key; a call to a predecessor itself takes whatever comes, and one for
/// an export takes no decoded answer.
pub proof fn an_answer_is_taken_only_by_the_call_it_is_for(
    expect: Expect,
    predecessor: [u8; 32],
    marker: PredecessorMarkerState,
    found: Option<PredecessorMarkerState>,
    recorded: bool,
    key: Vec<u8>,
    outcome: SecretImport,
)
    ensures
        expect.is_answered_by(
            HarvestDelegateResponse::PredecessorMarker { predecessor, marker: found },
        ) <==> expect is AnyFrom || expect == Expect::PredecessorMarker(predecessor),
        expect.is_answered_by(
            HarvestDelegateResponse::PredecessorMarkerRecorded { predecessor, marker, recorded },
        ) <==> expect is AnyFrom || expect == Expect::PredecessorMarkerRecorded(predecessor),
        expect.is_answered_by(
            HarvestDelegateResponse::MigratedSecretImported { predecessor, key, outcome },
        ) <==> expect is AnyFrom || (expect matches Expect::SecretImported {
            predecessor: asked_of,
            key: asked_for,
        } && asked_of == predecessor && asked_for@ == key@),
        expect.is_answered_by(HarvestDelegateResponse::Other) <==> expect is AnyFrom,
{
}

/// A payload is taken by a call to a predecessor whatever it holds, by a call
/// for an export where it decodes as one, and by any other call where it
/// decodes as an answer of that call's own.
pub proof fn a_payload_is_taken_by_what_it_decodes_to(
    expect: Expect,
    payload: Seq<u8>,
    response: HarvestDelegateResponse,
)
    ensures
        expect is AnyFrom ==> expect.accepts(payload, None) && expect.accepts(
            payload,
            Some(response),
        ),
        expect is Export ==> (expect.accepts(payload, None) <==> decoded_export(payload) is Some)
            && (expect.accepts(payload, Some(response)) <==> decoded_export(payload) is Some),
        expect !is AnyFrom && expect !is Export ==> !expect.accepts(payload, None) && (
        expect.accepts(payload, Some(response)) <==> expect.is_answered_by(response)),
{
}

/// The answer a call takes is the first of those that came that is its own.
pub proof fn the_first_answer_of_its_own_is_taken(
    expect: Expect,
    answers: Seq<Option<HarvestDelegateResponse>>,
)
    ensures
        (match first_match(expect, answers) {
            Some(a) => exists|i: int|
                {
                    &&& 0 <= i < answers.len()
                    &&& #[trigger] answers[i] == Some(a)
                    &&& expect.is_answered_by(a)
                    &&& forall|j: int|
                        0 <= j < i ==> ((#[trigger] answers[j]) matches Some(other)
                            ==> !expect.is_answered_by(other))
                },
            None => forall|i: int|
                0 <= i < answers.len() ==> ((#[trigger] answers[i]) matches Some(a)
                    ==> !expect.is_answered_by(a)),
        }),
    decreases answers.len(),
{
    if answers.len() > 0 {
        if answers[0] matches Some(a) && expect.is_answered_by(a) {
            assert(answers[0] == first_match(expect, answers));
        } else {
            let rest = answers.skip(1);
            the_first_answer_of_its_own_is_taken(expect, rest);
            if let Some(a) = first_match(expect, rest) {
                let i = choose|i: int|
                    {
                        &&& 0 <= i < rest.len()
                        &&& #[trigger] rest[i] == Some(a)
                        &&& expect.is_answered_by(a)
                        &&& forall|j: int|
                            0 <= j < i ==> ((#[trigger] rest[j]) matches Some(other)
                                ==> !expect.is_answered_by(other))
                    };
                assert(answers[i + 1] == rest[i]);
                assert forall|j: int| 0 <= j < i + 1 implies ((
                #[trigger] answers[j]) matches Some(other) ==> !expect.is_answered_by(other)) by {
                    if j > 0 {
                        assert(answers[j] == rest[j - 1]);
                    }
                }
            } else {
                assert forall|i: int| 0 <= i < answers.len() implies ((
                #[trigger] answers[i]) matches Some(a) ==> !expect.is_answered_by(a)) by {
                    if i > 0 {
                        assert(answers[i] == rest[i - 1]);
                    }
                }
            }
        }
    }
}

/// The export that is read is the first payload that decodes as one.
pub proof fn the_first_payload_that_is_an_export_is_read(payloads: Seq<Vec<u8>>)
    ensures
        (match first_export(payloads) {
            Some(found) => exists|i: int|
                {
                    &&& 0 <= i < payloads.len()
                    &&& decoded_export((#[trigger] payloads[i])@) == Some(found)
                    &&& forall|j: int|
                        0 <= j < i ==> decoded_export((#[trigger] payloads[j])@) is None
                },
            None => forall|i: int|
                0 <= i < payloads.len() ==> decoded_export((#[trigger] payloads[i])@) is None,
        }),
    decreases payloads.len(),
{
    if payloads.len() > 0 {
        if decoded_export(payloads[0]@) is None {
            let rest = payloads.skip(1);
            the_first_payload_that_is_an_export_is_read(rest);
            if let Some(found) = first_export(rest) {
                let i = choose|i: int|
                    {
                        &&& 0 <= i < rest.len()
                        &&& decoded_export((#[trigger] rest[i])@) == Some(found)
                        &&& forall|j: int|
                            0 <= j < i ==> decoded_export((#[trigger] rest[j])@) is None
                    };
                assert(payloads[i + 1] == rest[i]);
                assert forall|j: int| 0 <= j < i + 1 implies decoded_export(
                    (#[trigger] payloads[j])@,
                ) is None by {
                    if j > 0 {
                        assert(payloads[j] == rest[j - 1]);
                    }
                }
            } else {
                assert forall|i: int| 0 <= i < payloads.len() implies decoded_export(
                    (#[trigger] payloads[i])@,
                ) is None by {
                    if i > 0 {
                        assert(payloads[i] == rest[i - 1]);
                    }
                }
            }
        }
    }
}

/// Secrets are read only from an export of the generation that was asked, and
/// they are that export's, in its order; an export of another generation, an
/// answer that is no export and a predecessor that is not there are failures.
pub proof fn an_export_of_another_generation_is_refused(
    reply: Reply,
    generation: u32,
    r: Result<Vec<(Vec<u8>, Vec<u8>)>, String>,
)
    requires
        export_reads(reply, generation, r),
    ensures
        r matches Ok(s) ==> (reply matches Reply::Payloads(payloads) && exists|i: int|
            {
                &&& 0 <= i < payloads@.len()
                &&& decoded_export((#[trigger] payloads@[i])@) == Some((generation, pairs(s@)))
                &&& forall|j: int|
                    0 <= j < i ==> decoded_export((#[trigger] payloads@[j])@) is None
            }),
        reply is Missing ==> r is Err,
        reply matches Reply::Payloads(payloads) ==> forall|i: int|
            {
                &&& 0 <= i < payloads@.len()
                &&& decoded_export((#[trigger] payloads@[i])@) is Some
                &&& (decoded_export(payloads@[i]@)->0).0 == generation
                &&& forall|j: int|
                    0 <= j < i ==> decoded_export((#[trigger] payloads@[j])@) is None
            } ==> r is Ok,
{
    if let Reply::Payloads(payloads) = reply {
        the_first_payload_that_is_an_export_is_read(payloads@);
        let found = first_export(payloads@);
        if let Some(f) = found {
            let at = choose|i: int|
                {
                    &&& 0 <= i < payloads@.len()
                    &&& decoded_export((#[trigger] payloads@[i])@) == Some(f)
                    &&& forall|j: int|
                        0 <= j < i ==> decoded_export((#[trigger] payloads@[j])@) is None
                };
            assert forall|i: int|
                {
                    &&& 0 <= i < payloads@.len()
                    &&& decoded_export((#[trigger] payloads@[i])@) is Some
                    &&& (decoded_export(payloads@[i]@)->0).0 == generation
                    &&& forall|j: int|
                        0 <= j < i ==> decoded_export((#[trigger] payloads@[j])@) is None
                } implies r is Ok by {
                assert(i == at) by {
                    assert(decoded_export(payloads@[at]@) is Some);
                    assert(decoded_export(payloads@[i]@) is Some);
                }
            }
        }
    }
}

/// A marker counts as recorded only where the current delegate answered, of
/// that predecessor, that it recorded it; and where the first answer of the
/// call's own says so, it does count.
pub proof fn a_marker_is_recorded_only_on_the_delegates_word(
    predecessor: [u8; 32],
    reply: Result<DecodedReply, CallError>,
    answer: Result<HarvestDelegateResponse, String>,
    r: Result<(), String>,
)
    requires
        asked(Expect::PredecessorMarkerRecorded(predecessor), reply, answer),
        marker_recorded(answer, r),
    ensures
        r is Ok ==> (reply matches Ok(DecodedReply::Answers(answers)) && exists|i: int|
            0 <= i < answers@.len() && ((
            #[trigger] answers@[i]) matches Some(HarvestDelegateResponse::PredecessorMarkerRecorded {
                predecessor: of,
                recorded,
                ..
            } ) && of == predecessor && recorded)),
        reply is Err ==> r is Err,
        reply matches Ok(DecodedReply::Missing) ==> r is Err,
        reply matches Ok(DecodedReply::Answers(answers)) ==> (answers@.len() == 0 ==> r is Err),
        reply matches Ok(DecodedReply::Answers(answers)) ==> (answers@.len() > 0 && (
        answers@[0] matches Some(HarvestDelegateResponse::PredecessorMarkerRecorded {
            predecessor: of,
            recorded,
            ..
        }) && of == predecessor && recorded) ==> r is Ok),
        reply matches Ok(DecodedReply::Answers(answers)) ==> (answers@.len() > 0 && (
        answers@[0] matches Some(HarvestDelegateResponse::PredecessorMarkerRecorded {
            predecessor: of,
            recorded,
            ..
        }) && of == predecessor && !recorded) ==> r is Err),
{
    if let Ok(DecodedReply::Answers(answers)) = reply {
        the_first_answer_of_its_own_is_taken(
            Expect::PredecessorMarkerRecorded(predecessor),
            answers@,
        );
    }
}

/// What became of a secret is what the current delegate answered of that
/// predecessor and key, and without such an answer it is left to a retry: it
/// never counts as written, held or refused unless the delegate said so.
pub proof fn a_secrets_fate_is_the_delegates_word(
    expect: Expect,
    predecessor: [u8; 32],
    key: Seq<u8>,
    reply: Result<DecodedReply, CallError>,
    answer: Result<HarvestDelegateResponse, String>,
    outcome: SecretImport,
)
    requires
        awaits_import(expect, predecessor, key),
        asked(expect, reply, answer),
        import_outcome(answer, outcome),
    ensures
        outcome !is Retryable ==> (reply matches Ok(DecodedReply::Answers(answers)) && exists|i: int|
            0 <= i < answers@.len() && ((
            #[trigger] answers@[i]) matches Some(HarvestDelegateResponse::MigratedSecretImported {
                predecessor: of,
                key: k,
                outcome: o,
            }) && of == predecessor && k@ == key && o == outcome)),
        reply matches Ok(DecodedReply::Answers(answers)) ==> (answers@.len() > 0 ==> (
        answers@[0] matches Some(HarvestDelegateResponse::MigratedSecretImported {
            predecessor: of,
            key: k,
            outcome: o,
        }) ==> (of == predecessor && k@ == key ==> o == outcome))),
{
    if let Ok(DecodedReply::Answers(answers)) = reply {
        the_first_answer_of_its_own_is_taken(expect, answers@);
    }
}

/// The generation recorded for a delegate is that of its last entry in the
/// lineage, and none is recorded only where it has no entry.
pub proof fn the_last_entry_of_a_delegate_is_its_generation(
    lineage: Seq<DelegateLineageEntry>,
    key: [u8; 32],
)
    ensures
        (match recorded_generation(lineage, key) {
            Some(generation) => exists|i: int|
                {
                    &&& 0 <= i < lineage.len()
                    &&& (#[trigger] lineage[i]).delegate_key == key
                    &&& lineage[i].generation == generation
                    &&& forall|j: int|
                        i < j < lineage.len() ==> (#[trigger] lineage[j]).delegate_key != key
                },
            None => forall|i: int|
                0 <= i < lineage.len() ==> (#[trigger] lineage[i]).delegate_key != key,
        }),
    decreases lineage.len(),
{
    if lineage.len() > 0 {
        if lineage.last().delegate_key == key {
            assert(lineage[lineage.len() - 1].delegate_key == key);
        } else {
            let rest = lineage.drop_last();
            the_last_entry_of_a_delegate_is_its_generation(rest, key);
            if let Some(generation) = recorded_generation(rest, key) {
                let i = choose|i: int|
                    {
                        &&& 0 <= i < rest.len()
                        &&& (#[trigger] rest[i]).delegate_key == key
                        &&& rest[i].generation == generation
                        &&& forall|j: int|
                            i < j < rest.len() ==> (#[trigger] rest[j]).delegate_key != key
                    };
                assert(lineage[i] == rest[i]);
                assert forall|j: int| i < j < lineage.len() implies (
                #[trigger] lineage[j]).delegate_key != key by {
                    if j < rest.len() {
                        assert(lineage[j] == rest[j]);
                    }
                }
            } else {
                assert forall|i: int| 0 <= i < lineage.len() implies (
                #[trigger] lineage[i]).delegate_key != key by {
                    if i < rest.len() {
                        assert(lineage[i] == rest[i]);
                    }
                }
            }
        }
    }
}

/// A key travels, and a key is an RSA public key's, by the words its bytes
/// start with.
pub proof fn keys_are_told_apart_by_their_first_words(key: Seq<u8>)
    ensures
        is_travelling(key) <==> key.len() >= 15 && forall|i: int|
            0 <= i < 15 ==> (#[trigger] key[i]) as int == "harvest:folded:"@[i] as int,
        bytes::has_prefix(key, rsa_prefix()) <==> key.len() >= 15 && forall|i: int|
            0 <= i < 15 ==> (#[trigger] key[i]) as int == "harvest:rsa_pk:"@[i] as int,
{
    reveal_strlit("harvest:folded:");
    reveal_strlit("harvest:rsa_pk:");
    bytes::a_prefix_is_the_first_bytes(key, travelling_prefix());
    bytes::a_prefix_is_the_first_bytes(key, rsa_prefix());
    assert forall|i: int| 0 <= i < 15 implies travelling_prefix()[i] as int
        == "harvest:folded:"@[i] as int by {}
    assert forall|i: int| 0 <= i < 15 implies rsa_prefix()[i] as int == "harvest:rsa_pk:"@[i] as int by {}
}

/// Writing a secret of a predecessor remembers of that predecessor alone
/// whether a travelling record was taken, or left to a retry, and whether
/// anything is left to a retry; what was remembered of another predecessor is
/// dropped. Only a written key is added to those written, and a write never
/// stops the walk or seals anything.
pub proof fn a_write_is_remembered_of_its_predecessor(
    walk: WalkView,
    predecessor: [u8; 32],
    key: Seq<u8>,
    outcome: SecretImport,
)
    ensures
        ({
            let t = walk.wrote(predecessor, key, outcome);
            let same = walk.carrier matches Some(c) && c.predecessor == predecessor;
            let was = walk.carrier->0;
            &&& t.carrier matches Some(c)
            &&& c.predecessor == predecessor
            &&& c.staged <==> (same && was.staged) || (is_travelling(key) && !(outcome is Permanent))
            &&& c.retryable <==> (same && was.retryable) || outcome is Retryable
            &&& c.sealed <==> same && was.sealed
            &&& outcome is Written ==> t.written == walk.written.push(key)
            &&& !(outcome is Written) ==> t.written == walk.written
            &&& t.halted == walk.halted
        }),
{
}

/// A done marker that landed seals its predecessor, and one that did not
/// leaves it to a retry; the rest of the walk is kept, and what was
/// remembered of another predecessor is dropped.
pub proof fn a_done_marker_seals_where_it_landed(walk: WalkView, predecessor: [u8; 32], landed: bool)
    ensures
        ({
            let t = walk.sealing(predecessor, landed);
            let same = walk.carrier matches Some(c) && c.predecessor == predecessor;
            let was = walk.carrier->0;
            &&& t.carrier matches Some(c)
            &&& c.predecessor == predecessor
            &&& c.staged <==> same && was.staged
            &&& c.sealed <==> landed || (same && was.sealed)
            &&& c.retryable <==> !landed || (same && was.retryable)
            &&& t.halted == walk.halted && t.written == walk.written
        }),
{
}

/// At a marker the walk stops where a record that travels was taken from a
/// predecessor that was not sealed and has something left to a retry, or
/// where it had stopped before; at no other.
pub proof fn a_marker_stops_the_walk_only_behind_a_retry(walk: WalkView)
    ensures
        walk.at_marker().halted <==> walk.halted || (walk.carrier matches Some(c) && c.staged
            && c.retryable && !c.sealed),
        walk.at_marker().carrier == walk.carrier,
        walk.at_marker().written == walk.written,
        walk.stopped().halted && walk.stopped().carrier == walk.carrier && walk.stopped().written
            == walk.written,
{
}

/// A written key adds a fingerprint exactly where it starts as an RSA public
/// key's and the rest of it is text; the fingerprint is that rest.
pub proof fn a_written_rsa_key_adds_its_fingerprint(keys: Seq<Seq<u8>>, key: Seq<u8>)
    ensures
        rsa_fingerprints(Seq::empty()) == Seq::<Seq<u8>>::empty(),
        bytes::has_prefix(key, rsa_prefix()) && vstd::utf8::valid_utf8(key.skip(15))
            ==> rsa_fingerprints(keys.push(key)) == rsa_fingerprints(keys).push(key.skip(15)),
        !(bytes::has_prefix(key, rsa_prefix()) && vstd::utf8::valid_utf8(key.skip(15)))
            ==> rsa_fingerprints(keys.push(key)) == rsa_fingerprints(keys),
{
    reveal(Seq::filter);
    assert(rsa_prefix().len() == 15);
    assert(keys.push(key).drop_last() =~= keys);
    assert(rsa_fingerprints(Seq::empty()) =~= Seq::<Seq<u8>>::empty());
    if bytes::has_prefix(key, rsa_prefix()) && vstd::utf8::valid_utf8(key.skip(15)) {
        assert(rsa_fingerprints(keys.push(key)) =~= rsa_fingerprints(keys).push(key.skip(15)));
    }
}

/// The summary has each row's words once, in order, with a comma between.
pub proof fn the_summary_has_a_row_for_each_predecessor(
    rows: Seq<PredecessorMigration>,
    row: PredecessorMigration,
)
    ensures
        summary(Seq::empty()) == Seq::<char>::empty(),
        summary(seq![row]) == row.words(),
        rows.len() > 0 ==> summary(rows.push(row)) == summary(rows) + ", "@ + row.words(),
{
    assert(rows.push(row).drop_last() =~= rows);
}

/// Work offered before the walk settles waits in the order it came, work
/// offered after a complete walk runs at once, and work offered after an
/// incomplete one is neither kept nor run.
pub proof fn work_waits_runs_or_is_withheld<W>(queue: Seq<W>, work: W, complete: bool)
    ensures
        GateView::Waiting(queue).after_defer(work) == GateView::Waiting(queue.push(work)),
        !GateView::Waiting(queue).runs_now(),
        GateView::<W>::Released.after_defer(work) == GateView::<W>::Released,
        GateView::<W>::Released.runs_now(),
        GateView::<W>::Withheld.after_defer(work) == GateView::<W>::Withheld,
        !GateView::<W>::Withheld.runs_now(),
        GateView::Waiting(queue).after_settle(true) == GateView::<W>::Released,
        GateView::Waiting(queue).after_settle(false) == GateView::<W>::Withheld,
        GateView::Waiting(queue).released_by(true) == queue,
        GateView::Waiting(queue).released_by(false).len() == 0,
        GateView::<W>::Released.released_by(complete).len() == 0,
        GateView::<W>::Withheld.released_by(complete).len() == 0,
        GateView::<W>::Released.after_settle(complete) == GateView::<W>::Released,
        GateView::<W>::Withheld.after_settle(complete) == GateView::<W>::Withheld,
{
}

/// A walk is told by whether it stopped, by what it remembers of a
/// predecessor, and by each key that was written, in order; secrets are told
/// by their keys and their values.
pub proof fn a_walk_is_told_whole(walk: Walk, secrets: Seq<(Vec<u8>, Vec<u8>)>, names: Seq<String>)
    ensures
        walk@.halted == walk.halted,
        walk@.carrier == walk.carrier,
        walk@.written.len() == walk.written@.len(),
        forall|i: int|
            0 <= i < walk.written@.len() ==> #[trigger] walk@.written[i] == walk.written@[i]@,
        pairs(secrets).len() == secrets.len(),
        forall|i: int|
            0 <= i < secrets.len() ==> (#[trigger] pairs(secrets)[i]).0 == secrets[i].0@ && pairs(
                secrets,
            )[i].1 == secrets[i].1@,
        encoded(names).len() == names.len(),
        forall|i: int|
            0 <= i < names.len() ==> #[trigger] encoded(names)[i] == vstd::utf8::encode_utf8(
                names[i]@,
            ),
        !WalkView::fresh().halted,
        WalkView::fresh().carrier is None,
        WalkView::fresh().written.len() == 0,
{
}

} // verus!
