//! The walk over the delegate's earlier generations, driven by
//! `freenet_migrate` against a scripted node: old delegates that answer, go
//! missing or go silent, and a current delegate that keeps secrets and
//! markers.

use std::cell::RefCell;
use std::collections::{BTreeMap, HashMap};
use std::rc::Rc;

use freenet_migrate::{
    MarkerQuery, MigrationAuthorization, MigrationMarker, PredecessorSecretsIo, RecoveredSecret,
    SecretSelectionPolicy, SuccessorSecretsIo, UnionAck,
};
use freenet_migrate::PredecessorMigration as Theirs;
use freenet_stdlib::prelude::DelegateKey;
use harvest_ui::delegate_migrate::{
    exporting_predecessors, imported_anything, interpret_export, judge_export, summarize,
    to_item_write, CallError, DecodedReply, DelegateLineageEntry, DelegateMigrationReport, Expect,
    ExportedSecrets, HarvestDelegateRequest, HarvestDelegateResponse, ImportTally, ItemWrite,
    Outcome, PredecessorMarkerState, PredecessorMigration, Predecessors, Reply, RetryAdvice,
    SecretImport, SettleGate, Successor, Walk, FIRST_EXPORTING_GENERATION,
};

/// How an old delegate behaves.
#[derive(Clone)]
enum Old {
    /// Registered, and holds these secrets.
    Holds(Vec<(Vec<u8>, Vec<u8>)>),
    /// Registered, answers the cheap read, never answers the export.
    SilentOnExport,
    /// Registered, answers nothing at all.
    Silent,
}

#[derive(Default)]
struct Node {
    /// Old delegates this node has registered. Anything else is missing.
    old: HashMap<[u8; 32], Old>,
    /// The current delegate's secrets.
    secrets: BTreeMap<Vec<u8>, Vec<u8>>,
    markers: HashMap<[u8; 32], PredecessorMarkerState>,
    /// Every delegate key a message was sent to, in order.
    asked: Vec<[u8; 32]>,
    /// The current delegate refuses every marker write.
    refuse_markers: bool,
    /// The current delegate answers every import with something else.
    garbled_imports: bool,
    /// Travelling records carried by each predecessor, staged until it is
    /// sealed.
    staged: HashMap<[u8; 32], Vec<Vec<u8>>>,
    /// A key the current delegate refuses, permanently.
    reject_key: Option<Vec<u8>>,
    /// A key the current delegate refuses for now.
    retry_key: Option<Vec<u8>>,
}

fn folded(predecessor: &[u8; 32]) -> Vec<u8> {
    let hex: String = predecessor.iter().map(|b| format!("{b:02x}")).collect();
    format!("harvest:folded:{hex}").into_bytes()
}

#[derive(Clone, Default)]
struct Fake(Rc<RefCell<Node>>);

const CURRENT: [u8; 32] = [0xCC; 32];

impl Fake {
    /// Send one message to an old delegate.
    fn ask_old(&self, target: [u8; 32], request: &HarvestDelegateRequest) -> Result<Reply, CallError> {
        let mut node = self.0.borrow_mut();
        node.asked.push(target);
        let Some(old) = node.old.get(&target).cloned() else {
            return Ok(Reply::Missing);
        };
        match (old, request) {
            (Old::Silent, _) => Err(CallError::Timeout),
            (Old::SilentOnExport, HarvestDelegateRequest::ExportSecrets { .. }) => {
                Err(CallError::Timeout)
            }
            (Old::Holds(secrets), HarvestDelegateRequest::ExportSecrets { source_generation }) => {
                Ok(Reply::Payloads(vec![export(*source_generation, secrets)]))
            }
            (_, HarvestDelegateRequest::ListStores { .. }) => {
                Ok(Reply::Payloads(vec![b"a list of stores".to_vec()]))
            }
            (_, other) => panic!("the walk sent an old delegate {other:?}"),
        }
    }

    /// Send one message to the current delegate.
    fn ask_current(&self, request: HarvestDelegateRequest) -> Result<DecodedReply, CallError> {
        let mut node = self.0.borrow_mut();
        node.asked.push(CURRENT);
        let response = match request {
            HarvestDelegateRequest::GetPredecessorMarker { predecessor } => {
                let marker = node.markers.get(&predecessor).copied().or_else(|| {
                    node.secrets
                        .contains_key(&folded(&predecessor))
                        .then_some(PredecessorMarkerState::Done { had_data: true })
                });
                HarvestDelegateResponse::PredecessorMarker { predecessor, marker }
            }
            HarvestDelegateRequest::RecordPredecessorMarker { predecessor, marker } => {
                let recorded = !node.refuse_markers;
                if recorded {
                    node.markers.insert(predecessor, marker);
                    if matches!(marker, PredecessorMarkerState::Done { .. }) {
                        let carried = node.staged.remove(&predecessor).unwrap_or_default();
                        for key in carried {
                            node.secrets.insert(key, b"1".to_vec());
                        }
                        node.secrets.insert(folded(&predecessor), b"1".to_vec());
                    }
                }
                HarvestDelegateResponse::PredecessorMarkerRecorded { predecessor, marker, recorded }
            }
            HarvestDelegateRequest::ImportMigratedSecret { predecessor, key, value } => {
                if node.garbled_imports {
                    HarvestDelegateResponse::PredecessorMarker { predecessor, marker: None }
                } else {
                    let outcome = if node.retry_key.as_ref() == Some(&key) {
                        SecretImport::Retryable("full".to_string())
                    } else if key.starts_with(b"harvest:folded:") {
                        node.staged.entry(predecessor).or_default().push(key.clone());
                        SecretImport::Written
                    } else if node.reject_key.as_ref() == Some(&key) {
                        SecretImport::Permanent("refused".to_string())
                    } else if node.secrets.contains_key(&key) {
                        SecretImport::AlreadyAuthoritative
                    } else {
                        node.secrets.insert(key.clone(), value);
                        SecretImport::Written
                    };
                    HarvestDelegateResponse::MigratedSecretImported { predecessor, key, outcome }
                }
            }
            other => panic!("the walk sent the current delegate {other:?}"),
        };
        Ok(DecodedReply::Answers(vec![Some(response)]))
    }
}

fn key_bytes(key: &DelegateKey) -> [u8; 32] {
    key.bytes().try_into().expect("32-byte key")
}

struct PredecessorSide {
    node: Fake,
    steps: Predecessors,
    walk: Rc<RefCell<Walk>>,
}

impl PredecessorSecretsIo for PredecessorSide {
    type Error = String;

    async fn probe_executable(&mut self, predecessor: &DelegateKey) -> Result<bool, String> {
        let answer = self.node.ask_old(key_bytes(predecessor), &self.steps.probe_request().request);
        self.steps.probe_executable(&mut self.walk.borrow_mut(), answer)
    }

    async fn fetch_secrets(
        &mut self,
        predecessor: &DelegateKey,
    ) -> Result<Vec<(Vec<u8>, Vec<u8>)>, String> {
        let key = key_bytes(predecessor);
        let answer = self.steps.export_request(&key).and_then(|(generation, call)| {
            self.steps.export(generation, self.node.ask_old(key, &call.request))
        });
        self.steps.fetch_secrets(&mut self.walk.borrow_mut(), answer)
    }
}

struct SuccessorSide {
    node: Fake,
    steps: Successor,
    walk: Rc<RefCell<Walk>>,
}

fn to_crate(marker: PredecessorMarkerState) -> MigrationMarker {
    match marker {
        PredecessorMarkerState::InProgress { saw_data } => MigrationMarker::InProgress { saw_data },
        PredecessorMarkerState::Done { had_data } => MigrationMarker::Done { had_data },
    }
}

fn from_crate(marker: MigrationMarker) -> PredecessorMarkerState {
    match marker {
        MigrationMarker::InProgress { saw_data } => PredecessorMarkerState::InProgress { saw_data },
        MigrationMarker::Done { had_data } => PredecessorMarkerState::Done { had_data },
    }
}

impl SuccessorSecretsIo for SuccessorSide {
    type Error = String;

    async fn migration_marker(
        &mut self,
        query: &MarkerQuery<'_>,
    ) -> Result<Option<MigrationMarker>, String> {
        let predecessor = key_bytes(query.predecessor);
        let call =
            self.steps.migration_marker_request(&mut self.walk.borrow_mut(), &predecessor)?;
        let reply = self.node.ask_current(call.request);
        Ok(self.steps.migration_marker(predecessor, reply)?.map(to_crate))
    }

    async fn record_marker(
        &mut self,
        predecessor: &DelegateKey,
        marker: MigrationMarker,
    ) -> Result<(), String> {
        let predecessor = key_bytes(predecessor);
        let marker = from_crate(marker);
        let call = self.steps.record_marker_request(predecessor, marker);
        let reply = self.node.ask_current(call.request);
        self.steps.record_marker(&mut self.walk.borrow_mut(), predecessor, marker, reply)
    }

    async fn write_secret(
        &mut self,
        item: &RecoveredSecret<'_>,
    ) -> freenet_migrate::ItemWrite<String> {
        let predecessor = key_bytes(item.predecessor);
        let call = self.steps.import_request(predecessor, item.key, item.value);
        let reply = self.node.ask_current(call.request);
        match self.steps.write_secret(&mut self.walk.borrow_mut(), predecessor, item.key, reply) {
            ItemWrite::Written => freenet_migrate::ItemWrite::written(),
            ItemWrite::AlreadyAuthoritative => freenet_migrate::ItemWrite::already_authoritative(),
            ItemWrite::Failed { error, retry: RetryAdvice::Retryable } => {
                freenet_migrate::ItemWrite::retryable(error)
            }
            ItemWrite::Failed { error, retry: RetryAdvice::Permanent } => {
                freenet_migrate::ItemWrite::permanent(error)
            }
        }
    }
}

/// Eighteen generations, the delegate's whole past.
fn lineage() -> Vec<DelegateLineageEntry> {
    (1u8..=18)
        .map(|n| DelegateLineageEntry {
            generation: n as u32,
            code_hash: [n; 32],
            delegate_key: [100 + n; 32],
            irregular_key: false,
        })
        .collect()
}

fn generation(n: u32) -> [u8; 32] {
    exporting_predecessors(&lineage())
        .iter()
        .find(|e| e.generation == n)
        .unwrap_or_else(|| panic!("no V{n} in the registry"))
        .delegate_key
}

fn tally(t: &freenet_migrate::ImportTally) -> ImportTally {
    ImportTally { written: t.written, failed: t.failed, rejected: t.rejected }
}

fn row(p: &freenet_migrate::PredecessorMigration) -> PredecessorMigration {
    match p {
        Theirs::Imported { generation, tally: t, .. } => {
            PredecessorMigration::Imported { generation: *generation, tally: tally(t) }
        }
        Theirs::NoData { generation, .. } => PredecessorMigration::NoData { generation: *generation },
        Theirs::AlreadyMigrated { generation, .. } => {
            PredecessorMigration::AlreadyMigrated { generation: *generation }
        }
        Theirs::Unresponsive { generation, .. } => {
            PredecessorMigration::Unresponsive { generation: *generation }
        }
        Theirs::Incomplete { generation, tally: t, .. } => {
            PredecessorMigration::Incomplete { generation: *generation, tally: tally(t) }
        }
        Theirs::WriterUnavailable { generation, .. } => {
            PredecessorMigration::WriterUnavailable { generation: *generation }
        }
        Theirs::Superseded { generation, .. } => {
            PredecessorMigration::Superseded { generation: *generation }
        }
    }
}

fn outcome(fake: &Fake) -> Outcome {
    let asked = exporting_predecessors(&lineage());
    let theirs: Vec<freenet_migrate::DelegateLineageEntry> = asked
        .iter()
        .map(|e| freenet_migrate::DelegateLineageEntry {
            generation: e.generation,
            code_hash: e.code_hash,
            delegate_key: e.delegate_key,
            irregular_key: e.irregular_key,
            note: "",
        })
        .collect();
    let walk = Rc::new(RefCell::new(Walk { halted: false, carrier: None, written: Vec::new() }));
    let mut successor = SuccessorSide {
        node: fake.clone(),
        steps: Successor::new(CURRENT),
        walk: walk.clone(),
    };
    let mut predecessors = PredecessorSide {
        node: fake.clone(),
        steps: Predecessors::new(asked),
        walk: walk.clone(),
    };
    let report = futures::executor::block_on(freenet_migrate::migrate_delegate_secrets(
        &mut successor,
        &mut predecessors,
        &theirs,
        MigrationAuthorization::app_author_ack(),
        SecretSelectionPolicy::UnionAllGenerations(
            UnionAck::i_understand_union_resurrects_deleted_by_absence_secrets(),
        ),
    ));
    drop((successor, predecessors));
    let walk = match Rc::try_unwrap(walk) {
        Ok(walk) => walk.into_inner(),
        Err(_) => panic!("the walk is still shared"),
    };
    Outcome {
        report: DelegateMigrationReport {
            predecessors: report.predecessors.iter().map(row).collect(),
        },
        walk,
    }
}

fn run(fake: &Fake) -> DelegateMigrationReport {
    outcome(fake).report
}

fn secret(fake: &Fake, k: &str) -> Option<Vec<u8>> {
    fake.0.borrow().secrets.get(k.as_bytes()).cloned()
}

fn export(source_generation: u32, secrets: Vec<(Vec<u8>, Vec<u8>)>) -> Vec<u8> {
    freenet_migrate::ExportedSecrets { source_generation, secrets }
        .to_bytes()
        .expect("encode export")
}

fn holds(items: &[(&str, &str)]) -> Old {
    Old::Holds(
        items
            .iter()
            .map(|(k, v)| (k.as_bytes().to_vec(), v.as_bytes().to_vec()))
            .collect(),
    )
}

#[test]
fn a_predecessors_secrets_arrive_and_the_walk_seals_it() {
    let fake = Fake::default();
    fake.0.borrow_mut().old.insert(
        generation(18),
        holds(&[("harvest:rsa_sk:fp1", "sk"), ("harvest:buyer_conv:s:t", "conv")]),
    );
    let report = run(&fake);
    assert!(imported_anything(&report), "{}", summarize(&report));
    assert_eq!(secret(&fake, "harvest:rsa_sk:fp1").as_deref(), Some(&b"sk"[..]));
    assert_eq!(secret(&fake, "harvest:buyer_conv:s:t").as_deref(), Some(&b"conv"[..]));
    assert_eq!(
        fake.0.borrow().markers.get(&generation(18)),
        Some(&PredecessorMarkerState::Done { had_data: true })
    );

    let again = run(&fake);
    assert!(!imported_anything(&again), "a sealed predecessor is not re-imported");
    assert!(again
        .predecessors
        .iter()
        .any(|p| matches!(p, PredecessorMigration::AlreadyMigrated { generation: 18 })));
}

#[test]
fn a_skipped_generation_does_not_hide_an_older_one() {
    let fake = Fake::default();
    fake.0.borrow_mut().old.insert(generation(16), holds(&[("harvest:rsa_pk:fp1", "pk")]));
    run(&fake);
    assert_eq!(secret(&fake, "harvest:rsa_pk:fp1").as_deref(), Some(&b"pk"[..]));
}

#[test]
fn the_newest_generations_value_wins() {
    let fake = Fake::default();
    {
        let mut node = fake.0.borrow_mut();
        node.old.insert(generation(18), holds(&[("harvest:rsa_sk:fp1", "newer")]));
        node.old.insert(generation(12), holds(&[("harvest:rsa_sk:fp1", "older")]));
    }
    run(&fake);
    assert_eq!(secret(&fake, "harvest:rsa_sk:fp1").as_deref(), Some(&b"newer"[..]));
}

#[test]
fn a_silent_export_is_never_sealed() {
    let fake = Fake::default();
    fake.0.borrow_mut().old.insert(generation(18), Old::SilentOnExport);
    let report = run(&fake);
    assert!(
        !fake.0.borrow().markers.contains_key(&generation(18)),
        "{}",
        summarize(&report)
    );
    assert!(report
        .predecessors
        .iter()
        .any(|p| matches!(p, PredecessorMigration::Unresponsive { .. })));
}

#[test]
fn a_secret_the_current_delegate_holds_is_kept() {
    let fake = Fake::default();
    {
        let mut node = fake.0.borrow_mut();
        node.secrets.insert(b"harvest:rsa_sk:fp1".to_vec(), b"minted-here".to_vec());
        node.old.insert(generation(18), holds(&[("harvest:rsa_sk:fp1", "old")]));
    }
    run(&fake);
    assert_eq!(secret(&fake, "harvest:rsa_sk:fp1").as_deref(), Some(&b"minted-here"[..]));
}

#[test]
fn generations_without_an_export_handler_are_not_asked() {
    let fake = Fake::default();
    run(&fake);
    let asked = fake.0.borrow().asked.clone();
    let registry = lineage();
    for entry in registry.iter().filter(|e| e.generation < FIRST_EXPORTING_GENERATION) {
        assert!(
            !asked.contains(&entry.delegate_key),
            "V{} was asked, and cannot answer",
            entry.generation
        );
    }
    assert!(asked.contains(&generation(FIRST_EXPORTING_GENERATION)));
}

#[test]
fn only_an_answered_export_for_the_asked_generation_counts() {
    assert_eq!(
        interpret_export(Reply::Payloads(vec![export(7, vec![])]), 7),
        Ok(vec![]),
        "an answered empty export is the one genuine empty"
    );
    assert!(interpret_export(Reply::Payloads(vec![export(6, vec![])]), 7).is_err());
    assert!(interpret_export(Reply::Missing, 7).is_err());
    assert!(interpret_export(Reply::Payloads(vec![b"not an export".to_vec()]), 7).is_err());
    assert!(interpret_export(Reply::Payloads(vec![]), 7).is_err());
}

#[test]
fn an_export_is_read_past_what_is_none() {
    let items = vec![(b"k".to_vec(), b"v".to_vec())];
    assert_eq!(
        interpret_export(
            Reply::Payloads(vec![b"noise".to_vec(), export(9, items.clone())]),
            9
        ),
        Ok(items.clone())
    );
    assert_eq!(
        judge_export(Some(ExportedSecrets { source_generation: 6, secrets: items }), 7),
        Err("asked generation 7 to export and generation 6 answered".to_string())
    );
    assert_eq!(
        judge_export(None, 7),
        Err("the predecessor answered, but not with an export".to_string())
    );
    assert_eq!(
        interpret_export(Reply::Missing, 7),
        Err("the predecessor is not registered on this node".to_string())
    );
}

#[test]
fn an_answer_about_another_predecessor_or_key_is_not_taken() {
    let expect =
        Expect::SecretImported { predecessor: [1; 32], key: b"harvest:a".to_vec() };
    let answer = |p: [u8; 32], k: &[u8]| HarvestDelegateResponse::MigratedSecretImported {
        predecessor: p,
        key: k.to_vec(),
        outcome: SecretImport::Written,
    };
    assert!(expect.matches(&answer([1; 32], b"harvest:a")));
    assert!(!expect.matches(&answer([2; 32], b"harvest:a")));
    assert!(!expect.matches(&answer([1; 32], b"harvest:b")));
    assert!(!Expect::PredecessorMarker([1; 32]).matches(
        &HarvestDelegateResponse::PredecessorMarker { predecessor: [2; 32], marker: None }
    ));
}

#[test]
fn a_refusal_is_never_reported_as_authoritative() {
    assert!(matches!(
        to_item_write(SecretImport::Retryable("full".to_string())),
        ItemWrite::Failed { retry: RetryAdvice::Retryable, .. }
    ));
    assert!(matches!(
        to_item_write(SecretImport::Permanent("no".to_string())),
        ItemWrite::Failed { retry: RetryAdvice::Permanent, .. }
    ));
}

#[test]
fn a_silent_newer_generation_stops_the_walk_until_it_answers() {
    let fake = Fake::default();
    {
        let mut node = fake.0.borrow_mut();
        node.old.insert(generation(18), Old::SilentOnExport);
        node.old.insert(generation(12), holds(&[("harvest:x25519_sk:fp1", "older")]));
    }
    let first = outcome(&fake);
    assert!(first.walk.halted);
    assert!(!first.complete());
    assert_eq!(secret(&fake, "harvest:x25519_sk:fp1"), None, "nothing older lands first");
    assert!(!fake.0.borrow().markers.contains_key(&generation(12)));

    fake.0
        .borrow_mut()
        .old
        .insert(generation(18), holds(&[("harvest:x25519_sk:fp1", "newer")]));
    let second = outcome(&fake);
    assert!(second.complete(), "{}", summarize(&second.report));
    assert_eq!(secret(&fake, "harvest:x25519_sk:fp1").as_deref(), Some(&b"newer"[..]));
}

#[test]
fn a_generation_folded_into_a_newer_one_is_not_walked_again() {
    let fake = Fake::default();
    {
        let mut node = fake.0.borrow_mut();
        node.old.insert(
            generation(17),
            Old::Holds(vec![
                (b"harvest:rsa_pk:fp1".to_vec(), b"pk".to_vec()),
                (folded(&generation(16)), b"1".to_vec()),
            ]),
        );
        node.old.insert(generation(16), holds(&[("harvest:buyer_conv:s:forgotten", "conv")]));
    }
    run(&fake);
    assert_eq!(secret(&fake, "harvest:rsa_pk:fp1").as_deref(), Some(&b"pk"[..]));
    assert_eq!(
        secret(&fake, "harvest:buyer_conv:s:forgotten"),
        None,
        "the conversation forgotten on V17 stays forgotten"
    );
}

#[test]
fn a_refused_marker_leaves_the_predecessor_unsealed() {
    let fake = Fake::default();
    {
        let mut node = fake.0.borrow_mut();
        node.refuse_markers = true;
        node.old.insert(generation(18), holds(&[("harvest:rsa_pk:fp1", "pk")]));
    }
    let out = outcome(&fake);
    assert!(!fake.0.borrow().markers.contains_key(&generation(18)));
    assert!(!out.complete(), "{}", summarize(&out.report));
}

#[test]
fn an_unexpected_import_answer_is_never_success() {
    let fake = Fake::default();
    {
        let mut node = fake.0.borrow_mut();
        node.garbled_imports = true;
        node.old.insert(generation(18), holds(&[("harvest:rsa_pk:fp1", "pk")]));
    }
    let out = outcome(&fake);
    assert!(!matches!(
        fake.0.borrow().markers.get(&generation(18)),
        Some(PredecessorMarkerState::Done { .. })
    ));
    assert!(!out.complete());
}

#[test]
fn the_other_expectations_match_only_their_own_answer() {
    let recorded = |p: [u8; 32]| HarvestDelegateResponse::PredecessorMarkerRecorded {
        predecessor: p,
        marker: PredecessorMarkerState::Done { had_data: true },
        recorded: true,
    };
    assert!(Expect::PredecessorMarkerRecorded([1; 32]).matches(&recorded([1; 32])));
    assert!(!Expect::PredecessorMarkerRecorded([1; 32]).matches(&recorded([2; 32])));
    assert!(!Expect::PredecessorMarkerRecorded([1; 32]).matches(
        &HarvestDelegateResponse::PredecessorMarker { predecessor: [1; 32], marker: None }
    ));
    assert!(Expect::Export.accepts_payload(&export(5, vec![]), &None));
    assert!(!Expect::Export
        .accepts_payload(b"a list of stores", &Some(HarvestDelegateResponse::Other)));
}

#[test]
fn a_payload_is_taken_as_its_call_expects() {
    assert!(Expect::AnyFrom.accepts_payload(b"anything", &None));
    let answer = HarvestDelegateResponse::PredecessorMarker { predecessor: [1; 32], marker: None };
    assert!(Expect::PredecessorMarker([1; 32]).accepts_payload(b"x", &Some(answer.clone())));
    assert!(!Expect::PredecessorMarker([2; 32]).accepts_payload(b"x", &Some(answer)));
    assert!(!Expect::PredecessorMarker([1; 32]).accepts_payload(b"x", &None));
    assert!(Expect::AnyFrom.is_predecessor_call());
    assert!(Expect::Export.is_predecessor_call());
    assert!(!Expect::PredecessorMarker([1; 32]).is_predecessor_call());
}

#[test]
fn only_imported_rsa_keys_are_asked_for() {
    let fake = Fake::default();
    {
        let mut node = fake.0.borrow_mut();
        node.secrets.insert(b"harvest:rsa_pk:held".to_vec(), b"pk".to_vec());
        node.old.insert(
            generation(18),
            holds(&[
                ("harvest:rsa_pk:held", "old"),
                ("harvest:rsa_pk:new", "pk"),
                ("harvest:rsa_sk:new", "sk"),
            ]),
        );
    }
    assert_eq!(outcome(&fake).imported_rsa_fingerprints(), vec!["new".to_string()]);
}

#[test]
fn a_fingerprint_that_is_not_text_is_passed_over() {
    let out = Outcome {
        report: DelegateMigrationReport { predecessors: Vec::new() },
        walk: Walk {
            halted: false,
            carrier: None,
            written: vec![
                b"harvest:rsa_pk:\xff\xfe".to_vec(),
                b"harvest:rsa_pk:".to_vec(),
                b"harvest:rsa_pk:\xc3\xa9".to_vec(),
                b"harvest:rsa".to_vec(),
            ],
        },
    };
    assert_eq!(out.imported_rsa_fingerprints(), vec![String::new(), "\u{e9}".to_string()]);
}

#[test]
fn deferred_work_waits_for_a_complete_walk() {
    let mut gate = SettleGate::default();
    assert_eq!(gate.defer(1), None, "queued while the walk runs");
    assert_eq!(gate.settle(true), vec![1]);
    assert_eq!(gate.defer(2), Some(2), "runs at once after a complete walk");
    assert!(gate.settle(false).is_empty(), "a second settle changes nothing");
    assert_eq!(gate.defer(3), Some(3));

    let mut gate = SettleGate::default();
    assert_eq!(gate.defer(1), None);
    assert!(gate.settle(false).is_empty(), "an incomplete walk releases nothing");
    assert_eq!(gate.defer(2), None, "and later work is dropped for this load");
}

#[test]
fn a_newer_generation_silent_to_the_probe_stops_the_walk() {
    let fake = Fake::default();
    {
        let mut node = fake.0.borrow_mut();
        node.old.insert(generation(18), Old::Silent);
        node.old.insert(generation(12), holds(&[("harvest:x25519_sk:fp1", "older")]));
    }
    let out = outcome(&fake);
    assert!(out.walk.halted);
    assert_eq!(secret(&fake, "harvest:x25519_sk:fp1"), None);
}

#[test]
fn a_halt_on_the_last_generation_still_leaves_the_walk_incomplete() {
    let fake = Fake::default();
    fake.0.borrow_mut().old.insert(generation(FIRST_EXPORTING_GENERATION), Old::Silent);
    let out = outcome(&fake);
    assert!(out.walk.halted);
    assert!(!out.complete(), "{}", summarize(&out.report));
}

#[test]
fn a_record_carried_by_an_unfinished_generation_is_not_in_effect() {
    let fake = Fake::default();
    {
        let mut node = fake.0.borrow_mut();
        node.reject_key = Some(b"harvest:broken".to_vec());
        node.old.insert(
            generation(17),
            Old::Holds(vec![
                (folded(&generation(16)), b"1".to_vec()),
                (b"harvest:broken".to_vec(), b"x".to_vec()),
            ]),
        );
        node.old.insert(generation(16), holds(&[("harvest:x25519_sk:fp1", "v16")]));
    }
    run(&fake);
    assert_eq!(
        secret(&fake, "harvest:x25519_sk:fp1").as_deref(),
        Some(&b"v16"[..]),
        "V16 was still walked"
    );
}

#[test]
fn a_retryably_unfinished_carrier_stops_the_walk() {
    let fake = Fake::default();
    {
        let mut node = fake.0.borrow_mut();
        node.retry_key = Some(b"harvest:busy".to_vec());
        node.old.insert(
            generation(17),
            Old::Holds(vec![
                (folded(&generation(16)), b"1".to_vec()),
                (b"harvest:busy".to_vec(), b"x".to_vec()),
            ]),
        );
        node.old.insert(generation(16), holds(&[("harvest:buyer_conv:s:forgotten", "conv")]));
    }
    let out = outcome(&fake);
    assert!(out.walk.halted, "{}", summarize(&out.report));
    assert_eq!(
        secret(&fake, "harvest:buyer_conv:s:forgotten"),
        None,
        "V16, folded into V17, is not walked while V17 is only waiting on a retry"
    );
}

#[test]
fn a_carrier_whose_travelling_record_is_waiting_on_a_retry_stops_the_walk() {
    let fake = Fake::default();
    {
        let mut node = fake.0.borrow_mut();
        node.retry_key = Some(folded(&generation(16)));
        node.old.insert(
            generation(17),
            Old::Holds(vec![(folded(&generation(16)), b"1".to_vec())]),
        );
        node.old.insert(generation(16), holds(&[("harvest:buyer_conv:s:forgotten", "conv")]));
    }
    let out = outcome(&fake);
    assert!(out.walk.halted, "{}", summarize(&out.report));
    assert_eq!(secret(&fake, "harvest:buyer_conv:s:forgotten"), None);
}

#[test]
fn a_summary_names_generations_and_counts() {
    let t = ImportTally { written: 2, failed: 1, rejected: 3 };
    let report = DelegateMigrationReport {
        predecessors: vec![
            PredecessorMigration::Imported { generation: 18, tally: t },
            PredecessorMigration::NoData { generation: 17 },
            PredecessorMigration::AlreadyMigrated { generation: 16 },
            PredecessorMigration::Unresponsive { generation: 15 },
            PredecessorMigration::Incomplete { generation: 14, tally: t },
            PredecessorMigration::WriterUnavailable { generation: 13 },
            PredecessorMigration::Superseded { generation: 12 },
        ],
    };
    assert_eq!(
        summarize(&report),
        "V18: imported 2, V17: empty, V16: done earlier, V15: not answering, \
         V14: incomplete (2 written, 1 failed, 3 refused), V13: current delegate unavailable, \
         V12: superseded"
    );
    assert!(imported_anything(&report));
}

#[test]
fn a_lost_call_is_named_in_the_answer() {
    let steps = Predecessors::new(exporting_predecessors(&lineage()));
    assert_eq!(
        steps.export(9, Err(CallError::Timeout)),
        Err("export not answered: no answer within the deadline".to_string())
    );
    assert_eq!(
        steps.export(9, Err(CallError::Send("closed".to_string()))),
        Err("export not answered: could not send: closed".to_string())
    );
    assert_eq!(
        steps.export_request(&[1; 32]),
        Err("not a recorded predecessor".to_string())
    );
    let mut walk = Walk { halted: false, carrier: None, written: Vec::new() };
    assert_eq!(
        steps.probe_executable(&mut walk, Err(CallError::Send("closed".to_string()))),
        Err("closed".to_string())
    );
    assert!(walk.halted);
    let current = Successor::new(CURRENT);
    assert!(current.migration_marker_request(&mut walk, &[1; 32]).is_err());
    assert_eq!(
        current.migration_marker([1; 32], Ok(DecodedReply::Missing)),
        Err("the current delegate is not registered".to_string())
    );
    assert_eq!(
        current.migration_marker([1; 32], Ok(DecodedReply::Answers(vec![None]))),
        Err("the current delegate answered something else".to_string())
    );
}

/// Each request names what it is about, and waits for the answer about that.
#[test]
fn each_request_waits_for_its_own_answer() {
    let steps = Predecessors::new(exporting_predecessors(&lineage()));
    assert_eq!(steps.probe_request().awaits, Expect::AnyFrom);
    let (named, call) = steps.export_request(&generation(9)).expect("recorded");
    assert_eq!(named, 9);
    assert_eq!(call.request, HarvestDelegateRequest::ExportSecrets { source_generation: 9 });
    assert_eq!(call.awaits, Expect::Export);

    let current = Successor::new(CURRENT);
    let mut walk = Walk { halted: false, carrier: None, written: Vec::new() };
    let call = current.migration_marker_request(&mut walk, &[1; 32]).expect("going on");
    assert_eq!(
        call.request,
        HarvestDelegateRequest::GetPredecessorMarker { predecessor: [1; 32] }
    );
    assert_eq!(call.awaits, Expect::PredecessorMarker([1; 32]));
    assert_eq!(
        current.migration_marker_request(&mut walk, &[1; 31]),
        Err("a delegate key that is not 32 bytes".to_string())
    );
    let marker = PredecessorMarkerState::Done { had_data: true };
    let call = current.record_marker_request([2; 32], marker);
    assert_eq!(
        call.request,
        HarvestDelegateRequest::RecordPredecessorMarker { predecessor: [2; 32], marker }
    );
    assert_eq!(call.awaits, Expect::PredecessorMarkerRecorded([2; 32]));
    let call = current.import_request([3; 32], b"key", b"value");
    assert_eq!(
        call.request,
        HarvestDelegateRequest::ImportMigratedSecret {
            predecessor: [3; 32],
            key: b"key".to_vec(),
            value: b"value".to_vec(),
        }
    );
    assert_eq!(
        call.awaits,
        Expect::SecretImported { predecessor: [3; 32], key: b"key".to_vec() }
    );
}
