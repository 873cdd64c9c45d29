//! Mirror store behaviour: idempotent imports, ordered exports, reassembly
//! fidelity, and the read-route decisions.

use plc::api::{data_response, DataOutcome, ExportParams};
use plc::data::{PlcData, Service, State};
use plc::error::Error;
use plc::op::{ChangeOp, LogEntry, Operation, OperationsLog, SignedOperation, Timestamp, TombstoneOp};
use plc::audit::AuditError;
use plc::resolve::{did_from_txt_records, did_method, is_plc_did, resolve_check};
use plc::store::{MirrorStore, StoreError};

const SECOND: i64 = 1_000_000_000;
const BASE: i64 = 1_800_000_000_000_000_000;

fn ts(n: i64) -> Timestamp {
    Timestamp { nanos: n, raw: format!("t{n}") }
}

fn sample_data(handle: &str, pds: &str) -> PlcData {
    PlcData {
        rotation_keys: vec![
            "did:key:zRecoveryKeyAAAA".to_string(),
            "did:key:zSigningKeyBBBB".to_string(),
        ],
        verification_methods: vec![("atproto".to_string(), "did:key:zSigningKeyBBBB".to_string())],
        also_known_as: vec![format!("at://{handle}")],
        services: vec![(
            "atproto_pds".to_string(),
            Service {
                service_type: "AtprotoPersonalDataServer".to_string(),
                endpoint: pds.to_string(),
            },
        )],
    }
}

fn entry(did: &str, content: Operation, nullified: bool, at: i64) -> LogEntry {
    let operation = SignedOperation { content, sig: "c2lnbmF0dXJl".to_string() };
    let cid = operation.cid();
    LogEntry {
        did: did.to_string(),
        operation,
        cid,
        nullified,
        created_at: ts(at),
    }
}

/// A three-entry chain: genesis, a handle change, then a tombstone.
fn sample_chain(did: &str) -> Vec<LogEntry> {
    let genesis = entry(
        did,
        Operation::Change(ChangeOp {
            data: sample_data("alice.example.com", "https://pds.example.com"),
            prev: None,
            extra_fields: Vec::new(),
        }),
        false,
        BASE,
    );
    let update = entry(
        did,
        Operation::Change(ChangeOp {
            data: sample_data("bob.example.com", "https://pds.example.com"),
            prev: Some(genesis.cid.clone()),
            extra_fields: Vec::new(),
        }),
        false,
        BASE + SECOND,
    );
    let tomb = entry(
        did,
        Operation::Tombstone(TombstoneOp { prev: update.cid.clone() }),
        false,
        BASE + 2 * SECOND,
    );
    vec![genesis, update, tomb]
}

fn live_chain(did: &str) -> Vec<LogEntry> {
    let mut chain = sample_chain(did);
    chain.pop();
    chain
}

#[test]
fn import_is_idempotent() {
    let mut store = MirrorStore::new();
    let chain = live_chain("did:plc:aaaaaaaaaaaaaaaaaaaaaaaa");

    let first = store.import(chain.clone2()).unwrap();
    let after_first = store.get_audit_log(&chain[0].did).unwrap();
    let last_first = store.get_last_created().unwrap();

    let second = store.import(chain.clone2()).unwrap();
    let after_second = store.get_audit_log(&chain[0].did).unwrap();
    let last_second = store.get_last_created().unwrap();

    assert_eq!(first.as_ref().map(|(t, n)| (t.nanos, *n)), Some((BASE + SECOND, 2)));
    assert_eq!(second.as_ref().map(|(t, n)| (t.nanos, *n)), Some((BASE + SECOND, 2)));
    assert_eq!(after_first.len(), 2);
    assert_eq!(after_second.len(), 2);
    assert_eq!(last_first.nanos, last_second.nanos);
    assert_eq!(store.total_dids(), 1);
}

trait Clone2 {
    fn clone2(&self) -> Self;
}

impl Clone2 for Vec<LogEntry> {
    fn clone2(&self) -> Self {
        self.iter()
            .map(|e| {
                let content = match &e.operation.content {
                    Operation::Change(c) => Operation::Change(ChangeOp {
                        data: c.data.clone(),
                        prev: c.prev.clone(),
                        extra_fields: Vec::new(),
                    }),
                    Operation::Tombstone(t) => Operation::Tombstone(t.clone()),
                    Operation::LegacyCreate(l) => Operation::LegacyCreate(l.clone()),
                };
                LogEntry {
                    did: e.did.clone(),
                    operation: SignedOperation { content, sig: e.operation.sig.clone() },
                    cid: e.cid.clone(),
                    nullified: e.nullified,
                    created_at: e.created_at.clone(),
                }
            })
            .collect()
    }
}

#[test]
fn import_rejects_missing_prev() {
    let mut store = MirrorStore::new();
    let chain = live_chain("did:plc:aaaaaaaaaaaaaaaaaaaaaaaa");
    // Only the update, whose prev is unknown to the store.
    let orphan = vec![chain.clone2().remove(1)];
    assert_eq!(store.import(orphan), Err(StoreError::PrevMissing));
    // The failed batch left nothing behind.
    assert_eq!(store.total_dids(), 0);
    assert!(store.get_last_created().is_none());
}

#[test]
fn reassembly_matches_import() {
    let mut store = MirrorStore::new();
    let chain = sample_chain("did:plc:bbbbbbbbbbbbbbbbbbbbbbbb");
    store.import(chain.clone2()).unwrap();

    let read = store.get_audit_log(&chain[0].did).unwrap();
    assert_eq!(read.len(), chain.len());
    for (orig, got) in chain.iter().zip(read.iter()) {
        assert_eq!(got.cid, orig.cid);
        // Reading back recomputes the CID; it must match the stored one.
        assert_eq!(got.operation.cid(), got.cid);
        assert_eq!(got.did, orig.did);
        assert_eq!(got.operation.sig, orig.operation.sig);
        assert_eq!(got.created_at.nanos, orig.created_at.nanos);
    }
}

#[test]
fn export_is_monotonic_and_bounded() {
    let mut store = MirrorStore::new();
    let a = live_chain("did:plc:cccccccccccccccccccccccc");
    store.import(a).unwrap();

    // Everything strictly after the epoch cursor, in non-decreasing order.
    let all = store.export(1000, Some(&ts(BASE - 1))).unwrap();
    assert_eq!(all.len(), 2);
    assert!(all.windows(2).all(|w| w[0].created_at.nanos <= w[1].created_at.nanos));

    // Strictly after the genesis: only the update remains.
    let later = store.export(1000, Some(&ts(BASE))).unwrap();
    assert_eq!(later.len(), 1);
    assert!(later.iter().all(|e| e.created_at.nanos > BASE));

    // The count caps the page.
    let one = store.export(1, Some(&ts(BASE - 1))).unwrap();
    assert_eq!(one.len(), 1);

    // Without a cursor the earliest page is served.
    let initial = store.export(10, None).unwrap();
    assert_eq!(initial.len(), 2);
    let first_page = store.export(1, None).unwrap();
    assert_eq!(first_page.len(), 1);
    assert_eq!(first_page[0].created_at.nanos, BASE);
}

#[test]
fn export_count_is_clamped() {
    let params = ExportParams { count: Some(5000), after: Some(ts(0)) };
    assert_eq!(params.bounded_count(), 1000);
    let params = ExportParams { count: None, after: None };
    assert_eq!(params.bounded_count(), 10);
    let params = ExportParams { count: Some(7), after: None };
    assert_eq!(params.bounded_count(), 7);

    // Even a huge requested count can never return more than the clamp.
    let mut store = MirrorStore::new();
    store.import(live_chain("did:plc:dddddddddddddddddddddddd")).unwrap();
    let page = store
        .export(ExportParams { count: Some(5000), after: Some(ts(0)) }.bounded_count(), Some(&ts(0)))
        .unwrap();
    assert!(page.len() <= 1000);
}

#[test]
fn tombstoned_did_is_gone() {
    let mut store = MirrorStore::new();
    let did = "did:plc:eeeeeeeeeeeeeeeeeeeeeeee".to_string();
    store.import(sample_chain(&did)).unwrap();

    let last = store.get_last_active_entry(&did).unwrap();
    match data_response(last) {
        DataOutcome::Tombstoned => {}
        _ => panic!("a tombstoned DID must answer 410"),
    }

    // An unknown DID is simply not registered.
    let unknown = store
        .get_last_active_entry(&"did:plc:ffffffffffffffffffffffff".to_string())
        .unwrap();
    match data_response(unknown) {
        DataOutcome::NotRegistered => {}
        _ => panic!("an unknown DID must answer 404"),
    }
}

#[test]
fn live_did_resolves_to_state() {
    let mut store = MirrorStore::new();
    let did = "did:plc:gggggggggggggggggggggggg".to_string();
    store.import(live_chain(&did)).unwrap();

    let last = store.get_last_active_entry(&did).unwrap();
    match data_response(last) {
        DataOutcome::Active(state) => {
            assert_eq!(state.did(), &did);
            assert_eq!(state.handle(), Some("bob.example.com".to_string()));
            assert_eq!(state.endpoint(), Some(&"https://pds.example.com".to_string()));
            assert_eq!(
                state.signing_key(),
                Some(&"did:key:zSigningKeyBBBB".to_string())
            );
        }
        _ => panic!("a live DID must resolve"),
    }
}

#[test]
fn state_projects_to_did_document() {
    let state = State {
        did: "did:plc:hhhhhhhhhhhhhhhhhhhhhhhh".to_string(),
        plc: sample_data("carol.example.com", "https://pds.example.com"),
    };
    let doc = state.into_doc().unwrap();
    assert_eq!(doc.id, "did:plc:hhhhhhhhhhhhhhhhhhhhhhhh");
    assert_eq!(doc.also_known_as, vec!["at://carol.example.com".to_string()]);
    assert_eq!(doc.verification_method.len(), 1);
    assert_eq!(doc.verification_method[0].id, "did:plc:hhhhhhhhhhhhhhhhhhhhhhhh#atproto");
    assert_eq!(doc.verification_method[0].method_type, "Multikey");
    assert_eq!(
        doc.verification_method[0].public_key_multibase,
        Some("zSigningKeyBBBB".to_string())
    );
    assert_eq!(doc.service.len(), 1);
    assert_eq!(doc.service[0].id, "#atproto_pds");

    // A verification method that is not a did:key refuses to project.
    let bad = State {
        did: "did:plc:hhhhhhhhhhhhhhhhhhhhhhhh".to_string(),
        plc: PlcData {
            verification_methods: vec![("atproto".to_string(), "not-a-key".to_string())],
            ..sample_data("carol.example.com", "https://pds.example.com")
        },
    };
    assert_eq!(bad.into_doc().err(), Some(()));
}

#[test]
fn operations_log_digest() {
    let did = "did:plc:iiiiiiiiiiiiiiiiiiiiiiii";
    let chain = sample_chain(did);
    let ops: Vec<SignedOperation> = chain
        .clone2()
        .into_iter()
        .map(|e| e.operation)
        .collect();
    let log = OperationsLog::new(ops).unwrap();
    assert!(log.deactivated);
    assert_eq!(log.updates.len(), 1);
    assert_eq!(log.create.also_known_as, vec!["at://alice.example.com".to_string()]);
    assert_eq!(log.updates[0].also_known_as, vec!["at://bob.example.com".to_string()]);

    // A log that does not begin with a creation is refused.
    let mut ops: Vec<SignedOperation> = chain.clone2().into_iter().map(|e| e.operation).collect();
    ops.remove(0);
    assert_eq!(
        OperationsLog::new(ops).err(),
        Some(Error::PlcDirectoryReturnedInvalidOperationLog)
    );

    // An empty log is refused.
    assert_eq!(
        OperationsLog::new(Vec::new()).err(),
        Some(Error::PlcDirectoryReturnedInvalidOperationLog)
    );
}

#[test]
fn handle_resolution_rules() {
    assert!(is_plc_did(&"did:plc:abcdefghijklmnopqrstuvwx".to_string()));
    assert!(!is_plc_did(&"did:web:example.com".to_string()));
    assert_eq!(did_method(&"did:web:example.com".to_string()), "did:web");
    assert_eq!(did_method(&"did:plc:abcdefghijklmnopqrstuvwx".to_string()), "did:plc");

    // Exactly one valid did= record resolves.
    let records = vec![
        "not-a-did-record".to_string(),
        "did=did:plc:abcdefghijklmnopqrstuvwx".to_string(),
    ];
    assert_eq!(
        did_from_txt_records(&records),
        Some("did:plc:abcdefghijklmnopqrstuvwx".to_string())
    );

    // Two valid records are ambiguous, so resolution fails.
    let records = vec![
        "did=did:plc:abcdefghijklmnopqrstuvwx".to_string(),
        "did=did:plc:xyxyxyxyxyxyxyxyxyxyxyxy".to_string(),
    ];
    assert_eq!(did_from_txt_records(&records), None);

    // No valid record fails too.
    let records = vec!["did=".to_string(), "unrelated".to_string()];
    assert_eq!(did_from_txt_records(&records), None);
}

#[test]
fn handle_must_match_state() {
    let state = State {
        did: "did:plc:jjjjjjjjjjjjjjjjjjjjjjjj".to_string(),
        plc: sample_data("dora.example.com", "https://pds.example.com"),
    };
    // The DID itself always passes.
    assert_eq!(resolve_check(&state.did.clone(), &state), Ok(()));
    // The handle the state declares passes.
    assert_eq!(resolve_check(&"dora.example.com".to_string(), &state), Ok(()));
    // Any other handle is rejected.
    assert_eq!(
        resolve_check(&"mallory.example.com".to_string(), &state),
        Err(Error::HandleInvalid)
    );
}

#[test]
fn errors_render_their_one_line() {
    assert_eq!(AuditError::AuditLogEmpty.message(), "Audit log is empty");
    let e = AuditError::EntryCidInvalid { cid: "bafyaaa".to_string(), actual: "bafybbb".to_string() };
    assert_eq!(e.message(), "Entry bafyaaa has actual CID bafybbb");
    let e = AuditError::PrevMissing { prev: "bafyccc".to_string() };
    assert_eq!(e.message(), "Entry bafyccc is missing");
    let e = AuditError::TrustViolation { cid: "bafyddd".to_string() };
    assert_eq!(
        e.message(),
        "Signature for entry bafyddd is not valid under any permitted rotation key"
    );

    let e = Error::UnsupportedDidMethod("did:web".to_string());
    assert_eq!(
        e.message(),
        "Unsupported DID method did:web; this tool only works with did:plc identities"
    );
    assert_eq!(Error::HandleResolutionFailed.message(), "Handle resolution failed");
}
