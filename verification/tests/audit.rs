//! Validator behaviour over synthetic logs: a builder assembles signed
//! chains with injected faults, and each test checks the exact error list.

use atrium_crypto::keypair::{Did as _, Export as _, P256Keypair};
use base64ct::Encoding as _;
use rand_core::OsRng;

use plc::audit::{AuditError, AuditLog};
use plc::codec::derive_did;
use plc::data::{PlcData, Service};
use plc::op::{ChangeOp, LegacyCreateOp, LogEntry, Operation, SignedOperation, Timestamp, TombstoneOp};

const ATPROTO: &str = "atproto";
const ATPROTO_PDS: &str = "atproto_pds";
const ATPROTO_PDS_TYPE: &str = "AtprotoPersonalDataServer";

/// One second, in nanoseconds.
const SECOND: i64 = 1_000_000_000;

/// A base instant after the malleability cutoff.
const BASE_NANOS: i64 = 1_800_000_000_000_000_000;

fn clone_op(content: &Operation) -> Operation {
    match content {
        Operation::Change(c) => Operation::Change(ChangeOp {
            data: c.data.clone(),
            prev: c.prev.clone(),
            extra_fields: Vec::new(),
        }),
        Operation::Tombstone(t) => Operation::Tombstone(t.clone()),
        Operation::LegacyCreate(l) => Operation::LegacyCreate(l.clone()),
    }
}

fn clone_entry(e: &LogEntry) -> LogEntry {
    LogEntry {
        did: e.did.clone(),
        operation: SignedOperation {
            content: clone_op(&e.operation.content),
            sig: e.operation.sig.clone(),
        },
        cid: e.cid.clone(),
        nullified: e.nullified,
        created_at: e.created_at.clone(),
    }
}

struct Identity {
    rotation: Vec<P256Keypair>,
    signing: P256Keypair,
}

fn clone_key(k: &P256Keypair) -> P256Keypair {
    P256Keypair::import(&k.export()).unwrap()
}

impl Identity {
    fn generate() -> Self {
        let mut rng = OsRng;
        Identity {
            rotation: vec![P256Keypair::create(&mut rng), P256Keypair::create(&mut rng)],
            signing: P256Keypair::create(&mut rng),
        }
    }

    fn duplicate(&self) -> Self {
        Identity {
            rotation: self.rotation.iter().map(clone_key).collect(),
            signing: clone_key(&self.signing),
        }
    }
}

pub struct TestLog {
    initial_state: Identity,
    state_updates: Vec<(usize, Identity)>,
    did: String,
    entries: Vec<LogEntry>,
    base_nanos: i64,
}

enum KeyKind {
    Rotation { operation: Option<usize>, authority: usize },
    Signing,
}

enum SigKind {
    Normal,
    Padded,
    Invalid,
}

fn add_signature(content: Operation, key: &P256Keypair, sig_kind: &SigKind) -> SignedOperation {
    let unsigned = content.unsigned_bytes();
    let msg: &[u8] = match sig_kind {
        SigKind::Invalid => &[],
        _ => &unsigned[..],
    };
    let sig_bytes = key.sign(msg).unwrap();
    let sig = match sig_kind {
        SigKind::Padded => base64ct::Base64Url::encode_string(&sig_bytes),
        _ => base64ct::Base64UrlUnpadded::encode_string(&sig_bytes),
    };
    SignedOperation { content, sig }
}

fn timestamp(nanos: i64) -> Timestamp {
    Timestamp { nanos, raw: format!("t{nanos}") }
}

impl TestLog {
    pub fn empty(did: String) -> Self {
        TestLog {
            initial_state: Identity::generate(),
            state_updates: vec![],
            did,
            entries: vec![],
            base_nanos: BASE_NANOS,
        }
    }

    fn genesis_from(initial_state: Identity, content: Operation, base_nanos: i64) -> Self {
        let operation = add_signature(
            content,
            initial_state.rotation.last().unwrap(),
            &SigKind::Normal,
        );
        let did = derive_did(&operation.signed_bytes());
        let cid = operation.cid();
        let genesis = LogEntry {
            did: did.clone(),
            operation,
            cid,
            nullified: false,
            created_at: timestamp(base_nanos),
        };
        TestLog {
            initial_state,
            state_updates: vec![],
            did,
            entries: vec![genesis],
            base_nanos,
        }
    }

    /// A valid log with a single change operation.
    pub fn with_genesis() -> Self {
        Self::with_genesis_at(BASE_NANOS)
    }

    /// A valid single-operation log whose genesis is created at the given
    /// instant.
    pub fn with_genesis_at(base_nanos: i64) -> Self {
        let initial_state = Identity::generate();
        let content = Operation::Change(ChangeOp {
            data: PlcData {
                rotation_keys: initial_state.rotation.iter().map(|k| k.did()).collect(),
                verification_methods: vec![(ATPROTO.to_string(), initial_state.signing.did())],
                also_known_as: vec!["at://example.com".to_string()],
                services: vec![(
                    ATPROTO_PDS.to_string(),
                    Service {
                        service_type: ATPROTO_PDS_TYPE.to_string(),
                        endpoint: "https://bsky.social".to_string(),
                    },
                )],
            },
            prev: None,
            extra_fields: Vec::new(),
        });
        Self::genesis_from(initial_state, content, base_nanos)
    }

    /// A valid log with a legacy genesis operation.
    pub fn with_legacy_genesis() -> Self {
        let mut initial_state = Identity::generate();
        // For legacy create ops, the signing key is also a rotation key.
        initial_state.signing = clone_key(&initial_state.rotation[1]);
        let content = Operation::LegacyCreate(LegacyCreateOp {
            signing_key: initial_state.rotation[1].did(),
            recovery_key: initial_state.rotation[0].did(),
            handle: "example.com".to_string(),
            service: "https://bsky.social".to_string(),
        });
        Self::genesis_from(initial_state, content, BASE_NANOS)
    }

    pub fn apply_update<F: FnOnce(Update) -> Update>(self, f: F) -> Self {
        f(Update::new(self)).build()
    }

    pub fn apply_tombstone<F: FnOnce(Tombstone) -> Tombstone>(self, f: F) -> Self {
        f(Tombstone::new(self)).build()
    }

    /// Swaps the entries at the given positions in list order only.
    pub fn swap_in_log(&mut self, a: usize, b: usize) {
        self.entries.swap(a, b);
    }

    /// Swaps the entries at the given positions, also swapping their `prev`
    /// pointers so their chain order flips too.
    pub fn swap_in_chain(&mut self, a: usize, b: usize) {
        let (a, b) = if a < b { (a, b) } else { (b, a) };
        assert!(a != b, "cannot swap an operation with itself");

        let get_links = |entry: &LogEntry| {
            (
                entry.cid.clone(),
                match &entry.operation.content {
                    Operation::Change(op) => op.prev.clone(),
                    Operation::Tombstone(op) => Some(op.prev.clone()),
                    Operation::LegacyCreate(_) => None,
                },
            )
        };
        let set_prev = |entry: &mut LogEntry, prev: Option<String>| match &mut entry
            .operation
            .content
        {
            Operation::Change(op) => op.prev = prev,
            Operation::Tombstone(op) => op.prev = prev.expect("should swap compatible operations"),
            Operation::LegacyCreate(_) => assert!(prev.is_none()),
        };

        let (a_cid, a_prev) = get_links(&self.entries[a]);
        let (b_cid, b_prev) = get_links(&self.entries[b]);

        match (a_prev, b_prev) {
            (None, None) => (),
            (None, Some(prev)) if prev == a_cid => {
                set_prev(&mut self.entries[a], Some(b_cid));
                set_prev(&mut self.entries[b], None);
            }
            (None, Some(prev)) => {
                set_prev(&mut self.entries[a], Some(prev));
                set_prev(&mut self.entries[b], None);
            }
            (Some(prev), None) if prev == b_cid => {
                set_prev(&mut self.entries[a], None);
                set_prev(&mut self.entries[b], Some(a_cid));
            }
            (Some(prev), None) => {
                set_prev(&mut self.entries[a], None);
                set_prev(&mut self.entries[b], Some(prev));
            }
            (Some(a_prev), Some(b_prev)) if b_prev == a_cid => {
                set_prev(&mut self.entries[a], Some(b_cid));
                set_prev(&mut self.entries[b], Some(a_prev));
            }
            (Some(a_prev), Some(b_prev)) if a_prev == b_cid => {
                set_prev(&mut self.entries[a], Some(b_prev));
                set_prev(&mut self.entries[b], Some(a_cid));
            }
            (Some(a_prev), Some(b_prev)) => {
                set_prev(&mut self.entries[a], Some(b_prev));
                set_prev(&mut self.entries[b], Some(a_prev));
            }
        }

        self.entries.swap(a, b);
    }

    /// Removes and returns the entry at the given position.
    pub fn remove(&mut self, operation: usize) -> LogEntry {
        self.entries.remove(operation)
    }

    /// Derives the correct DID for the log.
    pub fn did(&self) -> String {
        derive_did(&self.entries.first().expect("log is not empty").operation.signed_bytes())
    }

    /// The DID the log claims.
    pub fn claimed_did(&self) -> String {
        self.did.clone()
    }

    /// Derives the correct CID for the given entry's operation.
    pub fn cid_for(&self, operation: usize) -> String {
        self.entries[operation].operation.cid()
    }

    /// The CID the given entry claims.
    pub fn claimed_cid_for(&self, operation: usize) -> String {
        self.entries[operation].cid.clone()
    }

    /// The audit log of the current entries.
    pub fn audit_log(&self) -> AuditLog {
        AuditLog::new(self.did.clone(), self.entries.iter().map(clone_entry).collect())
    }

    pub fn entries(&self) -> Vec<LogEntry> {
        self.entries.iter().map(clone_entry).collect()
    }

    fn next_nanos(&self) -> i64 {
        // Entries follow each other closely, as they would under a wall
        // clock; a spacing well under the recovery window's granularity.
        self.base_nanos + (self.entries.len() as i64) * 1_000_000
    }

    fn state_at(&self, operation: Option<usize>) -> &Identity {
        let limit = match operation {
            Some(a) => a + 1,
            None => self.entries.len(),
        };
        self.state_updates
            .iter()
            .rev()
            .find(|(i, _)| *i < limit)
            .map(|(_, state)| state)
            .unwrap_or(&self.initial_state)
    }

    fn sign(&self, content: Operation, with: &Option<KeyKind>, sig_kind: &SigKind) -> SignedOperation {
        match with {
            None => add_signature(content, self.state_at(None).rotation.last().unwrap(), sig_kind),
            Some(KeyKind::Rotation { operation, authority }) => add_signature(
                content,
                self.state_at(*operation)
                    .rotation
                    .get(*authority)
                    .expect("rotation key with authority must exist"),
                sig_kind,
            ),
            Some(KeyKind::Signing) => add_signature(content, &self.state_at(None).signing, sig_kind),
        }
    }
}

pub struct Update {
    log: TestLog,
    new_rotation_keys: Vec<(usize, P256Keypair)>,
    removed_rotation_keys: Vec<usize>,
    new_signing_key: Option<P256Keypair>,
    new_handle: Option<Option<String>>,
    new_pds: Option<Option<String>>,
    with_prev: Option<Option<String>>,
    signed_with_key: Option<KeyKind>,
    sig_kind: SigKind,
    nullified: bool,
    created_at: Option<Timestamp>,
}

impl Update {
    fn new(log: TestLog) -> Self {
        Update {
            log,
            new_rotation_keys: vec![],
            removed_rotation_keys: vec![],
            new_signing_key: None,
            new_handle: None,
            new_pds: None,
            with_prev: None,
            signed_with_key: None,
            sig_kind: SigKind::Normal,
            nullified: false,
            created_at: None,
        }
    }

    pub fn rotate_rotation_key(mut self, authority: usize) -> Self {
        assert!(!self.new_rotation_keys.iter().any(|(a, _)| *a == authority));
        let mut rng = OsRng;
        self.new_rotation_keys.push((authority, P256Keypair::create(&mut rng)));
        self
    }

    pub fn remove_rotation_key(mut self, authority: usize) -> Self {
        assert!(!self.removed_rotation_keys.contains(&authority));
        self.removed_rotation_keys.push(authority);
        self
    }

    pub fn rotate_signing_key(mut self) -> Self {
        assert!(self.new_signing_key.is_none());
        let mut rng = OsRng;
        self.new_signing_key = Some(P256Keypair::create(&mut rng));
        self
    }

    pub fn change_handle(mut self, handle: &str) -> Self {
        assert!(self.new_handle.is_none());
        self.new_handle = Some(Some(handle.to_string()));
        self
    }

    pub fn remove_handle(mut self) -> Self {
        assert!(self.new_handle.is_none());
        self.new_handle = Some(None);
        self
    }

    pub fn change_pds(mut self, pds: &str) -> Self {
        assert!(self.new_pds.is_none());
        self.new_pds = Some(Some(pds.to_string()));
        self
    }

    pub fn remove_pds(mut self) -> Self {
        assert!(self.new_pds.is_none());
        self.new_pds = Some(None);
        self
    }

    pub fn with_prev_op(mut self, prev: usize) -> Self {
        assert!(self.with_prev.is_none());
        self.with_prev = Some(Some(self.log.cid_for(prev)));
        self
    }

    pub fn with_prev_cid(mut self, prev: String) -> Self {
        assert!(self.with_prev.is_none());
        self.with_prev = Some(Some(prev));
        self
    }

    pub fn without_prev(mut self) -> Self {
        assert!(self.with_prev.is_none());
        self.with_prev = Some(None);
        self
    }

    pub fn signed_with_key(mut self, authority: usize) -> Self {
        assert!(self.signed_with_key.is_none());
        self.signed_with_key = Some(KeyKind::Rotation { operation: None, authority });
        self
    }

    pub fn signed_with_key_from(mut self, operation: usize, authority: usize) -> Self {
        assert!(self.signed_with_key.is_none());
        self.signed_with_key = Some(KeyKind::Rotation { operation: Some(operation), authority });
        self
    }

    pub fn signed_with_signing_key(mut self) -> Self {
        assert!(self.signed_with_key.is_none());
        self.signed_with_key = Some(KeyKind::Signing);
        self
    }

    pub fn padded_sig(mut self) -> Self {
        self.sig_kind = SigKind::Padded;
        self
    }

    pub fn invalid_sig(mut self) -> Self {
        self.sig_kind = SigKind::Invalid;
        self
    }

    pub fn nullified(mut self) -> Self {
        self.nullified = true;
        self
    }

    pub fn created_after(mut self, operation: usize, seconds: i64) -> Self {
        assert!(self.created_at.is_none());
        let nanos = self.log.entries[operation].created_at.nanos + seconds * SECOND;
        self.created_at = Some(timestamp(nanos));
        self
    }

    fn build(self) -> TestLog {
        let mut log = self.log;

        let prev_entry_cid = log.entries.last().expect("non-empty").cid.clone();

        let mut new_data = match &log.entries.last().unwrap().operation.content {
            Operation::Change(op) => op.data.clone(),
            Operation::Tombstone(op) => {
                // An invalid case is being built; take the state of the most
                // recent non-tombstone operation.
                let mut prev = op.prev.clone();
                loop {
                    let prior = log
                        .entries
                        .iter()
                        .find(|entry| entry.cid == prev)
                        .expect("updating a tombstone with no non-tombstone prev is unsupported");
                    match &prior.operation.content {
                        Operation::Change(op) => break op.data.clone(),
                        Operation::Tombstone(op) => prev = op.prev.clone(),
                        Operation::LegacyCreate(op) => break op.clone().into_plc_data(),
                    }
                }
            }
            Operation::LegacyCreate(op) => op.clone().into_plc_data(),
        };

        if !(self.new_rotation_keys.is_empty()
            && self.removed_rotation_keys.is_empty()
            && self.new_signing_key.is_none())
        {
            let mut new_state = log
                .state_updates
                .last()
                .map(|(_, state)| state)
                .unwrap_or(&log.initial_state)
                .duplicate();

            for (authority, key) in self.new_rotation_keys {
                if authority < new_data.rotation_keys.len() {
                    new_data.rotation_keys[authority] = key.did();
                    new_state.rotation[authority] = key;
                } else {
                    assert_eq!(new_data.rotation_keys.len(), authority);
                    assert_eq!(new_state.rotation.len(), authority);
                    new_data.rotation_keys.push(key.did());
                    new_state.rotation.push(key);
                }
            }

            let mut removed = self.removed_rotation_keys;
            removed.sort();
            for authority in removed.into_iter().rev() {
                new_data.rotation_keys.remove(authority);
                new_state.rotation.remove(authority);
            }

            if let Some(new_signing_key) = self.new_signing_key {
                match new_data.verification_methods.iter_mut().find(|(m, _)| m == ATPROTO) {
                    Some(pair) => pair.1 = new_signing_key.did(),
                    None => new_data
                        .verification_methods
                        .push((ATPROTO.to_string(), new_signing_key.did())),
                }
                new_state.signing = new_signing_key;
            }

            log.state_updates.push((log.entries.len(), new_state));
        }

        match self.new_handle {
            Some(Some(handle)) => {
                if new_data.also_known_as.is_empty() {
                    new_data.also_known_as.push(handle);
                } else {
                    new_data.also_known_as[0] = handle;
                }
            }
            Some(None) if !new_data.also_known_as.is_empty() => {
                new_data.also_known_as.remove(0);
            }
            _ => (),
        }

        match self.new_pds {
            Some(Some(endpoint)) => {
                match new_data.services.iter_mut().find(|(kind, _)| kind == ATPROTO_PDS) {
                    Some(pair) => pair.1.endpoint = endpoint,
                    None => new_data.services.push((
                        ATPROTO_PDS.to_string(),
                        Service {
                            service_type: ATPROTO_PDS_TYPE.to_string(),
                            endpoint,
                        },
                    )),
                }
            }
            Some(None) => {
                new_data.services.retain(|(kind, _)| kind != ATPROTO_PDS);
            }
            _ => (),
        }

        let content = Operation::Change(ChangeOp {
            data: new_data,
            prev: self.with_prev.unwrap_or(Some(prev_entry_cid)),
            extra_fields: Vec::new(),
        });
        let operation = log.sign(content, &self.signed_with_key, &self.sig_kind);
        let cid = operation.cid();
        let created_at = self.created_at.unwrap_or_else(|| timestamp(log.next_nanos()));
        log.entries.push(LogEntry {
            did: log.did.clone(),
            operation,
            cid,
            nullified: self.nullified,
            created_at,
        });
        log
    }
}

pub struct Tombstone {
    log: TestLog,
    with_prev: Option<String>,
    signed_with_key: Option<KeyKind>,
    sig_kind: SigKind,
    nullified: bool,
    created_at: Option<Timestamp>,
}

impl Tombstone {
    fn new(log: TestLog) -> Self {
        Tombstone {
            log,
            with_prev: None,
            signed_with_key: None,
            sig_kind: SigKind::Normal,
            nullified: false,
            created_at: None,
        }
    }

    pub fn with_prev_op(mut self, prev: usize) -> Self {
        assert!(self.with_prev.is_none());
        self.with_prev = Some(self.log.cid_for(prev));
        self
    }

    pub fn with_prev_cid(mut self, prev: String) -> Self {
        assert!(self.with_prev.is_none());
        self.with_prev = Some(prev);
        self
    }

    pub fn signed_with_key(mut self, authority: usize) -> Self {
        assert!(self.signed_with_key.is_none());
        self.signed_with_key = Some(KeyKind::Rotation { operation: None, authority });
        self
    }

    pub fn signed_with_key_from(mut self, operation: usize, authority: usize) -> Self {
        assert!(self.signed_with_key.is_none());
        self.signed_with_key = Some(KeyKind::Rotation { operation: Some(operation), authority });
        self
    }

    pub fn signed_with_signing_key(mut self) -> Self {
        assert!(self.signed_with_key.is_none());
        self.signed_with_key = Some(KeyKind::Signing);
        self
    }

    pub fn padded_sig(mut self) -> Self {
        self.sig_kind = SigKind::Padded;
        self
    }

    pub fn invalid_sig(mut self) -> Self {
        self.sig_kind = SigKind::Invalid;
        self
    }

    pub fn nullified(mut self) -> Self {
        self.nullified = true;
        self
    }

    pub fn created_after(mut self, operation: usize, seconds: i64) -> Self {
        assert!(self.created_at.is_none());
        let nanos = self.log.entries[operation].created_at.nanos + seconds * SECOND;
        self.created_at = Some(timestamp(nanos));
        self
    }

    fn build(self) -> TestLog {
        let mut log = self.log;
        let prev = self
            .with_prev
            .unwrap_or_else(|| log.entries.last().expect("non-empty").cid.clone());
        let content = Operation::Tombstone(TombstoneOp { prev });
        let operation = log.sign(content, &self.signed_with_key, &self.sig_kind);
        let cid = operation.cid();
        let created_at = self.created_at.unwrap_or_else(|| timestamp(log.next_nanos()));
        log.entries.push(LogEntry {
            did: log.did.clone(),
            operation,
            cid,
            nullified: self.nullified,
            created_at,
        });
        log
    }
}

#[test]
fn valid_examples() {
    let log = TestLog::with_genesis();
    assert_eq!(log.audit_log().validate(), Ok(()));

    let log = log
        .apply_update(|update| update.change_handle("bob.example.com"))
        .apply_update(|update| update.change_pds("pds.example.com"));
    assert_eq!(log.audit_log().validate(), Ok(()));

    let log = TestLog::with_legacy_genesis();
    assert_eq!(log.audit_log().validate(), Ok(()));

    let log = log
        .apply_update(|update| update.change_handle("bob.example.com"))
        .apply_update(|update| update.change_pds("pds.example.com"));
    assert_eq!(log.audit_log().validate(), Ok(()));

    let log = TestLog::with_genesis().apply_update(|update| update.remove_handle());
    assert_eq!(log.audit_log().validate(), Ok(()));
    let log = log.apply_update(|update| update.change_handle("bob.example.com"));
    assert_eq!(log.audit_log().validate(), Ok(()));

    let log = TestLog::with_genesis().apply_update(|update| update.remove_pds());
    assert_eq!(log.audit_log().validate(), Ok(()));
    let log = log.apply_update(|update| update.change_pds("pds.example.com"));
    assert_eq!(log.audit_log().validate(), Ok(()));
}

#[test]
fn empty_log() {
    let log = TestLog::empty("did:plc:gyw3654yworelrygfwmqfv2y".to_string()).audit_log();
    assert_eq!(log.validate(), Err(vec![AuditError::AuditLogEmpty]));
}

#[test]
fn padded_sig() {
    let log = TestLog::with_genesis()
        .apply_update(|update| update.change_handle("bob.example.com").padded_sig())
        .apply_update(|update| update.change_pds("pds.example.com"));

    assert_eq!(
        log.audit_log().validate(),
        Err(vec![AuditError::InvalidSignatureEncoding {
            cid: log.cid_for(1),
        }]),
    );
}

#[test]
fn padded_sig_before_cutoff() {
    // Before the malleability cutoff the registry accepted padded
    // signatures, so an old padded entry must still validate.
    let log = TestLog::with_genesis_at(1_600_000_000_000_000_000)
        .apply_update(|update| update.change_handle("bob.example.com").padded_sig())
        .apply_update(|update| update.change_pds("pds.example.com"));

    assert_eq!(log.audit_log().validate(), Ok(()));
}

#[test]
fn invalid_sig() {
    let log = TestLog::with_genesis()
        .apply_update(|update| update.change_handle("bob.example.com").invalid_sig())
        .apply_update(|update| update.change_pds("pds.example.com"));

    assert_eq!(
        log.audit_log().validate(),
        Err(vec![AuditError::TrustViolation {
            cid: log.cid_for(1),
        }]),
    );
}

#[test]
fn signed_with_signing_key() {
    let log = TestLog::with_genesis()
        .apply_update(|update| update.change_handle("bob.example.com"))
        .apply_update(|update| update.change_pds("pds.example.com").signed_with_signing_key());

    assert_eq!(
        log.audit_log().validate(),
        Err(vec![AuditError::TrustViolation {
            cid: log.cid_for(2),
        }]),
    );
}

#[test]
fn rotate_rotation_key() {
    let log = TestLog::with_genesis()
        .apply_update(|update| update.change_handle("bob.example.com"))
        .apply_update(|update| update.rotate_rotation_key(0))
        .apply_update(|update| update.change_pds("pds.example.com").signed_with_key_from(2, 0));

    assert_eq!(log.audit_log().validate(), Ok(()));
}

#[test]
fn sign_with_old_rotation_key() {
    let log = TestLog::with_genesis()
        .apply_update(|update| update.change_handle("bob.example.com"))
        .apply_update(|update| update.rotate_rotation_key(0))
        .apply_update(|update| update.change_pds("pds.example.com").signed_with_key_from(1, 0));

    assert_eq!(
        log.audit_log().validate(),
        Err(vec![AuditError::TrustViolation {
            cid: log.cid_for(3),
        }]),
    );
}

#[test]
fn remove_rotation_key() {
    let log = TestLog::with_genesis()
        .apply_update(|update| update.change_handle("bob.example.com"))
        .apply_update(|update| update.remove_rotation_key(0))
        .apply_update(|update| update.change_pds("pds.example.com").signed_with_key_from(2, 0));

    assert_eq!(log.audit_log().validate(), Ok(()));
}

#[test]
fn sign_with_removed_rotation_key() {
    let log = TestLog::with_genesis()
        .apply_update(|update| update.change_handle("bob.example.com"))
        .apply_update(|update| update.remove_rotation_key(0))
        .apply_update(|update| update.change_pds("pds.example.com").signed_with_key_from(1, 0));

    assert_eq!(
        log.audit_log().validate(),
        Err(vec![AuditError::TrustViolation {
            cid: log.cid_for(3),
        }]),
    );
}

#[test]
fn rotate_signing_key() {
    let log = TestLog::with_genesis()
        .apply_update(|update| update.change_handle("bob.example.com"))
        .apply_update(|update| update.rotate_signing_key())
        .apply_update(|update| update.change_pds("pds.example.com"));

    assert_eq!(log.audit_log().validate(), Ok(()));
}

#[test]
fn missing_prev() {
    let nonexistent_cid = "bafyreiaegzwq2gvetzeaybcqy6f4a7ez6gdocmnz6c4uljh5exhn26oj4u".to_string();

    let log = TestLog::with_genesis()
        .apply_update(|update| update.change_handle("bob.example.com"))
        .apply_update(|update| {
            update
                .change_pds("pds.example.com")
                .with_prev_cid(nonexistent_cid.clone())
        });

    assert_eq!(
        log.audit_log().validate(),
        Err(vec![AuditError::PrevMissing {
            prev: nonexistent_cid,
        }]),
    );
}

#[test]
fn missing_genesis_op() {
    let mut log = TestLog::with_genesis()
        .apply_update(|update| update.change_handle("bob.example.com"))
        .apply_update(|update| update.change_pds("pds.example.com"));

    let genesis = log.remove(0);

    assert_eq!(
        log.audit_log().validate(),
        Err(vec![
            AuditError::GenesisOperationNotCreate,
            AuditError::PrevMissing { prev: genesis.cid },
        ]),
    );
}

#[test]
fn unlinked_first_update() {
    let log = TestLog::with_genesis()
        .apply_update(|update| update.change_handle("bob.example.com").without_prev());

    assert_eq!(
        log.audit_log().validate(),
        Err(vec![AuditError::NonGenesisCreate {
            cid: log.cid_for(1),
        }]),
    );
}

#[test]
fn unlinked_second_update() {
    let log = TestLog::with_genesis()
        .apply_update(|update| update.change_handle("bob.example.com"))
        .apply_update(|update| update.change_pds("pds.example.com").without_prev());

    assert_eq!(
        log.audit_log().validate(),
        Err(vec![AuditError::NonGenesisCreate {
            cid: log.cid_for(2),
        }]),
    );
}

#[test]
fn order_swapped() {
    let mut log = TestLog::with_genesis()
        .apply_update(|update| update.change_handle("bob.example.com"))
        .apply_update(|update| update.change_pds("pds.example.com"));

    log.swap_in_log(0, 1);

    assert_eq!(
        log.audit_log().validate(),
        Err(vec![
            AuditError::GenesisOperationNotCreate,
            AuditError::PrevReferencesFuture {
                cid: log.cid_for(0),
                prev: log.cid_for(1),
            },
            AuditError::NonGenesisCreate {
                cid: log.cid_for(1),
            },
        ]),
    );
}

#[test]
fn order_reversed() {
    let mut log = TestLog::with_genesis()
        .apply_update(|update| update.change_handle("bob.example.com"))
        .apply_update(|update| update.change_pds("pds.example.com"));

    log.swap_in_chain(0, 1);

    assert_eq!(
        log.audit_log().validate(),
        Err(vec![
            // The DID is now being derived from the wrong operation.
            AuditError::GenesisOperationInvalidDid {
                expected: log.claimed_did(),
                actual: log.did(),
            },
            // Changing the `prev` pointers altered the CIDs and invalidated
            // the signatures.
            AuditError::EntryCidInvalid {
                cid: log.claimed_cid_for(0),
                actual: log.cid_for(0),
            },
            AuditError::TrustViolation {
                cid: log.claimed_cid_for(0),
            },
            AuditError::EntryCidInvalid {
                cid: log.claimed_cid_for(1),
                actual: log.cid_for(1),
            },
            AuditError::TrustViolation {
                cid: log.claimed_cid_for(1),
            },
            // Only the `prev` pointers moved; the timestamps now have the
            // wrong causality.
            AuditError::EntryCreatedBeforePrev {
                cid: log.claimed_cid_for(1),
                prev: log.claimed_cid_for(0),
            },
            // The `prev` pointers that point *to* the swapped entries are
            // left alone, so the chain is now also forked.
            AuditError::EntryIncorrectlyActive {
                cid: log.claimed_cid_for(1),
            },
        ]),
    );
}

#[test]
fn multiple_active_children() {
    let log = TestLog::with_genesis()
        .apply_update(|update| update.change_handle("bob.example.com"))
        .apply_update(|update| update.change_pds("pds.example.com").with_prev_op(0));

    assert_eq!(
        log.audit_log().validate(),
        Err(vec![AuditError::MultipleActiveChildren {
            cid: log.cid_for(2),
            first: log.cid_for(1),
        }]),
    );
}

#[test]
fn correctly_nullified() {
    let log = TestLog::with_genesis()
        .apply_update(|update| update.change_handle("bob.example.com").nullified())
        .apply_update(|update| {
            update
                .change_pds("pds.example.com")
                .with_prev_op(0)
                .signed_with_key(0)
        });

    assert_eq!(log.audit_log().validate(), Ok(()));
}

#[test]
fn missing_nullified() {
    let log = TestLog::with_genesis()
        .apply_update(|update| update.change_handle("bob.example.com"))
        .apply_update(|update| {
            update
                .change_pds("pds.example.com")
                .with_prev_op(0)
                .signed_with_key(0)
        });

    assert_eq!(
        log.audit_log().validate(),
        Err(vec![AuditError::EntryIncorrectlyActive {
            cid: log.cid_for(1),
        }]),
    );
}

#[test]
fn multiple_correctly_nullified() {
    let log = TestLog::with_genesis()
        .apply_update(|update| update.rotate_rotation_key(2))
        .apply_update(|update| {
            update
                .change_handle("bob.example.com")
                .signed_with_key(2)
                .nullified()
        })
        .apply_update(|update| {
            update
                .change_handle("carol.example.com")
                .with_prev_op(1)
                .signed_with_key(1)
                .nullified()
        })
        .apply_update(|update| {
            update
                .change_handle("dave.example.com")
                .with_prev_op(1)
                .signed_with_key(0)
        });

    assert_eq!(log.audit_log().validate(), Ok(()));
}

#[test]
fn multiple_incorrectly_nullified() {
    let log = TestLog::with_genesis()
        .apply_update(|update| update.rotate_rotation_key(2))
        .apply_update(|update| {
            update
                .change_handle("bob.example.com")
                .signed_with_key(2)
                .nullified()
        })
        .apply_update(|update| {
            update
                .change_handle("carol.example.com")
                .with_prev_op(1)
                .signed_with_key(1)
        })
        .apply_update(|update| {
            update
                .change_handle("dave.example.com")
                .with_prev_op(1)
                .signed_with_key(0)
                .nullified()
        });

    assert_eq!(
        log.audit_log().validate(),
        Err(vec![AuditError::EntryIncorrectlyNullified {
            cid: log.cid_for(4),
        }]),
    );
}

#[test]
fn nullified_with_same_key() {
    let log = TestLog::with_genesis()
        .apply_update(|update| {
            update
                .change_handle("bob.example.com")
                .signed_with_key(0)
                .nullified()
        })
        .apply_update(|update| {
            update
                .change_pds("pds.example.com")
                .with_prev_op(0)
                .signed_with_key(0)
        });

    assert_eq!(
        log.audit_log().validate(),
        Err(vec![
            AuditError::EntryIncorrectlyActive {
                cid: log.cid_for(2),
            },
            AuditError::EntryIncorrectlyNullified {
                cid: log.cid_for(1),
            },
        ]),
    );
}

#[test]
fn nullified_with_active_child() {
    let log = TestLog::with_genesis()
        .apply_update(|update| update.change_handle("bob.example.com").nullified())
        .apply_update(|update| update.change_pds("pds.example.com"));

    assert_eq!(
        log.audit_log().validate(),
        Err(vec![
            AuditError::EntryIncorrectlyActive {
                cid: log.cid_for(2),
            },
            AuditError::EntryIncorrectlyNullified {
                cid: log.cid_for(1),
            },
        ]),
    );
}

#[test]
fn genesis_nullified() {
    let log = TestLog::with_genesis()
        .apply_update(|update| update.change_handle("bob.example.com"))
        .apply_update(|update| update.change_pds("pds.example.com"));

    let mut audit_log = log.audit_log();
    audit_log.entries[0].nullified = true;

    assert_eq!(
        audit_log.validate(),
        Err(vec![
            AuditError::EntryIncorrectlyNullified {
                cid: log.cid_for(0),
            },
            // The direct child shows up as incorrectly active because its
            // parent is observed as nullified; later children raise nothing
            // more, as errors are not propagated down-chain.
            AuditError::EntryIncorrectlyActive {
                cid: log.cid_for(1),
            },
        ]),
    );
}

#[test]
fn nullified_in_time() {
    let log = TestLog::with_genesis()
        .apply_update(|update| update.change_handle("bob.example.com").nullified())
        .apply_update(|update| {
            update
                .change_pds("pds.example.com")
                .with_prev_op(0)
                .signed_with_key(0)
                .created_after(1, 72 * 60 * 60)
        });

    assert_eq!(log.audit_log().validate(), Ok(()));
}

#[test]
fn nullified_late() {
    let log = TestLog::with_genesis()
        .apply_update(|update| update.change_handle("bob.example.com").nullified())
        .apply_update(|update| {
            update
                .change_pds("pds.example.com")
                .with_prev_op(0)
                .signed_with_key(0)
                .created_after(1, 72 * 60 * 60 + 1)
        });

    assert_eq!(
        log.audit_log().validate(),
        Err(vec![
            AuditError::EntryIncorrectlyActive {
                cid: log.cid_for(2),
            },
            AuditError::EntryIncorrectlyNullified {
                cid: log.cid_for(1),
            },
        ])
    );
}

#[test]
fn valid_tombstone() {
    let log = TestLog::with_genesis()
        .apply_update(|update| update.change_handle("bob.example.com"))
        .apply_tombstone(|t| t);

    assert_eq!(log.audit_log().validate(), Ok(()));
}

#[test]
fn tombstone_with_padded_sig() {
    let log = TestLog::with_genesis()
        .apply_update(|update| update.change_handle("bob.example.com"))
        .apply_tombstone(|t| t.padded_sig());

    assert_eq!(
        log.audit_log().validate(),
        Err(vec![AuditError::InvalidSignatureEncoding {
            cid: log.cid_for(2),
        }]),
    );
}

#[test]
fn tombstone_with_invalid_sig() {
    let log = TestLog::with_genesis()
        .apply_update(|update| update.change_handle("bob.example.com"))
        .apply_tombstone(|t| t.invalid_sig());

    assert_eq!(
        log.audit_log().validate(),
        Err(vec![AuditError::TrustViolation {
            cid: log.cid_for(2),
        }]),
    );
}

#[test]
fn tombstone_signed_with_signing_key() {
    let log = TestLog::with_genesis()
        .apply_update(|update| update.change_handle("bob.example.com"))
        .apply_tombstone(|t| t.signed_with_signing_key());

    assert_eq!(
        log.audit_log().validate(),
        Err(vec![AuditError::TrustViolation {
            cid: log.cid_for(2),
        }]),
    );
}

#[test]
fn tombstone_signed_with_rotated_key() {
    let log = TestLog::with_genesis()
        .apply_update(|update| update.change_handle("bob.example.com"))
        .apply_update(|update| update.rotate_rotation_key(0))
        .apply_tombstone(|t| t.signed_with_key_from(2, 0));

    assert_eq!(log.audit_log().validate(), Ok(()));
}

#[test]
fn tombstone_signed_with_old_rotation_key() {
    let log = TestLog::with_genesis()
        .apply_update(|update| update.change_handle("bob.example.com"))
        .apply_update(|update| update.rotate_rotation_key(0))
        .apply_tombstone(|t| t.signed_with_key_from(1, 0));

    assert_eq!(
        log.audit_log().validate(),
        Err(vec![AuditError::TrustViolation {
            cid: log.cid_for(3),
        }]),
    );
}

#[test]
fn tombstone_with_missing_prev() {
    let nonexistent_cid = "bafyreiaegzwq2gvetzeaybcqy6f4a7ez6gdocmnz6c4uljh5exhn26oj4u".to_string();

    let log = TestLog::with_genesis()
        .apply_update(|update| update.change_handle("bob.example.com"))
        .apply_tombstone(|t| t.with_prev_cid(nonexistent_cid.clone()));

    assert_eq!(
        log.audit_log().validate(),
        Err(vec![AuditError::PrevMissing {
            prev: nonexistent_cid,
        }]),
    );
}

#[test]
fn tombstone_revoking_operation() {
    let log = TestLog::with_genesis()
        .apply_update(|update| update.change_handle("bob.example.com"))
        .apply_update(|update| update.change_pds("pds.example.com").nullified())
        .apply_tombstone(|t| t.with_prev_op(1).signed_with_key(0));

    assert_eq!(log.audit_log().validate(), Ok(()));
}

#[test]
fn tombstone_revoking_operation_in_time() {
    let log = TestLog::with_genesis()
        .apply_update(|update| update.change_handle("bob.example.com"))
        .apply_update(|update| update.change_pds("pds.example.com").nullified())
        .apply_tombstone(|t| {
            t.with_prev_op(1)
                .signed_with_key(0)
                .created_after(1, 72 * 60 * 60)
        });

    assert_eq!(log.audit_log().validate(), Ok(()));
}

#[test]
fn tombstone_revoking_operation_late() {
    let log = TestLog::with_genesis()
        .apply_update(|update| update.change_handle("bob.example.com"))
        .apply_update(|update| update.change_pds("pds.example.com").nullified())
        .apply_tombstone(|t| {
            t.with_prev_op(1)
                .signed_with_key(0)
                .created_after(1, 72 * 60 * 60 + 1)
        });

    assert_eq!(
        log.audit_log().validate(),
        Err(vec![
            AuditError::EntryIncorrectlyActive {
                cid: log.cid_for(3),
            },
            AuditError::EntryIncorrectlyNullified {
                cid: log.cid_for(2),
            },
        ])
    );
}

#[test]
fn nullified_tombstone() {
    let log = TestLog::with_genesis()
        .apply_update(|update| update.change_handle("bob.example.com"))
        .apply_tombstone(|t| t.nullified())
        .apply_update(|update| {
            update
                .change_pds("pds.example.com")
                .with_prev_op(1)
                .signed_with_key(0)
        });

    assert_eq!(log.audit_log().validate(), Ok(()));
}

#[test]
fn unrevokable_tombstone() {
    let log = TestLog::with_genesis()
        .apply_update(|update| update.change_handle("bob.example.com"))
        .apply_tombstone(|t| t.signed_with_key(0).nullified())
        .apply_update(|update| {
            update
                .change_pds("pds.example.com")
                .with_prev_op(1)
                .signed_with_key(0)
        });

    assert_eq!(
        log.audit_log().validate(),
        Err(vec![
            AuditError::EntryIncorrectlyActive {
                cid: log.cid_for(3),
            },
            AuditError::EntryIncorrectlyNullified {
                cid: log.cid_for(2),
            },
        ])
    );
}

#[test]
fn op_after_tombstone() {
    let log = TestLog::with_genesis()
        .apply_update(|update| update.change_handle("bob.example.com"))
        .apply_tombstone(|t| t)
        .apply_update(|update| update.change_pds("pds.example.com"));

    assert_eq!(
        log.audit_log().validate(),
        Err(vec![AuditError::OperationAfterDeactivation {
            cid: log.cid_for(3),
            prev: log.cid_for(2),
        }]),
    );
}

#[test]
fn mirror_round_trip_revalidates() {
    // Entries that validate still validate after a trip through the
    // normalized store: reassembly preserved their bytes exactly.
    let log = TestLog::with_genesis()
        .apply_update(|update| update.change_handle("bob.example.com"))
        .apply_update(|update| update.change_pds("pds.example.com"));

    let mut store = plc::store::MirrorStore::new();
    store.import(log.entries()).unwrap();
    let read = store.get_audit_log(&log.claimed_did()).unwrap();
    assert_eq!(read.len(), 3);
    for e in &read {
        assert_eq!(e.operation.cid(), e.cid);
    }
    assert_eq!(AuditLog::new(log.claimed_did(), read).validate(), Ok(()));
}

#[test]
fn mirror_round_trip_legacy_genesis() {
    let log = TestLog::with_legacy_genesis()
        .apply_update(|update| update.change_handle("bob.example.com"));

    let mut store = plc::store::MirrorStore::new();
    store.import(log.entries()).unwrap();
    let read = store.get_audit_log(&log.claimed_did()).unwrap();
    assert_eq!(read.len(), 2);
    for e in &read {
        assert_eq!(e.operation.cid(), e.cid);
    }
    assert_eq!(AuditLog::new(log.claimed_did(), read).validate(), Ok(()));
}
