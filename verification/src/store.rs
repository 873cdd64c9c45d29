//! The normalized mirror store: identities, keys and PDS endpoints are
//! deduplicated into their own tables, log entries reference them by id, and
//! rotation keys, verification methods and services hang off each entry as
//! satellite rows. Reading a row back reassembles the operation and refuses
//! to return it unless its recomputed CID matches the stored one.

use vstd::prelude::*;
use vstd::string::StringExecFns;
use vstd::string::StrSliceExecFns;

use crate::data::{pair_find, spec_at_handle, spec_pair_find, spec_wf_pds_find, strip_at_scheme, wf_pds_find};
use crate::data::{PlcData, PlcDataV, Service, ServiceV};
use crate::op::{ChangeOp, ChangeOpV, LegacyCreateOp, LegacyCreateOpV, LogEntry, LogEntryV};
use crate::op::{Operation, OperationV, SignedOperation, SignedOperationV, Timestamp, TimestampV};
use crate::op::{TombstoneOp, TombstoneOpV};
use crate::op::spec_op_cid;
use crate::codec::push_deep;

verus! {

/// Which of the three operation kinds a log row stores.
#[derive(Debug, Clone, Copy, PartialEq, Eq, Structural)]
pub enum RowKind {
    Change,
    Tombstone,
    Create,
}

/// One stored log entry. Identity, key, endpoint and predecessor references
/// are indices into the store's tables.
#[derive(Debug)]
pub struct LogRow {
    pub cid: String,
    pub identity: usize,
    pub created_at: Timestamp,
    pub nullified: bool,
    pub kind: RowKind,
    pub also_known_as: Option<Vec<String>>,
    pub atproto_signing: Option<usize>,
    pub atproto_pds: Option<usize>,
    pub prev: Option<usize>,
    pub sig: String,
}

#[verifier::ext_equal]
pub struct LogRowV {
    pub cid: Seq<char>,
    pub identity: int,
    pub created_at: TimestampV,
    pub nullified: bool,
    pub kind: RowKind,
    pub also_known_as: Option<Seq<Seq<char>>>,
    pub atproto_signing: Option<int>,
    pub atproto_pds: Option<int>,
    pub prev: Option<int>,
    pub sig: Seq<char>,
}

pub open spec fn opt_idx_view(o: Option<usize>) -> Option<int> {
    match o {
        Some(a) => Some(a as int),
        None => None,
    }
}

impl View for LogRow {
    type V = LogRowV;

    open spec fn view(&self) -> LogRowV {
        LogRowV {
            cid: self.cid@,
            identity: self.identity as int,
            created_at: self.created_at@,
            nullified: self.nullified,
            kind: self.kind,
            also_known_as: match self.also_known_as {
                Some(aka) => Some(aka.deep_view()),
                None => None,
            },
            atproto_signing: opt_idx_view(self.atproto_signing),
            atproto_pds: opt_idx_view(self.atproto_pds),
            prev: opt_idx_view(self.prev),
            sig: self.sig@,
        }
    }
}

impl DeepView for LogRow {
    type V = LogRowV;

    open spec fn deep_view(&self) -> LogRowV {
        self.view()
    }
}

/// One rotation-key row: `(entry, authority) -> key`.
#[derive(Debug, Clone, Copy)]
pub struct RotationRow {
    pub entry: usize,
    pub authority: usize,
    pub key: usize,
}

#[verifier::ext_equal]
pub struct RotationRowV {
    pub entry: int,
    pub authority: int,
    pub key: int,
}

impl View for RotationRow {
    type V = RotationRowV;

    open spec fn view(&self) -> RotationRowV {
        RotationRowV {
            entry: self.entry as int,
            authority: self.authority as int,
            key: self.key as int,
        }
    }
}

impl DeepView for RotationRow {
    type V = RotationRowV;

    open spec fn deep_view(&self) -> RotationRowV {
        self.view()
    }
}

/// One verification-method row: `(entry, service) -> key`.
#[derive(Debug)]
pub struct MethodRow {
    pub entry: usize,
    pub service: String,
    pub key: usize,
}

#[verifier::ext_equal]
pub struct MethodRowV {
    pub entry: int,
    pub service: Seq<char>,
    pub key: int,
}

impl View for MethodRow {
    type V = MethodRowV;

    open spec fn view(&self) -> MethodRowV {
        MethodRowV { entry: self.entry as int, service: self.service@, key: self.key as int }
    }
}

impl DeepView for MethodRow {
    type V = MethodRowV;

    open spec fn deep_view(&self) -> MethodRowV {
        self.view()
    }
}

/// One service row: `(entry, kind) -> (type, endpoint)`, for the service
/// records that are not the well-formed PDS record.
#[derive(Debug)]
pub struct ServiceRow {
    pub entry: usize,
    pub kind: String,
    pub service_type: String,
    pub endpoint: String,
}

#[verifier::ext_equal]
pub struct ServiceRowV {
    pub entry: int,
    pub kind: Seq<char>,
    pub service_type: Seq<char>,
    pub endpoint: Seq<char>,
}

impl View for ServiceRow {
    type V = ServiceRowV;

    open spec fn view(&self) -> ServiceRowV {
        ServiceRowV {
            entry: self.entry as int,
            kind: self.kind@,
            service_type: self.service_type@,
            endpoint: self.endpoint@,
        }
    }
}

impl DeepView for ServiceRow {
    type V = ServiceRowV;

    open spec fn deep_view(&self) -> ServiceRowV {
        self.view()
    }
}

/// The store: every table of the normalized schema.
#[derive(Debug)]
pub struct MirrorStore {
    pub identities: Vec<String>,
    pub keys: Vec<String>,
    pub pds: Vec<String>,
    pub log: Vec<LogRow>,
    pub rotation_rows: Vec<RotationRow>,
    pub method_rows: Vec<MethodRow>,
    pub service_rows: Vec<ServiceRow>,
}

#[verifier::ext_equal]
pub struct StoreV {
    pub identities: Seq<Seq<char>>,
    pub keys: Seq<Seq<char>>,
    pub pds: Seq<Seq<char>>,
    pub log: Seq<LogRowV>,
    pub rotation_rows: Seq<RotationRowV>,
    pub method_rows: Seq<MethodRowV>,
    pub service_rows: Seq<ServiceRowV>,
}

impl View for MirrorStore {
    type V = StoreV;

    open spec fn view(&self) -> StoreV {
        StoreV {
            identities: self.identities.deep_view(),
            keys: self.keys.deep_view(),
            pds: self.pds.deep_view(),
            log: self.log.deep_view(),
            rotation_rows: self.rotation_rows.deep_view(),
            method_rows: self.method_rows.deep_view(),
            service_rows: self.service_rows.deep_view(),
        }
    }
}

/// What can go wrong inside the store.
#[derive(Debug, Clone, PartialEq, Eq)]
pub enum StoreError {
    /// An imported entry declares a predecessor the store has never seen.
    PrevMissing,
    /// A stored row no longer reassembles to the CID it claims.
    CidMismatch,
    /// A stored row is not internally consistent.
    RowCorrupt,
}

// ---------------------------------------------------------------------------
// Lookups, mathematically
// ---------------------------------------------------------------------------

/// First position at or after `lo` holding exactly this string.
pub open spec fn spec_str_find(list: Seq<Seq<char>>, lo: int, v: Seq<char>) -> Option<int>
    decreases list.len() - lo,
{
    if lo < 0 || lo >= list.len() {
        None
    } else if list[lo] == v {
        Some(lo)
    } else {
        spec_str_find(list, lo + 1, v)
    }
}

/// Upsert into a deduplicated table: the table unchanged and the existing
/// id, or the table extended and the new id.
pub open spec fn spec_upsert_str(list: Seq<Seq<char>>, v: Seq<char>) -> (Seq<Seq<char>>, int) {
    match spec_str_find(list, 0, v) {
        Some(i) => (list, i),
        None => (list.push(v), list.len() as int),
    }
}

/// First log row at or after `lo` claiming this CID.
pub open spec fn spec_log_find(log: Seq<LogRowV>, lo: int, cid: Seq<char>) -> Option<int>
    decreases log.len() - lo,
{
    if lo < 0 || lo >= log.len() {
        None
    } else if log[lo].cid == cid {
        Some(lo)
    } else {
        spec_log_find(log, lo + 1, cid)
    }
}

/// Idempotent insert of a log row: on a CID conflict the log is unchanged
/// and the existing id returned.
pub open spec fn spec_insert_log_row(log: Seq<LogRowV>, row: LogRowV) -> (Seq<LogRowV>, int) {
    match spec_log_find(log, 0, row.cid) {
        Some(j) => (log, j),
        None => (log.push(row), log.len() as int),
    }
}

pub open spec fn spec_has_rotation(rows: Seq<RotationRowV>, entry: int, authority: int) -> bool {
    exists|q: int|
        0 <= q < rows.len() && (#[trigger] rows[q]).entry == entry && rows[q].authority
            == authority
}

pub open spec fn spec_has_method(rows: Seq<MethodRowV>, entry: int, service: Seq<char>) -> bool {
    exists|q: int|
        0 <= q < rows.len() && (#[trigger] rows[q]).entry == entry && rows[q].service == service
}

pub open spec fn spec_has_service(rows: Seq<ServiceRowV>, entry: int, kind: Seq<char>) -> bool {
    exists|q: int|
        0 <= q < rows.len() && (#[trigger] rows[q]).entry == entry && rows[q].kind == kind
}

// ---------------------------------------------------------------------------
// Import, mathematically
// ---------------------------------------------------------------------------

/// Adds the rotation-key satellites from authority `a` on: each key is
/// upserted into the key table, and the row added unless the entry already
/// has one at that authority.
pub open spec fn spec_add_rotation(s: StoreV, entry: int, keys: Seq<Seq<char>>, a: int) -> StoreV
    decreases keys.len() - a,
{
    if a < 0 || a >= keys.len() {
        s
    } else {
        let up = spec_upsert_str(s.keys, keys[a]);
        let s1 = StoreV { keys: up.0, ..s };
        let s2 = if spec_has_rotation(s1.rotation_rows, entry, a) {
            s1
        } else {
            StoreV {
                rotation_rows: s1.rotation_rows.push(
                    RotationRowV { entry, authority: a, key: up.1 },
                ),
                ..s1
            }
        };
        spec_add_rotation(s2, entry, keys, a + 1)
    }
}

/// Adds the verification-method satellites from pair `a` on, skipping the
/// `atproto` entry, which lives on the log row itself.
pub open spec fn spec_add_methods(
    s: StoreV,
    entry: int,
    pairs: Seq<(Seq<char>, Seq<char>)>,
    a: int,
) -> StoreV
    decreases pairs.len() - a,
{
    if a < 0 || a >= pairs.len() {
        s
    } else {
        let s2 = if pairs[a].0 == "atproto"@ {
            s
        } else {
            let up = spec_upsert_str(s.keys, pairs[a].1);
            let s1 = StoreV { keys: up.0, ..s };
            if spec_has_method(s1.method_rows, entry, pairs[a].0) {
                s1
            } else {
                StoreV {
                    method_rows: s1.method_rows.push(
                        MethodRowV { entry, service: pairs[a].0, key: up.1 },
                    ),
                    ..s1
                }
            }
        };
        spec_add_methods(s2, entry, pairs, a + 1)
    }
}

/// Adds the service satellites from pair `a` on, skipping the well-formed
/// PDS record, which lives on the log row itself.
pub open spec fn spec_add_services(
    s: StoreV,
    entry: int,
    pairs: Seq<(Seq<char>, ServiceV)>,
    a: int,
) -> StoreV
    decreases pairs.len() - a,
{
    if a < 0 || a >= pairs.len() {
        s
    } else {
        let s2 = if pairs[a].0 == "atproto_pds"@ && pairs[a].1.service_type
            == "AtprotoPersonalDataServer"@ {
            s
        } else {
            if spec_has_service(s.service_rows, entry, pairs[a].0) {
                s
            } else {
                StoreV {
                    service_rows: s.service_rows.push(
                        ServiceRowV {
                            entry,
                            kind: pairs[a].0,
                            service_type: pairs[a].1.service_type,
                            endpoint: pairs[a].1.endpoint,
                        },
                    ),
                    ..s
                }
            }
        };
        spec_add_services(s2, entry, pairs, a + 1)
    }
}

/// Imports one entry: upserts the identity, the pulled-out key and endpoint,
/// resolves the predecessor (nothing if it is absent), inserts the log row
/// idempotently on its CID, and adds the satellites.
pub open spec fn spec_import_entry(s: StoreV, e: LogEntryV) -> Option<StoreV> {
    let up_id = spec_upsert_str(s.identities, e.did);
    let identity = up_id.1;
    let s0 = StoreV { identities: up_id.0, ..s };
    match e.operation.content {
        OperationV::Change(c) => {
            let key_step: (Seq<Seq<char>>, Option<int>) = match spec_pair_find(
                c.data.verification_methods,
                0,
                "atproto"@,
            ) {
                Some(m) => {
                    let up = spec_upsert_str(s0.keys, c.data.verification_methods[m].1);
                    (up.0, Some(up.1))
                },
                None => (s0.keys, None),
            };
            let s1 = StoreV { keys: key_step.0, ..s0 };
            let pds_step: (Seq<Seq<char>>, Option<int>) = match spec_wf_pds_find(
                c.data.services,
                0,
            ) {
                Some(m) => {
                    let up = spec_upsert_str(s1.pds, c.data.services[m].1.endpoint);
                    (up.0, Some(up.1))
                },
                None => (s1.pds, None),
            };
            let s2 = StoreV { pds: pds_step.0, ..s1 };
            let prev_res: Option<Option<int>> = match c.prev {
                None => Some(None),
                Some(pc) => match spec_log_find(s2.log, 0, pc) {
                    Some(j) => Some(Some(j)),
                    None => None,
                },
            };
            match prev_res {
                None => None,
                Some(prev_id) => {
                    let ins = spec_insert_log_row(
                        s2.log,
                        LogRowV {
                            cid: e.cid,
                            identity,
                            created_at: e.created_at,
                            nullified: e.nullified,
                            kind: RowKind::Change,
                            also_known_as: Some(c.data.also_known_as),
                            atproto_signing: key_step.1,
                            atproto_pds: pds_step.1,
                            prev: prev_id,
                            sig: e.operation.sig,
                        },
                    );
                    let s3 = StoreV { log: ins.0, ..s2 };
                    let s4 = spec_add_rotation(s3, ins.1, c.data.rotation_keys, 0);
                    let s5 = spec_add_methods(s4, ins.1, c.data.verification_methods, 0);
                    let s6 = spec_add_services(s5, ins.1, c.data.services, 0);
                    Some(s6)
                },
            }
        },
        OperationV::Tombstone(t) => {
            match spec_log_find(s0.log, 0, t.prev) {
                None => None,
                Some(j) => {
                    let ins = spec_insert_log_row(
                        s0.log,
                        LogRowV {
                            cid: e.cid,
                            identity,
                            created_at: e.created_at,
                            nullified: e.nullified,
                            kind: RowKind::Tombstone,
                            also_known_as: None,
                            atproto_signing: None,
                            atproto_pds: None,
                            prev: Some(j),
                            sig: e.operation.sig,
                        },
                    );
                    Some(StoreV { log: ins.0, ..s0 })
                },
            }
        },
        OperationV::LegacyCreate(l) => {
            let upk = spec_upsert_str(s0.keys, l.signing_key);
            let s1 = StoreV { keys: upk.0, ..s0 };
            let upp = spec_upsert_str(s1.pds, l.service);
            let s2 = StoreV { pds: upp.0, ..s1 };
            let ins = spec_insert_log_row(
                s2.log,
                LogRowV {
                    cid: e.cid,
                    identity,
                    created_at: e.created_at,
                    nullified: e.nullified,
                    kind: RowKind::Create,
                    also_known_as: Some(seq!["at://"@ + l.handle]),
                    atproto_signing: Some(upk.1),
                    atproto_pds: Some(upp.1),
                    prev: None,
                    sig: e.operation.sig,
                },
            );
            let s3 = StoreV { log: ins.0, ..s2 };
            Some(spec_add_rotation(s3, ins.1, seq![l.recovery_key, l.signing_key], 0))
        },
    }
}

/// Imports a batch from entry `k` on; nothing if any entry's predecessor
/// cannot be resolved, in which case the store must stay as it was.
pub open spec fn spec_import_from(s: StoreV, es: Seq<LogEntryV>, k: int) -> Option<StoreV>
    decreases es.len() - k,
{
    if k < 0 || k >= es.len() {
        Some(s)
    } else {
        match spec_import_entry(s, es[k]) {
            None => None,
            Some(s2) => spec_import_from(s2, es, k + 1),
        }
    }
}

// ---------------------------------------------------------------------------
// Lookups
// ---------------------------------------------------------------------------

proof fn lemma_entry_vec_deep(entries: &Vec<LogEntry>)
    ensures
        entries.deep_view().len() == entries@.len(),
        forall|k: int| 0 <= k < entries@.len() ==> entries.deep_view()[k] == entries@[k]@,
{
    assert forall|k: int| 0 <= k < entries@.len() implies entries.deep_view()[k] == entries@[k]@ by {
        assert(entries.deep_view()[k] == entries@[k].deep_view());
    }
}

proof fn lemma_str_find_skip(list: Seq<Seq<char>>, lo: int, j: int, v: Seq<char>)
    requires
        0 <= lo <= j <= list.len(),
        forall|k: int| lo <= k < j ==> list[k] != v,
    ensures
        spec_str_find(list, lo, v) == spec_str_find(list, j, v),
    decreases j - lo,
{
    if lo < j {
        lemma_str_find_skip(list, lo + 1, j, v);
    }
}

/// Finds a string in a deduplicated table.
#[verifier::loop_isolation(false)]
fn str_find(list: &Vec<String>, v: &String) -> (r: Option<usize>)
    ensures
        match r {
            Some(i) => i < list@.len() && spec_str_find(list.deep_view(), 0, v@) == Some(i as int),
            None => spec_str_find(list.deep_view(), 0, v@) is None,
        },
{
    let ghost lv = list.deep_view();
    proof {
        assert forall|k: int| 0 <= k < list@.len() implies lv[k] == list@[k]@ by {
            assert(list.deep_view()[k] == list@[k].deep_view());
        }
    }
    let mut j: usize = 0;
    while j < list.len()
        invariant
            j <= list@.len(),
            forall|k: int| 0 <= k < j ==> lv[k] != v@,
        decreases list@.len() - j,
    {
        if list[j] == *v {
            proof {
                lemma_str_find_skip(lv, 0, j as int, v@);
            }
            return Some(j);
        }
        j = j + 1;
    }
    proof {
        lemma_str_find_skip(lv, 0, lv.len() as int, v@);
    }
    None
}

/// Upserts a string into a deduplicated table, handing back its id.
fn upsert_str(list: &mut Vec<String>, v: &String) -> (id: usize)
    ensures
        final(list).deep_view() == spec_upsert_str(old(list).deep_view(), v@).0,
        id as int == spec_upsert_str(old(list).deep_view(), v@).1,
        id < final(list)@.len(),
        final(list)@.len() >= old(list)@.len(),
{
    match str_find(list, v) {
        Some(i) => i,
        None => {
            let n = list.len();
            push_deep(list, v.clone());
            n
        },
    }
}

proof fn lemma_log_find_skip(log: Seq<LogRowV>, lo: int, j: int, cid: Seq<char>)
    requires
        0 <= lo <= j <= log.len(),
        forall|k: int| lo <= k < j ==> log[k].cid != cid,
    ensures
        spec_log_find(log, lo, cid) == spec_log_find(log, j, cid),
    decreases j - lo,
{
    if lo < j {
        lemma_log_find_skip(log, lo + 1, j, cid);
    }
}

/// Finds the log row claiming a CID.
#[verifier::loop_isolation(false)]
fn log_find(log: &Vec<LogRow>, cid: &String) -> (r: Option<usize>)
    ensures
        match r {
            Some(i) => i < log@.len() && spec_log_find(log.deep_view(), 0, cid@) == Some(i as int),
            None => spec_log_find(log.deep_view(), 0, cid@) is None,
        },
{
    let ghost lv = log.deep_view();
    proof {
        assert forall|k: int| 0 <= k < log@.len() implies lv[k] == log@[k]@ by {
            assert(log.deep_view()[k] == log@[k].deep_view());
        }
    }
    let mut j: usize = 0;
    while j < log.len()
        invariant
            j <= log@.len(),
            forall|k: int| 0 <= k < j ==> lv[k].cid != cid@,
        decreases log@.len() - j,
    {
        if log[j].cid == *cid {
            proof {
                lemma_log_find_skip(lv, 0, j as int, cid@);
            }
            return Some(j);
        }
        j = j + 1;
    }
    proof {
        lemma_log_find_skip(lv, 0, lv.len() as int, cid@);
    }
    None
}

/// Inserts a log row idempotently on its CID, handing back the row id.
fn insert_log_row(log: &mut Vec<LogRow>, row: LogRow) -> (id: usize)
    ensures
        final(log).deep_view() == spec_insert_log_row(old(log).deep_view(), row@).0,
        id as int == spec_insert_log_row(old(log).deep_view(), row@).1,
        id < final(log)@.len(),
{
    match log_find(log, &row.cid) {
        Some(j) => j,
        None => {
            let n = log.len();
            push_deep(log, row);
            n
        },
    }
}

/// Whether the entry already has a rotation row at this authority.
#[verifier::loop_isolation(false)]
fn has_rotation(rows: &Vec<RotationRow>, entry: usize, authority: usize) -> (r: bool)
    ensures
        r == spec_has_rotation(rows.deep_view(), entry as int, authority as int),
{
    let ghost rv = rows.deep_view();
    proof {
        assert forall|k: int| 0 <= k < rows@.len() implies rv[k] == rows@[k]@ by {
            assert(rows.deep_view()[k] == rows@[k].deep_view());
        }
    }
    let mut j: usize = 0;
    while j < rows.len()
        invariant
            j <= rows@.len(),
            forall|k: int| 0 <= k < j ==> !((#[trigger] rv[k]).entry == entry as int
                && rv[k].authority == authority as int),
        decreases rows@.len() - j,
    {
        if rows[j].entry == entry && rows[j].authority == authority {
            proof {
                assert(rv[j as int].entry == entry as int && rv[j as int].authority
                    == authority as int);
            }
            return true;
        }
        j = j + 1;
    }
    proof {
        assert(!spec_has_rotation(rv, entry as int, authority as int));
    }
    false
}

/// Whether the entry already has a method row for this service name.
#[verifier::loop_isolation(false)]
fn has_method(rows: &Vec<MethodRow>, entry: usize, service: &String) -> (r: bool)
    ensures
        r == spec_has_method(rows.deep_view(), entry as int, service@),
{
    let ghost rv = rows.deep_view();
    proof {
        assert forall|k: int| 0 <= k < rows@.len() implies rv[k] == rows@[k]@ by {
            assert(rows.deep_view()[k] == rows@[k].deep_view());
        }
    }
    let mut j: usize = 0;
    while j < rows.len()
        invariant
            j <= rows@.len(),
            forall|k: int| 0 <= k < j ==> !((#[trigger] rv[k]).entry == entry as int
                && rv[k].service == service@),
        decreases rows@.len() - j,
    {
        if rows[j].entry == entry && rows[j].service == *service {
            proof {
                assert(rv[j as int].entry == entry as int && rv[j as int].service == service@);
            }
            return true;
        }
        j = j + 1;
    }
    proof {
        assert(!spec_has_method(rv, entry as int, service@));
    }
    false
}

/// Whether the entry already has a service row of this kind.
#[verifier::loop_isolation(false)]
fn has_service(rows: &Vec<ServiceRow>, entry: usize, kind: &String) -> (r: bool)
    ensures
        r == spec_has_service(rows.deep_view(), entry as int, kind@),
{
    let ghost rv = rows.deep_view();
    proof {
        assert forall|k: int| 0 <= k < rows@.len() implies rv[k] == rows@[k]@ by {
            assert(rows.deep_view()[k] == rows@[k].deep_view());
        }
    }
    let mut j: usize = 0;
    while j < rows.len()
        invariant
            j <= rows@.len(),
            forall|k: int| 0 <= k < j ==> !((#[trigger] rv[k]).entry == entry as int && rv[k].kind
                == kind@),
        decreases rows@.len() - j,
    {
        if rows[j].entry == entry && rows[j].kind == *kind {
            proof {
                assert(rv[j as int].entry == entry as int && rv[j as int].kind == kind@);
            }
            return true;
        }
        j = j + 1;
    }
    proof {
        assert(!spec_has_service(rv, entry as int, kind@));
    }
    false
}

// ---------------------------------------------------------------------------
// Cloning (the staged copy an import works on)
// ---------------------------------------------------------------------------

fn clone_str_vec(v: &Vec<String>) -> (r: Vec<String>)
    ensures
        r.deep_view() == v.deep_view(),
{
    let mut r: Vec<String> = Vec::new();
    let mut t: usize = 0;
    while t < v.len()
        invariant
            t <= v@.len(),
            r.deep_view() =~= v.deep_view().take(t as int),
        decreases v@.len() - t,
    {
        proof {
            assert(v.deep_view()[t as int] == v@[t as int].deep_view());
        }
        push_deep(&mut r, v[t].clone());
        proof {
            assert(r.deep_view() =~= v.deep_view().take(t as int + 1));
        }
        t = t + 1;
    }
    proof {
        assert(v.deep_view().take(v@.len() as int) =~= v.deep_view());
    }
    r
}

fn clone_timestamp(t: &Timestamp) -> (r: Timestamp)
    ensures
        r@ == t@,
{
    Timestamp { nanos: t.nanos, raw: t.raw.clone() }
}

fn clone_row(row: &LogRow) -> (r: LogRow)
    ensures
        r@ == row@,
{
    let aka: Option<Vec<String>> = match &row.also_known_as {
        Some(aka) => Some(clone_str_vec(aka)),
        None => None,
    };
    let r = LogRow {
        cid: row.cid.clone(),
        identity: row.identity,
        created_at: clone_timestamp(&row.created_at),
        nullified: row.nullified,
        kind: row.kind,
        also_known_as: aka,
        atproto_signing: row.atproto_signing,
        atproto_pds: row.atproto_pds,
        prev: row.prev,
        sig: row.sig.clone(),
    };
    proof {
        assert(r@ =~~= row@);
    }
    r
}

fn clone_log(v: &Vec<LogRow>) -> (r: Vec<LogRow>)
    ensures
        r.deep_view() == v.deep_view(),
{
    let mut r: Vec<LogRow> = Vec::new();
    let mut t: usize = 0;
    while t < v.len()
        invariant
            t <= v@.len(),
            r.deep_view() =~= v.deep_view().take(t as int),
        decreases v@.len() - t,
    {
        proof {
            assert(v.deep_view()[t as int] == v@[t as int].deep_view());
        }
        push_deep(&mut r, clone_row(&v[t]));
        proof {
            assert(r.deep_view() =~= v.deep_view().take(t as int + 1));
        }
        t = t + 1;
    }
    proof {
        assert(v.deep_view().take(v@.len() as int) =~= v.deep_view());
    }
    r
}

fn clone_rotation_rows(v: &Vec<RotationRow>) -> (r: Vec<RotationRow>)
    ensures
        r.deep_view() == v.deep_view(),
{
    let mut r: Vec<RotationRow> = Vec::new();
    let mut t: usize = 0;
    while t < v.len()
        invariant
            t <= v@.len(),
            r.deep_view() =~= v.deep_view().take(t as int),
        decreases v@.len() - t,
    {
        proof {
            assert(v.deep_view()[t as int] == v@[t as int].deep_view());
        }
        push_deep(&mut r, v[t]);
        proof {
            assert(r.deep_view() =~= v.deep_view().take(t as int + 1));
        }
        t = t + 1;
    }
    proof {
        assert(v.deep_view().take(v@.len() as int) =~= v.deep_view());
    }
    r
}

fn clone_method_rows(v: &Vec<MethodRow>) -> (r: Vec<MethodRow>)
    ensures
        r.deep_view() == v.deep_view(),
{
    let mut r: Vec<MethodRow> = Vec::new();
    let mut t: usize = 0;
    while t < v.len()
        invariant
            t <= v@.len(),
            r.deep_view() =~= v.deep_view().take(t as int),
        decreases v@.len() - t,
    {
        proof {
            assert(v.deep_view()[t as int] == v@[t as int].deep_view());
        }
        push_deep(
            &mut r,
            MethodRow { entry: v[t].entry, service: v[t].service.clone(), key: v[t].key },
        );
        proof {
            assert(r.deep_view() =~= v.deep_view().take(t as int + 1));
        }
        t = t + 1;
    }
    proof {
        assert(v.deep_view().take(v@.len() as int) =~= v.deep_view());
    }
    r
}

fn clone_service_rows(v: &Vec<ServiceRow>) -> (r: Vec<ServiceRow>)
    ensures
        r.deep_view() == v.deep_view(),
{
    let mut r: Vec<ServiceRow> = Vec::new();
    let mut t: usize = 0;
    while t < v.len()
        invariant
            t <= v@.len(),
            r.deep_view() =~= v.deep_view().take(t as int),
        decreases v@.len() - t,
    {
        proof {
            assert(v.deep_view()[t as int] == v@[t as int].deep_view());
        }
        push_deep(
            &mut r,
            ServiceRow {
                entry: v[t].entry,
                kind: v[t].kind.clone(),
                service_type: v[t].service_type.clone(),
                endpoint: v[t].endpoint.clone(),
            },
        );
        proof {
            assert(r.deep_view() =~= v.deep_view().take(t as int + 1));
        }
        t = t + 1;
    }
    proof {
        assert(v.deep_view().take(v@.len() as int) =~= v.deep_view());
    }
    r
}

// ---------------------------------------------------------------------------
// Import
// ---------------------------------------------------------------------------

/// Adds the rotation-key satellites of one entry.
#[verifier::loop_isolation(false)]
fn add_rotation(s: &mut MirrorStore, entry: usize, keys: &Vec<String>)
    ensures
        final(s)@ == spec_add_rotation(old(s)@, entry as int, keys.deep_view(), 0),
{
    let ghost kv = keys.deep_view();
    let ghost goal = spec_add_rotation(old(s)@, entry as int, kv, 0);
    proof {
        assert forall|k: int| 0 <= k < keys@.len() implies kv[k] == keys@[k]@ by {
            assert(keys.deep_view()[k] == keys@[k].deep_view());
        }
    }
    let mut a: usize = 0;
    while a < keys.len()
        invariant
            a <= keys@.len(),
            goal == spec_add_rotation(s@, entry as int, kv, a as int),
        decreases keys@.len() - a,
    {
        let ghost pre = s@;
        let kid = upsert_str(&mut s.keys, &keys[a]);
        proof {
            assert(s@ =~~= (StoreV { keys: spec_upsert_str(pre.keys, kv[a as int]).0, ..pre }));
        }
        let ghost s1 = s@;
        if !has_rotation(&s.rotation_rows, entry, a) {
            push_deep(&mut s.rotation_rows, RotationRow { entry, authority: a, key: kid });
            proof {
                assert(s@ =~~= (StoreV {
                    rotation_rows: s1.rotation_rows.push(
                        RotationRowV {
                            entry: entry as int,
                            authority: a as int,
                            key: kid as int,
                        },
                    ),
                    ..s1
                }));
            }
        }
        proof {
            assert(goal == spec_add_rotation(s@, entry as int, kv, a as int + 1));
        }
        a = a + 1;
    }
}

/// Adds the verification-method satellites of one entry, skipping `atproto`.
#[verifier::loop_isolation(false)]
fn add_methods(s: &mut MirrorStore, entry: usize, pairs: &Vec<(String, String)>)
    ensures
        final(s)@ == spec_add_methods(old(s)@, entry as int, pairs.deep_view(), 0),
{
    let ghost pv = pairs.deep_view();
    let ghost goal = spec_add_methods(old(s)@, entry as int, pv, 0);
    proof {
        assert forall|k: int| 0 <= k < pairs@.len() implies pv[k] == (
        pairs@[k].0@,
        pairs@[k].1@,
        ) by {
            assert(pairs.deep_view()[k] == pairs@[k].deep_view());
        }
    }
    let atproto = String::from_str("atproto");
    let mut a: usize = 0;
    while a < pairs.len()
        invariant
            a <= pairs@.len(),
            goal == spec_add_methods(s@, entry as int, pv, a as int),
        decreases pairs@.len() - a,
    {
        let ghost pre = s@;
        if !(pairs[a].0 == atproto) {
            let kid = upsert_str(&mut s.keys, &pairs[a].1);
            proof {
                assert(s@ =~~= (StoreV {
                    keys: spec_upsert_str(pre.keys, pv[a as int].1).0,
                    ..pre
                }));
            }
            let ghost s1 = s@;
            if !has_method(&s.method_rows, entry, &pairs[a].0) {
                push_deep(
                    &mut s.method_rows,
                    MethodRow { entry, service: pairs[a].0.clone(), key: kid },
                );
                proof {
                    assert(s@ =~~= (StoreV {
                        method_rows: s1.method_rows.push(
                            MethodRowV {
                                entry: entry as int,
                                service: pv[a as int].0,
                                key: kid as int,
                            },
                        ),
                        ..s1
                    }));
                }
            }
        }
        proof {
            assert(goal == spec_add_methods(s@, entry as int, pv, a as int + 1));
        }
        a = a + 1;
    }
}

/// Adds the service satellites of one entry, skipping the well-formed PDS
/// record.
#[verifier::loop_isolation(false)]
fn add_services(s: &mut MirrorStore, entry: usize, pairs: &Vec<(String, Service)>)
    ensures
        final(s)@ == spec_add_services(old(s)@, entry as int, pairs.deep_view(), 0),
{
    let ghost pv = pairs.deep_view();
    let ghost goal = spec_add_services(old(s)@, entry as int, pv, 0);
    proof {
        assert forall|k: int| 0 <= k < pairs@.len() implies pv[k] == (
        pairs@[k].0@,
        pairs@[k].1@,
        ) by {
            assert(pairs.deep_view()[k] == pairs@[k].deep_view());
        }
    }
    let kind_want = String::from_str("atproto_pds");
    let type_want = String::from_str("AtprotoPersonalDataServer");
    let mut a: usize = 0;
    while a < pairs.len()
        invariant
            a <= pairs@.len(),
            goal == spec_add_services(s@, entry as int, pv, a as int),
        decreases pairs@.len() - a,
    {
        let ghost pre = s@;
        if !(pairs[a].0 == kind_want && pairs[a].1.service_type == type_want) {
            if !has_service(&s.service_rows, entry, &pairs[a].0) {
                push_deep(
                    &mut s.service_rows,
                    ServiceRow {
                        entry,
                        kind: pairs[a].0.clone(),
                        service_type: pairs[a].1.service_type.clone(),
                        endpoint: pairs[a].1.endpoint.clone(),
                    },
                );
                proof {
                    assert(s@ =~~= (StoreV {
                        service_rows: pre.service_rows.push(
                            ServiceRowV {
                                entry: entry as int,
                                kind: pv[a as int].0,
                                service_type: pv[a as int].1.service_type,
                                endpoint: pv[a as int].1.endpoint,
                            },
                        ),
                        ..pre
                    }));
                }
            }
        }
        proof {
            assert(goal == spec_add_services(s@, entry as int, pv, a as int + 1));
        }
        a = a + 1;
    }
}

impl MirrorStore {
    /// An empty store.
    pub fn new() -> (r: MirrorStore)
        ensures
            r@.identities =~= Seq::<Seq<char>>::empty(),
            r@.keys =~= Seq::<Seq<char>>::empty(),
            r@.pds =~= Seq::<Seq<char>>::empty(),
            r@.log =~= Seq::<LogRowV>::empty(),
            r@.rotation_rows =~= Seq::<RotationRowV>::empty(),
            r@.method_rows =~= Seq::<MethodRowV>::empty(),
            r@.service_rows =~= Seq::<ServiceRowV>::empty(),
    {
        MirrorStore {
            identities: Vec::new(),
            keys: Vec::new(),
            pds: Vec::new(),
            log: Vec::new(),
            rotation_rows: Vec::new(),
            method_rows: Vec::new(),
            service_rows: Vec::new(),
        }
    }

    /// A deep copy, for the staged state an import works on.
    fn clone_store(&self) -> (r: MirrorStore)
        ensures
            r@ == self@,
    {
        let r = MirrorStore {
            identities: clone_str_vec(&self.identities),
            keys: clone_str_vec(&self.keys),
            pds: clone_str_vec(&self.pds),
            log: clone_log(&self.log),
            rotation_rows: clone_rotation_rows(&self.rotation_rows),
            method_rows: clone_method_rows(&self.method_rows),
            service_rows: clone_service_rows(&self.service_rows),
        };
        proof {
            assert(r@ =~~= self@);
        }
        r
    }

    /// Imports one entry into the staged state.
    #[verifier::rlimit(100)]
    fn import_entry(&mut self, e: &LogEntry) -> (r: Result<(), StoreError>)
        ensures
            match r {
                Ok(()) => spec_import_entry(old(self)@, e@) == Some(final(self)@),
                Err(err) => spec_import_entry(old(self)@, e@) is None && err
                    == StoreError::PrevMissing,
            },
    {
        let ghost s_in = self@;
        let identity = upsert_str(&mut self.identities, &e.did);
        proof {
            assert(self@ =~~= (StoreV {
                identities: spec_upsert_str(s_in.identities, e@.did).0,
                ..s_in
            }));
        }
        let ghost s0 = self@;
        match &e.operation.content {
            Operation::Change(c) => {
                let atproto = String::from_str("atproto");
                let signing: Option<usize> = match pair_find(
                    &c.data.verification_methods,
                    &atproto,
                ) {
                    Some(m) => Some(upsert_str(&mut self.keys, &c.data.verification_methods[m].1)),
                    None => None,
                };
                proof {
                    assert(c.data.verification_methods.deep_view()
                        == c@.data.verification_methods);
                    match spec_pair_find(c@.data.verification_methods, 0, "atproto"@) {
                        Some(m) => {
                            assert(c.data.verification_methods.deep_view()[m] == (
                            c.data.verification_methods@[m].0@,
                            c.data.verification_methods@[m].1@,
                            ));
                            assert(self@ =~~= (StoreV {
                                keys: spec_upsert_str(
                                    s0.keys,
                                    c@.data.verification_methods[m].1,
                                ).0,
                                ..s0
                            }));
                        },
                        None => {
                            assert(self@ =~~= s0);
                        },
                    }
                }
                let ghost s1 = self@;
                let pds: Option<usize> = match wf_pds_find(&c.data.services) {
                    Some(m) => Some(upsert_str(&mut self.pds, &c.data.services[m].1.endpoint)),
                    None => None,
                };
                proof {
                    match spec_wf_pds_find(c@.data.services, 0) {
                        Some(m) => {
                            assert(c.data.services.deep_view()[m] == (
                            c.data.services@[m].0@,
                            c.data.services@[m].1@,
                            ));
                            assert(self@ =~~= (StoreV {
                                pds: spec_upsert_str(s1.pds, c@.data.services[m].1.endpoint).0,
                                ..s1
                            }));
                        },
                        None => {
                            assert(self@ =~~= s1);
                        },
                    }
                }
                let ghost s2 = self@;
                let prev_id: Option<usize> = match &c.prev {
                    None => None,
                    Some(pc) => match log_find(&self.log, pc) {
                        Some(j) => Some(j),
                        None => {
                            return Err(StoreError::PrevMissing);
                        },
                    },
                };
                let aka = clone_str_vec(&c.data.also_known_as);
                let row = LogRow {
                    cid: e.cid.clone(),
                    identity,
                    created_at: clone_timestamp(&e.created_at),
                    nullified: e.nullified,
                    kind: RowKind::Change,
                    also_known_as: Some(aka),
                    atproto_signing: signing,
                    atproto_pds: pds,
                    prev: prev_id,
                    sig: e.operation.sig.clone(),
                };
                proof {
                    assert(row@ =~~= (LogRowV {
                        cid: e@.cid,
                        identity: identity as int,
                        created_at: e@.created_at,
                        nullified: e@.nullified,
                        kind: RowKind::Change,
                        also_known_as: Some(c@.data.also_known_as),
                        atproto_signing: opt_idx_view(signing),
                        atproto_pds: opt_idx_view(pds),
                        prev: opt_idx_view(prev_id),
                        sig: e@.operation.sig,
                    }));
                }
                let entry_id = insert_log_row(&mut self.log, row);
                proof {
                    assert(self@ =~~= (StoreV {
                        log: spec_insert_log_row(
                            s2.log,
                            LogRowV {
                                cid: e@.cid,
                                identity: identity as int,
                                created_at: e@.created_at,
                                nullified: e@.nullified,
                                kind: RowKind::Change,
                                also_known_as: Some(c@.data.also_known_as),
                                atproto_signing: opt_idx_view(signing),
                                atproto_pds: opt_idx_view(pds),
                                prev: opt_idx_view(prev_id),
                                sig: e@.operation.sig,
                            },
                        ).0,
                        ..s2
                    }));
                }
                add_rotation(self, entry_id, &c.data.rotation_keys);
                add_methods(self, entry_id, &c.data.verification_methods);
                add_services(self, entry_id, &c.data.services);
                proof {
                    assert(spec_import_entry(s_in, e@) == Some(self@));
                }
                Ok(())
            },
            Operation::Tombstone(t) => {
                match log_find(&self.log, &t.prev) {
                    Some(j) => {
                        let row = LogRow {
                            cid: e.cid.clone(),
                            identity,
                            created_at: clone_timestamp(&e.created_at),
                            nullified: e.nullified,
                            kind: RowKind::Tombstone,
                            also_known_as: None,
                            atproto_signing: None,
                            atproto_pds: None,
                            prev: Some(j),
                            sig: e.operation.sig.clone(),
                        };
                        let ghost rowv = LogRowV {
                            cid: e@.cid,
                            identity: identity as int,
                            created_at: e@.created_at,
                            nullified: e@.nullified,
                            kind: RowKind::Tombstone,
                            also_known_as: None,
                            atproto_signing: None,
                            atproto_pds: None,
                            prev: Some(j as int),
                            sig: e@.operation.sig,
                        };
                        proof {
                            assert(row@ =~~= rowv);
                        }
                        let entry_id = insert_log_row(&mut self.log, row);
                        proof {
                            assert(self@ =~~= (StoreV {
                                log: spec_insert_log_row(s0.log, rowv).0,
                                ..s0
                            }));
                            assert(spec_import_entry(s_in, e@) == Some(self@));
                        }
                        Ok(())
                    },
                    None => {
                        proof {
                            assert(spec_import_entry(s_in, e@) is None);
                        }
                        Err(StoreError::PrevMissing)
                    },
                }
            },
            Operation::LegacyCreate(l) => {
                let kid = upsert_str(&mut self.keys, &l.signing_key);
                proof {
                    assert(self@ =~~= (StoreV {
                        keys: spec_upsert_str(s0.keys, l@.signing_key).0,
                        ..s0
                    }));
                }
                let ghost s1 = self@;
                let pid = upsert_str(&mut self.pds, &l.service);
                proof {
                    assert(self@ =~~= (StoreV {
                        pds: spec_upsert_str(s1.pds, l@.service).0,
                        ..s1
                    }));
                }
                let ghost s2 = self@;
                let mut aka: Vec<String> = Vec::new();
                push_deep(&mut aka, String::from_str("at://").concat(l.handle.as_str()));
                let row = LogRow {
                    cid: e.cid.clone(),
                    identity,
                    created_at: clone_timestamp(&e.created_at),
                    nullified: e.nullified,
                    kind: RowKind::Create,
                    also_known_as: Some(aka),
                    atproto_signing: Some(kid),
                    atproto_pds: Some(pid),
                    prev: None,
                    sig: e.operation.sig.clone(),
                };
                let ghost rowv = LogRowV {
                    cid: e@.cid,
                    identity: identity as int,
                    created_at: e@.created_at,
                    nullified: e@.nullified,
                    kind: RowKind::Create,
                    also_known_as: Some(seq!["at://"@ + l@.handle]),
                    atproto_signing: Some(kid as int),
                    atproto_pds: Some(pid as int),
                    prev: None,
                    sig: e@.operation.sig,
                };
                proof {
                    assert(row@ =~~= rowv);
                }
                let entry_id = insert_log_row(&mut self.log, row);
                proof {
                    assert(self@ =~~= (StoreV {
                        log: spec_insert_log_row(s2.log, rowv).0,
                        ..s2
                    }));
                }
                let rk = l.rotation_keys();
                proof {
                    assert(rk.deep_view() =~= seq![l@.recovery_key, l@.signing_key]);
                }
                add_rotation(self, entry_id, &rk);
                proof {
                    assert(spec_import_entry(s_in, e@) == Some(self@));
                }
                Ok(())
            },
        }
    }

    /// Imports a batch of entries as one transaction: on any missing
    /// predecessor nothing at all is stored. On success reports the last
    /// entry's creation time and how many entries the batch held.
    #[verifier::loop_isolation(false)]
    pub fn import(&mut self, entries: Vec<LogEntry>) -> (r: Result<
        Option<(Timestamp, usize)>,
        StoreError,
    >)
        ensures
            match r {
                Ok(ret) => spec_import_from(old(self)@, entries.deep_view(), 0) == Some(
                    final(self)@,
                ) && (match ret {
                    Some(pair) => entries@.len() > 0 && pair.1 == entries@.len() && pair.0@
                        == entries.deep_view().last().created_at,
                    None => entries@.len() == 0,
                }),
                Err(err) => spec_import_from(old(self)@, entries.deep_view(), 0) is None
                    && *final(self) == *old(self) && err == StoreError::PrevMissing,
            },
    {
        proof {
            lemma_entry_vec_deep(&entries);
        }
        let ghost ev = entries.deep_view();
        let ghost s_in = self@;
        let mut staged = self.clone_store();
        let mut k: usize = 0;
        while k < entries.len()
            invariant
                k <= entries@.len(),
                *self == *old(self),
                spec_import_from(s_in, ev, 0) == spec_import_from(staged@, ev, k as int),
            decreases entries@.len() - k,
        {
            match staged.import_entry(&entries[k]) {
                Ok(()) => {
                },
                Err(_) => {
                    proof {
                        assert(spec_import_from(s_in, ev, 0) is None);
                    }
                    return Err(StoreError::PrevMissing);
                },
            }
            k = k + 1;
        }
        *self = staged;
        if entries.len() == 0 {
            Ok(None)
        } else {
            let last = clone_timestamp(&entries[entries.len() - 1].created_at);
            Ok(Some((last, entries.len())))
        }
    }
}

// ---------------------------------------------------------------------------
// Reassembly, mathematically
// ---------------------------------------------------------------------------

/// The rotation keys of one entry, in row order (the order the import wrote
/// them: ascending authority).
pub open spec fn spec_rot_keys_rows(
    rows: Seq<RotationRowV>,
    keys: Seq<Seq<char>>,
    id: int,
) -> Seq<Seq<char>>
    decreases rows.len(),
{
    if rows.len() == 0 {
        Seq::empty()
    } else {
        let rest = spec_rot_keys_rows(rows.drop_last(), keys, id);
        if rows.last().entry == id {
            rest.push(keys[rows.last().key])
        } else {
            rest
        }
    }
}

pub open spec fn spec_rot_ids_ok(rows: Seq<RotationRowV>, keys_len: int, id: int) -> bool {
    forall|k: int|
        0 <= k < rows.len() && (#[trigger] rows[k]).entry == id ==> 0 <= rows[k].key < keys_len
}

/// The generic verification-method pairs of one entry, in row order.
pub open spec fn spec_method_pairs_rows(
    rows: Seq<MethodRowV>,
    keys: Seq<Seq<char>>,
    id: int,
) -> Seq<(Seq<char>, Seq<char>)>
    decreases rows.len(),
{
    if rows.len() == 0 {
        Seq::empty()
    } else {
        let rest = spec_method_pairs_rows(rows.drop_last(), keys, id);
        if rows.last().entry == id {
            rest.push((rows.last().service, keys[rows.last().key]))
        } else {
            rest
        }
    }
}

pub open spec fn spec_method_ids_ok(rows: Seq<MethodRowV>, keys_len: int, id: int) -> bool {
    forall|k: int|
        0 <= k < rows.len() && (#[trigger] rows[k]).entry == id ==> 0 <= rows[k].key < keys_len
}

/// The generic service pairs of one entry, in row order.
pub open spec fn spec_service_pairs_rows(rows: Seq<ServiceRowV>, id: int) -> Seq<
    (Seq<char>, ServiceV),
>
    decreases rows.len(),
{
    if rows.len() == 0 {
        Seq::empty()
    } else {
        let rest = spec_service_pairs_rows(rows.drop_last(), id);
        if rows.last().entry == id {
            rest.push(
                (
                    rows.last().kind,
                    ServiceV {
                        service_type: rows.last().service_type,
                        endpoint: rows.last().endpoint,
                    },
                ),
            )
        } else {
            rest
        }
    }
}

/// The entry a stored row reassembles to, before the CID is checked:
/// nothing when the row is not internally consistent.
pub open spec fn spec_assemble_raw(s: StoreV, id: int) -> Option<LogEntryV> {
    if !(0 <= id < s.log.len()) {
        None
    } else {
        let row = s.log[id];
        if !(0 <= row.identity < s.identities.len()) {
            None
        } else if !spec_rot_ids_ok(s.rotation_rows, s.keys.len() as int, id) {
            None
        } else if !spec_method_ids_ok(s.method_rows, s.keys.len() as int, id) {
            None
        } else {
            let did = s.identities[row.identity];
            let rot = spec_rot_keys_rows(s.rotation_rows, s.keys, id);
            let methods = spec_method_pairs_rows(s.method_rows, s.keys, id);
            let services = spec_service_pairs_rows(s.service_rows, id);
            let prev_ok: Option<Option<Seq<char>>> = match row.prev {
                None => Some(None),
                Some(p) => if 0 <= p < s.log.len() {
                    Some(Some(s.log[p].cid))
                } else {
                    None
                },
            };
            let signing_ok: Option<Option<Seq<char>>> = match row.atproto_signing {
                None => Some(None),
                Some(k) => if 0 <= k < s.keys.len() {
                    Some(Some(s.keys[k]))
                } else {
                    None
                },
            };
            let pds_ok: Option<Option<Seq<char>>> = match row.atproto_pds {
                None => Some(None),
                Some(p) => if 0 <= p < s.pds.len() {
                    Some(Some(s.pds[p]))
                } else {
                    None
                },
            };
            match (prev_ok, signing_ok, pds_ok) {
                (Some(prev), Some(signing), Some(pds)) => {
                    let content: Option<OperationV> = match row.kind {
                        RowKind::Change => match row.also_known_as {
                            None => None,
                            Some(aka) => {
                                let vm = match signing {
                                    Some(key) => methods.push(("atproto"@, key)),
                                    None => methods,
                                };
                                let svc = match pds {
                                    Some(ep) => services.push(
                                        (
                                            "atproto_pds"@,
                                            ServiceV {
                                                service_type: "AtprotoPersonalDataServer"@,
                                                endpoint: ep,
                                            },
                                        ),
                                    ),
                                    None => services,
                                };
                                Some(
                                    OperationV::Change(
                                        ChangeOpV {
                                            data: PlcDataV {
                                                rotation_keys: rot,
                                                verification_methods: vm,
                                                also_known_as: aka,
                                                services: svc,
                                            },
                                            prev,
                                            extra_fields: Seq::empty(),
                                        },
                                    ),
                                )
                            },
                        },
                        RowKind::Tombstone => {
                            if row.also_known_as is Some || signing is Some || pds is Some {
                                None
                            } else {
                                match prev {
                                    Some(pc) => Some(
                                        OperationV::Tombstone(TombstoneOpV { prev: pc }),
                                    ),
                                    None => None,
                                }
                            }
                        },
                        RowKind::Create => {
                            if !(rot.len() == 2 && methods.len() == 0 && services.len() == 0) {
                                None
                            } else if !(signing matches Some(key) && key == rot[1]) {
                                None
                            } else {
                                match (row.also_known_as, pds) {
                                    (Some(aka), Some(ep)) => {
                                        if aka.len() == 1 {
                                            match spec_at_handle(aka[0]) {
                                                Some(handle) => Some(
                                                    OperationV::LegacyCreate(
                                                        LegacyCreateOpV {
                                                            signing_key: rot[1],
                                                            recovery_key: rot[0],
                                                            handle,
                                                            service: ep,
                                                        },
                                                    ),
                                                ),
                                                None => None,
                                            }
                                        } else {
                                            None
                                        }
                                    },
                                    _ => None,
                                }
                            }
                        },
                    };
                    match content {
                        Some(op) => Some(
                            LogEntryV {
                                did,
                                operation: SignedOperationV { content: op, sig: row.sig },
                                cid: row.cid,
                                nullified: row.nullified,
                                created_at: row.created_at,
                            },
                        ),
                        None => None,
                    }
                },
                _ => None,
            }
        }
    }
}

/// Whether a row reassembles and its recomputed CID matches the stored one:
/// the end-to-end integrity guarantee of the mirror.
pub open spec fn spec_row_intact(s: StoreV, id: int) -> bool {
    match spec_assemble_raw(s, id) {
        Some(entry) => entry.cid == spec_op_cid(entry.operation),
        None => false,
    }
}

/// Reassembly fidelity: every row the store agrees to serve reassembles to
/// an entry whose recomputed CID is exactly the stored CID.
pub proof fn lemma_reassembly_fidelity(s: StoreV, ids: Seq<int>)
    requires
        spec_all_intact(s, ids),
    ensures
        forall|k: int|
            0 <= k < ids.len() ==> (#[trigger] spec_assembled(s, ids)[k]).cid == spec_op_cid(
                spec_assembled(s, ids)[k].operation,
            ),
{
    assert forall|k: int| 0 <= k < ids.len() implies (#[trigger] spec_assembled(s, ids)[k]).cid
        == spec_op_cid(spec_assembled(s, ids)[k].operation) by {
        assert(spec_row_intact(s, ids[k]));
    }
}

// ---------------------------------------------------------------------------
// Reassembly
// ---------------------------------------------------------------------------

/// Collects one entry's rotation keys, in row order.
#[verifier::loop_isolation(false)]
fn collect_rot_keys(rows: &Vec<RotationRow>, keys: &Vec<String>, id: usize) -> (r: Result<
    Vec<String>,
    StoreError,
>)
    ensures
        match r {
            Ok(v) => spec_rot_ids_ok(rows.deep_view(), keys.deep_view().len() as int, id as int)
                && v.deep_view() == spec_rot_keys_rows(
                rows.deep_view(),
                keys.deep_view(),
                id as int,
            ),
            Err(e) => !spec_rot_ids_ok(
                rows.deep_view(),
                keys.deep_view().len() as int,
                id as int,
            ) && e == StoreError::RowCorrupt,
        },
{
    let ghost rv = rows.deep_view();
    let ghost kv = keys.deep_view();
    proof {
        assert forall|k: int| 0 <= k < rows@.len() implies rv[k] == rows@[k]@ by {
            assert(rows.deep_view()[k] == rows@[k].deep_view());
        }
        assert forall|k: int| 0 <= k < keys@.len() implies kv[k] == keys@[k]@ by {
            assert(keys.deep_view()[k] == keys@[k].deep_view());
        }
    }
    let mut v: Vec<String> = Vec::new();
    let mut t: usize = 0;
    while t < rows.len()
        invariant
            t <= rows@.len(),
            v.deep_view() =~= spec_rot_keys_rows(rv.take(t as int), kv, id as int),
            forall|k: int| 0 <= k < t && (#[trigger] rv[k]).entry == id as int ==> 0 <= rv[k].key
                < kv.len(),
        decreases rows@.len() - t,
    {
        proof {
            assert(rv.take(t as int + 1).drop_last() =~= rv.take(t as int));
            assert(rv.take(t as int + 1).last() == rv[t as int]);
        }
        if rows[t].entry == id {
            if rows[t].key >= keys.len() {
                proof {
                    assert(!spec_rot_ids_ok(rv, kv.len() as int, id as int));
                }
                return Err(StoreError::RowCorrupt);
            }
            push_deep(&mut v, keys[rows[t].key].clone());
        }
        proof {
            assert(v.deep_view() =~= spec_rot_keys_rows(rv.take(t as int + 1), kv, id as int));
        }
        t = t + 1;
    }
    proof {
        assert(rv.take(rv.len() as int) =~= rv);
    }
    Ok(v)
}

/// Collects one entry's generic verification methods, in row order.
#[verifier::loop_isolation(false)]
fn collect_methods(rows: &Vec<MethodRow>, keys: &Vec<String>, id: usize) -> (r: Result<
    Vec<(String, String)>,
    StoreError,
>)
    ensures
        match r {
            Ok(v) => spec_method_ids_ok(rows.deep_view(), keys.deep_view().len() as int, id as int)
                && v.deep_view() == spec_method_pairs_rows(
                rows.deep_view(),
                keys.deep_view(),
                id as int,
            ),
            Err(e) => !spec_method_ids_ok(
                rows.deep_view(),
                keys.deep_view().len() as int,
                id as int,
            ) && e == StoreError::RowCorrupt,
        },
{
    let ghost rv = rows.deep_view();
    let ghost kv = keys.deep_view();
    proof {
        assert forall|k: int| 0 <= k < rows@.len() implies rv[k] == rows@[k]@ by {
            assert(rows.deep_view()[k] == rows@[k].deep_view());
        }
        assert forall|k: int| 0 <= k < keys@.len() implies kv[k] == keys@[k]@ by {
            assert(keys.deep_view()[k] == keys@[k].deep_view());
        }
    }
    let mut v: Vec<(String, String)> = Vec::new();
    let mut t: usize = 0;
    while t < rows.len()
        invariant
            t <= rows@.len(),
            v.deep_view() =~= spec_method_pairs_rows(rv.take(t as int), kv, id as int),
            forall|k: int| 0 <= k < t && (#[trigger] rv[k]).entry == id as int ==> 0 <= rv[k].key
                < kv.len(),
        decreases rows@.len() - t,
    {
        proof {
            assert(rv.take(t as int + 1).drop_last() =~= rv.take(t as int));
            assert(rv.take(t as int + 1).last() == rv[t as int]);
        }
        if rows[t].entry == id {
            if rows[t].key >= keys.len() {
                proof {
                    assert(!spec_method_ids_ok(rv, kv.len() as int, id as int));
                }
                return Err(StoreError::RowCorrupt);
            }
            push_deep(&mut v, (rows[t].service.clone(), keys[rows[t].key].clone()));
        }
        proof {
            assert(v.deep_view() =~= spec_method_pairs_rows(rv.take(t as int + 1), kv, id as int));
        }
        t = t + 1;
    }
    proof {
        assert(rv.take(rv.len() as int) =~= rv);
    }
    Ok(v)
}

/// Collects one entry's generic service records, in row order.
#[verifier::loop_isolation(false)]
fn collect_services(rows: &Vec<ServiceRow>, id: usize) -> (v: Vec<(String, Service)>)
    ensures
        v.deep_view() == spec_service_pairs_rows(rows.deep_view(), id as int),
{
    let ghost rv = rows.deep_view();
    proof {
        assert forall|k: int| 0 <= k < rows@.len() implies rv[k] == rows@[k]@ by {
            assert(rows.deep_view()[k] == rows@[k].deep_view());
        }
    }
    let mut v: Vec<(String, Service)> = Vec::new();
    let mut t: usize = 0;
    while t < rows.len()
        invariant
            t <= rows@.len(),
            v.deep_view() =~= spec_service_pairs_rows(rv.take(t as int), id as int),
        decreases rows@.len() - t,
    {
        proof {
            assert(rv.take(t as int + 1).drop_last() =~= rv.take(t as int));
            assert(rv.take(t as int + 1).last() == rv[t as int]);
        }
        if rows[t].entry == id {
            push_deep(
                &mut v,
                (
                    rows[t].kind.clone(),
                    Service {
                        service_type: rows[t].service_type.clone(),
                        endpoint: rows[t].endpoint.clone(),
                    },
                ),
            );
        }
        proof {
            assert(v.deep_view() =~= spec_service_pairs_rows(rv.take(t as int + 1), id as int));
        }
        t = t + 1;
    }
    proof {
        assert(rv.take(rv.len() as int) =~= rv);
    }
    v
}

impl MirrorStore {
    /// Reassembles the stored row into the entry it came from, refusing to
    /// hand back a row whose recomputed CID differs from the stored one.
    #[verifier::loop_isolation(false)]
    #[verifier::rlimit(100)]
    pub fn assemble(&self, id: usize) -> (r: Result<LogEntry, StoreError>)
        ensures
            match r {
                Ok(entry) => spec_assemble_raw(self@, id as int) == Some(entry@) && entry@.cid
                    == spec_op_cid(entry@.operation),
                Err(e) => match spec_assemble_raw(self@, id as int) {
                    Some(v) => e == StoreError::CidMismatch && v.cid != spec_op_cid(v.operation),
                    None => e == StoreError::RowCorrupt,
                },
            },
    {
        let ghost sv = self@;
        if id >= self.log.len() {
            return Err(StoreError::RowCorrupt);
        }
        proof {
            assert(self.log.deep_view()[id as int] == self.log@[id as int]@);
        }
        let row = &self.log[id];
        if row.identity >= self.identities.len() {
            return Err(StoreError::RowCorrupt);
        }
        proof {
            assert(self.identities.deep_view()[row.identity as int]
                == self.identities@[row.identity as int]@);
        }
        let did = self.identities[row.identity].clone();
        let rot = match collect_rot_keys(&self.rotation_rows, &self.keys, id) {
            Ok(v) => v,
            Err(e) => {
                return Err(e);
            },
        };
        let methods = match collect_methods(&self.method_rows, &self.keys, id) {
            Ok(v) => v,
            Err(e) => {
                return Err(e);
            },
        };
        let services = collect_services(&self.service_rows, id);
        let prev: Option<String> = match row.prev {
            None => None,
            Some(p) => {
                if p >= self.log.len() {
                    return Err(StoreError::RowCorrupt);
                }
                proof {
                    assert(self.log.deep_view()[p as int] == self.log@[p as int]@);
                }
                Some(self.log[p].cid.clone())
            },
        };
        let signing: Option<String> = match row.atproto_signing {
            None => None,
            Some(k) => {
                if k >= self.keys.len() {
                    return Err(StoreError::RowCorrupt);
                }
                proof {
                    assert(self.keys.deep_view()[k as int] == self.keys@[k as int]@);
                }
                Some(self.keys[k].clone())
            },
        };
        let pds: Option<String> = match row.atproto_pds {
            None => None,
            Some(p) => {
                if p >= self.pds.len() {
                    return Err(StoreError::RowCorrupt);
                }
                proof {
                    assert(self.pds.deep_view()[p as int] == self.pds@[p as int]@);
                }
                Some(self.pds[p].clone())
            },
        };
        let content: Operation = match row.kind {
            RowKind::Change => {
                let aka = match &row.also_known_as {
                    Some(aka) => clone_str_vec(aka),
                    None => {
                        return Err(StoreError::RowCorrupt);
                    },
                };
                let mut vm = methods;
                match &signing {
                    Some(key) => {
                        push_deep(&mut vm, (String::from_str("atproto"), key.clone()));
                    },
                    None => {
                    },
                }
                let mut svc = services;
                match &pds {
                    Some(ep) => {
                        push_deep(
                            &mut svc,
                            (
                                String::from_str("atproto_pds"),
                                Service {
                                    service_type: String::from_str("AtprotoPersonalDataServer"),
                                    endpoint: ep.clone(),
                                },
                            ),
                        );
                    },
                    None => {
                    },
                }
                Operation::Change(
                    ChangeOp {
                        data: PlcData {
                            rotation_keys: rot,
                            verification_methods: vm,
                            also_known_as: aka,
                            services: svc,
                        },
                        prev,
                        extra_fields: Vec::new(),
                    },
                )
            },
            RowKind::Tombstone => {
                if row.also_known_as.is_some() || signing.is_some() || pds.is_some() {
                    return Err(StoreError::RowCorrupt);
                }
                match prev {
                    Some(pc) => Operation::Tombstone(TombstoneOp { prev: pc }),
                    None => {
                        return Err(StoreError::RowCorrupt);
                    },
                }
            },
            RowKind::Create => {
                if !(rot.len() == 2 && methods.len() == 0 && services.len() == 0) {
                    return Err(StoreError::RowCorrupt);
                }
                let signing_matches: bool = match &signing {
                    Some(key) => *key == rot[1],
                    None => false,
                };
                if !signing_matches {
                    return Err(StoreError::RowCorrupt);
                }
                let aka = match &row.also_known_as {
                    Some(aka) => aka,
                    None => {
                        return Err(StoreError::RowCorrupt);
                    },
                };
                if aka.len() != 1 {
                    return Err(StoreError::RowCorrupt);
                }
                proof {
                    assert(aka.deep_view()[0] == aka@[0]@);
                }
                let handle = match strip_at_scheme(&aka[0]) {
                    Some(h) => h,
                    None => {
                        return Err(StoreError::RowCorrupt);
                    },
                };
                let ep = match pds {
                    Some(ep) => ep,
                    None => {
                        return Err(StoreError::RowCorrupt);
                    },
                };
                proof {
                    assert(rot.deep_view()[0] == rot@[0]@);
                    assert(rot.deep_view()[1] == rot@[1]@);
                }
                Operation::LegacyCreate(
                    LegacyCreateOp {
                        signing_key: rot[1].clone(),
                        recovery_key: rot[0].clone(),
                        handle,
                        service: ep,
                    },
                )
            },
        };
        let operation = SignedOperation { content, sig: row.sig.clone() };
        let entry = LogEntry {
            did,
            operation,
            cid: row.cid.clone(),
            nullified: row.nullified,
            created_at: clone_timestamp(&row.created_at),
        };
        proof {
            assert(spec_assemble_raw(sv, id as int) == Some(entry@)) by {
                assert(entry@ =~~= spec_assemble_raw(sv, id as int)->0);
            }
        }
        let actual = entry.operation.cid();
        if actual == entry.cid {
            Ok(entry)
        } else {
            Err(StoreError::CidMismatch)
        }
    }
}

// ---------------------------------------------------------------------------
// Queries
// ---------------------------------------------------------------------------

/// The ids of the rows belonging to an identity, in row order.
pub open spec fn spec_did_row_ids(log: Seq<LogRowV>, ident: int) -> Seq<int>
    decreases log.len(),
{
    if log.len() == 0 {
        Seq::empty()
    } else {
        let rest = spec_did_row_ids(log.drop_last(), ident);
        if log.last().identity == ident {
            rest.push(log.len() - 1)
        } else {
            rest
        }
    }
}

/// The ids of the rows strictly after an instant, in row order.
pub open spec fn spec_after_row_ids(log: Seq<LogRowV>, after: int) -> Seq<int>
    decreases log.len(),
{
    if log.len() == 0 {
        Seq::empty()
    } else {
        let rest = spec_after_row_ids(log.drop_last(), after);
        if log.last().created_at.nanos > after {
            rest.push(log.len() - 1)
        } else {
            rest
        }
    }
}

/// Inserts a row id before the first strictly later one: a stable sort by
/// creation time.
pub open spec fn spec_insert_by_time(log: Seq<LogRowV>, sorted: Seq<int>, x: int) -> Seq<int>
    decreases sorted.len(),
{
    if sorted.len() == 0 {
        seq![x]
    } else if log[x].created_at.nanos < log[sorted[0]].created_at.nanos {
        seq![x] + sorted
    } else {
        seq![sorted[0]] + spec_insert_by_time(log, sorted.drop_first(), x)
    }
}

/// Insertion sort of row ids by creation time, processed back to front.
pub open spec fn spec_sort_by_time(log: Seq<LogRowV>, ids: Seq<int>) -> Seq<int>
    decreases ids.len(),
{
    if ids.len() == 0 {
        Seq::empty()
    } else {
        spec_insert_by_time(log, spec_sort_by_time(log, ids.drop_first()), ids[0])
    }
}

pub open spec fn spec_ids_in_range(log: Seq<LogRowV>, ids: Seq<int>) -> bool {
    forall|k: int| 0 <= k < ids.len() ==> 0 <= #[trigger] ids[k] < log.len()
}

pub open spec fn spec_time_sorted(log: Seq<LogRowV>, ids: Seq<int>) -> bool {
    forall|k: int, l: int|
        0 <= k < l < ids.len() ==> log[#[trigger] ids[k]].created_at.nanos <= log[
            #[trigger] ids[l]
        ].created_at.nanos
}

proof fn lemma_insert_by_time_props(log: Seq<LogRowV>, sorted: Seq<int>, x: int)
    requires
        spec_time_sorted(log, sorted),
    ensures
        spec_time_sorted(log, spec_insert_by_time(log, sorted, x)),
        spec_insert_by_time(log, sorted, x).len() == sorted.len() + 1,
        forall|k: int|
            0 <= k < spec_insert_by_time(log, sorted, x).len() ==> (sorted.contains(
                #[trigger] spec_insert_by_time(log, sorted, x)[k],
            ) || spec_insert_by_time(log, sorted, x)[k] == x),
    decreases sorted.len(),
{
    let out = spec_insert_by_time(log, sorted, x);
    if sorted.len() == 0 {
    } else if log[x].created_at.nanos < log[sorted[0]].created_at.nanos {
        assert forall|k: int, l: int| 0 <= k < l < out.len() implies log[
            #[trigger] out[k]
        ].created_at.nanos <= log[#[trigger] out[l]].created_at.nanos by {
            if k > 0 {
                assert(out[k] == sorted[k - 1] && out[l] == sorted[l - 1]);
            } else {
                assert(out[l] == sorted[l - 1]);
                assert(log[sorted[0]].created_at.nanos <= log[sorted[l - 1]].created_at.nanos);
            }
        }
        assert forall|k: int| 0 <= k < out.len() implies (sorted.contains(#[trigger] out[k])
            || out[k] == x) by {
            if k > 0 {
                assert(sorted[k - 1] == out[k]);
            }
        }
    } else {
        lemma_insert_by_time_props(log, sorted.drop_first(), x);
        let sub = spec_insert_by_time(log, sorted.drop_first(), x);
        assert forall|k: int, l: int| 0 <= k < l < out.len() implies log[
            #[trigger] out[k]
        ].created_at.nanos <= log[#[trigger] out[l]].created_at.nanos by {
            if k > 0 {
                assert(out[k] == sub[k - 1] && out[l] == sub[l - 1]);
            } else {
                assert(out[k] == sorted[0]);
                assert(out[l] == sub[l - 1]);
                if sorted.drop_first().contains(sub[l - 1]) {
                    let w = choose|w: int|
                        0 <= w < sorted.drop_first().len() && sorted.drop_first()[w] == sub[l - 1];
                    assert(sorted[w + 1] == sub[l - 1]);
                    assert(log[sorted[0]].created_at.nanos <= log[sorted[w + 1]].created_at.nanos);
                } else {
                    assert(sub[l - 1] == x);
                }
            }
        }
        assert forall|k: int| 0 <= k < out.len() implies (sorted.contains(#[trigger] out[k])
            || out[k] == x) by {
            if k == 0 {
                assert(sorted[0] == out[0]);
            } else {
                assert(out[k] == sub[k - 1]);
                if sorted.drop_first().contains(sub[k - 1]) {
                    let w = choose|w: int|
                        0 <= w < sorted.drop_first().len() && sorted.drop_first()[w] == sub[k - 1];
                    assert(sorted[w + 1] == sub[k - 1]);
                }
            }
        }
    }
}

proof fn lemma_sort_by_time_props(log: Seq<LogRowV>, ids: Seq<int>)
    ensures
        spec_time_sorted(log, spec_sort_by_time(log, ids)),
        spec_sort_by_time(log, ids).len() == ids.len(),
        forall|k: int|
            0 <= k < ids.len() ==> ids.contains(#[trigger] spec_sort_by_time(log, ids)[k]),
    decreases ids.len(),
{
    let out = spec_sort_by_time(log, ids);
    if ids.len() == 0 {
    } else {
        lemma_sort_by_time_props(log, ids.drop_first());
        let sub = spec_sort_by_time(log, ids.drop_first());
        lemma_insert_by_time_props(log, sub, ids[0]);
        assert forall|k: int| 0 <= k < ids.len() implies ids.contains(#[trigger] out[k]) by {
            if sub.contains(out[k]) {
                let w = choose|w: int| 0 <= w < sub.len() && sub[w] == out[k];
                assert(ids.drop_first().contains(sub[w]));
                let u = choose|u: int|
                    0 <= u < ids.drop_first().len() && ids.drop_first()[u] == sub[w];
                assert(ids[u + 1] == out[k]);
            } else {
                assert(out[k] == ids[0]);
            }
        }
    }
}

proof fn lemma_insert_by_time_at(log: Seq<LogRowV>, sorted: Seq<int>, x: int, j: int)
    requires
        0 <= j <= sorted.len(),
        forall|k: int| 0 <= k < j ==> !(log[x].created_at.nanos < log[
            #[trigger] sorted[k]
        ].created_at.nanos),
        j == sorted.len() || log[x].created_at.nanos < log[sorted[j]].created_at.nanos,
    ensures
        spec_insert_by_time(log, sorted, x) == sorted.insert(j, x),
    decreases j,
{
    if sorted.len() == 0 {
        assert(sorted.insert(0, x) =~= seq![x]);
    } else if j == 0 {
        assert(sorted.insert(0, x) =~= seq![x] + sorted);
    } else {
        lemma_insert_by_time_at(log, sorted.drop_first(), x, j - 1);
        assert(sorted.insert(j, x) =~= seq![sorted[0]] + sorted.drop_first().insert(j - 1, x));
    }
}

/// Sorts row ids stably by creation time.
#[verifier::loop_isolation(false)]
fn sort_ids_by_time(log: &Vec<LogRow>, ids: Vec<usize>) -> (r: Vec<usize>)
    requires
        forall|k: int| 0 <= k < ids@.len() ==> #[trigger] ids@[k] < log@.len(),
    ensures
        r@.map_values(|u: usize| u as int) =~= spec_sort_by_time(
            log.deep_view(),
            ids@.map_values(|u: usize| u as int),
        ),
        forall|k: int| 0 <= k < r@.len() ==> #[trigger] r@[k] < log@.len(),
{
    let ghost lv = log.deep_view();
    let ghost orig = ids@.map_values(|u: usize| u as int);
    proof {
        assert forall|k: int| 0 <= k < log@.len() implies lv[k] == log@[k]@ by {
            assert(log.deep_view()[k] == log@[k].deep_view());
        }
    }
    let mut input = ids;
    let mut out: Vec<usize> = Vec::new();
    proof {
        assert(input@.map_values(|u: usize| u as int) =~= orig.take(input@.len() as int));
        assert(orig.skip(input@.len() as int) =~= Seq::<int>::empty());
        assert(out@.map_values(|u: usize| u as int) =~= spec_sort_by_time(
            lv,
            orig.skip(input@.len() as int),
        ));
    }
    while input.len() > 0
        invariant
            input@.len() <= orig.len(),
            input@.map_values(|u: usize| u as int) =~= orig.take(input@.len() as int),
            out@.map_values(|u: usize| u as int) =~= spec_sort_by_time(
                lv,
                orig.skip(input@.len() as int),
            ),
            forall|k: int| 0 <= k < orig.len() ==> 0 <= #[trigger] orig[k] < lv.len(),
            forall|k: int| 0 <= k < out@.len() ==> #[trigger] out@[k] < log@.len(),
        decreases input@.len(),
    {
        let ghost n = input@.len() as int;
        let x = input.pop().unwrap();
        proof {
            assert(orig.take(n)[n - 1] == x as int);
            assert(x as int == orig[n - 1]);
            assert(input@.map_values(|u: usize| u as int) =~= orig.take(n - 1));
            assert(orig.skip(n - 1).drop_first() =~= orig.skip(n));
            assert(orig.skip(n - 1)[0] == orig[n - 1]);
        }
        let ghost sortedv = out@.map_values(|u: usize| u as int);
        let mut j: usize = 0;
        loop
            invariant
                j <= out@.len(),
                out@.map_values(|u: usize| u as int) == sortedv,
                forall|k: int| 0 <= k < out@.len() ==> #[trigger] out@[k] < log@.len(),
                x < log@.len(),
                forall|k: int| 0 <= k < j ==> !(lv[x as int].created_at.nanos < lv[
                    #[trigger] sortedv[k]
                ].created_at.nanos),
            decreases out@.len() - j,
        {
            let hit = j == out.len() || log[x].created_at.nanos < log[out[j]].created_at.nanos;
            if hit {
                proof {
                    lemma_insert_by_time_at(lv, sortedv, x as int, j as int);
                }
                let ghost pre = out@;
                out.insert(j, x);
                proof {
                    assert(out@ == pre.insert(j as int, x));
                    assert(out@.map_values(|u: usize| u as int) =~= sortedv.insert(
                        j as int,
                        x as int,
                    ));
                }
                break ;
            }
            j = j + 1;
        }
        proof {
            assert(out@.map_values(|u: usize| u as int) =~= spec_sort_by_time(
                lv,
                orig.skip(n - 1),
            ));
        }
    }
    proof {
        assert(orig.skip(0) =~= orig);
        assert(input@.len() == 0);
    }
    out
}

/// The entries the given row ids reassemble to.
pub open spec fn spec_assembled(s: StoreV, ids: Seq<int>) -> Seq<LogEntryV> {
    Seq::new(ids.len(), |k: int| spec_assemble_raw(s, ids[k])->0)
}

/// Whether every one of the rows reassembles with its CID intact.
pub open spec fn spec_all_intact(s: StoreV, ids: Seq<int>) -> bool {
    forall|k: int| 0 <= k < ids.len() ==> spec_row_intact(s, #[trigger] ids[k])
}

/// The row ids an audit-log read returns for a DID, ordered by creation
/// time: nothing when the DID is not registered.
pub open spec fn spec_audit_ids(s: StoreV, did: Seq<char>) -> Seq<int> {
    match spec_str_find(s.identities, 0, did) {
        None => Seq::empty(),
        Some(ident) => spec_sort_by_time(s.log, spec_did_row_ids(s.log, ident)),
    }
}

impl MirrorStore {
    /// How many identities the store has seen.
    pub fn total_dids(&self) -> (r: usize)
        ensures
            r == self@.identities.len(),
    {
        self.identities.len()
    }

    /// A page of identities, as `(id, did)` pairs, for sweep audits.
    #[verifier::loop_isolation(false)]
    pub fn list_dids(&self, count: usize, after: usize) -> (r: Vec<(usize, String)>)
        ensures
            r.deep_view().len() == if after <= self@.identities.len() {
                vstd::math::min(count as int, self@.identities.len() - after)
            } else {
                0
            },
            forall|k: int|
                0 <= k < r.deep_view().len() ==> #[trigger] r.deep_view()[k] == (
                    (after + k) as usize,
                    self@.identities[after + k],
                ),
    {
        let ghost iv = self.identities.deep_view();
        proof {
            assert forall|k: int| 0 <= k < self.identities@.len() implies iv[k]
                == self.identities@[k]@ by {
                assert(self.identities.deep_view()[k] == self.identities@[k].deep_view());
            }
        }
        let mut r: Vec<(usize, String)> = Vec::new();
        if after >= self.identities.len() {
            return r;
        }
        let mut k: usize = after;
        while k < self.identities.len() && k - after < count
            invariant
                after <= k <= self.identities@.len(),
                k - after <= count,
                k - after == r.deep_view().len(),
                forall|q: int|
                    0 <= q < r.deep_view().len() ==> #[trigger] r.deep_view()[q] == (
                        (after + q) as usize,
                        iv[after + q],
                    ),
            decreases self.identities@.len() - k,
        {
            push_deep(&mut r, (k, self.identities[k].clone()));
            k = k + 1;
        }
        r
    }

    /// The creation time of the youngest entry, for resuming the export
    /// stream; the latest row wins a tie.
    #[verifier::loop_isolation(false)]
    pub fn get_last_created(&self) -> (r: Option<Timestamp>)
        ensures
            match r {
                Some(ts) => spec_latest_row(self@.log, self@.log.len() as int) matches Some(b)
                    && ts@ == self@.log[b].created_at && (forall|k: int|
                    0 <= k < self@.log.len() ==> (#[trigger] self@.log[k]).created_at.nanos
                        <= ts@.nanos),
                None => self@.log.len() == 0,
            },
    {
        let ghost lv = self.log.deep_view();
        proof {
            assert forall|k: int| 0 <= k < self.log@.len() implies lv[k] == self.log@[k]@ by {
                assert(self.log.deep_view()[k] == self.log@[k]@);
                assert(self.log.deep_view()[k] == self.log@[k].deep_view());
            }
        }
        if self.log.len() == 0 {
            return None;
        }
        let mut best: usize = 0;
        let mut k: usize = 1;
        proof {
            assert(spec_latest_row(lv, 0) is None);
            assert(spec_latest_row(lv, 1) == Some(0int));
        }
        while k < self.log.len()
            invariant
                best < k <= self.log@.len(),
                spec_latest_row(lv, k as int) == Some(best as int),
                forall|q: int| 0 <= q < k ==> (#[trigger] lv[q]).created_at.nanos <= lv[
                    best as int
                ].created_at.nanos,
            decreases self.log@.len() - k,
        {
            if self.log[k].created_at.nanos >= self.log[best].created_at.nanos {
                best = k;
            }
            k = k + 1;
        }
        Some(clone_timestamp(&self.log[best].created_at))
    }

    /// The full audit log of one DID, ordered by creation time; empty when
    /// the DID is not registered. Refuses to answer if any row of the DID
    /// has lost its integrity.
    #[verifier::loop_isolation(false)]
    #[verifier::rlimit(100)]
    pub fn get_audit_log(&self, did: &String) -> (r: Result<Vec<LogEntry>, StoreError>)
        ensures
            match r {
                Ok(v) => spec_all_intact(self@, spec_audit_ids(self@, did@)) && v.deep_view()
                    =~= spec_assembled(self@, spec_audit_ids(self@, did@)),
                Err(_) => !spec_all_intact(self@, spec_audit_ids(self@, did@)),
            },
    {
        let ghost sv = self@;
        let ghost idsv = spec_audit_ids(sv, did@);
        let ident = match str_find(&self.identities, did) {
            None => {
                let r: Vec<LogEntry> = Vec::new();
                proof {
                    assert(idsv =~= Seq::<int>::empty());
                    assert(r.deep_view() =~= spec_assembled(sv, idsv));
                }
                return Ok(r);
            },
            Some(i) => i,
        };
        let ghost lv = self.log.deep_view();
        proof {
            assert forall|k: int| 0 <= k < self.log@.len() implies lv[k] == self.log@[k]@ by {
                assert(self.log.deep_view()[k] == self.log@[k].deep_view());
            }
        }
        let mut ids: Vec<usize> = Vec::new();
        let mut t: usize = 0;
        while t < self.log.len()
            invariant
                t <= self.log@.len(),
                ids@.map_values(|u: usize| u as int) =~= spec_did_row_ids(
                    lv.take(t as int),
                    ident as int,
                ),
                forall|k: int| 0 <= k < ids@.len() ==> #[trigger] ids@[k] < self.log@.len(),
            decreases self.log@.len() - t,
        {
            proof {
                assert(lv.take(t as int + 1).drop_last() =~= lv.take(t as int));
                assert(lv.take(t as int + 1).last() == lv[t as int]);
            }
            if self.log[t].identity == ident {
                ids.push(t);
            }
            proof {
                assert(ids@.map_values(|u: usize| u as int) =~= spec_did_row_ids(
                    lv.take(t as int + 1),
                    ident as int,
                ));
            }
            t = t + 1;
        }
        proof {
            assert(lv.take(lv.len() as int) =~= lv);
        }
        let sorted = sort_ids_by_time(&self.log, ids);
        proof {
            assert(sorted@.map_values(|u: usize| u as int) =~= idsv);
        }
        let mut out: Vec<LogEntry> = Vec::new();
        let mut k: usize = 0;
        while k < sorted.len()
            invariant
                k <= sorted@.len(),
                sorted@.map_values(|u: usize| u as int) =~= idsv,
                forall|q: int| 0 <= q < sorted@.len() ==> #[trigger] sorted@[q] < self.log@.len(),
                forall|q: int| 0 <= q < k ==> spec_row_intact(sv, #[trigger] idsv[q]),
                out.deep_view() =~= spec_assembled(sv, idsv.take(k as int)),
            decreases sorted@.len() - k,
        {
            proof {
                assert(idsv[k as int] == sorted@[k as int] as int);
            }
            match self.assemble(sorted[k]) {
                Ok(entry) => {
                    push_deep(&mut out, entry);
                    proof {
                        assert(out.deep_view() =~= spec_assembled(sv, idsv.take(k as int + 1)));
                    }
                },
                Err(e) => {
                    proof {
                        assert(!spec_row_intact(sv, idsv[k as int]));
                    }
                    return Err(e);
                },
            }
            k = k + 1;
        }
        proof {
            assert(idsv.take(idsv.len() as int) =~= idsv);
        }
        Ok(out)
    }
}

/// Every row id, in row order.
pub open spec fn spec_all_row_ids(log: Seq<LogRowV>) -> Seq<int>
    decreases log.len(),
{
    if log.len() == 0 {
        Seq::empty()
    } else {
        spec_all_row_ids(log.drop_last()).push(log.len() - 1)
    }
}

/// The row ids an export returns: rows strictly after `after` (every row
/// when no cursor is given, as the upstream registry serves its earliest
/// page then), ordered by creation time, at most `count` of them.
pub open spec fn spec_export_ids(s: StoreV, count: int, after: Option<TimestampV>) -> Seq<int> {
    let ids = match after {
        None => spec_all_row_ids(s.log),
        Some(ts) => spec_after_row_ids(s.log, ts.nanos),
    };
    let sorted = spec_sort_by_time(s.log, ids);
    sorted.take(vstd::math::min(count, sorted.len() as int))
}

/// The row holding the youngest creation time among the first `i` rows;
/// the latest row wins a tie, so the returned raw text is fully determined.
pub open spec fn spec_latest_row(log: Seq<LogRowV>, i: int) -> Option<int>
    decreases i,
{
    if i <= 0 {
        None
    } else {
        let rest = spec_latest_row(log, i - 1);
        match rest {
            None => Some(i - 1),
            Some(b) => if log[i - 1].created_at.nanos >= log[b].created_at.nanos {
                Some(i - 1)
            } else {
                Some(b)
            },
        }
    }
}

/// The latest active (non-nullified) row of an identity among the first `i`
/// rows; the latest row wins a tie.
pub open spec fn spec_last_active_id(log: Seq<LogRowV>, ident: int, i: int) -> Option<int>
    decreases i,
{
    if i <= 0 {
        None
    } else {
        let rest = spec_last_active_id(log, ident, i - 1);
        if log[i - 1].identity == ident && !log[i - 1].nullified {
            match rest {
                None => Some(i - 1),
                Some(b) => if log[i - 1].created_at.nanos >= log[b].created_at.nanos {
                    Some(i - 1)
                } else {
                    Some(b)
                },
            }
        } else {
            rest
        }
    }
}

impl MirrorStore {
    /// A page of the export stream: entries strictly after `after` (from
    /// the earliest entry when no cursor is given), in non-decreasing
    /// creation order, at most `count` of them. Refuses to answer if a row
    /// it would serve has lost its integrity.
    #[verifier::loop_isolation(false)]
    #[verifier::rlimit(100)]
    pub fn export(&self, count: usize, after: Option<&Timestamp>) -> (r: Result<
        Vec<LogEntry>,
        StoreError,
    >)
        ensures
            match r {
                Ok(v) => {
                    let ids = spec_export_ids(
                        self@,
                        count as int,
                        match after {
                            Some(ts) => Some(ts@),
                            None => None,
                        },
                    );
                    &&& spec_all_intact(self@, ids)
                    &&& v.deep_view() =~= spec_assembled(self@, ids)
                    &&& v@.len() <= count
                    &&& (match after {
                        Some(ts) => forall|k: int|
                            0 <= k < v.deep_view().len() ==> (
                            #[trigger] v.deep_view()[k]).created_at.nanos > ts@.nanos,
                        None => true,
                    })
                    &&& (forall|k: int, l: int|
                        0 <= k < l < v.deep_view().len() ==> (
                        #[trigger] v.deep_view()[k]).created_at.nanos <= (
                        #[trigger] v.deep_view()[l]).created_at.nanos)
                },
                Err(_) => !spec_all_intact(
                    self@,
                    spec_export_ids(
                        self@,
                        count as int,
                        match after {
                            Some(ts) => Some(ts@),
                            None => None,
                        },
                    ),
                ),
            },
    {
        let ghost sv = self@;
        let ghost afterv: Option<TimestampV> = match after {
            Some(ts) => Some(ts@),
            None => None,
        };
        let ghost idsv = spec_export_ids(sv, count as int, afterv);
        let ghost lv = self.log.deep_view();
        proof {
            assert forall|k: int| 0 <= k < self.log@.len() implies lv[k] == self.log@[k]@ by {
                assert(self.log.deep_view()[k] == self.log@[k].deep_view());
            }
        }
        let mut ids: Vec<usize> = Vec::new();
        let mut t: usize = 0;
        while t < self.log.len()
            invariant
                t <= self.log@.len(),
                ids@.map_values(|u: usize| u as int) =~= (match afterv {
                    None => spec_all_row_ids(lv.take(t as int)),
                    Some(ts) => spec_after_row_ids(lv.take(t as int), ts.nanos),
                }),
                forall|k: int| 0 <= k < ids@.len() ==> #[trigger] ids@[k] < self.log@.len(),
                match afterv {
                    None => true,
                    Some(ts) => forall|k: int|
                        0 <= k < ids@.len() ==> lv[#[trigger] ids@[k] as int].created_at.nanos
                            > ts.nanos,
                },
            decreases self.log@.len() - t,
        {
            proof {
                assert(lv.take(t as int + 1).drop_last() =~= lv.take(t as int));
                assert(lv.take(t as int + 1).last() == lv[t as int]);
            }
            let keep = match after {
                Some(ts) => self.log[t].created_at.nanos > ts.nanos,
                None => true,
            };
            if keep {
                ids.push(t);
            }
            proof {
                assert(ids@.map_values(|u: usize| u as int) =~= (match afterv {
                    None => spec_all_row_ids(lv.take(t as int + 1)),
                    Some(ts) => spec_after_row_ids(lv.take(t as int + 1), ts.nanos),
                }));
            }
            t = t + 1;
        }
        proof {
            assert(lv.take(lv.len() as int) =~= lv);
        }
        let ghost filtered = ids@.map_values(|u: usize| u as int);
        let sorted = sort_ids_by_time(&self.log, ids);
        let ghost sortedv = sorted@.map_values(|u: usize| u as int);
        proof {
            lemma_sort_by_time_props(lv, filtered);
            assert(sortedv =~= spec_sort_by_time(lv, filtered));
            match afterv {
                None => {
                },
                Some(ts) => {
                    assert forall|k: int| 0 <= k < sortedv.len() implies lv[
                        #[trigger] sortedv[k]
                    ].created_at.nanos > ts.nanos by {
                        assert(filtered.contains(sortedv[k]));
                        let w = choose|w: int|
                            0 <= w < filtered.len() && filtered[w] == sortedv[k];
                    }
                },
            }
        }
        let mut out: Vec<LogEntry> = Vec::new();
        let mut k: usize = 0;
        while k < sorted.len() && k < count
            invariant
                k <= sorted@.len(),
                k <= count,
                sorted@.map_values(|u: usize| u as int) == sortedv,
                forall|q: int| 0 <= q < sorted@.len() ==> #[trigger] sorted@[q] < self.log@.len(),
                forall|q: int| 0 <= q < k ==> spec_row_intact(sv, #[trigger] sortedv[q]),
                out.deep_view() =~= spec_assembled(sv, sortedv.take(k as int)),
                out@.len() == k,
                forall|q: int|
                    0 <= q < out.deep_view().len() ==> (
                    #[trigger] out.deep_view()[q]).created_at.nanos == lv[
                        sortedv[q]
                    ].created_at.nanos,
            decreases sorted@.len() - k,
        {
            proof {
                assert(sortedv[k as int] == sorted@[k as int] as int);
            }
            match self.assemble(sorted[k]) {
                Ok(entry) => {
                    proof {
                        assert(entry@.created_at == lv[sortedv[k as int]].created_at);
                    }
                    push_deep(&mut out, entry);
                    proof {
                        assert(out.deep_view() =~= spec_assembled(sv, sortedv.take(k as int + 1)));
                    }
                },
                Err(e) => {
                    proof {
                        assert(!spec_row_intact(sv, sortedv[k as int]));
                        assert(idsv[k as int] == sortedv[k as int]);
                        assert(!spec_all_intact(sv, idsv));
                    }
                    return Err(e);
                },
            }
            k = k + 1;
        }
        proof {
            assert(idsv =~= sortedv.take(vstd::math::min(count as int, sortedv.len() as int)));
            assert(out.deep_view() =~= spec_assembled(sv, idsv));
            assert forall|q: int| 0 <= q < idsv.len() implies spec_row_intact(
                sv,
                #[trigger] idsv[q],
            ) by {
                assert(idsv[q] == sortedv[q]);
            }
            match afterv {
                None => {
                },
                Some(ts) => {
                    assert forall|q: int| 0 <= q < out.deep_view().len() implies (
                    #[trigger] out.deep_view()[q]).created_at.nanos > ts.nanos by {
                        assert(out.deep_view()[q].created_at.nanos == lv[
                            sortedv[q]
                        ].created_at.nanos);
                    }
                },
            }
            assert forall|q: int, l: int| 0 <= q < l < out.deep_view().len() implies (
            #[trigger] out.deep_view()[q]).created_at.nanos <= (
            #[trigger] out.deep_view()[l]).created_at.nanos by {
                assert(out.deep_view()[q].created_at.nanos == lv[sortedv[q]].created_at.nanos);
                assert(out.deep_view()[l].created_at.nanos == lv[sortedv[l]].created_at.nanos);
            }
        }
        Ok(out)
    }

    /// The latest active entry of a DID, if the DID is registered and has
    /// one; refuses to answer if that row has lost its integrity.
    #[verifier::loop_isolation(false)]
    #[verifier::rlimit(100)]
    pub fn get_last_active_entry(&self, did: &String) -> (r: Result<Option<LogEntry>, StoreError>)
        ensures
            ({
                let best = match spec_str_find(self@.identities, 0, did@) {
                    None => None,
                    Some(ident) => spec_last_active_id(
                        self@.log,
                        ident,
                        self@.log.len() as int,
                    ),
                };
                match r {
                    Ok(opt) => match opt {
                        None => best is None,
                        Some(entry) => best matches Some(b) && spec_row_intact(self@, b)
                            && spec_assemble_raw(self@, b) == Some(entry@),
                    },
                    Err(_) => best matches Some(b) && !spec_row_intact(self@, b),
                }
            }),
    {
        let ghost sv = self@;
        let ident = match str_find(&self.identities, did) {
            None => {
                return Ok(None);
            },
            Some(i) => i,
        };
        let ghost lv = self.log.deep_view();
        proof {
            assert forall|k: int| 0 <= k < self.log@.len() implies lv[k] == self.log@[k]@ by {
                assert(self.log.deep_view()[k] == self.log@[k].deep_view());
            }
        }
        let mut best: Option<usize> = None;
        let mut t: usize = 0;
        while t < self.log.len()
            invariant
                t <= self.log@.len(),
                match best {
                    None => spec_last_active_id(lv, ident as int, t as int) is None,
                    Some(b) => b < self.log@.len() && spec_last_active_id(
                        lv,
                        ident as int,
                        t as int,
                    ) == Some(b as int),
                },
            decreases self.log@.len() - t,
        {
            if self.log[t].identity == ident && !self.log[t].nullified {
                match best {
                    None => {
                        best = Some(t);
                    },
                    Some(b) => {
                        if self.log[t].created_at.nanos >= self.log[b].created_at.nanos {
                            best = Some(t);
                        }
                    },
                }
            }
            t = t + 1;
        }
        match best {
            None => Ok(None),
            Some(b) => match self.assemble(b) {
                Ok(entry) => Ok(Some(entry)),
                Err(e) => Err(e),
            },
        }
    }
}

// ---------------------------------------------------------------------------
// Import idempotence
// ---------------------------------------------------------------------------

/// One table extends another: the older rows stand unchanged in front.
pub open spec fn str_tab_extends(a: Seq<Seq<char>>, b: Seq<Seq<char>>) -> bool {
    a.len() <= b.len() && forall|k: int| 0 <= k < a.len() ==> a[k] == #[trigger] b[k]
}

pub open spec fn log_tab_extends(a: Seq<LogRowV>, b: Seq<LogRowV>) -> bool {
    a.len() <= b.len() && forall|k: int| 0 <= k < a.len() ==> a[k] == #[trigger] b[k]
}

/// A store extends another: every table only grew.
pub open spec fn store_extends(a: StoreV, b: StoreV) -> bool {
    &&& str_tab_extends(a.identities, b.identities)
    &&& str_tab_extends(a.keys, b.keys)
    &&& str_tab_extends(a.pds, b.pds)
    &&& log_tab_extends(a.log, b.log)
    &&& a.rotation_rows.len() <= b.rotation_rows.len() && forall|k: int|
        0 <= k < a.rotation_rows.len() ==> a.rotation_rows[k] == #[trigger] b.rotation_rows[k]
    &&& a.method_rows.len() <= b.method_rows.len() && forall|k: int|
        0 <= k < a.method_rows.len() ==> a.method_rows[k] == #[trigger] b.method_rows[k]
    &&& a.service_rows.len() <= b.service_rows.len() && forall|k: int|
        0 <= k < a.service_rows.len() ==> a.service_rows[k] == #[trigger] b.service_rows[k]
}

proof fn lemma_str_find_extends(a: Seq<Seq<char>>, b: Seq<Seq<char>>, lo: int, v: Seq<char>)
    requires
        str_tab_extends(a, b),
        0 <= lo,
        spec_str_find(a, lo, v) is Some,
    ensures
        spec_str_find(b, lo, v) == spec_str_find(a, lo, v),
    decreases a.len() - lo,
{
    if lo < a.len() && a[lo] != v {
        lemma_str_find_extends(a, b, lo + 1, v);
    }
}

proof fn lemma_log_find_extends(a: Seq<LogRowV>, b: Seq<LogRowV>, lo: int, c: Seq<char>)
    requires
        log_tab_extends(a, b),
        0 <= lo,
        spec_log_find(a, lo, c) is Some,
    ensures
        spec_log_find(b, lo, c) == spec_log_find(a, lo, c),
    decreases a.len() - lo,
{
    if lo < a.len() && a[lo].cid != c {
        lemma_log_find_extends(a, b, lo + 1, c);
    }
}

proof fn lemma_str_find_pushed(l: Seq<Seq<char>>, lo: int, v: Seq<char>)
    requires
        0 <= lo <= l.len(),
    ensures
        spec_str_find(l.push(v), lo, v) is Some,
    decreases l.len() - lo,
{
    if lo < l.len() && l.push(v)[lo] != v {
        lemma_str_find_pushed(l, lo + 1, v);
    }
}

proof fn lemma_upsert_found(l: Seq<Seq<char>>, v: Seq<char>)
    ensures
        spec_str_find(spec_upsert_str(l, v).0, 0, v) is Some,
        str_tab_extends(l, spec_upsert_str(l, v).0),
{
    match spec_str_find(l, 0, v) {
        Some(_) => {
        },
        None => {
            lemma_str_find_pushed(l, 0, v);
        },
    }
}

proof fn lemma_log_find_none_all(l: Seq<LogRowV>, lo: int, c: Seq<char>)
    requires
        0 <= lo,
        spec_log_find(l, lo, c) is None,
    ensures
        forall|k: int| lo <= k < l.len() ==> (#[trigger] l[k]).cid != c,
    decreases l.len() - lo,
{
    if lo < l.len() {
        lemma_log_find_none_all(l, lo + 1, c);
    }
}

proof fn lemma_log_find_pushed_at(l: Seq<LogRowV>, lo: int, r: LogRowV)
    requires
        0 <= lo <= l.len(),
        forall|k: int| lo <= k < l.len() ==> (#[trigger] l[k]).cid != r.cid,
    ensures
        spec_log_find(l.push(r), lo, r.cid) == Some(l.len() as int),
    decreases l.len() - lo,
{
    if lo < l.len() {
        lemma_log_find_pushed_at(l, lo + 1, r);
    }
}

/// Where an entry's row stands after an insert: found at the existing
/// index, or at the fresh end.
proof fn lemma_insert_log_row_found(l: Seq<LogRowV>, r: LogRowV)
    ensures
        spec_log_find(spec_insert_log_row(l, r).0, 0, r.cid) == Some(spec_insert_log_row(l, r).1),
        log_tab_extends(l, spec_insert_log_row(l, r).0),
{
    match spec_log_find(l, 0, r.cid) {
        Some(_) => {
        },
        None => {
            lemma_log_find_none_all(l, 0, r.cid);
            lemma_log_find_pushed_at(l, 0, r);
        },
    }
}

/// Whether an entry's whole footprint is already in the store, so that
/// importing it again can change nothing.
pub open spec fn spec_entry_settled(s: StoreV, e: LogEntryV) -> bool {
    &&& spec_str_find(s.identities, 0, e.did) is Some
    &&& spec_log_find(s.log, 0, e.cid) is Some
    &&& match e.operation.content {
        OperationV::Change(c) => {
            let j = spec_log_find(s.log, 0, e.cid)->0;
            &&& (match spec_pair_find(c.data.verification_methods, 0, "atproto"@) {
                Some(m) => spec_str_find(s.keys, 0, c.data.verification_methods[m].1) is Some,
                None => true,
            })
            &&& (match spec_wf_pds_find(c.data.services, 0) {
                Some(m) => spec_str_find(s.pds, 0, c.data.services[m].1.endpoint) is Some,
                None => true,
            })
            &&& (match c.prev {
                Some(pc) => spec_log_find(s.log, 0, pc) is Some,
                None => true,
            })
            &&& (forall|a: int|
                0 <= a < c.data.rotation_keys.len() ==> spec_str_find(
                    s.keys,
                    0,
                    #[trigger] c.data.rotation_keys[a],
                ) is Some && spec_has_rotation(s.rotation_rows, j, a))
            &&& (forall|m: int|
                0 <= m < c.data.verification_methods.len() && (
                #[trigger] c.data.verification_methods[m]).0 != "atproto"@ ==> spec_str_find(
                    s.keys,
                    0,
                    c.data.verification_methods[m].1,
                ) is Some && spec_has_method(s.method_rows, j, c.data.verification_methods[m].0))
            &&& (forall|m: int|
                0 <= m < c.data.services.len() && !((#[trigger] c.data.services[m]).0
                    == "atproto_pds"@ && c.data.services[m].1.service_type
                    == "AtprotoPersonalDataServer"@) ==> spec_has_service(
                    s.service_rows,
                    j,
                    c.data.services[m].0,
                ))
        },
        OperationV::Tombstone(t) => spec_log_find(s.log, 0, t.prev) is Some,
        OperationV::LegacyCreate(l) => {
            let j = spec_log_find(s.log, 0, e.cid)->0;
            &&& spec_str_find(s.keys, 0, l.signing_key) is Some
            &&& spec_str_find(s.keys, 0, l.recovery_key) is Some
            &&& spec_str_find(s.pds, 0, l.service) is Some
            &&& spec_has_rotation(s.rotation_rows, j, 0)
            &&& spec_has_rotation(s.rotation_rows, j, 1)
        },
    }
}

/// Adding rotation satellites changes nothing when they are all present.
proof fn lemma_add_rotation_noop(s: StoreV, j: int, keys: Seq<Seq<char>>, a: int)
    requires
        forall|q: int|
            a <= q < keys.len() ==> spec_str_find(s.keys, 0, #[trigger] keys[q]) is Some
                && spec_has_rotation(s.rotation_rows, j, q),
    ensures
        spec_add_rotation(s, j, keys, a) == s,
    decreases keys.len() - a,
{
    if 0 <= a < keys.len() {
        assert(spec_upsert_str(s.keys, keys[a]).0 == s.keys);
        assert((StoreV { keys: s.keys, ..s }) =~~= s);
        lemma_add_rotation_noop(s, j, keys, a + 1);
    }
}

proof fn lemma_add_methods_noop(s: StoreV, j: int, pairs: Seq<(Seq<char>, Seq<char>)>, a: int)
    requires
        forall|q: int|
            a <= q < pairs.len() && (#[trigger] pairs[q]).0 != "atproto"@ ==> spec_str_find(
                s.keys,
                0,
                pairs[q].1,
            ) is Some && spec_has_method(s.method_rows, j, pairs[q].0),
    ensures
        spec_add_methods(s, j, pairs, a) == s,
    decreases pairs.len() - a,
{
    if 0 <= a < pairs.len() {
        if pairs[a].0 != "atproto"@ {
            assert(spec_upsert_str(s.keys, pairs[a].1).0 == s.keys);
            assert((StoreV { keys: s.keys, ..s }) =~~= s);
        }
        lemma_add_methods_noop(s, j, pairs, a + 1);
    }
}

proof fn lemma_add_services_noop(s: StoreV, j: int, pairs: Seq<(Seq<char>, ServiceV)>, a: int)
    requires
        forall|q: int|
            a <= q < pairs.len() && !((#[trigger] pairs[q]).0 == "atproto_pds"@
                && pairs[q].1.service_type == "AtprotoPersonalDataServer"@) ==> spec_has_service(
                s.service_rows,
                j,
                pairs[q].0,
            ),
    ensures
        spec_add_services(s, j, pairs, a) == s,
    decreases pairs.len() - a,
{
    if 0 <= a < pairs.len() {
        lemma_add_services_noop(s, j, pairs, a + 1);
    }
}

/// Re-importing a settled entry changes nothing.
proof fn lemma_settled_import_noop(s: StoreV, e: LogEntryV)
    requires
        spec_entry_settled(s, e),
    ensures
        spec_import_entry(s, e) == Some(s),
{
    assert(spec_upsert_str(s.identities, e.did).0 == s.identities);
    assert((StoreV { identities: s.identities, ..s }) =~~= s);
    let j = spec_log_find(s.log, 0, e.cid)->0;
    match e.operation.content {
        OperationV::Change(c) => {
            match spec_pair_find(c.data.verification_methods, 0, "atproto"@) {
                Some(m) => {
                    assert(spec_upsert_str(s.keys, c.data.verification_methods[m].1).0 == s.keys);
                },
                None => {
                },
            }
            assert((StoreV { keys: s.keys, ..s }) =~~= s);
            match spec_wf_pds_find(c.data.services, 0) {
                Some(m) => {
                    assert(spec_upsert_str(s.pds, c.data.services[m].1.endpoint).0 == s.pds);
                },
                None => {
                },
            }
            assert((StoreV { pds: s.pds, ..s }) =~~= s);
            assert((StoreV { log: s.log, ..s }) =~~= s);
            lemma_add_rotation_noop(s, j, c.data.rotation_keys, 0);
            lemma_add_methods_noop(s, j, c.data.verification_methods, 0);
            lemma_add_services_noop(s, j, c.data.services, 0);
        },
        OperationV::Tombstone(_) => {
            assert((StoreV { log: s.log, ..s }) =~~= s);
        },
        OperationV::LegacyCreate(l) => {
            assert(spec_upsert_str(s.keys, l.signing_key).0 == s.keys);
            assert((StoreV { keys: s.keys, ..s }) =~~= s);
            assert(spec_upsert_str(s.pds, l.service).0 == s.pds);
            assert((StoreV { pds: s.pds, ..s }) =~~= s);
            assert((StoreV { log: s.log, ..s }) =~~= s);
            lemma_add_rotation_noop(s, j, seq![l.recovery_key, l.signing_key], 0);
        },
    }
}

proof fn lemma_extends_refl(a: StoreV)
    ensures
        store_extends(a, a),
{
}

proof fn lemma_extends_trans(a: StoreV, b: StoreV, c: StoreV)
    requires
        store_extends(a, b),
        store_extends(b, c),
    ensures
        store_extends(a, c),
{
}

proof fn lemma_has_rotation_extends(a: Seq<RotationRowV>, b: Seq<RotationRowV>, j: int, q: int)
    requires
        a.len() <= b.len(),
        forall|k: int| 0 <= k < a.len() ==> a[k] == #[trigger] b[k],
        spec_has_rotation(a, j, q),
    ensures
        spec_has_rotation(b, j, q),
{
    let w = choose|w: int| 0 <= w < a.len() && (#[trigger] a[w]).entry == j && a[w].authority == q;
    assert(b[w].entry == j && b[w].authority == q);
}

proof fn lemma_has_method_extends(a: Seq<MethodRowV>, b: Seq<MethodRowV>, j: int, n: Seq<char>)
    requires
        a.len() <= b.len(),
        forall|k: int| 0 <= k < a.len() ==> a[k] == #[trigger] b[k],
        spec_has_method(a, j, n),
    ensures
        spec_has_method(b, j, n),
{
    let w = choose|w: int| 0 <= w < a.len() && (#[trigger] a[w]).entry == j && a[w].service == n;
    assert(b[w].entry == j && b[w].service == n);
}

proof fn lemma_has_service_extends(a: Seq<ServiceRowV>, b: Seq<ServiceRowV>, j: int, n: Seq<char>)
    requires
        a.len() <= b.len(),
        forall|k: int| 0 <= k < a.len() ==> a[k] == #[trigger] b[k],
        spec_has_service(a, j, n),
    ensures
        spec_has_service(b, j, n),
{
    let w = choose|w: int| 0 <= w < a.len() && (#[trigger] a[w]).entry == j && a[w].kind == n;
    assert(b[w].entry == j && b[w].kind == n);
}

/// Adding rotation satellites only grows the key table and the rotation
/// rows, and afterwards every one of them is present.
proof fn lemma_add_rotation_post(s: StoreV, j: int, keys: Seq<Seq<char>>, a: int)
    requires
        0 <= a,
    ensures
        store_extends(s, spec_add_rotation(s, j, keys, a)),
        spec_add_rotation(s, j, keys, a).identities == s.identities,
        spec_add_rotation(s, j, keys, a).pds == s.pds,
        spec_add_rotation(s, j, keys, a).log == s.log,
        spec_add_rotation(s, j, keys, a).method_rows == s.method_rows,
        spec_add_rotation(s, j, keys, a).service_rows == s.service_rows,
        forall|q: int|
            a <= q < keys.len() ==> spec_str_find(
                spec_add_rotation(s, j, keys, a).keys,
                0,
                #[trigger] keys[q],
            ) is Some && spec_has_rotation(spec_add_rotation(s, j, keys, a).rotation_rows, j, q),
    decreases keys.len() - a,
{
    if a < 0 || a >= keys.len() {
        lemma_extends_refl(s);
    } else {
        let up = spec_upsert_str(s.keys, keys[a]);
        lemma_upsert_found(s.keys, keys[a]);
        let s1 = StoreV { keys: up.0, ..s };
        let s2 = if spec_has_rotation(s1.rotation_rows, j, a) {
            s1
        } else {
            StoreV {
                rotation_rows: s1.rotation_rows.push(
                    RotationRowV { entry: j, authority: a, key: up.1 },
                ),
                ..s1
            }
        };
        assert(store_extends(s, s2));
        assert(spec_str_find(s2.keys, 0, keys[a]) is Some);
        if !spec_has_rotation(s1.rotation_rows, j, a) {
            assert(s2.rotation_rows[s1.rotation_rows.len() as int].entry == j
                && s2.rotation_rows[s1.rotation_rows.len() as int].authority == a);
        }
        assert(spec_has_rotation(s2.rotation_rows, j, a));
        lemma_add_rotation_post(s2, j, keys, a + 1);
        let sf = spec_add_rotation(s2, j, keys, a + 1);
        assert(spec_add_rotation(s, j, keys, a) == sf);
        lemma_extends_trans(s, s2, sf);
        lemma_str_find_extends(s2.keys, sf.keys, 0, keys[a]);
        lemma_has_rotation_extends(s2.rotation_rows, sf.rotation_rows, j, a);
        assert forall|q: int| a <= q < keys.len() implies spec_str_find(
            sf.keys,
            0,
            #[trigger] keys[q],
        ) is Some && spec_has_rotation(sf.rotation_rows, j, q) by {}
    }
}

/// Adding method satellites only grows the key table and the method rows,
/// and afterwards every non-`atproto` method is present.
proof fn lemma_add_methods_post(s: StoreV, j: int, pairs: Seq<(Seq<char>, Seq<char>)>, a: int)
    requires
        0 <= a,
    ensures
        store_extends(s, spec_add_methods(s, j, pairs, a)),
        spec_add_methods(s, j, pairs, a).identities == s.identities,
        spec_add_methods(s, j, pairs, a).pds == s.pds,
        spec_add_methods(s, j, pairs, a).log == s.log,
        spec_add_methods(s, j, pairs, a).rotation_rows == s.rotation_rows,
        spec_add_methods(s, j, pairs, a).service_rows == s.service_rows,
        forall|q: int|
            a <= q < pairs.len() && (#[trigger] pairs[q]).0 != "atproto"@ ==> spec_str_find(
                spec_add_methods(s, j, pairs, a).keys,
                0,
                pairs[q].1,
            ) is Some && spec_has_method(spec_add_methods(s, j, pairs, a).method_rows, j, pairs[q].0),
    decreases pairs.len() - a,
{
    if a < 0 || a >= pairs.len() {
        lemma_extends_refl(s);
    } else {
        let s2 = if pairs[a].0 == "atproto"@ {
            s
        } else {
            let up = spec_upsert_str(s.keys, pairs[a].1);
            let s1 = StoreV { keys: up.0, ..s };
            if spec_has_method(s1.method_rows, j, pairs[a].0) {
                s1
            } else {
                StoreV {
                    method_rows: s1.method_rows.push(
                        MethodRowV { entry: j, service: pairs[a].0, key: up.1 },
                    ),
                    ..s1
                }
            }
        };
        if pairs[a].0 != "atproto"@ {
            lemma_upsert_found(s.keys, pairs[a].1);
            assert(store_extends(s, s2));
            assert(spec_str_find(s2.keys, 0, pairs[a].1) is Some);
            if !spec_has_method(s.method_rows, j, pairs[a].0) {
                assert(s2.method_rows[s.method_rows.len() as int].entry == j
                    && s2.method_rows[s.method_rows.len() as int].service == pairs[a].0);
            }
            assert(spec_has_method(s2.method_rows, j, pairs[a].0));
        } else {
            lemma_extends_refl(s);
        }
        lemma_add_methods_post(s2, j, pairs, a + 1);
        let sf = spec_add_methods(s2, j, pairs, a + 1);
        assert(spec_add_methods(s, j, pairs, a) == sf);
        lemma_extends_trans(s, s2, sf);
        if pairs[a].0 != "atproto"@ {
            lemma_str_find_extends(s2.keys, sf.keys, 0, pairs[a].1);
            lemma_has_method_extends(s2.method_rows, sf.method_rows, j, pairs[a].0);
        }
        assert forall|q: int| a <= q < pairs.len() && (#[trigger] pairs[q]).0 != "atproto"@
            implies spec_str_find(sf.keys, 0, pairs[q].1) is Some && spec_has_method(
            sf.method_rows,
            j,
            pairs[q].0,
        ) by {}
    }
}

/// Adding service satellites only grows the service rows, and afterwards
/// every generic service record is present.
proof fn lemma_add_services_post(s: StoreV, j: int, pairs: Seq<(Seq<char>, ServiceV)>, a: int)
    requires
        0 <= a,
    ensures
        store_extends(s, spec_add_services(s, j, pairs, a)),
        spec_add_services(s, j, pairs, a).identities == s.identities,
        spec_add_services(s, j, pairs, a).keys == s.keys,
        spec_add_services(s, j, pairs, a).pds == s.pds,
        spec_add_services(s, j, pairs, a).log == s.log,
        spec_add_services(s, j, pairs, a).rotation_rows == s.rotation_rows,
        spec_add_services(s, j, pairs, a).method_rows == s.method_rows,
        forall|q: int|
            a <= q < pairs.len() && !((#[trigger] pairs[q]).0 == "atproto_pds"@
                && pairs[q].1.service_type == "AtprotoPersonalDataServer"@) ==> spec_has_service(
                spec_add_services(s, j, pairs, a).service_rows,
                j,
                pairs[q].0,
            ),
    decreases pairs.len() - a,
{
    if a < 0 || a >= pairs.len() {
        lemma_extends_refl(s);
    } else {
        let skip = pairs[a].0 == "atproto_pds"@ && pairs[a].1.service_type
            == "AtprotoPersonalDataServer"@;
        let s2 = if skip {
            s
        } else {
            if spec_has_service(s.service_rows, j, pairs[a].0) {
                s
            } else {
                StoreV {
                    service_rows: s.service_rows.push(
                        ServiceRowV {
                            entry: j,
                            kind: pairs[a].0,
                            service_type: pairs[a].1.service_type,
                            endpoint: pairs[a].1.endpoint,
                        },
                    ),
                    ..s
                }
            }
        };
        assert(store_extends(s, s2));
        if !skip {
            if !spec_has_service(s.service_rows, j, pairs[a].0) {
                assert(s2.service_rows[s.service_rows.len() as int].entry == j
                    && s2.service_rows[s.service_rows.len() as int].kind == pairs[a].0);
            }
            assert(spec_has_service(s2.service_rows, j, pairs[a].0));
        }
        lemma_add_services_post(s2, j, pairs, a + 1);
        let sf = spec_add_services(s2, j, pairs, a + 1);
        assert(spec_add_services(s, j, pairs, a) == sf);
        lemma_extends_trans(s, s2, sf);
        if !skip {
            lemma_has_service_extends(s2.service_rows, sf.service_rows, j, pairs[a].0);
        }
        assert forall|q: int| a <= q < pairs.len() && !((#[trigger] pairs[q]).0 == "atproto_pds"@
            && pairs[q].1.service_type == "AtprotoPersonalDataServer"@) implies spec_has_service(
            sf.service_rows,
            j,
            pairs[q].0,
        ) by {}
    }
}

/// Importing an entry only grows the store, and leaves the entry's whole
/// footprint present.
#[verifier::rlimit(100)]
proof fn lemma_import_entry_post(s: StoreV, e: LogEntryV, s2: StoreV)
    requires
        spec_import_entry(s, e) == Some(s2),
    ensures
        store_extends(s, s2),
        spec_entry_settled(s2, e),
{
    let up_id = spec_upsert_str(s.identities, e.did);
    lemma_upsert_found(s.identities, e.did);
    let s0 = StoreV { identities: up_id.0, ..s };
    match e.operation.content {
        OperationV::Change(c) => {
            let key_step: (Seq<Seq<char>>, Option<int>) = match spec_pair_find(
                c.data.verification_methods,
                0,
                "atproto"@,
            ) {
                Some(m) => {
                    let up = spec_upsert_str(s0.keys, c.data.verification_methods[m].1);
                    (up.0, Some(up.1))
                },
                None => (s0.keys, None),
            };
            let s1 = StoreV { keys: key_step.0, ..s0 };
            match spec_pair_find(c.data.verification_methods, 0, "atproto"@) {
                Some(m) => {
                    lemma_upsert_found(s0.keys, c.data.verification_methods[m].1);
                },
                None => {
                },
            }
            let pds_step: (Seq<Seq<char>>, Option<int>) = match spec_wf_pds_find(
                c.data.services,
                0,
            ) {
                Some(m) => {
                    let up = spec_upsert_str(s1.pds, c.data.services[m].1.endpoint);
                    (up.0, Some(up.1))
                },
                None => (s1.pds, None),
            };
            let s2x = StoreV { pds: pds_step.0, ..s1 };
            match spec_wf_pds_find(c.data.services, 0) {
                Some(m) => {
                    lemma_upsert_found(s1.pds, c.data.services[m].1.endpoint);
                },
                None => {
                },
            }
            let prev_res: Option<Option<int>> = match c.prev {
                None => Some(None),
                Some(pc) => match spec_log_find(s2x.log, 0, pc) {
                    Some(j) => Some(Some(j)),
                    None => None,
                },
            };
            let prev_id = prev_res->0;
            let row = LogRowV {
                cid: e.cid,
                identity: up_id.1,
                created_at: e.created_at,
                nullified: e.nullified,
                kind: RowKind::Change,
                also_known_as: Some(c.data.also_known_as),
                atproto_signing: key_step.1,
                atproto_pds: pds_step.1,
                prev: prev_id,
                sig: e.operation.sig,
            };
            let ins = spec_insert_log_row(s2x.log, row);
            lemma_insert_log_row_found(s2x.log, row);
            let s3 = StoreV { log: ins.0, ..s2x };
            let j = ins.1;
            lemma_add_rotation_post(s3, j, c.data.rotation_keys, 0);
            let s4 = spec_add_rotation(s3, j, c.data.rotation_keys, 0);
            lemma_add_methods_post(s4, j, c.data.verification_methods, 0);
            let s5 = spec_add_methods(s4, j, c.data.verification_methods, 0);
            lemma_add_services_post(s5, j, c.data.services, 0);
            let s6 = spec_add_services(s5, j, c.data.services, 0);
            assert(s2 == s6);
            assert(store_extends(s, s3));
            lemma_extends_trans(s, s3, s4);
            lemma_extends_trans(s, s4, s5);
            lemma_extends_trans(s, s5, s6);
            // The footprint survives each later growth step.
            lemma_str_find_extends(s0.identities, s6.identities, 0, e.did);
            lemma_log_find_extends(s3.log, s6.log, 0, e.cid);
            assert(spec_log_find(s6.log, 0, e.cid) == Some(j));
            match spec_pair_find(c.data.verification_methods, 0, "atproto"@) {
                Some(m) => {
                    lemma_str_find_extends(s1.keys, s6.keys, 0, c.data.verification_methods[m].1);
                },
                None => {
                },
            }
            match spec_wf_pds_find(c.data.services, 0) {
                Some(m) => {
                    lemma_str_find_extends(s2x.pds, s6.pds, 0, c.data.services[m].1.endpoint);
                },
                None => {
                },
            }
            match c.prev {
                Some(pc) => {
                    lemma_log_find_extends(s2x.log, s6.log, 0, pc);
                },
                None => {
                },
            }
            assert forall|a: int| 0 <= a < c.data.rotation_keys.len() implies spec_str_find(
                s6.keys,
                0,
                #[trigger] c.data.rotation_keys[a],
            ) is Some && spec_has_rotation(s6.rotation_rows, j, a) by {
                lemma_str_find_extends(s4.keys, s6.keys, 0, c.data.rotation_keys[a]);
                lemma_has_rotation_extends(s4.rotation_rows, s6.rotation_rows, j, a);
            }
            assert forall|m: int| 0 <= m < c.data.verification_methods.len() && (
            #[trigger] c.data.verification_methods[m]).0 != "atproto"@ implies spec_str_find(
                s6.keys,
                0,
                c.data.verification_methods[m].1,
            ) is Some && spec_has_method(
                s6.method_rows,
                j,
                c.data.verification_methods[m].0,
            ) by {
                lemma_str_find_extends(s5.keys, s6.keys, 0, c.data.verification_methods[m].1);
                lemma_has_method_extends(
                    s5.method_rows,
                    s6.method_rows,
                    j,
                    c.data.verification_methods[m].0,
                );
            }
            assert(spec_entry_settled(s2, e));
        },
        OperationV::Tombstone(t) => {
            let j0 = spec_log_find(s0.log, 0, t.prev);
            assert(j0 is Some);
            let row = LogRowV {
                cid: e.cid,
                identity: up_id.1,
                created_at: e.created_at,
                nullified: e.nullified,
                kind: RowKind::Tombstone,
                also_known_as: None,
                atproto_signing: None,
                atproto_pds: None,
                prev: Some(j0->0),
                sig: e.operation.sig,
            };
            lemma_insert_log_row_found(s0.log, row);
            let ins = spec_insert_log_row(s0.log, row);
            let s3 = StoreV { log: ins.0, ..s0 };
            assert(s2 == s3);
            lemma_str_find_extends(s0.identities, s3.identities, 0, e.did);
            lemma_log_find_extends(s0.log, s3.log, 0, t.prev);
            assert(spec_entry_settled(s2, e));
        },
        OperationV::LegacyCreate(l) => {
            let upk = spec_upsert_str(s0.keys, l.signing_key);
            lemma_upsert_found(s0.keys, l.signing_key);
            let s1 = StoreV { keys: upk.0, ..s0 };
            let upp = spec_upsert_str(s1.pds, l.service);
            lemma_upsert_found(s1.pds, l.service);
            let s2x = StoreV { pds: upp.0, ..s1 };
            let row = LogRowV {
                cid: e.cid,
                identity: up_id.1,
                created_at: e.created_at,
                nullified: e.nullified,
                kind: RowKind::Create,
                also_known_as: Some(seq!["at://"@ + l.handle]),
                atproto_signing: Some(upk.1),
                atproto_pds: Some(upp.1),
                prev: None,
                sig: e.operation.sig,
            };
            lemma_insert_log_row_found(s2x.log, row);
            let ins = spec_insert_log_row(s2x.log, row);
            let s3 = StoreV { log: ins.0, ..s2x };
            let j = ins.1;
            lemma_add_rotation_post(s3, j, seq![l.recovery_key, l.signing_key], 0);
            let s4 = spec_add_rotation(s3, j, seq![l.recovery_key, l.signing_key], 0);
            assert(s2 == s4);
            assert(store_extends(s, s3));
            lemma_extends_trans(s, s3, s4);
            lemma_str_find_extends(s0.identities, s4.identities, 0, e.did);
            lemma_log_find_extends(s3.log, s4.log, 0, e.cid);
            assert(spec_log_find(s4.log, 0, e.cid) == Some(j));
            lemma_str_find_extends(s1.keys, s4.keys, 0, l.signing_key);
            lemma_str_find_extends(s2x.pds, s4.pds, 0, l.service);
            assert(seq![l.recovery_key, l.signing_key][0] == l.recovery_key);
            assert(seq![l.recovery_key, l.signing_key][1] == l.signing_key);
            assert(spec_str_find(s4.keys, 0, l.recovery_key) is Some);
            assert(spec_has_rotation(s4.rotation_rows, j, 0));
            assert(spec_has_rotation(s4.rotation_rows, j, 1));
            assert(spec_entry_settled(s2, e));
        },
    }
}

/// A settled footprint stays settled as the store grows.
proof fn lemma_settled_extends(a: StoreV, b: StoreV, e: LogEntryV)
    requires
        spec_entry_settled(a, e),
        store_extends(a, b),
    ensures
        spec_entry_settled(b, e),
{
    lemma_str_find_extends(a.identities, b.identities, 0, e.did);
    lemma_log_find_extends(a.log, b.log, 0, e.cid);
    let j = spec_log_find(a.log, 0, e.cid)->0;
    match e.operation.content {
        OperationV::Change(c) => {
            match spec_pair_find(c.data.verification_methods, 0, "atproto"@) {
                Some(m) => {
                    lemma_str_find_extends(a.keys, b.keys, 0, c.data.verification_methods[m].1);
                },
                None => {
                },
            }
            match spec_wf_pds_find(c.data.services, 0) {
                Some(m) => {
                    lemma_str_find_extends(a.pds, b.pds, 0, c.data.services[m].1.endpoint);
                },
                None => {
                },
            }
            match c.prev {
                Some(pc) => {
                    lemma_log_find_extends(a.log, b.log, 0, pc);
                },
                None => {
                },
            }
            assert forall|q: int| 0 <= q < c.data.rotation_keys.len() implies spec_str_find(
                b.keys,
                0,
                #[trigger] c.data.rotation_keys[q],
            ) is Some && spec_has_rotation(b.rotation_rows, j, q) by {
                lemma_str_find_extends(a.keys, b.keys, 0, c.data.rotation_keys[q]);
                lemma_has_rotation_extends(a.rotation_rows, b.rotation_rows, j, q);
            }
            assert forall|m: int| 0 <= m < c.data.verification_methods.len() && (
            #[trigger] c.data.verification_methods[m]).0 != "atproto"@ implies spec_str_find(
                b.keys,
                0,
                c.data.verification_methods[m].1,
            ) is Some && spec_has_method(
                b.method_rows,
                j,
                c.data.verification_methods[m].0,
            ) by {
                lemma_str_find_extends(a.keys, b.keys, 0, c.data.verification_methods[m].1);
                lemma_has_method_extends(
                    a.method_rows,
                    b.method_rows,
                    j,
                    c.data.verification_methods[m].0,
                );
            }
            assert forall|m: int| 0 <= m < c.data.services.len() && !((
            #[trigger] c.data.services[m]).0 == "atproto_pds"@ && c.data.services[m].1.service_type
                == "AtprotoPersonalDataServer"@) implies spec_has_service(
                b.service_rows,
                j,
                c.data.services[m].0,
            ) by {
                lemma_has_service_extends(a.service_rows, b.service_rows, j, c.data.services[m].0);
            }
        },
        OperationV::Tombstone(t) => {
            lemma_log_find_extends(a.log, b.log, 0, t.prev);
        },
        OperationV::LegacyCreate(l) => {
            lemma_str_find_extends(a.keys, b.keys, 0, l.signing_key);
            lemma_str_find_extends(a.keys, b.keys, 0, l.recovery_key);
            lemma_str_find_extends(a.pds, b.pds, 0, l.service);
            lemma_has_rotation_extends(a.rotation_rows, b.rotation_rows, j, 0);
            lemma_has_rotation_extends(a.rotation_rows, b.rotation_rows, j, 1);
        },
    }
}

proof fn lemma_import_from_post(s: StoreV, es: Seq<LogEntryV>, k: int, s2: StoreV)
    requires
        0 <= k,
        spec_import_from(s, es, k) == Some(s2),
    ensures
        store_extends(s, s2),
        forall|q: int| k <= q < es.len() ==> spec_entry_settled(s2, #[trigger] es[q]),
    decreases es.len() - k,
{
    if k >= es.len() {
        lemma_extends_refl(s);
    } else {
        let sk = spec_import_entry(s, es[k])->0;
        lemma_import_entry_post(s, es[k], sk);
        lemma_import_from_post(sk, es, k + 1, s2);
        lemma_extends_trans(s, sk, s2);
        lemma_settled_extends(sk, s2, es[k]);
    }
}

/// Importing a batch whose every entry already has its whole footprint in
/// the store (identity, keys, endpoint, log row and satellites) changes
/// nothing at all.
pub proof fn lemma_import_of_present_noop(s: StoreV, es: Seq<LogEntryV>)
    requires
        forall|q: int| 0 <= q < es.len() ==> spec_entry_settled(s, #[trigger] es[q]),
    ensures
        spec_import_from(s, es, 0) == Some(s),
{
    lemma_import_settled_noop(s, es, 0);
}

proof fn lemma_import_settled_noop(s2: StoreV, es: Seq<LogEntryV>, k: int)
    requires
        0 <= k,
        forall|q: int| k <= q < es.len() ==> spec_entry_settled(s2, #[trigger] es[q]),
    ensures
        spec_import_from(s2, es, k) == Some(s2),
    decreases es.len() - k,
{
    if k < es.len() {
        lemma_settled_import_noop(s2, es[k]);
        lemma_import_settled_noop(s2, es, k + 1);
    }
}

/// Importing the same batch twice changes nothing the second time: every
/// row, identity, key and satellite the batch carries is already present,
/// so the store (and with it the last creation time) stands exactly as it
/// was after the first import.
pub proof fn lemma_import_idempotent(s: StoreV, es: Seq<LogEntryV>, s2: StoreV)
    requires
        spec_import_from(s, es, 0) == Some(s2),
    ensures
        spec_import_from(s2, es, 0) == Some(s2),
{
    lemma_import_from_post(s, es, 0, s2);
    lemma_import_settled_noop(s2, es, 0);
}

} // verus!
