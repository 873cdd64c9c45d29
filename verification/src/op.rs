//! The operation model: the three operation variants, their signed envelope,
//! the log entry that the registry serves, and their canonical wire bytes.

use vstd::prelude::*;
use vstd::string::StringExecFns;

use crate::codec::{
    cbor_header, cbor_map_from_encs, cbor_text, encode_value, lemma_concat_encs_take, push_enc,
    spec_cbor_header, spec_cbor_null, spec_cbor_text, spec_cid_str, spec_concat_encs,
    spec_encode_map_from_encs, spec_encode_value, spec_entry_enc, CborValue, CborValueV,
};
use crate::codec::cid_str;
use crate::data::{PlcData, PlcDataV, Service, ServiceV, State, StateV};
use crate::error::Error;

verus! {

// ---------------------------------------------------------------------------
// Timestamps
// ---------------------------------------------------------------------------

/// A point in time as the registry reports it: the instant in nanoseconds
/// since the Unix epoch, and the RFC 3339 text it arrived as, kept verbatim
/// so that stored entries can be served back unchanged.
#[derive(Debug, Clone, PartialEq, Eq)]
pub struct Timestamp {
    pub nanos: i64,
    pub raw: String,
}

/// The mathematical shape of a [`Timestamp`].
#[verifier::ext_equal]
pub struct TimestampV {
    pub nanos: int,
    pub raw: Seq<char>,
}

impl View for Timestamp {
    type V = TimestampV;

    open spec fn view(&self) -> TimestampV {
        TimestampV { nanos: self.nanos as int, raw: self.raw@ }
    }
}

impl DeepView for Timestamp {
    type V = TimestampV;

    open spec fn deep_view(&self) -> TimestampV {
        self.view()
    }
}

// ---------------------------------------------------------------------------
// Operations
// ---------------------------------------------------------------------------

/// A change operation: a full identity state and a pointer to the previous
/// operation (absent on the genesis operation). Fields this crate does not
/// recognize are carried in `extra_fields`, because the CID covers them.
#[derive(Debug)]
pub struct ChangeOp {
    pub data: PlcData,
    pub prev: Option<String>,
    pub extra_fields: Vec<(String, CborValue)>,
}

#[verifier::ext_equal]
pub struct ChangeOpV {
    pub data: PlcDataV,
    pub prev: Option<Seq<char>>,
    pub extra_fields: Seq<(Seq<char>, CborValueV)>,
}

impl View for ChangeOp {
    type V = ChangeOpV;

    open spec fn view(&self) -> ChangeOpV {
        ChangeOpV {
            data: self.data@,
            prev: self.prev.deep_view(),
            extra_fields: self.extra_fields.deep_view(),
        }
    }
}

impl DeepView for ChangeOp {
    type V = ChangeOpV;

    open spec fn deep_view(&self) -> ChangeOpV {
        self.view()
    }
}

/// A tombstone: terminates the chain, pointing at the operation it ends.
#[derive(Debug, Clone, PartialEq, Eq)]
pub struct TombstoneOp {
    pub prev: String,
}

#[verifier::ext_equal]
pub struct TombstoneOpV {
    pub prev: Seq<char>,
}

impl View for TombstoneOp {
    type V = TombstoneOpV;

    open spec fn view(&self) -> TombstoneOpV {
        TombstoneOpV { prev: self.prev@ }
    }
}

impl DeepView for TombstoneOp {
    type V = TombstoneOpV;

    open spec fn deep_view(&self) -> TombstoneOpV {
        self.view()
    }
}

/// The legacy creation operation: two keys, a bare handle, and a PDS URL.
#[derive(Debug, Clone, PartialEq, Eq)]
pub struct LegacyCreateOp {
    pub signing_key: String,
    pub recovery_key: String,
    pub handle: String,
    pub service: String,
}

#[verifier::ext_equal]
pub struct LegacyCreateOpV {
    pub signing_key: Seq<char>,
    pub recovery_key: Seq<char>,
    pub handle: Seq<char>,
    pub service: Seq<char>,
}

impl View for LegacyCreateOp {
    type V = LegacyCreateOpV;

    open spec fn view(&self) -> LegacyCreateOpV {
        LegacyCreateOpV {
            signing_key: self.signing_key@,
            recovery_key: self.recovery_key@,
            handle: self.handle@,
            service: self.service@,
        }
    }
}

impl DeepView for LegacyCreateOp {
    type V = LegacyCreateOpV;

    open spec fn deep_view(&self) -> LegacyCreateOpV {
        self.view()
    }
}

/// One operation of the log.
#[derive(Debug)]
pub enum Operation {
    Change(ChangeOp),
    Tombstone(TombstoneOp),
    LegacyCreate(LegacyCreateOp),
}

#[verifier::ext_equal]
pub enum OperationV {
    Change(ChangeOpV),
    Tombstone(TombstoneOpV),
    LegacyCreate(LegacyCreateOpV),
}

impl View for Operation {
    type V = OperationV;

    open spec fn view(&self) -> OperationV {
        match self {
            Operation::Change(c) => OperationV::Change(c@),
            Operation::Tombstone(t) => OperationV::Tombstone(t@),
            Operation::LegacyCreate(l) => OperationV::LegacyCreate(l@),
        }
    }
}

impl DeepView for Operation {
    type V = OperationV;

    open spec fn deep_view(&self) -> OperationV {
        self.view()
    }
}

/// An operation together with its signature: base64url text over the
/// DAG-CBOR of the unsigned operation.
#[derive(Debug)]
pub struct SignedOperation {
    pub content: Operation,
    pub sig: String,
}

#[verifier::ext_equal]
pub struct SignedOperationV {
    pub content: OperationV,
    pub sig: Seq<char>,
}

impl View for SignedOperation {
    type V = SignedOperationV;

    open spec fn view(&self) -> SignedOperationV {
        SignedOperationV { content: self.content@, sig: self.sig@ }
    }
}

impl DeepView for SignedOperation {
    type V = SignedOperationV;

    open spec fn deep_view(&self) -> SignedOperationV {
        self.view()
    }
}

/// One row of an audit log: the operation, the CID and DID the registry
/// claims for it, whether the registry marked it nullified, and when it was
/// received.
#[derive(Debug)]
pub struct LogEntry {
    pub did: String,
    pub operation: SignedOperation,
    pub cid: String,
    pub nullified: bool,
    pub created_at: Timestamp,
}

#[verifier::ext_equal]
pub struct LogEntryV {
    pub did: Seq<char>,
    pub operation: SignedOperationV,
    pub cid: Seq<char>,
    pub nullified: bool,
    pub created_at: TimestampV,
}

impl View for LogEntry {
    type V = LogEntryV;

    open spec fn view(&self) -> LogEntryV {
        LogEntryV {
            did: self.did@,
            operation: self.operation@,
            cid: self.cid@,
            nullified: self.nullified,
            created_at: self.created_at@,
        }
    }
}

impl DeepView for LogEntry {
    type V = LogEntryV;

    open spec fn deep_view(&self) -> LogEntryV {
        self.view()
    }
}

// ---------------------------------------------------------------------------
// Wire encodings of the model
// ---------------------------------------------------------------------------

/// Per-item encodings of an array of text strings.
pub open spec fn spec_text_item_encs(items: Seq<Seq<char>>) -> Seq<Seq<u8>> {
    Seq::new(items.len(), |i: int| spec_cbor_text(items[i]))
}

/// Encoding of an array of text strings.
pub open spec fn spec_text_array(items: Seq<Seq<char>>) -> Seq<u8> {
    spec_cbor_header(4, items.len()) + spec_concat_encs(spec_text_item_encs(items))
}

/// Appends the encoding of an array of text strings.
#[verifier::loop_isolation(false)]
pub fn cbor_text_array(items: &Vec<String>, out: &mut Vec<u8>)
    ensures
        final(out)@ == old(out)@ + spec_text_array(items.deep_view()),
{
    let ghost iv = items.deep_view();
    proof {
        assert forall|k: int| 0 <= k < items@.len() implies iv[k] == items@[k]@ by {
            assert(items.deep_view()[k] == items@[k].deep_view());
        }
        assert(spec_text_item_encs(iv).take(0) =~= Seq::<Seq<u8>>::empty());
    }
    cbor_header(4, items.len() as u64, out);
    let mut i: usize = 0;
    while i < items.len()
        invariant
            i <= items.len(),
            out@ == old(out)@ + spec_cbor_header(4, iv.len()) + spec_concat_encs(
                spec_text_item_encs(iv).take(i as int),
            ),
        decreases items.len() - i,
    {
        proof {
            lemma_concat_encs_take(spec_text_item_encs(iv), i as int);
            assert(spec_text_item_encs(iv)[i as int] == spec_cbor_text(iv[i as int]));
        }
        cbor_text(items[i].as_str(), out);
        i = i + 1;
    }
    proof {
        assert(spec_text_item_encs(iv).take(iv.len() as int) =~= spec_text_item_encs(iv));
    }
}

/// Per-entry encodings of a map from text to text.
pub open spec fn spec_text_map_entry_encs(pairs: Seq<(Seq<char>, Seq<char>)>) -> Seq<Seq<u8>> {
    Seq::new(pairs.len(), |i: int| spec_entry_enc(pairs[i].0, spec_cbor_text(pairs[i].1)))
}

/// Encoding of a map from text to text.
pub open spec fn spec_text_map(pairs: Seq<(Seq<char>, Seq<char>)>) -> Seq<u8> {
    spec_encode_map_from_encs(spec_text_map_entry_encs(pairs))
}

/// Appends the encoding of a map from text to text.
#[verifier::loop_isolation(false)]
pub fn cbor_text_map(pairs: &Vec<(String, String)>, out: &mut Vec<u8>)
    ensures
        final(out)@ == old(out)@ + spec_text_map(pairs.deep_view()),
{
    let ghost pv = pairs.deep_view();
    proof {
        assert forall|k: int| 0 <= k < pairs@.len() implies pv[k] == (
        pairs@[k].0@,
        pairs@[k].1@,
        ) by {
            assert(pairs.deep_view()[k] == pairs@[k].deep_view());
        }
    }
    let mut encs: Vec<Vec<u8>> = Vec::new();
    let mut i: usize = 0;
    while i < pairs.len()
        invariant
            i <= pairs.len(),
            encs.deep_view() =~= spec_text_map_entry_encs(pv).take(i as int),
        decreases pairs.len() - i,
    {
        let mut e: Vec<u8> = Vec::new();
        cbor_text(pairs[i].0.as_str(), &mut e);
        cbor_text(pairs[i].1.as_str(), &mut e);
        proof {
            assert(e@ == spec_entry_enc(pv[i as int].0, spec_cbor_text(pv[i as int].1)));
        }
        push_enc(&mut encs, e);
        proof {
            assert(encs.deep_view() =~= spec_text_map_entry_encs(pv).take(i as int + 1));
        }
        i = i + 1;
    }
    proof {
        assert(spec_text_map_entry_encs(pv).take(pv.len() as int) =~= spec_text_map_entry_encs(
            pv,
        ));
    }
    cbor_map_from_encs(encs, out);
}

/// Encoding of one service record: a two-entry map of its type and endpoint.
pub open spec fn spec_service_enc(s: ServiceV) -> Seq<u8> {
    spec_encode_map_from_encs(
        seq![
            spec_entry_enc("type"@, spec_cbor_text(s.service_type)),
            spec_entry_enc("endpoint"@, spec_cbor_text(s.endpoint)),
        ],
    )
}

/// Appends the encoding of one service record.
pub fn cbor_service(s: &Service, out: &mut Vec<u8>)
    ensures
        final(out)@ == old(out)@ + spec_service_enc(s@),
{
    let mut encs: Vec<Vec<u8>> = Vec::new();
    let mut e: Vec<u8> = Vec::new();
    cbor_text("type", &mut e);
    cbor_text(s.service_type.as_str(), &mut e);
    push_enc(&mut encs, e);
    let mut e: Vec<u8> = Vec::new();
    cbor_text("endpoint", &mut e);
    cbor_text(s.endpoint.as_str(), &mut e);
    push_enc(&mut encs, e);
    proof {
        assert(encs.deep_view() =~= seq![
            spec_entry_enc("type"@, spec_cbor_text(s@.service_type)),
            spec_entry_enc("endpoint"@, spec_cbor_text(s@.endpoint)),
        ]);
    }
    cbor_map_from_encs(encs, out);
}

/// Per-entry encodings of the services map.
pub open spec fn spec_services_entry_encs(pairs: Seq<(Seq<char>, ServiceV)>) -> Seq<Seq<u8>> {
    Seq::new(pairs.len(), |i: int| spec_entry_enc(pairs[i].0, spec_service_enc(pairs[i].1)))
}

/// Encoding of the services map.
pub open spec fn spec_services_map(pairs: Seq<(Seq<char>, ServiceV)>) -> Seq<u8> {
    spec_encode_map_from_encs(spec_services_entry_encs(pairs))
}

/// Appends the encoding of the services map.
#[verifier::loop_isolation(false)]
pub fn cbor_services_map(pairs: &Vec<(String, Service)>, out: &mut Vec<u8>)
    ensures
        final(out)@ == old(out)@ + spec_services_map(pairs.deep_view()),
{
    let ghost pv = pairs.deep_view();
    proof {
        assert forall|k: int| 0 <= k < pairs@.len() implies pv[k] == (
        pairs@[k].0@,
        pairs@[k].1@,
        ) by {
            assert(pairs.deep_view()[k] == pairs@[k].deep_view());
        }
    }
    let mut encs: Vec<Vec<u8>> = Vec::new();
    let mut i: usize = 0;
    while i < pairs.len()
        invariant
            i <= pairs.len(),
            encs.deep_view() =~= spec_services_entry_encs(pv).take(i as int),
        decreases pairs.len() - i,
    {
        let mut e: Vec<u8> = Vec::new();
        cbor_text(pairs[i].0.as_str(), &mut e);
        cbor_service(&pairs[i].1, &mut e);
        proof {
            assert(e@ == spec_entry_enc(pv[i as int].0, spec_service_enc(pv[i as int].1)));
        }
        push_enc(&mut encs, e);
        proof {
            assert(encs.deep_view() =~= spec_services_entry_encs(pv).take(i as int + 1));
        }
        i = i + 1;
    }
    proof {
        assert(spec_services_entry_encs(pv).take(pv.len() as int) =~= spec_services_entry_encs(
            pv,
        ));
    }
    cbor_map_from_encs(encs, out);
}

/// Encoding of an optional CID reference: its text, or null when absent.
pub open spec fn spec_opt_text_enc(o: Option<Seq<char>>) -> Seq<u8> {
    match o {
        Some(s) => spec_cbor_text(s),
        None => spec_cbor_null(),
    }
}

/// Per-entry encodings of the fields this crate does not recognize.
pub open spec fn spec_extra_entry_encs(extra: Seq<(Seq<char>, CborValueV)>) -> Seq<Seq<u8>> {
    Seq::new(extra.len(), |i: int| spec_entry_enc(extra[i].0, spec_encode_value(extra[i].1)))
}

/// The map entries of an unsigned operation, in the order they are named
/// here; the map encoding sorts them canonically.
pub open spec fn spec_op_entry_encs(op: OperationV) -> Seq<Seq<u8>> {
    match op {
        OperationV::Change(c) => seq![
            spec_entry_enc("type"@, spec_cbor_text("plc_operation"@)),
            spec_entry_enc("rotationKeys"@, spec_text_array(c.data.rotation_keys)),
            spec_entry_enc("verificationMethods"@, spec_text_map(c.data.verification_methods)),
            spec_entry_enc("alsoKnownAs"@, spec_text_array(c.data.also_known_as)),
            spec_entry_enc("services"@, spec_services_map(c.data.services)),
            spec_entry_enc("prev"@, spec_opt_text_enc(c.prev)),
        ] + spec_extra_entry_encs(c.extra_fields),
        OperationV::Tombstone(t) => seq![
            spec_entry_enc("type"@, spec_cbor_text("plc_tombstone"@)),
            spec_entry_enc("prev"@, spec_cbor_text(t.prev)),
        ],
        OperationV::LegacyCreate(l) => seq![
            spec_entry_enc("type"@, spec_cbor_text("create"@)),
            spec_entry_enc("signingKey"@, spec_cbor_text(l.signing_key)),
            spec_entry_enc("recoveryKey"@, spec_cbor_text(l.recovery_key)),
            spec_entry_enc("handle"@, spec_cbor_text(l.handle)),
            spec_entry_enc("service"@, spec_cbor_text(l.service)),
            spec_entry_enc("prev"@, spec_cbor_null()),
        ],
    }
}

/// The canonical bytes of an unsigned operation.
pub open spec fn spec_unsigned_bytes(op: OperationV) -> Seq<u8> {
    spec_encode_map_from_encs(spec_op_entry_encs(op))
}

/// The canonical bytes of a signed operation: the same map with `sig` added.
pub open spec fn spec_signed_bytes(s: SignedOperationV) -> Seq<u8> {
    spec_encode_map_from_encs(
        spec_op_entry_encs(s.content).push(spec_entry_enc("sig"@, spec_cbor_text(s.sig))),
    )
}

/// The CID of a signed operation, in text form.
pub open spec fn spec_op_cid(s: SignedOperationV) -> Seq<char> {
    spec_cid_str(spec_signed_bytes(s))
}

/// Builds the per-entry encodings of an unsigned operation.
#[verifier::loop_isolation(false)]
#[verifier::rlimit(100)]
fn op_entry_encs(content: &Operation) -> (r: Vec<Vec<u8>>)
    ensures
        r.deep_view() == spec_op_entry_encs(content@),
{
    let mut encs: Vec<Vec<u8>> = Vec::new();
    match content {
        Operation::Change(c) => {
            let ghost cv = c@;
            let mut e: Vec<u8> = Vec::new();
            cbor_text("type", &mut e);
            cbor_text("plc_operation", &mut e);
            push_enc(&mut encs, e);
            let mut e: Vec<u8> = Vec::new();
            cbor_text("rotationKeys", &mut e);
            cbor_text_array(&c.data.rotation_keys, &mut e);
            push_enc(&mut encs, e);
            let mut e: Vec<u8> = Vec::new();
            cbor_text("verificationMethods", &mut e);
            cbor_text_map(&c.data.verification_methods, &mut e);
            push_enc(&mut encs, e);
            let mut e: Vec<u8> = Vec::new();
            cbor_text("alsoKnownAs", &mut e);
            cbor_text_array(&c.data.also_known_as, &mut e);
            push_enc(&mut encs, e);
            let mut e: Vec<u8> = Vec::new();
            cbor_text("services", &mut e);
            cbor_services_map(&c.data.services, &mut e);
            push_enc(&mut encs, e);
            let mut e: Vec<u8> = Vec::new();
            cbor_text("prev", &mut e);
            match &c.prev {
                Some(p) => {
                    cbor_text(p.as_str(), &mut e);
                },
                None => {
                    e.push(0xf6);
                    proof {
                        assert(e@ =~= spec_cbor_text("prev"@) + spec_cbor_null());
                    }
                },
            }
            push_enc(&mut encs, e);
            let ghost base = seq![
                spec_entry_enc("type"@, spec_cbor_text("plc_operation"@)),
                spec_entry_enc("rotationKeys"@, spec_text_array(cv.data.rotation_keys)),
                spec_entry_enc("verificationMethods"@, spec_text_map(cv.data.verification_methods)),
                spec_entry_enc("alsoKnownAs"@, spec_text_array(cv.data.also_known_as)),
                spec_entry_enc("services"@, spec_services_map(cv.data.services)),
                spec_entry_enc("prev"@, spec_opt_text_enc(cv.prev)),
            ];
            proof {
                assert(encs.deep_view() =~= base + spec_extra_entry_encs(cv.extra_fields).take(0));
                assert forall|k: int| 0 <= k < c.extra_fields@.len() implies cv.extra_fields[k] == (
                c.extra_fields@[k].0@,
                c.extra_fields@[k].1.deep_view(),
                ) by {
                    assert(c.extra_fields.deep_view()[k] == c.extra_fields@[k].deep_view());
                }
            }
            let mut i: usize = 0;
            while i < c.extra_fields.len()
                invariant
                    i <= c.extra_fields.len(),
                    encs.deep_view() =~= base + spec_extra_entry_encs(cv.extra_fields).take(
                        i as int,
                    ),
                decreases c.extra_fields.len() - i,
            {
                let mut e: Vec<u8> = Vec::new();
                cbor_text(c.extra_fields[i].0.as_str(), &mut e);
                encode_value(&c.extra_fields[i].1, &mut e);
                proof {
                    assert(e@ == spec_entry_enc(
                        cv.extra_fields[i as int].0,
                        spec_encode_value(cv.extra_fields[i as int].1),
                    ));
                }
                push_enc(&mut encs, e);
                proof {
                    assert(encs.deep_view() =~= base + spec_extra_entry_encs(
                        cv.extra_fields,
                    ).take(i as int + 1));
                }
                i = i + 1;
            }
            proof {
                assert(spec_extra_entry_encs(cv.extra_fields).take(cv.extra_fields.len() as int)
                    =~= spec_extra_entry_encs(cv.extra_fields));
                assert(encs.deep_view() =~= spec_op_entry_encs(content@));
            }
        },
        Operation::Tombstone(t) => {
            let mut e: Vec<u8> = Vec::new();
            cbor_text("type", &mut e);
            cbor_text("plc_tombstone", &mut e);
            push_enc(&mut encs, e);
            let mut e: Vec<u8> = Vec::new();
            cbor_text("prev", &mut e);
            cbor_text(t.prev.as_str(), &mut e);
            push_enc(&mut encs, e);
            proof {
                assert(encs.deep_view() =~= spec_op_entry_encs(content@));
            }
        },
        Operation::LegacyCreate(l) => {
            let mut e: Vec<u8> = Vec::new();
            cbor_text("type", &mut e);
            cbor_text("create", &mut e);
            push_enc(&mut encs, e);
            let mut e: Vec<u8> = Vec::new();
            cbor_text("signingKey", &mut e);
            cbor_text(l.signing_key.as_str(), &mut e);
            push_enc(&mut encs, e);
            let mut e: Vec<u8> = Vec::new();
            cbor_text("recoveryKey", &mut e);
            cbor_text(l.recovery_key.as_str(), &mut e);
            push_enc(&mut encs, e);
            let mut e: Vec<u8> = Vec::new();
            cbor_text("handle", &mut e);
            cbor_text(l.handle.as_str(), &mut e);
            push_enc(&mut encs, e);
            let mut e: Vec<u8> = Vec::new();
            cbor_text("service", &mut e);
            cbor_text(l.service.as_str(), &mut e);
            push_enc(&mut encs, e);
            let mut e: Vec<u8> = Vec::new();
            cbor_text("prev", &mut e);
            e.push(0xf6);
            proof {
                assert(e@ =~= spec_cbor_text("prev"@) + spec_cbor_null());
            }
            push_enc(&mut encs, e);
            proof {
                assert(encs.deep_view() =~= spec_op_entry_encs(content@));
            }
        },
    }
    encs
}

impl Operation {
    /// The canonical bytes that are signed: the operation without `sig`.
    pub fn unsigned_bytes(&self) -> (r: Vec<u8>)
        ensures
            r@ == spec_unsigned_bytes(self@),
    {
        let encs = op_entry_encs(self);
        let mut out: Vec<u8> = Vec::new();
        cbor_map_from_encs(encs, &mut out);
        out
    }
}

impl SignedOperation {
    /// The canonical bytes that are signed: the operation without `sig`.
    pub fn unsigned_bytes(&self) -> (r: Vec<u8>)
        ensures
            r@ == spec_unsigned_bytes(self@.content),
    {
        self.content.unsigned_bytes()
    }

    /// The canonical bytes that the CID covers: the operation with `sig`.
    pub fn signed_bytes(&self) -> (r: Vec<u8>)
        ensures
            r@ == spec_signed_bytes(self@),
    {
        let mut encs = op_entry_encs(&self.content);
        let mut e: Vec<u8> = Vec::new();
        cbor_text("sig", &mut e);
        cbor_text(self.sig.as_str(), &mut e);
        push_enc(&mut encs, e);
        let mut out: Vec<u8> = Vec::new();
        cbor_map_from_encs(encs, &mut out);
        out
    }

    /// Computes the CID for this operation, in its text form.
    ///
    /// This is what `prev` references of later operations hold.
    pub fn cid(&self) -> (r: String)
        ensures
            r@ == spec_op_cid(self@),
    {
        let signed = self.signed_bytes();
        cid_str(&signed)
    }
}

// ---------------------------------------------------------------------------
// Projections
// ---------------------------------------------------------------------------

/// The identity state a legacy creation projects to.
pub open spec fn spec_legacy_plc_data(l: LegacyCreateOpV) -> PlcDataV {
    PlcDataV {
        rotation_keys: seq![l.recovery_key, l.signing_key],
        verification_methods: seq![("atproto"@, l.signing_key)],
        also_known_as: seq!["at://"@ + l.handle],
        services: seq![
            (
                "atproto_pds"@,
                ServiceV { service_type: "AtprotoPersonalDataServer"@, endpoint: l.service },
            ),
        ],
    }
}

impl LegacyCreateOp {
    /// The rotation keys of a legacy creation: recovery key first, then the
    /// signing key.
    pub fn rotation_keys(&self) -> (r: Vec<String>)
        ensures
            r.deep_view() =~= seq![self@.recovery_key, self@.signing_key],
    {
        let mut r: Vec<String> = Vec::new();
        r.push(self.recovery_key.clone());
        r.push(self.signing_key.clone());
        proof {
            assert forall|k: int| 0 <= k < r@.len() implies r.deep_view()[k] == r@[k]@ by {
                assert(r.deep_view()[k] == r@[k].deep_view());
            }
        }
        r
    }

    /// Projects this legacy creation to the identity state it defines.
    pub fn into_plc_data(self) -> (r: PlcData)
        ensures
            r@ =~~= spec_legacy_plc_data(self@),
    {
        let mut rotation_keys: Vec<String> = Vec::new();
        rotation_keys.push(self.recovery_key);
        rotation_keys.push(self.signing_key.clone());
        let mut verification_methods: Vec<(String, String)> = Vec::new();
        verification_methods.push((String::from_str("atproto"), self.signing_key));
        let mut also_known_as: Vec<String> = Vec::new();
        also_known_as.push(String::from_str("at://").concat(self.handle.as_str()));
        let mut services: Vec<(String, Service)> = Vec::new();
        services.push(
            (
                String::from_str("atproto_pds"),
                Service {
                    service_type: String::from_str("AtprotoPersonalDataServer"),
                    endpoint: self.service,
                },
            ),
        );
        let r = PlcData { rotation_keys, verification_methods, also_known_as, services };
        proof {
            assert forall|k: int| 0 <= k < r.rotation_keys@.len() implies r.rotation_keys.deep_view()[k]
                == r.rotation_keys@[k]@ by {
                assert(r.rotation_keys.deep_view()[k] == r.rotation_keys@[k].deep_view());
            }
            assert forall|k: int| 0 <= k < r.verification_methods@.len()
                implies r.verification_methods.deep_view()[k] == (
                r.verification_methods@[k].0@,
                r.verification_methods@[k].1@,
            ) by {
                assert(r.verification_methods.deep_view()[k]
                    == r.verification_methods@[k].deep_view());
            }
            assert forall|k: int| 0 <= k < r.also_known_as@.len() implies r.also_known_as.deep_view()[k]
                == r.also_known_as@[k]@ by {
                assert(r.also_known_as.deep_view()[k] == r.also_known_as@[k].deep_view());
            }
            assert forall|k: int| 0 <= k < r.services@.len() implies r.services.deep_view()[k] == (
            r.services@[k].0@,
            r.services@[k].1@,
            ) by {
                assert(r.services.deep_view()[k] == r.services@[k].deep_view());
            }
        }
        r
    }
}

impl ChangeOp {
    /// The rotation keys this change declares, in authority order.
    pub fn rotation_keys(&self) -> (r: &Vec<String>)
        ensures
            r.deep_view() == self@.data.rotation_keys,
    {
        &self.data.rotation_keys
    }
}

/// The rotation keys an operation declares, in authority order: the data's
/// keys of a change, recovery key then signing key of a legacy creation.
pub open spec fn spec_rotation_keys(op: OperationV) -> Seq<Seq<char>> {
    match op {
        OperationV::Change(c) => c.data.rotation_keys,
        OperationV::LegacyCreate(l) => seq![l.recovery_key, l.signing_key],
        OperationV::Tombstone(_) => Seq::empty(),
    }
}

/// The identity state that an entry's operation carries, for entries that
/// are not tombstones.
pub open spec fn spec_op_state_data(op: OperationV) -> PlcDataV
    recommends
        !(op is Tombstone),
{
    match op {
        OperationV::Change(c) => c.data,
        OperationV::LegacyCreate(l) => spec_legacy_plc_data(l),
        OperationV::Tombstone(_) => PlcDataV {
            rotation_keys: Seq::empty(),
            verification_methods: Seq::empty(),
            also_known_as: Seq::empty(),
            services: Seq::empty(),
        },
    }
}

impl LogEntry {
    /// The identity state as of this entry: its operation's state, or
    /// nothing for a tombstone.
    pub fn into_state(self) -> (r: Option<State>)
        ensures
            r is None <==> self@.operation.content is Tombstone,
            r matches Some(s) ==> s@.did == self@.did && s@.plc =~~= spec_op_state_data(
                self@.operation.content,
            ),
    {
        match self.operation.content {
            Operation::Change(op) => Some(State { did: self.did, plc: op.data }),
            Operation::Tombstone(_) => None,
            Operation::LegacyCreate(op) => Some(
                State { did: self.did, plc: op.into_plc_data() },
            ),
        }
    }
}


// ---------------------------------------------------------------------------
// The operations log as the registry's `/log` route serves it
// ---------------------------------------------------------------------------

/// The chain without its trailing tombstone, if it ends in one.
pub open spec fn spec_log_core(ops: Seq<SignedOperationV>) -> Seq<SignedOperationV> {
    if ops.len() > 0 && ops.last().content is Tombstone {
        ops.drop_last()
    } else {
        ops
    }
}

/// The state a well-formed genesis operation establishes, if it is one.
pub open spec fn spec_genesis_data(op: OperationV) -> Option<PlcDataV> {
    match op {
        OperationV::Change(c) => if c.prev is None {
            Some(c.data)
        } else {
            None
        },
        OperationV::LegacyCreate(l) => Some(spec_legacy_plc_data(l)),
        OperationV::Tombstone(_) => None,
    }
}

/// Whether a served operations log is well-formed: a genesis operation,
/// then only linked changes, with at most a trailing tombstone.
pub open spec fn spec_ops_log_ok(ops: Seq<SignedOperationV>) -> bool {
    let core = spec_log_core(ops);
    &&& core.len() > 0
    &&& spec_genesis_data(core[0].content) is Some
    &&& forall|i: int|
        1 <= i < core.len() ==> ((#[trigger] core[i].content) matches OperationV::Change(c)
            && c.prev is Some)
}

/// An operations log digested into the initial state, the successive states
/// of each update, and whether the identity was deactivated.
#[derive(Debug)]
pub struct OperationsLog {
    pub create: PlcData,
    pub updates: Vec<PlcData>,
    pub deactivated: bool,
}

impl OperationsLog {
    /// Digests a served operations log, rejecting one that is not a genesis
    /// operation followed by linked changes (with at most a trailing
    /// tombstone).
    #[verifier::loop_isolation(false)]
    pub fn new(ops: Vec<SignedOperation>) -> (r: Result<OperationsLog, Error>)
        ensures
            r is Ok <==> spec_ops_log_ok(ops.deep_view()),
            r matches Ok(l) ==> ({
                let core = spec_log_core(ops.deep_view());
                &&& l.deactivated == (ops.deep_view().len() > core.len())
                &&& l.create@ == spec_genesis_data(core[0].content)->0
                &&& l.updates.deep_view().len() == core.len() - 1
                &&& forall|i: int|
                    0 <= i < core.len() - 1 ==> l.updates.deep_view()[i] == (
                    #[trigger] core[i + 1].content)->Change_0.data
            }),
            r matches Err(e) ==> e == Error::PlcDirectoryReturnedInvalidOperationLog,
    {
        let ghost ov = ops.deep_view();
        proof {
            assert forall|k: int| 0 <= k < ops@.len() implies ov[k] == ops@[k]@ by {
                assert(ops.deep_view()[k] == ops@[k].deep_view());
            }
        }
        let n = ops.len();
        let deactivated: bool = if n > 0 {
            match &ops[n - 1].content {
                Operation::Tombstone(_) => true,
                _ => false,
            }
        } else {
            false
        };
        let core_len = if deactivated {
            n - 1
        } else {
            n
        };
        let ghost core = spec_log_core(ov);
        proof {
            assert(core.len() == core_len);
            assert forall|k: int| 0 <= k < core.len() implies core[k] == ov[k] by {}
        }
        if core_len == 0 {
            return Err(Error::PlcDirectoryReturnedInvalidOperationLog);
        }
        let create: PlcData = match &ops[0].content {
            Operation::Change(c) => {
                if c.prev.is_some() {
                    return Err(Error::PlcDirectoryReturnedInvalidOperationLog);
                }
                c.data.clone_data()
            },
            Operation::LegacyCreate(l) => {
                let copy = LegacyCreateOp {
                    signing_key: l.signing_key.clone(),
                    recovery_key: l.recovery_key.clone(),
                    handle: l.handle.clone(),
                    service: l.service.clone(),
                };
                copy.into_plc_data()
            },
            Operation::Tombstone(_) => {
                return Err(Error::PlcDirectoryReturnedInvalidOperationLog);
            },
        };
        let mut updates: Vec<PlcData> = Vec::new();
        let mut i: usize = 1;
        while i < core_len
            invariant
                1 <= i <= core_len,
                core_len == core.len(),
                core_len <= ops@.len(),
                updates.deep_view().len() == i - 1,
                forall|k: int|
                    1 <= k < i ==> ((#[trigger] core[k].content) matches OperationV::Change(c)
                        && c.prev is Some),
                forall|k: int|
                    0 <= k < i - 1 ==> updates.deep_view()[k] == (
                    #[trigger] core[k + 1].content)->Change_0.data,
            decreases core_len - i,
        {
            match &ops[i].content {
                Operation::Change(c) => {
                    if c.prev.is_none() {
                        proof {
                            assert(core[i as int].content == OperationV::Change(c@));
                            assert(!((core[i as int].content) matches OperationV::Change(cc)
                                && cc.prev is Some));
                            assert(!spec_ops_log_ok(ov));
                        }
                        return Err(Error::PlcDirectoryReturnedInvalidOperationLog);
                    }
                    crate::codec::push_deep(&mut updates, c.data.clone_data());
                },
                Operation::Tombstone(t) => {
                    proof {
                        assert(core[i as int].content == OperationV::Tombstone(t@));
                        assert(!((core[i as int].content) matches OperationV::Change(cc)
                            && cc.prev is Some));
                        assert(!spec_ops_log_ok(ov));
                    }
                    return Err(Error::PlcDirectoryReturnedInvalidOperationLog);
                },
                Operation::LegacyCreate(l) => {
                    proof {
                        assert(core[i as int].content == OperationV::LegacyCreate(l@));
                        assert(!((core[i as int].content) matches OperationV::Change(cc)
                            && cc.prev is Some));
                        assert(!spec_ops_log_ok(ov));
                    }
                    return Err(Error::PlcDirectoryReturnedInvalidOperationLog);
                },
            }
            i = i + 1;
        }
        Ok(OperationsLog { create, updates, deactivated })
    }
}

} // verus!
