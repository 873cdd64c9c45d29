//! Single-pass validation of an ordered audit log: DID derivation, CID
//! integrity, chain linkage, temporal causality, signature trust, the
//! nullification protocol with its 72-hour recovery window, and tombstone
//! terminality. The validator does not short-circuit: it reports every
//! failure it finds, in log order.

use vstd::prelude::*;
use vstd::string::StringExecFns;

use crate::codec::{derive_did, push_deep, spec_derive_did};
use crate::crypto::{decode_sig, did_key_verifies, spec_decoded_sig, verify_did_key};
use crate::op::{LogEntry, LogEntryV, Operation, OperationV};
use crate::op::{spec_op_cid, spec_rotation_keys, spec_signed_bytes, spec_unsigned_bytes};

verus! {

/// Nanoseconds of 2023-11-30T18:50:14Z: before this instant the registry
/// accepted padded base64, DER-encoded and high-S signatures, so entries
/// older than it must still be accepted with those forms, and younger ones
/// must be rejected.
pub const MALLEABILITY_PREVENTED_NANOS: i64 = 1_701_370_214_000_000_000;

/// The recovery window: 72 hours, in nanoseconds. A stronger rotation key
/// may nullify a sibling only this long after the sibling was created.
pub const RECOVERY_WINDOW_NANOS: i64 = 259_200_000_000_000;

/// A failure that auditing a log reports.
#[derive(Debug, Clone, PartialEq, Eq)]
pub enum AuditError {
    AuditLogEmpty,
    EntryCidInvalid { cid: String, actual: String },
    EntryCreatedBeforePrev { cid: String, prev: String },
    EntryDidMismatch { cid: String },
    EntryIncorrectlyActive { cid: String },
    EntryIncorrectlyNullified { cid: String },
    InvalidSignatureEncoding { cid: String },
    GenesisOperationInvalidDid { expected: String, actual: String },
    GenesisOperationNotCreate,
    MultipleActiveChildren { cid: String, first: String },
    NonGenesisCreate { cid: String },
    OperationAfterDeactivation { cid: String, prev: String },
    PrevMissing { prev: String },
    PrevReferencesFuture { cid: String, prev: String },
    TrustViolation { cid: String },
}

/// The mathematical shape of an [`AuditError`].
#[verifier::ext_equal]
pub enum AuditErrorV {
    AuditLogEmpty,
    EntryCidInvalid { cid: Seq<char>, actual: Seq<char> },
    EntryCreatedBeforePrev { cid: Seq<char>, prev: Seq<char> },
    EntryDidMismatch { cid: Seq<char> },
    EntryIncorrectlyActive { cid: Seq<char> },
    EntryIncorrectlyNullified { cid: Seq<char> },
    InvalidSignatureEncoding { cid: Seq<char> },
    GenesisOperationInvalidDid { expected: Seq<char>, actual: Seq<char> },
    GenesisOperationNotCreate,
    MultipleActiveChildren { cid: Seq<char>, first: Seq<char> },
    NonGenesisCreate { cid: Seq<char> },
    OperationAfterDeactivation { cid: Seq<char>, prev: Seq<char> },
    PrevMissing { prev: Seq<char> },
    PrevReferencesFuture { cid: Seq<char>, prev: Seq<char> },
    TrustViolation { cid: Seq<char> },
}

impl View for AuditError {
    type V = AuditErrorV;

    open spec fn view(&self) -> AuditErrorV {
        match self {
            AuditError::AuditLogEmpty => AuditErrorV::AuditLogEmpty,
            AuditError::EntryCidInvalid { cid, actual } => AuditErrorV::EntryCidInvalid {
                cid: cid@,
                actual: actual@,
            },
            AuditError::EntryCreatedBeforePrev { cid, prev } => AuditErrorV::EntryCreatedBeforePrev {
                cid: cid@,
                prev: prev@,
            },
            AuditError::EntryDidMismatch { cid } => AuditErrorV::EntryDidMismatch { cid: cid@ },
            AuditError::EntryIncorrectlyActive { cid } => AuditErrorV::EntryIncorrectlyActive {
                cid: cid@,
            },
            AuditError::EntryIncorrectlyNullified { cid } => AuditErrorV::EntryIncorrectlyNullified {
                cid: cid@,
            },
            AuditError::InvalidSignatureEncoding { cid } => AuditErrorV::InvalidSignatureEncoding {
                cid: cid@,
            },
            AuditError::GenesisOperationInvalidDid { expected, actual } => AuditErrorV::GenesisOperationInvalidDid {
                expected: expected@,
                actual: actual@,
            },
            AuditError::GenesisOperationNotCreate => AuditErrorV::GenesisOperationNotCreate,
            AuditError::MultipleActiveChildren { cid, first } => AuditErrorV::MultipleActiveChildren {
                cid: cid@,
                first: first@,
            },
            AuditError::NonGenesisCreate { cid } => AuditErrorV::NonGenesisCreate { cid: cid@ },
            AuditError::OperationAfterDeactivation { cid, prev } => AuditErrorV::OperationAfterDeactivation {
                cid: cid@,
                prev: prev@,
            },
            AuditError::PrevMissing { prev } => AuditErrorV::PrevMissing { prev: prev@ },
            AuditError::PrevReferencesFuture { cid, prev } => AuditErrorV::PrevReferencesFuture {
                cid: cid@,
                prev: prev@,
            },
            AuditError::TrustViolation { cid } => AuditErrorV::TrustViolation { cid: cid@ },
        }
    }
}

impl DeepView for AuditError {
    type V = AuditErrorV;

    open spec fn deep_view(&self) -> AuditErrorV {
        self.view()
    }
}

/// The one-line rendering of an [`AuditError`].
#[verifier::opaque]
pub open spec fn spec_audit_message(e: AuditErrorV) -> Seq<char> {
    match e {
        AuditErrorV::AuditLogEmpty => "Audit log is empty"@,
        AuditErrorV::EntryCidInvalid { cid, actual } => "Entry "@ + cid + " has actual CID "@
            + actual,
        AuditErrorV::EntryCreatedBeforePrev { cid, prev } => "Entry "@ + cid
            + " has a creation time before its parent "@ + prev,
        AuditErrorV::EntryDidMismatch { cid } => "DID in entry "@ + cid
            + " does not match genesis DID"@,
        AuditErrorV::EntryIncorrectlyActive { cid } => "Entry "@ + cid
            + " should be nullified but is active"@,
        AuditErrorV::EntryIncorrectlyNullified { cid } => "Entry "@ + cid
            + " should be active but is nullified"@,
        AuditErrorV::InvalidSignatureEncoding { cid } => "Signature for entry "@ + cid
            + " has invalid encoding"@,
        AuditErrorV::GenesisOperationInvalidDid { expected, actual } => "Expected "@ + expected
            + " for genesis op, but derived "@ + actual,
        AuditErrorV::GenesisOperationNotCreate =>
            "The genesis operation is not a creation operation"@,
        AuditErrorV::MultipleActiveChildren { cid, first } => "Entry "@ + cid
            + " has the same parent as entry "@ + first,
        AuditErrorV::NonGenesisCreate { cid } => "Entry "@ + cid
            + " is a creation operation after the genesis operation"@,
        AuditErrorV::OperationAfterDeactivation { cid, prev } => "Entry "@ + cid
            + " attempts to chain from tombstone "@ + prev,
        AuditErrorV::PrevMissing { prev } => "Entry "@ + prev + " is missing"@,
        AuditErrorV::PrevReferencesFuture { cid, prev } => "Entry "@ + cid
            + " references future entry "@ + prev,
        AuditErrorV::TrustViolation { cid } => "Signature for entry "@ + cid
            + " is not valid under any permitted rotation key"@,
    }
}

impl AuditError {
    /// Renders this failure as its one human line.
    pub fn message(&self) -> (r: String)
        ensures
            r@ == spec_audit_message(self@),
    {
        proof {
            reveal(spec_audit_message);
        }
        match self {
            AuditError::AuditLogEmpty => String::from_str("Audit log is empty"),
            AuditError::EntryCidInvalid { cid, actual } => String::from_str("Entry ").concat(
                cid.as_str(),
            ).concat(" has actual CID ").concat(actual.as_str()),
            AuditError::EntryCreatedBeforePrev { cid, prev } => String::from_str(
                "Entry ",
            ).concat(cid.as_str()).concat(" has a creation time before its parent ").concat(
                prev.as_str(),
            ),
            AuditError::EntryDidMismatch { cid } => String::from_str("DID in entry ").concat(
                cid.as_str(),
            ).concat(" does not match genesis DID"),
            AuditError::EntryIncorrectlyActive { cid } => String::from_str("Entry ").concat(
                cid.as_str(),
            ).concat(" should be nullified but is active"),
            AuditError::EntryIncorrectlyNullified { cid } => String::from_str("Entry ").concat(
                cid.as_str(),
            ).concat(" should be active but is nullified"),
            AuditError::InvalidSignatureEncoding { cid } => String::from_str(
                "Signature for entry ",
            ).concat(cid.as_str()).concat(" has invalid encoding"),
            AuditError::GenesisOperationInvalidDid { expected, actual } => String::from_str(
                "Expected ",
            ).concat(expected.as_str()).concat(" for genesis op, but derived ").concat(
                actual.as_str(),
            ),
            AuditError::GenesisOperationNotCreate => String::from_str(
                "The genesis operation is not a creation operation",
            ),
            AuditError::MultipleActiveChildren { cid, first } => String::from_str(
                "Entry ",
            ).concat(cid.as_str()).concat(" has the same parent as entry ").concat(
                first.as_str(),
            ),
            AuditError::NonGenesisCreate { cid } => String::from_str("Entry ").concat(
                cid.as_str(),
            ).concat(" is a creation operation after the genesis operation"),
            AuditError::OperationAfterDeactivation { cid, prev } => String::from_str(
                "Entry ",
            ).concat(cid.as_str()).concat(" attempts to chain from tombstone ").concat(
                prev.as_str(),
            ),
            AuditError::PrevMissing { prev } => String::from_str("Entry ").concat(
                prev.as_str(),
            ).concat(" is missing"),
            AuditError::PrevReferencesFuture { cid, prev } => String::from_str("Entry ").concat(
                cid.as_str(),
            ).concat(" references future entry ").concat(prev.as_str()),
            AuditError::TrustViolation { cid } => String::from_str(
                "Signature for entry ",
            ).concat(cid.as_str()).concat(" is not valid under any permitted rotation key"),
        }
    }
}

// ---------------------------------------------------------------------------
// The validation function, mathematically
// ---------------------------------------------------------------------------

/// Whether an entry predates the malleability cutoff.
pub open spec fn spec_malleable(e: LogEntryV) -> bool {
    e.created_at.nanos < MALLEABILITY_PREVENTED_NANOS as int
}

/// The `prev` reference an operation declares, if any.
pub open spec fn spec_prev_ref(op: OperationV) -> Option<Seq<char>> {
    match op {
        OperationV::Change(c) => c.prev,
        OperationV::Tombstone(t) => Some(t.prev),
        OperationV::LegacyCreate(_) => None,
    }
}

/// First position in `[lo, hi)` whose entry claims the given CID.
pub open spec fn spec_find_cid(
    entries: Seq<LogEntryV>,
    lo: int,
    hi: int,
    cid: Seq<char>,
) -> Option<int>
    decreases hi - lo,
{
    if lo >= hi {
        None
    } else if entries[lo].cid == cid {
        Some(lo)
    } else {
        spec_find_cid(entries, lo + 1, hi, cid)
    }
}

/// Where entry `i`'s declared predecessor stands in the log.
pub enum LocatedV {
    Genesis,
    Found(int),
    Future,
    Missing,
}

pub open spec fn spec_locate_prev(entries: Seq<LogEntryV>, i: int) -> LocatedV {
    match spec_prev_ref(entries[i].operation.content) {
        None => LocatedV::Genesis,
        Some(p) => match spec_find_cid(entries, 0, i, p) {
            Some(j) => LocatedV::Found(j),
            None => if spec_find_cid(entries, i, entries.len() as int, p) is Some {
                LocatedV::Future
            } else {
                LocatedV::Missing
            },
        },
    }
}

/// Least authority index whose key verifies the signature, if any.
pub open spec fn spec_first_verifying(
    keys: Seq<Seq<char>>,
    malleable: bool,
    msg: Seq<u8>,
    sig: Seq<u8>,
) -> Option<int>
    decreases keys.len(),
{
    if keys.len() == 0 {
        None
    } else if did_key_verifies(keys[0], malleable, msg, sig) {
        Some(0int)
    } else {
        match spec_first_verifying(keys.drop_first(), malleable, msg, sig) {
            None => None,
            Some(i) => Some(i + 1),
        }
    }
}

/// The signer authority of an entry. When the signature failed to decode no
/// separate trust failure is raised, and the entry counts as signed by the
/// highest authority; otherwise it is the least index that verifies.
pub open spec fn spec_signer_authority(
    keys: Seq<Seq<char>>,
    malleable: bool,
    msg: Seq<u8>,
    sig_opt: Option<Seq<u8>>,
) -> Option<int> {
    match sig_opt {
        None => if keys.len() > 0 {
            Some(0int)
        } else {
            None
        },
        Some(sig) => spec_first_verifying(keys, malleable, msg, sig),
    }
}

/// The errors of the non-contextual entry checks: a wrong CID, then a DID
/// that differs from the log's.
pub open spec fn spec_self_errs(did: Seq<char>, e: LogEntryV) -> Seq<AuditErrorV> {
    let actual = spec_op_cid(e.operation);
    let cid_errs: Seq<AuditErrorV> = if e.cid != actual {
        seq![AuditErrorV::EntryCidInvalid { cid: e.cid, actual }]
    } else {
        Seq::empty()
    };
    let did_errs: Seq<AuditErrorV> = if e.did != did {
        seq![AuditErrorV::EntryDidMismatch { cid: e.cid }]
    } else {
        Seq::empty()
    };
    cid_errs + did_errs
}

/// The rotation keys that govern entry `i` given its located predecessor:
/// its own for a genesis entry, the predecessor's otherwise.
pub open spec fn spec_governing_keys(entries: Seq<LogEntryV>, i: int, prev: Option<int>) -> Seq<
    Seq<char>,
> {
    match prev {
        None => spec_rotation_keys(entries[i].operation.content),
        Some(p) => spec_rotation_keys(entries[p].operation.content),
    }
}

/// The signer authority of entry `i` given its located predecessor; unknown
/// when no governing key verifies, or when the predecessor is a tombstone.
pub open spec fn spec_authority_of(entries: Seq<LogEntryV>, i: int, prev: Option<int>) -> Option<
    int,
> {
    let e = entries[i];
    let m = spec_malleable(e);
    let dec = spec_decoded_sig(e.operation.sig, m);
    let msg = spec_unsigned_bytes(e.operation.content);
    match prev {
        Some(p) => if entries[p].operation.content is Tombstone {
            None
        } else {
            spec_signer_authority(spec_governing_keys(entries, i, prev), m, msg, dec)
        },
        None => spec_signer_authority(spec_governing_keys(entries, i, prev), m, msg, dec),
    }
}

/// The errors of checking entry `i` against its located predecessor, in the
/// order they are found: signature encoding, then signature trust (or an
/// operation chained onto a tombstone), then temporal causality.
pub open spec fn spec_prev_errs(entries: Seq<LogEntryV>, i: int, prev: Option<int>) -> Seq<
    AuditErrorV,
> {
    let e = entries[i];
    let m = spec_malleable(e);
    let dec = spec_decoded_sig(e.operation.sig, m);
    let enc_errs: Seq<AuditErrorV> = if dec is None {
        seq![AuditErrorV::InvalidSignatureEncoding { cid: e.cid }]
    } else {
        Seq::empty()
    };
    let trust_errs: Seq<AuditErrorV> = match prev {
        Some(p) => if entries[p].operation.content is Tombstone {
            seq![AuditErrorV::OperationAfterDeactivation { cid: e.cid, prev: entries[p].cid }]
        } else if spec_authority_of(entries, i, prev) is None {
            seq![AuditErrorV::TrustViolation { cid: e.cid }]
        } else {
            Seq::empty()
        },
        None => if spec_authority_of(entries, i, prev) is None {
            seq![AuditErrorV::TrustViolation { cid: e.cid }]
        } else {
            Seq::empty()
        },
    };
    let time_errs: Seq<AuditErrorV> = match prev {
        Some(p) => if e.created_at.nanos < entries[p].created_at.nanos {
            seq![AuditErrorV::EntryCreatedBeforePrev { cid: e.cid, prev: entries[p].cid }]
        } else {
            Seq::empty()
        },
        None => Seq::empty(),
    };
    enc_errs + trust_errs + time_errs
}

/// Whether entry `i` legally nullifies its earlier sibling `j`: it must fall
/// within the recovery window of `j`, and be signed with strictly higher
/// authority. An entry of unknown authority nullifies nothing; an entry of
/// known authority is assumed to out-rank a sibling of unknown authority.
pub open spec fn spec_nullifies(
    entries: Seq<LogEntryV>,
    i: int,
    auth: Option<int>,
    j: int,
    jauth: Option<int>,
) -> bool {
    let in_time = entries[i].created_at.nanos <= entries[j].created_at.nanos
        + RECOVERY_WINDOW_NANOS as int;
    let higher = match (auth, jauth) {
        (Some(a), Some(b)) => a < b,
        (None, _) => false,
        (Some(_), None) => true,
    };
    in_time && higher
}

/// The bookkeeping per parent: its active child, and the nullified children
/// whose nullification is not yet justified.
#[verifier::ext_equal]
pub struct SlotV {
    pub active: Option<(int, Option<int>)>,
    pub nullified: Seq<(int, Option<int>)>,
}

pub open spec fn spec_empty_slots(n: nat) -> Seq<SlotV> {
    Seq::new(n, |k: int| SlotV { active: None, nullified: Seq::empty() })
}

/// The pending nullified children that entry `i` does not justify; those it
/// does justify are discharged.
pub open spec fn spec_survivors(
    entries: Seq<LogEntryV>,
    i: int,
    auth: Option<int>,
    lst: Seq<(int, Option<int>)>,
) -> Seq<(int, Option<int>)>
    decreases lst.len(),
{
    if lst.len() == 0 {
        Seq::empty()
    } else {
        let head: Seq<(int, Option<int>)> = if spec_nullifies(
            entries,
            i,
            auth,
            lst[0].0,
            lst[0].1,
        ) {
            Seq::empty()
        } else {
            seq![lst[0]]
        };
        head + spec_survivors(entries, i, auth, lst.drop_first())
    }
}

/// The graph bookkeeping for one entry `i` with located parent `p`, and the
/// errors it raises, in order.
pub open spec fn spec_graph_step(entries: Seq<LogEntryV>, i: int, p: int, slot: SlotV) -> (
    Seq<AuditErrorV>,
    SlotV,
) {
    let e = entries[i];
    let auth = spec_authority_of(entries, i, Some(p));
    if e.nullified {
        if !entries[p].nullified {
            if slot.active is Some {
                (seq![AuditErrorV::EntryIncorrectlyNullified { cid: e.cid }], slot)
            } else {
                (
                    Seq::empty(),
                    SlotV { active: slot.active, nullified: slot.nullified.push((i, auth)) },
                )
            }
        } else {
            (Seq::empty(), slot)
        }
    } else if entries[p].nullified {
        (seq![AuditErrorV::EntryIncorrectlyActive { cid: e.cid }], slot)
    } else {
        match slot.active {
            Some((j, jauth)) => if spec_nullifies(entries, i, auth, j, jauth) {
                (
                    seq![AuditErrorV::EntryIncorrectlyActive { cid: entries[j].cid }],
                    SlotV { active: Some((i, auth)), nullified: slot.nullified },
                )
            } else {
                (
                    seq![AuditErrorV::MultipleActiveChildren { cid: e.cid, first: entries[j].cid }],
                    slot,
                )
            },
            None => {
                let remaining = spec_survivors(entries, i, auth, slot.nullified);
                let errs: Seq<AuditErrorV> = if remaining.len() > 0 {
                    seq![AuditErrorV::EntryIncorrectlyActive { cid: e.cid }]
                } else {
                    Seq::empty()
                };
                (errs, SlotV { active: Some((i, auth)), nullified: remaining })
            },
        }
    }
}

/// Everything the validator does for entry `i`: the non-contextual checks,
/// locating the predecessor, the predecessor checks, and the graph
/// bookkeeping.
pub open spec fn spec_step(did: Seq<char>, entries: Seq<LogEntryV>, i: int, slots: Seq<SlotV>) -> (
    Seq<AuditErrorV>,
    Seq<SlotV>,
) {
    let e = entries[i];
    let self_errs = spec_self_errs(did, e);
    match spec_locate_prev(entries, i) {
        LocatedV::Future => (
            self_errs + seq![
                AuditErrorV::PrevReferencesFuture {
                    cid: e.cid,
                    prev: spec_prev_ref(e.operation.content)->0,
                },
            ],
            slots,
        ),
        LocatedV::Missing => (
            self_errs + seq![AuditErrorV::PrevMissing { prev: spec_prev_ref(e.operation.content)->0 }],
            slots,
        ),
        LocatedV::Genesis => {
            let not_first: Seq<AuditErrorV> = if i != 0 {
                seq![AuditErrorV::NonGenesisCreate { cid: e.cid }]
            } else {
                Seq::empty()
            };
            let gen_nullified: Seq<AuditErrorV> = if e.nullified {
                seq![AuditErrorV::EntryIncorrectlyNullified { cid: e.cid }]
            } else {
                Seq::empty()
            };
            (self_errs + spec_prev_errs(entries, i, None) + not_first + gen_nullified, slots)
        },
        LocatedV::Found(p) => {
            let g = spec_graph_step(entries, i, p, slots[p]);
            (self_errs + spec_prev_errs(entries, i, Some(p)) + g.0, slots.update(p, g.1))
        },
    }
}

/// The fold of [`spec_step`] over the first `i` entries.
pub open spec fn spec_scan(did: Seq<char>, entries: Seq<LogEntryV>, i: int) -> (
    Seq<AuditErrorV>,
    Seq<SlotV>,
)
    decreases i,
{
    if i <= 0 {
        (Seq::empty(), spec_empty_slots(entries.len()))
    } else {
        let prior = spec_scan(did, entries, i - 1);
        let step = spec_step(did, entries, i - 1, prior.1);
        (prior.0 + step.0, step.1)
    }
}

/// The genesis checks: an empty log, a genesis operation of the wrong kind,
/// or a genesis operation that does not derive the log's DID.
pub open spec fn spec_genesis_errs(did: Seq<char>, entries: Seq<LogEntryV>) -> Seq<AuditErrorV> {
    if entries.len() == 0 {
        seq![AuditErrorV::AuditLogEmpty]
    } else {
        let e = entries[0];
        match e.operation.content {
            OperationV::Change(c) => if c.prev is None {
                spec_genesis_did_errs(did, e)
            } else {
                seq![AuditErrorV::GenesisOperationNotCreate]
            },
            OperationV::LegacyCreate(_) => spec_genesis_did_errs(did, e),
            OperationV::Tombstone(_) => seq![AuditErrorV::GenesisOperationNotCreate],
        }
    }
}

pub open spec fn spec_genesis_did_errs(did: Seq<char>, e: LogEntryV) -> Seq<AuditErrorV> {
    let derived = spec_derive_did(spec_signed_bytes(e.operation));
    if derived != did {
        seq![AuditErrorV::GenesisOperationInvalidDid { expected: did, actual: derived }]
    } else {
        Seq::empty()
    }
}

/// The settlement over the first `i` slots: every nullified child still
/// pending when the log ends was incorrectly nullified.
pub open spec fn spec_settlement_upto(
    entries: Seq<LogEntryV>,
    slots: Seq<SlotV>,
    i: int,
) -> Seq<AuditErrorV>
    decreases i,
{
    if i <= 0 {
        Seq::empty()
    } else {
        spec_settlement_upto(entries, slots, i - 1) + spec_slot_settlement(entries, slots[i - 1])
    }
}

pub open spec fn spec_slot_settlement(entries: Seq<LogEntryV>, slot: SlotV) -> Seq<AuditErrorV> {
    Seq::new(
        slot.nullified.len(),
        |k: int| AuditErrorV::EntryIncorrectlyNullified { cid: entries[slot.nullified[k].0].cid },
    )
}

/// Every error that validating the log against the claimed DID reports, in
/// the order the validator finds them.
pub open spec fn spec_validate(did: Seq<char>, entries: Seq<LogEntryV>) -> Seq<AuditErrorV> {
    let scan = spec_scan(did, entries, entries.len() as int);
    spec_genesis_errs(did, entries) + scan.0 + spec_settlement_upto(
        entries,
        scan.1,
        scan.1.len() as int,
    )
}

// ---------------------------------------------------------------------------
// The validator
// ---------------------------------------------------------------------------

/// Per-parent bookkeeping while scanning: the active child and the pending
/// nullified children, each with its signer authority.
pub struct Slot {
    pub active: Option<(usize, Option<usize>)>,
    pub nullified: Vec<(usize, Option<usize>)>,
}

pub open spec fn opt_view(o: Option<usize>) -> Option<int> {
    match o {
        Some(a) => Some(a as int),
        None => None,
    }
}

pub open spec fn child_view(p: (usize, Option<usize>)) -> (int, Option<int>) {
    (p.0 as int, opt_view(p.1))
}

pub open spec fn children_view(v: Seq<(usize, Option<usize>)>) -> Seq<(int, Option<int>)> {
    Seq::new(v.len(), |k: int| child_view(v[k]))
}

pub open spec fn slot_view(s: Slot) -> SlotV {
    SlotV {
        active: match s.active {
            Some(a) => Some(child_view(a)),
            None => None,
        },
        nullified: children_view(s.nullified@),
    }
}

pub open spec fn slots_view(v: Seq<Slot>) -> Seq<SlotV> {
    Seq::new(v.len(), |k: int| slot_view(v[k]))
}

pub open spec fn slot_wf(s: Slot, n: int) -> bool {
    &&& match s.active {
        Some((j, _)) => j < n,
        None => true,
    }
    &&& forall|k: int| 0 <= k < s.nullified@.len() ==> (#[trigger] s.nullified@[k]).0 < n
}

pub open spec fn slots_wf(v: Seq<Slot>, n: int) -> bool {
    forall|k: int| 0 <= k < v.len() ==> slot_wf(#[trigger] v[k], n)
}

proof fn lemma_entries_deep(entries: &Vec<LogEntry>)
    ensures
        entries.deep_view().len() == entries@.len(),
        forall|k: int| 0 <= k < entries@.len() ==> entries.deep_view()[k] == entries@[k]@,
{
    assert forall|k: int| 0 <= k < entries@.len() implies entries.deep_view()[k] == entries@[k]@ by {
        assert(entries.deep_view()[k] == entries@[k].deep_view());
    }
}

proof fn lemma_find_cid_extend(ev: Seq<LogEntryV>, lo: int, hi: int, j: int, cid: Seq<char>)
    requires
        lo <= j <= hi,
        forall|k: int| lo <= k < j ==> ev[k].cid != cid,
    ensures
        spec_find_cid(ev, lo, hi, cid) == spec_find_cid(ev, j, hi, cid),
    decreases j - lo,
{
    if lo < j {
        lemma_find_cid_extend(ev, lo + 1, hi, j, cid);
    }
}

/// Finds the first entry in `[lo, hi)` claiming the given CID.
#[verifier::loop_isolation(false)]
fn find_cid_range(entries: &Vec<LogEntry>, lo: usize, hi: usize, cid: &String) -> (r: Option<usize>)
    requires
        lo <= hi <= entries@.len(),
    ensures
        match r {
            Some(j) => lo <= j < hi && spec_find_cid(
                entries.deep_view(),
                lo as int,
                hi as int,
                cid@,
            ) == Some(j as int),
            None => spec_find_cid(entries.deep_view(), lo as int, hi as int, cid@) is None,
        },
{
    proof {
        lemma_entries_deep(entries);
    }
    let ghost ev = entries.deep_view();
    let mut j: usize = lo;
    while j < hi
        invariant
            lo <= j <= hi,
            forall|k: int| lo <= k < j ==> ev[k].cid != cid@,
        decreases hi - j,
    {
        if entries[j].cid == *cid {
            proof {
                lemma_find_cid_extend(ev, lo as int, hi as int, j as int, cid@);
            }
            return Some(j);
        }
        j = j + 1;
    }
    proof {
        lemma_find_cid_extend(ev, lo as int, hi as int, hi as int, cid@);
    }
    None
}

/// Collects the rotation keys an operation declares, in authority order.
#[verifier::loop_isolation(false)]
fn collect_rotation_keys(content: &Operation) -> (r: Vec<String>)
    ensures
        r.deep_view() =~= spec_rotation_keys(content@),
{
    let mut r: Vec<String> = Vec::new();
    match content {
        Operation::Change(c) => {
            proof {
                assert forall|k: int| 0 <= k < c.data.rotation_keys@.len()
                    implies c.data.rotation_keys.deep_view()[k] == c.data.rotation_keys@[k]@ by {
                    assert(c.data.rotation_keys.deep_view()[k]
                        == c.data.rotation_keys@[k].deep_view());
                }
            }
            let mut k: usize = 0;
            while k < c.data.rotation_keys.len()
                invariant
                    k <= c.data.rotation_keys@.len(),
                    r.deep_view() =~= c@.data.rotation_keys.take(k as int),
                decreases c.data.rotation_keys@.len() - k,
            {
                push_deep(&mut r, c.data.rotation_keys[k].clone());
                proof {
                    assert(r.deep_view() =~= c@.data.rotation_keys.take(k as int + 1));
                }
                k = k + 1;
            }
        },
        Operation::Tombstone(_) => {
        },
        Operation::LegacyCreate(l) => {
            push_deep(&mut r, l.recovery_key.clone());
            push_deep(&mut r, l.signing_key.clone());
        },
    }
    r
}

proof fn lemma_first_verifying_at(
    keys: Seq<Seq<char>>,
    malleable: bool,
    msg: Seq<u8>,
    sig: Seq<u8>,
    j: int,
)
    requires
        0 <= j < keys.len(),
        forall|k: int| 0 <= k < j ==> !did_key_verifies(#[trigger] keys[k], malleable, msg, sig),
        did_key_verifies(keys[j], malleable, msg, sig),
    ensures
        spec_first_verifying(keys, malleable, msg, sig) == Some(j),
    decreases j,
{
    if j > 0 {
        lemma_first_verifying_at(keys.drop_first(), malleable, msg, sig, j - 1);
    }
}

proof fn lemma_first_verifying_none(keys: Seq<Seq<char>>, malleable: bool, msg: Seq<u8>, sig: Seq<u8>)
    requires
        forall|k: int| 0 <= k < keys.len() ==> !did_key_verifies(
            #[trigger] keys[k],
            malleable,
            msg,
            sig,
        ),
    ensures
        spec_first_verifying(keys, malleable, msg, sig) is None,
    decreases keys.len(),
{
    if keys.len() > 0 {
        lemma_first_verifying_none(keys.drop_first(), malleable, msg, sig);
    }
}

/// The least authority whose key verifies the signature; index 0 when the
/// signature never decoded; nothing when no key verifies.
#[verifier::loop_isolation(false)]
fn signer_authority(
    keys: &Vec<String>,
    malleable: bool,
    msg: &Vec<u8>,
    sig: &Option<Vec<u8>>,
) -> (r: Option<usize>)
    ensures
        opt_view(r) == spec_signer_authority(keys.deep_view(), malleable, msg@, sig.deep_view()),
{
    let ghost kv = keys.deep_view();
    proof {
        assert forall|k: int| 0 <= k < keys@.len() implies kv[k] == keys@[k]@ by {
            assert(keys.deep_view()[k] == keys@[k].deep_view());
        }
    }
    match sig {
        None => {
            proof {
                assert(sig.deep_view() == None::<Seq<u8>>);
                assert(kv.len() == keys@.len());
            }
            if keys.len() > 0 {
                Some(0)
            } else {
                None
            }
        },
        Some(s) => {
            proof {
                assert(s.deep_view() =~= s@);
                assert(sig.deep_view() == Some(s@));
            }
            let mut k: usize = 0;
            while k < keys.len()
                invariant
                    k <= keys@.len(),
                    forall|t: int| 0 <= t < k ==> !did_key_verifies(
                        #[trigger] kv[t],
                        malleable,
                        msg@,
                        s@,
                    ),
                decreases keys@.len() - k,
            {
                if verify_did_key(keys[k].as_str(), malleable, msg, s) {
                    proof {
                        lemma_first_verifying_at(kv, malleable, msg@, s@, k as int);
                    }
                    return Some(k);
                }
                k = k + 1;
            }
            proof {
                lemma_first_verifying_none(kv, malleable, msg@, s@);
            }
            None
        },
    }
}

/// Decides the in-time and higher-authority test of the nullification rule.
fn nullifies_check(e_nanos: i64, auth: Option<usize>, s_nanos: i64, sauth: Option<usize>) -> (r:
    bool)
    ensures
        r == ({
            let in_time = e_nanos as int <= s_nanos as int + RECOVERY_WINDOW_NANOS as int;
            let higher = match (opt_view(auth), opt_view(sauth)) {
                (Some(a), Some(b)) => a < b,
                (None, _) => false,
                (Some(_), None) => true,
            };
            in_time && higher
        }),
{
    let in_time = if s_nanos > i64::MAX - RECOVERY_WINDOW_NANOS {
        true
    } else {
        e_nanos <= s_nanos + RECOVERY_WINDOW_NANOS
    };
    let higher = match (auth, sauth) {
        (Some(a), Some(b)) => a < b,
        (None, _) => false,
        (Some(_), None) => true,
    };
    in_time && higher
}

/// Copies a slot's pending children.
#[verifier::loop_isolation(false)]
fn copy_children(v: &Vec<(usize, Option<usize>)>) -> (r: Vec<(usize, Option<usize>)>)
    ensures
        r@ =~= v@,
{
    let mut r: Vec<(usize, Option<usize>)> = Vec::new();
    let mut t: usize = 0;
    while t < v.len()
        invariant
            t <= v@.len(),
            r@ =~= v@.take(t as int),
        decreases v@.len() - t,
    {
        r.push(v[t]);
        proof {
            assert(r@ =~= v@.take(t as int + 1));
        }
        t = t + 1;
    }
    proof {
        assert(v@.take(v@.len() as int) =~= v@);
    }
    r
}

proof fn lemma_survivors_take(
    entries: Seq<LogEntryV>,
    i: int,
    auth: Option<int>,
    lst: Seq<(int, Option<int>)>,
    k: int,
)
    requires
        0 <= k < lst.len(),
    ensures
        spec_survivors(entries, i, auth, lst.take(k + 1)) =~= spec_survivors(
            entries,
            i,
            auth,
            lst.take(k),
        ) + (if spec_nullifies(entries, i, auth, lst[k].0, lst[k].1) {
            Seq::<(int, Option<int>)>::empty()
        } else {
            seq![lst[k]]
        }),
    decreases k,
{
    if k == 0 {
        assert(lst.take(1)[0] == lst[0]);
        assert(lst.take(1).len() == 1);
        assert(lst.take(1).drop_first() =~= Seq::<(int, Option<int>)>::empty());
        assert(lst.take(0) =~= Seq::<(int, Option<int>)>::empty());
    } else {
        lemma_survivors_take(entries, i, auth, lst.drop_first(), k - 1);
        assert(lst.take(k + 1).drop_first() =~= lst.drop_first().take(k));
        assert(lst.take(k).drop_first() =~= lst.drop_first().take(k - 1));
        assert(lst.take(k + 1)[0] == lst[0]);
        assert(lst.take(k)[0] == lst[0]);
        assert(lst.drop_first()[k - 1] == lst[k]);
    }
}

/// Raises the per-entry errors of the checks that need the located
/// predecessor, and reports the entry's signer authority.
#[verifier::loop_isolation(false)]
fn check_entry_sig(
    entries: &Vec<LogEntry>,
    i: usize,
    prev: Option<usize>,
    errors: &mut Vec<AuditError>,
) -> (auth: Option<usize>)
    requires
        i < entries@.len(),
        match prev {
            Some(p) => p < entries@.len(),
            None => true,
        },
    ensures
        final(errors).deep_view() =~= old(errors).deep_view() + spec_prev_errs(
            entries.deep_view(),
            i as int,
            opt_view(prev),
        ),
        opt_view(auth) == spec_authority_of(entries.deep_view(), i as int, opt_view(prev)),
{
    proof {
        lemma_entries_deep(entries);
    }
    let ghost ev = entries.deep_view();
    let malleable = entries[i].created_at.nanos < MALLEABILITY_PREVENTED_NANOS;
    proof {
        assert(malleable == spec_malleable(ev[i as int]));
    }
    let dec = decode_sig(&entries[i].operation.sig, malleable);
    proof {
        assert(dec.deep_view() == spec_decoded_sig(ev[i as int].operation.sig, malleable));
    }
    if dec.is_none() {
        push_deep(
            errors,
            AuditError::InvalidSignatureEncoding { cid: entries[i].cid.clone() },
        );
    }
    let ghost errs1 = errors.deep_view();
    let tombstone_prev: bool = match prev {
        Some(p) => match &entries[p].operation.content {
            Operation::Tombstone(_) => true,
            _ => false,
        },
        None => false,
    };
    let auth: Option<usize>;
    if tombstone_prev {
        let p = prev.unwrap();
        push_deep(
            errors,
            AuditError::OperationAfterDeactivation {
                cid: entries[i].cid.clone(),
                prev: entries[p].cid.clone(),
            },
        );
        auth = None;
    } else {
        let keys = match prev {
            Some(p) => collect_rotation_keys(&entries[p].operation.content),
            None => collect_rotation_keys(&entries[i].operation.content),
        };
        let msg = entries[i].operation.unsigned_bytes();
        auth = signer_authority(&keys, malleable, &msg, &dec);
        proof {
            assert(keys.deep_view() =~= spec_governing_keys(ev, i as int, opt_view(prev)));
            assert(opt_view(auth) == spec_authority_of(ev, i as int, opt_view(prev)));
        }
        if auth.is_none() {
            push_deep(errors, AuditError::TrustViolation { cid: entries[i].cid.clone() });
        }
    }
    let ghost errs2 = errors.deep_view();
    match prev {
        Some(p) => {
            if entries[i].created_at.nanos < entries[p].created_at.nanos {
                push_deep(
                    errors,
                    AuditError::EntryCreatedBeforePrev {
                        cid: entries[i].cid.clone(),
                        prev: entries[p].cid.clone(),
                    },
                );
            }
        },
        None => {
        },
    }
    proof {
        assert(final(errors).deep_view() =~= old(errors).deep_view() + spec_prev_errs(
            ev,
            i as int,
            opt_view(prev),
        ));
    }
    auth
}

/// Runs every check of one entry and updates the graph bookkeeping.
#[verifier::loop_isolation(false)]
#[verifier::rlimit(100)]
fn apply_entry(
    did: &String,
    entries: &Vec<LogEntry>,
    i: usize,
    errors: &mut Vec<AuditError>,
    slots: &mut Vec<Slot>,
)
    requires
        i < entries@.len(),
        old(slots)@.len() == entries@.len(),
        slots_wf(old(slots)@, entries@.len() as int),
    ensures
        final(errors).deep_view() =~= old(errors).deep_view() + spec_step(
            did@,
            entries.deep_view(),
            i as int,
            slots_view(old(slots)@),
        ).0,
        slots_view(final(slots)@) =~= spec_step(
            did@,
            entries.deep_view(),
            i as int,
            slots_view(old(slots)@),
        ).1,
        final(slots)@.len() == old(slots)@.len(),
        slots_wf(final(slots)@, entries@.len() as int),
{
    proof {
        lemma_entries_deep(entries);
    }
    let ghost ev = entries.deep_view();
    let ghost slots0 = slots_view(old(slots)@);
    let actual = entries[i].operation.cid();
    if !(entries[i].cid == actual) {
        push_deep(errors, AuditError::EntryCidInvalid { cid: entries[i].cid.clone(), actual });
    }
    if !(entries[i].did == *did) {
        push_deep(errors, AuditError::EntryDidMismatch { cid: entries[i].cid.clone() });
    }
    proof {
        assert(errors.deep_view() =~= old(errors).deep_view() + spec_self_errs(
            did@,
            ev[i as int],
        ));
    }
    let prev_clone: Option<String> = match &entries[i].operation.content {
        Operation::Change(c) => match &c.prev {
            Some(p) => Some(p.clone()),
            None => None,
        },
        Operation::Tombstone(t) => Some(t.prev.clone()),
        Operation::LegacyCreate(_) => None,
    };
    proof {
        assert(match prev_clone {
            Some(p) => spec_prev_ref(ev[i as int].operation.content) == Some(p@),
            None => spec_prev_ref(ev[i as int].operation.content) is None,
        });
    }
    match prev_clone {
        None => {
            let auth = check_entry_sig(entries, i, None, errors);
            if i != 0 {
                push_deep(errors, AuditError::NonGenesisCreate { cid: entries[i].cid.clone() });
            }
            if entries[i].nullified {
                push_deep(
                    errors,
                    AuditError::EntryIncorrectlyNullified { cid: entries[i].cid.clone() },
                );
            }
            proof {
                assert(final(errors).deep_view() =~= old(errors).deep_view() + spec_step(
                    did@,
                    ev,
                    i as int,
                    slots0,
                ).0);
                assert(slots_view(slots@) =~= spec_step(did@, ev, i as int, slots0).1);
            }
        },
        Some(p) => {
            match find_cid_range(entries, 0, i, &p) {
                Some(j) => {
                    let auth = check_entry_sig(entries, i, Some(j), errors);
                    proof {
                        assert(spec_locate_prev(ev, i as int) == LocatedV::Found(j as int));
                        assert(slot_view(slots@[j as int]) == slots0[j as int]);
                    }
                    let ghost g = spec_graph_step(ev, i as int, j as int, slots0[j as int]);
                    let ghost authv = opt_view(auth);
                    let e_nanos = entries[i].created_at.nanos;
                    if entries[i].nullified {
                        if !entries[j].nullified {
                            if slots[j].active.is_some() {
                                push_deep(
                                    errors,
                                    AuditError::EntryIncorrectlyNullified {
                                        cid: entries[i].cid.clone(),
                                    },
                                );
                            } else {
                                let mut newlist = copy_children(&slots[j].nullified);
                                newlist.push((i, auth));
                                let cur_active = slots[j].active;
                                slots.set(j, Slot { active: cur_active, nullified: newlist });
                                proof {
                                    assert(children_view(slots@[j as int].nullified@) =~= slots0[
                                        j as int
                                    ].nullified.push((i as int, authv)));
                                    assert(slot_view(slots@[j as int]) =~= g.1);
                                }
                            }
                        }
                    } else if entries[j].nullified {
                        push_deep(
                            errors,
                            AuditError::EntryIncorrectlyActive { cid: entries[i].cid.clone() },
                        );
                    } else {
                        let cur_active = slots[j].active;
                        match cur_active {
                            Some((k, kauth)) => {
                                if nullifies_check(
                                    e_nanos,
                                    auth,
                                    entries[k].created_at.nanos,
                                    kauth,
                                ) {
                                    push_deep(
                                        errors,
                                        AuditError::EntryIncorrectlyActive {
                                            cid: entries[k].cid.clone(),
                                        },
                                    );
                                    let newlist = copy_children(&slots[j].nullified);
                                    slots.set(
                                        j,
                                        Slot { active: Some((i, auth)), nullified: newlist },
                                    );
                                    proof {
                                        assert(slot_view(slots@[j as int]) =~= g.1);
                                    }
                                } else {
                                    push_deep(
                                        errors,
                                        AuditError::MultipleActiveChildren {
                                            cid: entries[i].cid.clone(),
                                            first: entries[k].cid.clone(),
                                        },
                                    );
                                }
                            },
                            None => {
                                let ghost pending = children_view(slots@[j as int].nullified@);
                                let mut remaining: Vec<(usize, Option<usize>)> = Vec::new();
                                let mut t: usize = 0;
                                proof {
                                    assert(pending.take(0) =~= Seq::<(int, Option<int>)>::empty());
                                }
                                while t < slots[j].nullified.len()
                                    invariant
                                        t <= slots@[j as int].nullified@.len(),
                                        slots@ == old(slots)@,
                                        children_view(remaining@) =~= spec_survivors(
                                            ev,
                                            i as int,
                                            authv,
                                            pending.take(t as int),
                                        ),
                                        forall|q: int| 0 <= q < remaining@.len() ==> (
                                        #[trigger] remaining@[q]).0 < entries@.len(),
                                    decreases slots@[j as int].nullified@.len() - t,
                                {
                                    let pair = slots[j].nullified[t];
                                    proof {
                                        assert(pending[t as int] == child_view(pair));
                                        assert(pair.0 < entries@.len());
                                        lemma_survivors_take(ev, i as int, authv, pending, t as int);
                                    }
                                    if !nullifies_check(
                                        e_nanos,
                                        auth,
                                        entries[pair.0].created_at.nanos,
                                        pair.1,
                                    ) {
                                        remaining.push(pair);
                                        proof {
                                            assert(children_view(remaining@) =~= spec_survivors(
                                                ev,
                                                i as int,
                                                authv,
                                                pending.take(t as int + 1),
                                            ));
                                        }
                                    }
                                    t = t + 1;
                                }
                                proof {
                                    assert(pending.take(pending.len() as int) =~= pending);
                                }
                                if remaining.len() > 0 {
                                    push_deep(
                                        errors,
                                        AuditError::EntryIncorrectlyActive {
                                            cid: entries[i].cid.clone(),
                                        },
                                    );
                                }
                                slots.set(
                                    j,
                                    Slot { active: Some((i, auth)), nullified: remaining },
                                );
                                proof {
                                    assert(slot_view(slots@[j as int]) =~= g.1);
                                }
                            },
                        }
                    }
                    proof {
                        assert(slots_view(slots@) =~= slots0.update(j as int, g.1));
                        assert(final(errors).deep_view() =~= old(errors).deep_view() + spec_step(
                            did@,
                            ev,
                            i as int,
                            slots0,
                        ).0);
                    }
                },
                None => {
                    let fut = find_cid_range(entries, i, entries.len(), &p);
                    match fut {
                        Some(_) => {
                            push_deep(
                                errors,
                                AuditError::PrevReferencesFuture {
                                    cid: entries[i].cid.clone(),
                                    prev: p,
                                },
                            );
                        },
                        None => {
                            push_deep(errors, AuditError::PrevMissing { prev: p });
                        },
                    }
                    proof {
                        assert(final(errors).deep_view() =~= old(errors).deep_view() + spec_step(
                            did@,
                            ev,
                            i as int,
                            slots0,
                        ).0);
                    }
                },
            }
        },
    }
}

/// An ordered audit log as served for one DID, ready for validation.
#[derive(Debug)]
pub struct AuditLog {
    pub did: String,
    pub entries: Vec<LogEntry>,
}

impl AuditLog {
    /// Wraps the claimed DID and its served entries.
    pub fn new(did: String, entries: Vec<LogEntry>) -> (r: AuditLog)
        ensures
            r.did == did,
            r.entries == entries,
    {
        AuditLog { did, entries }
    }

    /// Validates the whole log, reporting every failure in log order, or
    /// nothing exactly when the mathematical validation finds nothing.
    #[verifier::loop_isolation(false)]
    #[verifier::rlimit(100)]
    pub fn validate(&self) -> (r: Result<(), Vec<AuditError>>)
        ensures
            match r {
                Ok(()) => spec_validate(self.did@, self.entries.deep_view()) =~= Seq::<
                    AuditErrorV,
                >::empty(),
                Err(errs) => errs.deep_view() =~= spec_validate(
                    self.did@,
                    self.entries.deep_view(),
                ) && errs@.len() > 0,
            },
    {
        proof {
            lemma_entries_deep(&self.entries);
        }
        let ghost ev = self.entries.deep_view();
        let ghost did_v = self.did@;
        let mut errors: Vec<AuditError> = Vec::new();
        if self.entries.len() == 0 {
            push_deep(&mut errors, AuditError::AuditLogEmpty);
        } else {
            let genesis_kind: u8 = match &self.entries[0].operation.content {
                Operation::Change(c) => {
                    if c.prev.is_none() {
                        0
                    } else {
                        1
                    }
                },
                Operation::LegacyCreate(_) => 0,
                Operation::Tombstone(_) => 1,
            };
            if genesis_kind == 0 {
                let signed = self.entries[0].operation.signed_bytes();
                let derived = derive_did(&signed);
                if !(derived == self.did) {
                    push_deep(
                        &mut errors,
                        AuditError::GenesisOperationInvalidDid {
                            expected: self.did.clone(),
                            actual: derived,
                        },
                    );
                }
            } else {
                push_deep(&mut errors, AuditError::GenesisOperationNotCreate);
            }
        }
        proof {
            assert(errors.deep_view() =~= spec_genesis_errs(did_v, ev));
        }
        let ghost base = errors.deep_view();
        let mut slots: Vec<Slot> = Vec::new();
        let mut k: usize = 0;
        while k < self.entries.len()
            invariant
                k <= self.entries@.len(),
                slots@.len() == k,
                forall|q: int| 0 <= q < k ==> slot_view(#[trigger] slots@[q]) == (SlotV {
                    active: None,
                    nullified: Seq::empty(),
                }),
                slots_wf(slots@, self.entries@.len() as int),
            decreases self.entries@.len() - k,
        {
            let empty_list: Vec<(usize, Option<usize>)> = Vec::new();
            slots.push(Slot { active: None, nullified: empty_list });
            k = k + 1;
        }
        proof {
            assert(slots_view(slots@) =~= spec_empty_slots(ev.len()));
            assert(spec_scan(did_v, ev, 0).0 =~= Seq::<AuditErrorV>::empty());
            assert(errors.deep_view() =~= base + spec_scan(did_v, ev, 0).0);
        }
        let mut i: usize = 0;
        while i < self.entries.len()
            invariant
                i <= self.entries@.len(),
                slots@.len() == self.entries@.len(),
                slots_wf(slots@, self.entries@.len() as int),
                errors.deep_view() =~= base + spec_scan(did_v, ev, i as int).0,
                slots_view(slots@) =~= spec_scan(did_v, ev, i as int).1,
            decreases self.entries@.len() - i,
        {
            apply_entry(&self.did, &self.entries, i, &mut errors, &mut slots);
            proof {
                assert(spec_scan(did_v, ev, i as int + 1).0 =~= spec_scan(did_v, ev, i as int).0
                    + spec_step(did_v, ev, i as int, spec_scan(did_v, ev, i as int).1).0);
            }
            i = i + 1;
        }
        let ghost scan_errs = spec_scan(did_v, ev, ev.len() as int).0;
        let ghost final_slots = spec_scan(did_v, ev, ev.len() as int).1;
        proof {
            assert(final_slots.len() == slots@.len());
        }
        let mut s: usize = 0;
        while s < slots.len()
            invariant
                s <= slots@.len(),
                slots@.len() == self.entries@.len(),
                slots_wf(slots@, self.entries@.len() as int),
                slots_view(slots@) =~= final_slots,
                errors.deep_view() =~= base + scan_errs + spec_settlement_upto(
                    ev,
                    final_slots,
                    s as int,
                ),
            decreases slots@.len() - s,
        {
            let ghost slot_errs = spec_slot_settlement(ev, final_slots[s as int]);
            let mut t: usize = 0;
            proof {
                assert(slot_errs.take(0) =~= Seq::<AuditErrorV>::empty());
            }
            while t < slots[s].nullified.len()
                invariant
                    t <= slots@[s as int].nullified@.len(),
                    s < slots@.len(),
                    slots@.len() == self.entries@.len(),
                    slots_wf(slots@, self.entries@.len() as int),
                    slots_view(slots@) =~= final_slots,
                    slot_errs == spec_slot_settlement(ev, final_slots[s as int]),
                    slot_errs.len() == slots@[s as int].nullified@.len(),
                    errors.deep_view() =~= base + scan_errs + spec_settlement_upto(
                        ev,
                        final_slots,
                        s as int,
                    ) + slot_errs.take(t as int),
                decreases slots@[s as int].nullified@.len() - t,
            {
                let pair = slots[s].nullified[t];
                proof {
                    assert(final_slots[s as int] == slot_view(slots@[s as int]));
                    assert(final_slots[s as int].nullified[t as int] == child_view(pair));
                    assert(pair.0 < self.entries@.len());
                    assert(slot_errs[t as int] == AuditErrorV::EntryIncorrectlyNullified {
                        cid: ev[pair.0 as int].cid,
                    });
                    assert(slot_errs.take(t as int + 1) =~= slot_errs.take(t as int).push(
                        slot_errs[t as int],
                    ));
                }
                push_deep(
                    &mut errors,
                    AuditError::EntryIncorrectlyNullified {
                        cid: self.entries[pair.0].cid.clone(),
                    },
                );
                t = t + 1;
            }
            proof {
                assert(slot_errs.take(slot_errs.len() as int) =~= slot_errs);
                assert(spec_settlement_upto(ev, final_slots, s as int + 1) =~= spec_settlement_upto(
                    ev,
                    final_slots,
                    s as int,
                ) + slot_errs);
            }
            s = s + 1;
        }
        proof {
            assert(errors.deep_view() =~= spec_validate(did_v, ev));
            assert(errors@.len() == errors.deep_view().len());
        }
        if errors.len() == 0 {
            proof {
                assert(spec_validate(did_v, ev) =~= Seq::<AuditErrorV>::empty());
            }
            Ok(())
        } else {
            Err(errors)
        }
    }
}

// ---------------------------------------------------------------------------
// What validation guarantees
// ---------------------------------------------------------------------------

/// Validating a log is a function of the log alone: two validations of the
/// same log against the same DID report exactly the same errors.
pub proof fn lemma_validator_deterministic(
    did: Seq<char>,
    entries: Seq<LogEntryV>,
    r1: Seq<AuditErrorV>,
    r2: Seq<AuditErrorV>,
)
    requires
        r1 == spec_validate(did, entries),
        r2 == spec_validate(did, entries),
    ensures
        r1 == r2,
{
}

proof fn lemma_scan_step_empty(did: Seq<char>, entries: Seq<LogEntryV>, i: int, n: int)
    requires
        0 <= i < n <= entries.len(),
        spec_scan(did, entries, n).0 =~= Seq::<AuditErrorV>::empty(),
    ensures
        spec_step(did, entries, i, spec_scan(did, entries, i).1).0 =~= Seq::<AuditErrorV>::empty(),
    decreases n,
{
    assert(spec_scan(did, entries, n).0 == spec_scan(did, entries, n - 1).0 + spec_step(
        did,
        entries,
        n - 1,
        spec_scan(did, entries, n - 1).1,
    ).0);
    assert(spec_scan(did, entries, n - 1).0.len() == 0);
    assert(spec_scan(did, entries, n - 1).0 =~= Seq::<AuditErrorV>::empty());
    if i == n - 1 {
        assert(spec_step(did, entries, i, spec_scan(did, entries, i).1).0.len() == 0);
    } else {
        lemma_scan_step_empty(did, entries, i, n - 1);
    }
}

/// For a log the validator accepts: it is non-empty, its DID is the one the
/// genesis operation's signed bytes derive, every entry claims that DID,
/// and every entry's claimed CID is the CID its operation hashes to.
pub proof fn lemma_valid_log_well_derived(did: Seq<char>, entries: Seq<LogEntryV>)
    requires
        spec_validate(did, entries) =~= Seq::<AuditErrorV>::empty(),
    ensures
        entries.len() > 0,
        did == spec_derive_did(spec_signed_bytes(entries[0].operation)),
        forall|i: int| 0 <= i < entries.len() ==> (#[trigger] entries[i]).did == did,
        forall|i: int|
            0 <= i < entries.len() ==> (#[trigger] entries[i]).cid == spec_op_cid(
                entries[i].operation,
            ),
{
    let scan = spec_scan(did, entries, entries.len() as int);
    assert(spec_genesis_errs(did, entries).len() == 0);
    assert(scan.0.len() == 0);
    assert(scan.0 =~= Seq::<AuditErrorV>::empty());
    if entries.len() == 0 {
        assert(spec_genesis_errs(did, entries).len() == 1);
    }
    assert(entries.len() > 0);
    match entries[0].operation.content {
        OperationV::Change(c) => {
            if c.prev is None {
                assert(spec_genesis_did_errs(did, entries[0]).len() == 0);
            } else {
                assert(spec_genesis_errs(did, entries).len() == 1);
            }
        },
        OperationV::LegacyCreate(_) => {
            assert(spec_genesis_did_errs(did, entries[0]).len() == 0);
        },
        OperationV::Tombstone(_) => {
            assert(spec_genesis_errs(did, entries).len() == 1);
        },
    }
    assert(did == spec_derive_did(spec_signed_bytes(entries[0].operation)));
    assert forall|i: int| 0 <= i < entries.len() implies (#[trigger] entries[i]).did == did && (
    entries[i]).cid == spec_op_cid(entries[i].operation) by {
        lemma_scan_step_empty(did, entries, i, entries.len() as int);
        let step = spec_step(did, entries, i, spec_scan(did, entries, i).1);
        assert(step.0.len() == 0);
        assert(spec_self_errs(did, entries[i]).len() <= step.0.len());
        if entries[i].cid != spec_op_cid(entries[i].operation) {
            assert(spec_self_errs(did, entries[i]).len() >= 1);
        }
        if entries[i].did != did {
            assert(spec_self_errs(did, entries[i]).len() >= 1);
        }
    }
}

/// Whether an error list reports an unacceptable signature encoding.
pub open spec fn spec_has_enc_err(s: Seq<AuditErrorV>) -> bool {
    exists|k: int| 0 <= k < s.len() && (#[trigger] s[k]) is InvalidSignatureEncoding
}

/// The malleability gate, stated once: padding is tolerated (trimmed before
/// decoding) exactly for entries created before the cutoff, and the
/// per-entry checks report `InvalidSignatureEncoding` exactly when that
/// gated decoding fails. What the decoder then accepts is the outside
/// decoder's own behaviour, named by `b64url_decoded`.
pub proof fn lemma_malleability_gate(entries: Seq<LogEntryV>, i: int, prev: Option<int>)
    requires
        0 <= i < entries.len(),
    ensures
        ({
            let e = entries[i];
            let m = spec_malleable(e);
            &&& m == (e.created_at.nanos < MALLEABILITY_PREVENTED_NANOS as int)
            &&& spec_decoded_sig(e.operation.sig, m) == crate::crypto::b64url_decoded(
                if m {
                    crate::crypto::spec_trim_padding(e.operation.sig)
                } else {
                    e.operation.sig
                },
            )
            &&& (spec_has_enc_err(spec_prev_errs(entries, i, prev)) <==> spec_decoded_sig(
                e.operation.sig,
                m,
            ) is None)
        }),
{
    let e = entries[i];
    let m = spec_malleable(e);
    let errs = spec_prev_errs(entries, i, prev);
    if spec_decoded_sig(e.operation.sig, m) is None {
        assert(errs[0] is InvalidSignatureEncoding);
    } else {
        assert forall|k: int| 0 <= k < errs.len() implies !((
        #[trigger] errs[k]) is InvalidSignatureEncoding) by {}
    }
}

/// Whether an error list reports a wrongly derived genesis DID.
pub open spec fn spec_has_genesis_did_err(s: Seq<AuditErrorV>) -> bool {
    exists|k: int| 0 <= k < s.len() && (#[trigger] s[k]) is GenesisOperationInvalidDid
}

pub open spec fn spec_no_genesis_did_err(s: Seq<AuditErrorV>) -> bool {
    forall|k: int| 0 <= k < s.len() ==> !((#[trigger] s[k]) is GenesisOperationInvalidDid)
}

proof fn lemma_step_no_genesis_did_err(
    did: Seq<char>,
    entries: Seq<LogEntryV>,
    i: int,
    slots: Seq<SlotV>,
)
    ensures
        spec_no_genesis_did_err(spec_step(did, entries, i, slots).0),
{
    let errs = spec_step(did, entries, i, slots).0;
    assert forall|k: int| 0 <= k < errs.len() implies !((
    #[trigger] errs[k]) is GenesisOperationInvalidDid) by {}
}

proof fn lemma_scan_no_genesis_did_err(did: Seq<char>, entries: Seq<LogEntryV>, i: int)
    ensures
        spec_no_genesis_did_err(spec_scan(did, entries, i).0),
    decreases i,
{
    if i > 0 {
        lemma_scan_no_genesis_did_err(did, entries, i - 1);
        lemma_step_no_genesis_did_err(did, entries, i - 1, spec_scan(did, entries, i - 1).1);
    }
}

proof fn lemma_settlement_no_genesis_did_err(entries: Seq<LogEntryV>, slots: Seq<SlotV>, i: int)
    ensures
        spec_no_genesis_did_err(spec_settlement_upto(entries, slots, i)),
    decreases i,
{
    if i > 0 {
        lemma_settlement_no_genesis_did_err(entries, slots, i - 1);
    }
}

/// For a log whose first entry is a creation (a change without `prev`, or a
/// legacy creation): the validator reports `GenesisOperationInvalidDid` if
/// and only if the DID its genesis bytes derive differs from the claimed
/// one, and when it does, that is the very first error, carrying the
/// claimed and the derived DID. No other check emits this error.
pub proof fn lemma_genesis_did_error_iff(did: Seq<char>, entries: Seq<LogEntryV>)
    requires
        entries.len() > 0,
        (entries[0].operation.content matches OperationV::Change(c) && c.prev is None)
            || entries[0].operation.content is LegacyCreate,
    ensures
        ({
            let derived = spec_derive_did(spec_signed_bytes(entries[0].operation));
            let all = spec_validate(did, entries);
            &&& (spec_has_genesis_did_err(all) <==> derived != did)
            &&& (derived != did ==> all.len() > 0 && all[0]
                == AuditErrorV::GenesisOperationInvalidDid { expected: did, actual: derived })
        }),
{
    let derived = spec_derive_did(spec_signed_bytes(entries[0].operation));
    let all = spec_validate(did, entries);
    let scan = spec_scan(did, entries, entries.len() as int);
    lemma_scan_no_genesis_did_err(did, entries, entries.len() as int);
    lemma_settlement_no_genesis_did_err(entries, scan.1, scan.1.len() as int);
    if derived != did {
        assert(spec_genesis_errs(did, entries)[0] == AuditErrorV::GenesisOperationInvalidDid {
            expected: did,
            actual: derived,
        });
        assert(all[0] == AuditErrorV::GenesisOperationInvalidDid {
            expected: did,
            actual: derived,
        });
        assert(spec_has_genesis_did_err(all));
    } else {
        assert(spec_genesis_errs(did, entries).len() == 0);
        assert forall|k: int| 0 <= k < all.len() implies !((
        #[trigger] all[k]) is GenesisOperationInvalidDid) by {
            let sc = scan.0;
            let st = spec_settlement_upto(entries, scan.1, scan.1.len() as int);
            if k < sc.len() {
                assert(all[k] == sc[k]);
            } else {
                assert(all[k] == st[k - sc.len()]);
            }
        }
    }
}

} // verus!
