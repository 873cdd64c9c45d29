//! What the mirror's HTTP routes decide, separated from how they are served:
//! the export page bound, the status a data request resolves to, and the DID
//! document a state projects to.

use vstd::prelude::*;
use vstd::string::StringExecFns;

use crate::data::{spec_strip_prefix, strip_prefix_str, PlcDataV, State};
use crate::op::{spec_op_state_data, LogEntry, Timestamp};

verus! {

/// The query parameters of the export route.
#[derive(Debug)]
pub struct ExportParams {
    pub count: Option<usize>,
    pub after: Option<Timestamp>,
}

impl ExportParams {
    /// The page size actually served: the requested count clamped to 1000,
    /// or 10 when none was requested.
    pub fn bounded_count(&self) -> (r: usize)
        ensures
            r == vstd::math::min(
                match self.count {
                    Some(c) => c as int,
                    None => 10,
                },
                1000,
            ),
    {
        match self.count {
            Some(c) => if c < 1000 {
                c
            } else {
                1000
            },
            None => 10,
        }
    }
}

/// What a read of one DID's current data resolves to.
#[derive(Debug)]
pub enum DataOutcome {
    /// The DID has no entry: the route answers 404.
    NotRegistered,
    /// The DID's last active operation is a tombstone: the route answers 410.
    Tombstoned,
    /// The DID is live, with this state: the route answers 200.
    Active(State),
}

/// Decides a data request from the last active entry the store found.
pub fn data_response(entry: Option<LogEntry>) -> (r: DataOutcome)
    ensures
        r is NotRegistered <==> entry is None,
        r is Tombstoned <==> (entry matches Some(e) && e@.operation.content is Tombstone),
        r matches DataOutcome::Active(s) ==> (entry matches Some(e) && s@.did == e@.did && s@.plc
            =~~= spec_op_state_data(e@.operation.content)),
{
    match entry {
        None => DataOutcome::NotRegistered,
        Some(e) => match e.into_state() {
            None => DataOutcome::Tombstoned,
            Some(s) => DataOutcome::Active(s),
        },
    }
}

// ---------------------------------------------------------------------------
// DID documents
// ---------------------------------------------------------------------------

/// One verification method of a DID document.
#[derive(Debug)]
pub struct VerificationMethod {
    pub id: String,
    pub method_type: String,
    pub controller: String,
    pub public_key_multibase: Option<String>,
}

#[verifier::ext_equal]
pub struct VerificationMethodV {
    pub id: Seq<char>,
    pub method_type: Seq<char>,
    pub controller: Seq<char>,
    pub public_key_multibase: Option<Seq<char>>,
}

impl View for VerificationMethod {
    type V = VerificationMethodV;

    open spec fn view(&self) -> VerificationMethodV {
        VerificationMethodV {
            id: self.id@,
            method_type: self.method_type@,
            controller: self.controller@,
            public_key_multibase: self.public_key_multibase.deep_view(),
        }
    }
}

impl DeepView for VerificationMethod {
    type V = VerificationMethodV;

    open spec fn deep_view(&self) -> VerificationMethodV {
        self.view()
    }
}

/// One service of a DID document.
#[derive(Debug)]
pub struct DocService {
    pub id: String,
    pub service_type: String,
    pub service_endpoint: String,
}

#[verifier::ext_equal]
pub struct DocServiceV {
    pub id: Seq<char>,
    pub service_type: Seq<char>,
    pub service_endpoint: Seq<char>,
}

impl View for DocService {
    type V = DocServiceV;

    open spec fn view(&self) -> DocServiceV {
        DocServiceV {
            id: self.id@,
            service_type: self.service_type@,
            service_endpoint: self.service_endpoint@,
        }
    }
}

impl DeepView for DocService {
    type V = DocServiceV;

    open spec fn deep_view(&self) -> DocServiceV {
        self.view()
    }
}

/// A DID document, as the registry's read API serves it.
#[derive(Debug)]
pub struct DidDocument {
    pub id: String,
    pub also_known_as: Vec<String>,
    pub verification_method: Vec<VerificationMethod>,
    pub service: Vec<DocService>,
}

/// The multibase part of a `did:key` string.
pub open spec fn spec_multibase_of(key: Seq<char>) -> Option<Seq<char>> {
    spec_strip_prefix(key, "did:key:"@)
}

/// Whether every verification method's key is a `did:key`, so that the
/// state projects to a document at all.
pub open spec fn spec_doc_ok(plc: PlcDataV) -> bool {
    forall|k: int|
        0 <= k < plc.verification_methods.len() ==> spec_multibase_of(
            (#[trigger] plc.verification_methods[k]).1,
        ) is Some
}

pub open spec fn spec_doc_methods(did: Seq<char>, plc: PlcDataV) -> Seq<VerificationMethodV> {
    Seq::new(
        plc.verification_methods.len(),
        |k: int|
            VerificationMethodV {
                id: did + "#"@ + plc.verification_methods[k].0,
                method_type: "Multikey"@,
                controller: did,
                public_key_multibase: spec_multibase_of(plc.verification_methods[k].1),
            },
    )
}

pub open spec fn spec_doc_services(plc: PlcDataV) -> Seq<DocServiceV> {
    Seq::new(
        plc.services.len(),
        |k: int|
            DocServiceV {
                id: "#"@ + plc.services[k].0,
                service_type: plc.services[k].1.service_type,
                service_endpoint: plc.services[k].1.endpoint,
            },
    )
}

impl State {
    /// Converts this state into a DID document; nothing if a verification
    /// method does not hold a `did:key`.
    #[verifier::loop_isolation(false)]
    pub fn into_doc(self) -> (r: Result<DidDocument, ()>)
        ensures
            r is Ok <==> spec_doc_ok(self@.plc),
            r matches Ok(doc) ==> ({
                &&& doc.id@ == self@.did
                &&& doc.also_known_as.deep_view() == self@.plc.also_known_as
                &&& doc.verification_method.deep_view() =~= spec_doc_methods(
                    self@.did,
                    self@.plc,
                )
                &&& doc.service.deep_view() =~= spec_doc_services(self@.plc)
            }),
    {
        let ghost plcv = self@.plc;
        let ghost didv = self@.did;
        proof {
            assert forall|k: int| 0 <= k < self.plc.verification_methods@.len()
                implies plcv.verification_methods[k] == (
            self.plc.verification_methods@[k].0@,
            self.plc.verification_methods@[k].1@,
            ) by {
                assert(self.plc.verification_methods.deep_view()[k]
                    == self.plc.verification_methods@[k].deep_view());
            }
            assert forall|k: int| 0 <= k < self.plc.services@.len() implies plcv.services[k] == (
            self.plc.services@[k].0@,
            self.plc.services@[k].1@,
            ) by {
                assert(self.plc.services.deep_view()[k] == self.plc.services@[k].deep_view());
            }
        }
        let mut methods: Vec<VerificationMethod> = Vec::new();
        let mut k: usize = 0;
        while k < self.plc.verification_methods.len()
            invariant
                k <= self.plc.verification_methods@.len(),
                forall|q: int|
                    0 <= q < k ==> spec_multibase_of(
                        (#[trigger] plcv.verification_methods[q]).1,
                    ) is Some,
                methods.deep_view() =~= spec_doc_methods(didv, plcv).take(k as int),
            decreases self.plc.verification_methods@.len() - k,
        {
            let mb = match strip_prefix_str(&self.plc.verification_methods[k].1, "did:key:") {
                Some(mb) => mb,
                None => {
                    proof {
                        assert(spec_multibase_of(plcv.verification_methods[k as int].1) is None);
                        assert(!spec_doc_ok(plcv));
                    }
                    return Err(());
                },
            };
            let id = self.did.clone().concat("#").concat(
                self.plc.verification_methods[k].0.as_str(),
            );
            crate::codec::push_deep(
                &mut methods,
                VerificationMethod {
                    id,
                    method_type: String::from_str("Multikey"),
                    controller: self.did.clone(),
                    public_key_multibase: Some(mb),
                },
            );
            proof {
                assert(methods.deep_view() =~= spec_doc_methods(didv, plcv).take(k as int + 1));
            }
            k = k + 1;
        }
        proof {
            assert(spec_doc_methods(didv, plcv).take(plcv.verification_methods.len() as int)
                =~= spec_doc_methods(didv, plcv));
        }
        let mut services: Vec<DocService> = Vec::new();
        let mut k: usize = 0;
        while k < self.plc.services.len()
            invariant
                k <= self.plc.services@.len(),
                services.deep_view() =~= spec_doc_services(plcv).take(k as int),
            decreases self.plc.services@.len() - k,
        {
            crate::codec::push_deep(
                &mut services,
                DocService {
                    id: String::from_str("#").concat(self.plc.services[k].0.as_str()),
                    service_type: self.plc.services[k].1.service_type.clone(),
                    service_endpoint: self.plc.services[k].1.endpoint.clone(),
                },
            );
            proof {
                assert(services.deep_view() =~= spec_doc_services(plcv).take(k as int + 1));
            }
            k = k + 1;
        }
        proof {
            assert(spec_doc_services(plcv).take(plcv.services.len() as int) =~= spec_doc_services(
                plcv,
            ));
        }
        Ok(
            DidDocument {
                id: self.did,
                also_known_as: self.plc.also_known_as,
                verification_method: methods,
                service: services,
            },
        )
    }
}

} // verus!
