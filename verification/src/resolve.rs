//! The rules of handle and DID resolution, separated from the lookups that
//! feed them: which DNS TXT records name a DID, which DID methods this tool
//! accepts, and when a handle is confirmed by the state it points at.

use vstd::prelude::*;
use vstd::string::StrSliceExecFns;
use vstd::string::StringExecFns;

use crate::data::{spec_handle_of, spec_strip_prefix, strip_prefix_str, State};
use crate::error::Error;

verus! {

/// Whether the text is a syntactically valid DID.
pub uninterp spec fn did_syntax_valid(s: Seq<char>) -> bool;

/// Relies on atrium-api's `Did::new`: whether a string is accepted as a DID
/// is a function of the string alone.
#[verifier::external_body]
pub fn did_syntax_ok(s: &String) -> (r: bool)
    ensures
        r == did_syntax_valid(s@),
{
    atrium_api::types::string::Did::new(s.clone()).is_ok()
}

/// Whether a DID names the `plc` method this tool works with.
pub open spec fn spec_is_plc_did(s: Seq<char>) -> bool {
    spec_strip_prefix(s, "did:plc:"@) is Some
}

/// Decides whether a DID names the `plc` method.
pub fn is_plc_did(did: &String) -> (r: bool)
    ensures
        r == spec_is_plc_did(did@),
{
    match strip_prefix_str(did, "did:plc:") {
        Some(_) => true,
        None => false,
    }
}

/// The method segment a DID names: the text up to the colon that closes
/// the method (for a `did:plc:` DID, the text `did:plc`). A string without
/// that second colon is returned whole.
pub open spec fn spec_did_method(s: Seq<char>) -> Seq<char> {
    if s.len() < 4 {
        s
    } else {
        match crate::data::spec_find_char(s, 4, ':') {
            Some(i) => s.take(i),
            None => s,
        }
    }
}

/// Extracts the method segment of a DID.
pub fn did_method(did: &String) -> (r: String)
    ensures
        r@ == spec_did_method(did@),
{
    let n = did.as_str().unicode_len();
    if n < 4 {
        return did.clone();
    }
    match crate::data::find_char_from(did, 4, ':') {
        Some(i) => {
            let cut = did.as_str().substring_char(0, i);
            proof {
                assert(cut@ =~= did@.take(i as int));
            }
            String::from_str(cut)
        },
        None => did.clone(),
    }
}

/// The DIDs named by a list of TXT record values: those of the form
/// `did=<valid did>`, in record order.
pub open spec fn spec_txt_dids(records: Seq<Seq<char>>) -> Seq<Seq<char>>
    decreases records.len(),
{
    if records.len() == 0 {
        Seq::empty()
    } else {
        let rest = spec_txt_dids(records.drop_last());
        match spec_strip_prefix(records.last(), "did="@) {
            Some(did) => if did_syntax_valid(did) {
                rest.push(did)
            } else {
                rest
            },
            None => rest,
        }
    }
}

/// Resolves the DID a handle's TXT records name: only a single valid
/// `did=` record may exist; any other count fails the resolution.
#[verifier::loop_isolation(false)]
pub fn did_from_txt_records(records: &Vec<String>) -> (r: Option<String>)
    ensures
        match r {
            Some(did) => spec_txt_dids(records.deep_view()).len() == 1 && did@ == spec_txt_dids(
                records.deep_view(),
            )[0],
            None => spec_txt_dids(records.deep_view()).len() != 1,
        },
{
    let ghost rv = records.deep_view();
    proof {
        assert forall|k: int| 0 <= k < records@.len() implies rv[k] == records@[k]@ by {
            assert(records.deep_view()[k] == records@[k].deep_view());
        }
    }
    let mut found: Vec<String> = Vec::new();
    let mut t: usize = 0;
    while t < records.len()
        invariant
            t <= records@.len(),
            found.deep_view() =~= spec_txt_dids(rv.take(t as int)),
        decreases records@.len() - t,
    {
        proof {
            assert(rv.take(t as int + 1).drop_last() =~= rv.take(t as int));
            assert(rv.take(t as int + 1).last() == rv[t as int]);
        }
        match strip_prefix_str(&records[t], "did=") {
            Some(did) => {
                if did_syntax_ok(&did) {
                    crate::codec::push_deep(&mut found, did);
                }
            },
            None => {
            },
        }
        proof {
            assert(found.deep_view() =~= spec_txt_dids(rv.take(t as int + 1)));
        }
        t = t + 1;
    }
    proof {
        assert(rv.take(rv.len() as int) =~= rv);
    }
    if found.len() == 1 {
        let mut found = found;
        let did = found.pop().unwrap();
        proof {
            assert(did@ == spec_txt_dids(rv)[0]);
        }
        Some(did)
    } else {
        None
    }
}

/// Confirms a resolved state against what the user asked for: a handle is
/// valid only when it appears in the state it points at.
pub fn resolve_check(user: &String, state: &State) -> (r: Result<(), Error>)
    ensures
        r is Ok <==> (user@ == state@.did || spec_handle_of(state@.plc.also_known_as, 0) == Some(
            user@,
        )),
        r matches Err(e) ==> e == Error::HandleInvalid,
{
    if *user == *state.did() {
        return Ok(());
    }
    match state.handle() {
        Some(h) => {
            if h == *user {
                Ok(())
            } else {
                Err(Error::HandleInvalid)
            }
        },
        None => Err(Error::HandleInvalid),
    }
}

} // verus!
