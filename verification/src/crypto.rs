//! Signature decoding and verification at the `did:key` boundary.

use vstd::prelude::*;
use vstd::string::StrSliceExecFns;

verus! {

/// What base64url decoding (unpadded alphabet) yields for the given text:
/// the decoded bytes, or nothing when the text is not accepted.
pub uninterp spec fn b64url_decoded(s: Seq<char>) -> Option<Seq<u8>>;

/// Relies on base64ct's `Base64UrlUnpadded::decode_vec`: whether it accepts
/// and what it returns are functions of the input text alone.
#[verifier::external_body]
pub fn b64url_decode(s: &str) -> (r: Option<Vec<u8>>)
    ensures
        match r {
            Some(v) => b64url_decoded(s@) == Some(v@),
            None => b64url_decoded(s@) is None,
        },
{
    match <base64ct::Base64UrlUnpadded as base64ct::Encoding>::decode_vec(s) {
        Ok(v) => Some(v),
        Err(_) => None,
    }
}

/// Whether the signature verifies over the message under the public key that
/// the `did:key` text carries; `malleable` also admits DER-encoded and
/// high-S signatures. A function of its arguments alone.
pub uninterp spec fn did_key_verifies(
    key: Seq<char>,
    malleable: bool,
    msg: Seq<u8>,
    sig: Seq<u8>,
) -> bool;

/// Relies on atrium-crypto's `parse_did_key` and `Verifier::verify`: ECDSA
/// verification over secp256k1 or P-256, deterministic in the key text, the
/// message, the signature, and the malleability mode. `parse_did_key` would
/// panic on a `did:key:` whose multibase payload decodes to fewer than two
/// bytes (it slices the two-byte multicodec prefix unchecked), so such keys
/// are rejected here first, with the same multibase decoder: they carry no
/// complete multicodec prefix and can verify nothing.
#[verifier::external_body]
pub fn verify_did_key(key: &str, malleable: bool, msg: &Vec<u8>, sig: &Vec<u8>) -> (r: bool)
    ensures
        r == did_key_verifies(key@, malleable, msg@, sig@),
{
    if let Some(multikey) = key.strip_prefix("did:key:") {
        match atrium_crypto::multibase::decode(multikey) {
            Ok((_, decoded)) if decoded.len() >= 2 => {},
            _ => return false,
        }
    }
    atrium_crypto::did::parse_did_key(key)
        .and_then(|(alg, pk)| {
            atrium_crypto::verify::Verifier::new(malleable)
                .verify(alg, &pk, msg.as_slice(), sig.as_slice())
        })
        .is_ok()
}

/// The text with its trailing `=` characters removed.
pub open spec fn spec_trim_padding(s: Seq<char>) -> Seq<char>
    decreases s.len(),
{
    if s.len() > 0 && s.last() == '=' {
        spec_trim_padding(s.drop_last())
    } else {
        s
    }
}

/// Removes trailing `=` padding characters.
pub fn trim_padding(s: &String) -> (r: &str)
    ensures
        r@ == spec_trim_padding(s@),
{
    let mut end: usize = s.as_str().unicode_len();
    proof {
        assert(s@.take(end as int) =~= s@);
    }
    loop
        invariant
            end <= s@.len(),
            spec_trim_padding(s@) == spec_trim_padding(s@.take(end as int)),
        decreases end,
    {
        if end == 0 {
            let r = s.as_str().substring_char(0, 0);
            proof {
                assert(s@.take(0) =~= Seq::<char>::empty());
                assert(spec_trim_padding(s@.take(0)) == s@.take(0));
                assert(r@ =~= s@.take(0));
            }
            return r;
        }
        let c = s.as_str().get_char(end - 1);
        if c != '=' {
            proof {
                assert(s@.take(end as int).last() == s@[end as int - 1]);
                assert(spec_trim_padding(s@.take(end as int)) == s@.take(end as int));
            }
            let r = s.as_str().substring_char(0, end);
            return r;
        }
        proof {
            assert(s@.take(end as int).last() == '=');
            assert(s@.take(end as int).drop_last() =~= s@.take(end as int - 1));
        }
        end = end - 1;
    }
}

/// The signature text the validator decodes: padding is tolerated (trimmed
/// first) only for entries before the malleability cutoff.
pub open spec fn spec_sig_text(sig: Seq<char>, malleable: bool) -> Seq<char> {
    if malleable {
        spec_trim_padding(sig)
    } else {
        sig
    }
}

/// The decoded signature bytes of an entry, if its encoding is acceptable.
pub open spec fn spec_decoded_sig(sig: Seq<char>, malleable: bool) -> Option<Seq<u8>> {
    b64url_decoded(spec_sig_text(sig, malleable))
}

/// Decodes a signature, trimming padding only in malleable mode.
pub fn decode_sig(sig: &String, malleable: bool) -> (r: Option<Vec<u8>>)
    ensures
        match r {
            Some(v) => spec_decoded_sig(sig@, malleable) == Some(v@),
            None => spec_decoded_sig(sig@, malleable) is None,
        },
{
    if malleable {
        b64url_decode(trim_padding(sig))
    } else {
        b64url_decode(sig.as_str())
    }
}

} // verus!
