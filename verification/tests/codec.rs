//! Byte-exact checks of the canonical encoding, and cross-checks of every
//! trusted boundary against the crates it relies on.

use atrium_crypto::keypair::{Did as _, P256Keypair};
use ipld_core::ipld::Ipld;
use rand_core::OsRng;
use std::collections::BTreeMap;

use plc::codec::CborValue;
use plc::crypto::{b64url_decode, trim_padding, verify_did_key};
use plc::data::{PlcData, Service};
use plc::op::{ChangeOp, Operation, SignedOperation, TombstoneOp};

// Short local aliases for the library functions under test.
use plc::codec::encode_value;
use plc::codec::vec_bytes_lt;

fn enc(v: &CborValue) -> Vec<u8> {
    let mut out = Vec::new();
    encode_value(v, &mut out);
    out
}

fn hex_bytes(s: &str) -> Vec<u8> {
    let digits: Vec<u32> = s.chars().map(|c| c.to_digit(16).unwrap()).collect();
    digits.chunks(2).map(|p| (p[0] * 16 + p[1]) as u8).collect()
}

#[test]
fn integers_encode_minimally() {
    assert_eq!(enc(&CborValue::Int(0)), vec![0x00]);
    assert_eq!(enc(&CborValue::Int(10)), vec![0x0a]);
    assert_eq!(enc(&CborValue::Int(23)), vec![0x17]);
    assert_eq!(enc(&CborValue::Int(24)), vec![0x18, 24]);
    assert_eq!(enc(&CborValue::Int(1000)), vec![0x19, 0x03, 0xe8]);
    assert_eq!(enc(&CborValue::Int(-1)), vec![0x20]);
    assert_eq!(enc(&CborValue::Int(-100)), vec![0x38, 99]);
}

#[test]
fn simple_values_encode() {
    assert_eq!(enc(&CborValue::Bool(false)), vec![0xf4]);
    assert_eq!(enc(&CborValue::Bool(true)), vec![0xf5]);
    assert_eq!(enc(&CborValue::Null), vec![0xf6]);
    assert_eq!(enc(&CborValue::Text("hello".to_string())), b"\x65hello".to_vec());
    assert_eq!(enc(&CborValue::Bytes(vec![1, 2, 3])), vec![0x43, 1, 2, 3]);
    assert_eq!(
        enc(&CborValue::Array(vec![CborValue::Int(1), CborValue::Text("a".to_string())])),
        vec![0x82, 0x01, 0x61, 0x61],
    );
}

#[test]
fn map_keys_sort_canonically() {
    // Shorter keys first, then bytewise: the declaration order must not
    // leak into the bytes.
    let v = CborValue::Object(vec![
        ("bb".to_string(), CborValue::Int(1)),
        ("a".to_string(), CborValue::Int(2)),
    ]);
    assert_eq!(enc(&v), vec![0xa2, 0x61, b'a', 0x02, 0x62, b'b', b'b', 0x01]);
}

#[test]
fn byte_order_is_lexicographic() {
    assert!(vec_bytes_lt(&vec![1, 2], &vec![1, 2, 3]));
    assert!(vec_bytes_lt(&vec![1, 2], &vec![1, 3]));
    assert!(!vec_bytes_lt(&vec![1, 3], &vec![1, 2, 0]));
    assert!(!vec_bytes_lt(&vec![], &vec![]));
}

#[test]
fn tombstone_bytes_match_dag_cbor() {
    let op = Operation::Tombstone(TombstoneOp {
        prev: "bafyreiaegzwq2gvetzeaybcqy6f4a7ez6gdocmnz6c4uljh5exhn26oj4u".to_string(),
    });
    let mut m = BTreeMap::new();
    m.insert("type".to_string(), Ipld::String("plc_tombstone".to_string()));
    m.insert(
        "prev".to_string(),
        Ipld::String("bafyreiaegzwq2gvetzeaybcqy6f4a7ez6gdocmnz6c4uljh5exhn26oj4u".to_string()),
    );
    let expected = serde_ipld_dagcbor::to_vec(&Ipld::Map(m)).unwrap();
    assert_eq!(op.unsigned_bytes(), expected);
}

#[test]
fn change_bytes_match_dag_cbor() {
    let op = Operation::Change(ChangeOp {
        data: PlcData {
            rotation_keys: vec!["did:key:zAAA".to_string(), "did:key:zBBB".to_string()],
            verification_methods: vec![("atproto".to_string(), "did:key:zCCC".to_string())],
            also_known_as: vec!["at://alice.example.com".to_string()],
            services: vec![(
                "atproto_pds".to_string(),
                Service {
                    service_type: "AtprotoPersonalDataServer".to_string(),
                    endpoint: "https://pds.example.com".to_string(),
                },
            )],
        },
        prev: None,
        extra_fields: Vec::new(),
    });
    let signed = SignedOperation { content: op, sig: "c2lnbmF0dXJl".to_string() };

    let mut vm = BTreeMap::new();
    vm.insert("atproto".to_string(), Ipld::String("did:key:zCCC".to_string()));
    let mut pds = BTreeMap::new();
    pds.insert("type".to_string(), Ipld::String("AtprotoPersonalDataServer".to_string()));
    pds.insert("endpoint".to_string(), Ipld::String("https://pds.example.com".to_string()));
    let mut services = BTreeMap::new();
    services.insert("atproto_pds".to_string(), Ipld::Map(pds));
    let mut m = BTreeMap::new();
    m.insert("type".to_string(), Ipld::String("plc_operation".to_string()));
    m.insert(
        "rotationKeys".to_string(),
        Ipld::List(vec![
            Ipld::String("did:key:zAAA".to_string()),
            Ipld::String("did:key:zBBB".to_string()),
        ]),
    );
    m.insert("verificationMethods".to_string(), Ipld::Map(vm));
    m.insert(
        "alsoKnownAs".to_string(),
        Ipld::List(vec![Ipld::String("at://alice.example.com".to_string())]),
    );
    m.insert("services".to_string(), Ipld::Map(services));
    m.insert("prev".to_string(), Ipld::Null);
    let unsigned_expected = serde_ipld_dagcbor::to_vec(&Ipld::Map(m.clone())).unwrap();
    assert_eq!(signed.unsigned_bytes(), unsigned_expected);

    m.insert("sig".to_string(), Ipld::String("c2lnbmF0dXJl".to_string()));
    let signed_expected = serde_ipld_dagcbor::to_vec(&Ipld::Map(m)).unwrap();
    assert_eq!(signed.signed_bytes(), signed_expected);
}

#[test]
fn sha256_matches_known_vector() {
    let digest = plc::codec::sha256(b"abc");
    assert_eq!(
        digest,
        hex_bytes("ba7816bf8f01cfea414140de5dae2223b00361a396177a9cb410ff61f20015ad"),
    );
}

#[test]
fn base32_matches_known_vector() {
    assert_eq!(plc::codec::base32_lower(b"foobar"), "mzxw6ytboi");
    assert_eq!(plc::codec::base32_lower(b""), "");
}

#[test]
fn cid_and_did_match_their_construction() {
    let signed = b"some signed operation bytes".to_vec();

    let digest = <sha2::Sha256 as sha2::Digest>::digest(&signed);
    let mut cid_bytes = vec![0x01u8, 0x71, 0x12, 0x20];
    cid_bytes.extend_from_slice(&digest);
    let expected_cid = format!(
        "b{}",
        base32::encode(base32::Alphabet::Rfc4648Lower { padding: false }, &cid_bytes),
    );
    assert_eq!(plc::codec::cid_str(&signed), expected_cid);

    let expected_did = format!(
        "did:plc:{}",
        &base32::encode(base32::Alphabet::Rfc4648Lower { padding: false }, &digest)[..24],
    );
    assert_eq!(plc::codec::derive_did(&signed), expected_did);
}

#[test]
fn base64url_decoding() {
    assert_eq!(b64url_decode("aGVsbG8"), Some(b"hello".to_vec()));
    // The unpadded alphabet rejects padding outright.
    assert_eq!(b64url_decode("aGVsbG8="), None);
    assert_eq!(b64url_decode("!!!"), None);
    // Trimming recovers a padded signature for pre-cutoff entries.
    assert_eq!(trim_padding(&"aGVsbG8=".to_string()), "aGVsbG8");
    assert_eq!(trim_padding(&"abc".to_string()), "abc");
    assert_eq!(trim_padding(&"===".to_string()), "");
}

#[test]
fn signature_verification_round_trip() {
    let mut rng = OsRng;
    let key = P256Keypair::create(&mut rng);
    let msg = b"an operation to sign".to_vec();
    let sig = key.sign(&msg).unwrap();
    assert!(verify_did_key(&key.did(), false, &msg, &sig));
    let other = b"a different operation".to_vec();
    assert!(!verify_did_key(&key.did(), false, &other, &sig));
    assert!(!verify_did_key("did:key:nonsense", false, &msg, &sig));
}

#[test]
fn truncated_did_keys_verify_nothing() {
    // Keys whose multibase payload decodes to fewer than two bytes carry no
    // complete multicodec prefix; they must be rejected, not aborted on.
    let msg = b"message".to_vec();
    let sig = vec![0u8; 64];
    assert!(!verify_did_key("did:key:z", false, &msg, &sig));
    assert!(!verify_did_key("did:key:z1", false, &msg, &sig));
    assert!(!verify_did_key("did:key:f00", false, &msg, &sig));
    assert!(!verify_did_key("did:key:", true, &msg, &sig));
    assert!(!verify_did_key("not-a-did-key", true, &msg, &sig));
}
