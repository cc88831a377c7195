use wormhole_core::transfer::{accept_transfer, decode_transfer_payload, AcceptError};
use sha3::Digest;
use wormhole_core::ledger::{ClaimError, ClaimKey, ClaimLedger};
use wormhole_core::guardian::{quorum, signer_address, verify_signatures, GuardianSet, ThresholdError};
use wormhole_core::merkle::{verify, MerkleTree};
use wormhole_core::messages::{create_dummy_price_feed_message, encode_merkle_root_payload, message_to_bytes};
use wormhole_core::vaa::{decode, digest, encode, encode_body, Body, EnvelopeError, GuardianSignature, Header, Vaa};

fn keccak(data: &[u8]) -> Vec<u8> {
    sha3::Keccak256::digest(data).to_vec()
}

fn secret(i: u8) -> libsecp256k1::SecretKey {
    let mut b = [0u8; 32];
    b[0] = i + 1;
    libsecp256k1::SecretKey::parse(&b).unwrap()
}

fn address_of(i: u8) -> Vec<u8> {
    let pk = libsecp256k1::PublicKey::from_secret_key(&secret(i));
    keccak(&pk.serialize()[1..])[12..].to_vec()
}

fn guardian_set(n: u8) -> GuardianSet {
    GuardianSet { index: 0, keys: (0..n).map(address_of).collect(), expiration_time: 0 }
}

fn sign(digest: &[u8], signer: u8, index: u8) -> GuardianSignature {
    let msg = libsecp256k1::Message::parse_slice(digest).unwrap();
    let (sig, rid) = libsecp256k1::sign(&msg, &secret(signer));
    let mut s = sig.serialize().to_vec();
    s.push(rid.serialize());
    GuardianSignature { index, signature: s }
}

fn body(payload: Vec<u8>) -> Body {
    Body {
        timestamp: 1,
        nonce: 2,
        emitter_chain: 26,
        emitter_address: vec![1u8; 32],
        sequence: 2,
        consistency_level: 0,
        payload,
    }
}

fn header(d: &[u8], indices: &[u8]) -> Header {
    Header { version: 1, guardian_set_index: 0, signatures: indices.iter().map(|i| sign(d, *i, *i)).collect() }
}

#[test]
fn quorum_of_nineteen_is_thirteen() {
    assert_eq!(quorum(19), 13);
    assert_eq!(quorum(0), 1);
    assert_eq!(quorum(3), 3);
    assert_eq!(quorum(4), 3);
}

#[test]
fn body_encoding_is_exact() {
    let b = body(vec![9, 8]);
    let bytes = encode_body(&b);
    let mut expected = vec![0, 0, 0, 1, 0, 0, 0, 2, 0, 26];
    expected.extend_from_slice(&[1u8; 32]);
    expected.extend_from_slice(&[0, 0, 0, 0, 0, 0, 0, 2, 0, 9, 8]);
    assert_eq!(bytes, expected);
    assert_eq!(digest(&b), keccak(&keccak(&expected)));
}

#[test]
fn envelope_round_trip() {
    let b = body(vec![1, 2, 3]);
    let d = digest(&b);
    let v = Vaa { header: header(&d, &[0, 3, 7]), body: b };
    let bytes = encode(&v);
    assert_eq!(bytes.len(), 6 + 66 * 3 + 51 + 3);
    let back = decode(&bytes).ok().unwrap();
    assert_eq!(back.header.signatures.len(), 3);
    assert_eq!(back.header.signatures[1].index, 3);
    assert_eq!(back.body.payload, vec![1, 2, 3]);
    assert_eq!(back.body.sequence, 2);
    assert_eq!(encode(&back), bytes);
}

#[test]
fn malformed_envelopes_are_rejected() {
    let b = body(vec![]);
    let d = digest(&b);
    let bytes = encode(&Vaa { header: header(&d, &[0, 1]), body: b });
    assert!(matches!(decode(&bytes[..5]), Err(EnvelopeError::Malformed)));
    assert!(matches!(decode(&bytes[..bytes.len() - 1]), Err(EnvelopeError::Malformed)));
    let mut wrong_version = bytes.clone();
    wrong_version[0] = 2;
    assert!(matches!(decode(&wrong_version), Err(EnvelopeError::Malformed)));
    assert!(decode(&bytes).is_ok());
}

#[test]
fn recovered_signer_is_the_guardian() {
    let d = digest(&body(vec![5]));
    let s = sign(&d, 4, 4);
    assert_eq!(signer_address(&d, &s.signature), Some(address_of(4)));
    let mut bad = s.signature.clone();
    bad[64] = 7;
    assert_eq!(signer_address(&d, &bad), None);
}

#[test]
fn twelve_of_nineteen_fails_thirteen_succeeds() {
    let set = guardian_set(19);
    let d = digest(&body(vec![1]));
    let twelve: Vec<u8> = (0..12).collect();
    let thirteen: Vec<u8> = (3..16).collect();
    assert_eq!(verify_signatures(&header(&d, &twelve), &d, &set, 13, 0), Err(ThresholdError::QuorumNotMet));
    assert_eq!(verify_signatures(&header(&d, &thirteen), &d, &set, 13, 0), Ok(()));
}

#[test]
fn one_mismatched_signature_fails_all() {
    let set = guardian_set(19);
    let d = digest(&body(vec![1]));
    let mut h = header(&d, &(0..13).collect::<Vec<u8>>());
    h.signatures[5] = sign(&d, 18, 5);
    assert_eq!(verify_signatures(&h, &d, &set, 13, 0), Err(ThresholdError::InvalidSignature));
    let other = digest(&body(vec![2]));
    let h2 = header(&other, &(0..13).collect::<Vec<u8>>());
    assert_eq!(verify_signatures(&h2, &d, &set, 13, 0), Err(ThresholdError::InvalidSignature));
}

#[test]
fn index_outside_set_is_invalid() {
    let set = guardian_set(5);
    let d = digest(&body(vec![1]));
    let h = Header { version: 1, guardian_set_index: 0, signatures: vec![sign(&d, 0, 0), sign(&d, 1, 9)] };
    assert_eq!(verify_signatures(&h, &d, &set, 2, 0), Err(ThresholdError::InvalidSignature));
}

#[test]
fn duplicate_and_unsorted_indices_fail() {
    let set = guardian_set(19);
    let d = digest(&body(vec![1]));
    let mut dup = header(&d, &(0..13).collect::<Vec<u8>>());
    dup.signatures[4] = dup.signatures[3].clone();
    assert_eq!(verify_signatures(&dup, &d, &set, 13, 0), Err(ThresholdError::UnsortedSignatures));
    let mut unsorted = header(&d, &(0..13).collect::<Vec<u8>>());
    unsorted.signatures.swap(2, 8);
    assert_eq!(verify_signatures(&unsorted, &d, &set, 13, 0), Err(ThresholdError::UnsortedSignatures));
    let mut garbage = header(&d, &[0, 1, 1]);
    garbage.signatures[0].signature = vec![0u8; 65];
    assert_eq!(verify_signatures(&garbage, &d, &set, 3, 0), Err(ThresholdError::UnsortedSignatures));
}

#[test]
fn stale_guardian_set_fails() {
    let mut set = guardian_set(19);
    let d = digest(&body(vec![1]));
    let h = header(&d, &(0..13).collect::<Vec<u8>>());
    set.index = 1;
    assert_eq!(verify_signatures(&h, &d, &set, 13, 0), Err(ThresholdError::StaleGuardianSet));
    set.index = 0;
    set.expiration_time = 100;
    assert_eq!(verify_signatures(&h, &d, &set, 13, 101), Err(ThresholdError::StaleGuardianSet));
    assert_eq!(verify_signatures(&h, &d, &set, 13, 100), Ok(()));
}

#[test]
fn merkle_root_payload_layout() {
    let p = encode_merkle_root_payload(3, 4, &[7u8; 20]);
    let mut expected = vec![0x41, 0x55, 0x57, 0x56, 1, 0, 0, 0, 0, 0, 0, 0, 0, 0, 3, 0, 0, 0, 4];
    expected.extend_from_slice(&[7u8; 20]);
    assert_eq!(p, expected);
}

#[test]
fn accumulator_attestation_end_to_end() {
    let leaves: Vec<Vec<u8>> = (1..=4).map(|v| message_to_bytes(&create_dummy_price_feed_message(v))).collect();
    let tree = MerkleTree::build(&leaves).ok().unwrap();
    let proof = tree.prove(&leaves[2]).ok().unwrap();
    let payload = encode_merkle_root_payload(0, 0, &tree.root());
    let b = body(payload);
    let d = digest(&b);
    let vaa = Vaa { header: header(&d, &(6..19).collect::<Vec<u8>>()), body: b };
    let received = decode(&encode(&vaa)).ok().unwrap();
    let d2 = digest(&received.body);
    assert_eq!(verify_signatures(&received.header, &d2, &guardian_set(19), 13, 0), Ok(()));
    let root = received.body.payload[19..39].to_vec();
    assert!(verify(&root, &leaves[2], &proof));
    let mut ledger = ClaimLedger::new();
    let key = ClaimKey {
        emitter_chain: received.body.emitter_chain,
        emitter_address: received.body.emitter_address.clone(),
        sequence: received.body.sequence,
    };
    assert_eq!(ledger.claim(&key), Ok(()));
    assert_eq!(ledger.claims.len(), 1);
    let again = decode(&encode(&vaa)).ok().unwrap();
    let key2 = ClaimKey {
        emitter_chain: again.body.emitter_chain,
        emitter_address: again.body.emitter_address.clone(),
        sequence: again.body.sequence,
    };
    assert_eq!(ledger.claim(&key2), Err(ClaimError::Replay));
    assert_eq!(ledger.claims.len(), 1);
}

fn transfer_payload_bytes(uri: &[u8], to_chain: u16) -> Vec<u8> {
    let mut b = vec![1u8];
    b.extend_from_slice(&[6u8; 32]);
    b.extend_from_slice(&[0, 1]);
    b.extend_from_slice(&[b'S'; 32]);
    b.extend_from_slice(&[b'N'; 32]);
    b.extend_from_slice(&[7u8; 32]);
    b.push(uri.len() as u8);
    b.extend_from_slice(uri);
    b.extend_from_slice(&[3u8; 32]);
    b.extend_from_slice(&to_chain.to_be_bytes());
    b
}

#[test]
fn transfer_payload_decodes() {
    let b = transfer_payload_bytes(b"uri", 5);
    let p = decode_transfer_payload(&b).ok().unwrap();
    assert_eq!(p.token_address, vec![6u8; 32]);
    assert_eq!(p.token_chain, 1);
    assert_eq!(p.uri, b"uri".to_vec());
    assert_eq!(p.to, vec![3u8; 32]);
    assert_eq!(p.to_chain, 5);
    assert!(decode_transfer_payload(&b[..b.len() - 1]).is_err());
    let mut bad = b.clone();
    bad[0] = 2;
    assert!(decode_transfer_payload(&bad).is_err());
}

#[test]
fn accepted_transfer_names_the_attestation() {
    let b = body(transfer_payload_bytes(b"u", 1));
    let d = digest(&b);
    let vaa = Vaa { header: header(&d, &(0..13).collect::<Vec<u8>>()), body: b };
    let c = accept_transfer(&vaa, &guardian_set(19), 13, 0).ok().unwrap();
    assert_eq!(c.emitter_chain, 26);
    assert_eq!(c.emitter_address, vec![1u8; 32]);
    assert_eq!(c.sequence, 2);
    assert_eq!(c.payload.to_chain, 1);
    let short = Vaa { header: header(&d, &(0..12).collect::<Vec<u8>>()), body: vaa.body.clone() };
    assert_eq!(
        accept_transfer(&short, &guardian_set(19), 13, 0).err(),
        Some(AcceptError::Signatures(ThresholdError::QuorumNotMet))
    );
    let nb = body(vec![1, 2, 3]);
    let nd = digest(&nb);
    let bad = Vaa { header: header(&nd, &(0..13).collect::<Vec<u8>>()), body: nb };
    assert_eq!(accept_transfer(&bad, &guardian_set(19), 13, 0).err(), Some(AcceptError::MalformedPayload));
}
