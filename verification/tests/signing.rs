use ed25519_dalek::{Signer, SigningKey};
use sha2::{Digest, Sha256};
use zona_p2p::invite::{create_invite, verify_invite};
use zona_p2p::node_id::NodeId;
use zona_p2p::signing::{derive_node_id, sign_bytes, sign_descriptor, sign_envelope, verify_bytes, verify_descriptor, verify_envelope, NodeKeypair};
use zona_p2p::types::descriptor::Descriptor;
use zona_p2p::types::messages::{Envelope, MessageClass, MessageKind};
use zona_p2p::types::reach::ReachList;

fn make_desc(kp: &NodeKeypair) -> Descriptor {
    Descriptor {
        node_id: kp.node_id,
        pubkey: kp.raw_public(),
        reach: ReachList(vec![]),
        version: 1,
        provisional: false,
        signature: vec![0u8; 64],
    }
}

#[test]
fn same_pubkey_same_node_id() {
    let pk = [42u8; 32];
    assert_eq!(derive_node_id(&pk), derive_node_id(&pk));
}

#[test]
fn different_pubkey_different_node_id() {
    let pk1 = [1u8; 32];
    let pk2 = [2u8; 32];
    assert_ne!(derive_node_id(&pk1), derive_node_id(&pk2));
}

#[test]
fn node_id_is_sha256_of_key() {
    let pk = [7u8; 32];
    let d: [u8; 32] = Sha256::digest(pk).into();
    assert_eq!(derive_node_id(&pk), NodeId(d));
}

#[test]
fn keypair_from_seed_matches_dalek() {
    let seed = [5u8; 32];
    let kp = NodeKeypair::from_seed(seed);
    let sk = SigningKey::from_bytes(&seed);
    assert_eq!(kp.raw_public(), *sk.verifying_key().as_bytes());
    assert_eq!(kp.node_id, derive_node_id(&kp.verifying));
    assert_eq!(sign_bytes(b"abc", &kp.signing), sk.sign(b"abc").to_bytes().to_vec());
}

#[test]
fn sign_and_verify_roundtrip() {
    let kp = NodeKeypair::generate();
    let mut desc = make_desc(&kp);
    sign_descriptor(&mut desc, &kp.signing);
    assert!(verify_descriptor(&desc).is_ok(), "verify failed");
}

#[test]
fn tampered_descriptor_fails() {
    let kp = NodeKeypair::generate();
    let mut desc = make_desc(&kp);
    sign_descriptor(&mut desc, &kp.signing);
    desc.version = 999;
    assert!(verify_descriptor(&desc).is_err());
}

#[test]
fn descriptor_with_foreign_id_fails() {
    let kp = NodeKeypair::generate();
    let mut desc = make_desc(&kp);
    desc.node_id = NodeId([1u8; 32]);
    sign_descriptor(&mut desc, &kp.signing);
    assert!(verify_descriptor(&desc).is_err());
    let mut short = make_desc(&kp);
    sign_descriptor(&mut short, &kp.signing);
    short.signature.pop();
    assert!(verify_descriptor(&short).is_err());
}

#[test]
fn envelope_signatures() {
    let kp = NodeKeypair::from_seed([3u8; 32]);
    let mut env = Envelope {
        to: NodeId([1u8; 32]),
        from: kp.node_id,
        message_id: 1,
        ttl: 20,
        class: MessageClass::Normal,
        route_fork: false,
        body: MessageKind::Ping { nonce: 4 },
        signature: vec![],
    };
    assert!(verify_envelope(&env, &[0u8; 32]).is_ok());
    sign_envelope(&mut env, &kp.signing);
    assert_eq!(env.signature.len(), 64);
    assert!(verify_envelope(&env, &kp.verifying).is_ok());
    let other = NodeKeypair::from_seed([4u8; 32]);
    assert!(verify_envelope(&env, &other.verifying).is_err());
    env.ttl = 19;
    assert!(verify_envelope(&env, &kp.verifying).is_err());
}

#[test]
fn bytes_signatures() {
    let kp = NodeKeypair::from_seed([8u8; 32]);
    let sig = sign_bytes(b"payload", &kp.signing);
    assert!(verify_bytes(b"payload", &sig, &kp.verifying, &kp.node_id).is_ok());
    assert!(verify_bytes(b"payloaD", &sig, &kp.verifying, &kp.node_id).is_err());
    assert!(verify_bytes(b"payload", &sig[..63], &kp.verifying, &kp.node_id).is_err());
}

#[test]
fn invite_roundtrip() {
    let issuer = NodeKeypair::generate();
    let invitee = NodeKeypair::generate();
    let token = create_invite(&issuer, invitee.node_id, 9_999_999_999);
    assert!(verify_invite(&token, 0).is_ok());
}

#[test]
fn expired_invite_fails() {
    let issuer = NodeKeypair::generate();
    let invitee = NodeKeypair::generate();
    let token = create_invite(&issuer, invitee.node_id, 100);
    assert!(verify_invite(&token, 101).is_err());
    assert!(verify_invite(&token, 100).is_ok());
}

#[test]
fn invite_naming_another_issuer_fails() {
    let issuer = NodeKeypair::generate();
    let invitee = NodeKeypair::generate();
    let mut token = create_invite(&issuer, invitee.node_id, 1_000);
    let other = NodeId([9u8; 32]);
    token.issuer_id = other;
    // Re-sign the bytes that name the other issuer with the same key.
    let mut payload = Vec::new();
    payload.extend_from_slice(&token.invitee_id.0);
    payload.extend_from_slice(&token.expires_at.to_le_bytes());
    payload.extend_from_slice(&other.0);
    token.signature = sign_bytes(&payload, &issuer.signing);
    assert!(verify_invite(&token, 0).is_err());
}
