use ed25519_dalek::{Signer, SigningKey};
use rand::rngs::OsRng;
use zona_p2p::bft::certificate::{BftCertificate, CertPayload};
use zona_p2p::bft::epoch::{verify_epoch_chain, EpochHeader};
use zona_p2p::bft::error::BftError;
use zona_p2p::bft::light_client::{Anchor, CertObservation, LightClient};
use zona_p2p::bft::state::{BftState, FinalityStatus};
use zona_p2p::bft::validator::{ValidatorEntry, ValidatorSet};
use zona_p2p::node_id::NodeId;
use zona_p2p::signing::derive_node_id;

fn dummy_vs(epoch: u64) -> ValidatorSet {
    let entry = ValidatorEntry { node_id: NodeId([epoch as u8; 32]), pubkey: [epoch as u8; 32], weight: 1 };
    ValidatorSet::new(epoch, vec![entry])
}

#[test]
fn chain_of_two_epochs_ok() {
    let vs0 = dummy_vs(0);
    let vs1 = dummy_vs(1);
    let h0 = EpochHeader::new(&vs0, Some(&vs1), 0);
    let h1 = EpochHeader::new(&vs1, None, 100);

    assert!(verify_epoch_chain(vs0.set_hash, &[h0, h1]).is_ok());
}

#[test]
fn chain_wrong_commitment_fails() {
    let vs0 = dummy_vs(0);
    let vs1 = dummy_vs(1);
    let vs2 = dummy_vs(2);
    let h0 = EpochHeader::new(&vs0, Some(&vs1), 0);
    let h_wrong = EpochHeader::new(&vs2, None, 100);

    assert!(verify_epoch_chain(vs0.set_hash, &[h0, h_wrong]).is_err());
}

#[test]
fn chain_errors_name_the_fault() {
    let vs0 = dummy_vs(0);
    let vs1 = dummy_vs(1);
    let vs3 = dummy_vs(3);
    let h0 = EpochHeader::new(&vs0, Some(&vs1), 0);
    assert!(matches!(verify_epoch_chain([9u8; 32], &[h0.clone()]), Err(BftError::ValidatorSetHashMismatch { .. })));
    let h3 = EpochHeader::new(&vs3, None, 100);
    assert!(matches!(
        verify_epoch_chain(vs0.set_hash, &[h0.clone(), h3]),
        Err(BftError::NonConsecutiveEpoch { expected: 1, got: 3 })
    ));
    let h0_open = EpochHeader::new(&vs0, None, 0);
    let h1 = EpochHeader::new(&vs1, None, 100);
    assert!(matches!(verify_epoch_chain(vs0.set_hash, &[h0_open, h1]), Err(BftError::NoNextEpochCommitment)));
    assert!(verify_epoch_chain([1u8; 32], &[]).is_ok());
}

#[test]
fn no_epoch_follows_the_last_one() {
    let last = dummy_vs(u64::MAX);
    let next = dummy_vs(0);
    let h_last = EpochHeader::new(&last, Some(&next), 0);
    let h_next = EpochHeader::new(&next, None, 1);
    assert!(matches!(
        verify_epoch_chain(last.set_hash, &[h_last.clone(), h_next]),
        Err(BftError::EpochExhausted { epoch: u64::MAX })
    ));
    assert!(verify_epoch_chain(last.set_hash, &[h_last]).is_ok());
}

fn make_validator() -> (ValidatorEntry, SigningKey) {
    let sk = SigningKey::generate(&mut OsRng);
    let pk = *sk.verifying_key().as_bytes();
    let node_id = derive_node_id(&pk);
    (ValidatorEntry { node_id, pubkey: pk, weight: 1 }, sk)
}

#[test]
fn quorum_threshold_21_validators() {
    let entries: Vec<_> = (0..21).map(|_| make_validator().0).collect();
    let vs = ValidatorSet::new(0, entries);
    assert_eq!(vs.quorum_threshold(), 15);
    assert_eq!(vs.total_weight(), 21);
}

#[test]
fn verify_quorum_ok() {
    let (entry, sk) = make_validator();
    let vs = ValidatorSet::new(0, vec![entry.clone()]);
    let msg = b"test message";
    let sig = sk.sign(msg).to_bytes().to_vec();
    assert!(vs.verify_quorum(msg, &[(entry.node_id, sig)]).is_ok());
}

#[test]
fn verify_quorum_insufficient() {
    let (e1, _) = make_validator();
    let (e2, sk2) = make_validator();
    let vs = ValidatorSet::new(0, vec![e1, e2.clone()]);
    let msg = b"test";
    let sig = sk2.sign(msg).to_bytes().to_vec();
    assert!(matches!(vs.verify_quorum(msg, &[(e2.node_id, sig)]), Err(BftError::InsufficientQuorum { .. })));
}

#[test]
fn verify_quorum_rejects_unknown_and_bad_signatures() {
    let (e1, sk1) = make_validator();
    let (stranger, sk_s) = make_validator();
    let vs = ValidatorSet::new(0, vec![e1.clone()]);
    let msg = b"m";
    let sig_s = sk_s.sign(msg).to_bytes().to_vec();
    assert!(matches!(vs.verify_quorum(msg, &[(stranger.node_id, sig_s)]), Err(BftError::UnknownValidator { .. })));
    let wrong = sk1.sign(b"other").to_bytes().to_vec();
    assert!(matches!(vs.verify_quorum(msg, &[(e1.node_id, wrong)]), Err(BftError::InvalidSignature { .. })));
    let sig1 = sk1.sign(msg).to_bytes().to_vec();
    assert!(vs.get(&e1.node_id).is_some());
    assert!(vs.get(&stranger.node_id).is_none());
    // A repeated signer counts once, and a repeat is not re-checked.
    assert!(vs.verify_quorum(msg, &[(e1.node_id, sig1.clone()), (e1.node_id, vec![0u8; 3])]).is_ok());
}

fn make_cert_with_validators(n: usize, signing_n: usize) -> (BftCertificate, ValidatorSet) {
    let mut entries = vec![];
    let mut sks = vec![];
    for _ in 0..n {
        let (e, sk) = make_validator();
        entries.push(e);
        sks.push(sk);
    }
    let vs = ValidatorSet::new(1, entries.clone());
    let payload = CertPayload { epoch: 1, height: 42, block_hash: [0xAB; 32] };
    let msg = payload.to_bytes();
    let signatures: Vec<_> = entries
        .iter()
        .zip(sks.iter())
        .take(signing_n)
        .map(|(e, sk)| (e.node_id, sk.sign(&msg).to_bytes().to_vec()))
        .collect();
    (BftCertificate { payload, signatures }, vs)
}

#[test]
fn cert_valid_with_quorum() {
    let (cert, vs) = make_cert_with_validators(4, 3);
    assert!(cert.verify(&vs).is_ok());
}

#[test]
fn cert_insufficient_quorum() {
    let (cert, vs) = make_cert_with_validators(4, 2);
    assert!(matches!(cert.verify(&vs), Err(BftError::InsufficientQuorum { .. })));
}

#[test]
fn cert_epoch_mismatch() {
    let (cert, mut vs) = make_cert_with_validators(4, 3);
    vs.epoch = 99;
    assert!(matches!(cert.verify(&vs), Err(BftError::EpochMismatch { .. })));
}

#[test]
fn cert_payload_bytes_are_canonical() {
    let payload = CertPayload { epoch: 1, height: 2, block_hash: [3u8; 32] };
    let mut expected = Vec::new();
    expected.extend_from_slice(&1u64.to_le_bytes());
    expected.extend_from_slice(&2u64.to_le_bytes());
    expected.extend_from_slice(&[3u8; 32]);
    assert_eq!(payload.to_bytes(), expected);
    let cert = BftCertificate { payload, signatures: vec![] };
    assert_eq!(cert.hash(), cert.hash());
}

fn make_vs_with_signers(n: usize) -> (ValidatorSet, Vec<SigningKey>) {
    let mut entries = vec![];
    let mut sks = vec![];
    for _ in 0..n {
        let (e, sk) = make_validator();
        entries.push(e);
        sks.push(sk);
    }
    (ValidatorSet::new(0, entries), sks)
}

fn make_cert(vs: &ValidatorSet, sks: &[SigningKey], height: u64) -> BftCertificate {
    let payload = CertPayload { epoch: vs.epoch, height, block_hash: [height as u8; 32] };
    let msg = payload.to_bytes();
    let threshold = vs.quorum_threshold() as usize;
    let signatures: Vec<_> = vs
        .entries
        .iter()
        .zip(sks.iter())
        .take(threshold)
        .map(|(e, sk)| (e.node_id, sk.sign(&msg).to_bytes().to_vec()))
        .collect();
    BftCertificate { payload, signatures }
}

#[test]
fn apply_valid_certificate() {
    let (vs, sks) = make_vs_with_signers(4);
    let genesis_hash = [0u8; 32];
    let mut state = BftState::genesis(vs.clone(), genesis_hash);

    let cert = make_cert(&vs, &sks, 1);
    assert!(state.apply_certificate(&cert).unwrap());
    assert_eq!(state.finalised_height, 1);
}

#[test]
fn stale_certificate_returns_false() {
    let (vs, sks) = make_vs_with_signers(4);
    let mut state = BftState::genesis(vs.clone(), [0u8; 32]);

    let cert = make_cert(&vs, &sks, 5);
    state.apply_certificate(&cert).unwrap();

    let cert2 = make_cert(&vs, &sks, 5);
    assert!(!state.apply_certificate(&cert2).unwrap());
}

#[test]
fn finality_paused_blocks_new_certs() {
    let (vs, sks) = make_vs_with_signers(4);
    let mut state = BftState::genesis(vs.clone(), [0u8; 32]);
    state.record_divergence();

    let cert = make_cert(&vs, &sks, 1);
    assert!(matches!(state.apply_certificate(&cert), Err(BftError::FinalityPaused)));
}

#[test]
fn resume_allows_certs_again() {
    let (vs, sks) = make_vs_with_signers(4);
    let mut state = BftState::genesis(vs.clone(), [0u8; 32]);
    state.record_divergence();
    state.resume_finality();

    let cert = make_cert(&vs, &sks, 1);
    assert!(state.apply_certificate(&cert).is_ok());
}

#[test]
fn finality_reads_follow_status() {
    let (vs, sks) = make_vs_with_signers(4);
    let mut state = BftState::genesis(vs.clone(), [0u8; 32]);
    assert!(state.apply_certificate(&make_cert(&vs, &sks, 3)).unwrap());
    assert!(state.is_final(3));
    assert!(state.is_final(2));
    assert!(!state.is_final(4));
    state.record_divergence();
    assert_eq!(state.finality_status, FinalityStatus::Paused);
    assert!(!state.is_final(1));
    state.resume_finality();
    assert!(state.is_final(3));
}

fn make_obs(vs: &ValidatorSet, sks: &[SigningKey], height: u64, referrer: u8) -> CertObservation {
    let payload = CertPayload { epoch: 0, height, block_hash: [height as u8; 32] };
    let msg = payload.to_bytes();
    let threshold = vs.quorum_threshold() as usize;
    let signatures: Vec<_> = vs
        .entries
        .iter()
        .zip(sks.iter())
        .take(threshold)
        .map(|(e, sk)| (e.node_id, sk.sign(&msg).to_bytes().to_vec()))
        .collect();
    CertObservation { cert: BftCertificate { payload, signatures }, referrer_id: NodeId([referrer; 32]) }
}

fn make_lc(vs: ValidatorSet) -> LightClient {
    LightClient::from_genesis(Anchor { height: 0, block_hash: [0u8; 32], validator_set_hash: vs.set_hash }, vs)
}

#[test]
fn two_channels_advance_best() {
    let (vs, sks) = make_vs_with_signers(4);
    let mut lc = make_lc(vs.clone());

    assert!(!lc.observe(make_obs(&vs, &sks, 1, 0xAA)).unwrap());
    assert!(lc.observe(make_obs(&vs, &sks, 1, 0xBB)).unwrap());
    assert_eq!(lc.best_height, 1);
}

#[test]
fn one_channel_plus_checkpoint_advances() {
    let (vs, sks) = make_vs_with_signers(4);
    let mut lc = make_lc(vs.clone());
    lc.provide_external_checkpoint();

    assert!(lc.observe(make_obs(&vs, &sks, 1, 0xAA)).unwrap());
    assert_eq!(lc.best_height, 1);
}

#[test]
fn same_referrer_does_not_advance() {
    let (vs, sks) = make_vs_with_signers(4);
    let mut lc = make_lc(vs.clone());

    lc.observe(make_obs(&vs, &sks, 1, 0xAA)).unwrap();
    assert!(!lc.observe(make_obs(&vs, &sks, 1, 0xAA)).unwrap());
    assert_eq!(lc.best_height, 0);
}
