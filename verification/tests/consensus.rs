use bls12_381::{G1Projective, G2Projective, Scalar};
use ff::Field;
use group::Curve;
use group::Group;
use rand::rngs::OsRng;
use sovereign_lattice::pbft::{PbftMessage, PbftState, Phase, ViewChangePayload};
use sovereign_lattice::threshold_bls::{hash_message_to_curve, sign_bls_message};
use sovereign_lattice::wal::{encode_wal_entry, parse_wal};
use std::collections::HashMap;

fn g2_bytes(p: G2Projective) -> [u8; 96] {
    p.to_affine().to_compressed()
}

fn g1_bytes(p: G1Projective) -> [u8; 48] {
    p.to_affine().to_compressed()
}

fn generate_test_cluster(
    n: usize,
    threshold: usize,
) -> (HashMap<u32, [u8; 32]>, HashMap<u32, [u8; 96]>, [u8; 96]) {
    let mut secret_polynomial = Vec::new();
    for _ in 0..threshold {
        secret_polynomial.push(Scalar::random(&mut OsRng));
    }
    let master_sk = secret_polynomial[0];
    let master_pk = G2Projective::generator() * master_sk;

    let mut secret_keys = HashMap::new();
    let mut public_keys = HashMap::new();

    for i in 0..n as u32 {
        let x = Scalar::from((i + 1) as u64);
        let mut sk_i = Scalar::zero();
        let mut x_pow = Scalar::one();
        for coeff in &secret_polynomial {
            sk_i += coeff * &x_pow;
            x_pow *= &x;
        }
        let pk_i = G2Projective::generator() * sk_i;
        secret_keys.insert(i, sk_i.to_bytes());
        public_keys.insert(i, g2_bytes(pk_i));
    }
    (secret_keys, public_keys, g2_bytes(master_pk))
}

fn canonical(phase: Phase, view: u64, seq: u64, digest: &[u8; 32]) -> Vec<u8> {
    let mut canonical = Vec::new();
    canonical.push(phase as u8);
    canonical.extend_from_slice(&view.to_be_bytes());
    canonical.extend_from_slice(&seq.to_be_bytes());
    canonical.extend_from_slice(digest);
    canonical
}

fn create_pbft_message(
    phase: Phase,
    view: u64,
    seq: u64,
    digest: [u8; 32],
    sender_id: u32,
    sk: &[u8; 32],
) -> PbftMessage {
    let signature = sign_bls_message(&canonical(phase, view, seq, &digest), sk);
    PbftMessage { phase, view, seq, digest, sender_id, signature }
}

#[test]
fn test_conflicting_preprepare_rejected() {
    let n = 4;
    let threshold = 3;
    let (secret_keys, public_keys, master_pk) = generate_test_cluster(n, threshold);

    let mut state = PbftState::new(n, public_keys.clone(), master_pk).expect("Failed init");

    let view = state.current_view;
    let leader_id = state.get_expected_leader(view);
    let seq = state.highest_seq + 1;
    let digest_a = [0xaa; 32];
    let digest_b = [0xbb; 32];

    let msg_a = PbftMessage {
        phase: Phase::PrePrepare,
        view,
        seq,
        digest: digest_a,
        sender_id: leader_id,
        signature: sign_bls_message(
            &canonical(Phase::PrePrepare, view, seq, &digest_a),
            &secret_keys[&leader_id],
        ),
    };

    assert!(state.handle_message(&msg_a).is_ok());

    let msg_b = PbftMessage {
        phase: Phase::PrePrepare,
        view,
        seq,
        digest: digest_b,
        sender_id: leader_id,
        signature: sign_bls_message(
            &canonical(Phase::PrePrepare, view, seq, &digest_b),
            &secret_keys[&leader_id],
        ),
    };

    let result = state.handle_message(&msg_b);
    assert!(result.is_err());
    assert!(result.unwrap_err().contains("EQUIVOCATION_DETECTED"));
}

#[test]
fn test_orphan_prepare_rejected() {
    let n = 4;
    let threshold = 3;
    let (secret_keys, public_keys, master_pk) = generate_test_cluster(n, threshold);

    let mut state = PbftState::new(n, public_keys.clone(), master_pk).expect("Failed init");

    let view = 0;
    let seq = 1;
    let digest = [0xdd; 32];

    let msg = PbftMessage {
        phase: Phase::Prepare,
        view,
        seq,
        digest,
        sender_id: 1,
        signature: sign_bls_message(&canonical(Phase::Prepare, view, seq, &digest), &secret_keys[&1]),
    };

    let result = state.handle_message(&msg);
    assert!(result.is_err());
    assert!(result.unwrap_err().contains("ORPHAN_PREPARE"));
}

#[test]
fn test_full_consensus_lifecycle() {
    let n = 4;
    let threshold = 3;
    let (_secret_keys, public_keys, master_pk) = generate_test_cluster(n, threshold);

    let mut state = PbftState::new(n, public_keys, master_pk).expect("Failed to initialize state");

    let invalid_msg = PbftMessage {
        phase: Phase::PrePrepare,
        view: 0,
        seq: 1,
        digest: [0xee; 32],
        sender_id: 999,
        signature: g1_bytes(G1Projective::identity()),
    };

    let err = state.handle_message(&invalid_msg).unwrap_err();
    assert!(err.contains("AUTH_FAILED"));
}

#[test]
fn test_byzantine_fault_tolerance_quorum_progress() {
    let n = 4;
    let threshold = 3;
    let (secret_keys, public_keys, master_pk) = generate_test_cluster(n, threshold);

    // Node 3 is treated as an offline or Byzantine node
    let mut node_states: Vec<PbftState> = (0..3)
        .map(|_| PbftState::new(n, public_keys.clone(), master_pk).expect("Failed node init"))
        .collect();

    let view: u64 = 0;
    let seq: u64 = 1;
    let block_digest = [0x42; 32];
    let leader_id: u32 = 0;

    let pre_prepare = create_pbft_message(
        Phase::PrePrepare,
        view,
        seq,
        block_digest,
        leader_id,
        &secret_keys[&leader_id],
    );

    for state in node_states.iter_mut() {
        let res = state.handle_message(&pre_prepare);
        assert!(res.is_ok(), "Honest node must accept valid PrePrepare");
    }

    for sender_id in 0..3u32 {
        let prepare_msg = create_pbft_message(
            Phase::Prepare,
            view,
            seq,
            block_digest,
            sender_id,
            &secret_keys[&sender_id],
        );

        for state in node_states.iter_mut() {
            let res = state.handle_message(&prepare_msg);
            assert!(res.is_ok());
        }
    }

    for state in node_states.iter() {
        assert!(
            state.prepared_certificates.contains_key(&(view, seq)),
            "Quorum of 3 honest nodes must successfully form PreparedCertificate"
        );
    }

    for sender_id in 0..3u32 {
        let commit_msg = create_pbft_message(
            Phase::Commit,
            view,
            seq,
            block_digest,
            sender_id,
            &secret_keys[&sender_id],
        );

        for state in node_states.iter_mut() {
            let res = state.handle_message(&commit_msg);
            assert!(res.is_ok());
        }
    }

    for state in node_states.iter() {
        assert_eq!(
            state.committed_digest.get(&(view, seq)),
            Some(&block_digest),
            "Block must be safely committed despite 1 Byzantine/offline node"
        );
    }
}

#[test]
fn test_byzantine_leader_recovery_view_change() {
    let n = 4;
    let threshold = 3;
    let (secret_keys, public_keys, master_pk) = generate_test_cluster(n, threshold);

    let mut new_leader_state = PbftState::new(n, public_keys.clone(), master_pk).expect("Failed init");

    let target_view: u64 = 1;
    let seq: u64 = 0;
    let empty_digest = [0u8; 32];

    for voter_id in 1..4u32 {
        let vc_msg = create_pbft_message(
            Phase::ViewChange,
            target_view,
            seq,
            empty_digest,
            voter_id,
            &secret_keys[&voter_id],
        );

        let res = new_leader_state.handle_message(&vc_msg);
        assert!(res.is_ok());
    }

    assert_eq!(
        new_leader_state.current_view, target_view,
        "Cluster must advance view upon receiving 2f+1 view change votes"
    );
    assert!(
        new_leader_state.new_view_certificates.contains_key(&target_view),
        "NewViewCertificate must be formalized"
    );
}

#[test]
fn test_cluster_simulation_basic() {
    let n = 4;
    let mut public_keys = HashMap::new();

    for i in 0..n as u32 {
        let sk = Scalar::random(&mut OsRng);
        let pk = G2Projective::generator() * sk;
        public_keys.insert(i, g2_bytes(pk));
    }

    let master_sk = Scalar::random(&mut OsRng);
    let master_pk = g2_bytes(G2Projective::generator() * master_sk);

    let state = PbftState::new(n, public_keys, master_pk);
    assert!(state.is_ok());

    let msg = b"cluster_state_transition_probe";
    let point = hash_message_to_curve(msg);
    assert_ne!(point, g1_bytes(G1Projective::identity()));
}

#[test]
fn replica_setup_refuses_bad_topology_and_missing_keys() {
    let (_, public_keys, master_pk) = generate_test_cluster(5, 3);
    assert_eq!(PbftState::new(5, public_keys.clone(), master_pk).err(), Some("TOPOLOGY_VIOLATION"));
    let mut missing = public_keys.clone();
    missing.remove(&2);
    assert_eq!(PbftState::new(4, missing, master_pk).err(), Some("REGISTRY_VIOLATION"));
    let state = PbftState::new(4, public_keys, master_pk).unwrap();
    assert_eq!(state.f, 1);
    assert_eq!(state.quorum_size, 3);
    assert_eq!(state.total_nodes, 4);
    let single = {
        let (_, keys, mpk) = generate_test_cluster(1, 1);
        PbftState::new(1, keys, mpk).unwrap()
    };
    assert_eq!(single.quorum_size, 1);
}

#[test]
fn leadership_rotates_through_the_nodes() {
    let (_, public_keys, master_pk) = generate_test_cluster(4, 3);
    let state = PbftState::new(4, public_keys, master_pk).unwrap();
    let leaders: Vec<u32> = (0..9u64).map(|v| state.get_expected_leader(v)).collect();
    assert_eq!(leaders, vec![0, 1, 2, 3, 0, 1, 2, 3, 0]);
    assert_eq!(state.get_expected_leader(u64::MAX), (u64::MAX % 4) as u32);
    assert_eq!(state.get_expected_leader(u64::MAX - 4), state.get_expected_leader(u64::MAX));
}

#[test]
fn forged_signature_is_refused() {
    let (secret_keys, public_keys, master_pk) = generate_test_cluster(4, 3);
    let mut state = PbftState::new(4, public_keys, master_pk).unwrap();
    // Signed by node 1's key but claims to come from node 0.
    let msg = create_pbft_message(Phase::PrePrepare, 0, 1, [7; 32], 0, &secret_keys[&1]);
    assert_eq!(state.handle_message(&msg), Err("CRYPTO_AUTH_FAILED"));
    assert_eq!(state.current_view, 0);
    assert_eq!(state.highest_seq, 0);
}

#[test]
fn preprepare_from_wrong_leader_is_refused() {
    let (secret_keys, public_keys, master_pk) = generate_test_cluster(4, 3);
    let mut state = PbftState::new(4, public_keys, master_pk).unwrap();
    let msg = create_pbft_message(Phase::PrePrepare, 0, 1, [7; 32], 2, &secret_keys[&2]);
    let result = state.handle_message(&msg);
    assert!(result.is_err());
    assert!(!state.pre_prepared_proposals.contains_key(&(0, 1, [7; 32])));
}

#[test]
fn commit_without_prepared_certificate_is_refused() {
    let (secret_keys, public_keys, master_pk) = generate_test_cluster(4, 3);
    let mut state = PbftState::new(4, public_keys, master_pk).unwrap();
    let msg = create_pbft_message(Phase::Commit, 0, 1, [9; 32], 1, &secret_keys[&1]);
    assert!(state.handle_message(&msg).is_err());
    assert!(state.committed_digest.get(&(0, 1)).is_none());
}

#[test]
fn message_encoding_round_trips() {
    let (secret_keys, _, _) = generate_test_cluster(4, 3);
    let msg = create_pbft_message(Phase::Commit, 7, 0x0102030405060708, [0x5a; 32], 3, &secret_keys[&3]);
    let bytes = msg.to_bytes();
    assert_eq!(bytes.len(), 101);
    assert_eq!(bytes[0], 2);
    assert_eq!(&bytes[1..9], &7u64.to_be_bytes());
    assert_eq!(&bytes[9..17], &[1, 2, 3, 4, 5, 6, 7, 8]);
    assert_eq!(&bytes[49..53], &[0, 0, 0, 3]);
    let back = PbftMessage::from_bytes(&bytes).unwrap();
    assert_eq!(back.phase, Phase::Commit);
    assert_eq!(back.view, 7);
    assert_eq!(back.seq, 0x0102030405060708);
    assert_eq!(back.digest, [0x5a; 32]);
    assert_eq!(back.sender_id, 3);
    assert_eq!(back.signature, msg.signature);
    let mut longer = bytes.clone();
    longer.extend_from_slice(&[1, 2, 3]);
    assert_eq!(PbftMessage::from_bytes(&longer).unwrap().to_bytes(), bytes);
}

#[test]
fn message_decoding_errors() {
    assert_eq!(PbftMessage::from_bytes(&[0u8; 100]).err(), Some("INVALID_MESSAGE_LENGTH"));
    let mut frame = vec![0u8; 101];
    frame[0] = 4;
    assert_eq!(PbftMessage::from_bytes(&frame).err(), Some("INVALID_PHASE"));
    frame[0] = 1;
    for b in frame[53..101].iter_mut() {
        *b = 0xff;
    }
    assert_eq!(PbftMessage::from_bytes(&frame).err(), Some("INVALID_SIGNATURE_BYTES"));
    frame[53..101].copy_from_slice(&g1_bytes(G1Projective::identity()));
    assert!(PbftMessage::from_bytes(&frame).is_ok());
}

#[test]
fn phase_bytes() {
    assert_eq!(Phase::PrePrepare.to_byte(), 0);
    assert_eq!(Phase::Prepare.to_byte(), 1);
    assert_eq!(Phase::Commit.to_byte(), 2);
    assert_eq!(Phase::ViewChange.to_byte(), 3);
}

fn payload(
    target_view: u64,
    prepared_view: u64,
    prepared_seq: u64,
    digest: [u8; 32],
    sender_id: u32,
    sk: &[u8; 32],
) -> ViewChangePayload {
    let mut p = ViewChangePayload {
        target_view,
        prepared_view,
        prepared_seq,
        digest,
        sender_id,
        signature: g1_bytes(G1Projective::identity()),
    };
    p.signature = sign_bls_message(&p.canonical_bytes(), sk);
    p
}

#[test]
fn view_change_payload_checks() {
    let (secret_keys, public_keys, master_pk) = generate_test_cluster(4, 3);
    let mut state = PbftState::new(4, public_keys, master_pk).unwrap();
    let good = payload(1, 0, 0, [0; 32], 2, &secret_keys[&2]);
    assert_eq!(state.handle_view_change_payload(&good), Ok(()));
    let stranger = payload(1, 0, 0, [0; 32], 4, &secret_keys[&2]);
    assert_eq!(state.handle_view_change_payload(&stranger), Err("UNAUTHORIZED_SENDER"));
    let forged = payload(1, 0, 0, [0; 32], 2, &secret_keys[&1]);
    assert_eq!(state.handle_view_change_payload(&forged), Err("CRYPTO_AUTH_FAILED"));
    let unbacked = payload(1, 0, 5, [3; 32], 2, &secret_keys[&2]);
    assert_eq!(state.handle_view_change_payload(&unbacked), Err("CERTIFICATE_INVALID"));
}

#[test]
fn view_change_payload_round_trips() {
    let (secret_keys, _, _) = generate_test_cluster(4, 3);
    let p = payload(9, 8, 7, [0x33; 32], 1, &secret_keys[&1]);
    let canonical = p.canonical_bytes();
    assert_eq!(canonical.len(), 56);
    assert_eq!(&canonical[0..8], &9u64.to_be_bytes());
    let bytes = p.to_bytes();
    assert_eq!(bytes.len(), 108);
    let back = ViewChangePayload::from_bytes(&bytes).unwrap();
    assert_eq!(back.target_view, 9);
    assert_eq!(back.prepared_view, 8);
    assert_eq!(back.prepared_seq, 7);
    assert_eq!(back.digest, [0x33; 32]);
    assert_eq!(back.sender_id, 1);
    assert_eq!(back.signature, p.signature);
    assert_eq!(ViewChangePayload::from_bytes(&bytes[..107]).err(), Some("INVALID_VIEW_CHANGE_PAYLOAD_LENGTH"));
    let mut bad = bytes.clone();
    for b in bad[60..108].iter_mut() {
        *b = 0xff;
    }
    assert_eq!(ViewChangePayload::from_bytes(&bad).err(), Some("INVALID_SIGNATURE_BYTES"));
}

#[test]
fn any_two_quorums_share_an_honest_node() {
    // With four nodes a quorum is three, so two quorums share at least two nodes.
    let (_, public_keys, master_pk) = generate_test_cluster(4, 3);
    let state = PbftState::new(4, public_keys, master_pk).unwrap();
    let quorums: Vec<Vec<u32>> = vec![vec![0, 1, 2], vec![0, 1, 3], vec![0, 2, 3], vec![1, 2, 3]];
    for a in &quorums {
        for b in &quorums {
            assert_eq!(a.len(), state.quorum_size);
            let shared = a.iter().filter(|x| b.contains(x)).count();
            assert!(shared >= state.f + 1);
        }
    }
}

#[test]
fn registered_nodes_are_those_below_the_node_count() {
    let (_, public_keys, master_pk) = generate_test_cluster(4, 3);
    let state = PbftState::new(4, public_keys, master_pk).unwrap();
    assert!(state.is_registered(0));
    assert!(state.is_registered(3));
    assert!(!state.is_registered(4));
    assert!(!state.is_registered(u32::MAX));
}

#[test]
fn identity_is_a_valid_point_but_not_a_signature() {
    let (_, public_keys, master_pk) = generate_test_cluster(4, 3);
    let mut state = PbftState::new(4, public_keys, master_pk).unwrap();
    let msg = PbftMessage {
        phase: Phase::PrePrepare,
        view: 0,
        seq: 1,
        digest: [1; 32],
        sender_id: 0,
        signature: g1_bytes(G1Projective::identity()),
    };
    assert_eq!(state.handle_message(&msg), Err("CRYPTO_AUTH_FAILED"));
}

#[test]
fn replaying_the_log_rebuilds_the_committed_state() {
    let (secret_keys, public_keys, master_pk) = generate_test_cluster(4, 3);
    let mut live = PbftState::new(4, public_keys.clone(), master_pk).unwrap();
    let digest = [0x61; 32];
    let mut log = Vec::new();
    let mut messages = vec![create_pbft_message(Phase::PrePrepare, 0, 1, digest, 0, &secret_keys[&0])];
    for id in 0..3u32 {
        messages.push(create_pbft_message(Phase::Prepare, 0, 1, digest, id, &secret_keys[&id]));
    }
    for id in 1..4u32 {
        messages.push(create_pbft_message(Phase::Commit, 0, 1, digest, id, &secret_keys[&id]));
    }
    for m in &messages {
        live.handle_message(m).unwrap();
        log.extend(encode_wal_entry(m.view, m.seq, m.phase.to_byte(), m.sender_id, &m.digest, &m.signature));
    }
    assert_eq!(live.committed_digest.get(&(0, 1)), Some(&digest));

    let records = parse_wal(&log);
    assert_eq!(records.len(), messages.len());
    let mut restarted = PbftState::new(4, public_keys, master_pk).unwrap();
    restarted.recover(&records);
    assert_eq!(restarted.current_view, live.current_view);
    assert_eq!(restarted.highest_seq, live.highest_seq);
    assert_eq!(restarted.committed_digest.get(&(0, 1)), Some(&digest));
    assert!(restarted.prepared_certificates.contains_key(&(0, 1)));
    assert!(restarted.commit_certificates.contains_key(&(0, 1)));
    assert!(restarted.pre_prepared_proposals.contains_key(&(0, 1, digest)));
    // The recovered replica goes on from where the live one was.
    let next = create_pbft_message(Phase::PrePrepare, 0, 2, [0x62; 32], 0, &secret_keys[&0]);
    assert_eq!(restarted.handle_message(&next), Ok("INBOUND_OK_PREPREPARE".to_string()));
}

#[test]
fn replay_raises_view_and_sequence_and_counts_view_change_votes() {
    let (secret_keys, public_keys, master_pk) = generate_test_cluster(4, 3);
    let mut state = PbftState::new(4, public_keys, master_pk).unwrap();
    let mut log = Vec::new();
    for id in 1..3u32 {
        let m = create_pbft_message(Phase::ViewChange, 5, 0, [0; 32], id, &secret_keys[&id]);
        log.extend(encode_wal_entry(m.view, m.seq, 3, m.sender_id, &m.digest, &m.signature));
    }
    let m = create_pbft_message(Phase::PrePrepare, 2, 9, [1; 32], 2, &secret_keys[&2]);
    log.extend(encode_wal_entry(m.view, m.seq, 0, m.sender_id, &m.digest, &m.signature));
    // An unknown phase byte only moves the view and sequence number.
    log.extend(encode_wal_entry(1, 11, 7, 1, &[2; 32], &m.signature));
    state.recover(&parse_wal(&log));
    assert_eq!(state.current_view, 5);
    assert_eq!(state.highest_seq, 11);
    assert!(state.pre_prepared_proposals.contains_key(&(2, 9, [1; 32])));
    assert_eq!(state.view_change_votes.get(&5).map(|t| t.len()), Some(2));
    assert!(!state.new_view_certificates.contains_key(&5));
}

#[test]
fn duplicate_and_stale_messages() {
    let (secret_keys, public_keys, master_pk) = generate_test_cluster(4, 3);
    let mut state = PbftState::new(4, public_keys, master_pk).unwrap();
    let pp = create_pbft_message(Phase::PrePrepare, 0, 1, [5; 32], 0, &secret_keys[&0]);
    assert_eq!(state.handle_message(&pp), Ok("INBOUND_OK_PREPREPARE".to_string()));
    assert_eq!(state.handle_message(&pp), Err("DUPLICATE_PROPOSAL"));
    let wrong_view = create_pbft_message(Phase::PrePrepare, 1, 1, [5; 32], 1, &secret_keys[&1]);
    assert_eq!(state.handle_message(&wrong_view), Err("VIEW_MISMATCH"));
    let leader = create_pbft_message(Phase::PrePrepare, 0, 2, [5; 32], 1, &secret_keys[&1]);
    assert_eq!(state.handle_message(&leader), Err("LEADER_VIOLATION"));
    let vote = create_pbft_message(Phase::Prepare, 0, 1, [5; 32], 1, &secret_keys[&1]);
    assert_eq!(state.handle_message(&vote), Ok("VOTE_OK_PREPARE".to_string()));
    let orphan_commit = create_pbft_message(Phase::Commit, 0, 3, [5; 32], 1, &secret_keys[&1]);
    assert_eq!(state.handle_message(&orphan_commit), Err("ORPHAN_COMMIT"));
    let early_commit = create_pbft_message(Phase::Commit, 0, 1, [5; 32], 1, &secret_keys[&1]);
    assert_eq!(state.handle_message(&early_commit), Err("SAFETY_VIOLATION"));
    let stale_vc = create_pbft_message(Phase::ViewChange, 0, 0, [0; 32], 1, &secret_keys[&1]);
    assert_eq!(state.handle_message(&stale_vc), Err("VIEW_CHANGE_INVALID"));
    let unbacked_vc = create_pbft_message(Phase::ViewChange, 1, 4, [5; 32], 1, &secret_keys[&1]);
    assert_eq!(state.handle_message(&unbacked_vc), Err("CERTIFICATE_INVALID"));
    let vc = create_pbft_message(Phase::ViewChange, 1, 0, [0; 32], 1, &secret_keys[&1]);
    assert_eq!(state.handle_message(&vc), Ok("VOTE_OK_VIEW_CHANGE".to_string()));
    assert_eq!(state.current_view, 0);
}

#[test]
fn prepared_and_committed_responses() {
    let (secret_keys, public_keys, master_pk) = generate_test_cluster(4, 3);
    let mut state = PbftState::new(4, public_keys, master_pk).unwrap();
    let d = [8; 32];
    state.handle_message(&create_pbft_message(Phase::PrePrepare, 0, 4, d, 0, &secret_keys[&0])).unwrap();
    assert_eq!(
        state.handle_message(&create_pbft_message(Phase::Prepare, 0, 4, d, 3, &secret_keys[&3])),
        Ok("VOTE_OK_PREPARE".to_string())
    );
    assert_eq!(
        state.handle_message(&create_pbft_message(Phase::Prepare, 0, 4, d, 1, &secret_keys[&1])),
        Ok("VOTE_OK_PREPARE".to_string())
    );
    assert_eq!(
        state.handle_message(&create_pbft_message(Phase::Prepare, 0, 4, d, 2, &secret_keys[&2])),
        Ok("CERTIFICATE_OK_PREPARED".to_string())
    );
    assert_eq!(state.highest_seq, 4);
    for id in [0u32, 2] {
        assert_eq!(
            state.handle_message(&create_pbft_message(Phase::Commit, 0, 4, d, id, &secret_keys[&id])),
            Ok("VOTE_OK_COMMIT".to_string())
        );
    }
    assert_eq!(
        state.handle_message(&create_pbft_message(Phase::Commit, 0, 4, d, 3, &secret_keys[&3])),
        Ok("COMMITTED_OK".to_string())
    );
    assert_eq!(state.committed_digest.get(&(0, 4)), Some(&d));
    let cert = state.commit_certificates.get(&(0, 4)).unwrap();
    assert!(cert.verify(state.quorum_size, &state.master_public_key));
    assert_eq!(cert.digest, d);
}

#[test]
fn replay_accepts_records_from_any_sender() {
    let (secret_keys, public_keys, master_pk) = generate_test_cluster(4, 3);
    let mut state = PbftState::new(4, public_keys, master_pk).unwrap();
    let d = [4u8; 32];
    let sig = |id: u32, phase: Phase| create_pbft_message(phase, 0, 1, d, id, &secret_keys[&id]).signature;
    let mut log = Vec::new();
    log.extend(encode_wal_entry(0, 1, 0, u32::MAX, &d, &sig(0, Phase::PrePrepare)));
    log.extend(encode_wal_entry(2, 0, 3, u32::MAX, &[0; 32], &sig(1, Phase::ViewChange)));
    // Prepare votes: two real ones and one from u32::MAX, which makes the
    // quorum of lowest identifiers include u32::MAX: no certificate.
    log.extend(encode_wal_entry(0, 1, 1, 0, &d, &sig(0, Phase::Prepare)));
    log.extend(encode_wal_entry(0, 1, 1, u32::MAX, &d, &sig(1, Phase::Prepare)));
    log.extend(encode_wal_entry(0, 1, 1, 1, &d, &sig(1, Phase::Prepare)));
    state.recover(&parse_wal(&log));
    assert_eq!(state.current_view, 2);
    assert!(state.pre_prepared_proposals.contains_key(&(0, 1, d)));
    assert_eq!(state.view_change_votes.get(&2).map(|t| t.len()), Some(1));
    assert!(!state.prepared_certificates.contains_key(&(0, 1)));
    // A fourth vote puts u32::MAX beyond the quorum: the certificate forms.
    let mut log2 = log.clone();
    log2.extend(encode_wal_entry(0, 1, 1, 2, &d, &sig(2, Phase::Prepare)));
    let mut again = PbftState::new(4, state.public_keys.clone(), master_pk).unwrap();
    again.recover(&parse_wal(&log2));
    assert!(again.prepared_certificates.contains_key(&(0, 1)));
}
