use bls12_381::{G1Projective, G2Projective, Scalar};
use group::{Curve, Group};
use sha2::{Digest, Sha256};
use sovereign_lattice::dkg::{DkgSession, DkgShareMessage};
use sovereign_lattice::pbft::PbftState;
use sovereign_lattice::threshold_bls::{sign_bls_message, verify_bls_signature, verify_threshold_signature};
use std::collections::HashMap;

fn g2_bytes(p: G2Projective) -> [u8; 96] {
    p.to_affine().to_compressed()
}

fn scalar(b: &[u8; 32]) -> Scalar {
    Scalar::from_bytes(b).unwrap()
}

#[test]
fn test_dkg_e2e_consensus_integration() {
    let n = 4usize;
    let threshold = 3usize;

    let mut sessions = HashMap::new();
    for i in 0..n as u32 {
        sessions.insert(i, DkgSession::new(i, threshold, n));
    }

    let mut all_commitments = HashMap::new();
    for (&id, session) in &mut sessions {
        all_commitments.insert(id, session.generate_commitments());
    }

    for receiver_id in 0..n as u32 {
        let incoming_shares: Vec<(u32, [u8; 32], Vec<[u8; 96]>)> = sessions
            .iter()
            .map(|(&sender_id, sender_session)| {
                let share = sender_session.evaluate_share_for(receiver_id);
                let commits = all_commitments.get(&sender_id).unwrap().clone();
                (sender_id, share, commits)
            })
            .collect();

        let receiver_session = sessions.get_mut(&receiver_id).unwrap();
        for (sender_id, share, commits) in incoming_shares {
            receiver_session
                .process_incoming_share(sender_id, share, &commits)
                .expect("DKG_SHARE_PROCESS_FAILED");
        }
    }

    let mut transcript_hashes = HashMap::new();
    for (&id, session) in &sessions {
        transcript_hashes.insert(id, session.transcript_hash());
    }

    for (_, session) in &sessions {
        assert!(
            session.verify_transcript_consistency(&transcript_hashes).is_ok(),
            "Honest nodes must agree on identical commitment transcript"
        );
    }

    let participants: Vec<u32> = (0..n as u32).collect();
    let mut secret_shares = HashMap::new();
    let mut master_pks = HashMap::new();

    for (&id, session) in &sessions {
        let (sk_share, master_pk) = session.finalize_dkg(&participants).expect("DKG_FINALIZATION_FAILED");
        secret_shares.insert(id, sk_share);
        master_pks.insert(id, master_pk);
    }

    let canonical_master_pk = master_pks[&0];
    for id in 1..n as u32 {
        assert_eq!(canonical_master_pk, master_pks[&id], "MASTER_PK_MISMATCH_NODE_{}", id);
    }

    let mut public_keys = HashMap::new();
    for &id in &participants {
        let signing_pk = G2Projective::generator() * scalar(&secret_shares[&id]);
        public_keys.insert(id, g2_bytes(signing_pk));
    }

    let msg = b"canonical_sovereign_lattice_block_proposal_digest";
    let mut threshold_signatures: HashMap<u32, [u8; 48]> = HashMap::new();

    for &id in &participants[0..threshold] {
        let sig = sign_bls_message(msg, &secret_shares[&id]);
        threshold_signatures.insert(id, sig);
    }

    let is_valid_threshold_sig =
        verify_threshold_signature(msg, &threshold_signatures, &canonical_master_pk, threshold);
    assert!(is_valid_threshold_sig, "THRESHOLD_SIG_INVALID");

    let pbft_state = PbftState::new(n, public_keys, canonical_master_pk);
    assert!(pbft_state.is_ok(), "PBFT_STATE_BOOTSTRAP_FAILED");
}

#[test]
fn test_dkg_equivocating_dealer_detected() {
    let n = 4usize;
    let threshold = 3usize;

    let session_honest = DkgSession::new(1, threshold, n);
    let mut session_victim_a = DkgSession::new(2, threshold, n);
    let mut session_victim_b = DkgSession::new(3, threshold, n);

    let malicious_session_a = DkgSession::new(0, threshold, n);
    let malicious_session_b = DkgSession::new(0, threshold, n);

    let commits_a = malicious_session_a.generate_commitments();
    let share_for_2 = malicious_session_a.evaluate_share_for(2);
    session_victim_a.process_incoming_share(0, share_for_2, &commits_a).unwrap();

    let commits_b = malicious_session_b.generate_commitments();
    let share_for_3 = malicious_session_b.evaluate_share_for(3);
    session_victim_b.process_incoming_share(0, share_for_3, &commits_b).unwrap();

    let honest_commits = session_honest.generate_commitments();
    session_victim_a.process_incoming_share(1, session_honest.evaluate_share_for(2), &honest_commits).unwrap();
    session_victim_b.process_incoming_share(1, session_honest.evaluate_share_for(3), &honest_commits).unwrap();

    let hash_a = session_victim_a.transcript_hash();
    let hash_b = session_victim_b.transcript_hash();

    assert_ne!(hash_a, hash_b, "Equivocating dealer must yield divergent transcript hashes");

    let mut peer_hashes = HashMap::new();
    peer_hashes.insert(3, hash_b);

    let consistency_result = session_victim_a.verify_transcript_consistency(&peer_hashes);
    assert!(consistency_result.is_err());
    assert_eq!(consistency_result.unwrap_err(), "TRANSCRIPT_EQUIVOCATION_DETECTED");
}

#[test]
fn shares_are_the_polynomial_at_the_node_position() {
    let session = DkgSession::new(0, 3, 4);
    let coeffs: Vec<Scalar> = session.secret_polynomial.iter().map(scalar).collect();
    assert_eq!(coeffs.len(), 3);
    for node in 0..4u32 {
        let x = Scalar::from((node + 1) as u64);
        let expected = coeffs[0] + coeffs[1] * x + coeffs[2] * x * x;
        assert_eq!(session.evaluate_share_for(node), expected.to_bytes());
    }
    assert_eq!(session.dealer_secret_key(), coeffs[0].to_bytes());
    let commitments = session.generate_commitments();
    for (c, a) in commitments.iter().zip(coeffs.iter()) {
        assert_eq!(*c, g2_bytes(G2Projective::generator() * a));
    }
}

#[test]
fn bad_shares_and_commitments_are_refused() {
    let dealer = DkgSession::new(0, 3, 4);
    let mut receiver = DkgSession::new(2, 3, 4);
    let commits = dealer.generate_commitments();
    let share = dealer.evaluate_share_for(2);
    assert_eq!(
        receiver.process_incoming_share(0, share, &commits[..2]),
        Err("INVALID_COMMITMENTS_LENGTH")
    );
    let wrong = dealer.evaluate_share_for(1);
    assert_eq!(receiver.process_incoming_share(0, wrong, &commits), Err("FELDMAN_VSS_VERIFICATION_FAILED"));
    assert!(receiver.received_shares.get(&0).is_none());
    assert_eq!(receiver.process_incoming_share(0, share, &commits), Ok(()));
    assert_eq!(receiver.received_shares.get(&0), Some(&share));
    assert_eq!(receiver.received_commitments.get(&0), Some(&commits));
}

#[test]
fn finalize_needs_every_expected_peer() {
    let dealer = DkgSession::new(0, 2, 4);
    let mut receiver = DkgSession::new(1, 2, 4);
    receiver
        .process_incoming_share(0, dealer.evaluate_share_for(1), &dealer.generate_commitments())
        .unwrap();
    assert_eq!(receiver.finalize_dkg(&[0, 1, 2]), Err("MISSING_SHARE_FROM_PEER"));
    let (share, master) = receiver.finalize_dkg(&[0, 1]).unwrap();
    let expected_share = scalar(&receiver.evaluate_share_for(1)) + scalar(&dealer.evaluate_share_for(1));
    assert_eq!(share, expected_share.to_bytes());
    let expected_master = G2Projective::generator()
        * (scalar(&receiver.dealer_secret_key()) + scalar(&dealer.dealer_secret_key()));
    assert_eq!(master, g2_bytes(expected_master));
    // Only its own contribution when it expects nobody else.
    let (alone, alone_pk) = receiver.finalize_dkg(&[1]).unwrap();
    assert_eq!(alone, receiver.evaluate_share_for(1));
    assert_eq!(alone_pk, receiver.generate_commitments()[0]);
}

#[test]
fn share_message_round_trip_and_signature() {
    let dealer = DkgSession::new(5, 3, 7);
    let commitments = dealer.generate_commitments();
    let mut msg = DkgShareMessage {
        from_node: 5,
        to_node: 2,
        share: dealer.evaluate_share_for(2),
        commitments: commitments.clone(),
        signature: G1Projective::identity().to_affine().to_compressed(),
    };
    msg.signature = sign_bls_message(&msg.canonical_bytes(), &dealer.dealer_secret_key());
    assert!(msg.verify_signature());
    let bytes = msg.to_bytes();
    assert_eq!(bytes.len(), 4 + 4 + 32 + 3 * 96 + 48);
    assert_eq!(&bytes[0..4], &[0, 0, 0, 5]);
    assert_eq!(&bytes[4..8], &[0, 0, 0, 2]);
    let back = DkgShareMessage::from_bytes(&bytes).unwrap();
    assert_eq!(back.from_node, 5);
    assert_eq!(back.to_node, 2);
    assert_eq!(back.share, msg.share);
    assert_eq!(back.commitments, commitments);
    assert_eq!(back.signature, msg.signature);
    assert!(back.verify_signature());
    let mut tampered = back;
    tampered.to_node = 3;
    assert!(!tampered.verify_signature());
    assert!(verify_bls_signature(&msg.canonical_bytes(), &msg.signature, &commitments[0]));
}

#[test]
fn share_message_decoding_errors() {
    let dealer = DkgSession::new(0, 2, 4);
    let commitments = dealer.generate_commitments();
    let mut msg = DkgShareMessage {
        from_node: 0,
        to_node: 1,
        share: dealer.evaluate_share_for(1),
        commitments,
        signature: G1Projective::identity().to_affine().to_compressed(),
    };
    msg.signature = sign_bls_message(&msg.canonical_bytes(), &dealer.dealer_secret_key());
    let bytes = msg.to_bytes();
    assert_eq!(DkgShareMessage::from_bytes(&bytes[..87]).err(), Some("DKG_PACKET_TOO_SHORT"));
    let mut big_share = bytes.clone();
    for b in big_share[8..40].iter_mut() {
        *b = 0xff;
    }
    assert_eq!(DkgShareMessage::from_bytes(&big_share).err(), Some("INVALID_SHARE_SCALAR"));
    let mut bad_commit = bytes.clone();
    for b in bad_commit[40..136].iter_mut() {
        *b = 0xff;
    }
    assert_eq!(DkgShareMessage::from_bytes(&bad_commit).err(), Some("INVALID_G2_COMMITMENT"));
    let mut ragged = bytes.clone();
    ragged.insert(100, 0);
    assert!(DkgShareMessage::from_bytes(&ragged).is_err());
    let mut bad_sig = bytes.clone();
    let len = bad_sig.len();
    for b in bad_sig[len - 48..].iter_mut() {
        *b = 0xff;
    }
    assert_eq!(DkgShareMessage::from_bytes(&bad_sig).err(), Some("INVALID_G1_SIGNATURE"));
    let no_commitments = [&bytes[..40], &bytes[bytes.len() - 48..]].concat();
    let decoded = DkgShareMessage::from_bytes(&no_commitments).unwrap();
    assert!(decoded.commitments.is_empty());
    assert!(!decoded.verify_signature());
}

#[test]
fn transcript_hash_covers_commitments_in_dealer_order() {
    let dealer_a = DkgSession::new(3, 2, 4);
    let dealer_b = DkgSession::new(1, 2, 4);
    let mut receiver = DkgSession::new(0, 2, 4);
    let empty: [u8; 32] = Sha256::digest(&[]).into();
    assert_eq!(receiver.transcript_hash(), empty);
    let ca = dealer_a.generate_commitments();
    let cb = dealer_b.generate_commitments();
    receiver.process_incoming_share(3, dealer_a.evaluate_share_for(0), &ca).unwrap();
    receiver.process_incoming_share(1, dealer_b.evaluate_share_for(0), &cb).unwrap();
    let mut bytes = Vec::new();
    bytes.extend_from_slice(&1u32.to_be_bytes());
    for c in &cb {
        bytes.extend_from_slice(c);
    }
    bytes.extend_from_slice(&3u32.to_be_bytes());
    for c in &ca {
        bytes.extend_from_slice(c);
    }
    let expected: [u8; 32] = Sha256::digest(&bytes).into();
    assert_eq!(receiver.transcript_hash(), expected);
    let mut peers = HashMap::new();
    peers.insert(1, expected);
    peers.insert(3, expected);
    assert_eq!(receiver.verify_transcript_consistency(&peers), Ok(()));
    assert_eq!(receiver.verify_transcript_consistency(&HashMap::new()), Ok(()));
    peers.insert(2, empty);
    assert_eq!(receiver.verify_transcript_consistency(&peers), Err("TRANSCRIPT_EQUIVOCATION_DETECTED"));
}

#[test]
fn sessions_draw_fresh_polynomials() {
    let a = DkgSession::new(0, 3, 4);
    let b = DkgSession::new(0, 3, 4);
    assert_eq!(a.secret_polynomial.len(), 3);
    assert_ne!(a.secret_polynomial, b.secret_polynomial);
    assert!(DkgSession::new(0, 0, 4).secret_polynomial.is_empty());
}

#[test]
fn node_public_keys_match_the_final_shares() {
    let n = 4u32;
    let threshold = 3usize;
    let mut sessions: Vec<DkgSession> = (0..n).map(|i| DkgSession::new(i, threshold, n as usize)).collect();
    let commitments: Vec<Vec<[u8; 96]>> = sessions.iter().map(|s| s.generate_commitments()).collect();
    for receiver in 0..n as usize {
        for dealer in 0..n as usize {
            let share = sessions[dealer].evaluate_share_for(receiver as u32);
            sessions[receiver].process_incoming_share(dealer as u32, share, &commitments[dealer]).unwrap();
        }
    }
    let ids: Vec<u32> = (0..n).collect();
    let shares: Vec<[u8; 32]> = sessions.iter().map(|s| s.finalize_dkg(&ids).unwrap().0).collect();
    let expected: Vec<[u8; 96]> =
        shares.iter().map(|sk| g2_bytes(G2Projective::generator() * scalar(sk))).collect();
    for session in &sessions {
        assert_eq!(session.node_public_keys(&ids), expected);
    }
    assert!(sessions[0].node_public_keys(&[]).is_empty());
}

#[test]
fn wrong_commitment_count_is_refused_for_any_node() {
    let dealer = DkgSession::new(0, 2, 4);
    let mut receiver = DkgSession::new(u32::MAX, 2, 4);
    let commits = dealer.generate_commitments();
    assert_eq!(
        receiver.process_incoming_share(0, dealer.evaluate_share_for(1), &commits[..1]),
        Err("INVALID_COMMITMENTS_LENGTH")
    );
    assert!(receiver.received_shares.get(&0).is_none());
}
