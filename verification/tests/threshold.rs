use bls12_381::hash_to_curve::{ExpandMsgXmd, HashToCurve};
use bls12_381::{G1Projective, G2Projective, Scalar};
use ff::Field;
use group::{Curve, Group};
use rand::rngs::OsRng;
use sha2::Sha256;
use sovereign_lattice::table::NodeTable;
use std::collections::HashMap;
use sovereign_lattice::threshold_bls::{
    aggregate_signatures, hash_message_to_curve, sign_bls_message, verify_bls_signature,
    verify_threshold_signature, BLS_DST,
};

fn g1_bytes(p: G1Projective) -> [u8; 48] {
    p.to_affine().to_compressed()
}

fn g2_bytes(p: G2Projective) -> [u8; 96] {
    p.to_affine().to_compressed()
}

/// Shares of a random polynomial of `threshold` coefficients for nodes 0..n,
/// and the public key of its constant term.
fn shares(n: u32, threshold: usize) -> (Vec<[u8; 32]>, [u8; 96]) {
    let coeffs: Vec<Scalar> = (0..threshold).map(|_| Scalar::random(&mut OsRng)).collect();
    let mut out = Vec::new();
    for i in 0..n {
        let x = Scalar::from((i + 1) as u64);
        let mut acc = Scalar::zero();
        let mut pow = Scalar::one();
        for c in &coeffs {
            acc += c * pow;
            pow *= x;
        }
        out.push(acc.to_bytes());
    }
    (out, g2_bytes(G2Projective::generator() * coeffs[0]))
}

#[test]
fn domain_separation_tag() {
    assert_eq!(&BLS_DST[..], b"SOVEREIGN_LATTICE_PBFT_V1_BLS_SIG");
}

#[test]
fn hashing_uses_the_tag() {
    let msg = b"some block";
    let expected = <G1Projective as HashToCurve<ExpandMsgXmd<Sha256>>>::hash_to_curve(msg, &BLS_DST);
    assert_eq!(hash_message_to_curve(msg), g1_bytes(expected));
    assert_ne!(hash_message_to_curve(msg), hash_message_to_curve(b"another block"));
}

#[test]
fn sign_and_verify() {
    let sk = Scalar::random(&mut OsRng);
    let pk = g2_bytes(G2Projective::generator() * sk);
    let msg = b"payload";
    let sig = sign_bls_message(msg, &sk.to_bytes());
    let hm = <G1Projective as HashToCurve<ExpandMsgXmd<Sha256>>>::hash_to_curve(msg, &BLS_DST);
    assert_eq!(sig, g1_bytes(hm * sk));
    assert!(verify_bls_signature(msg, &sig, &pk));
    assert!(!verify_bls_signature(b"payloaD", &sig, &pk));
    let other = g2_bytes(G2Projective::generator() * Scalar::random(&mut OsRng));
    assert!(!verify_bls_signature(msg, &sig, &other));
    let mut garbage = sig;
    for b in garbage.iter_mut() {
        *b = 0xff;
    }
    assert!(!verify_bls_signature(msg, &garbage, &pk));
}

#[test]
fn aggregation_adds_points() {
    let a = G1Projective::generator() * Scalar::from(3u64);
    let b = G1Projective::generator() * Scalar::from(5u64);
    assert_eq!(aggregate_signatures(&[]), Some(g1_bytes(G1Projective::identity())));
    assert_eq!(aggregate_signatures(&[g1_bytes(a)]), Some(g1_bytes(a)));
    assert_eq!(
        aggregate_signatures(&[g1_bytes(a), g1_bytes(b)]),
        Some(g1_bytes(G1Projective::generator() * Scalar::from(8u64)))
    );
    assert_eq!(aggregate_signatures(&[g1_bytes(a), [0xff; 48]]), None);
}

#[test]
fn threshold_signature_from_any_quorum() {
    let (sks, master_pk) = shares(4, 3);
    let msg = b"threshold message";
    let sigs: Vec<[u8; 48]> = sks.iter().map(|sk| sign_bls_message(msg, sk)).collect();
    for skip in 0..4u32 {
        let mut table: HashMap<u32, [u8; 48]> = HashMap::new();
        for id in (0..4u32).filter(|id| *id != skip) {
            table.insert(id, sigs[id as usize]);
        }
        assert!(verify_threshold_signature(msg, &table, &master_pk, 3));
        assert!(!verify_threshold_signature(b"other message", &table, &master_pk, 3));
    }
}

#[test]
fn threshold_signature_needs_enough_valid_shares() {
    let (sks, master_pk) = shares(4, 3);
    let msg = b"threshold message";
    let mut table: HashMap<u32, [u8; 48]> = HashMap::new();
    table.insert(2, sign_bls_message(msg, &sks[2]));
    table.insert(0, sign_bls_message(msg, &sks[0]));
    assert!(!verify_threshold_signature(msg, &table, &master_pk, 3));
    // A wrong partial signature among the lowest identifiers spoils the result.
    table.insert(1, sign_bls_message(b"not the message", &sks[1]));
    assert!(!verify_threshold_signature(msg, &table, &master_pk, 3));
    // Only the lowest `threshold` identifiers are used.
    table.insert(1, sign_bls_message(msg, &sks[1]));
    table.insert(3, g1_bytes(G1Projective::identity()));
    assert!(verify_threshold_signature(msg, &table, &master_pk, 3));
}

#[test]
fn node_table_keeps_identifiers_sorted_and_unique() {
    let mut table: NodeTable<u8> = NodeTable::new();
    table.insert(7, 1);
    table.insert(2, 2);
    table.insert(5, 3);
    table.insert(2, 4);
    assert_eq!(table.len(), 3);
    assert_eq!(table.entry(0), (2, 4));
    assert_eq!(table.entry(1), (5, 3));
    assert_eq!(table.entry(2), (7, 1));
    assert_eq!(table.get(&5), Some(&3));
    assert!(table.get(&6).is_none());
    assert!(table.contains_key(&7));
    assert!(!table.contains_key(&8));
}

#[test]
fn threshold_signature_with_the_largest_identifier_beyond_the_quorum() {
    let (sks, master_pk) = shares(3, 2);
    let msg = b"edge";
    let mut table: HashMap<u32, [u8; 48]> = HashMap::new();
    table.insert(0, sign_bls_message(msg, &sks[0]));
    table.insert(1, sign_bls_message(msg, &sks[1]));
    table.insert(u32::MAX, g1_bytes(G1Projective::identity()));
    assert!(verify_threshold_signature(msg, &table, &master_pk, 2));
    assert!(!verify_threshold_signature(msg, &table, &master_pk, 4));
    assert!(verify_threshold_signature(msg, &HashMap::new(), &master_pk, 0) == false);
}
