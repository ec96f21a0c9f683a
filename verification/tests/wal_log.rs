use bls12_381::{G1Projective, Scalar};
use group::{Curve, Group};
use sovereign_lattice::wal::{encode_wal_entry, parse_wal, prune_records, WalRecord, WAL_RECORD_LEN};

fn sig(k: u64) -> [u8; 48] {
    (G1Projective::generator() * Scalar::from(k)).to_affine().to_compressed()
}

fn entry(view: u64, seq: u64, phase: u8, sender: u32, k: u64) -> Vec<u8> {
    encode_wal_entry(view, seq, phase, sender, &[seq as u8; 32], &sig(k))
}

fn same(r: &WalRecord, view: u64, seq: u64, phase: u8, sender: u32, k: u64) -> bool {
    r.view == view && r.seq == seq && r.phase == phase && r.sender_id == sender
        && r.digest == [seq as u8; 32] && r.signature == sig(k)
}

#[test]
fn record_layout() {
    let bytes = entry(0x0102, 0x0304, 2, 0x05060708, 3);
    assert_eq!(bytes.len(), WAL_RECORD_LEN);
    assert_eq!(&bytes[0..8], &[0, 0, 0, 0, 0, 0, 1, 2]);
    assert_eq!(&bytes[8..16], &[0, 0, 0, 0, 0, 0, 3, 4]);
    assert_eq!(bytes[16], 2);
    assert_eq!(&bytes[17..21], &[5, 6, 7, 8]);
    assert_eq!(&bytes[21..53], &[4u8; 32]);
    assert_eq!(&bytes[53..101], &sig(3));
}

#[test]
fn appended_records_replay_in_order() {
    let mut log = Vec::new();
    log.extend(entry(0, 1, 0, 0, 1));
    log.extend(entry(0, 1, 1, 2, 2));
    log.extend(entry(1, 2, 2, 3, 3));
    let records = parse_wal(&log);
    assert_eq!(records.len(), 3);
    assert!(same(&records[0], 0, 1, 0, 0, 1));
    assert!(same(&records[1], 0, 1, 1, 2, 2));
    assert!(same(&records[2], 1, 2, 2, 3, 3));
    log.extend(entry(4, 9, 1, 1, 4));
    let again = parse_wal(&log);
    assert_eq!(again.len(), 4);
    assert!(same(&again[3], 4, 9, 1, 1, 4));
}

#[test]
fn torn_tail_and_bad_signatures_are_skipped() {
    let mut log = Vec::new();
    log.extend(entry(0, 1, 0, 0, 1));
    let mut bad = entry(0, 2, 0, 0, 1);
    for b in bad[53..101].iter_mut() {
        *b = 0xff;
    }
    log.extend(bad);
    log.extend(entry(0, 3, 0, 0, 5));
    log.extend(&entry(0, 4, 0, 0, 6)[..50]);
    let records = parse_wal(&log);
    assert_eq!(records.len(), 2);
    assert!(same(&records[0], 0, 1, 0, 0, 1));
    assert!(same(&records[1], 0, 3, 0, 0, 5));
    assert!(parse_wal(&[]).is_empty());
    assert!(parse_wal(&[0u8; 100]).is_empty());
}

#[test]
fn pruning_keeps_later_records() {
    let mut log = Vec::new();
    for seq in 1..=6u64 {
        log.extend(entry(0, seq, 1, (seq % 4) as u32, seq));
    }
    log.extend(&[9u8; 30]);
    let pruned = prune_records(&log, 4);
    assert_eq!(pruned.len(), 3 * WAL_RECORD_LEN);
    assert_eq!(&pruned[..], &log[3 * WAL_RECORD_LEN..6 * WAL_RECORD_LEN]);
    let records = parse_wal(&pruned);
    let seqs: Vec<u64> = records.iter().map(|r| r.seq).collect();
    assert_eq!(seqs, vec![4, 5, 6]);
    assert_eq!(prune_records(&log, 0).len(), 6 * WAL_RECORD_LEN);
    assert!(prune_records(&log, 7).is_empty());
    // Pruning twice changes nothing more.
    assert_eq!(prune_records(&pruned, 4), pruned);
}
