//! The record format of the write-ahead log: each accepted consensus message
//! is logged as a fixed 101-byte record (view, sequence number, phase byte,
//! sender, digest, compressed signature).  Reading, appending and renaming
//! files is left to the caller; this module encodes, decodes and filters the
//! bytes.
use crate::codec::{
    be32, be32_value, be64, be64_value, lemma_array_exists, lemma_be32_of_value,
    lemma_be32_roundtrip, lemma_be64_of_value, lemma_be64_roundtrip, push_bytes, push_u32_be,
    push_u64_be, read_array32, read_array48, read_u32_be, read_u64_be,
};
use crate::curve::{g1_is_valid, spec_g1_valid};
use crate::pbft::message::{array_of_32, array_of_48};
use vstd::prelude::*;

verus! {

/// The length of one log record.
pub const WAL_RECORD_LEN: usize = 101;

/// One logged consensus message.
#[derive(Clone, Copy, Debug)]
pub struct WalRecord {
    pub view: u64,
    pub seq: u64,
    pub phase: u8,
    pub sender_id: u32,
    pub digest: [u8; 32],
    pub signature: [u8; 48],
}

/// The encoding of a record.
pub open spec fn record_bytes(r: WalRecord) -> Seq<u8> {
    be64(r.view) + be64(r.seq) + seq![r.phase] + be32(r.sender_id) + r.digest@ + r.signature@
}

/// The record that the first 101 bytes of `b` encode.
pub open spec fn decode_record(b: Seq<u8>) -> WalRecord {
    WalRecord {
        view: be64_value(b.subrange(0, 8)),
        seq: be64_value(b.subrange(8, 16)),
        phase: b[16],
        sender_id: be32_value(b.subrange(17, 21)),
        digest: array_of_32(b.subrange(21, 53)),
        signature: array_of_48(b.subrange(53, 101)),
    }
}

/// The records of a log: one per complete 101-byte chunk whose signature
/// bytes decompress, in order; an incomplete last chunk is ignored.
pub open spec fn parse_records(b: Seq<u8>) -> Seq<WalRecord>
    decreases b.len(),
{
    if b.len() < 101 {
        Seq::empty()
    } else {
        let rest = parse_records(b.subrange(101, b.len() as int));
        if spec_g1_valid(b.subrange(53, 101)) {
            seq![decode_record(b)] + rest
        } else {
            rest
        }
    }
}

/// The complete chunks of a log whose sequence number is at least `min_seq`,
/// in order; an incomplete last chunk is dropped.
pub open spec fn pruned_log(b: Seq<u8>, min_seq: u64) -> Seq<u8>
    decreases b.len(),
{
    if b.len() < 101 {
        Seq::empty()
    } else {
        let rest = pruned_log(b.subrange(101, b.len() as int), min_seq);
        if be64_value(b.subrange(8, 16)) >= min_seq {
            b.subrange(0, 101) + rest
        } else {
            rest
        }
    }
}

/// Encodes a log record.
pub fn encode_wal_entry(
    view: u64,
    seq: u64,
    phase: u8,
    sender_id: u32,
    digest: &[u8; 32],
    signature: &[u8; 48],
) -> (r: Vec<u8>)
    ensures
        r@ == record_bytes(
            WalRecord { view, seq, phase, sender_id, digest: *digest, signature: *signature },
        ),
{
    let mut buf: Vec<u8> = Vec::new();
    push_u64_be(&mut buf, view);
    push_u64_be(&mut buf, seq);
    buf.push(phase);
    push_u32_be(&mut buf, sender_id);
    push_bytes(&mut buf, digest.as_slice());
    push_bytes(&mut buf, signature.as_slice());
    assert(buf@ =~= record_bytes(
        WalRecord { view, seq, phase, sender_id, digest: *digest, signature: *signature },
    ));
    buf
}

/// Decodes the record at `off`.
pub fn decode_wal_entry(bytes: &[u8], off: usize) -> (r: WalRecord)
    requires
        off + 101 <= bytes.len(),
    ensures
        r == decode_record(bytes@.subrange(off as int, off + 101)),
{
    let ghost b = bytes@.subrange(off as int, off + 101);
    let view = read_u64_be(bytes, off);
    let seq = read_u64_be(bytes, off + 8);
    let phase = bytes[off + 16];
    let sender_id = read_u32_be(bytes, off + 17);
    let digest = read_array32(bytes, off + 21);
    let signature = read_array48(bytes, off + 53);
    proof {
        assert(b.subrange(0, 8) =~= bytes@.subrange(off as int, off + 8));
        assert(b.subrange(8, 16) =~= bytes@.subrange(off + 8, off + 16));
        assert(b.subrange(17, 21) =~= bytes@.subrange(off + 17, off + 21));
        assert(b.subrange(21, 53) =~= bytes@.subrange(off + 21, off + 53));
        assert(b.subrange(53, 101) =~= bytes@.subrange(off + 53, off + 101));
        let d = decode_record(b);
        assert(d.digest@ == digest@);
        assert(d.digest == digest);
        assert(d.signature@ == signature@);
        assert(d.signature == signature);
    }
    WalRecord { view, seq, phase, sender_id, digest, signature }
}

/// Reads the records of a log.
pub fn parse_wal(bytes: &[u8]) -> (r: Vec<WalRecord>)
    ensures
        r@ == parse_records(bytes@),
{
    let mut out: Vec<WalRecord> = Vec::new();
    let mut off: usize = 0;
    assert(bytes@.subrange(0, bytes@.len() as int) =~= bytes@);
    while bytes.len() - off >= 101
        invariant
            off <= bytes.len(),
            out@ + parse_records(bytes@.subrange(off as int, bytes@.len() as int)) == parse_records(
                bytes@,
            ),
        decreases bytes@.len() - off,
    {
        let ghost tail = bytes@.subrange(off as int, bytes@.len() as int);
        assert(tail.subrange(101, tail.len() as int) =~= bytes@.subrange(off + 101, bytes@.len() as int));
        assert(tail.subrange(53, 101) =~= bytes@.subrange(off + 53, off + 101));
        assert(tail.subrange(0, 101) =~= bytes@.subrange(off as int, off + 101));
        let ghost old_out = out@;
        let ghost tail2 = bytes@.subrange(off + 101, bytes@.len() as int);
        let sig = read_array48(bytes, off + 53);
        if g1_is_valid(&sig) {
            let rec = decode_wal_entry(bytes, off);
            proof {
                assert(decode_record(tail) == decode_record(tail.subrange(0, 101))) by {
                    assert(tail.subrange(0, 101).subrange(0, 8) =~= tail.subrange(0, 8));
                    assert(tail.subrange(0, 101).subrange(8, 16) =~= tail.subrange(8, 16));
                    assert(tail.subrange(0, 101).subrange(17, 21) =~= tail.subrange(17, 21));
                    assert(tail.subrange(0, 101).subrange(21, 53) =~= tail.subrange(21, 53));
                    assert(tail.subrange(0, 101).subrange(53, 101) =~= tail.subrange(53, 101));
                }
            }
            out.push(rec);
            proof {
                assert(out@ + parse_records(tail2) =~= old_out + (seq![rec] + parse_records(tail2)));
            }
        }
        off = off + 101;
    }
    proof {
        assert(parse_records(bytes@.subrange(off as int, bytes@.len() as int)) =~= Seq::empty());
    }
    assert(out@ =~= out@ + Seq::<WalRecord>::empty());
    out
}

/// Keeps the complete records whose sequence number is at least `min_seq`.
pub fn prune_records(bytes: &[u8], min_seq: u64) -> (r: Vec<u8>)
    ensures
        r@ == pruned_log(bytes@, min_seq),
{
    let mut out: Vec<u8> = Vec::new();
    let mut off: usize = 0;
    assert(bytes@.subrange(0, bytes@.len() as int) =~= bytes@);
    while bytes.len() - off >= 101
        invariant
            off <= bytes.len(),
            out@ + pruned_log(bytes@.subrange(off as int, bytes@.len() as int), min_seq) == pruned_log(
                bytes@,
                min_seq,
            ),
        decreases bytes@.len() - off,
    {
        let ghost tail = bytes@.subrange(off as int, bytes@.len() as int);
        let ghost old_out = out@;
        let ghost tail2 = bytes@.subrange(off + 101, bytes@.len() as int);
        assert(tail.subrange(101, tail.len() as int) =~= tail2);
        assert(tail.subrange(8, 16) =~= bytes@.subrange(off + 8, off + 16));
        let seq = read_u64_be(bytes, off + 8);
        if seq >= min_seq {
            let mut i: usize = off;
            while i < off + 101
                invariant
                    off <= i <= off + 101,
                    off + 101 <= bytes.len(),
                    out@ == old_out + bytes@.subrange(off as int, i as int),
                decreases off + 101 - i,
            {
                out.push(bytes[i]);
                i = i + 1;
                assert(out@ =~= old_out + bytes@.subrange(off as int, i as int));
            }
            assert(tail.subrange(0, 101) =~= bytes@.subrange(off as int, off + 101));
            assert(out@ + pruned_log(tail2, min_seq) =~= old_out + (tail.subrange(0, 101) + pruned_log(
                tail2,
                min_seq,
            )));
        }
        off = off + 101;
    }
    assert(out@ =~= out@ + Seq::<u8>::empty());
    out
}

/// Decoding the encoding of a record gives the record back, and a log made of
/// that one record with a valid signature reads back as that record.
pub proof fn lemma_record_roundtrip(r: WalRecord)
    ensures
        record_bytes(r).len() == 101,
        decode_record(record_bytes(r)) == r,
        spec_g1_valid(r.signature@) ==> parse_records(record_bytes(r)) == seq![r],
{
    let b = record_bytes(r);
    lemma_be64_roundtrip(r.view);
    lemma_be64_roundtrip(r.seq);
    lemma_be32_roundtrip(r.sender_id);
    assert(b.subrange(0, 8) =~= be64(r.view));
    assert(b.subrange(8, 16) =~= be64(r.seq));
    assert(b.subrange(17, 21) =~= be32(r.sender_id));
    assert(b.subrange(21, 53) =~= r.digest@);
    assert(b.subrange(53, 101) =~= r.signature@);
    let d = decode_record(b);
    assert(d.digest@ == r.digest@);
    assert(d.digest =~= r.digest);
    assert(d.signature@ == r.signature@);
    assert(d.signature =~= r.signature);
    assert(parse_records(b.subrange(101, 101)) == Seq::<WalRecord>::empty());
    assert(seq![r] + Seq::<WalRecord>::empty() =~= seq![r]);
}

/// Encoding a decoded record gives back the 101 bytes it was decoded from.
pub proof fn law_record_encode_decode(b: Seq<u8>)
    requires
        b.len() >= 101,
    ensures
        record_bytes(decode_record(b)) == b.subrange(0, 101),
{
    let r = decode_record(b);
    lemma_array_exists::<32>(b.subrange(21, 53));
    lemma_array_exists::<48>(b.subrange(53, 101));
    lemma_be64_of_value(b.subrange(0, 8));
    lemma_be64_of_value(b.subrange(8, 16));
    lemma_be32_of_value(b.subrange(17, 21));
    assert(record_bytes(r) =~= b.subrange(0, 101));
}

/// A record is decoded from its first 101 bytes alone.
proof fn lemma_decode_prefix(b: Seq<u8>, c: Seq<u8>)
    requires
        b.len() >= 101,
        c.len() >= 101,
        b.subrange(0, 101) == c.subrange(0, 101),
    ensures
        decode_record(b) == decode_record(c),
        b.subrange(53, 101) == c.subrange(53, 101),
        b.subrange(8, 16) == c.subrange(8, 16),
{
    assert(b.subrange(0, 8) =~= b.subrange(0, 101).subrange(0, 8));
    assert(c.subrange(0, 8) =~= c.subrange(0, 101).subrange(0, 8));
    assert(b.subrange(8, 16) =~= b.subrange(0, 101).subrange(8, 16));
    assert(c.subrange(8, 16) =~= c.subrange(0, 101).subrange(8, 16));
    assert(b[16] == b.subrange(0, 101)[16]);
    assert(c[16] == c.subrange(0, 101)[16]);
    assert(b.subrange(17, 21) =~= b.subrange(0, 101).subrange(17, 21));
    assert(c.subrange(17, 21) =~= c.subrange(0, 101).subrange(17, 21));
    assert(b.subrange(21, 53) =~= b.subrange(0, 101).subrange(21, 53));
    assert(c.subrange(21, 53) =~= c.subrange(0, 101).subrange(21, 53));
    assert(b.subrange(53, 101) =~= b.subrange(0, 101).subrange(53, 101));
    assert(c.subrange(53, 101) =~= c.subrange(0, 101).subrange(53, 101));
}

/// Reading a log made of whole records followed by more bytes gives the
/// records of the first part followed by those of the rest.
pub proof fn law_parse_concat(a: Seq<u8>, b: Seq<u8>)
    requires
        a.len() % 101 == 0,
    ensures
        parse_records(a + b) == parse_records(a) + parse_records(b),
    decreases a.len(),
{
    if a.len() == 0 {
        assert(a + b =~= b);
        assert(parse_records(a) + parse_records(b) =~= parse_records(b));
    } else {
        let c = a + b;
        let a2 = a.subrange(101, a.len() as int);
        assert(c.subrange(101, c.len() as int) =~= a2 + b);
        assert(c.subrange(0, 101) =~= a.subrange(0, 101));
        lemma_decode_prefix(c, a);
        law_parse_concat(a2, b);
        if spec_g1_valid(a.subrange(53, 101)) {
            assert(seq![decode_record(a)] + (parse_records(a2) + parse_records(b)) =~= (seq![
                decode_record(a),
            ] + parse_records(a2)) + parse_records(b));
        }
    }
}

/// Replaying a log of whole records after appending a record with a valid
/// signature gives the earlier records followed by that record.
pub proof fn law_append_then_replay(log: Seq<u8>, r: WalRecord)
    requires
        log.len() % 101 == 0,
        spec_g1_valid(r.signature@),
    ensures
        parse_records(log + record_bytes(r)) == parse_records(log).push(r),
{
    law_parse_concat(log, record_bytes(r));
    lemma_record_roundtrip(r);
    assert(parse_records(log) + seq![r] =~= parse_records(log).push(r));
}

/// Pruning keeps exactly the replayed records whose sequence number is at
/// least `min_seq`, in their order.
pub proof fn law_prune_keeps_later_records(b: Seq<u8>, min_seq: u64)
    ensures
        parse_records(pruned_log(b, min_seq)) == parse_records(b).filter(
            |r: WalRecord| r.seq >= min_seq,
        ),
    decreases b.len(),
{
    let keep = |r: WalRecord| r.seq >= min_seq;
    reveal(Seq::filter);
    if b.len() < 101 {
        assert(pruned_log(b, min_seq) == Seq::<u8>::empty());
        assert(parse_records(Seq::<u8>::empty()) == Seq::<WalRecord>::empty());
        assert(Seq::<WalRecord>::empty().filter(keep) =~= Seq::<WalRecord>::empty());
    } else {
        let rest = b.subrange(101, b.len() as int);
        let head = b.subrange(0, 101);
        law_prune_keeps_later_records(rest, min_seq);
        let p = pruned_log(rest, min_seq);
        assert(head.subrange(0, 101) =~= head);
        lemma_decode_prefix(b, head);
        let hp = if spec_g1_valid(b.subrange(53, 101)) {
            seq![decode_record(b)]
        } else {
            Seq::<WalRecord>::empty()
        };
        assert(parse_records(head) == hp) by {
            assert(head.subrange(101, 101) =~= Seq::<u8>::empty());
            assert(parse_records(head.subrange(101, 101)) == Seq::<WalRecord>::empty());
            assert(seq![decode_record(head)] + Seq::<WalRecord>::empty() =~= seq![decode_record(head)]);
        }
        assert(parse_records(b) == hp + parse_records(rest));
        Seq::filter_distributes_over_add(hp, parse_records(rest), keep);
        assert(decode_record(b).seq == be64_value(b.subrange(8, 16)));
        if be64_value(b.subrange(8, 16)) >= min_seq {
            law_parse_concat(head, p);
            assert(hp.filter(keep) =~= hp) by {
                if spec_g1_valid(b.subrange(53, 101)) {
                    assert(hp.drop_last() =~= Seq::<WalRecord>::empty());
                    assert(Seq::<WalRecord>::empty().filter(keep) =~= Seq::<WalRecord>::empty());
                } else {
                    assert(Seq::<WalRecord>::empty().filter(keep) =~= Seq::<WalRecord>::empty());
                }
            }
        } else {
            assert(hp.filter(keep) =~= Seq::<WalRecord>::empty()) by {
                if spec_g1_valid(b.subrange(53, 101)) {
                    assert(hp.drop_last() =~= Seq::<WalRecord>::empty());
                    assert(Seq::<WalRecord>::empty().filter(keep) =~= Seq::<WalRecord>::empty());
                } else {
                    assert(Seq::<WalRecord>::empty().filter(keep) =~= Seq::<WalRecord>::empty());
                }
            }
            assert(Seq::<WalRecord>::empty() + parse_records(rest).filter(keep) =~= parse_records(
                rest,
            ).filter(keep));
        }
    }
}

} // verus!
