//! Consensus messages and their wire formats.
use crate::codec::{
    be32, be32_value, be64, be64_value, lemma_array_exists, lemma_be32_of_value,
    lemma_be32_roundtrip, lemma_be64_of_value, lemma_be64_roundtrip, push_bytes, push_u32_be,
    push_u64_be, read_array32, read_array48, read_u32_be, read_u64_be,
};
use crate::curve::{g1_is_valid, spec_g1_valid};
use vstd::prelude::*;

verus! {

/// The phase of a consensus message.
#[derive(Debug, Clone, Copy, PartialEq, Eq, Structural)]
pub enum Phase {
    PrePrepare,
    Prepare,
    Commit,
    ViewChange,
}

/// The byte that stands for a phase on the wire.
pub open spec fn phase_byte(p: Phase) -> u8 {
    match p {
        Phase::PrePrepare => 0,
        Phase::Prepare => 1,
        Phase::Commit => 2,
        Phase::ViewChange => 3,
    }
}

/// The phase that a byte stands for, if any.
pub open spec fn phase_of_byte(b: u8) -> Option<Phase> {
    if b == 0 {
        Some(Phase::PrePrepare)
    } else if b == 1 {
        Some(Phase::Prepare)
    } else if b == 2 {
        Some(Phase::Commit)
    } else if b == 3 {
        Some(Phase::ViewChange)
    } else {
        None
    }
}

impl Phase {
    /// The byte that stands for this phase on the wire.
    pub fn to_byte(&self) -> (r: u8)
        ensures
            r == phase_byte(*self),
    {
        match self {
            Phase::PrePrepare => 0,
            Phase::Prepare => 1,
            Phase::Commit => 2,
            Phase::ViewChange => 3,
        }
    }
}

/// The bytes that a vote of a phase signs: the phase byte, the view and the
/// sequence number (big-endian) and the digest.
pub open spec fn vote_bytes(phase: u8, view: u64, seq: u64, digest: Seq<u8>) -> Seq<u8> {
    seq![phase] + be64(view) + be64(seq) + digest
}

/// Builds the bytes that a vote of a phase signs.
pub fn canonical_vote_bytes(phase: u8, view: u64, seq: u64, digest: &[u8; 32]) -> (r: Vec<u8>)
    ensures
        r@ == vote_bytes(phase, view, seq, digest@),
{
    let mut bytes: Vec<u8> = Vec::new();
    bytes.push(phase);
    push_u64_be(&mut bytes, view);
    push_u64_be(&mut bytes, seq);
    push_bytes(&mut bytes, digest.as_slice());
    assert(bytes@ =~= vote_bytes(phase, view, seq, digest@));
    bytes
}

/// A signed consensus message.
#[derive(Clone, Copy, Debug)]
pub struct PbftMessage {
    pub phase: Phase,
    pub view: u64,
    pub seq: u64,
    pub digest: [u8; 32],
    pub sender_id: u32,
    pub signature: [u8; 48],
}

/// The length of an encoded message.
pub const MESSAGE_LEN: usize = 101;

/// The wire encoding of a message: phase byte, view, sequence number, digest,
/// sender and compressed signature.
pub open spec fn message_bytes(m: PbftMessage) -> Seq<u8> {
    seq![phase_byte(m.phase)] + be64(m.view) + be64(m.seq) + m.digest@ + be32(m.sender_id)
        + m.signature@
}

/// The message that the first 101 bytes of `b` encode, given a valid phase byte.
pub open spec fn decode_message(b: Seq<u8>) -> PbftMessage {
    PbftMessage {
        phase: phase_of_byte(b[0]).unwrap(),
        view: be64_value(b.subrange(1, 9)),
        seq: be64_value(b.subrange(9, 17)),
        digest: array_of_32(b.subrange(17, 49)),
        sender_id: be32_value(b.subrange(49, 53)),
        signature: array_of_48(b.subrange(53, 101)),
    }
}

/// The array whose contents are `s` (32 bytes).
pub open spec fn array_of_32(s: Seq<u8>) -> [u8; 32] {
    choose|a: [u8; 32]| a@ == s
}

/// The array whose contents are `s` (48 bytes).
pub open spec fn array_of_48(s: Seq<u8>) -> [u8; 48] {
    choose|a: [u8; 48]| a@ == s
}

impl PbftMessage {
    /// The wire encoding of this message.
    pub fn to_bytes(&self) -> (r: Vec<u8>)
        ensures
            r@ == message_bytes(*self),
    {
        let mut bytes: Vec<u8> = Vec::new();
        bytes.push(self.phase.to_byte());
        push_u64_be(&mut bytes, self.view);
        push_u64_be(&mut bytes, self.seq);
        push_bytes(&mut bytes, self.digest.as_slice());
        push_u32_be(&mut bytes, self.sender_id);
        push_bytes(&mut bytes, self.signature.as_slice());
        assert(bytes@ =~= message_bytes(*self));
        bytes
    }

    /// Decodes a message from the first 101 bytes of `bytes`.
    pub fn from_bytes(bytes: &[u8]) -> (r: Result<Self, &'static str>)
        ensures
            bytes@.len() < 101 ==> r == Err::<Self, &'static str>("INVALID_MESSAGE_LENGTH"),
            bytes@.len() >= 101 && phase_of_byte(bytes@[0]) is None ==> r == Err::<
                Self,
                &'static str,
            >("INVALID_PHASE"),
            bytes@.len() >= 101 && phase_of_byte(bytes@[0]) is Some && !spec_g1_valid(
                bytes@.subrange(53, 101),
            ) ==> r == Err::<Self, &'static str>("INVALID_SIGNATURE_BYTES"),
            bytes@.len() >= 101 && phase_of_byte(bytes@[0]) is Some && spec_g1_valid(
                bytes@.subrange(53, 101),
            ) ==> r == Ok::<Self, &'static str>(decode_message(bytes@)),
    {
        if bytes.len() < 101 {
            return Err("INVALID_MESSAGE_LENGTH");
        }
        let phase = match bytes[0] {
            0 => Phase::PrePrepare,
            1 => Phase::Prepare,
            2 => Phase::Commit,
            3 => Phase::ViewChange,
            _ => {
                return Err("INVALID_PHASE");
            },
        };
        let view = read_u64_be(bytes, 1);
        let seq = read_u64_be(bytes, 9);
        let digest = read_array32(bytes, 17);
        let sender_id = read_u32_be(bytes, 49);
        let signature = read_array48(bytes, 53);
        if !g1_is_valid(&signature) {
            return Err("INVALID_SIGNATURE_BYTES");
        }
        let m = PbftMessage { phase, view, seq, digest, sender_id, signature };
        proof {
            let d = decode_message(bytes@);
            assert(d.digest@ == digest@);
            assert(d.signature@ == signature@);
            assert(d.digest == digest);
            assert(d.signature == signature);
        }
        Ok(m)
    }
}

/// Decoding the encoding of a message gives the message back.
pub proof fn lemma_message_decode_encode(m: PbftMessage)
    ensures
        message_bytes(m).len() == 101,
        phase_of_byte(message_bytes(m)[0]) == Some(m.phase),
        message_bytes(m).subrange(53, 101) == m.signature@,
        decode_message(message_bytes(m)) == m,
{
    let b = message_bytes(m);
    lemma_be64_roundtrip(m.view);
    lemma_be64_roundtrip(m.seq);
    lemma_be32_roundtrip(m.sender_id);
    assert(b.subrange(1, 9) =~= be64(m.view));
    assert(b.subrange(9, 17) =~= be64(m.seq));
    assert(b.subrange(17, 49) =~= m.digest@);
    assert(b.subrange(49, 53) =~= be32(m.sender_id));
    assert(b.subrange(53, 101) =~= m.signature@);
    let d = decode_message(b);
    assert(d.digest@ == m.digest@);
    assert(d.digest =~= m.digest);
    assert(d.signature@ == m.signature@);
    assert(d.signature =~= m.signature);
}


/// Encoding a decoded message gives back the 101 bytes it was decoded from.
pub proof fn law_message_encode_decode(b: Seq<u8>)
    requires
        b.len() >= 101,
        phase_of_byte(b[0]) is Some,
    ensures
        message_bytes(decode_message(b)) == b.subrange(0, 101),
{
    let m = decode_message(b);
    lemma_array_exists::<32>(b.subrange(17, 49));
    lemma_array_exists::<48>(b.subrange(53, 101));
    lemma_be64_of_value(b.subrange(1, 9));
    lemma_be64_of_value(b.subrange(9, 17));
    lemma_be32_of_value(b.subrange(49, 53));
    assert(phase_byte(m.phase) == b[0]);
    assert(message_bytes(m) =~= b.subrange(0, 101));
}

/// A view-change request carrying the replica's prepared state.
#[derive(Clone, Copy, Debug)]
pub struct ViewChangePayload {
    pub target_view: u64,
    pub prepared_view: u64,
    pub prepared_seq: u64,
    pub digest: [u8; 32],
    pub sender_id: u32,
    pub signature: [u8; 48],
}

/// The signed part of a view-change payload: target view, prepared view,
/// prepared sequence number (big-endian) and digest.
pub open spec fn payload_canonical_bytes(p: ViewChangePayload) -> Seq<u8> {
    be64(p.target_view) + be64(p.prepared_view) + be64(p.prepared_seq) + p.digest@
}

/// The wire encoding of a view-change payload: the signed part, the sender and
/// the compressed signature.
pub open spec fn payload_bytes(p: ViewChangePayload) -> Seq<u8> {
    payload_canonical_bytes(p) + be32(p.sender_id) + p.signature@
}

/// The payload that the first 108 bytes of `b` encode.
pub open spec fn decode_payload(b: Seq<u8>) -> ViewChangePayload {
    ViewChangePayload {
        target_view: be64_value(b.subrange(0, 8)),
        prepared_view: be64_value(b.subrange(8, 16)),
        prepared_seq: be64_value(b.subrange(16, 24)),
        digest: array_of_32(b.subrange(24, 56)),
        sender_id: be32_value(b.subrange(56, 60)),
        signature: array_of_48(b.subrange(60, 108)),
    }
}

impl ViewChangePayload {
    /// The bytes that the payload's signature covers.
    pub fn canonical_bytes(&self) -> (r: Vec<u8>)
        ensures
            r@ == payload_canonical_bytes(*self),
    {
        let mut bytes: Vec<u8> = Vec::new();
        push_u64_be(&mut bytes, self.target_view);
        push_u64_be(&mut bytes, self.prepared_view);
        push_u64_be(&mut bytes, self.prepared_seq);
        push_bytes(&mut bytes, self.digest.as_slice());
        assert(bytes@ =~= payload_canonical_bytes(*self));
        bytes
    }

    /// The wire encoding of the payload.
    pub fn to_bytes(&self) -> (r: Vec<u8>)
        ensures
            r@ == payload_bytes(*self),
    {
        let mut bytes = self.canonical_bytes();
        push_u32_be(&mut bytes, self.sender_id);
        push_bytes(&mut bytes, self.signature.as_slice());
        bytes
    }

    /// Decodes a payload from the first 108 bytes of `bytes`.
    pub fn from_bytes(bytes: &[u8]) -> (r: Result<Self, &'static str>)
        ensures
            bytes@.len() < 108 ==> r == Err::<Self, &'static str>(
                "INVALID_VIEW_CHANGE_PAYLOAD_LENGTH",
            ),
            bytes@.len() >= 108 && !spec_g1_valid(bytes@.subrange(60, 108)) ==> r == Err::<
                Self,
                &'static str,
            >("INVALID_SIGNATURE_BYTES"),
            bytes@.len() >= 108 && spec_g1_valid(bytes@.subrange(60, 108)) ==> r == Ok::<
                Self,
                &'static str,
            >(decode_payload(bytes@)),
    {
        if bytes.len() < 108 {
            return Err("INVALID_VIEW_CHANGE_PAYLOAD_LENGTH");
        }
        let target_view = read_u64_be(bytes, 0);
        let prepared_view = read_u64_be(bytes, 8);
        let prepared_seq = read_u64_be(bytes, 16);
        let digest = read_array32(bytes, 24);
        let sender_id = read_u32_be(bytes, 56);
        let signature = read_array48(bytes, 60);
        if !g1_is_valid(&signature) {
            return Err("INVALID_SIGNATURE_BYTES");
        }
        let p = ViewChangePayload {
            target_view,
            prepared_view,
            prepared_seq,
            digest,
            sender_id,
            signature,
        };
        proof {
            let d = decode_payload(bytes@);
            assert(d.digest@ == digest@);
            assert(d.signature@ == signature@);
            assert(d.digest == digest);
            assert(d.signature == signature);
        }
        Ok(p)
    }
}

/// Decoding the encoding of a payload gives the payload back.
pub proof fn lemma_payload_decode_encode(p: ViewChangePayload)
    ensures
        payload_bytes(p).len() == 108,
        payload_bytes(p).subrange(60, 108) == p.signature@,
        decode_payload(payload_bytes(p)) == p,
{
    let b = payload_bytes(p);
    lemma_be64_roundtrip(p.target_view);
    lemma_be64_roundtrip(p.prepared_view);
    lemma_be64_roundtrip(p.prepared_seq);
    lemma_be32_roundtrip(p.sender_id);
    assert(b.subrange(0, 8) =~= be64(p.target_view));
    assert(b.subrange(8, 16) =~= be64(p.prepared_view));
    assert(b.subrange(16, 24) =~= be64(p.prepared_seq));
    assert(b.subrange(24, 56) =~= p.digest@);
    assert(b.subrange(56, 60) =~= be32(p.sender_id));
    assert(b.subrange(60, 108) =~= p.signature@);
    let d = decode_payload(b);
    assert(d.digest@ == p.digest@);
    assert(d.digest =~= p.digest);
    assert(d.signature@ == p.signature@);
    assert(d.signature =~= p.signature);
}

/// Encoding a decoded payload gives back the 108 bytes it was decoded from.
pub proof fn law_payload_encode_decode(b: Seq<u8>)
    requires
        b.len() >= 108,
    ensures
        payload_bytes(decode_payload(b)) == b.subrange(0, 108),
{
    let p = decode_payload(b);
    lemma_array_exists::<32>(b.subrange(24, 56));
    lemma_array_exists::<48>(b.subrange(60, 108));
    lemma_be64_of_value(b.subrange(0, 8));
    lemma_be64_of_value(b.subrange(8, 16));
    lemma_be64_of_value(b.subrange(16, 24));
    lemma_be32_of_value(b.subrange(56, 60));
    assert(payload_bytes(p) =~= b.subrange(0, 108));
}

} // verus!
