//! Distributed key generation with Feldman verifiable secret sharing: each
//! dealer shares the constant term of a random polynomial, publishes
//! commitments to its coefficients in G2, and every receiver checks its share
//! against them.
use crate::codec::{
    be32, be32_value, bytes_equal, lemma_be32_of_value, lemma_be32_roundtrip, push_bytes,
    push_u32_be, read_array32, read_array48, read_array96, read_u32_be,
};
use crate::curve::{
    g1_is_valid, g2_add, g2_generator_mul, g2_identity, g2_identity_encoding, g2_is_valid, g2_mul,
    group_order, random_scalar, scalar_add, scalar_from_u64, scalar_is_canonical, scalar_mul,
    scalar_val, sha256, spec_g1_valid, spec_g2_add, spec_g2_generator_mul, spec_g2_mul,
    spec_g2_valid, spec_sha256, valid_scalar,
};
use crate::scalar::{lemma_scalar_bytes_of_value, scalar_bytes, scalar_one, scalar_zero};
use crate::table::{NodeTable, lemma_lookup_is_entry, lemma_node_table_values, seq_lookup};
use crate::threshold_bls::{bls_valid, node_x, verify_bls_signature};
use std::collections::HashMap;
use vstd::arithmetic::div_mod::{lemma_add_mod_noop, lemma_mul_mod_noop_left, lemma_mul_mod_noop_right};
use vstd::arithmetic::power::pow;
use vstd::prelude::*;
use vstd::std_specs::hash::spec_hash_map_iter;
use vstd::std_specs::iter::IteratorSpec;

verus! {

broadcast use vstd::std_specs::hash::group_hash_axioms;

/// A dealer's share for one receiver, with the dealer's commitments and its
/// signature under the first commitment.
pub struct DkgShareMessage {
    pub from_node: u32,
    pub to_node: u32,
    pub share: [u8; 32],
    pub commitments: Vec<[u8; 96]>,
    pub signature: [u8; 48],
}

/// The concatenated encodings of a sequence of commitments.
pub open spec fn commitments_bytes(cs: Seq<[u8; 96]>) -> Seq<u8>
    decreases cs.len(),
{
    if cs.len() == 0 {
        Seq::empty()
    } else {
        commitments_bytes(cs.drop_last()) + cs.last()@
    }
}

/// The signed part of a share message: sender, receiver, share and commitments.
pub open spec fn share_canonical_bytes(from_node: u32, to_node: u32, share: Seq<u8>, cs: Seq<[u8; 96]>) -> Seq<u8> {
    be32(from_node) + be32(to_node) + share + commitments_bytes(cs)
}

/// The number of whole commitments that fit in a packet of `len` bytes.
pub open spec fn packet_commitment_count(len: int) -> int {
    (len - 88) / 96
}

/// The `i`-th commitment chunk of a packet.
pub open spec fn packet_chunk(b: Seq<u8>, i: int) -> Seq<u8> {
    b.subrange(40 + 96 * i, 40 + 96 * i + 96)
}

/// The encodings of commitments take 96 bytes each, in order.
proof fn lemma_commitments_bytes(cs: Seq<[u8; 96]>)
    ensures
        commitments_bytes(cs).len() == 96 * cs.len(),
        forall|i: int|
            0 <= i < cs.len() ==> #[trigger] commitments_bytes(cs).subrange(96 * i, 96 * i + 96)
                == cs[i]@,
    decreases cs.len(),
{
    if cs.len() > 0 {
        let init = cs.drop_last();
        lemma_commitments_bytes(init);
        let b = commitments_bytes(cs);
        assert(b == commitments_bytes(init) + cs.last()@);
        assert forall|i: int| 0 <= i < cs.len() implies #[trigger] b.subrange(96 * i, 96 * i + 96)
            == cs[i]@ by {
            if i < init.len() {
                assert(b.subrange(96 * i, 96 * i + 96) =~= commitments_bytes(init).subrange(
                    96 * i,
                    96 * i + 96,
                ));
                assert(init[i] == cs[i]);
            } else {
                assert(b.subrange(96 * i, 96 * i + 96) =~= cs.last()@);
            }
        }
    }
}

/// Decoding the encoding of a share message gives its fields back: the
/// sender, the receiver, the share, each commitment in order and the
/// signature, with exactly as many commitment chunks as commitments.
pub proof fn law_share_message_decode_encode(m: DkgShareMessage)
    ensures
        ({
            let b = share_canonical_bytes(m.from_node, m.to_node, m.share@, m.commitments@)
                + m.signature@;
            &&& b.len() == 88 + 96 * m.commitments@.len()
            &&& (b.len() - 88) % 96 == 0
            &&& packet_commitment_count(b.len() as int) == m.commitments@.len()
            &&& be32_value(b.subrange(0, 4)) == m.from_node
            &&& be32_value(b.subrange(4, 8)) == m.to_node
            &&& b.subrange(8, 40) == m.share@
            &&& forall|i: int|
                0 <= i < m.commitments@.len() ==> #[trigger] packet_chunk(b, i)
                    == m.commitments@[i]@
            &&& b.subrange(b.len() - 48, b.len() as int) == m.signature@
        }),
{
    let cs = m.commitments@;
    let c = commitments_bytes(cs);
    let b = share_canonical_bytes(m.from_node, m.to_node, m.share@, cs) + m.signature@;
    lemma_commitments_bytes(cs);
    lemma_be32_roundtrip(m.from_node);
    lemma_be32_roundtrip(m.to_node);
    assert(b =~= be32(m.from_node) + be32(m.to_node) + m.share@ + c + m.signature@);
    assert(b.subrange(0, 4) =~= be32(m.from_node));
    assert(b.subrange(4, 8) =~= be32(m.to_node));
    assert(b.subrange(8, 40) =~= m.share@);
    assert(b.subrange(b.len() - 48, b.len() as int) =~= m.signature@);
    let n = cs.len();
    assert((96 * n) % 96 == 0 && (96 * n) / 96 == n) by (nonlinear_arith);
    assert forall|i: int| 0 <= i < cs.len() implies #[trigger] packet_chunk(b, i) == cs[i]@ by {
        assert(0 <= 96 * i && 96 * i + 96 <= 96 * n) by (nonlinear_arith)
            requires
                0 <= i < n,
        ;
        assert(packet_chunk(b, i) =~= c.subrange(96 * i, 96 * i + 96));
    }
}

/// Commitments whose encodings are the successive 96-byte pieces of `c`
/// encode to `c`.
proof fn lemma_commitments_bytes_of_chunks(c: Seq<u8>, cs: Seq<[u8; 96]>)
    requires
        c.len() == 96 * cs.len(),
        forall|i: int| 0 <= i < cs.len() ==> #[trigger] cs[i]@ == c.subrange(96 * i, 96 * i + 96),
    ensures
        commitments_bytes(cs) == c,
    decreases cs.len(),
{
    if cs.len() > 0 {
        let n = cs.len() - 1;
        let init = cs.drop_last();
        let c0 = c.subrange(0, 96 * n);
        assert forall|i: int| 0 <= i < init.len() implies #[trigger] init[i]@ == c0.subrange(
            96 * i,
            96 * i + 96,
        ) by {
            assert(init[i] == cs[i]);
            assert(96 * i + 96 <= 96 * n) by (nonlinear_arith)
                requires
                    i < n,
            ;
            assert(c0.subrange(96 * i, 96 * i + 96) =~= c.subrange(96 * i, 96 * i + 96));
        }
        lemma_commitments_bytes_of_chunks(c0, init);
        assert(cs.last() == cs[n]);
        assert(c =~= c0 + c.subrange(96 * n, 96 * n + 96));
    } else {
        assert(c =~= Seq::<u8>::empty());
    }
}

/// A message decoded from a packet encodes back to that packet: given the
/// fields that `DkgShareMessage::from_bytes` reads from `b`, the encoding is
/// `b`.
pub proof fn law_share_packet_encode_decode(b: Seq<u8>, m: DkgShareMessage)
    requires
        b.len() >= 88,
        (b.len() - 88) % 96 == 0,
        m.from_node == be32_value(b.subrange(0, 4)),
        m.to_node == be32_value(b.subrange(4, 8)),
        m.share@ == b.subrange(8, 40),
        m.commitments@.len() == packet_commitment_count(b.len() as int),
        forall|i: int|
            0 <= i < m.commitments@.len() ==> (#[trigger] m.commitments@[i])@ == packet_chunk(b, i),
        m.signature@ == b.subrange(b.len() - 48, b.len() as int),
    ensures
        share_canonical_bytes(m.from_node, m.to_node, m.share@, m.commitments@) + m.signature@
            == b,
{
    let n = m.commitments@.len();
    let len = b.len() as int;
    assert(len - 88 == 96 * n) by (nonlinear_arith)
        requires
            (len - 88) % 96 == 0,
            n == (len - 88) / 96,
    ;
    let c = b.subrange(40, len - 48);
    assert forall|i: int| 0 <= i < n implies #[trigger] m.commitments@[i]@ == c.subrange(
        96 * i,
        96 * i + 96,
    ) by {
        assert(96 * i + 96 <= 96 * n) by (nonlinear_arith)
            requires
                0 <= i < n,
        ;
        assert(c.subrange(96 * i, 96 * i + 96) =~= packet_chunk(b, i));
    }
    lemma_commitments_bytes_of_chunks(c, m.commitments@);
    lemma_be32_of_value(b.subrange(0, 4));
    lemma_be32_of_value(b.subrange(4, 8));
    assert(share_canonical_bytes(m.from_node, m.to_node, m.share@, m.commitments@) + m.signature@
        =~= b);
}

/// Appends the encodings of commitments.
fn push_commitments(out: &mut Vec<u8>, cs: &[[u8; 96]])
    ensures
        final(out)@ == old(out)@ + commitments_bytes(cs@),
{
    let mut i: usize = 0;
    while i < cs.len()
        invariant
            0 <= i <= cs@.len(),
            out@ == old(out)@ + commitments_bytes(cs@.subrange(0, i as int)),
        decreases cs@.len() - i,
    {
        let c = cs[i];
        push_bytes(out, c.as_slice());
        proof {
            assert(cs@.subrange(0, i + 1).drop_last() =~= cs@.subrange(0, i as int));
            assert(out@ =~= old(out)@ + commitments_bytes(cs@.subrange(0, i + 1)));
        }
        i = i + 1;
    }
    assert(cs@.subrange(0, cs@.len() as int) =~= cs@);
}

impl DkgShareMessage {
    /// The bytes that the message's signature covers.
    pub fn canonical_bytes(&self) -> (r: Vec<u8>)
        ensures
            r@ == share_canonical_bytes(self.from_node, self.to_node, self.share@, self.commitments@),
    {
        let mut bytes: Vec<u8> = Vec::new();
        push_u32_be(&mut bytes, self.from_node);
        push_u32_be(&mut bytes, self.to_node);
        push_bytes(&mut bytes, self.share.as_slice());
        push_commitments(&mut bytes, self.commitments.as_slice());
        assert(bytes@ =~= share_canonical_bytes(self.from_node, self.to_node, self.share@, self.commitments@));
        bytes
    }

    /// The wire encoding: the signed part followed by the compressed signature.
    pub fn to_bytes(&self) -> (r: Vec<u8>)
        ensures
            r@ == share_canonical_bytes(self.from_node, self.to_node, self.share@, self.commitments@)
                + self.signature@,
    {
        let mut bytes = self.canonical_bytes();
        push_bytes(&mut bytes, self.signature.as_slice());
        bytes
    }

    /// Decodes a share message.  After sender, receiver and share come as many
    /// whole 96-byte commitments as leave room for the 48-byte signature; the
    /// signature must then fill the rest exactly.
    pub fn from_bytes(bytes: &[u8]) -> (r: Result<Self, &'static str>)
        ensures
            bytes@.len() < 88 ==> (r matches Err(e) && e == "DKG_PACKET_TOO_SHORT"),
            bytes@.len() >= 88 && scalar_val(bytes@.subrange(8, 40)) >= group_order() ==> (r matches Err(e) && e == "INVALID_SHARE_SCALAR"),
            bytes@.len() >= 88 && scalar_val(bytes@.subrange(8, 40)) < group_order() && (exists|i: int|
                0 <= i < packet_commitment_count(bytes@.len() as int) && !spec_g2_valid(
                    #[trigger] packet_chunk(bytes@, i),
                )) ==> (r matches Err(e) && e == "INVALID_G2_COMMITMENT"),
            bytes@.len() >= 88 && scalar_val(bytes@.subrange(8, 40)) < group_order() && (forall|i: int|
                0 <= i < packet_commitment_count(bytes@.len() as int) ==> spec_g2_valid(
                    #[trigger] packet_chunk(bytes@, i),
                )) ==> if (bytes@.len() - 88) % 96 != 0 {
                r matches Err(e) && e == "INVALID_DKG_PACKET_STRUCTURE"
            } else if !spec_g1_valid(bytes@.subrange(bytes@.len() - 48, bytes@.len() as int)) {
                r matches Err(e) && e == "INVALID_G1_SIGNATURE"
            } else {
                r matches Ok(m) && m.from_node == be32_value(bytes@.subrange(0, 4)) && m.to_node
                    == be32_value(bytes@.subrange(4, 8)) && m.share@ == bytes@.subrange(8, 40)
                    && m.commitments@.len() == packet_commitment_count(bytes@.len() as int) && (
                forall|i: int|
                    0 <= i < m.commitments@.len() ==> (#[trigger] m.commitments@[i])@ == packet_chunk(
                        bytes@,
                        i,
                    )) && m.signature@ == bytes@.subrange(
                    bytes@.len() - 48,
                    bytes@.len() as int,
                )
            },
    {
        if bytes.len() < 88 {
            return Err("DKG_PACKET_TOO_SHORT");
        }
        let from_node = read_u32_be(bytes, 0);
        let to_node = read_u32_be(bytes, 4);
        let share = read_array32(bytes, 8);
        if !scalar_is_canonical(&share) {
            return Err("INVALID_SHARE_SCALAR");
        }
        let ghost n = bytes@.len() as int;
        let ghost k = packet_commitment_count(n);
        let mut offset: usize = 40;
        let mut commitments: Vec<[u8; 96]> = Vec::new();
        while bytes.len() - 48 - offset >= 96
            invariant
                bytes@.len() >= 88,
                scalar_val(bytes@.subrange(8, 40)) < group_order(),
                n == bytes@.len(),
                k == packet_commitment_count(n),
                offset == 40 + 96 * commitments@.len(),
                offset <= n - 48,
                commitments@.len() <= k,
                forall|j: int|
                    #![trigger commitments@[j]]
                    #![trigger packet_chunk(bytes@, j)]
                    0 <= j < commitments@.len() ==> commitments@[j]@ == packet_chunk(bytes@, j)
                        && spec_g2_valid(packet_chunk(bytes@, j)),
            decreases n - offset,
        {
            let c = read_array96(bytes, offset);
            proof {
                let i = commitments@.len() as int;
                assert(c@ == packet_chunk(bytes@, i));
                assert(i < k) by (nonlinear_arith)
                    requires
                        offset == 40 + 96 * i,
                        offset + 96 <= n - 48,
                        k == (n - 88) / 96,
                ;
            }
            if !g2_is_valid(&c) {
                return Err("INVALID_G2_COMMITMENT");
            }
            commitments.push(c);
            offset = offset + 96;
            assert(commitments@.len() <= k) by (nonlinear_arith)
                requires
                    offset == 40 + 96 * commitments@.len(),
                    offset <= n - 48,
                    k == (n - 88) / 96,
            ;
        }
        assert(commitments@.len() == k) by (nonlinear_arith)
            requires
                offset == 40 + 96 * commitments@.len(),
                offset + 96 > n - 48,
                commitments@.len() <= k,
                k == (n - 88) / 96,
                n >= 88,
        ;
        if bytes.len() - offset != 48 {
            proof {
                assert((n - 88) % 96 != 0) by (nonlinear_arith)
                    requires
                        offset == 40 + 96 * k,
                        n - offset != 48,
                        k == (n - 88) / 96,
                        n >= 88,
                ;
            }
            return Err("INVALID_DKG_PACKET_STRUCTURE");
        }
        proof {
            assert((n - 88) % 96 == 0) by (nonlinear_arith)
                requires
                    offset == 40 + 96 * k,
                    n - offset == 48,
                    k == (n - 88) / 96,
                    n >= 88,
            ;
        }
        let signature = read_array48(bytes, offset);
        if !g1_is_valid(&signature) {
            return Err("INVALID_G1_SIGNATURE");
        }
        Ok(DkgShareMessage { from_node, to_node, share, commitments, signature })
    }

    /// Checks the message's signature under the dealer's first commitment
    /// (its public key); `false` when there are no commitments.
    pub fn verify_signature(&self) -> (r: bool)
        ensures
            r == (self.commitments@.len() > 0 && bls_valid(
                share_canonical_bytes(self.from_node, self.to_node, self.share@, self.commitments@),
                self.signature@,
                self.commitments@[0]@,
            )),
    {
        if self.commitments.len() == 0 {
            return false;
        }
        let dealer_pubkey = self.commitments[0];
        let canonical = self.canonical_bytes();
        verify_bls_signature(canonical.as_slice(), &self.signature, &dealer_pubkey)
    }
}

/// A node's state in one run of distributed key generation.
pub struct DkgSession {
    pub node_id: u32,
    pub threshold: usize,
    pub total_nodes: usize,
    pub secret_polynomial: Vec<[u8; 32]>,
    pub received_shares: NodeTable<[u8; 32]>,
    pub received_commitments: NodeTable<Vec<[u8; 96]>>,
}

/// The sum over the first `k` coefficients of coefficient i times x^i.
pub open spec fn poly_sum(coeffs: Seq<[u8; 32]>, x: nat, k: int) -> int
    decreases k,
{
    if k <= 0 {
        0
    } else {
        poly_sum(coeffs, x, k - 1) + scalar_val(coeffs[k - 1]@) * pow(x as int, (k - 1) as nat)
    }
}

/// The polynomial with these coefficients evaluated at x, modulo the group order.
pub open spec fn poly_eval(coeffs: Seq<[u8; 32]>, x: nat) -> nat {
    (poly_sum(coeffs, x, coeffs.len() as int) % (group_order() as int)) as nat
}

/// The sum over the first `k` commitments of commitment i times x^i (the
/// exponent reduced modulo the group order), starting from the point at
/// infinity; `None` when a commitment is not a valid encoding.
pub open spec fn feldman_prefix(cs: Seq<[u8; 96]>, x: nat, k: int) -> Option<Seq<u8>>
    decreases k,
{
    if k <= 0 {
        Some(g2_identity_encoding())
    } else {
        match feldman_prefix(cs, x, k - 1) {
            Some(acc) => if spec_g2_valid(cs[k - 1]@) {
                Some(
                    spec_g2_add(
                        acc,
                        spec_g2_mul(
                            cs[k - 1]@,
                            scalar_bytes((pow(x as int, (k - 1) as nat) % (group_order() as int)) as nat),
                        ),
                    ),
                )
            } else {
                None
            },
            None => None,
        }
    }
}

/// The bytes hashed into a commitment transcript: for every dealer in node
/// order, its identifier (big-endian) followed by its commitments.
pub open spec fn transcript_bytes(entries: Seq<(u32, Vec<[u8; 96]>)>) -> Seq<u8>
    decreases entries.len(),
{
    if entries.len() == 0 {
        Seq::empty()
    } else {
        transcript_bytes(entries.drop_last()) + be32(entries.last().0) + commitments_bytes(
            entries.last().1@,
        )
    }
}

fn copy_commitments(cs: &[[u8; 96]]) -> (r: Vec<[u8; 96]>)
    ensures
        r@ == cs@,
{
    let mut out: Vec<[u8; 96]> = Vec::new();
    let mut i: usize = 0;
    while i < cs.len()
        invariant
            0 <= i <= cs@.len(),
            out@ == cs@.subrange(0, i as int),
        decreases cs@.len() - i,
    {
        out.push(cs[i]);
        i = i + 1;
        assert(out@ =~= cs@.subrange(0, i as int));
    }
    assert(cs@.subrange(0, cs@.len() as int) =~= cs@);
    out
}

impl DkgSession {
    /// The invariant of a session: `threshold` canonical coefficients, canonical
    /// received shares, and `threshold` valid commitments from every dealer.
    pub open spec fn wf(&self) -> bool {
        &&& self.secret_polynomial@.len() == self.threshold
        &&& forall|i: int|
            0 <= i < self.secret_polynomial@.len() ==> valid_scalar(
                (#[trigger] self.secret_polynomial@[i])@,
            )
        &&& self.received_shares.wf()
        &&& forall|i: int|
            0 <= i < self.received_shares@.len() ==> valid_scalar((#[trigger] self.received_shares@[i]).1@)
        &&& self.received_commitments.wf()
        &&& forall|i: int|
            0 <= i < self.received_commitments@.len() ==> {
                let cs = (#[trigger] self.received_commitments@[i]).1@;
                &&& cs.len() == self.threshold
                &&& forall|j: int| 0 <= j < cs.len() ==> spec_g2_valid((#[trigger] cs[j])@)
            }
    }

    /// Starts a session with a random polynomial of `threshold` coefficients.
    pub fn new(node_id: u32, threshold: usize, total_nodes: usize) -> (r: Self)
        ensures
            r.wf(),
            r.node_id == node_id,
            r.threshold == threshold,
            r.total_nodes == total_nodes,
            r.received_shares@.len() == 0,
            r.received_commitments@.len() == 0,
    {
        let mut secret_polynomial: Vec<[u8; 32]> = Vec::new();
        let mut i: usize = 0;
        while i < threshold
            invariant
                0 <= i <= threshold,
                secret_polynomial@.len() == i,
                forall|j: int| 0 <= j < i ==> valid_scalar((#[trigger] secret_polynomial@[j])@),
            decreases threshold - i,
        {
            secret_polynomial.push(random_scalar());
            i = i + 1;
        }
        DkgSession {
            node_id,
            threshold,
            total_nodes,
            secret_polynomial,
            received_shares: NodeTable::new(),
            received_commitments: NodeTable::new(),
        }
    }

    /// The dealer's secret: the constant coefficient.
    pub fn dealer_secret_key(&self) -> (r: [u8; 32])
        requires
            self.secret_polynomial@.len() > 0,
        ensures
            r == self.secret_polynomial@[0],
    {
        self.secret_polynomial[0]
    }

    /// The commitments to the coefficients: each coefficient times the G2 generator.
    pub fn generate_commitments(&self) -> (r: Vec<[u8; 96]>)
        requires
            self.wf(),
        ensures
            r@.len() == self.secret_polynomial@.len(),
            forall|i: int|
                0 <= i < r@.len() ==> (#[trigger] r@[i])@ == spec_g2_generator_mul(
                    self.secret_polynomial@[i]@,
                ) && spec_g2_valid(r@[i]@),
    {
        let mut out: Vec<[u8; 96]> = Vec::new();
        let mut i: usize = 0;
        while i < self.secret_polynomial.len()
            invariant
                self.wf(),
                0 <= i <= self.secret_polynomial@.len(),
                out@.len() == i,
                forall|j: int|
                    0 <= j < i ==> (#[trigger] out@[j])@ == spec_g2_generator_mul(
                        self.secret_polynomial@[j]@,
                    ) && spec_g2_valid(out@[j]@),
            decreases self.secret_polynomial@.len() - i,
        {
            let coeff = self.secret_polynomial[i];
            out.push(g2_generator_mul(&coeff));
            i = i + 1;
        }
        out
    }

    /// The share for node `node_id`: the polynomial evaluated at `node_id + 1`.
    pub fn evaluate_share_for(&self, node_id: u32) -> (r: [u8; 32])
        requires
            self.wf(),
            node_id < u32::MAX,
        ensures
            valid_scalar(r@),
            scalar_val(r@) == poly_eval(self.secret_polynomial@, node_x(node_id)),
    {
        let ghost coeffs = self.secret_polynomial@;
        let ghost q = group_order() as int;
        let x = scalar_from_u64((node_id + 1) as u64);
        let ghost xv = node_x(node_id);
        let mut share = scalar_zero();
        let mut x_pow = scalar_one();
        proof {
            reveal(pow);
        }
        let mut i: usize = 0;
        while i < self.secret_polynomial.len()
            invariant
                self.wf(),
                coeffs == self.secret_polynomial@,
                q == group_order() as int,
                0 <= i <= coeffs.len(),
                scalar_val(x@) == xv,
                valid_scalar(x@),
                valid_scalar(share@),
                valid_scalar(x_pow@),
                scalar_val(share@) == poly_sum(coeffs, xv, i as int) % q,
                scalar_val(x_pow@) == pow(xv as int, i as nat) % q,
            decreases coeffs.len() - i,
        {
            let coeff = self.secret_polynomial[i];
            let term = scalar_mul(&coeff, &x_pow);
            let ghost old_share = scalar_val(share@) as int;
            let ghost c = scalar_val(coeff@) as int;
            let ghost p = pow(xv as int, i as nat);
            share = scalar_add(&share, &term);
            x_pow = scalar_mul(&x_pow, &x);
            proof {
                lemma_mul_mod_noop_right(c, p, q);
                lemma_add_mod_noop(poly_sum(coeffs, xv, i as int), c * p, q);
                assert(scalar_val(share@) == poly_sum(coeffs, xv, i + 1) % q);
                lemma_mul_mod_noop_left(p, xv as int, q);
                reveal(pow);
                assert(pow(xv as int, (i + 1) as nat) == xv * p);
                assert(p * xv == xv * p) by (nonlinear_arith);
            }
            i = i + 1;
        }
        share
    }
}

/// The result of finalizing over the first `k` expected participants: the
/// node's own share plus the shares received from the other participants
/// (modulo the group order), and the sum of the dealers' first commitments;
/// the first missing share or commitment list is an error.
pub open spec fn finalize_prefix(s: DkgSession, parts: Seq<u32>, k: int) -> Result<(nat, Seq<u8>), &'static str>
    decreases k,
{
    if k <= 0 {
        Ok(
            (
                poly_eval(s.secret_polynomial@, node_x(s.node_id)),
                spec_g2_add(g2_identity_encoding(), spec_g2_generator_mul(s.secret_polynomial@[0]@)),
            ),
        )
    } else {
        match finalize_prefix(s, parts, k - 1) {
            Err(e) => Err(e),
            Ok((sh, pk)) => {
                let p = parts[k - 1];
                if p == s.node_id {
                    Ok((sh, pk))
                } else {
                    match s.received_shares.lookup(p) {
                        None => Err("MISSING_SHARE_FROM_PEER"),
                        Some(v) => match s.received_commitments.lookup(p) {
                            None => Err("MISSING_COMMITMENTS_FROM_PEER"),
                            Some(cs) => Ok(
                                (
                                    (sh + scalar_val(v@)) % group_order(),
                                    spec_g2_add(pk, cs@[0]@),
                                ),
                            ),
                        },
                    }
                }
            },
        }
    }
}

/// The commitments evaluated at the position of node `id`: the sum of
/// commitment i times (id + 1)^i.  `None` when a commitment is not a valid
/// encoding.
fn feldman_eval(commitments: &[[u8; 96]], id: u32) -> (r: Option<[u8; 96]>)
    requires
        id < u32::MAX,
    ensures
        r matches Some(p) ==> Some(p@) == feldman_prefix(
            commitments@,
            node_x(id),
            commitments@.len() as int,
        ) && spec_g2_valid(p@) && forall|j: int|
            0 <= j < commitments@.len() ==> spec_g2_valid((#[trigger] commitments@[j])@),
        r is None <==> feldman_prefix(commitments@, node_x(id), commitments@.len() as int) is None,
{
    let ghost q = group_order() as int;
    let x = scalar_from_u64((id + 1) as u64);
    let ghost xv = node_x(id);
    let mut expected_g2 = g2_identity();
    let mut x_pow = scalar_one();
    proof {
        reveal(pow);
    }
    let mut i: usize = 0;
    while i < commitments.len()
        invariant
            xv == node_x(id),
            forall|j: int| 0 <= j < i ==> spec_g2_valid((#[trigger] commitments@[j])@),
            q == group_order() as int,
            0 <= i <= commitments@.len(),
            scalar_val(x@) == xv,
            valid_scalar(x@),
            valid_scalar(x_pow@),
            scalar_val(x_pow@) == pow(xv as int, i as nat) % q,
            feldman_prefix(commitments@, xv, i as int) == Some(expected_g2@),
            spec_g2_valid(expected_g2@),
        decreases commitments@.len() - i,
    {
        let c = commitments[i];
        proof {
            lemma_scalar_bytes_of_value(x_pow@);
        }
        match g2_mul(&c, &x_pow) {
            Some(term) => {
                expected_g2 = g2_add(&expected_g2, &term).unwrap();
            },
            None => {
                proof {
                    lemma_feldman_none_stays(commitments@, xv, i + 1, commitments@.len() as int);
                }
                return None;
            },
        }
        let ghost p = pow(xv as int, i as nat);
        x_pow = scalar_mul(&x_pow, &x);
        proof {
            lemma_mul_mod_noop_left(p, xv as int, q);
            reveal(pow);
            assert(pow(xv as int, (i + 1) as nat) == xv * p);
            assert(p * xv == xv * p) by (nonlinear_arith);
        }
        i = i + 1;
    }
    Some(expected_g2)
}

impl DkgSession {
    /// Checks a dealer's share against its commitments (Feldman verification)
    /// and, when it matches, records both.  There must be `threshold`
    /// commitments, and the generator times the share must equal the sum of
    /// commitment i times (node_id + 1)^i.
    pub fn process_incoming_share(
        &mut self,
        from_node: u32,
        share: [u8; 32],
        commitments: &[[u8; 96]],
    ) -> (r: Result<(), &'static str>)
        requires
            old(self).wf(),
            commitments@.len() == old(self).threshold ==> old(self).node_id < u32::MAX,
            valid_scalar(share@),
        ensures
            final(self).wf(),
            commitments@.len() != old(self).threshold ==> *final(self) == *old(self) && r == Err::<
                (),
                &'static str,
            >("INVALID_COMMITMENTS_LENGTH"),
            commitments@.len() == old(self).threshold && feldman_prefix(
                commitments@,
                node_x(old(self).node_id),
                commitments@.len() as int,
            ) != Some(spec_g2_generator_mul(share@)) ==> *final(self) == *old(self) && r == Err::<
                (),
                &'static str,
            >("FELDMAN_VSS_VERIFICATION_FAILED"),
            commitments@.len() == old(self).threshold && feldman_prefix(
                commitments@,
                node_x(old(self).node_id),
                commitments@.len() as int,
            ) == Some(spec_g2_generator_mul(share@)) ==> {
                &&& r == Ok::<(), &'static str>(())
                &&& final(self).node_id == old(self).node_id
                &&& final(self).threshold == old(self).threshold
                &&& final(self).total_nodes == old(self).total_nodes
                &&& final(self).secret_polynomial == old(self).secret_polynomial
                &&& forall|id: u32| #[trigger]
                    final(self).received_shares.lookup(id) == if id == from_node {
                        Some(share)
                    } else {
                        old(self).received_shares.lookup(id)
                    }
                &&& final(self).received_commitments.lookup(from_node) matches Some(v) && v@
                    == commitments@
                &&& forall|id: u32|
                    id != from_node ==> #[trigger] final(self).received_commitments.lookup(id)
                        == old(self).received_commitments.lookup(id)
            },
    {
        if commitments.len() != self.threshold {
            return Err("INVALID_COMMITMENTS_LENGTH");
        }
        let expected_g2 = match feldman_eval(commitments, self.node_id) {
            Some(e) => e,
            None => {
                return Err("FELDMAN_VSS_VERIFICATION_FAILED");
            },
        };
        let actual_g2 = g2_generator_mul(&share);
        if !bytes_equal(actual_g2.as_slice(), expected_g2.as_slice()) {
            return Err("FELDMAN_VSS_VERIFICATION_FAILED");
        }
        proof {
            assert(actual_g2@ == expected_g2@);
        }
        self.received_shares.insert(from_node, share);
        let stored = copy_commitments(commitments);
        let ghost pre_c = self.received_commitments;
        self.received_commitments.insert(from_node, stored);
        proof {
            assert(forall|id: u32| #[trigger] self.received_commitments.lookup(id) == if id == from_node {
                Some(stored)
            } else {
                pre_c.lookup(id)
            });
            let th = self.threshold;
            lemma_node_table_values(
                old(self).received_shares,
                self.received_shares,
                from_node,
                share,
                |x: [u8; 32]| valid_scalar(x@),
            );
            lemma_node_table_values(
                pre_c,
                self.received_commitments,
                from_node,
                stored,
                |cs: Vec<[u8; 96]>| cs@.len() == th && forall|j: int| 0 <= j < cs@.len() ==> spec_g2_valid((#[trigger] cs@[j])@),
            );
        }
        Ok(())
    }
}

proof fn lemma_feldman_none_stays(cs: Seq<[u8; 96]>, x: nat, k: int, m: int)
    requires
        feldman_prefix(cs, x, k) is None,
        k <= m,
    ensures
        feldman_prefix(cs, x, m) is None,
    decreases m - k,
{
    if k < m {
        lemma_feldman_none_stays(cs, x, k, m - 1);
    }
}

impl DkgSession {
    /// Combines the node's own share with the shares received from the other
    /// expected participants, and the dealers' first commitments into the
    /// master public key.
    pub fn finalize_dkg(&self, expected_participants: &[u32]) -> (r: Result<([u8; 32], [u8; 96]), &'static str>)
        requires
            self.wf(),
            self.threshold >= 1,
            self.node_id < u32::MAX,
        ensures
            match finalize_prefix(*self, expected_participants@, expected_participants@.len() as int) {
                Err(e) => r == Err::<([u8; 32], [u8; 96]), &'static str>(e),
                Ok((sh, pk)) => r matches Ok((a, b)) && scalar_val(a@) == sh && valid_scalar(a@) && b@ == pk,
            },
    {
        let mut final_share = self.evaluate_share_for(self.node_id);
        let commitments = self.generate_commitments();
        let identity = g2_identity();
        let mut master_pk = g2_add(&identity, &commitments[0]).unwrap();
        let mut i: usize = 0;
        while i < expected_participants.len()
            invariant
                self.wf(),
                self.threshold >= 1,
                0 <= i <= expected_participants@.len(),
                valid_scalar(final_share@),
                spec_g2_valid(master_pk@),
                finalize_prefix(*self, expected_participants@, i as int) == Ok::<(nat, Seq<u8>), &'static str>(
                    (scalar_val(final_share@), master_pk@),
                ),
            decreases expected_participants@.len() - i,
        {
            let peer_id = expected_participants[i];
            if peer_id != self.node_id {
                let share = match self.received_shares.get(&peer_id) {
                    Some(s) => *s,
                    None => {
                        proof {
                            lemma_finalize_err_stays(*self, expected_participants@, i + 1, expected_participants@.len() as int);
                        }
                        return Err("MISSING_SHARE_FROM_PEER");
                    },
                };
                let commits = match self.received_commitments.get(&peer_id) {
                    Some(c) => c,
                    None => {
                        proof {
                            lemma_finalize_err_stays(*self, expected_participants@, i + 1, expected_participants@.len() as int);
                        }
                        return Err("MISSING_COMMITMENTS_FROM_PEER");
                    },
                };
                proof {
                    lemma_lookup_is_entry(self.received_shares@, peer_id);
                    lemma_lookup_is_entry(self.received_commitments@, peer_id);
                    let j = choose|j: int| 0 <= j < self.received_commitments@.len() && self.received_commitments@[j].0 == peer_id && self.received_commitments@[j].1 == seq_lookup(self.received_commitments@, peer_id).unwrap();
                    assert(self.received_commitments@[j].1@.len() == self.threshold);
                    assert(spec_g2_valid(self.received_commitments@[j].1@[0]@));
                }
                final_share = scalar_add(&final_share, &share);
                let first = commits[0];
                master_pk = g2_add(&master_pk, &first).unwrap();
            }
            i = i + 1;
        }
        Ok((final_share, master_pk))
    }

    /// The SHA-256 digest of the received commitments, in dealer order.
    pub fn transcript_hash(&self) -> (r: [u8; 32])
        ensures
            r@ == spec_sha256(transcript_bytes(self.received_commitments@)),
    {
        let mut bytes: Vec<u8> = Vec::new();
        let mut i: usize = 0;
        while i < self.received_commitments.len()
            invariant
                0 <= i <= self.received_commitments@.len(),
                bytes@ == transcript_bytes(self.received_commitments@.subrange(0, i as int)),
            decreases self.received_commitments@.len() - i,
        {
            let entry = self.received_commitments.entry_ref(i);
            push_u32_be(&mut bytes, entry.0);
            push_commitments(&mut bytes, entry.1.as_slice());
            proof {
                let s = self.received_commitments@;
                assert(s.subrange(0, i + 1).drop_last() =~= s.subrange(0, i as int));
                assert(bytes@ =~= transcript_bytes(s.subrange(0, i + 1)));
            }
            i = i + 1;
        }
        assert(self.received_commitments@.subrange(0, self.received_commitments@.len() as int) =~= self.received_commitments@);
        sha256(bytes.as_slice())
    }

    /// Compares the peers' transcript digests with this node's: a dealer that
    /// sent different commitments to different nodes shows up as a mismatch.
    pub fn verify_transcript_consistency(&self, peer_hashes: &HashMap<u32, [u8; 32]>) -> (r: Result<(), &'static str>)
        ensures
            (forall|k: u32| #[trigger] peer_hashes@.contains_key(k) ==> peer_hashes@[k]@ == spec_sha256(transcript_bytes(self.received_commitments@)))
                ==> r == Ok::<(), &'static str>(()),
            !(forall|k: u32| #[trigger] peer_hashes@.contains_key(k) ==> peer_hashes@[k]@ == spec_sha256(transcript_bytes(self.received_commitments@)))
                ==> r == Err::<(), &'static str>("TRANSCRIPT_EQUIVOCATION_DETECTED"),
    {
        let own = self.transcript_hash();
        let ghost v = spec_hash_map_iter(peer_hashes).remaining();
        for entry in it: peer_hashes.iter()
            invariant
                own@ == spec_sha256(transcript_bytes(self.received_commitments@)),
                it.seq() == v,
                v == spec_hash_map_iter(peer_hashes).remaining(),
                forall|j: int| 0 <= j < it.index() ==> (*#[trigger] v[j].1)@ == own@,
        {
            let (k, h) = entry;
            if !bytes_equal(h.as_slice(), own.as_slice()) {
                proof {
                    let idx = it.index();
                    assert(v[idx as int] == entry);
                    assert(peer_hashes@.contains_key(*k) && peer_hashes@[*k] == *h);
                }
                return Err("TRANSCRIPT_EQUIVOCATION_DETECTED");
            }
        }
        proof {
            assert forall|k: u32| #[trigger] peer_hashes@.contains_key(k) implies peer_hashes@[k]@ == own@ by {
                assert(v.contains((&k, &peer_hashes@[k])));
                let j = choose|j: int| 0 <= j < v.len() && v[j] == (&k, &peer_hashes@[k]);
                assert((*v[j].1)@ == own@);
            }
        }
        Ok(())
    }
}

/// Sessions that received the same commitments from the same dealers have
/// the same transcript, so each finds the other's transcript digest equal to
/// its own.
pub proof fn law_transcripts_agree(a: DkgSession, b: DkgSession)
    requires
        a.received_commitments@ == b.received_commitments@,
    ensures
        transcript_bytes(a.received_commitments@) == transcript_bytes(b.received_commitments@),
        spec_sha256(transcript_bytes(a.received_commitments@)) == spec_sha256(
            transcript_bytes(b.received_commitments@),
        ),
{
}

/// The public key of node `id` built from the first `k` received dealers:
/// the generator times this dealer's share for the node, plus, for every other
/// dealer, its commitments evaluated at the node's position.
pub open spec fn public_key_prefix(s: DkgSession, id: u32, k: int) -> Seq<u8>
    decreases k,
{
    if k <= 0 {
        spec_g2_generator_mul(scalar_bytes(poly_eval(s.secret_polynomial@, node_x(id))))
    } else {
        let acc = public_key_prefix(s, id, k - 1);
        let e = s.received_commitments@[k - 1];
        if e.0 == s.node_id {
            acc
        } else {
            spec_g2_add(acc, feldman_prefix(e.1@, node_x(id), e.1@.len() as int).unwrap())
        }
    }
}

/// The public key of node `id` from all received dealers.
pub open spec fn node_public_key(s: DkgSession, id: u32) -> Seq<u8> {
    public_key_prefix(s, id, s.received_commitments@.len() as int)
}

impl DkgSession {
    /// The signing public key of each node in `ids`: the generator times this
    /// dealer's share for the node, plus every other dealer's commitments
    /// evaluated at the node's position, dealers in identifier order.
    pub fn node_public_keys(&self, ids: &[u32]) -> (r: Vec<[u8; 96]>)
        requires
            self.wf(),
            forall|i: int| 0 <= i < ids@.len() ==> (#[trigger] ids@[i]) < u32::MAX,
        ensures
            r@.len() == ids@.len(),
            forall|i: int| 0 <= i < ids@.len() ==> (#[trigger] r@[i])@ == node_public_key(*self, ids@[i]),
    {
        let mut out: Vec<[u8; 96]> = Vec::new();
        let mut n: usize = 0;
        while n < ids.len()
            invariant
                self.wf(),
                forall|i: int| 0 <= i < ids@.len() ==> (#[trigger] ids@[i]) < u32::MAX,
                0 <= n <= ids@.len(),
                out@.len() == n,
                forall|i: int| 0 <= i < n ==> (#[trigger] out@[i])@ == node_public_key(*self, ids@[i]),
            decreases ids@.len() - n,
        {
            let id = ids[n];
            assert(id == ids@[n as int]);
            let share = self.evaluate_share_for(id);
            proof {
                lemma_scalar_bytes_of_value(share@);
            }
            let mut pk = g2_generator_mul(&share);
            let mut k: usize = 0;
            while k < self.received_commitments.len()
                invariant
                    self.wf(),
                    id < u32::MAX,
                    0 <= k <= self.received_commitments@.len(),
                    pk@ == public_key_prefix(*self, id, k as int),
                    spec_g2_valid(pk@),
                decreases self.received_commitments@.len() - k,
            {
                let entry = self.received_commitments.entry_ref(k);
                if entry.0 != self.node_id {
                    let e = feldman_eval(entry.1.as_slice(), id);
                    proof {
                        let cs = self.received_commitments@[k as int].1@;
                        assert(cs.len() == self.threshold);
                        assert forall|j: int| 0 <= j < cs.len() implies spec_g2_valid(
                            (#[trigger] cs[j])@,
                        ) by {}
                        lemma_feldman_all_valid(cs, node_x(id), cs.len() as int);
                    }
                    let term = e.unwrap();
                    pk = g2_add(&pk, &term).unwrap();
                }
                k = k + 1;
            }
            out.push(pk);
            proof {
                assert forall|i: int| 0 <= i < n + 1 implies (#[trigger] out@[i])@ == node_public_key(
                    *self,
                    ids@[i],
                ) by {
                    if i == n {
                        assert(out@[i] == pk);
                    }
                }
            }
            n = n + 1;
        }
        out
    }
}

/// Commitments that are all valid encodings have a Feldman evaluation.
proof fn lemma_feldman_all_valid(cs: Seq<[u8; 96]>, x: nat, k: int)
    requires
        0 <= k <= cs.len(),
        forall|j: int| 0 <= j < cs.len() ==> spec_g2_valid((#[trigger] cs[j])@),
    ensures
        feldman_prefix(cs, x, k) is Some,
    decreases k,
{
    if k > 0 {
        lemma_feldman_all_valid(cs, x, k - 1);
        assert(spec_g2_valid(cs[k - 1]@));
    }
}

/// The sum of the shares received from the listed participants other than
/// this node (each participant counted once per listing).
pub open spec fn listed_share_sum(s: DkgSession, parts: Seq<u32>) -> int
    decreases parts.len(),
{
    if parts.len() == 0 {
        0
    } else {
        listed_share_sum(s, parts.drop_last()) + if parts.last() == s.node_id {
            0
        } else {
            scalar_val(s.received_shares.lookup(parts.last()).unwrap()@) as int
        }
    }
}

/// `start` with the first commitments of the listed participants other than
/// this node added on, in list order.
pub open spec fn listed_key_sum(s: DkgSession, start: Seq<u8>, parts: Seq<u32>) -> Seq<u8>
    decreases parts.len(),
{
    if parts.len() == 0 {
        start
    } else {
        let acc = listed_key_sum(s, start, parts.drop_last());
        if parts.last() == s.node_id {
            acc
        } else {
            spec_g2_add(acc, s.received_commitments.lookup(parts.last()).unwrap()@[0]@)
        }
    }
}

proof fn lemma_finalize_prefix_take(s: DkgSession, parts: Seq<u32>, k: int)
    requires
        0 <= k <= parts.len(),
    ensures
        finalize_prefix(s, parts, k) == finalize_prefix(s, parts.take(k), k),
    decreases k,
{
    if k > 0 {
        lemma_finalize_prefix_take(s, parts, k - 1);
        lemma_finalize_prefix_take(s, parts.take(k), k - 1);
        assert(parts.take(k).take(k - 1) =~= parts.take(k - 1));
        assert(parts.take(k)[k - 1] == parts[k - 1]);
    }
}

/// A successful finalisation gives, as the secret share, this node's own
/// polynomial at its position plus the shares received from the listed
/// participants other than itself, modulo the group order; and, as the master
/// key, this node's own first commitment followed by the first commitments of
/// the listed participants other than itself.  Whether the node's own
/// identifier is listed makes no difference.
pub proof fn law_finalize_combines_own_and_listed(s: DkgSession, parts: Seq<u32>)
    requires
        finalize_prefix(s, parts, parts.len() as int) is Ok,
    ensures
        ({
            let (sh, pk) = finalize_prefix(s, parts, parts.len() as int)->Ok_0;
            &&& sh == (poly_eval(s.secret_polynomial@, node_x(s.node_id)) + listed_share_sum(s, parts))
                % (group_order() as int)
            &&& pk == listed_key_sum(
                s,
                spec_g2_add(g2_identity_encoding(), spec_g2_generator_mul(s.secret_polynomial@[0]@)),
                parts,
            )
        }),
    decreases parts.len(),
{
    let q = group_order() as int;
    let own = poly_eval(s.secret_polynomial@, node_x(s.node_id)) as int;
    if parts.len() == 0 {
        assert(own % q == own) by {
            vstd::arithmetic::div_mod::lemma_small_mod(own as nat, q as nat);
        }
    } else {
        let n = parts.len() as int;
        let init = parts.drop_last();
        lemma_finalize_prefix_take(s, parts, n - 1);
        assert(parts.take(n - 1) =~= init);
        lemma_finalize_prefix_take(s, init, n - 1);
        assert(init.take(n - 1) =~= init);
        assert(finalize_prefix(s, init, n - 1) == finalize_prefix(s, parts, n - 1));
        assert(finalize_prefix(s, init, n - 1) is Ok);
        law_finalize_combines_own_and_listed(s, init);
        let (sh0, pk0) = finalize_prefix(s, init, n - 1)->Ok_0;
        if parts.last() != s.node_id {
            let v = scalar_val(s.received_shares.lookup(parts.last()).unwrap()@) as int;
            assert((sh0 + v) % q == (own + listed_share_sum(s, init) + v) % q) by {
                lemma_add_mod_noop(own + listed_share_sum(s, init), v, q);
                lemma_add_mod_noop(sh0 as int, v, q);
                vstd::arithmetic::div_mod::lemma_mod_twice(own + listed_share_sum(s, init), q);
            }
        }
    }
}

proof fn lemma_public_key_prefix_agree(s: DkgSession, t: DkgSession, id: u32, k: int)
    requires
        s.node_id == t.node_id,
        s.secret_polynomial@ == t.secret_polynomial@,
        0 <= k <= s.received_commitments@.len(),
        k <= t.received_commitments@.len(),
        forall|i: int| 0 <= i < k ==> s.received_commitments@[i] == t.received_commitments@[i],
    ensures
        public_key_prefix(s, id, k) == public_key_prefix(t, id, k),
    decreases k,
{
    if k > 0 {
        lemma_public_key_prefix_agree(s, t, id, k - 1);
    }
}

proof fn lemma_public_key_own_only(s: DkgSession, id: u32, k: int)
    requires
        0 <= k <= s.received_commitments@.len(),
        forall|i: int| 0 <= i < k ==> (#[trigger] s.received_commitments@[i]).0 == s.node_id,
    ensures
        public_key_prefix(s, id, k) == spec_g2_generator_mul(
            scalar_bytes(poly_eval(s.secret_polynomial@, node_x(id))),
        ),
    decreases k,
{
    if k > 0 {
        lemma_public_key_own_only(s, id, k - 1);
        assert(s.received_commitments@[k - 1].0 == s.node_id);
    }
}

/// With no commitments recorded from any dealer other than itself, the node
/// derives for every node the generator times its own polynomial at that
/// node's position, whether or not its own commitments are recorded.
pub proof fn law_public_key_own_contribution(s: DkgSession, id: u32)
    requires
        forall|i: int|
            0 <= i < s.received_commitments@.len() ==> (#[trigger] s.received_commitments@[i]).0
                == s.node_id,
    ensures
        node_public_key(s, id) == spec_g2_generator_mul(
            scalar_bytes(poly_eval(s.secret_polynomial@, node_x(id))),
        ),
{
    lemma_public_key_own_only(s, id, s.received_commitments@.len() as int);
}

/// Recording one more dealer adds that dealer's commitments, evaluated at the
/// node's position, to every derived public key; recording this node's own
/// commitments changes none of them.
pub proof fn law_public_key_adds_each_other_dealer(
    s: DkgSession,
    t: DkgSession,
    id: u32,
    dealer: u32,
    cs: Vec<[u8; 96]>,
)
    requires
        t.node_id == s.node_id,
        t.secret_polynomial@ == s.secret_polynomial@,
        t.received_commitments@ == s.received_commitments@.push((dealer, cs)),
    ensures
        dealer != s.node_id ==> node_public_key(t, id) == spec_g2_add(
            node_public_key(s, id),
            feldman_prefix(cs@, node_x(id), cs@.len() as int).unwrap(),
        ),
        dealer == s.node_id ==> node_public_key(t, id) == node_public_key(s, id),
{
    let n = s.received_commitments@.len() as int;
    lemma_public_key_prefix_agree(s, t, id, n);
    assert(t.received_commitments@[n] == (dealer, cs));
}

proof fn lemma_finalize_err_stays(s: DkgSession, parts: Seq<u32>, k: int, m: int)
    requires
        finalize_prefix(s, parts, k) is Err,
        k <= m,
    ensures
        finalize_prefix(s, parts, m) == finalize_prefix(s, parts, k),
    decreases m - k,
{
    if k < m {
        lemma_finalize_err_stays(s, parts, k, m - 1);
    }
}

} // verus!
