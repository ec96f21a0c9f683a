//! BLS signatures on G1 with public keys on G2, and threshold signatures
//! reconstructed by Lagrange interpolation at zero.
use crate::curve::{
    g1_add, g1_identity, g1_identity_encoding, g1_mul, group_order, hash_to_g1, pairing_check,
    scalar_from_u64, scalar_invert, scalar_mul, scalar_neg, scalar_sub, scalar_val, spec_g1_add,
    spec_g1_mul, spec_g1_valid, spec_hash_to_g1, spec_pairing_check, valid_scalar,
};
use crate::scalar::{lemma_scalar_bytes_of_value, scalar_bytes, scalar_one};
use crate::table::{NodeTable, lemma_sorted_entries, map_lookup, seq_lookup, sorted_entries};
use std::collections::HashMap;
use vstd::arithmetic::power::pow;
use vstd::prelude::*;
use vstd::std_specs::hash::spec_hash_map_iter;
use vstd::std_specs::iter::IteratorSpec;

verus! {

broadcast use vstd::std_specs::hash::group_hash_axioms;

/// The domain separation tag "SOVEREIGN_LATTICE_PBFT_V1_BLS_SIG".
pub const BLS_DST: [u8; 33] = [
    83, 79, 86, 69, 82, 69, 73, 71, 78, 95, 76, 65, 84, 84, 73, 67, 69, 95, 80, 66, 70, 84, 95,
    86, 49, 95, 66, 76, 83, 95, 83, 73, 71,
];

/// The G1 point that a message hashes to.
pub open spec fn message_point(msg: Seq<u8>) -> Seq<u8> {
    spec_hash_to_g1(msg, BLS_DST@)
}

/// The BLS signature of `msg` under the secret key `sk`: H(msg) * sk.
pub open spec fn bls_signature(msg: Seq<u8>, sk: Seq<u8>) -> Seq<u8> {
    spec_g1_mul(message_point(msg), sk)
}

/// `sig` is a valid BLS signature of `msg` for `pk`: e(sig, g2) == e(H(msg), pk).
pub open spec fn bls_valid(msg: Seq<u8>, sig: Seq<u8>, pk: Seq<u8>) -> bool {
    spec_pairing_check(sig, message_point(msg), pk)
}

/// Hashes a message to a point of G1 under the library's domain separation tag.
pub fn hash_message_to_curve(msg: &[u8]) -> (r: [u8; 48])
    ensures
        r@ == message_point(msg@),
        spec_g1_valid(r@),
{
    let dst = BLS_DST;
    hash_to_g1(msg, dst.as_slice())
}

/// Signs a message: the message's point multiplied by the secret key.
pub fn sign_bls_message(msg: &[u8], sk: &[u8; 32]) -> (r: [u8; 48])
    requires
        valid_scalar(sk@),
    ensures
        r@ == bls_signature(msg@, sk@),
        spec_g1_valid(r@),
{
    let hm = hash_message_to_curve(msg);
    let sig = g1_mul(&hm, sk);
    sig.unwrap()
}

/// Checks a BLS signature with the pairing equation e(sig, g2) == e(H(msg), pk).
pub fn verify_bls_signature(msg: &[u8], sig: &[u8; 48], pk: &[u8; 96]) -> (r: bool)
    ensures
        r == bls_valid(msg@, sig@, pk@),
{
    let hm = hash_message_to_curve(msg);
    pairing_check(sig, &hm, pk)
}

/// The sum of the first `k` signatures, starting from the point at infinity;
/// `None` when one of them is not a valid encoding.
pub open spec fn aggregate_prefix(sigs: Seq<[u8; 48]>, k: int) -> Option<Seq<u8>>
    decreases k,
{
    if k <= 0 {
        Some(g1_identity_encoding())
    } else {
        match aggregate_prefix(sigs, k - 1) {
            Some(acc) => if spec_g1_valid(sigs[k - 1]@) {
                Some(spec_g1_add(acc, sigs[k - 1]@))
            } else {
                None
            },
            None => None,
        }
    }
}

/// Adds up signatures, starting from the point at infinity.  `None` when one
/// of them is not the encoding of a G1 point.
pub fn aggregate_signatures(signatures: &[[u8; 48]]) -> (r: Option<[u8; 48]>)
    ensures
        r matches Some(p) ==> Some(p@) == aggregate_prefix(signatures@, signatures@.len() as int),
        r is None <==> aggregate_prefix(signatures@, signatures@.len() as int) is None,
{
    let mut agg = g1_identity();
    let mut i: usize = 0;
    while i < signatures.len()
        invariant
            0 <= i <= signatures@.len(),
            aggregate_prefix(signatures@, i as int) == Some(agg@),
            spec_g1_valid(agg@),
        decreases signatures@.len() - i,
    {
        let sig = signatures[i];
        match g1_add(&agg, &sig) {
            Some(s) => {
                agg = s;
            },
            None => {
                proof {
                    assert(aggregate_prefix(signatures@, i + 1) is None);
                    lemma_aggregate_none_stays(signatures@, i + 1, signatures@.len() as int);
                }
                return None;
            },
        }
        i = i + 1;
    }
    Some(agg)
}

proof fn lemma_aggregate_none_stays(sigs: Seq<[u8; 48]>, k: int, m: int)
    requires
        aggregate_prefix(sigs, k) is None,
        k <= m,
    ensures
        aggregate_prefix(sigs, m) is None,
    decreases m - k,
{
    if k < m {
        lemma_aggregate_none_stays(sigs, k, m - 1);
    }
}

/// The evaluation point of a node: its identifier plus one.
pub open spec fn node_x(id: u32) -> nat {
    id as nat + 1
}

/// The product, over the first `upto` identifiers other than the `i`-th, of
/// the negated evaluation points, reduced modulo the group order at each step.
pub open spec fn lagrange_num(ids: Seq<u32>, i: int, upto: int) -> nat
    decreases upto,
{
    if upto <= 0 {
        1
    } else {
        let p = lagrange_num(ids, i, upto - 1);
        if ids[upto - 1] == ids[i] {
            p
        } else {
            (p * ((group_order() - node_x(ids[upto - 1])) % (group_order() as int)) as nat)
                % group_order()
        }
    }
}

/// The product, over the first `upto` identifiers other than the `i`-th, of
/// the differences of evaluation points, reduced modulo the group order.
pub open spec fn lagrange_den(ids: Seq<u32>, i: int, upto: int) -> nat
    decreases upto,
{
    if upto <= 0 {
        1
    } else {
        let p = lagrange_den(ids, i, upto - 1);
        if ids[upto - 1] == ids[i] {
            p
        } else {
            (p * ((node_x(ids[i]) + group_order() - node_x(ids[upto - 1])) % (
            group_order() as int)) as nat) % group_order()
        }
    }
}

/// The Lagrange coefficient at zero of the `i`-th identifier; `None` when its
/// denominator is zero modulo the group order.
pub open spec fn lagrange_coeff(ids: Seq<u32>, i: int) -> Option<nat> {
    let den = lagrange_den(ids, i, ids.len() as int);
    if den == 0 {
        None
    } else {
        Some(
            (lagrange_num(ids, i, ids.len() as int) * (pow(den as int, (group_order() - 2) as nat)
                % (group_order() as int)) as nat) % group_order(),
        )
    }
}

/// The identifiers of a sequence of signature entries.
pub open spec fn entry_ids(s: Seq<(u32, [u8; 48])>) -> Seq<u32> {
    s.map_values(|e: (u32, [u8; 48])| e.0)
}

/// The signature reconstructed from the first `k` of the entries `used`:
/// the sum of each signature times its Lagrange coefficient among `used`.
pub open spec fn reconstruct_prefix(used: Seq<(u32, [u8; 48])>, k: int) -> Option<Seq<u8>>
    decreases k,
{
    if k <= 0 {
        Some(g1_identity_encoding())
    } else {
        match reconstruct_prefix(used, k - 1) {
            Some(acc) => match lagrange_coeff(entry_ids(used), k - 1) {
                Some(l) => if spec_g1_valid(used[k - 1].1@) {
                    Some(spec_g1_add(acc, spec_g1_mul(used[k - 1].1@, scalar_bytes(l))))
                } else {
                    None
                },
                None => None,
            },
            None => None,
        }
    }
}

/// The threshold check: at least `t` signatures, and the signature
/// interpolated from the `t` lowest identifiers is valid for the master key.
pub open spec fn threshold_valid(
    msg: Seq<u8>,
    sigs: Seq<(u32, [u8; 48])>,
    master_pk: Seq<u8>,
    t: nat,
) -> bool {
    &&& sigs.len() >= t
    &&& match reconstruct_prefix(sigs.take(t as int), t as int) {
        Some(r) => bls_valid(msg, r, master_pk),
        None => false,
    }
}

/// Every identifier among the `t` lowest has a successor in `u32`.
pub open spec fn ids_fit(sigs: Seq<(u32, [u8; 48])>, t: nat) -> bool {
    forall|i: int| 0 <= i < t && i < sigs.len() ==> (#[trigger] sigs[i]).0 < u32::MAX
}

/// Verifies a threshold signature held in a table sorted by node identifier:
/// with at least `threshold` partial signatures, interpolates the signature
/// of the `threshold` lowest identifiers at zero and checks it against the
/// master public key.
pub fn verify_threshold_table(
    msg: &[u8],
    signatures: &NodeTable<[u8; 48]>,
    master_pk: &[u8; 96],
    threshold: usize,
) -> (r: bool)
    requires
        signatures.wf(),
        signatures@.len() >= threshold ==> ids_fit(signatures@, threshold as nat),
    ensures
        r == threshold_valid(msg@, signatures@, master_pk@, threshold as nat),
{
    if signatures.len() < threshold {
        return false;
    }
    let ghost used = signatures@.take(threshold as int);
    let ghost ids = entry_ids(used);
    let mut reconstructed = g1_identity();
    let mut i: usize = 0;
    while i < threshold
        invariant
            0 <= i <= threshold,
            threshold <= signatures@.len(),
            used == signatures@.take(threshold as int),
            ids == entry_ids(used),
            ids_fit(signatures@, threshold as nat),
            reconstruct_prefix(used, i as int) == Some(reconstructed@),
            spec_g1_valid(reconstructed@),
        decreases threshold - i,
    {
        let (id_i, sig_i) = signatures.entry(i);
        assert(id_i == ids[i as int]);
        let x_i = scalar_from_u64((id_i + 1) as u64);
        let mut numerator = scalar_one();
        let mut denominator = scalar_one();
        let mut j: usize = 0;
        while j < threshold
            invariant
                0 <= i < threshold,
                0 <= j <= threshold,
                threshold <= signatures@.len(),
                used == signatures@.take(threshold as int),
                ids == entry_ids(used),
                ids_fit(signatures@, threshold as nat),
                id_i == ids[i as int],
                scalar_val(x_i@) == node_x(id_i),
                valid_scalar(numerator@),
                valid_scalar(denominator@),
                scalar_val(numerator@) == lagrange_num(ids, i as int, j as int),
                scalar_val(denominator@) == lagrange_den(ids, i as int, j as int),
            decreases threshold - j,
        {
            let (id_j, _) = signatures.entry(j);
            assert(id_j == ids[j as int]);
            if id_i != id_j {
                let x_j = scalar_from_u64((id_j + 1) as u64);
                let neg_x_j = scalar_neg(&x_j);
                numerator = scalar_mul(&numerator, &neg_x_j);
                let diff = scalar_sub(&x_i, &x_j);
                denominator = scalar_mul(&denominator, &diff);
            }
            j = j + 1;
        }
        match scalar_invert(&denominator) {
            Some(denom_inv) => {
                let lambda_i = scalar_mul(&numerator, &denom_inv);
                proof {
                    lemma_scalar_bytes_of_value(lambda_i@);
                    assert(lagrange_coeff(ids, i as int) == Some(scalar_val(lambda_i@)));
                }
                match g1_mul(&sig_i, &lambda_i) {
                    Some(term) => {
                        let sum = g1_add(&reconstructed, &term);
                        reconstructed = sum.unwrap();
                    },
                    None => {
                        proof {
                            lemma_reconstruct_none_stays(used, i + 1, threshold as int);
                        }
                        return false;
                    },
                }
            },
            None => {
                proof {
                    lemma_reconstruct_none_stays(used, i + 1, threshold as int);
                }
                return false;
            },
        }
        i = i + 1;
    }
    verify_bls_signature(msg, &reconstructed, master_pk)
}

proof fn lemma_reconstruct_none_stays(used: Seq<(u32, [u8; 48])>, k: int, m: int)
    requires
        reconstruct_prefix(used, k) is None,
        k <= m,
    ensures
        reconstruct_prefix(used, m) is None,
    decreases m - k,
{
    if k < m {
        lemma_reconstruct_none_stays(used, k, m - 1);
    }
}

/// The partial signatures of a map, in a table sorted by node identifier.
fn sorted_table(signatures: &HashMap<u32, [u8; 48]>) -> (r: NodeTable<[u8; 48]>)
    ensures
        r.wf(),
        r@.len() == signatures@.len(),
        forall|k: u32| #[trigger] seq_lookup(r@, k) == map_lookup(signatures@, k),
{
    let mut table: NodeTable<[u8; 48]> = NodeTable::new();
    let ghost v = spec_hash_map_iter(signatures).remaining();
    for entry in it: signatures.iter()
        invariant
            it.seq() == v,
            v == spec_hash_map_iter(signatures).remaining(),
            v.no_duplicates(),
            v.len() == signatures@.dom().len(),
            table.wf(),
            table@.len() == it.index(),
            forall|k: u32| #[trigger]
                seq_lookup(table@, k) == if exists|j: int| 0 <= j < it.index() && *v[j].0 == k {
                    Some(signatures@[k])
                } else {
                    None
                },
    {
        let (id, sig) = entry;
        let ghost i = it.index();
        proof {
            assert(v[i] == entry);
            assert(signatures@.contains_key(*id) && signatures@[*id] == *sig);
            assert(!(exists|j: int| 0 <= j < i && *v[j].0 == *id)) by {
                if exists|j: int| 0 <= j < i && *v[j].0 == *id {
                    let j = choose|j: int| 0 <= j < i && *v[j].0 == *id;
                    assert(signatures@.contains_key(*v[j].0) && signatures@[*v[j].0] == *v[j].1);
                    assert(v[j] == v[i]);
                }
            }
            assert(seq_lookup(table@, *id) is None);
        }
        let ghost pre = table;
        table.insert(*id, *sig);
        proof {
            assert forall|k: u32| #[trigger]
                seq_lookup(table@, k) == if exists|j: int| 0 <= j < i + 1 && *v[j].0 == k {
                    Some(signatures@[k])
                } else {
                    None
                } by {
                assert(table.lookup(k) == if k == *id {
                    Some(*sig)
                } else {
                    pre.lookup(k)
                });
                if k != *id {
                    if exists|j: int| 0 <= j < i + 1 && *v[j].0 == k {
                        let j = choose|j: int| 0 <= j < i + 1 && *v[j].0 == k;
                        assert(j < i);
                    }
                }
            }
        }
    }
    proof {
        assert forall|k: u32| #[trigger] seq_lookup(table@, k) == map_lookup(signatures@, k) by {
            if signatures@.contains_key(k) {
                assert(v.contains((&k, &signatures@[k])));
                let j = choose|j: int| 0 <= j < v.len() && v[j] == (&k, &signatures@[k]);
                assert(*v[j].0 == k);
            } else if exists|j: int| 0 <= j < v.len() && *v[j].0 == k {
                let j = choose|j: int| 0 <= j < v.len() && *v[j].0 == k;
                assert(signatures@.contains_key(*v[j].0));
            }
        }
    }
    table
}

/// Verifies a threshold signature given as a map from node identifiers to
/// partial signatures: with at least `threshold` of them, interpolates the
/// signature of the `threshold` lowest identifiers at zero and checks it
/// against the master public key.
pub fn verify_threshold_signature(
    msg: &[u8],
    signatures: &HashMap<u32, [u8; 48]>,
    master_pk: &[u8; 96],
    threshold: usize,
) -> (r: bool)
    requires
        !(signatures@.len() == threshold && threshold > 0 && signatures@.contains_key(u32::MAX)),
    ensures
        r == threshold_valid(msg@, sorted_entries(signatures@), master_pk@, threshold as nat),
{
    let table = sorted_table(signatures);
    proof {
        lemma_sorted_entries(table@, signatures@);
        if table@.len() >= threshold {
            assert forall|i: int| 0 <= i < threshold && i < table@.len() implies (
            #[trigger] table@[i]).0 < u32::MAX by {
                if table@[i].0 == u32::MAX {
                    if i + 1 < table@.len() {
                        assert(table@[i].0 < table@[i + 1].0);
                    }
                    crate::table::lemma_keys_increasing_distinct(table@);
                    crate::table::lemma_lookup_entry(table@, i);
                    assert(signatures@.contains_key(u32::MAX));
                }
            }
        }
    }
    verify_threshold_table(msg, &table, master_pk, threshold)
}

} // verus!
