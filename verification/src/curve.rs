//! Byte-level access to the BLS12-381 arithmetic of the `bls12_381` crate.
//!
//! Scalars travel through the library as their canonical 32-byte little-endian
//! encoding, G1 points as 48-byte compressed encodings and G2 points as 96-byte
//! compressed encodings (the crate's `to_compressed` format).  Field arithmetic
//! on scalars is stated exactly over the integers modulo the group order; the
//! group operations, hashing to the curve and the pairing are named results.
use bls12_381::hash_to_curve::{ExpandMsgXmd, HashToCurve};
use bls12_381::{G1Affine, G1Projective, G2Affine, G2Projective, Scalar};
use ff::Field;
use group::Curve;
use rand::rngs::OsRng;
use sha2::{Digest, Sha256};
use vstd::arithmetic::power::pow;
use vstd::prelude::*;

verus! {

/// The order of the BLS12-381 groups: the modulus of the scalar field.
pub open spec fn group_order() -> nat {
    0x73eda753299d7d483339d80809a1d80553bda402fffe5bfeffffffff00000001nat
}

/// The integer that a little-endian byte string stands for.
pub open spec fn le_value(s: Seq<u8>) -> nat
    decreases s.len(),
{
    if s.len() == 0 {
        0
    } else {
        s[0] as nat + 256 * le_value(s.drop_first())
    }
}

/// The field element that a 32-byte scalar encoding stands for.
pub open spec fn scalar_val(s: Seq<u8>) -> nat {
    le_value(s)
}

/// A canonical scalar encoding: 32 bytes whose value is below the group order.
pub open spec fn valid_scalar(s: Seq<u8>) -> bool {
    s.len() == 32 && scalar_val(s) < group_order()
}

/// The compressed encoding of the point at infinity of G1 (flags 0b11 and zeros).
pub open spec fn g1_identity_encoding() -> Seq<u8> {
    Seq::new(48, |i: int| if i == 0 { 0xc0u8 } else { 0u8 })
}

/// The compressed encoding of the point at infinity of G2 (flags 0b11 and zeros).
pub open spec fn g2_identity_encoding() -> Seq<u8> {
    Seq::new(96, |i: int| if i == 0 { 0xc0u8 } else { 0u8 })
}

/// Whether 48 bytes are the compressed encoding of a point of the G1 subgroup.
pub uninterp spec fn spec_g1_valid(bytes: Seq<u8>) -> bool;

/// Whether 96 bytes are the compressed encoding of a point of the G2 subgroup.
pub uninterp spec fn spec_g2_valid(bytes: Seq<u8>) -> bool;

/// The encoding of the sum of two G1 points, given by their encodings.
pub uninterp spec fn spec_g1_add(a: Seq<u8>, b: Seq<u8>) -> Seq<u8>;

/// The encoding of a G1 point multiplied by a scalar.
pub uninterp spec fn spec_g1_mul(point: Seq<u8>, scalar: Seq<u8>) -> Seq<u8>;

/// The encoding of the sum of two G2 points, given by their encodings.
pub uninterp spec fn spec_g2_add(a: Seq<u8>, b: Seq<u8>) -> Seq<u8>;

/// The encoding of a G2 point multiplied by a scalar.
pub uninterp spec fn spec_g2_mul(point: Seq<u8>, scalar: Seq<u8>) -> Seq<u8>;

/// The encoding of the fixed generator of G2 multiplied by a scalar.
pub uninterp spec fn spec_g2_generator_mul(scalar: Seq<u8>) -> Seq<u8>;

/// The encoding of the hash of a message to G1 under a domain separation tag.
pub uninterp spec fn spec_hash_to_g1(msg: Seq<u8>, dst: Seq<u8>) -> Seq<u8>;

/// Whether e(sig, g2) == e(hm, pk), with g2 the fixed generator of G2.
pub uninterp spec fn spec_pairing_check(sig: Seq<u8>, hm: Seq<u8>, pk: Seq<u8>) -> bool;

/// The SHA-256 digest of a byte string.
pub uninterp spec fn spec_sha256(data: Seq<u8>) -> Seq<u8>;

/// `Scalar::from(u64)`: the scalar with the value `v`.
#[verifier::external_body]
pub(crate) fn scalar_from_u64(v: u64) -> (r: [u8; 32])
    ensures
        scalar_val(r@) == v as nat,
        valid_scalar(r@),
{
    Scalar::from(v).to_bytes()
}

/// Scalar addition (`Add` for `Scalar`): the sum modulo the group order.
#[verifier::external_body]
pub(crate) fn scalar_add(a: &[u8; 32], b: &[u8; 32]) -> (r: [u8; 32])
    requires
        valid_scalar(a@),
        valid_scalar(b@),
    ensures
        scalar_val(r@) == (scalar_val(a@) + scalar_val(b@)) % group_order(),
        valid_scalar(r@),
{
    (Scalar::from_bytes(a).unwrap() + Scalar::from_bytes(b).unwrap()).to_bytes()
}

/// Scalar subtraction (`Sub` for `Scalar`): the difference modulo the group order.
#[verifier::external_body]
pub(crate) fn scalar_sub(a: &[u8; 32], b: &[u8; 32]) -> (r: [u8; 32])
    requires
        valid_scalar(a@),
        valid_scalar(b@),
    ensures
        scalar_val(r@) == (scalar_val(a@) + group_order() - scalar_val(b@)) % (group_order() as int),
        valid_scalar(r@),
{
    (Scalar::from_bytes(a).unwrap() - Scalar::from_bytes(b).unwrap()).to_bytes()
}

/// Scalar multiplication (`Mul` for `Scalar`): the product modulo the group order.
#[verifier::external_body]
pub(crate) fn scalar_mul(a: &[u8; 32], b: &[u8; 32]) -> (r: [u8; 32])
    requires
        valid_scalar(a@),
        valid_scalar(b@),
    ensures
        scalar_val(r@) == (scalar_val(a@) * scalar_val(b@)) % group_order(),
        valid_scalar(r@),
{
    (Scalar::from_bytes(a).unwrap() * Scalar::from_bytes(b).unwrap()).to_bytes()
}

/// Scalar negation (`Neg` for `Scalar`): the additive inverse modulo the group order.
#[verifier::external_body]
pub(crate) fn scalar_neg(a: &[u8; 32]) -> (r: [u8; 32])
    requires
        valid_scalar(a@),
    ensures
        scalar_val(r@) == (group_order() - scalar_val(a@)) % (group_order() as int),
        valid_scalar(r@),
{
    (-Scalar::from_bytes(a).unwrap()).to_bytes()
}

/// `Scalar::invert`: `None` for zero, otherwise the value raised to the group
/// order minus two (the multiplicative inverse), reduced modulo the group order.
#[verifier::external_body]
pub(crate) fn scalar_invert(a: &[u8; 32]) -> (r: Option<[u8; 32]>)
    requires
        valid_scalar(a@),
    ensures
        r is Some <==> scalar_val(a@) != 0,
        r matches Some(x) ==> valid_scalar(x@) && scalar_val(x@) == pow(
            scalar_val(a@) as int,
            (group_order() - 2) as nat,
        ) % (group_order() as int),
{
    let inv: Option<Scalar> = Scalar::from_bytes(a).unwrap().invert().into();
    inv.map(|x| x.to_bytes())
}

/// `Scalar::from_bytes` succeeds exactly on canonical encodings.
#[verifier::external_body]
pub(crate) fn scalar_is_canonical(bytes: &[u8; 32]) -> (r: bool)
    ensures
        r == (scalar_val(bytes@) < group_order()),
{
    bool::from(Scalar::from_bytes(bytes).is_some())
}

/// `Field::random` with the operating system's generator: some canonical scalar.
#[verifier::external_body]
pub(crate) fn random_scalar() -> (r: [u8; 32])
    ensures
        valid_scalar(r@),
{
    Scalar::random(&mut OsRng).to_bytes()
}

/// `G1Affine::from_compressed(..).is_some()`.
#[verifier::external_body]
pub(crate) fn g1_is_valid(bytes: &[u8; 48]) -> (r: bool)
    ensures
        r == spec_g1_valid(bytes@),
{
    bool::from(G1Affine::from_compressed(bytes).is_some())
}

/// `G2Affine::from_compressed(..).is_some()`.
#[verifier::external_body]
pub(crate) fn g2_is_valid(bytes: &[u8; 96]) -> (r: bool)
    ensures
        r == spec_g2_valid(bytes@),
{
    bool::from(G2Affine::from_compressed(bytes).is_some())
}

/// `G1Projective::identity()`, compressed: the encoding of the point at infinity.
#[verifier::external_body]
pub(crate) fn g1_identity() -> (r: [u8; 48])
    ensures
        r@ == g1_identity_encoding(),
        spec_g1_valid(r@),
{
    G1Projective::identity().to_affine().to_compressed()
}

/// `G2Projective::identity()`, compressed: the encoding of the point at infinity.
#[verifier::external_body]
pub(crate) fn g2_identity() -> (r: [u8; 96])
    ensures
        r@ == g2_identity_encoding(),
        spec_g2_valid(r@),
{
    G2Projective::identity().to_affine().to_compressed()
}

/// `Add` for `G1Projective` on decompressed points; `None` when an encoding
/// does not decompress.
#[verifier::external_body]
pub(crate) fn g1_add(a: &[u8; 48], b: &[u8; 48]) -> (r: Option<[u8; 48]>)
    ensures
        r is None <==> (!spec_g1_valid(a@) || !spec_g1_valid(b@)),
        r matches Some(p) ==> p@ == spec_g1_add(a@, b@) && spec_g1_valid(p@),
{
    let pa: Option<G1Affine> = G1Affine::from_compressed(a).into();
    let pb: Option<G1Affine> = G1Affine::from_compressed(b).into();
    match (pa, pb) {
        (Some(x), Some(y)) => Some((G1Projective::from(x) + G1Projective::from(y)).to_affine().to_compressed()),
        _ => None,
    }
}

/// `Mul<Scalar>` for `G1Projective` on a decompressed point; `None` when the
/// point encoding does not decompress.
#[verifier::external_body]
pub(crate) fn g1_mul(p: &[u8; 48], s: &[u8; 32]) -> (r: Option<[u8; 48]>)
    requires
        valid_scalar(s@),
    ensures
        r is Some <==> spec_g1_valid(p@),
        r matches Some(q) ==> q@ == spec_g1_mul(p@, s@) && spec_g1_valid(q@),
{
    let pa: Option<G1Affine> = G1Affine::from_compressed(p).into();
    pa.map(|x| (G1Projective::from(x) * Scalar::from_bytes(s).unwrap()).to_affine().to_compressed())
}

/// `Add` for `G2Projective` on decompressed points; `None` when an encoding
/// does not decompress.
#[verifier::external_body]
pub(crate) fn g2_add(a: &[u8; 96], b: &[u8; 96]) -> (r: Option<[u8; 96]>)
    ensures
        r is None <==> (!spec_g2_valid(a@) || !spec_g2_valid(b@)),
        r matches Some(p) ==> p@ == spec_g2_add(a@, b@) && spec_g2_valid(p@),
{
    let pa: Option<G2Affine> = G2Affine::from_compressed(a).into();
    let pb: Option<G2Affine> = G2Affine::from_compressed(b).into();
    match (pa, pb) {
        (Some(x), Some(y)) => Some((G2Projective::from(x) + G2Projective::from(y)).to_affine().to_compressed()),
        _ => None,
    }
}

/// `Mul<Scalar>` for `G2Projective` on a decompressed point; `None` when the
/// point encoding does not decompress.
#[verifier::external_body]
pub(crate) fn g2_mul(p: &[u8; 96], s: &[u8; 32]) -> (r: Option<[u8; 96]>)
    requires
        valid_scalar(s@),
    ensures
        r is Some <==> spec_g2_valid(p@),
        r matches Some(q) ==> q@ == spec_g2_mul(p@, s@) && spec_g2_valid(q@),
{
    let pa: Option<G2Affine> = G2Affine::from_compressed(p).into();
    pa.map(|x| (G2Projective::from(x) * Scalar::from_bytes(s).unwrap()).to_affine().to_compressed())
}

/// `G2Projective::generator() * s`, compressed.
#[verifier::external_body]
pub(crate) fn g2_generator_mul(s: &[u8; 32]) -> (r: [u8; 96])
    requires
        valid_scalar(s@),
    ensures
        r@ == spec_g2_generator_mul(s@),
        spec_g2_valid(r@),
{
    (G2Projective::generator() * Scalar::from_bytes(s).unwrap()).to_affine().to_compressed()
}

/// `HashToCurve::<ExpandMsgXmd<Sha256>>::hash_to_curve` into G1, compressed.
#[verifier::external_body]
pub(crate) fn hash_to_g1(msg: &[u8], dst: &[u8]) -> (r: [u8; 48])
    ensures
        r@ == spec_hash_to_g1(msg@, dst@),
        spec_g1_valid(r@),
{
    <G1Projective as HashToCurve<ExpandMsgXmd<Sha256>>>::hash_to_curve(msg, dst).to_affine().to_compressed()
}

/// `pairing(sig, G2 generator) == pairing(hm, pk)` on decompressed points;
/// `false` when an encoding does not decompress.
#[verifier::external_body]
pub(crate) fn pairing_check(sig: &[u8; 48], hm: &[u8; 48], pk: &[u8; 96]) -> (r: bool)
    ensures
        r == spec_pairing_check(sig@, hm@, pk@),
        r ==> spec_g1_valid(sig@) && spec_g1_valid(hm@) && spec_g2_valid(pk@),
{
    let s: Option<G1Affine> = G1Affine::from_compressed(sig).into();
    let h: Option<G1Affine> = G1Affine::from_compressed(hm).into();
    let p: Option<G2Affine> = G2Affine::from_compressed(pk).into();
    match (s, h, p) {
        (Some(s), Some(h), Some(p)) => bls12_381::pairing(&s, &G2Affine::generator()) == bls12_381::pairing(&h, &p),
        _ => false,
    }
}

/// `Sha256::digest`: the 32-byte SHA-256 digest of the data.
#[verifier::external_body]
pub(crate) fn sha256(data: &[u8]) -> (r: [u8; 32])
    ensures
        r@ == spec_sha256(data@),
{
    Sha256::digest(data).into()
}

} // verus!
