//! Facts about the canonical 32-byte little-endian scalar encoding, and the
//! constants zero and one.
use crate::curve::{group_order, le_value, scalar_val, valid_scalar};
use vstd::prelude::*;

verus! {

/// The `len`-byte little-endian encoding of `n` (truncated to `len` bytes).
pub open spec fn le_bytes(n: nat, len: nat) -> Seq<u8>
    decreases len,
{
    if len == 0 {
        Seq::empty()
    } else {
        seq![(n % 256) as u8] + le_bytes(n / 256, (len - 1) as nat)
    }
}

/// The canonical encoding of a field element.
pub open spec fn scalar_bytes(v: nat) -> Seq<u8> {
    le_bytes(v, 32)
}

/// A byte string is the little-endian encoding of its own value.
pub proof fn lemma_le_bytes_of_value(s: Seq<u8>)
    ensures
        le_bytes(le_value(s), s.len()) == s,
    decreases s.len(),
{
    if s.len() > 0 {
        let rest = s.drop_first();
        lemma_le_bytes_of_value(rest);
        let n = le_value(s);
        assert(n == s[0] as nat + 256 * le_value(rest));
        assert(n % 256 == s[0] as nat) by (nonlinear_arith)
            requires
                n == s[0] as nat + 256 * le_value(rest),
                s[0] < 256,
        ;
        assert(n / 256 == le_value(rest)) by (nonlinear_arith)
            requires
                n == s[0] as nat + 256 * le_value(rest),
                s[0] < 256,
        ;
        assert(le_bytes(n, s.len()) =~= s);
    }
}

/// Two canonical scalars with the same value have the same bytes.
pub proof fn lemma_scalar_bytes_of_value(s: Seq<u8>)
    requires
        s.len() == 32,
    ensures
        scalar_bytes(scalar_val(s)) == s,
{
    lemma_le_bytes_of_value(s);
}

/// A byte string of zeros stands for zero.
pub proof fn lemma_le_value_zeros(s: Seq<u8>)
    requires
        forall|i: int| 0 <= i < s.len() ==> s[i] == 0,
    ensures
        le_value(s) == 0,
    decreases s.len(),
{
    if s.len() > 0 {
        lemma_le_value_zeros(s.drop_first());
    }
}

/// `Scalar::zero()`: the encoding of zero.
pub fn scalar_zero() -> (r: [u8; 32])
    ensures
        scalar_val(r@) == 0,
        valid_scalar(r@),
{
    let r = [0u8; 32];
    proof {
        lemma_le_value_zeros(r@);
    }
    r
}

/// `Scalar::one()`: the encoding of one.
pub fn scalar_one() -> (r: [u8; 32])
    ensures
        scalar_val(r@) == 1,
        valid_scalar(r@),
{
    let mut r = [0u8; 32];
    r[0] = 1;
    proof {
        lemma_le_value_zeros(r@.drop_first());
        assert(le_value(r@) == r@[0] as nat + 256 * le_value(r@.drop_first()));
    }
    r
}

} // verus!
