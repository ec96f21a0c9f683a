//! Big-endian integer encodings and fixed-size byte copies used by the wire
//! formats of the library.
use vstd::prelude::*;

verus! {

/// The 8-byte big-endian encoding of a `u64`.
pub open spec fn be64(v: u64) -> Seq<u8> {
    seq![
        (v >> 56u64) as u8,
        (v >> 48u64) as u8,
        (v >> 40u64) as u8,
        (v >> 32u64) as u8,
        (v >> 24u64) as u8,
        (v >> 16u64) as u8,
        (v >> 8u64) as u8,
        v as u8,
    ]
}

/// The 4-byte big-endian encoding of a `u32`.
pub open spec fn be32(v: u32) -> Seq<u8> {
    seq![(v >> 24u32) as u8, (v >> 16u32) as u8, (v >> 8u32) as u8, v as u8]
}

/// The `u64` with the big-endian bytes `b0` to `b7`.
pub open spec fn bytes_to_u64(b0: u8, b1: u8, b2: u8, b3: u8, b4: u8, b5: u8, b6: u8, b7: u8) -> u64 {
    ((b0 as u64) << 56u64) | ((b1 as u64) << 48u64) | ((b2 as u64) << 40u64) | ((b3 as u64)
        << 32u64) | ((b4 as u64) << 24u64) | ((b5 as u64) << 16u64) | ((b6 as u64) << 8u64) | (
    b7 as u64)
}

/// The `u32` with the big-endian bytes `b0` to `b3`.
pub open spec fn bytes_to_u32(b0: u8, b1: u8, b2: u8, b3: u8) -> u32 {
    ((b0 as u32) << 24u32) | ((b1 as u32) << 16u32) | ((b2 as u32) << 8u32) | (b3 as u32)
}

/// The `u64` whose big-endian encoding is the first 8 bytes of `s`.
pub open spec fn be64_value(s: Seq<u8>) -> u64 {
    bytes_to_u64(s[0], s[1], s[2], s[3], s[4], s[5], s[6], s[7])
}

/// The `u32` whose big-endian encoding is the first 4 bytes of `s`.
pub open spec fn be32_value(s: Seq<u8>) -> u32 {
    bytes_to_u32(s[0], s[1], s[2], s[3])
}

/// Reading back the encoding of a `u64` gives the `u64`.
pub proof fn lemma_be64_roundtrip(v: u64)
    ensures
        be64_value(be64(v)) == v,
        be64(v).len() == 8,
{
    assert(bytes_to_u64(
        (v >> 56u64) as u8,
        (v >> 48u64) as u8,
        (v >> 40u64) as u8,
        (v >> 32u64) as u8,
        (v >> 24u64) as u8,
        (v >> 16u64) as u8,
        (v >> 8u64) as u8,
        v as u8,
    ) == v) by (bit_vector);
}

/// Reading back the encoding of a `u32` gives the `u32`.
pub proof fn lemma_be32_roundtrip(v: u32)
    ensures
        be32_value(be32(v)) == v,
        be32(v).len() == 4,
{
    assert(bytes_to_u32((v >> 24u32) as u8, (v >> 16u32) as u8, (v >> 8u32) as u8, v as u8) == v)
        by (bit_vector);
}

/// Eight bytes are the encoding of the `u64` they stand for.
pub proof fn lemma_be64_of_value(s: Seq<u8>)
    requires
        s.len() == 8,
    ensures
        be64(be64_value(s)) == s,
{
    let (b0, b1, b2, b3, b4, b5, b6, b7) = (s[0], s[1], s[2], s[3], s[4], s[5], s[6], s[7]);
    let v = bytes_to_u64(b0, b1, b2, b3, b4, b5, b6, b7);
    assert((v >> 56u64) as u8 == b0 && (v >> 48u64) as u8 == b1 && (v >> 40u64) as u8 == b2 && (v
        >> 32u64) as u8 == b3 && (v >> 24u64) as u8 == b4 && (v >> 16u64) as u8 == b5 && (v
        >> 8u64) as u8 == b6 && v as u8 == b7) by (bit_vector)
        requires
            v == bytes_to_u64(b0, b1, b2, b3, b4, b5, b6, b7),
    ;
    assert(be64(v) =~= s);
}

/// Four bytes are the encoding of the `u32` they stand for.
pub proof fn lemma_be32_of_value(s: Seq<u8>)
    requires
        s.len() == 4,
    ensures
        be32(be32_value(s)) == s,
{
    let (b0, b1, b2, b3) = (s[0], s[1], s[2], s[3]);
    let v = bytes_to_u32(b0, b1, b2, b3);
    assert((v >> 24u32) as u8 == b0 && (v >> 16u32) as u8 == b1 && (v >> 8u32) as u8 == b2 && v
        as u8 == b3) by (bit_vector)
        requires
            v == bytes_to_u32(b0, b1, b2, b3),
    ;
    assert(be32(v) =~= s);
}

/// An array of `N` bytes whose first `k` bytes are those of `s`.
spec fn fill_array<const N: usize>(s: Seq<u8>, k: nat) -> [u8; N]
    decreases k,
{
    if k == 0 {
        vstd::array::spec_array_fill_for_copy_type::<u8, N>(0u8)
    } else {
        vstd::array::spec_array_update(fill_array::<N>(s, (k - 1) as nat), k - 1, s[k - 1])
    }
}

proof fn lemma_fill_array<const N: usize>(s: Seq<u8>, k: nat)
    requires
        k <= N,
        s.len() == N,
    ensures
        fill_array::<N>(s, k)@.len() == N,
        forall|i: int| 0 <= i < k ==> fill_array::<N>(s, k)@[i] == s[i],
    decreases k,
{
    broadcast use vstd::array::group_array_axioms;

    if k > 0 {
        lemma_fill_array::<N>(s, (k - 1) as nat);
    }
}

/// Every `N` bytes are the contents of some array of `N` bytes.
pub proof fn lemma_array_exists<const N: usize>(s: Seq<u8>)
    requires
        s.len() == N,
    ensures
        exists|a: [u8; N]| a@ == s,
{
    lemma_fill_array::<N>(s, N as nat);
    assert(fill_array::<N>(s, N as nat)@ =~= s);
}

/// Appends the big-endian encoding of `v`.
pub fn push_u64_be(out: &mut Vec<u8>, v: u64)
    ensures
        final(out)@ == old(out)@ + be64(v),
{
    out.push((v >> 56u64) as u8);
    out.push((v >> 48u64) as u8);
    out.push((v >> 40u64) as u8);
    out.push((v >> 32u64) as u8);
    out.push((v >> 24u64) as u8);
    out.push((v >> 16u64) as u8);
    out.push((v >> 8u64) as u8);
    out.push(v as u8);
    assert(out@ =~= old(out)@ + be64(v));
}

/// Appends the big-endian encoding of `v`.
pub fn push_u32_be(out: &mut Vec<u8>, v: u32)
    ensures
        final(out)@ == old(out)@ + be32(v),
{
    out.push((v >> 24u32) as u8);
    out.push((v >> 16u32) as u8);
    out.push((v >> 8u32) as u8);
    out.push(v as u8);
    assert(out@ =~= old(out)@ + be32(v));
}

/// Appends a byte string.
pub fn push_bytes(out: &mut Vec<u8>, bytes: &[u8])
    ensures
        final(out)@ == old(out)@ + bytes@,
{
    let mut i: usize = 0;
    while i < bytes.len()
        invariant
            0 <= i <= bytes@.len(),
            out@ == old(out)@ + bytes@.subrange(0, i as int),
        decreases bytes@.len() - i,
    {
        out.push(bytes[i]);
        i = i + 1;
        assert(out@ =~= old(out)@ + bytes@.subrange(0, i as int));
    }
    assert(bytes@.subrange(0, bytes@.len() as int) =~= bytes@);
}

/// Reads the big-endian `u64` at `off`.
pub fn read_u64_be(b: &[u8], off: usize) -> (r: u64)
    requires
        off + 8 <= b@.len(),
    ensures
        r == be64_value(b@.subrange(off as int, off + 8)),
{
    ((b[off] as u64) << 56u64) | ((b[off + 1] as u64) << 48u64) | ((b[off + 2] as u64) << 40u64)
        | ((b[off + 3] as u64) << 32u64) | ((b[off + 4] as u64) << 24u64) | ((b[off + 5] as u64)
        << 16u64) | ((b[off + 6] as u64) << 8u64) | (b[off + 7] as u64)
}

/// Reads the big-endian `u32` at `off`.
pub fn read_u32_be(b: &[u8], off: usize) -> (r: u32)
    requires
        off + 4 <= b@.len(),
    ensures
        r == be32_value(b@.subrange(off as int, off + 4)),
{
    ((b[off] as u32) << 24u32) | ((b[off + 1] as u32) << 16u32) | ((b[off + 2] as u32) << 8u32)
        | (b[off + 3] as u32)
}

/// Copies the 32 bytes at `off`.
pub fn read_array32(b: &[u8], off: usize) -> (r: [u8; 32])
    requires
        off + 32 <= b@.len(),
    ensures
        r@ == b@.subrange(off as int, off + 32),
{
    let mut a = [0u8; 32];
    let mut i: usize = 0;
    while i < 32
        invariant
            0 <= i <= 32,
            off + 32 <= b.len(),
            forall|j: int| 0 <= j < i ==> a@[j] == b@[off + j],
        decreases 32 - i,
    {
        a[i] = b[off + i];
        i = i + 1;
    }
    assert(a@ =~= b@.subrange(off as int, off + 32));
    a
}

/// Copies the 48 bytes at `off`.
pub fn read_array48(b: &[u8], off: usize) -> (r: [u8; 48])
    requires
        off + 48 <= b@.len(),
    ensures
        r@ == b@.subrange(off as int, off + 48),
{
    let mut a = [0u8; 48];
    let mut i: usize = 0;
    while i < 48
        invariant
            0 <= i <= 48,
            off + 48 <= b.len(),
            forall|j: int| 0 <= j < i ==> a@[j] == b@[off + j],
        decreases 48 - i,
    {
        a[i] = b[off + i];
        i = i + 1;
    }
    assert(a@ =~= b@.subrange(off as int, off + 48));
    a
}

/// Copies the 96 bytes at `off`.
pub fn read_array96(b: &[u8], off: usize) -> (r: [u8; 96])
    requires
        off + 96 <= b@.len(),
    ensures
        r@ == b@.subrange(off as int, off + 96),
{
    let mut a = [0u8; 96];
    let mut i: usize = 0;
    while i < 96
        invariant
            0 <= i <= 96,
            off + 96 <= b.len(),
            forall|j: int| 0 <= j < i ==> a@[j] == b@[off + j],
        decreases 96 - i,
    {
        a[i] = b[off + i];
        i = i + 1;
    }
    assert(a@ =~= b@.subrange(off as int, off + 96));
    a
}

/// Byte-wise equality of two byte strings.
pub fn bytes_equal(a: &[u8], b: &[u8]) -> (r: bool)
    ensures
        r == (a@ == b@),
{
    if a.len() != b.len() {
        return false;
    }
    let mut i: usize = 0;
    while i < a.len()
        invariant
            0 <= i <= a@.len(),
            a@.len() == b@.len(),
            forall|j: int| 0 <= j < i ==> a@[j] == b@[j],
        decreases a@.len() - i,
    {
        if a[i] != b[i] {
            return false;
        }
        i = i + 1;
    }
    assert(a@ =~= b@);
    true
}


/// Equality of two 32-byte digests.
pub fn digest_eq(a: &[u8; 32], b: &[u8; 32]) -> (r: bool)
    ensures
        r == (*a == *b),
{
    let eq = bytes_equal(a.as_slice(), b.as_slice());
    proof {
        if eq {
            assert(*a =~= *b);
        }
    }
    eq
}

} // verus!
