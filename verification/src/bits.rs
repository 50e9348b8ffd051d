//! The bit buffer under every bitstream track: a thin trusted layer over
//! `bit_vec::BitVec`, modelled in specifications as a `Seq<bool>` through
//! the uninterpreted contents function [`bv_bits`].

use vstd::prelude::*;

verus! {

#[verifier::external_type_specification]
#[verifier::external_body]
#[verifier::reject_recursive_types(B)]
pub struct ExBitVec<B>(bit_vec::BitVec<B>);

/// The bits a `BitVec` holds, in index order.
pub uninterp spec fn bv_bits(v: bit_vec::BitVec) -> Seq<bool>;

/// Whether bit `k` (0 = most significant) of byte `b` is set.
pub open spec fn byte_bit(b: u8, k: int) -> bool {
    (b >> ((7 - k) as u8)) & 1 == 1
}

/// The bits of a byte sequence, each byte contributing eight bits with the
/// most significant first.
pub open spec fn bits_of_bytes(s: Seq<u8>) -> Seq<bool> {
    Seq::new(s.len() * 8, |i: int| byte_bit(s[i / 8], i % 8))
}

/// The value of bit `i` of `bits` when packing back into bytes: zero past
/// the end, so that a partial final byte is padded with zeros.
pub open spec fn packed_bit(bits: Seq<bool>, i: int) -> u8 {
    if 0 <= i < bits.len() && bits[i] {
        1u8
    } else {
        0u8
    }
}

/// The byte whose eight bits stand at `i0`, `i0 + 1`, ..., `i0 + 7` of
/// `bits`, most significant bit first, missing bits read as zero.
pub open spec fn packed_byte_at(bits: Seq<bool>, i0: int) -> u8 {
    (packed_bit(bits, i0) * 128 + packed_bit(bits, i0 + 1) * 64 + packed_bit(bits, i0 + 2) * 32
        + packed_bit(bits, i0 + 3) * 16 + packed_bit(bits, i0 + 4) * 8 + packed_bit(bits, i0 + 5)
        * 4 + packed_bit(bits, i0 + 6) * 2 + packed_bit(bits, i0 + 7)) as u8
}

/// The packing of `bits` into bytes: `ceil(len / 8)` bytes, the last one
/// padded with zero bits.
pub open spec fn bytes_of_bits(bits: Seq<bool>) -> Seq<u8> {
    Seq::new((bits.len() + 7) / 8, |j: int| packed_byte_at(bits, 8 * j))
}

/// Relies on `bit_vec::BitVec::from_bytes`: each byte becomes eight bits,
/// most significant first.
#[verifier::external_body]
pub(crate) fn bv_from_bytes(bytes: &[u8]) -> (r: bit_vec::BitVec)
    requires
        8 * bytes@.len() <= usize::MAX,
    ensures
        bv_bits(r) == bits_of_bytes(bytes@),
{
    bit_vec::BitVec::from_bytes(bytes)
}

/// Relies on `bit_vec::BitVec::from_elem`: `len` copies of `bit`.
#[verifier::external_body]
pub(crate) fn bv_from_elem(len: usize, bit: bool) -> (r: bit_vec::BitVec)
    ensures
        bv_bits(r) == Seq::new(len as nat, |i: int| bit),
{
    bit_vec::BitVec::from_elem(len, bit)
}

/// Relies on `bit_vec::BitVec::len`: the number of bits held.
#[verifier::external_body]
pub(crate) fn bv_len(v: &bit_vec::BitVec) -> (r: usize)
    ensures
        r == bv_bits(*v).len(),
{
    v.len()
}

/// Relies on `bit_vec::BitVec::get`: `Some(bit i)` whenever `i` is in
/// bounds, which the precondition guarantees.
#[verifier::external_body]
pub(crate) fn bv_get(v: &bit_vec::BitVec, i: usize) -> (r: bool)
    requires
        i < bv_bits(*v).len(),
    ensures
        r == bv_bits(*v)[i as int],
{
    v.get(i).unwrap()
}

/// Relies on `bit_vec::BitVec::set`: replaces bit `i`, leaving every other
/// bit and the length unchanged.
#[verifier::external_body]
pub(crate) fn bv_set(v: &mut bit_vec::BitVec, i: usize, x: bool)
    requires
        i < bv_bits(*old(v)).len(),
    ensures
        bv_bits(*final(v)) == bv_bits(*old(v)).update(i as int, x),
{
    v.set(i, x);
}

/// Relies on `bit_vec::BitVec::to_bytes`: packs the bits back into bytes,
/// most significant bit first, the final partial byte padded with zeros.
#[verifier::external_body]
pub(crate) fn bv_to_bytes(v: &bit_vec::BitVec) -> (r: Vec<u8>)
    ensures
        r@ == bytes_of_bits(bv_bits(*v)),
{
    v.to_bytes()
}

} // verus!
