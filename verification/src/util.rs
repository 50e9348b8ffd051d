//! CRC-CCITT: polynomial 0x1021, seed 0xFFFF unless one is supplied, no
//! final XOR. The computation threads its seed so that a CRC over a marker
//! and a payload can be taken without joining the two buffers.

use vstd::prelude::*;

verus! {

/// One shift step of the CRC register.
pub open spec fn crc_shift(c: u16) -> u16 {
    if c & 0x8000 != 0 {
        (c << 1) ^ 0x1021
    } else {
        c << 1
    }
}

/// `k` shift steps of the CRC register.
pub open spec fn crc_shift_n(c: u16, k: nat) -> u16
    decreases k,
{
    if k == 0 {
        c
    } else {
        crc_shift(crc_shift_n(c, (k - 1) as nat))
    }
}

/// Folding one byte into the CRC register: XOR it into the high half, then
/// shift eight times.
pub open spec fn crc_byte(c: u16, b: u8) -> u16 {
    crc_shift_n(c ^ ((b as u16) << 8), 8)
}

/// The CRC of `data` started from `seed`, bytes folded in order.
pub open spec fn spec_crc_ccitt(data: Seq<u8>, seed: u16) -> u16
    decreases data.len(),
{
    if data.len() == 0 {
        seed
    } else {
        crc_byte(spec_crc_ccitt(data.drop_last(), seed), data.last())
    }
}

/// Threading the seed composes: the CRC of a concatenation equals the CRC
/// of the tail seeded with the CRC of the head.
pub proof fn lemma_crc_append(a: Seq<u8>, b: Seq<u8>, seed: u16)
    ensures
        spec_crc_ccitt(a + b, seed) == spec_crc_ccitt(b, spec_crc_ccitt(a, seed)),
    decreases b.len(),
{
    if b.len() == 0 {
        assert(a + b =~= a);
    } else {
        lemma_crc_append(a, b.drop_last(), seed);
        assert((a + b).drop_last() =~= a + b.drop_last());
        assert((a + b).last() == b.last());
    }
}

/// Computes the CRC-CCITT of `data`, continuing from `seed` when one is
/// given and from 0xFFFF otherwise.
pub fn crc_ccitt(data: &[u8], seed: Option<u16>) -> (r: u16)
    ensures
        r == spec_crc_ccitt(data@, if seed is Some { seed->0 } else { 0xFFFFu16 }),
{
    let mut c: u16 = match seed {
        Some(s) => s,
        None => 0xFFFF,
    };
    let ghost seed0: u16 = c;
    let mut i: usize = 0;
    while i < data.len()
        invariant
            i <= data@.len(),
            c == spec_crc_ccitt(data@.take(i as int), seed0),
        decreases data@.len() - i,
    {
        let b = data[i];
        let start: u16 = c ^ ((b as u16) << 8);
        let mut k: usize = 0;
        let mut reg: u16 = start;
        while k < 8
            invariant
                k <= 8,
                reg == crc_shift_n(start, k as nat),
            decreases 8 - k,
        {
            reg = if reg & 0x8000 != 0 {
                (reg << 1u16) ^ 0x1021
            } else {
                reg << 1u16
            };
            k += 1;
        }
        c = reg;
        proof {
            assert(data@.take(i + 1).drop_last() =~= data@.take(i as int));
            assert(data@.take(i + 1).last() == data@[i as int]);
        }
        i += 1;
    }
    proof {
        assert(data@.take(data@.len() as int) =~= data@);
    }
    c
}

} // verus!
