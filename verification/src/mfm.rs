//! The MFM codec: byte sequences encoded as interleaved clock and data
//! cells, decoded back on demand, with a parallel weak-bit mask and a
//! clock-position map over the same cell indices.
//!
//! One data bit occupies two cells: a clock cell, set exactly when neither
//! the preceding nor the current data bit is set, followed by the data cell.
//! A decoded byte therefore spans sixteen cells.

use crate::bits::{
    bits_of_bytes, bv_bits, bv_from_bytes, bv_from_elem, bv_get, bv_len, bv_set, bv_to_bytes,
    byte_bit, bytes_of_bits, packed_bit,
};
use vstd::prelude::*;

verus! {

/// The number of bit cells one decoded byte occupies in an MFM stream.
pub const MFM_BYTE_LEN: usize = 16;

/// The clock cell standing between the data bits `prev` and `cur`.
pub open spec fn mfm_clock(prev: bool, cur: bool) -> bool {
    !prev && !cur
}

/// The data bit that precedes cell index `cell`, used as context for the
/// first clock cell of a write; false at the very start of the stream.
pub open spec fn prev_data_bit(cells: Seq<bool>, cell: int) -> bool {
    if cell <= 0 {
        false
    } else {
        cells[cell - 1]
    }
}

/// Cell `i` of the encoding of the data bits `d` after a preceding data bit
/// `p`: data bits at odd offsets, clock cells at even offsets.
pub open spec fn encoded_cell(d: Seq<bool>, p: bool, i: int) -> bool {
    if i % 2 == 1 {
        d[i / 2]
    } else {
        mfm_clock(
            if i == 0 {
                p
            } else {
                d[i / 2 - 1]
            },
            d[i / 2],
        )
    }
}

/// The MFM cell stream encoding the data bits `d` after a preceding data
/// bit `p`; twice as long as `d`.
pub open spec fn encode_cells(d: Seq<bool>, p: bool) -> Seq<bool> {
    Seq::new(2 * d.len(), |i: int| encoded_cell(d, p, i))
}

/// The byte decoded from the sixteen cells at `start`: the eight data cells
/// at odd offsets, most significant first, clock cells skipped.
pub open spec fn decoded_byte(cells: Seq<bool>, start: int) -> u8 {
    (packed_bit(cells, start + 1) * 128 + packed_bit(cells, start + 3) * 64 + packed_bit(
        cells,
        start + 5,
    ) * 32 + packed_bit(cells, start + 7) * 16 + packed_bit(cells, start + 9) * 8 + packed_bit(
        cells,
        start + 11,
    ) * 4 + packed_bit(cells, start + 13) * 2 + packed_bit(cells, start + 15)) as u8
}

/// The `n` bytes decoded from the cells starting at `start`.
pub open spec fn decode_bytes(cells: Seq<bool>, start: int, n: nat) -> Seq<u8> {
    Seq::new(n, |j: int| decoded_byte(cells, start + 16 * j))
}

/// The cell stream `cells` with the encoding of `data` written over the
/// cells starting at `cell`, the first clock cell derived from the data bit
/// that precedes `cell`.
pub open spec fn mfm_overwrite(cells: Seq<bool>, cell: int, data: Seq<u8>) -> Seq<bool> {
    let e = encode_cells(bits_of_bytes(data), prev_data_bit(cells, cell));
    Seq::new(
        cells.len(),
        |i: int|
            if cell <= i < cell + e.len() {
                e[i - cell]
            } else {
                cells[i]
            },
    )
}

/// An all-false bit sequence of length `n`.
pub open spec fn falses(n: nat) -> Seq<bool> {
    Seq::new(n, |i: int| false)
}

/// Whether any bit of `s` is set.
pub open spec fn any_weak(s: Seq<bool>) -> bool {
    exists|i: int| 0 <= i < s.len() && s[i]
}

/// Reassembling a byte from its eight bits, most significant first.
pub proof fn lemma_bits_reassemble(b: u8)
    by (bit_vector)
    ensures
        (if byte_bit(b, 0) {
            1u8
        } else {
            0u8
        }) * 128 + (if byte_bit(b, 1) {
            1u8
        } else {
            0u8
        }) * 64 + (if byte_bit(b, 2) {
            1u8
        } else {
            0u8
        }) * 32 + (if byte_bit(b, 3) {
            1u8
        } else {
            0u8
        }) * 16 + (if byte_bit(b, 4) {
            1u8
        } else {
            0u8
        }) * 8 + (if byte_bit(b, 5) {
            1u8
        } else {
            0u8
        }) * 4 + (if byte_bit(b, 6) {
            1u8
        } else {
            0u8
        }) * 2 + (if byte_bit(b, 7) {
            1u8
        } else {
            0u8
        }) == b,
{
}

/// Byte `j` of an encoded stream decodes back to the byte that was
/// encoded, whatever the leading-bit context.
pub proof fn lemma_encode_byte_at(data: Seq<u8>, p: bool, j: int)
    requires
        0 <= j < data.len(),
    ensures
        decoded_byte(encode_cells(bits_of_bytes(data), p), 16 * j) == data[j],
{
    let d = bits_of_bytes(data);
    let enc = encode_cells(d, p);
    let b = data[j];
    assert forall|k: int| 0 <= k < 8 implies packed_bit(enc, 16 * j + 2 * k + 1) == (
    if byte_bit(b, k) {
        1u8
    } else {
        0u8
    }) by {
        let i = 16 * j + 2 * k + 1;
        assert(i % 2 == 1 && i / 2 == 8 * j + k);
        assert(enc[i] == d[8 * j + k]);
        assert((8 * j + k) / 8 == j && (8 * j + k) % 8 == k);
        assert(d[8 * j + k] == byte_bit(b, k));
    }
    lemma_bits_reassemble(b);
}

/// Encoding any byte sequence to MFM with any leading-bit context and
/// decoding from cell offset zero yields the bytes back.
pub proof fn lemma_mfm_round_trip(data: Seq<u8>, p: bool)
    ensures
        decode_bytes(encode_cells(bits_of_bytes(data), p), 0, data.len()) == data,
{
    let enc = encode_cells(bits_of_bytes(data), p);
    assert forall|j: int| 0 <= j < data.len() implies #[trigger] decode_bytes(
        enc,
        0,
        data.len(),
    )[j] == data[j] by {
        lemma_encode_byte_at(data, p, j);
    }
    assert(decode_bytes(enc, 0, data.len()) =~= data);
}

/// Two equally long streams that agree on the sixteen cells at `start`
/// decode the same byte there.
pub proof fn lemma_decoded_byte_agrees(a: Seq<bool>, b: Seq<bool>, start: int)
    requires
        a.len() == b.len(),
        forall|i: int| start <= i < start + 16 ==> #[trigger] a[i] == b[i],
    ensures
        decoded_byte(a, start) == decoded_byte(b, start),
{
    assert(packed_bit(a, start + 1) == packed_bit(b, start + 1));
    assert(packed_bit(a, start + 3) == packed_bit(b, start + 3));
    assert(packed_bit(a, start + 5) == packed_bit(b, start + 5));
    assert(packed_bit(a, start + 7) == packed_bit(b, start + 7));
    assert(packed_bit(a, start + 9) == packed_bit(b, start + 9));
    assert(packed_bit(a, start + 11) == packed_bit(b, start + 11));
    assert(packed_bit(a, start + 13) == packed_bit(b, start + 13));
    assert(packed_bit(a, start + 15) == packed_bit(b, start + 15));
}

/// Decoding an overwritten region yields the bytes just written,
/// whatever cells surround it and whatever clock context the write
/// started from: the decoder reads only data cells, and those carry the
/// written bits exactly.
pub proof fn lemma_decode_overwrite(cells: Seq<bool>, cell: int, data: Seq<u8>)
    requires
        0 <= cell,
        cell + 16 * data.len() <= cells.len(),
    ensures
        decode_bytes(mfm_overwrite(cells, cell, data), cell, data.len()) == data,
{
    let d = bits_of_bytes(data);
    let w = mfm_overwrite(cells, cell, data);
    assert forall|j: int| 0 <= j < data.len() implies decoded_byte(w, cell + 16 * j) == data[j] by {
        let b = data[j];
        assert forall|k: int| 0 <= k < 8 implies packed_bit(w, cell + 16 * j + 2 * k + 1) == (
        if byte_bit(b, k) {
            1u8
        } else {
            0u8
        }) by {
            let i = 16 * j + 2 * k + 1;
            assert(w[cell + i] == encoded_cell(d, prev_data_bit(cells, cell), i));
            assert(i % 2 == 1 && i / 2 == 8 * j + k);
            assert((8 * j + k) / 8 == j && (8 * j + k) % 8 == k);
            assert(d[8 * j + k] == byte_bit(b, k));
        }
        lemma_bits_reassemble(b);
    }
    assert(decode_bytes(w, cell, data.len()) =~= data);
}

/// An MFM codec over one track's cells: the cell stream itself, a weak-bit
/// mask marking unreliable cells, and a clock map marking which cells the
/// structural parser identified as clock positions.
pub struct MfmCodec {
    bits: bit_vec::BitVec,
    weak: bit_vec::BitVec,
    clock: bit_vec::BitVec,
}

impl MfmCodec {
    /// The cell stream.
    pub closed spec fn cells(&self) -> Seq<bool> {
        bv_bits(self.bits)
    }

    /// The weak-bit mask, one flag per cell.
    pub closed spec fn weak_bits(&self) -> Seq<bool> {
        bv_bits(self.weak)
    }

    /// The clock map, one flag per cell.
    pub closed spec fn clock_bits(&self) -> Seq<bool> {
        bv_bits(self.clock)
    }

    /// The three parallel planes agree in length, and the length fits the
    /// machine.
    pub open spec fn wf(&self) -> bool {
        &&& self.weak_bits().len() == self.cells().len()
        &&& self.clock_bits().len() == self.cells().len()
        &&& self.cells().len() <= usize::MAX
    }

    /// Wraps raw track bytes into a cell stream, every cell initially
    /// reliable and no cell yet known to be a clock.
    pub fn new(data: &[u8]) -> (r: MfmCodec)
        requires
            8 * data@.len() <= usize::MAX,
        ensures
            r.wf(),
            r.cells() == bits_of_bytes(data@),
            r.cells().len() == 8 * data@.len(),
            r.weak_bits() == falses(r.cells().len()),
            r.clock_bits() == falses(r.cells().len()),
    {
        let bits = bv_from_bytes(data);
        let n = bv_len(&bits);
        let weak = bv_from_elem(n, false);
        let clock = bv_from_elem(n, false);
        proof {
            assert(bv_bits(bits).len() == 8 * data@.len());
            assert(bv_bits(weak) =~= falses(bv_bits(bits).len()));
            assert(bv_bits(clock) =~= falses(bv_bits(bits).len()));
        }
        MfmCodec { bits, weak, clock }
    }

    /// The number of cells in the stream.
    pub fn len(&self) -> (r: usize)
        ensures
            r == self.cells().len(),
    {
        bv_len(&self.bits)
    }

    /// Reads one cell.
    pub fn get_cell(&self, i: usize) -> (r: bool)
        requires
            i < self.cells().len(),
        ensures
            r == self.cells()[i as int],
    {
        bv_get(&self.bits, i)
    }

    /// Overwrites one cell, leaving the weak mask and clock map untouched.
    pub fn set_cell(&mut self, i: usize, v: bool)
        requires
            i < old(self).cells().len(),
        ensures
            final(self).cells() == old(self).cells().update(i as int, v),
            final(self).weak_bits() == old(self).weak_bits(),
            final(self).clock_bits() == old(self).clock_bits(),
    {
        bv_set(&mut self.bits, i, v);
    }

    /// Marks or clears one position of the clock map.
    pub fn set_clock_bit(&mut self, i: usize, v: bool)
        requires
            i < old(self).clock_bits().len(),
        ensures
            final(self).clock_bits() == old(self).clock_bits().update(i as int, v),
            final(self).cells() == old(self).cells(),
            final(self).weak_bits() == old(self).weak_bits(),
    {
        bv_set(&mut self.clock, i, v);
    }

    /// Decodes the byte whose sixteen cells start at `cell`.
    pub fn decode_byte_at(&self, cell: usize) -> (r: u8)
        requires
            self.wf(),
            cell + 16 <= self.cells().len(),
        ensures
            r == decoded_byte(self.cells(), cell as int),
    {
        let b0 = bv_get(&self.bits, cell + 1);
        let b1 = bv_get(&self.bits, cell + 3);
        let b2 = bv_get(&self.bits, cell + 5);
        let b3 = bv_get(&self.bits, cell + 7);
        let b4 = bv_get(&self.bits, cell + 9);
        let b5 = bv_get(&self.bits, cell + 11);
        let b6 = bv_get(&self.bits, cell + 13);
        let b7 = bv_get(&self.bits, cell + 15);
        let r: u8 = (if b0 {
            128u8
        } else {
            0u8
        }) + (if b1 {
            64u8
        } else {
            0u8
        }) + (if b2 {
            32u8
        } else {
            0u8
        }) + (if b3 {
            16u8
        } else {
            0u8
        }) + (if b4 {
            8u8
        } else {
            0u8
        }) + (if b5 {
            4u8
        } else {
            0u8
        }) + (if b6 {
            2u8
        } else {
            0u8
        }) + (if b7 {
            1u8
        } else {
            0u8
        });
        r
    }

    /// Decodes `n` bytes starting at the half-bit offset `half`, that is at
    /// cell `2 * half`: sixteen cells per byte, clock cells skipped.
    pub fn read_decoded(&self, half: usize, n: usize) -> (r: Vec<u8>)
        requires
            2 * half + 16 * n <= self.cells().len(),
            self.wf(),
        ensures
            r@ == decode_bytes(self.cells(), 2 * half as int, n as nat),
    {
        self.read_decoded_at_cell(2 * half, n)
    }

    /// Decodes the byte at `cell` even when its sixteen cells run past
    /// the end of the stream; missing cells read as zero bits.
    #[verifier::rlimit(100)]
    pub fn decode_byte_padded(&self, cell: usize) -> (r: u8)
        requires
            self.wf(),
        ensures
            r == decoded_byte(self.cells(), cell as int),
    {
        let n = bv_len(&self.bits);
        let b0 = if cell < n && n - cell > 1 { bv_get(&self.bits, cell + 1) } else { false };
        let b1 = if cell < n && n - cell > 3 { bv_get(&self.bits, cell + 3) } else { false };
        let b2 = if cell < n && n - cell > 5 { bv_get(&self.bits, cell + 5) } else { false };
        let b3 = if cell < n && n - cell > 7 { bv_get(&self.bits, cell + 7) } else { false };
        let b4 = if cell < n && n - cell > 9 { bv_get(&self.bits, cell + 9) } else { false };
        let b5 = if cell < n && n - cell > 11 { bv_get(&self.bits, cell + 11) } else { false };
        let b6 = if cell < n && n - cell > 13 { bv_get(&self.bits, cell + 13) } else { false };
        let b7 = if cell < n && n - cell > 15 { bv_get(&self.bits, cell + 15) } else { false };
        let r: u8 = (if b0 {
            128u8
        } else {
            0u8
        }) + (if b1 {
            64u8
        } else {
            0u8
        }) + (if b2 {
            32u8
        } else {
            0u8
        }) + (if b3 {
            16u8
        } else {
            0u8
        }) + (if b4 {
            8u8
        } else {
            0u8
        }) + (if b5 {
            4u8
        } else {
            0u8
        }) + (if b6 {
            2u8
        } else {
            0u8
        }) + (if b7 {
            1u8
        } else {
            0u8
        });
        r
    }

    /// Decodes `n` bytes from the cells starting at `cell`.
    pub fn read_decoded_at_cell(&self, cell: usize, n: usize) -> (r: Vec<u8>)
        requires
            self.wf(),
            cell + 16 * n <= self.cells().len(),
        ensures
            r@ == decode_bytes(self.cells(), cell as int, n as nat),
    {
        let mut out: Vec<u8> = Vec::new();
        let mut j: usize = 0;
        while j < n
            invariant
                j <= n,
                self.wf(),
                cell + 16 * n <= self.cells().len(),
                out@ == decode_bytes(self.cells(), cell as int, j as nat),
            decreases n - j,
        {
            let byte = self.decode_byte_at(cell + 16 * j);
            out.push(byte);
            proof {
                assert(decode_bytes(self.cells(), cell as int, (j + 1) as nat) =~= decode_bytes(
                    self.cells(),
                    cell as int,
                    j as nat,
                ).push(decoded_byte(self.cells(), cell + 16 * j)));
            }
            j += 1;
        }
        out
    }

    /// Re-encodes `src` into MFM cells over the cells starting at `cell`,
    /// deriving the first clock cell from the preceding data bit.
    pub fn write_encoded(&mut self, cell: usize, src: &[u8])
        requires
            old(self).wf(),
            cell + 16 * src@.len() <= old(self).cells().len(),
        ensures
            final(self).wf(),
            final(self).cells() == mfm_overwrite(old(self).cells(), cell as int, src@),
            final(self).weak_bits() == old(self).weak_bits(),
            final(self).clock_bits() == old(self).clock_bits(),
    {
        let ghost oc = old(self).cells();
        let ghost d = bits_of_bytes(src@);
        let ghost p0 = prev_data_bit(oc, cell as int);
        let ghost target = mfm_overwrite(oc, cell as int, src@);
        let mut prev: bool = if cell == 0 {
            false
        } else {
            bv_get(&self.bits, cell - 1)
        };
        let nbits = 8 * src.len();
        let mut m: usize = 0;
        while m < nbits
            invariant
                m <= nbits,
                nbits == 8 * src@.len(),
                d == bits_of_bytes(src@),
                d.len() == nbits,
                p0 == prev_data_bit(oc, cell as int),
                target == mfm_overwrite(oc, cell as int, src@),
                target.len() == oc.len(),
                cell + 2 * nbits <= oc.len() <= usize::MAX,
                bv_bits(self.bits).len() == oc.len(),
                self.weak == old(self).weak,
                self.clock == old(self).clock,
                old(self).wf(),
                forall|i: int|
                    0 <= i < oc.len() && !(cell <= i < cell + 2 * m) ==> bv_bits(self.bits)[i]
                        == oc[i],
                forall|i: int| cell <= i < cell + 2 * m ==> bv_bits(self.bits)[i] == target[i],
                prev == if m == 0 {
                    p0
                } else {
                    d[m - 1]
                },
            decreases nbits - m,
        {
            let byte = src[m / 8];
            let k = m % 8;
            let sh: u8 = (7 - k) as u8;
            let bit = ((byte >> sh) & 1) == 1;
            proof {
                assert(sh == (7 - (m as int % 8)) as u8);
                assert(bit == byte_bit(src@[m as int / 8], m as int % 8));
                assert(d[m as int] == byte_bit(src@[m as int / 8], m as int % 8));
            }
            let clock = !prev && !bit;
            bv_set(&mut self.bits, cell + 2 * m, clock);
            bv_set(&mut self.bits, cell + 2 * m + 1, bit);
            proof {
                let e = encode_cells(d, p0);
                assert(target[cell + 2 * m] == e[2 * m as int]);
                assert((2 * m as int) % 2 == 0 && (2 * m as int) / 2 == m as int);
                assert(e[2 * m as int] == encoded_cell(d, p0, 2 * m as int));
                assert(encoded_cell(d, p0, 2 * m as int) == clock);
                assert(target[cell + 2 * m + 1] == e[2 * m as int + 1]);
                assert((2 * m as int + 1) % 2 == 1 && (2 * m as int + 1) / 2 == m as int);
                assert(e[2 * m as int + 1] == bit);
            }
            prev = bit;
            m += 1;
        }
        proof {
            assert(bv_bits(self.bits) =~= target);
        }
    }

    /// Discards the stream and re-encodes `bytes` afresh: the new stream
    /// holds exactly their encoding, every cell reliable, no clock marked.
    pub fn replace_encoded(&mut self, bytes: &[u8])
        requires
            16 * bytes@.len() <= usize::MAX,
        ensures
            final(self).wf(),
            final(self).cells() == encode_cells(bits_of_bytes(bytes@), false),
            final(self).cells().len() == 16 * bytes@.len(),
            final(self).weak_bits() == falses(final(self).cells().len()),
            final(self).clock_bits() == falses(final(self).cells().len()),
    {
        let n16 = 16 * bytes.len();
        self.bits = bv_from_elem(n16, false);
        self.weak = bv_from_elem(n16, false);
        self.clock = bv_from_elem(n16, false);
        proof {
            assert(bv_bits(self.weak) =~= falses(n16 as nat));
            assert(bv_bits(self.clock) =~= falses(n16 as nat));
        }
        self.write_encoded(0, bytes);
        proof {
            let d = bits_of_bytes(bytes@);
            assert(prev_data_bit(falses(n16 as nat), 0) == false);
            assert(self.cells() =~= encode_cells(d, false));
        }
    }

    /// Whether any cell of the stream is marked weak.
    pub fn has_weak_bits(&self) -> (r: bool)
        requires
            self.wf(),
        ensures
            r == any_weak(self.weak_bits()),
    {
        let n = bv_len(&self.weak);
        let mut i: usize = 0;
        while i < n
            invariant
                i <= n,
                n == self.weak_bits().len(),
                forall|j: int| 0 <= j < i ==> !self.weak_bits()[j],
            decreases n - i,
        {
            if bv_get(&self.weak, i) {
                return true;
            }
            i += 1;
        }
        false
    }

    /// The cells packed back into bytes, eight per byte, for hashing and
    /// raw dumps.
    pub fn data_bytes(&self) -> (r: Vec<u8>)
        ensures
            r@ == bytes_of_bits(self.cells()),
    {
        bv_to_bytes(&self.bits)
    }
}

/// A pass-through cell stream for encodings the library carries opaquely
/// (raw, FM, GCR): the cells and a weak mask, with no clock structure and
/// no decoding.
pub struct RawCodec {
    bits: bit_vec::BitVec,
    weak: bit_vec::BitVec,
}

impl RawCodec {
    /// The cell stream.
    pub closed spec fn cells(&self) -> Seq<bool> {
        bv_bits(self.bits)
    }

    /// The weak-bit mask, one flag per cell.
    pub closed spec fn weak_bits(&self) -> Seq<bool> {
        bv_bits(self.weak)
    }

    /// The two planes agree in length, and the length fits the machine.
    pub open spec fn wf(&self) -> bool {
        &&& self.weak_bits().len() == self.cells().len()
        &&& self.cells().len() <= usize::MAX
    }

    /// Wraps raw track bytes one-for-one into cells.
    pub fn new(data: &[u8]) -> (r: RawCodec)
        requires
            8 * data@.len() <= usize::MAX,
        ensures
            r.wf(),
            r.cells() == bits_of_bytes(data@),
            r.weak_bits() == falses(r.cells().len()),
    {
        let bits = bv_from_bytes(data);
        let n = bv_len(&bits);
        let weak = bv_from_elem(n, false);
        proof {
            assert(bv_bits(weak) =~= falses(bv_bits(bits).len()));
        }
        RawCodec { bits, weak }
    }

    /// The number of cells in the stream.
    pub fn len(&self) -> (r: usize)
        ensures
            r == self.cells().len(),
    {
        bv_len(&self.bits)
    }

    /// Whether any cell of the stream is marked weak.
    pub fn has_weak_bits(&self) -> (r: bool)
        requires
            self.wf(),
        ensures
            r == any_weak(self.weak_bits()),
    {
        let n = bv_len(&self.weak);
        let mut i: usize = 0;
        while i < n
            invariant
                i <= n,
                n == self.weak_bits().len(),
                forall|j: int| 0 <= j < i ==> !self.weak_bits()[j],
            decreases n - i,
        {
            if bv_get(&self.weak, i) {
                return true;
            }
            i += 1;
        }
        false
    }

    /// The cells packed back into bytes, eight per byte.
    pub fn data_bytes(&self) -> (r: Vec<u8>)
        ensures
            r@ == bytes_of_bits(self.cells()),
    {
        bv_to_bytes(&self.bits)
    }
}

} // verus!
