//! Geometry primitives: cylinder/head, cylinder/head/sector, and
//! cylinder/head/sector/size-code addressing tuples.

use vstd::prelude::*;

verus! {

/// A cylinder and head pair addressing one track of a disk.
#[derive(Copy, Clone, Debug, PartialEq, Eq, Hash, Structural)]
pub struct DiskCh {
    pub c: u16,
    pub h: u8,
}

/// A cylinder, head and sector id addressing one sector of a disk.
///
/// The sector id is the physical id a header carries; on PC floppies it is
/// 1-based, but nothing here assumes that.
#[derive(Copy, Clone, Debug, PartialEq, Eq, Hash, Structural)]
pub struct DiskChs {
    pub c: u16,
    pub h: u8,
    pub s: u8,
}

/// A sector address together with its size code N; the payload holds
/// `128 << N` bytes.
#[derive(Copy, Clone, Debug, PartialEq, Eq, Hash, Structural)]
pub struct DiskChsn {
    pub c: u16,
    pub h: u8,
    pub s: u8,
    pub n: u8,
}

impl DiskCh {
    pub fn new(c: u16, h: u8) -> (r: DiskCh)
        ensures
            r == (DiskCh { c, h }),
    {
        DiskCh { c, h }
    }

    pub fn c(&self) -> (r: u16)
        ensures
            r == self.c,
    {
        self.c
    }

    pub fn h(&self) -> (r: u8)
        ensures
            r == self.h,
    {
        self.h
    }
}

impl Default for DiskCh {
    fn default() -> (r: DiskCh)
        ensures
            r == (DiskCh { c: 0u16, h: 0u8 }),
    {
        DiskCh { c: 0, h: 0 }
    }
}

impl DiskChs {
    pub fn new(c: u16, h: u8, s: u8) -> (r: DiskChs)
        ensures
            r == (DiskChs { c, h, s }),
    {
        DiskChs { c, h, s }
    }

    pub fn c(&self) -> (r: u16)
        ensures
            r == self.c,
    {
        self.c
    }

    pub fn h(&self) -> (r: u8)
        ensures
            r == self.h,
    {
        self.h
    }

    pub fn s(&self) -> (r: u8)
        ensures
            r == self.s,
    {
        self.s
    }

    /// The track this sector address lies on.
    pub fn to_ch(&self) -> (r: DiskCh)
        ensures
            r == (DiskCh { c: self.c, h: self.h }),
    {
        DiskCh { c: self.c, h: self.h }
    }

    /// Builds a sector address on the track `ch` with sector id `s`.
    pub fn from_ch_s(ch: DiskCh, s: u8) -> (r: DiskChs)
        ensures
            r == (DiskChs { c: ch.c, h: ch.h, s }),
    {
        DiskChs { c: ch.c, h: ch.h, s }
    }

    /// The next sector within the same track of a disk whose per-track sector
    /// count is `geom.s`, or `None` when this is the last sector of the
    /// track. Advancing across heads or cylinders is the caller's policy.
    pub fn get_next_sector(&self, geom: &DiskChs) -> (r: Option<DiskChs>)
        ensures
            r == (if self.s < geom.s {
                Some(DiskChs { c: self.c, h: self.h, s: (self.s + 1) as u8 })
            } else {
                None::<DiskChs>
            }),
    {
        if self.s < geom.s {
            Some(DiskChs { c: self.c, h: self.h, s: self.s + 1 })
        } else {
            None
        }
    }
}

impl Default for DiskChs {
    fn default() -> (r: DiskChs)
        ensures
            r == (DiskChs { c: 0u16, h: 0u8, s: 0u8 }),
    {
        DiskChs { c: 0, h: 0, s: 0 }
    }
}

/// The payload byte count that the size code `n` stands for: `128 << n`.
/// Size codes of 8 and above are invalid everywhere in the library.
pub open spec fn spec_n_to_bytes(n: u8) -> usize {
    (128usize << (n as usize)) as usize
}

impl DiskChsn {
    pub fn new(c: u16, h: u8, s: u8, n: u8) -> (r: DiskChsn)
        ensures
            r == (DiskChsn { c, h, s, n }),
    {
        DiskChsn { c, h, s, n }
    }

    pub fn c(&self) -> (r: u16)
        ensures
            r == self.c,
    {
        self.c
    }

    pub fn h(&self) -> (r: u8)
        ensures
            r == self.h,
    {
        self.h
    }

    pub fn s(&self) -> (r: u8)
        ensures
            r == self.s,
    {
        self.s
    }

    pub fn n(&self) -> (r: u8)
        ensures
            r == self.n,
    {
        self.n
    }

    /// The sector address without the size code.
    pub fn to_chs(&self) -> (r: DiskChs)
        ensures
            r == (DiskChs { c: self.c, h: self.h, s: self.s }),
    {
        DiskChs { c: self.c, h: self.h, s: self.s }
    }

    /// The payload byte count of a sector with size code `n`: `128 << n`.
    pub fn n_to_bytes(n: u8) -> (r: usize)
        requires
            n < 8,
        ensures
            r == spec_n_to_bytes(n),
            r == 128usize << (n as usize),
            128 <= r <= 16384,
    {
        proof {
            assert(n < 8 ==> 128usize << (n as usize) <= 16384 && 128usize << (n as usize)
                >= 128) by (bit_vector);
        }
        128usize << (n as usize)
    }

    /// The payload byte count of this sector.
    pub fn n_size(&self) -> (r: usize)
        requires
            self.n < 8,
        ensures
            r == spec_n_to_bytes(self.n),
            128 <= r <= 16384,
    {
        DiskChsn::n_to_bytes(self.n)
    }
}

impl Default for DiskChsn {
    fn default() -> (r: DiskChsn)
        ensures
            r == (DiskChsn { c: 0u16, h: 0u8, s: 0u8, n: 0u8 }),
    {
        DiskChsn { c: 0, h: 0, s: 0, n: 0 }
    }
}

} // verus!
