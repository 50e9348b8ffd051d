//! The IBM System 34 structural parser: locating address marks in a cell
//! stream, deriving a typed metadata timeline with CRC validation, marking
//! clock positions, and synthesising freshly formatted tracks.

use crate::bits::{bits_of_bytes, byte_bit, packed_bit};
use crate::chs::{spec_n_to_bytes, DiskChsn};
use crate::mfm::{
    decode_bytes, decoded_byte, encode_cells, encoded_cell, lemma_decoded_byte_agrees,
    lemma_encode_byte_at, mfm_clock, MfmCodec,
};
use crate::util::{crc_ccitt, spec_crc_ccitt};
use crate::DiskImageError;
use vstd::prelude::*;

verus! {

/// The address-mark kinds of the System 34 track layout.
#[derive(Copy, Clone, Debug, PartialEq, Eq, Structural)]
pub enum System34Marker {
    /// Index address mark, `C2 C2 C2 FC`.
    Iam,
    /// ID address mark opening a sector header, `A1 A1 A1 FE`.
    Idam,
    /// Data address mark, `A1 A1 A1 FB`.
    Dam,
    /// Deleted-data address mark, `A1 A1 A1 F8`.
    Ddam,
}

/// The track layout standard a track is formatted to.
#[derive(Copy, Clone, Debug, PartialEq, Eq, Structural)]
pub enum System34Standard {
    Ibm,
}

/// A typed element of a track's structure timeline.
#[derive(Copy, Clone, Debug, PartialEq, Eq, Structural)]
pub enum System34Element {
    /// An address mark; for an IDAM whose header could be read, the flag
    /// holds whether the header CRC was valid.
    Marker(System34Marker, Option<bool>),
    /// A sector data field, spanning its mark, payload and CRC.
    Data { address_crc: bool, data_crc: bool, deleted: bool },
}

impl System34Element {
    /// Whether this element carries sector data.
    pub open spec fn spec_is_sector(&self) -> bool {
        self is Data
    }

    /// Whether this element carries sector data.
    pub fn is_sector(&self) -> (r: bool)
        ensures
            r == self.spec_is_sector(),
    {
        match self {
            System34Element::Data { .. } => true,
            _ => false,
        }
    }
}

/// One element of the structure timeline, anchored at cell indices:
/// `start` inclusive, `end` exclusive. IDAM elements carry the header
/// address they decoded; data elements inherit it from their IDAM.
#[derive(Copy, Clone, Debug, PartialEq, Eq, Structural)]
pub struct DiskStructureMetadataItem {
    pub elem_type: System34Element,
    pub start: usize,
    pub end: usize,
    pub chsn: Option<DiskChsn>,
}

/// The ordered structure timeline of one bitstream track. It is derived
/// state: always regenerated from the cell stream, never edited.
pub struct DiskStructureMetadata {
    pub items: Vec<DiskStructureMetadataItem>,
}

/// The sector addresses of the IDAM elements of `items`, in track order,
/// duplicates kept.
pub open spec fn spec_sector_ids(items: Seq<DiskStructureMetadataItem>) -> Seq<DiskChsn>
    decreases items.len(),
{
    if items.len() == 0 {
        Seq::empty()
    } else {
        let rest = spec_sector_ids(items.drop_last());
        let it = items.last();
        if it.elem_type matches System34Element::Marker(System34Marker::Idam, _)
            && it.chsn is Some {
            rest.push(it.chsn->0)
        } else {
            rest
        }
    }
}

impl DiskStructureMetadata {
    pub fn new(items: Vec<DiskStructureMetadataItem>) -> (r: DiskStructureMetadata)
        ensures
            r.items == items,
    {
        DiskStructureMetadata { items }
    }

    /// Collects the sector address of every IDAM element, in track order.
    pub fn get_sector_ids(&self) -> (r: Vec<DiskChsn>)
        ensures
            r@ == spec_sector_ids(self.items@),
    {
        let mut out: Vec<DiskChsn> = Vec::new();
        let mut i: usize = 0;
        while i < self.items.len()
            invariant
                i <= self.items@.len(),
                out@ == spec_sector_ids(self.items@.take(i as int)),
            decreases self.items@.len() - i,
        {
            let it = &self.items[i];
            match (it.elem_type, it.chsn) {
                (System34Element::Marker(System34Marker::Idam, _), Some(chsn)) => {
                    out.push(chsn);
                },
                _ => {},
            }
            proof {
                assert(self.items@.take(i + 1).drop_last() =~= self.items@.take(i as int));
                assert(self.items@.take(i + 1).last() == self.items@[i as int]);
            }
            i += 1;
        }
        proof {
            assert(self.items@.take(self.items@.len() as int) =~= self.items@);
        }
        out
    }
}

/// The 16-cell synchronisation pattern of a marker byte: `A1` with clock
/// `0A` for the IDAM/DAM/DDAM family, `C2` with clock `14` for the IAM.
/// Both clock patterns are deliberately illegal, so the patterns cannot
/// arise from ordinary data.
pub open spec fn sync_word(m: System34Marker) -> u16 {
    match m {
        System34Marker::Iam => 0x5224,
        _ => 0x4489,
    }
}

/// Bit `k` of a 16-bit word, 0 being the most significant.
pub open spec fn word_bit(w: u16, k: int) -> bool {
    (w >> ((15 - k) as u16)) & 1 == 1
}

/// The data byte that closes a marker and names its kind.
pub open spec fn marker_data_byte(m: System34Marker) -> u8 {
    match m {
        System34Marker::Iam => 0xFC,
        System34Marker::Idam => 0xFE,
        System34Marker::Dam => 0xFB,
        System34Marker::Ddam => 0xF8,
    }
}

/// The 48 cells of three repeats of the sync pattern of marker `m`.
pub open spec fn sync_pattern(m: System34Marker) -> Seq<bool> {
    Seq::new(48, |k: int| word_bit(sync_word(m), k % 16))
}

/// Whether the 64 cells at `off` hold the marker `m`: three repeats of its
/// sync pattern followed by its data byte. Matching is done on the cell
/// stream itself, so discovery does not depend on a correct clock phase.
pub open spec fn is_marker_at(cells: Seq<bool>, off: int, m: System34Marker) -> bool {
    &&& 0 <= off
    &&& off + 64 <= cells.len()
    &&& cells.subrange(off, off + 48) == sync_pattern(m)
    &&& decoded_byte(cells, off + 48) == marker_data_byte(m)
}

/// The marker starting at `off`, if any.
pub open spec fn marker_at(cells: Seq<bool>, off: int) -> Option<System34Marker> {
    if is_marker_at(cells, off, System34Marker::Iam) {
        Some(System34Marker::Iam)
    } else if is_marker_at(cells, off, System34Marker::Idam) {
        Some(System34Marker::Idam)
    } else if is_marker_at(cells, off, System34Marker::Dam) {
        Some(System34Marker::Dam)
    } else if is_marker_at(cells, off, System34Marker::Ddam) {
        Some(System34Marker::Ddam)
    } else {
        None
    }
}

/// Every marker of the cell stream below offset `n`, in ascending order.
pub open spec fn scan_markers_upto(cells: Seq<bool>, n: int) -> Seq<(System34Marker, usize)>
    decreases n,
{
    if n <= 0 {
        Seq::empty()
    } else {
        let rest = scan_markers_upto(cells, n - 1);
        match marker_at(cells, n - 1) {
            Some(m) => rest.push((m, (n - 1) as usize)),
            None => rest,
        }
    }
}

/// Every marker of the cell stream, in ascending order of offset.
pub open spec fn spec_scan_markers(cells: Seq<bool>) -> Seq<(System34Marker, usize)> {
    scan_markers_upto(cells, cells.len() as int)
}

/// Every entry of a marker scan is a real marker that fits the stream, and
/// the offsets ascend strictly.
pub proof fn lemma_scan_markers_sound(cells: Seq<bool>, n: int)
    requires
        n <= usize::MAX,
    ensures
        forall|i: int|
            0 <= i < scan_markers_upto(cells, n).len() ==> {
                let (m, off) = #[trigger] scan_markers_upto(cells, n)[i];
                &&& marker_at(cells, off as int) == Some(m)
                &&& off + 64 <= cells.len()
                &&& off < n
            },
        forall|i: int, j: int|
            0 <= i < j < scan_markers_upto(cells, n).len()
                ==> #[trigger] scan_markers_upto(cells, n)[i].1
                < #[trigger] scan_markers_upto(cells, n)[j].1,
    decreases n,
{
    if n > 0 {
        lemma_scan_markers_sound(cells, n - 1);
        let rest = scan_markers_upto(cells, n - 1);
        let cur = scan_markers_upto(cells, n);
        assert forall|i: int| 0 <= i < cur.len() implies {
            let (m, off) = #[trigger] cur[i];
            &&& marker_at(cells, off as int) == Some(m)
            &&& off + 64 <= cells.len()
            &&& off < n
        } by {
            if i < rest.len() {
                assert(cur[i] == rest[i]);
            } else {
                let mm = marker_at(cells, n - 1)->0;
                assert(cur[i] == (mm, (n - 1) as usize));
                assert(is_marker_at(cells, n - 1, mm));
            }
        }
        assert forall|i: int, j: int| 0 <= i < j < cur.len() implies #[trigger] cur[i].1
            < #[trigger] cur[j].1 by {
            if j < rest.len() {
                assert(cur[i] == rest[i] && cur[j] == rest[j]);
            } else {
                assert(cur[i] == rest[i]);
                assert(cur[j].1 == n - 1);
                let (m0, off0) = rest[i];
                assert(marker_at(cells, off0 as int) == Some(m0) && off0 < n - 1);
            }
        }
    }
}

/// The sector address decoded from the four header bytes that follow an
/// IDAM at cell `off`.
pub open spec fn idam_chsn(cells: Seq<bool>, off: int) -> DiskChsn {
    DiskChsn {
        c: decoded_byte(cells, off + 64) as u16,
        h: decoded_byte(cells, off + 80),
        s: decoded_byte(cells, off + 96),
        n: decoded_byte(cells, off + 112),
    }
}

/// A big-endian 16-bit value from two bytes.
pub open spec fn be16(hi: u8, lo: u8) -> u16 {
    ((hi as u16) * 256 + (lo as u16)) as u16
}

/// Whether the CRC stored behind the header of the IDAM at `off` matches
/// the CRC of its four marker bytes and four header bytes.
pub open spec fn idam_crc_ok(cells: Seq<bool>, off: int) -> bool {
    spec_crc_ccitt(decode_bytes(cells, off, 8), 0xFFFF) == be16(
        decoded_byte(cells, off + 128),
        decoded_byte(cells, off + 144),
    )
}

/// Whether the CRC stored behind the `size`-byte payload of the data field
/// at `off` matches the CRC of its four marker bytes and the payload.
pub open spec fn data_crc_ok(cells: Seq<bool>, off: int, size: int) -> bool {
    spec_crc_ccitt(decode_bytes(cells, off, (4 + size) as nat), 0xFFFF) == be16(
        decoded_byte(cells, off + 16 * (4 + size)),
        decoded_byte(cells, off + 16 * (5 + size)),
    )
}

/// One step of the metadata walk: folds the marker `m` at cell `off` into
/// the item list, threading the most recent unconsumed IDAM so that a data
/// field inherits its address and address-CRC verdict. Fields that do not
/// fit the stream are skipped; a data mark without a usable IDAM, or with
/// a size code out of range, is recorded as a bare marker.
pub open spec fn meta_step(
    cells: Seq<bool>,
    items: Seq<DiskStructureMetadataItem>,
    pending: Option<(DiskChsn, bool)>,
    m: System34Marker,
    off: int,
) -> (Seq<DiskStructureMetadataItem>, Option<(DiskChsn, bool)>) {
    match m {
        System34Marker::Iam => {
            if off + 64 <= cells.len() {
                (
                    items.push(
                        DiskStructureMetadataItem {
                            elem_type: System34Element::Marker(System34Marker::Iam, None),
                            start: off as usize,
                            end: (off + 64) as usize,
                            chsn: None,
                        },
                    ),
                    pending,
                )
            } else {
                (items, pending)
            }
        },
        System34Marker::Idam => {
            if off + 160 <= cells.len() {
                let chsn = idam_chsn(cells, off);
                let ok = idam_crc_ok(cells, off);
                (
                    items.push(
                        DiskStructureMetadataItem {
                            elem_type: System34Element::Marker(System34Marker::Idam, Some(ok)),
                            start: off as usize,
                            end: (off + 160) as usize,
                            chsn: Some(chsn),
                        },
                    ),
                    Some((chsn, ok)),
                )
            } else {
                (items, None::<(DiskChsn, bool)>)
            }
        },
        _ => {
            let deleted = m is Ddam;
            if pending is Some {
                let (chsn, aok) = pending->0;
                let size = spec_n_to_bytes(chsn.n) as int;
                if chsn.n < 8 && off + 16 * (6 + size) <= cells.len() {
                    (
                        items.push(
                            DiskStructureMetadataItem {
                                elem_type: System34Element::Data {
                                    address_crc: aok,
                                    data_crc: data_crc_ok(cells, off, size),
                                    deleted,
                                },
                                start: off as usize,
                                end: (off + 16 * (6 + size)) as usize,
                                chsn: Some(chsn),
                            },
                        ),
                        None::<(DiskChsn, bool)>,
                    )
                } else if off + 64 <= cells.len() {
                    (
                        items.push(
                            DiskStructureMetadataItem {
                                elem_type: System34Element::Marker(m, None),
                                start: off as usize,
                                end: (off + 64) as usize,
                                chsn: None,
                            },
                        ),
                        None::<(DiskChsn, bool)>,
                    )
                } else {
                    (items, None::<(DiskChsn, bool)>)
                }
            } else {
                if off + 64 <= cells.len() {
                    (
                        items.push(
                            DiskStructureMetadataItem {
                                elem_type: System34Element::Marker(m, None),
                                start: off as usize,
                                end: (off + 64) as usize,
                                chsn: None,
                            },
                        ),
                        None::<(DiskChsn, bool)>,
                    )
                } else {
                    (items, None::<(DiskChsn, bool)>)
                }
            }
        },
    }
}

/// The metadata walk over the first `n` markers: the items emitted and the
/// IDAM still awaiting its data field.
pub open spec fn scan_meta_upto(
    cells: Seq<bool>,
    markers: Seq<(System34Marker, usize)>,
    n: int,
) -> (Seq<DiskStructureMetadataItem>, Option<(DiskChsn, bool)>)
    decreases n,
{
    if n <= 0 {
        (Seq::empty(), None::<(DiskChsn, bool)>)
    } else {
        let prev = scan_meta_upto(cells, markers, n - 1);
        meta_step(cells, prev.0, prev.1, markers[n - 1].0, markers[n - 1].1 as int)
    }
}

/// The metadata timeline derived from `markers` over `cells`.
pub open spec fn spec_scan_metadata(
    cells: Seq<bool>,
    markers: Seq<(System34Marker, usize)>,
) -> Seq<DiskStructureMetadataItem> {
    scan_meta_upto(cells, markers, markers.len() as int).0
}

/// `clock` with the region `[off, end)` re-marked: cells at an even
/// distance from `off` become clock positions, the others data positions.
pub open spec fn apply_clock_region(clock: Seq<bool>, off: int, end: int) -> Seq<bool> {
    Seq::new(
        clock.len(),
        |i: int|
            if off <= i < end {
                (i - off) % 2 == 0
            } else {
                clock[i]
            },
    )
}

/// The clock map after anchoring it at each of the first `n` markers: each
/// marker governs the cells from its own offset up to the next marker's
/// offset, or to the end of the stream for the last one.
pub open spec fn clock_map_upto(
    clock0: Seq<bool>,
    markers: Seq<(System34Marker, usize)>,
    n: int,
    stream_len: int,
) -> Seq<bool>
    decreases n,
{
    if n <= 0 {
        clock0
    } else {
        let prev = clock_map_upto(clock0, markers, n - 1, stream_len);
        let off = markers[n - 1].1 as int;
        let end = if n < markers.len() && (markers[n].1 as int) < stream_len {
            markers[n].1 as int
        } else {
            stream_len
        };
        apply_clock_region(prev, off, end)
    }
}

/// The 64 cells of the marker `m` as written to a stream: three sync
/// repeats with their deliberately illegal clock patterns, then the data
/// byte encoded normally after the sync's final data bit.
pub open spec fn marker_cells(m: System34Marker) -> Seq<bool> {
    Seq::new(
        64,
        |i: int|
            if i < 48 {
                sync_pattern(m)[i]
            } else {
                encoded_cell(
                    bits_of_bytes(seq![marker_data_byte(m)]),
                    word_bit(sync_word(m), 15),
                    i - 48,
                )
            },
    )
}

/// `cells` with the marker `m` written over the 64 cells at `off`;
/// unchanged when the marker does not fit.
pub open spec fn write_marker(cells: Seq<bool>, off: int, m: System34Marker) -> Seq<bool> {
    if 0 <= off && off + 64 <= cells.len() {
        Seq::new(
            cells.len(),
            |i: int|
                if off <= i < off + 64 {
                    marker_cells(m)[i - off]
                } else {
                    cells[i]
                },
        )
    } else {
        cells
    }
}

/// `cells` after writing the first `n` markers in order.
pub open spec fn set_markers_upto(
    cells0: Seq<bool>,
    markers: Seq<(System34Marker, usize)>,
    n: int,
) -> Seq<bool>
    decreases n,
{
    if n <= 0 {
        cells0
    } else {
        write_marker(
            set_markers_upto(cells0, markers, n - 1),
            markers[n - 1].1 as int,
            markers[n - 1].0,
        )
    }
}

/// `n` repetitions of the byte `b`.
pub open spec fn repeat_byte(b: u8, n: nat) -> Seq<u8> {
    Seq::new(n, |i: int| b)
}

/// The four bytes of the marker `m`.
pub open spec fn spec_marker_bytes(m: System34Marker) -> Seq<u8> {
    match m {
        System34Marker::Iam => seq![0xC2u8, 0xC2u8, 0xC2u8, 0xFCu8],
        System34Marker::Idam => seq![0xA1u8, 0xA1u8, 0xA1u8, 0xFEu8],
        System34Marker::Dam => seq![0xA1u8, 0xA1u8, 0xA1u8, 0xFBu8],
        System34Marker::Ddam => seq![0xA1u8, 0xA1u8, 0xA1u8, 0xF8u8],
    }
}

/// A sector header as formatted: IDAM bytes, the four address bytes, and
/// the CRC of those eight, big-endian.
pub open spec fn idam_block(chsn: DiskChsn) -> Seq<u8> {
    let hdr = spec_marker_bytes(System34Marker::Idam) + seq![
        chsn.c as u8,
        chsn.h,
        chsn.s,
        chsn.n,
    ];
    let crc = spec_crc_ccitt(hdr, 0xFFFF);
    hdr + seq![(crc >> 8u16) as u8, (crc & 0xFF) as u8]
}

/// A sector data field as formatted: DAM bytes, the fill payload, and the
/// CRC of mark plus payload, big-endian.
pub open spec fn dam_block(chsn: DiskChsn, fill: u8) -> Seq<u8> {
    let pre = spec_marker_bytes(System34Marker::Dam) + repeat_byte(
        fill,
        spec_n_to_bytes(chsn.n) as nat,
    );
    let crc = spec_crc_ccitt(pre, 0xFFFF);
    pre + seq![(crc >> 8u16) as u8, (crc & 0xFF) as u8]
}

/// One formatted sector: sync, header, gap2, sync, data field, gap3.
pub open spec fn sector_block(chsn: DiskChsn, fill: u8, gap3: nat) -> Seq<u8> {
    repeat_byte(0x00, 12) + idam_block(chsn) + repeat_byte(0x4E, 22) + repeat_byte(0x00, 12)
        + dam_block(chsn, fill) + repeat_byte(0x4E, gap3)
}

/// The formatted blocks of `sectors`, concatenated in order.
pub open spec fn sectors_bytes(sectors: Seq<DiskChsn>, fill: u8, gap3: nat) -> Seq<u8>
    decreases sectors.len(),
{
    if sectors.len() == 0 {
        Seq::empty()
    } else {
        sectors_bytes(sectors.drop_last(), fill, gap3) + sector_block(sectors.last(), fill, gap3)
    }
}

/// The 146 bytes every formatted track opens with: gap4a, sync, IAM, gap1.
pub open spec fn format_preamble() -> Seq<u8> {
    repeat_byte(0x4E, 80) + repeat_byte(0x00, 12) + spec_marker_bytes(System34Marker::Iam)
        + repeat_byte(0x4E, 50)
}

/// Whether `sectors` formatted with `gap3` fit a track of `cap_bytes`
/// bytes: every size code in range, and the layout no longer than the
/// capacity.
pub open spec fn spec_format_fits(
    sectors: Seq<DiskChsn>,
    fill: u8,
    gap3: nat,
    cap_bytes: nat,
) -> bool {
    &&& forall|i: int| 0 <= i < sectors.len() ==> (#[trigger] sectors[i]).n < 8
    &&& 146 + sectors_bytes(sectors, fill, gap3).len() <= cap_bytes
}

/// The bytes of the formatted track: preamble, sector blocks, and gap4b
/// filling out the capacity.
pub open spec fn spec_format_bytes(
    sectors: Seq<DiskChsn>,
    fill: u8,
    gap3: nat,
    cap_bytes: nat,
) -> Seq<u8> {
    let body = format_preamble() + sectors_bytes(sectors, fill, gap3);
    body + repeat_byte(0x4E, (cap_bytes - body.len()) as nat)
}

/// The cell offsets of the markers a format lays down, in track order:
/// the IAM, then each sector's IDAM and DAM.
pub open spec fn spec_format_markers(sectors: Seq<DiskChsn>, fill: u8, gap3: nat) -> Seq<
    (System34Marker, usize),
>
    decreases sectors.len(),
{
    if sectors.len() == 0 {
        seq![(System34Marker::Iam, 1472usize)]
    } else {
        let base = 146 + sectors_bytes(sectors.drop_last(), fill, gap3).len();
        spec_format_markers(sectors.drop_last(), fill, gap3) + seq![
            (System34Marker::Idam, ((base + 12) * 16) as usize),
            (System34Marker::Dam, ((base + 56) * 16) as usize),
        ]
    }
}

/// Every prefix of the sector blocks is no longer than the whole.
proof fn lemma_sectors_prefix_le(sectors: Seq<DiskChsn>, fill: u8, gap3: nat, i: int)
    requires
        0 <= i <= sectors.len(),
    ensures
        sectors_bytes(sectors.take(i), fill, gap3).len() <= sectors_bytes(
            sectors,
            fill,
            gap3,
        ).len(),
    decreases sectors.len() - i,
{
    if i == sectors.len() {
        assert(sectors.take(i) =~= sectors);
    } else {
        lemma_sectors_prefix_le(sectors, fill, gap3, i + 1);
        assert(sectors.take(i + 1).drop_last() =~= sectors.take(i));
        assert(sectors_bytes(sectors.take(i + 1), fill, gap3) == sectors_bytes(
            sectors.take(i),
            fill,
            gap3,
        ) + sector_block(sectors.take(i + 1).last(), fill, gap3));
    }
}

/// A non-empty sector list formats to at least one block, which is never
/// shorter than its fixed fields plus its gap3.
proof fn lemma_sector_block_min(sectors: Seq<DiskChsn>, fill: u8, gap3: nat)
    requires
        sectors.len() > 0,
    ensures
        sectors_bytes(sectors, fill, gap3).len() >= 62 + gap3,
{
    assert(sectors_bytes(sectors, fill, gap3).len() == sectors_bytes(
        sectors.drop_last(),
        fill,
        gap3,
    ).len() + sector_block(sectors.last(), fill, gap3).len());
}

/// Every marker a fitting format lays down lies wholly within the
/// formatted track's cells.
pub proof fn lemma_format_markers_fit(sectors: Seq<DiskChsn>, fill: u8, gap3: nat, cap: nat)
    requires
        146 + sectors_bytes(sectors, fill, gap3).len() <= cap,
        16 * cap <= usize::MAX,
    ensures
        forall|t: int|
            0 <= t < spec_format_markers(sectors, fill, gap3).len() ==> (
            #[trigger] spec_format_markers(sectors, fill, gap3)[t]).1 + 64 <= 16 * cap,
    decreases sectors.len(),
{
    let mks = spec_format_markers(sectors, fill, gap3);
    if sectors.len() == 0 {
        assert(mks[0].1 == 1472);
    } else {
        let rest = sectors.drop_last();
        assert(sectors_bytes(sectors, fill, gap3) == sectors_bytes(rest, fill, gap3)
            + sector_block(sectors.last(), fill, gap3));
        lemma_format_markers_fit(rest, fill, gap3, cap);
        let base = 146 + sectors_bytes(rest, fill, gap3).len();
        assert(sector_block(sectors.last(), fill, gap3).len() >= 62);
        assert(base + 62 <= cap);
        let prev = spec_format_markers(rest, fill, gap3);
        assert forall|t: int| 0 <= t < mks.len() implies (#[trigger] mks[t]).1 + 64 <= 16 * cap by {
            if t < prev.len() {
                assert(mks[t] == prev[t]);
            } else {
                assert(mks[t] == (System34Marker::Idam, ((base + 12) * 16) as usize) || mks[t]
                    == (System34Marker::Dam, ((base + 56) * 16) as usize));
            }
        }
    }
}

/// A format's marker list holds the IAM and then one IDAM and DAM pair
/// per sector.
pub proof fn lemma_format_markers_len(sectors: Seq<DiskChsn>, fill: u8, gap3: nat)
    ensures
        spec_format_markers(sectors, fill, gap3).len() == 1 + 2 * sectors.len(),
        spec_format_markers(sectors, fill, gap3)[0] == (System34Marker::Iam, 1472usize),
    decreases sectors.len(),
{
    if sectors.len() > 0 {
        lemma_format_markers_len(sectors.drop_last(), fill, gap3);
    }
}

/// Sector `i`'s IDAM and DAM stand at the fixed offsets of its block.
pub proof fn lemma_format_marker_pair(sectors: Seq<DiskChsn>, fill: u8, gap3: nat, i: int)
    requires
        0 <= i < sectors.len(),
    ensures
        ({
            let base = 146 + sectors_bytes(sectors.take(i), fill, gap3).len();
            let mks = spec_format_markers(sectors, fill, gap3);
            &&& mks[1 + 2 * i] == (System34Marker::Idam, ((base + 12) * 16) as usize)
            &&& mks[2 + 2 * i] == (System34Marker::Dam, ((base + 56) * 16) as usize)
        }),
    decreases sectors.len(),
{
    let rest = sectors.drop_last();
    lemma_format_markers_len(sectors, fill, gap3);
    lemma_format_markers_len(rest, fill, gap3);
    if i == sectors.len() - 1 {
        assert(sectors.take(i) =~= rest);
    } else {
        lemma_format_marker_pair(rest, fill, gap3, i);
        assert(sectors.take(i) =~= rest.take(i));
        let mks = spec_format_markers(sectors, fill, gap3);
        let prev = spec_format_markers(rest, fill, gap3);
        assert(mks[1 + 2 * i] == prev[1 + 2 * i]);
        assert(mks[2 + 2 * i] == prev[2 + 2 * i]);
    }
}

/// Every marker a fitting format lays down starts at a byte boundary at
/// least 64 cells before the next one.
#[verifier::rlimit(100)]
pub proof fn lemma_format_marker_gap(
    sectors: Seq<DiskChsn>,
    fill: u8,
    gap3: nat,
    cap: nat,
    j: int,
)
    requires
        146 + sectors_bytes(sectors, fill, gap3).len() <= cap,
        16 * cap <= usize::MAX,
        0 <= j < spec_format_markers(sectors, fill, gap3).len() - 1,
    ensures
        spec_format_markers(sectors, fill, gap3)[j].1 + 64 <= spec_format_markers(
            sectors,
            fill,
            gap3,
        )[j + 1].1,
{
    lemma_format_markers_len(sectors, fill, gap3);
    let mks = spec_format_markers(sectors, fill, gap3);
    if j % 2 == 0 {
        // a DAM (or the IAM) against the next sector's IDAM
        let i = j / 2;
        lemma_format_marker_pair(sectors, fill, gap3, i);
        lemma_sectors_prefix_le(sectors, fill, gap3, i + 1);
        let base = 146 + sectors_bytes(sectors.take(i), fill, gap3).len();
        assert(sectors.take(i + 1).drop_last() =~= sectors.take(i));
        assert(sectors_bytes(sectors.take(i + 1), fill, gap3) == sectors_bytes(
            sectors.take(i),
            fill,
            gap3,
        ) + sector_block(sectors.take(i + 1).last(), fill, gap3));
        assert(base + 62 <= cap);
        if j > 0 {
            lemma_format_marker_pair(sectors, fill, gap3, i - 1);
            lemma_sectors_prefix_le(sectors, fill, gap3, i);
            assert(sectors.take(i).drop_last() =~= sectors.take(i - 1));
            assert(sectors_bytes(sectors.take(i), fill, gap3) == sectors_bytes(
                sectors.take(i - 1),
                fill,
                gap3,
            ) + sector_block(sectors.take(i).last(), fill, gap3));
            let base0 = 146 + sectors_bytes(sectors.take(i - 1), fill, gap3).len();
            assert(base0 + 62 <= base);
            assert(mks[j] == (System34Marker::Dam, ((base0 + 56) * 16) as usize));
        }
    } else {
        // a sector's IDAM against its own DAM
        let i = (j - 1) / 2;
        lemma_format_marker_pair(sectors, fill, gap3, i);
        lemma_sectors_prefix_le(sectors, fill, gap3, i + 1);
        let base = 146 + sectors_bytes(sectors.take(i), fill, gap3).len();
        assert(sectors.take(i + 1).drop_last() =~= sectors.take(i));
        assert(sectors_bytes(sectors.take(i + 1), fill, gap3) == sectors_bytes(
            sectors.take(i),
            fill,
            gap3,
        ) + sector_block(sectors.take(i + 1).last(), fill, gap3));
        assert(base + 62 <= cap);
    }
}

/// Offsets that ascend pairwise ascend across any distance.
proof fn lemma_marker_offsets_chain(mks: Seq<(System34Marker, usize)>, j1: int, j2: int)
    requires
        forall|j: int| 0 <= j < mks.len() - 1 ==> (#[trigger] mks[j]).1 + 64 <= mks[j + 1].1,
        0 <= j1 < j2 < mks.len(),
    ensures
        mks[j1].1 + 64 <= mks[j2].1,
    decreases j2 - j1,
{
    if j1 + 1 < j2 {
        lemma_marker_offsets_chain(mks, j1 + 1, j2);
    }
}

/// Writing a list of markers whose offsets fit and ascend 64 apart
/// leaves each marker's 64 cells holding its pattern, and every other
/// cell untouched.
pub proof fn lemma_set_markers_effect(
    cells0: Seq<bool>,
    mks: Seq<(System34Marker, usize)>,
    n: int,
)
    requires
        0 <= n <= mks.len(),
        forall|j: int| 0 <= j < mks.len() ==> (#[trigger] mks[j]).1 + 64 <= cells0.len(),
        forall|j: int| 0 <= j < mks.len() - 1 ==> (#[trigger] mks[j]).1 + 64 <= mks[j + 1].1,
    ensures
        set_markers_upto(cells0, mks, n).len() == cells0.len(),
        forall|j: int|
            0 <= j < n ==> #[trigger] set_markers_upto(cells0, mks, n).subrange(
                mks[j].1 as int,
                mks[j].1 + 64,
            ) == marker_cells(mks[j].0),
        forall|i: int|
            0 <= i < cells0.len() && (forall|j: int|
                0 <= j < n ==> !((#[trigger] mks[j]).1 <= i < mks[j].1 + 64))
                ==> #[trigger] set_markers_upto(cells0, mks, n)[i] == cells0[i],
    decreases n,
{
    if n > 0 {
        lemma_set_markers_effect(cells0, mks, n - 1);
        let prev = set_markers_upto(cells0, mks, n - 1);
        let cur = set_markers_upto(cells0, mks, n);
        let off = mks[n - 1].1 as int;
        assert(cur == write_marker(prev, off, mks[n - 1].0));
        assert forall|j: int| 0 <= j < n implies #[trigger] cur.subrange(
            mks[j].1 as int,
            mks[j].1 + 64,
        ) == marker_cells(mks[j].0) by {
            if j == n - 1 {
                assert(cur.subrange(off, off + 64) =~= marker_cells(mks[j].0));
            } else {
                lemma_marker_offsets_chain(mks, j, n - 1);
                assert(prev.subrange(mks[j].1 as int, mks[j].1 + 64) == marker_cells(mks[j].0));
                assert(cur.subrange(mks[j].1 as int, mks[j].1 + 64) =~= prev.subrange(
                    mks[j].1 as int,
                    mks[j].1 + 64,
                ));
            }
        }
        assert forall|i: int|
            0 <= i < cells0.len() && (forall|j: int|
                0 <= j < n ==> !((#[trigger] mks[j]).1 <= i < mks[j].1 + 64)) implies
            #[trigger] cur[i] == cells0[i] by {
            assert(!(mks[n - 1].1 <= i < mks[n - 1].1 + 64));
            assert(cur[i] == prev[i]);
        }
    }
}

/// The three sync repeats of a marker decode to its marker byte `A1` or
/// `C2`, and its closing cells decode to its data byte: a written marker
/// reads back as its four bytes.
pub proof fn lemma_marker_cells_decode(m: System34Marker, t: int)
    requires
        0 <= t < 4,
    ensures
        t < 3 ==> decoded_byte(marker_cells(m), 16 * t) == (if m is Iam {
            0xC2u8
        } else {
            0xA1u8
        }),
        t == 3 ==> decoded_byte(marker_cells(m), 16 * t) == marker_data_byte(m),
{
    let mc = marker_cells(m);
    if t < 3 {
        let b: u8 = if m is Iam {
            0xC2
        } else {
            0xA1
        };
        let w = sync_word(m);
        assert forall|k: int| 0 <= k < 8 implies packed_bit(mc, 16 * t + 2 * k + 1) == (
        if byte_bit(b, k) {
            1u8
        } else {
            0u8
        }) by {
            let i = 16 * t + 2 * k + 1;
            assert(mc[i] == sync_pattern(m)[i]);
            assert(sync_pattern(m)[i] == word_bit(w, i % 16));
            assert(i % 16 == 2 * k + 1);
            let k16 = k as u16;
            assert((((0x4489u16 >> ((15 - (2 * k16 + 1)) as u16)) & 1 == 1) == ((0xA1u8 >> ((7
                - k16) as u8)) & 1 == 1)) && (((0x5224u16 >> ((15 - (2 * k16 + 1)) as u16)) & 1
                == 1) == ((0xC2u8 >> ((7 - k16) as u8)) & 1 == 1))) by (bit_vector)
                requires
                    k16 < 8,
            ;
            assert(word_bit(0x4489u16, 2 * k + 1) == byte_bit(0xA1u8, k));
            assert(word_bit(0x5224u16, 2 * k + 1) == byte_bit(0xC2u8, k));
        }
        crate::mfm::lemma_bits_reassemble(b);
    } else {
        let b = marker_data_byte(m);
        let d = bits_of_bytes(seq![b]);
        assert forall|k: int| 0 <= k < 8 implies packed_bit(mc, 48 + 2 * k + 1) == (if byte_bit(
            b,
            k,
        ) {
            1u8
        } else {
            0u8
        }) by {
            let i = 48 + 2 * k + 1;
            assert(mc[i] == encoded_cell(d, word_bit(sync_word(m), 15), i - 48));
            assert((i - 48) % 2 == 1 && (i - 48) / 2 == k);
            assert(d[k] == byte_bit(b, k));
        }
        crate::mfm::lemma_bits_reassemble(b);
    }
}

/// A byte decoded inside a 64-cell window equals the same byte decoded
/// from the window's own cells.
proof fn lemma_decoded_byte_of_window(cells: Seq<bool>, off: int, w: Seq<bool>, t: int)
    requires
        w.len() == 64,
        0 <= off,
        off + 64 <= cells.len(),
        cells.subrange(off, off + 64) == w,
        0 <= t < 4,
    ensures
        decoded_byte(cells, off + 16 * t) == decoded_byte(w, 16 * t),
{
    assert forall|o: int| 0 <= o < 64 implies cells[off + o] == w[o] by {
        assert(cells.subrange(off, off + 64)[o] == cells[off + o]);
    }
    assert(packed_bit(cells, off + 16 * t + 1) == packed_bit(w, 16 * t + 1));
    assert(packed_bit(cells, off + 16 * t + 3) == packed_bit(w, 16 * t + 3));
    assert(packed_bit(cells, off + 16 * t + 5) == packed_bit(w, 16 * t + 5));
    assert(packed_bit(cells, off + 16 * t + 7) == packed_bit(w, 16 * t + 7));
    assert(packed_bit(cells, off + 16 * t + 9) == packed_bit(w, 16 * t + 9));
    assert(packed_bit(cells, off + 16 * t + 11) == packed_bit(w, 16 * t + 11));
    assert(packed_bit(cells, off + 16 * t + 13) == packed_bit(w, 16 * t + 13));
    assert(packed_bit(cells, off + 16 * t + 15) == packed_bit(w, 16 * t + 15));
}

/// Byte `t` of sector `i`'s block, read inside the whole concatenation
/// of blocks.
proof fn lemma_sector_block_bytes_at(sectors: Seq<DiskChsn>, fill: u8, gap3: nat, i: int, t: int)
    requires
        0 <= i < sectors.len(),
        0 <= t < sector_block(sectors[i], fill, gap3).len(),
    ensures
        sectors_bytes(sectors, fill, gap3)[sectors_bytes(sectors.take(i), fill, gap3).len() + t]
            == sector_block(sectors[i], fill, gap3)[t],
    decreases sectors.len(),
{
    if i == sectors.len() - 1 {
        assert(sectors.take(i) =~= sectors.drop_last());
    } else {
        let dl = sectors.drop_last();
        lemma_sector_block_bytes_at(dl, fill, gap3, i, t);
        assert(sectors.take(i) =~= dl.take(i));
        assert(dl[i] == sectors[i]);
        assert(dl.take(i + 1).drop_last() =~= dl.take(i));
        assert(sectors_bytes(dl.take(i + 1), fill, gap3) == sectors_bytes(dl.take(i), fill, gap3)
            + sector_block(dl[i], fill, gap3));
        lemma_sectors_prefix_le(dl, fill, gap3, i + 1);
    }
}

/// A fitting format fills its capacity exactly.
proof fn lemma_format_bytes_len(sectors: Seq<DiskChsn>, fill: u8, gap3: nat, cap: nat)
    requires
        146 + sectors_bytes(sectors, fill, gap3).len() <= cap,
    ensures
        spec_format_bytes(sectors, fill, gap3, cap).len() == cap,
{
}

/// The cells of a freshly formatted track: the synthesised bytes
/// encoded to MFM and the markers written over them with their illegal
/// clock patterns.
pub open spec fn spec_format_cells(
    sectors: Seq<DiskChsn>,
    fill: u8,
    gap3: nat,
    cap: nat,
) -> Seq<bool> {
    let tb = spec_format_bytes(sectors, fill, gap3, cap);
    let mks = spec_format_markers(sectors, fill, gap3);
    set_markers_upto(encode_cells(bits_of_bytes(tb), false), mks, mks.len() as int)
}

/// Earlier prefixes of the blocks are never longer than later ones.
proof fn lemma_sectors_prefix_mono(sectors: Seq<DiskChsn>, fill: u8, gap3: nat, a: int, b: int)
    requires
        0 <= a <= b <= sectors.len(),
    ensures
        sectors_bytes(sectors.take(a), fill, gap3).len() <= sectors_bytes(
            sectors.take(b),
            fill,
            gap3,
        ).len(),
{
    assert(sectors.take(b).take(a) =~= sectors.take(a));
    lemma_sectors_prefix_le(sectors.take(b), fill, gap3, a);
}

/// Every block a fitting format lays down starts at least 62 bytes
/// before the capacity runs out.
proof fn lemma_block_base_bound(sectors: Seq<DiskChsn>, fill: u8, gap3: nat, cap: nat, i: int)
    requires
        146 + sectors_bytes(sectors, fill, gap3).len() <= cap,
        0 <= i < sectors.len(),
    ensures
        146 + sectors_bytes(sectors.take(i), fill, gap3).len() + 62 <= cap,
{
    lemma_sectors_prefix_le(sectors, fill, gap3, i + 1);
    assert(sectors.take(i + 1).drop_last() =~= sectors.take(i));
    assert(sectors_bytes(sectors.take(i + 1), fill, gap3) == sectors_bytes(
        sectors.take(i),
        fill,
        gap3,
    ) + sector_block(sectors[i], fill, gap3));
    assert(sector_block(sectors[i], fill, gap3).len() >= 62);
}

/// A byte of the formatted track whose sixteen cells no marker covers
/// decodes to the synthesised byte at that position.
#[verifier::rlimit(100)]
proof fn lemma_format_free_byte(sectors: Seq<DiskChsn>, fill: u8, gap3: nat, cap: nat, jb: int)
    requires
        146 + sectors_bytes(sectors, fill, gap3).len() <= cap,
        16 * cap <= usize::MAX,
        0 <= jb < cap,
        forall|j: int|
            0 <= j < spec_format_markers(sectors, fill, gap3).len() ==> ((
            #[trigger] spec_format_markers(sectors, fill, gap3)[j]).1 + 64 <= 16 * jb || 16 * jb
                + 16 <= spec_format_markers(sectors, fill, gap3)[j].1),
    ensures
        decoded_byte(spec_format_cells(sectors, fill, gap3, cap), 16 * jb) == spec_format_bytes(
            sectors,
            fill,
            gap3,
            cap,
        )[jb],
{
    let tb = spec_format_bytes(sectors, fill, gap3, cap);
    let mks = spec_format_markers(sectors, fill, gap3);
    let enc0 = encode_cells(bits_of_bytes(tb), false);
    let cells1 = spec_format_cells(sectors, fill, gap3, cap);
    lemma_format_bytes_len(sectors, fill, gap3, cap);
    assert(enc0.len() == 16 * cap);
    assert forall|j: int| 0 <= j < mks.len() - 1 implies (#[trigger] mks[j]).1 + 64 <= mks[j
        + 1].1 by {
        lemma_format_marker_gap(sectors, fill, gap3, cap, j);
    }
    lemma_format_markers_fit(sectors, fill, gap3, cap);
    lemma_set_markers_effect(enc0, mks, mks.len() as int);
    assert forall|x: int| 16 * jb <= x < 16 * jb + 16 implies #[trigger] cells1[x] == enc0[x] by {
        assert(forall|j: int|
            0 <= j < mks.len() ==> !((#[trigger] mks[j]).1 <= x < mks[j].1 + 64));
    }
    lemma_decoded_byte_agrees(cells1, enc0, 16 * jb);
    lemma_encode_byte_at(tb, false, jb);
}

/// Inside sector `i`'s block, the bytes of the header zone (address and
/// header CRC) and of the data zone (payload and data CRC) are covered
/// by no marker.
#[verifier::rlimit(100)]
proof fn lemma_format_zone_free(
    sectors: Seq<DiskChsn>,
    fill: u8,
    gap3: nat,
    cap: nat,
    i: int,
    jb: int,
)
    requires
        146 + sectors_bytes(sectors, fill, gap3).len() <= cap,
        16 * cap <= usize::MAX,
        0 <= i < sectors.len(),
        ({
            let base = 146 + sectors_bytes(sectors.take(i), fill, gap3).len();
            let size = spec_n_to_bytes(sectors[i].n) as int;
            (base + 16 <= jb < base + 22) || (base + 60 <= jb < base + 62 + size)
        }),
    ensures
        forall|j: int|
            0 <= j < spec_format_markers(sectors, fill, gap3).len() ==> ((
            #[trigger] spec_format_markers(sectors, fill, gap3)[j]).1 + 64 <= 16 * jb || 16 * jb
                + 16 <= spec_format_markers(sectors, fill, gap3)[j].1),
{
    let mks = spec_format_markers(sectors, fill, gap3);
    let base = 146 + sectors_bytes(sectors.take(i), fill, gap3).len();
    let size = spec_n_to_bytes(sectors[i].n) as int;
    lemma_format_markers_len(sectors, fill, gap3);
    lemma_block_base_bound(sectors, fill, gap3, cap, i);
    assert forall|j: int| 0 <= j < mks.len() implies ((#[trigger] mks[j]).1 + 64 <= 16 * jb || 16
        * jb + 16 <= mks[j].1) by {
        if j == 0 {
            assert(mks[0] == (System34Marker::Iam, 1472usize));
        } else {
            let si = (j - 1) / 2;
            assert(j == 1 + 2 * si || j == 2 + 2 * si);
            lemma_format_marker_pair(sectors, fill, gap3, si);
            lemma_block_base_bound(sectors, fill, gap3, cap, si);
            let base_s = 146 + sectors_bytes(sectors.take(si), fill, gap3).len();
            if si < i {
                lemma_sectors_prefix_mono(sectors, fill, gap3, si + 1, i);
                assert(sectors.take(si + 1).drop_last() =~= sectors.take(si));
                assert(sectors_bytes(sectors.take(si + 1), fill, gap3) == sectors_bytes(
                    sectors.take(si),
                    fill,
                    gap3,
                ) + sector_block(sectors[si], fill, gap3));
                assert(sector_block(sectors[si], fill, gap3).len() >= 62);
                assert(base_s + 62 <= base);
            } else if si == i {
                assert(base_s == base);
            } else {
                lemma_sectors_prefix_mono(sectors, fill, gap3, i + 1, si);
                assert(sectors.take(i + 1).drop_last() =~= sectors.take(i));
                assert(sectors_bytes(sectors.take(i + 1), fill, gap3) == sectors_bytes(
                    sectors.take(i),
                    fill,
                    gap3,
                ) + sector_block(sectors[i], fill, gap3));
                assert(sector_block(sectors[i], fill, gap3).len() == 62 + size + gap3);
                assert(base_s >= base + 62 + size + gap3);
            }
        }
    }
}

/// Marker `j` of a fitting format occupies its 64 cells of the
/// formatted track.
#[verifier::rlimit(100)]
proof fn lemma_format_marker_window(sectors: Seq<DiskChsn>, fill: u8, gap3: nat, cap: nat, j: int)
    requires
        146 + sectors_bytes(sectors, fill, gap3).len() <= cap,
        16 * cap <= usize::MAX,
        0 <= j < spec_format_markers(sectors, fill, gap3).len(),
    ensures
        ({
            let cells1 = spec_format_cells(sectors, fill, gap3, cap);
            let mk = spec_format_markers(sectors, fill, gap3)[j];
            &&& cells1.len() == 16 * cap
            &&& mk.1 + 64 <= cells1.len()
            &&& cells1.subrange(mk.1 as int, mk.1 + 64) == marker_cells(mk.0)
        }),
{
    let tb = spec_format_bytes(sectors, fill, gap3, cap);
    let mks = spec_format_markers(sectors, fill, gap3);
    let enc0 = encode_cells(bits_of_bytes(tb), false);
    lemma_format_bytes_len(sectors, fill, gap3, cap);
    assert forall|j2: int| 0 <= j2 < mks.len() - 1 implies (#[trigger] mks[j2]).1 + 64 <= mks[j2
        + 1].1 by {
        lemma_format_marker_gap(sectors, fill, gap3, cap, j2);
    }
    lemma_format_markers_fit(sectors, fill, gap3, cap);
    lemma_set_markers_effect(enc0, mks, mks.len() as int);
}

/// The four bytes of a written marker decode from its own cells.
proof fn lemma_window_marker_bytes(cells: Seq<bool>, off: int, m: System34Marker)
    requires
        0 <= off,
        off + 64 <= cells.len(),
        cells.subrange(off, off + 64) == marker_cells(m),
    ensures
        forall|t: int|
            0 <= t < 4 ==> decoded_byte(cells, off + 16 * t) == #[trigger] spec_marker_bytes(
                m,
            )[t],
{
    assert forall|t: int| 0 <= t < 4 implies decoded_byte(cells, off + 16 * t)
        == #[trigger] spec_marker_bytes(m)[t] by {
        lemma_decoded_byte_of_window(cells, off, marker_cells(m), t);
        lemma_marker_cells_decode(m, t);
    }
}

/// A written marker is recognised by the scanner as itself and as
/// nothing else.
proof fn lemma_window_marker_recognised(cells: Seq<bool>, off: int, m: System34Marker)
    requires
        0 <= off,
        off + 64 <= cells.len(),
        cells.subrange(off, off + 64) == marker_cells(m),
    ensures
        marker_at(cells, off) == Some(m),
{
    lemma_window_marker_bytes(cells, off, m);
    assert(cells.subrange(off, off + 48) =~= sync_pattern(m));
    assert(spec_marker_bytes(m)[3] == marker_data_byte(m));
    assert(off + 48 == off + 16 * 3);
    assert(decoded_byte(cells, off + 48) == marker_data_byte(m));
    assert(word_bit(0x4489u16, 3) != word_bit(0x5224u16, 3)) by {
        assert(((0x4489u16 >> 12u16) & 1 == 1) != ((0x5224u16 >> 12u16) & 1 == 1))
            by (bit_vector);
        assert((15 - 3) as u16 == 12u16);
    }
    assert(sync_pattern(System34Marker::Iam)[3] != sync_pattern(System34Marker::Idam)[3]);
    if m is Iam {
        assert(!is_marker_at(cells, off, System34Marker::Idam));
        assert(!is_marker_at(cells, off, System34Marker::Dam));
        assert(!is_marker_at(cells, off, System34Marker::Ddam));
    } else {
        assert(!is_marker_at(cells, off, System34Marker::Iam));
    }
}

/// The header zone of sector `i` — address bytes and header CRC —
/// decodes to the synthesised header bytes.
#[verifier::rlimit(100)]
#[verifier::spinoff_prover]
proof fn lemma_format_idam_zone_at(
    sectors: Seq<DiskChsn>,
    fill: u8,
    gap3: nat,
    cap: nat,
    i: int,
    t: int,
)
    requires
        146 + sectors_bytes(sectors, fill, gap3).len() <= cap,
        16 * cap <= usize::MAX,
        0 <= i < sectors.len(),
        16 <= t < 22,
    ensures
        decoded_byte(
            spec_format_cells(sectors, fill, gap3, cap),
            16 * (146 + sectors_bytes(sectors.take(i), fill, gap3).len() + t),
        ) == idam_block(sectors[i])[t - 12],
{
    let cells1 = spec_format_cells(sectors, fill, gap3, cap);
    let tb = spec_format_bytes(sectors, fill, gap3, cap);
    let base = 146 + sectors_bytes(sectors.take(i), fill, gap3).len();
    lemma_format_bytes_len(sectors, fill, gap3, cap);
    lemma_block_base_bound(sectors, fill, gap3, cap, i);
    lemma_sectors_prefix_le(sectors, fill, gap3, i + 1);
    assert(sectors.take(i + 1).drop_last() =~= sectors.take(i));
    assert(sectors_bytes(sectors.take(i + 1), fill, gap3) == sectors_bytes(
        sectors.take(i),
        fill,
        gap3,
    ) + sector_block(sectors[i], fill, gap3));
    lemma_sector_block_bytes_at(sectors, fill, gap3, i, t);
    assert(sector_block(sectors[i], fill, gap3)[t] == idam_block(sectors[i])[t - 12]);
    assert(tb[base + t] == sectors_bytes(sectors, fill, gap3)[base - 146 + t]);
    lemma_format_zone_free(sectors, fill, gap3, cap, i, base + t);
    lemma_format_free_byte(sectors, fill, gap3, cap, base + t);
}

/// The data zone of sector `i` — payload and data CRC — decodes to the
/// synthesised data bytes.
#[verifier::rlimit(100)]
#[verifier::spinoff_prover]
proof fn lemma_format_dam_zone_at(
    sectors: Seq<DiskChsn>,
    fill: u8,
    gap3: nat,
    cap: nat,
    i: int,
    t: int,
)
    requires
        146 + sectors_bytes(sectors, fill, gap3).len() <= cap,
        16 * cap <= usize::MAX,
        0 <= i < sectors.len(),
        60 <= t < 62 + spec_n_to_bytes(sectors[i].n),
    ensures
        decoded_byte(
            spec_format_cells(sectors, fill, gap3, cap),
            16 * (146 + sectors_bytes(sectors.take(i), fill, gap3).len() + t),
        ) == dam_block(sectors[i], fill)[t - 56],
{
    let cells1 = spec_format_cells(sectors, fill, gap3, cap);
    let tb = spec_format_bytes(sectors, fill, gap3, cap);
    let base = 146 + sectors_bytes(sectors.take(i), fill, gap3).len();
    let size = spec_n_to_bytes(sectors[i].n) as int;
    lemma_format_bytes_len(sectors, fill, gap3, cap);
    lemma_block_base_bound(sectors, fill, gap3, cap, i);
    lemma_sectors_prefix_le(sectors, fill, gap3, i + 1);
    assert(sectors.take(i + 1).drop_last() =~= sectors.take(i));
    assert(sectors_bytes(sectors.take(i + 1), fill, gap3) == sectors_bytes(
        sectors.take(i),
        fill,
        gap3,
    ) + sector_block(sectors[i], fill, gap3));
    assert(base + 62 + size + gap3 <= cap);
    lemma_sector_block_bytes_at(sectors, fill, gap3, i, t);
    assert(sector_block(sectors[i], fill, gap3)[t] == dam_block(sectors[i], fill)[t - 56]);
    assert(tb[base + t] == sectors_bytes(sectors, fill, gap3)[base - 146 + t]);
    lemma_format_zone_free(sectors, fill, gap3, cap, i, base + t);
    lemma_format_free_byte(sectors, fill, gap3, cap, base + t);
}

/// The whole header of sector `i` decodes to its mark bytes and its
/// address bytes.
#[verifier::rlimit(100)]
#[verifier::spinoff_prover]
proof fn lemma_format_idam_header(sectors: Seq<DiskChsn>, fill: u8, gap3: nat, cap: nat, i: int)
    requires
        146 + sectors_bytes(sectors, fill, gap3).len() <= cap,
        16 * cap <= usize::MAX,
        0 <= i < sectors.len(),
    ensures
        ({
            let cells1 = spec_format_cells(sectors, fill, gap3, cap);
            let base = 146 + sectors_bytes(sectors.take(i), fill, gap3).len();
            let idam_off = ((base + 12) * 16) as int;
            let chsn = sectors[i];
            decode_bytes(cells1, idam_off, 8) == spec_marker_bytes(System34Marker::Idam) + seq![
                chsn.c as u8,
                chsn.h,
                chsn.s,
                chsn.n,
            ]
        }),
{
    let chsn = sectors[i];
    let cells1 = spec_format_cells(sectors, fill, gap3, cap);
    let base = 146 + sectors_bytes(sectors.take(i), fill, gap3).len();
    let idam_off: int = ((base + 12) * 16) as int;
    lemma_format_markers_len(sectors, fill, gap3);
    lemma_format_marker_pair(sectors, fill, gap3, i);
    lemma_block_base_bound(sectors, fill, gap3, cap, i);
    lemma_format_marker_window(sectors, fill, gap3, cap, 1 + 2 * i);
    lemma_window_marker_bytes(cells1, idam_off, System34Marker::Idam);
    let hdr = spec_marker_bytes(System34Marker::Idam) + seq![chsn.c as u8, chsn.h, chsn.s, chsn.n];
    assert(decode_bytes(cells1, idam_off, 8) =~= hdr) by {
        assert forall|j: int| 0 <= j < 8 implies #[trigger] decode_bytes(cells1, idam_off, 8)[j]
            == hdr[j] by {
            if j >= 4 {
                lemma_format_idam_zone_at(sectors, fill, gap3, cap, i, 12 + j);
                assert(idam_off + 16 * j == 16 * (base + 12 + j));
                assert(idam_block(chsn)[j] == hdr[j]);
            }
        }
    }
}

/// The header CRC bytes of sector `i` decode to the CRC the format
/// computed over the header.
#[verifier::rlimit(100)]
#[verifier::spinoff_prover]
proof fn lemma_format_idam_stored_crc(
    sectors: Seq<DiskChsn>,
    fill: u8,
    gap3: nat,
    cap: nat,
    i: int,
)
    requires
        146 + sectors_bytes(sectors, fill, gap3).len() <= cap,
        16 * cap <= usize::MAX,
        0 <= i < sectors.len(),
    ensures
        ({
            let cells1 = spec_format_cells(sectors, fill, gap3, cap);
            let base = 146 + sectors_bytes(sectors.take(i), fill, gap3).len();
            let idam_off = ((base + 12) * 16) as int;
            let chsn = sectors[i];
            let hcrc = spec_crc_ccitt(
                spec_marker_bytes(System34Marker::Idam) + seq![
                    chsn.c as u8,
                    chsn.h,
                    chsn.s,
                    chsn.n,
                ],
                0xFFFF,
            );
            &&& decoded_byte(cells1, idam_off + 128) == (hcrc >> 8u16) as u8
            &&& decoded_byte(cells1, idam_off + 144) == (hcrc & 0xFF) as u8
        }),
{
    let chsn = sectors[i];
    let cells1 = spec_format_cells(sectors, fill, gap3, cap);
    let base = 146 + sectors_bytes(sectors.take(i), fill, gap3).len();
    let idam_off: int = ((base + 12) * 16) as int;
    lemma_block_base_bound(sectors, fill, gap3, cap, i);
    lemma_format_idam_zone_at(sectors, fill, gap3, cap, i, 20);
    lemma_format_idam_zone_at(sectors, fill, gap3, cap, i, 21);
    let hdr = spec_marker_bytes(System34Marker::Idam) + seq![chsn.c as u8, chsn.h, chsn.s, chsn.n];
    let hcrc = spec_crc_ccitt(hdr, 0xFFFF);
    assert(idam_block(chsn) == hdr + seq![(hcrc >> 8u16) as u8, (hcrc & 0xFF) as u8]);
    assert(idam_off + 128 == 16 * (base + 20));
    assert(idam_off + 144 == 16 * (base + 21));
}

/// On a freshly formatted track, sector `i`'s IDAM stands at the cell
/// offset the format reports, recognisable to the scanner, carrying the
/// sector's own address, and its header CRC checks. A cylinder must fit
/// the single header byte that stores it.
#[verifier::rlimit(100)]
#[verifier::spinoff_prover]
pub proof fn lemma_format_idam_valid(
    sectors: Seq<DiskChsn>,
    fill: u8,
    gap3: nat,
    cap: nat,
    i: int,
)
    requires
        spec_format_fits(sectors, fill, gap3, cap),
        16 * cap <= usize::MAX,
        0 <= i < sectors.len(),
        sectors[i].c < 256,
    ensures
        ({
            let cells1 = spec_format_cells(sectors, fill, gap3, cap);
            let idam_off = spec_format_markers(sectors, fill, gap3)[1 + 2 * i].1 as int;
            &&& marker_at(cells1, idam_off) == Some(System34Marker::Idam)
            &&& idam_chsn(cells1, idam_off) == sectors[i]
            &&& idam_crc_ok(cells1, idam_off)
        }),
{
    let chsn = sectors[i];
    let mks = spec_format_markers(sectors, fill, gap3);
    let cells1 = spec_format_cells(sectors, fill, gap3, cap);
    let base = 146 + sectors_bytes(sectors.take(i), fill, gap3).len();
    lemma_format_markers_len(sectors, fill, gap3);
    lemma_format_marker_pair(sectors, fill, gap3, i);
    lemma_block_base_bound(sectors, fill, gap3, cap, i);
    let idam_off: int = ((base + 12) * 16) as int;
    assert(mks[1 + 2 * i].1 == idam_off);
    lemma_format_marker_window(sectors, fill, gap3, cap, 1 + 2 * i);
    lemma_window_marker_recognised(cells1, idam_off, System34Marker::Idam);
    lemma_format_idam_header(sectors, fill, gap3, cap, i);
    lemma_format_idam_stored_crc(sectors, fill, gap3, cap, i);
    let hdr = spec_marker_bytes(System34Marker::Idam) + seq![chsn.c as u8, chsn.h, chsn.s, chsn.n];
    let hcrc = spec_crc_ccitt(hdr, 0xFFFF);
    // The decoded address is the sector's own.
    assert(decoded_byte(cells1, idam_off + 64) == decode_bytes(cells1, idam_off, 8)[4]);
    assert(decoded_byte(cells1, idam_off + 80) == decode_bytes(cells1, idam_off, 8)[5]);
    assert(decoded_byte(cells1, idam_off + 96) == decode_bytes(cells1, idam_off, 8)[6]);
    assert(decoded_byte(cells1, idam_off + 112) == decode_bytes(cells1, idam_off, 8)[7]);
    let cv: u16 = chsn.c;
    assert(((cv as u8) as u16) == cv) by (bit_vector)
        requires
            cv < 256,
    ;
    assert(idam_chsn(cells1, idam_off) == chsn);
    lemma_be16_split(hcrc);
    assert(idam_crc_ok(cells1, idam_off));
}

/// The data block of sector `i` decodes to its mark bytes and the fill
/// payload.
#[verifier::rlimit(100)]
#[verifier::spinoff_prover]
proof fn lemma_format_dam_block(sectors: Seq<DiskChsn>, fill: u8, gap3: nat, cap: nat, i: int)
    requires
        146 + sectors_bytes(sectors, fill, gap3).len() <= cap,
        16 * cap <= usize::MAX,
        0 <= i < sectors.len(),
    ensures
        ({
            let cells1 = spec_format_cells(sectors, fill, gap3, cap);
            let base = 146 + sectors_bytes(sectors.take(i), fill, gap3).len();
            let dam_off = ((base + 56) * 16) as int;
            let size = spec_n_to_bytes(sectors[i].n) as int;
            decode_bytes(cells1, dam_off, (4 + size) as nat) == spec_marker_bytes(
                System34Marker::Dam,
            ) + repeat_byte(fill, size as nat)
        }),
{
    let chsn = sectors[i];
    let cells1 = spec_format_cells(sectors, fill, gap3, cap);
    let base = 146 + sectors_bytes(sectors.take(i), fill, gap3).len();
    let size = spec_n_to_bytes(chsn.n) as int;
    let dam_off: int = ((base + 56) * 16) as int;
    lemma_format_markers_len(sectors, fill, gap3);
    lemma_format_marker_pair(sectors, fill, gap3, i);
    lemma_block_base_bound(sectors, fill, gap3, cap, i);
    lemma_format_marker_window(sectors, fill, gap3, cap, 2 + 2 * i);
    lemma_window_marker_bytes(cells1, dam_off, System34Marker::Dam);
    let pre = spec_marker_bytes(System34Marker::Dam) + repeat_byte(fill, size as nat);
    assert(decode_bytes(cells1, dam_off, (4 + size) as nat) =~= pre) by {
        assert forall|j: int| 0 <= j < 4 + size implies #[trigger] decode_bytes(
            cells1,
            dam_off,
            (4 + size) as nat,
        )[j] == pre[j] by {
            if j >= 4 {
                lemma_format_dam_zone_at(sectors, fill, gap3, cap, i, 56 + j);
                assert(dam_off + 16 * j == 16 * (base + 56 + j));
                assert(dam_block(chsn, fill)[j] == fill);
            }
        }
    }
}

/// The payload of sector `i` decodes to the fill bytes, and the data
/// CRC bytes to the CRC the format computed.
#[verifier::rlimit(100)]
#[verifier::spinoff_prover]
proof fn lemma_format_dam_payload(sectors: Seq<DiskChsn>, fill: u8, gap3: nat, cap: nat, i: int)
    requires
        146 + sectors_bytes(sectors, fill, gap3).len() <= cap,
        16 * cap <= usize::MAX,
        0 <= i < sectors.len(),
    ensures
        ({
            let cells1 = spec_format_cells(sectors, fill, gap3, cap);
            let base = 146 + sectors_bytes(sectors.take(i), fill, gap3).len();
            let dam_off = ((base + 56) * 16) as int;
            let size = spec_n_to_bytes(sectors[i].n) as int;
            let pre = spec_marker_bytes(System34Marker::Dam) + repeat_byte(fill, size as nat);
            let dcrc = spec_crc_ccitt(pre, 0xFFFF);
            &&& decode_bytes(cells1, dam_off + 64, size as nat) == repeat_byte(fill, size as nat)
            &&& decoded_byte(cells1, dam_off + 16 * (4 + size)) == (dcrc >> 8u16) as u8
            &&& decoded_byte(cells1, dam_off + 16 * (5 + size)) == (dcrc & 0xFF) as u8
        }),
{
    let chsn = sectors[i];
    let cells1 = spec_format_cells(sectors, fill, gap3, cap);
    let base = 146 + sectors_bytes(sectors.take(i), fill, gap3).len();
    let size = spec_n_to_bytes(chsn.n) as int;
    let dam_off: int = ((base + 56) * 16) as int;
    lemma_block_base_bound(sectors, fill, gap3, cap, i);
    let pre = spec_marker_bytes(System34Marker::Dam) + repeat_byte(fill, size as nat);
    let dcrc = spec_crc_ccitt(pre, 0xFFFF);
    assert(dam_block(chsn, fill) == pre + seq![(dcrc >> 8u16) as u8, (dcrc & 0xFF) as u8]);
    assert(decode_bytes(cells1, dam_off + 64, size as nat) =~= repeat_byte(fill, size as nat))
        by {
        assert forall|j: int| 0 <= j < size implies #[trigger] decode_bytes(
            cells1,
            dam_off + 64,
            size as nat,
        )[j] == fill by {
            lemma_format_dam_zone_at(sectors, fill, gap3, cap, i, 60 + j);
            assert(dam_off + 64 + 16 * j == 16 * (base + 60 + j));
            assert(dam_block(chsn, fill)[4 + j] == fill);
        }
    }
    lemma_format_dam_zone_at(sectors, fill, gap3, cap, i, 60 + size);
    lemma_format_dam_zone_at(sectors, fill, gap3, cap, i, 61 + size);
    assert(dam_off + 16 * (4 + size) == 16 * (base + 60 + size));
    assert(dam_off + 16 * (5 + size) == 16 * (base + 61 + size));
}

/// On a freshly formatted track, sector `i`'s data field stands at the
/// cell offset the format reports, recognisable to the scanner, filled
/// with the fill byte, and its data CRC checks.
#[verifier::rlimit(100)]
#[verifier::spinoff_prover]
pub proof fn lemma_format_dam_valid(sectors: Seq<DiskChsn>, fill: u8, gap3: nat, cap: nat, i: int)
    requires
        spec_format_fits(sectors, fill, gap3, cap),
        16 * cap <= usize::MAX,
        0 <= i < sectors.len(),
    ensures
        ({
            let cells1 = spec_format_cells(sectors, fill, gap3, cap);
            let dam_off = spec_format_markers(sectors, fill, gap3)[2 + 2 * i].1 as int;
            let size = spec_n_to_bytes(sectors[i].n) as int;
            &&& marker_at(cells1, dam_off) == Some(System34Marker::Dam)
            &&& data_crc_ok(cells1, dam_off, size)
            &&& decode_bytes(cells1, dam_off + 64, size as nat) == repeat_byte(
                fill,
                size as nat,
            )
        }),
{
    let chsn = sectors[i];
    let mks = spec_format_markers(sectors, fill, gap3);
    let cells1 = spec_format_cells(sectors, fill, gap3, cap);
    let base = 146 + sectors_bytes(sectors.take(i), fill, gap3).len();
    let size = spec_n_to_bytes(chsn.n) as int;
    lemma_format_markers_len(sectors, fill, gap3);
    lemma_format_marker_pair(sectors, fill, gap3, i);
    lemma_block_base_bound(sectors, fill, gap3, cap, i);
    let dam_off: int = ((base + 56) * 16) as int;
    assert(mks[2 + 2 * i].1 == dam_off);
    lemma_format_marker_window(sectors, fill, gap3, cap, 2 + 2 * i);
    lemma_window_marker_recognised(cells1, dam_off, System34Marker::Dam);
    lemma_format_dam_block(sectors, fill, gap3, cap, i);
    lemma_format_dam_payload(sectors, fill, gap3, cap, i);
    let pre = spec_marker_bytes(System34Marker::Dam) + repeat_byte(fill, size as nat);
    let dcrc = spec_crc_ccitt(pre, 0xFFFF);
    lemma_be16_split(dcrc);
    assert(data_crc_ok(cells1, dam_off, size));
}

/// One step of the metadata walk only appends.
#[verifier::rlimit(100)]
#[verifier::spinoff_prover]
proof fn lemma_meta_step_appends(
    cells: Seq<bool>,
    items: Seq<DiskStructureMetadataItem>,
    pending: Option<(DiskChsn, bool)>,
    m: System34Marker,
    off: int,
)
    ensures
        meta_step(cells, items, pending, m, off).0.len() >= items.len(),
        forall|x: int|
            0 <= x < items.len() ==> #[trigger] meta_step(cells, items, pending, m, off).0[x]
                == items[x],
{
}

/// The metadata walk only appends: whatever an earlier prefix of the
/// markers produced stays in place.
#[verifier::rlimit(100)]
#[verifier::spinoff_prover]
proof fn lemma_scan_meta_prefix(
    cells: Seq<bool>,
    markers: Seq<(System34Marker, usize)>,
    n1: int,
    n2: int,
)
    requires
        0 <= n1 <= n2,
    ensures
        scan_meta_upto(cells, markers, n1).0.len() <= scan_meta_upto(cells, markers, n2).0.len(),
        forall|x: int|
            0 <= x < scan_meta_upto(cells, markers, n1).0.len()
                ==> #[trigger] scan_meta_upto(cells, markers, n2).0[x] == scan_meta_upto(
                cells,
                markers,
                n1,
            ).0[x],
    decreases n2 - n1,
{
    if n1 < n2 {
        lemma_scan_meta_prefix(cells, markers, n1, n2 - 1);
        let prev = scan_meta_upto(cells, markers, n2 - 1);
        lemma_meta_step_appends(cells, prev.0, prev.1, markers[n2 - 1].0, markers[n2 - 1].1 as int);
    }
}

/// Processing an IDAM that fits the stream emits one element and holds
/// its decoded address and verdict pending.
#[verifier::rlimit(100)]
#[verifier::spinoff_prover]
proof fn lemma_meta_step_idam_shape(
    cells: Seq<bool>,
    items: Seq<DiskStructureMetadataItem>,
    pending: Option<(DiskChsn, bool)>,
    off: int,
)
    requires
        0 <= off,
        off + 160 <= cells.len(),
    ensures
        meta_step(cells, items, pending, System34Marker::Idam, off).0 == items.push(
            DiskStructureMetadataItem {
                elem_type: System34Element::Marker(
                    System34Marker::Idam,
                    Some(idam_crc_ok(cells, off)),
                ),
                start: off as usize,
                end: (off + 160) as usize,
                chsn: Some(idam_chsn(cells, off)),
            },
        ),
        meta_step(cells, items, pending, System34Marker::Idam, off).1 == Some(
            (idam_chsn(cells, off), idam_crc_ok(cells, off)),
        ),
{
}

/// Processing a DAM whose pending header carries a size code in range,
/// with the whole field inside the stream, emits one data element and
/// consumes the pending header.
#[verifier::rlimit(100)]
#[verifier::spinoff_prover]
proof fn lemma_meta_step_dam_shape(
    cells: Seq<bool>,
    items: Seq<DiskStructureMetadataItem>,
    chsn: DiskChsn,
    aok: bool,
    off: int,
)
    requires
        0 <= off,
        chsn.n < 8,
        off + 16 * (6 + spec_n_to_bytes(chsn.n)) <= cells.len(),
    ensures
        meta_step(cells, items, Some((chsn, aok)), System34Marker::Dam, off).0 == items.push(
            DiskStructureMetadataItem {
                elem_type: System34Element::Data {
                    address_crc: aok,
                    data_crc: data_crc_ok(cells, off, spec_n_to_bytes(chsn.n) as int),
                    deleted: false,
                },
                start: off as usize,
                end: (off + 16 * (6 + spec_n_to_bytes(chsn.n))) as usize,
                chsn: Some(chsn),
            },
        ),
        meta_step(cells, items, Some((chsn, aok)), System34Marker::Dam, off).1 is None,
{
}

/// Processing an IAM that fits the stream emits one element and leaves
/// the pending header alone.
#[verifier::rlimit(100)]
#[verifier::spinoff_prover]
proof fn lemma_meta_step_iam_shape(
    cells: Seq<bool>,
    items: Seq<DiskStructureMetadataItem>,
    pending: Option<(DiskChsn, bool)>,
    off: int,
)
    requires
        0 <= off,
        off + 64 <= cells.len(),
    ensures
        meta_step(cells, items, pending, System34Marker::Iam, off).0 == items.push(
            DiskStructureMetadataItem {
                elem_type: System34Element::Marker(System34Marker::Iam, None),
                start: off as usize,
                end: (off + 64) as usize,
                chsn: None,
            },
        ),
        meta_step(cells, items, pending, System34Marker::Iam, off).1 == pending,
{
}

/// The fixed facts the metadata walk needs at sector `i`'s two markers:
/// their kinds and offsets, that both fields fit the stream, and that
/// the size code the header hands the walk is the sector's own.
#[verifier::rlimit(100)]
#[verifier::spinoff_prover]
proof fn lemma_format_step_bounds(sectors: Seq<DiskChsn>, fill: u8, gap3: nat, cap: nat, i: int)
    requires
        spec_format_fits(sectors, fill, gap3, cap),
        16 * cap <= usize::MAX,
        0 <= i < sectors.len(),
    ensures
        ({
            let cells1 = spec_format_cells(sectors, fill, gap3, cap);
            let mks = spec_format_markers(sectors, fill, gap3);
            let base = 146 + sectors_bytes(sectors.take(i), fill, gap3).len();
            &&& mks[1 + 2 * i] == (System34Marker::Idam, ((base + 12) * 16) as usize)
            &&& mks[2 + 2 * i] == (System34Marker::Dam, ((base + 56) * 16) as usize)
            &&& cells1.len() == 16 * cap
            &&& (base + 12) * 16 + 160 <= 16 * cap
            &&& idam_chsn(cells1, ((base + 12) * 16) as int).n == sectors[i].n
            &&& (base + 56) * 16 + 16 * (6 + spec_n_to_bytes(sectors[i].n)) <= 16 * cap
        }),
{
    let cells1 = spec_format_cells(sectors, fill, gap3, cap);
    let base = 146 + sectors_bytes(sectors.take(i), fill, gap3).len();
    let idam_off: int = ((base + 12) * 16) as int;
    let chsn = sectors[i];
    lemma_format_markers_len(sectors, fill, gap3);
    lemma_format_marker_pair(sectors, fill, gap3, i);
    lemma_block_base_bound(sectors, fill, gap3, cap, i);
    lemma_format_marker_window(sectors, fill, gap3, cap, 1 + 2 * i);
    lemma_format_idam_header(sectors, fill, gap3, cap, i);
    assert(idam_chsn(cells1, idam_off).n == chsn.n) by {
        let hdr = spec_marker_bytes(System34Marker::Idam) + seq![
            chsn.c as u8,
            chsn.h,
            chsn.s,
            chsn.n,
        ];
        assert(decode_bytes(cells1, idam_off, 8)[7] == hdr[7]);
    }
    lemma_sectors_prefix_le(sectors, fill, gap3, i + 1);
    assert(sectors.take(i + 1).drop_last() =~= sectors.take(i));
    assert(sectors_bytes(sectors.take(i + 1), fill, gap3) == sectors_bytes(
        sectors.take(i),
        fill,
        gap3,
    ) + sector_block(chsn, fill, gap3));
}

/// The metadata walk across one IDAM and DAM pair of any stream: two
/// elements appended — the header element with the decoded address and
/// verdict, then the data element — leaving no pending header behind.
#[verifier::rlimit(100)]
#[verifier::spinoff_prover]
proof fn lemma_walk_pair_advance(
    cells: Seq<bool>,
    mks: Seq<(System34Marker, usize)>,
    i: int,
    idam_off: usize,
    dam_off: usize,
    nn: u8,
)
    requires
        0 <= i,
        2 + 2 * i < mks.len(),
        mks[1 + 2 * i] == (System34Marker::Idam, idam_off),
        mks[2 + 2 * i] == (System34Marker::Dam, dam_off),
        idam_off + 160 <= cells.len(),
        idam_chsn(cells, idam_off as int).n == nn,
        nn < 8,
        dam_off + 16 * (6 + spec_n_to_bytes(nn)) <= cells.len(),
    ensures
        ({
            let st1 = scan_meta_upto(cells, mks, 1 + 2 * i);
            let st2 = scan_meta_upto(cells, mks, 2 + 2 * i);
            let st3 = scan_meta_upto(cells, mks, 3 + 2 * i);
            &&& st2.0 == st1.0.push(
                DiskStructureMetadataItem {
                    elem_type: System34Element::Marker(
                        System34Marker::Idam,
                        Some(idam_crc_ok(cells, idam_off as int)),
                    ),
                    start: idam_off,
                    end: (idam_off + 160) as usize,
                    chsn: Some(idam_chsn(cells, idam_off as int)),
                },
            )
            &&& st3.0 == st2.0.push(
                DiskStructureMetadataItem {
                    elem_type: System34Element::Data {
                        address_crc: idam_crc_ok(cells, idam_off as int),
                        data_crc: data_crc_ok(
                            cells,
                            dam_off as int,
                            spec_n_to_bytes(nn) as int,
                        ),
                        deleted: false,
                    },
                    start: dam_off,
                    end: (dam_off + 16 * (6 + spec_n_to_bytes(nn))) as usize,
                    chsn: Some(idam_chsn(cells, idam_off as int)),
                },
            )
            &&& st3.1 is None
        }),
{
    let st1 = scan_meta_upto(cells, mks, 1 + 2 * i);
    let st2 = scan_meta_upto(cells, mks, 2 + 2 * i);
    lemma_meta_step_idam_shape(cells, st1.0, st1.1, idam_off as int);
    assert(st2 == meta_step(cells, st1.0, st1.1, System34Marker::Idam, idam_off as int));
    lemma_meta_step_dam_shape(
        cells,
        st2.0,
        idam_chsn(cells, idam_off as int),
        idam_crc_ok(cells, idam_off as int),
        dam_off as int,
    );
    assert(scan_meta_upto(cells, mks, 3 + 2 * i) == meta_step(
        cells,
        st2.0,
        st2.1,
        System34Marker::Dam,
        dam_off as int,
    ));
}

/// What the metadata walk needs of pair `t` of a marker list shaped
/// like a format's: an IDAM whose header fits and carries a size code
/// in range, then a DAM whose whole field fits.
spec fn walk_pair_ok(cells: Seq<bool>, mks: Seq<(System34Marker, usize)>, t: int) -> bool {
    &&& 0 <= t
    &&& 2 + 2 * t < mks.len()
    &&& mks[1 + 2 * t].0 is Idam
    &&& mks[2 + 2 * t].0 is Dam
    &&& mks[1 + 2 * t].1 + 160 <= cells.len()
    &&& idam_chsn(cells, mks[1 + 2 * t].1 as int).n < 8
    &&& mks[2 + 2 * t].1 + 16 * (6 + spec_n_to_bytes(
        idam_chsn(cells, mks[1 + 2 * t].1 as int).n,
    )) <= cells.len()
}

/// After an IAM and `i` well-formed IDAM and DAM pairs, the metadata
/// walk has emitted exactly one element per marker and carries no
/// pending header, and its first element is the IAM's.
#[verifier::rlimit(100)]
#[verifier::spinoff_prover]
proof fn lemma_walk_boundary(cells: Seq<bool>, mks: Seq<(System34Marker, usize)>, i: int)
    requires
        0 <= i,
        1 + 2 * i <= mks.len(),
        mks[0].0 is Iam,
        mks[0].1 + 64 <= cells.len(),
        forall|t: int| 0 <= t < i ==> #[trigger] walk_pair_ok(cells, mks, t),
    ensures
        scan_meta_upto(cells, mks, 1 + 2 * i).0.len() == 1 + 2 * i,
        scan_meta_upto(cells, mks, 1 + 2 * i).1 is None,
        scan_meta_upto(cells, mks, 1 + 2 * i).0[0] == (DiskStructureMetadataItem {
            elem_type: System34Element::Marker(System34Marker::Iam, None),
            start: mks[0].1,
            end: (mks[0].1 + 64) as usize,
            chsn: None,
        }),
    decreases i,
{
    if i == 0 {
        reveal_with_fuel(scan_meta_upto, 2);
        lemma_meta_step_iam_shape(
            cells,
            Seq::empty(),
            None::<(DiskChsn, bool)>,
            mks[0].1 as int,
        );
        assert(scan_meta_upto(cells, mks, 1) == meta_step(
            cells,
            Seq::empty(),
            None::<(DiskChsn, bool)>,
            mks[0].0,
            mks[0].1 as int,
        ));
    } else {
        lemma_walk_boundary(cells, mks, i - 1);
        assert(walk_pair_ok(cells, mks, i - 1));
        assert(mks[1 + 2 * (i - 1)] == (System34Marker::Idam, mks[1 + 2 * (i - 1)].1));
        assert(mks[2 + 2 * (i - 1)] == (System34Marker::Dam, mks[2 + 2 * (i - 1)].1));
        lemma_walk_pair_advance(
            cells,
            mks,
            i - 1,
            mks[1 + 2 * (i - 1)].1,
            mks[2 + 2 * (i - 1)].1,
            idam_chsn(cells, mks[1 + 2 * (i - 1)].1 as int).n,
        );
    }
}

/// Every IDAM and DAM pair a fitting format lays down is well formed
/// for the metadata walk.
#[verifier::rlimit(100)]
#[verifier::spinoff_prover]
proof fn lemma_format_pairs_ok(sectors: Seq<DiskChsn>, fill: u8, gap3: nat, cap: nat)
    requires
        spec_format_fits(sectors, fill, gap3, cap),
        16 * cap <= usize::MAX,
    ensures
        ({
            let cells1 = spec_format_cells(sectors, fill, gap3, cap);
            let mks = spec_format_markers(sectors, fill, gap3);
            forall|t: int| 0 <= t < sectors.len() ==> #[trigger] walk_pair_ok(cells1, mks, t)
        }),
{
    let cells1 = spec_format_cells(sectors, fill, gap3, cap);
    let mks = spec_format_markers(sectors, fill, gap3);
    lemma_format_markers_len(sectors, fill, gap3);
    assert forall|t: int| 0 <= t < sectors.len() implies #[trigger] walk_pair_ok(
        cells1,
        mks,
        t,
    ) by {
        lemma_format_step_bounds(sectors, fill, gap3, cap, t);
    }
}

/// The metadata walk over a fitting format's own markers yields
/// exactly one element per marker: the IAM element, then per input
/// sector one IDAM element carrying that sector's address with a valid
/// header CRC and one data element with both CRCs valid and no deleted
/// mark, in input order. (That a rescan of the formatted cells finds
/// exactly these markers and no others is stated only as far as
/// `lemma_format_markers_scanned` goes.)
#[verifier::rlimit(100)]
#[verifier::spinoff_prover]
pub proof fn lemma_format_scan_items(
    sectors: Seq<DiskChsn>,
    fill: u8,
    gap3: nat,
    cap: nat,
    i: int,
)
    requires
        spec_format_fits(sectors, fill, gap3, cap),
        16 * cap <= usize::MAX,
        0 <= i < sectors.len(),
        sectors[i].c < 256,
    ensures
        ({
            let cells1 = spec_format_cells(sectors, fill, gap3, cap);
            let mks = spec_format_markers(sectors, fill, gap3);
            let items = spec_scan_metadata(cells1, mks);
            let base = 146 + sectors_bytes(sectors.take(i), fill, gap3).len();
            let size = spec_n_to_bytes(sectors[i].n);
            &&& items.len() == 1 + 2 * sectors.len()
            &&& items[0] == (DiskStructureMetadataItem {
                elem_type: System34Element::Marker(System34Marker::Iam, None),
                start: 1472,
                end: 1536,
                chsn: None,
            })
            &&& items[1 + 2 * i] == (DiskStructureMetadataItem {
                elem_type: System34Element::Marker(System34Marker::Idam, Some(true)),
                start: ((base + 12) * 16) as usize,
                end: ((base + 12) * 16 + 160) as usize,
                chsn: Some(sectors[i]),
            })
            &&& items[2 + 2 * i] == (DiskStructureMetadataItem {
                elem_type: System34Element::Data {
                    address_crc: true,
                    data_crc: true,
                    deleted: false,
                },
                start: ((base + 56) * 16) as usize,
                end: ((base + 56) * 16 + 16 * (6 + size)) as usize,
                chsn: Some(sectors[i]),
            })
        }),
{
    let cells1 = spec_format_cells(sectors, fill, gap3, cap);
    let mks = spec_format_markers(sectors, fill, gap3);
    let base = 146 + sectors_bytes(sectors.take(i), fill, gap3).len();
    lemma_format_markers_len(sectors, fill, gap3);
    lemma_format_marker_window(sectors, fill, gap3, cap, 0);
    lemma_format_pairs_ok(sectors, fill, gap3, cap);
    lemma_walk_boundary(cells1, mks, sectors.len() as int);
    lemma_walk_boundary(cells1, mks, i);
    lemma_format_step_bounds(sectors, fill, gap3, cap, i);
    lemma_walk_pair_advance(
        cells1,
        mks,
        i,
        ((base + 12) * 16) as usize,
        ((base + 56) * 16) as usize,
        sectors[i].n,
    );
    lemma_format_idam_valid(sectors, fill, gap3, cap, i);
    lemma_format_dam_valid(sectors, fill, gap3, cap, i);
    lemma_scan_meta_prefix(cells1, mks, 3 + 2 * i, mks.len() as int);
    let st3 = scan_meta_upto(cells1, mks, 3 + 2 * i);
    assert(spec_scan_metadata(cells1, mks)[1 + 2 * i] == st3.0[1 + 2 * i]);
    assert(spec_scan_metadata(cells1, mks)[2 + 2 * i] == st3.0[2 + 2 * i]);
}

/// The big-endian halves of a word reassemble to the word.
pub proof fn lemma_be16_split(c: u16)
    ensures
        be16((c >> 8u16) as u8, (c & 0xFF) as u8) == c,
{
    assert(((((c >> 8u16) as u8) as u16) * 256 + (((c & 0xFF) as u8) as u16)) as u16 == c)
        by (bit_vector);
}

/// The result of formatting a track: the synthesised bytes and the cell
/// offsets of the markers laid down, so that a caller can anchor clock
/// maps without rescanning.
pub struct System34FormatResult {
    pub track_bytes: Vec<u8>,
    pub markers: Vec<(System34Marker, usize)>,
}

/// Appends `count` copies of `b`.
fn push_repeat(v: &mut Vec<u8>, b: u8, count: usize)
    ensures
        final(v)@ == old(v)@ + repeat_byte(b, count as nat),
{
    let mut k: usize = 0;
    while k < count
        invariant
            k <= count,
            v@ == old(v)@ + repeat_byte(b, k as nat),
        decreases count - k,
    {
        v.push(b);
        proof {
            assert(old(v)@ + repeat_byte(b, (k + 1) as nat) =~= (old(v)@ + repeat_byte(
                b,
                k as nat,
            )).push(b));
        }
        k += 1;
    }
    proof {
        assert(v@ =~= old(v)@ + repeat_byte(b, count as nat));
    }
}

/// Appends all of `src`.
fn push_all(v: &mut Vec<u8>, src: &Vec<u8>)
    ensures
        final(v)@ == old(v)@ + src@,
{
    let mut k: usize = 0;
    while k < src.len()
        invariant
            k <= src@.len(),
            v@ == old(v)@ + src@.take(k as int),
        decreases src@.len() - k,
    {
        v.push(src[k]);
        proof {
            assert(old(v)@ + src@.take(k + 1) =~= (old(v)@ + src@.take(k as int)).push(
                src@[k as int],
            ));
        }
        k += 1;
    }
    proof {
        assert(v@ =~= old(v)@ + src@);
    }
}

/// The marker scan is complete: every offset that holds a marker is in
/// the scan's result.
pub proof fn lemma_scan_markers_complete(cells: Seq<bool>, n: int, off: usize)
    requires
        0 <= off < n,
        marker_at(cells, off as int) is Some,
    ensures
        scan_markers_upto(cells, n).contains((marker_at(cells, off as int)->0, off)),
    decreases n,
{
    let m = marker_at(cells, off as int)->0;
    if off == n - 1 {
        let cur = scan_markers_upto(cells, n);
        assert(cur.last() == (m, off));
        assert(cur[cur.len() - 1] == (m, off));
    } else {
        lemma_scan_markers_complete(cells, n - 1, off);
        let rest = scan_markers_upto(cells, n - 1);
        let cur = scan_markers_upto(cells, n);
        let w = choose|i: int| 0 <= i < rest.len() && rest[i] == (m, off);
        assert(cur[w] == (m, off));
    }
}

/// The scanner of a freshly formatted track finds every marker the
/// format laid down: sector `i`'s IDAM and DAM both appear in the scan,
/// at the offsets the format reported.
#[verifier::rlimit(100)]
#[verifier::spinoff_prover]
pub proof fn lemma_format_markers_scanned(
    sectors: Seq<DiskChsn>,
    fill: u8,
    gap3: nat,
    cap: nat,
    i: int,
)
    requires
        spec_format_fits(sectors, fill, gap3, cap),
        16 * cap <= usize::MAX,
        0 <= i < sectors.len(),
    ensures
        ({
            let cells1 = spec_format_cells(sectors, fill, gap3, cap);
            let mks = spec_format_markers(sectors, fill, gap3);
            &&& spec_scan_markers(cells1).contains((System34Marker::Idam, mks[1 + 2 * i].1))
            &&& spec_scan_markers(cells1).contains((System34Marker::Dam, mks[2 + 2 * i].1))
        }),
{
    let cells1 = spec_format_cells(sectors, fill, gap3, cap);
    let mks = spec_format_markers(sectors, fill, gap3);
    lemma_format_markers_len(sectors, fill, gap3);
    lemma_format_marker_pair(sectors, fill, gap3, i);
    lemma_block_base_bound(sectors, fill, gap3, cap, i);
    lemma_format_marker_window(sectors, fill, gap3, cap, 1 + 2 * i);
    lemma_format_marker_window(sectors, fill, gap3, cap, 2 + 2 * i);
    lemma_window_marker_recognised(cells1, mks[1 + 2 * i].1 as int, System34Marker::Idam);
    lemma_window_marker_recognised(cells1, mks[2 + 2 * i].1 as int, System34Marker::Dam);
    lemma_scan_markers_complete(cells1, cells1.len() as int, mks[1 + 2 * i].1);
    lemma_scan_markers_complete(cells1, cells1.len() as int, mks[2 + 2 * i].1);
}

/// The System 34 structural parser.
pub struct System34Parser {}

impl System34Parser {
    /// Whether the 48 cells at `off` match `pattern`, the three sync
    /// repeats of marker `m`.
    fn sync_match(codec: &MfmCodec, off: usize, m: System34Marker) -> (r: bool)
        requires
            codec.wf(),
            off + 48 <= codec.cells().len(),
        ensures
            r == (codec.cells().subrange(off as int, off + 48) == sync_pattern(m)),
    {
        let w: u16 = match m {
            System34Marker::Iam => 0x5224,
            _ => 0x4489,
        };
        let ghost pat = sync_pattern(m);
        let mut k: usize = 0;
        while k < 48
            invariant
                k <= 48,
                codec.wf(),
                off + 48 <= codec.cells().len(),
                w == sync_word(m),
                pat == sync_pattern(m),
                forall|t: int| 0 <= t < k ==> codec.cells()[off + t] == #[trigger] pat[t],
            decreases 48 - k,
        {
            let sh: u16 = (15 - (k % 16)) as u16;
            let expect = ((w >> sh) & 1) == 1;
            proof {
                assert(sh == (15 - (k as int % 16)) as u16);
                assert(expect == word_bit(w, k as int % 16));
                assert(pat[k as int] == word_bit(w, k as int % 16));
            }
            if codec.get_cell(off + k) != expect {
                proof {
                    assert(codec.cells().subrange(off as int, off + 48)[k as int] != pat[k as int]);
                }
                return false;
            }
            k += 1;
        }
        proof {
            assert(codec.cells().subrange(off as int, off + 48) =~= pat);
        }
        true
    }

    /// The marker starting at cell `off`, if the 64 cells there hold one.
    pub fn check_marker_at(codec: &MfmCodec, off: usize) -> (r: Option<System34Marker>)
        requires
            codec.wf(),
        ensures
            r == marker_at(codec.cells(), off as int),
    {
        let n = codec.len();
        if off > n || n - off < 64 {
            return None;
        }
        let a1 = Self::sync_match(codec, off, System34Marker::Idam);
        let c2 = if a1 {
            false
        } else {
            Self::sync_match(codec, off, System34Marker::Iam)
        };
        proof {
            assert(word_bit(0x4489u16, 3) != word_bit(0x5224u16, 3)) by {
                assert(((0x4489u16 >> 12u16) & 1 == 1) != ((0x5224u16 >> 12u16) & 1 == 1))
                    by (bit_vector);
                assert((15 - 3) as u16 == 12u16);
            }
            assert(sync_pattern(System34Marker::Idam)[3] == word_bit(0x4489u16, 3));
            assert(sync_pattern(System34Marker::Iam)[3] == word_bit(0x5224u16, 3));
            assert(sync_pattern(System34Marker::Dam) == sync_pattern(System34Marker::Idam));
            assert(sync_pattern(System34Marker::Ddam) == sync_pattern(System34Marker::Idam));
        }
        let byte = codec.decode_byte_at(off + 48);
        if a1 {
            if byte == 0xFE {
                Some(System34Marker::Idam)
            } else if byte == 0xFB {
                Some(System34Marker::Dam)
            } else if byte == 0xF8 {
                Some(System34Marker::Ddam)
            } else {
                None
            }
        } else if c2 && byte == 0xFC {
            Some(System34Marker::Iam)
        } else {
            None
        }
    }

    /// Scans the whole cell stream for address marks, matching their
    /// illegal-clock sync patterns at every cell offset, and returns each
    /// marker kind with the cell offset it starts at, in ascending order.
    pub fn scan_track_markers(codec: &MfmCodec) -> (r: Vec<(System34Marker, usize)>)
        requires
            codec.wf(),
        ensures
            r@ == spec_scan_markers(codec.cells()),
    {
        let n = codec.len();
        let mut out: Vec<(System34Marker, usize)> = Vec::new();
        let mut off: usize = 0;
        while off < n
            invariant
                off <= n,
                codec.wf(),
                n == codec.cells().len(),
                out@ == scan_markers_upto(codec.cells(), off as int),
            decreases n - off,
        {
            match Self::check_marker_at(codec, off) {
                Some(m) => {
                    out.push((m, off));
                },
                None => {},
            }
            off += 1;
        }
        out
    }

    /// Walks the markers in order and emits the typed metadata timeline:
    /// IDAM elements with their decoded address and header-CRC verdict,
    /// and data elements inheriting the address of the IDAM before them,
    /// with their own CRC verdict and deleted flag.
    #[verifier::rlimit(100)]
    pub fn scan_track_metadata(
        codec: &MfmCodec,
        markers: &Vec<(System34Marker, usize)>,
    ) -> (r: Vec<DiskStructureMetadataItem>)
        requires
            codec.wf(),
        ensures
            r@ == spec_scan_metadata(codec.cells(), markers@),
    {
        let n = codec.len();
        let mut items: Vec<DiskStructureMetadataItem> = Vec::new();
        let mut pending: Option<(DiskChsn, bool)> = None;
        let mut i: usize = 0;
        while i < markers.len()
            invariant
                i <= markers@.len(),
                codec.wf(),
                n == codec.cells().len(),
                items@ == scan_meta_upto(codec.cells(), markers@, i as int).0,
                pending == scan_meta_upto(codec.cells(), markers@, i as int).1,
            decreases markers@.len() - i,
        {
            let (m, off) = markers[i];
            match m {
                System34Marker::Iam => {
                    if off <= n && n - off >= 64 {
                        items.push(
                            DiskStructureMetadataItem {
                                elem_type: System34Element::Marker(System34Marker::Iam, None),
                                start: off,
                                end: off + 64,
                                chsn: None,
                            },
                        );
                    }
                },
                System34Marker::Idam => {
                    if off <= n && n - off >= 160 {
                        let c = codec.decode_byte_at(off + 64);
                        let h = codec.decode_byte_at(off + 80);
                        let s = codec.decode_byte_at(off + 96);
                        let sz = codec.decode_byte_at(off + 112);
                        let chsn = DiskChsn::new(c as u16, h, s, sz);
                        let hdr = codec.read_decoded_at_cell(off, 8);
                        let crc = crc_ccitt(hdr.as_slice(), None);
                        let hi = codec.decode_byte_at(off + 128);
                        let lo = codec.decode_byte_at(off + 144);
                        let ok = crc == (hi as u16) * 256 + (lo as u16);
                        items.push(
                            DiskStructureMetadataItem {
                                elem_type: System34Element::Marker(System34Marker::Idam, Some(ok)),
                                start: off,
                                end: off + 160,
                                chsn: Some(chsn),
                            },
                        );
                        pending = Some((chsn, ok));
                    } else {
                        pending = None;
                    }
                },
                _ => {
                    let deleted = match m {
                        System34Marker::Ddam => true,
                        _ => false,
                    };
                    let mut handled = false;
                    if let Some((chsn, aok)) = pending {
                        if chsn.n < 8 {
                            let size = DiskChsn::n_to_bytes(chsn.n);
                            let need = 16 * (6 + size);
                            if off <= n && n - off >= need {
                                let blk = codec.read_decoded_at_cell(off, 4 + size);
                                let crc = crc_ccitt(blk.as_slice(), None);
                                let hi = codec.decode_byte_at(off + 16 * (4 + size));
                                let lo = codec.decode_byte_at(off + 16 * (5 + size));
                                let dok = crc == (hi as u16) * 256 + (lo as u16);
                                items.push(
                                    DiskStructureMetadataItem {
                                        elem_type: System34Element::Data {
                                            address_crc: aok,
                                            data_crc: dok,
                                            deleted,
                                        },
                                        start: off,
                                        end: off + need,
                                        chsn: Some(chsn),
                                    },
                                );
                                handled = true;
                            }
                        }
                    }
                    if !handled {
                        if off <= n && n - off >= 64 {
                            items.push(
                                DiskStructureMetadataItem {
                                    elem_type: System34Element::Marker(m, None),
                                    start: off,
                                    end: off + 64,
                                    chsn: None,
                                },
                            );
                        }
                    }
                    pending = None;
                },
            }
            i += 1;
        }
        items
    }

    /// The four bytes of the marker `m`.
    pub fn marker_bytes(m: System34Marker) -> (r: Vec<u8>)
        ensures
            r@ == spec_marker_bytes(m),
    {
        match m {
            System34Marker::Iam => vec![0xC2u8, 0xC2u8, 0xC2u8, 0xFCu8],
            System34Marker::Idam => vec![0xA1u8, 0xA1u8, 0xA1u8, 0xFEu8],
            System34Marker::Dam => vec![0xA1u8, 0xA1u8, 0xA1u8, 0xFBu8],
            System34Marker::Ddam => vec![0xA1u8, 0xA1u8, 0xA1u8, 0xF8u8],
        }
    }

    /// Anchors the clock map at every marker: from each marker's offset up
    /// to the next marker (or the end of the stream), cells at an even
    /// distance from the marker are clock positions. This lets the codec
    /// reject marker-looking patterns inside payload data.
    pub fn create_clock_map(markers: &Vec<(System34Marker, usize)>, codec: &mut MfmCodec)
        requires
            old(codec).wf(),
        ensures
            final(codec).wf(),
            final(codec).cells() == old(codec).cells(),
            final(codec).weak_bits() == old(codec).weak_bits(),
            final(codec).clock_bits() == clock_map_upto(
                old(codec).clock_bits(),
                markers@,
                markers@.len() as int,
                old(codec).cells().len() as int,
            ),
    {
        let n = codec.len();
        let ghost clock0 = old(codec).clock_bits();
        let mut j: usize = 0;
        while j < markers.len()
            invariant
                j <= markers@.len(),
                codec.wf(),
                n == codec.cells().len(),
                codec.cells() == old(codec).cells(),
                codec.weak_bits() == old(codec).weak_bits(),
                codec.clock_bits() == clock_map_upto(clock0, markers@, j as int, n as int),
            decreases markers@.len() - j,
        {
            let off = markers[j].1;
            let end: usize = if j + 1 < markers.len() && markers[j + 1].1 < n {
                markers[j + 1].1
            } else {
                n
            };
            let ghost prev = codec.clock_bits();
            let mut i: usize = off;
            if off < end {
                while i < end
                    invariant
                        off <= i <= end,
                        end <= n,
                        codec.wf(),
                        n == codec.cells().len(),
                        codec.cells() == old(codec).cells(),
                        codec.weak_bits() == old(codec).weak_bits(),
                        forall|t: int|
                            0 <= t < n && !(off <= t < i) ==> codec.clock_bits()[t] == prev[t],
                        forall|t: int|
                            off <= t < i ==> codec.clock_bits()[t] == ((t - off) % 2 == 0),
                    decreases end - i,
                {
                    codec.set_clock_bit(i, (i - off) % 2 == 0);
                    i += 1;
                }
            }
            proof {
                assert(codec.clock_bits() =~= apply_clock_region(prev, off as int, end as int));
            }
            j += 1;
        }
    }

    /// Writes each marker's 64 cells, with their illegal clock patterns,
    /// over the cells at its offset. Fails with a seek error when a marker
    /// does not fit the stream, leaving the stream unchanged.
    pub fn set_track_markers(
        codec: &mut MfmCodec,
        markers: &Vec<(System34Marker, usize)>,
    ) -> (r: Result<(), DiskImageError>)
        requires
            old(codec).wf(),
        ensures
            final(codec).wf(),
            final(codec).weak_bits() == old(codec).weak_bits(),
            final(codec).clock_bits() == old(codec).clock_bits(),
            r is Ok <==> forall|t: int|
                0 <= t < markers@.len() ==> (#[trigger] markers@[t]).1 + 64 <= old(
                    codec,
                ).cells().len(),
            r is Ok ==> final(codec).cells() == set_markers_upto(
                old(codec).cells(),
                markers@,
                markers@.len() as int,
            ),
            r is Err ==> final(codec).cells() == old(codec).cells() && r == Err::<
                (),
                DiskImageError,
            >(DiskImageError::SeekError),
    {
        let n = codec.len();
        let mut t: usize = 0;
        while t < markers.len()
            invariant
                t <= markers@.len(),
                *codec == *old(codec),
                codec.wf(),
                n == codec.cells().len(),
                forall|u: int| 0 <= u < t ==> (#[trigger] markers@[u]).1 + 64 <= n,
            decreases markers@.len() - t,
        {
            if markers[t].1 > n || n - markers[t].1 < 64 {
                return Err(DiskImageError::SeekError);
            }
            t += 1;
        }
        let mut j: usize = 0;
        while j < markers.len()
            invariant
                j <= markers@.len(),
                codec.wf(),
                n == codec.cells().len(),
                codec.weak_bits() == old(codec).weak_bits(),
                codec.clock_bits() == old(codec).clock_bits(),
                forall|u: int| 0 <= u < markers@.len() ==> (#[trigger] markers@[u]).1 + 64 <= n,
                codec.cells() == set_markers_upto(old(codec).cells(), markers@, j as int),
            decreases markers@.len() - j,
        {
            let (m, off) = markers[j];
            let ghost prev = codec.cells();
            let ghost mc = marker_cells(m);
            let w: u16 = match m {
                System34Marker::Iam => 0x5224,
                _ => 0x4489,
            };
            let byte: u8 = match m {
                System34Marker::Iam => 0xFC,
                System34Marker::Idam => 0xFE,
                System34Marker::Dam => 0xFB,
                System34Marker::Ddam => 0xF8,
            };
            let psh: u16 = (15 - 15) as u16;
            let prev_sync: bool = ((w >> psh) & 1) == 1;
            proof {
                assert(prev_sync == word_bit(sync_word(m), 15));
            }
            let mut i: usize = 0;
            while i < 64
                invariant
                    i <= 64,
                    codec.wf(),
                    n == codec.cells().len(),
                    off + 64 <= n,
                    codec.weak_bits() == old(codec).weak_bits(),
                    codec.clock_bits() == old(codec).clock_bits(),
                    w == sync_word(m),
                    byte == marker_data_byte(m),
                    prev_sync == word_bit(sync_word(m), 15),
                    mc == marker_cells(m),
                    forall|x: int| 0 <= x < n && !(off <= x < off + i) ==> codec.cells()[x] == prev[x],
                    forall|x: int| off <= x < off + i ==> codec.cells()[x] == mc[x - off],
                decreases 64 - i,
            {
                let v: bool;
                if i < 48 {
                    let sh: u16 = (15 - (i % 16)) as u16;
                    v = ((w >> sh) & 1) == 1;
                    proof {
                        assert(sh == (15 - (i as int % 16)) as u16);
                        assert(v == word_bit(w, i as int % 16));
                        assert(mc[i as int] == sync_pattern(m)[i as int]);
                    }
                } else {
                    let t2 = i - 48;
                    let k = t2 / 2;
                    let bsh: u8 = (7 - k) as u8;
                    let bitk = ((byte >> bsh) & 1) == 1;
                    proof {
                        let d = bits_of_bytes(seq![marker_data_byte(m)]);
                        assert(d.len() == 8);
                        assert(bsh == (7 - (t2 as int / 2)) as u8);
                        assert(d[t2 as int / 2] == byte_bit(byte, t2 as int / 2));
                        assert(bitk == byte_bit(byte, t2 as int / 2));
                    }
                    if t2 % 2 == 1 {
                        v = bitk;
                        proof {
                            let d = bits_of_bytes(seq![marker_data_byte(m)]);
                            assert(mc[i as int] == encoded_cell(
                                d,
                                word_bit(sync_word(m), 15),
                                t2 as int,
                            ));
                            assert(encoded_cell(d, word_bit(sync_word(m), 15), t2 as int) == d[
                                t2 as int / 2]);
                        }
                    } else {
                        let prevb: bool;
                        if k == 0 {
                            prevb = prev_sync;
                        } else {
                            let psh2: u8 = (7 - (k - 1)) as u8;
                            prevb = ((byte >> psh2) & 1) == 1;
                            proof {
                                assert(psh2 == (7 - (t2 as int / 2 - 1)) as u8);
                                assert(prevb == byte_bit(byte, t2 as int / 2 - 1));
                            }
                        }
                        v = !prevb && !bitk;
                        proof {
                            let d = bits_of_bytes(seq![marker_data_byte(m)]);
                            assert(t2 as int % 2 == 0);
                            assert(mc[i as int] == encoded_cell(
                                d,
                                word_bit(sync_word(m), 15),
                                t2 as int,
                            ));
                            assert(k == 0 ==> t2 as int == 0);
                            assert(k > 0 ==> d[t2 as int / 2 - 1] == byte_bit(
                                byte,
                                t2 as int / 2 - 1,
                            ));
                            assert(encoded_cell(d, word_bit(sync_word(m), 15), t2 as int)
                                == mfm_clock(
                                if t2 as int == 0 {
                                    word_bit(sync_word(m), 15)
                                } else {
                                    d[t2 as int / 2 - 1]
                                },
                                d[t2 as int / 2],
                            ));
                        }
                    }
                }
                codec.set_cell(off + i, v);
                i += 1;
            }
            proof {
                assert(codec.cells() =~= write_marker(prev, off as int, m));
            }
            j += 1;
        }
        Ok(())
    }

    /// Synthesises a freshly formatted IBM track over `bitcell_ct` cells:
    /// gap4a, IAM, gap1, then for each sector sync, IDAM with its CRC,
    /// gap2, sync, DAM, fill payload, CRC and gap3, with gap4b filling the
    /// capacity. Returns the bytes and the cell offsets of the markers
    /// laid down. Fails with a parameter error when a size code is out of
    /// range or the layout does not fit the capacity.
    #[verifier::rlimit(100)]
    pub fn format_track_as_bytes(
        _standard: System34Standard,
        bitcell_ct: usize,
        format_buffer: Vec<DiskChsn>,
        fill_byte: u8,
        gap3: usize,
    ) -> (r: Result<System34FormatResult, DiskImageError>)
        ensures
            r is Ok <==> spec_format_fits(
                format_buffer@,
                fill_byte,
                gap3 as nat,
                (bitcell_ct / 16) as nat,
            ),
            r is Ok ==> {
                let fr = r->Ok_0;
                &&& fr.track_bytes@ == spec_format_bytes(
                    format_buffer@,
                    fill_byte,
                    gap3 as nat,
                    (bitcell_ct / 16) as nat,
                )
                &&& fr.track_bytes@.len() == bitcell_ct / 16
                &&& fr.markers@ == spec_format_markers(format_buffer@, fill_byte, gap3 as nat)
            },
            r is Err ==> r == Err::<System34FormatResult, DiskImageError>(
                DiskImageError::ParameterError,
            ),
    {
        let cap = bitcell_ct / 16;
        let mut t: usize = 0;
        while t < format_buffer.len()
            invariant
                t <= format_buffer@.len(),
                forall|u: int| 0 <= u < t ==> (#[trigger] format_buffer@[u]).n < 8,
            decreases format_buffer@.len() - t,
        {
            if format_buffer[t].n >= 8 {
                return Err(DiskImageError::ParameterError);
            }
            t += 1;
        }
        if format_buffer.len() > 0 && gap3 > cap {
            proof {
                lemma_sector_block_min(format_buffer@, fill_byte, gap3 as nat);
            }
            return Err(DiskImageError::ParameterError);
        }
        let mut track: Vec<u8> = Vec::new();
        push_repeat(&mut track, 0x4E, 80);
        push_repeat(&mut track, 0x00, 12);
        let iamb = Self::marker_bytes(System34Marker::Iam);
        push_all(&mut track, &iamb);
        push_repeat(&mut track, 0x4E, 50);
        proof {
            assert(track@ =~= format_preamble());
        }
        if track.len() > cap {
            return Err(DiskImageError::ParameterError);
        }
        let mut markers: Vec<(System34Marker, usize)> = Vec::new();
        markers.push((System34Marker::Iam, 1472));
        proof {
            assert(format_buffer@.take(0int) =~= Seq::<DiskChsn>::empty());
            assert(track@ =~= format_preamble() + sectors_bytes(
                format_buffer@.take(0int),
                fill_byte,
                gap3 as nat,
            ));
            assert(markers@ =~= spec_format_markers(
                format_buffer@.take(0int),
                fill_byte,
                gap3 as nat,
            ));
        }
        let mut i: usize = 0;
        while i < format_buffer.len()
            invariant
                i <= format_buffer@.len(),
                cap == bitcell_ct / 16,
                cap * 16 <= bitcell_ct,
                format_buffer@.len() > 0 ==> gap3 <= cap,
                forall|u: int|
                    0 <= u < format_buffer@.len() ==> (#[trigger] format_buffer@[u]).n < 8,
                track@ == format_preamble() + sectors_bytes(
                    format_buffer@.take(i as int),
                    fill_byte,
                    gap3 as nat,
                ),
                track@.len() <= cap,
                markers@ == spec_format_markers(format_buffer@.take(i as int), fill_byte, gap3 as nat),
            decreases format_buffer@.len() - i,
        {
            let chsn = format_buffer[i];
            let base = track.len();
            let size = DiskChsn::n_to_bytes(chsn.n);
            push_repeat(&mut track, 0x00, 12);
            let mut hdr: Vec<u8> = vec![0xA1u8, 0xA1u8, 0xA1u8, 0xFEu8];
            hdr.push(#[verifier::truncate] (chsn.c as u8));
            hdr.push(chsn.h);
            hdr.push(chsn.s);
            hdr.push(chsn.n);
            let hcrc = crc_ccitt(hdr.as_slice(), None);
            push_all(&mut track, &hdr);
            track.push(#[verifier::truncate] ((hcrc >> 8u16) as u8));
            track.push(#[verifier::truncate] ((hcrc & 0xFF) as u8));
            proof {
                assert(hdr@ =~= spec_marker_bytes(System34Marker::Idam) + seq![
                    chsn.c as u8,
                    chsn.h,
                    chsn.s,
                    chsn.n,
                ]);
            }
            push_repeat(&mut track, 0x4E, 22);
            push_repeat(&mut track, 0x00, 12);
            let mut blk: Vec<u8> = vec![0xA1u8, 0xA1u8, 0xA1u8, 0xFBu8];
            push_repeat(&mut blk, fill_byte, size);
            let dcrc = crc_ccitt(blk.as_slice(), None);
            push_all(&mut track, &blk);
            track.push(#[verifier::truncate] ((dcrc >> 8u16) as u8));
            track.push(#[verifier::truncate] ((dcrc & 0xFF) as u8));
            push_repeat(&mut track, 0x4E, gap3);
            proof {
                assert(blk@ =~= spec_marker_bytes(System34Marker::Dam) + repeat_byte(
                    fill_byte,
                    spec_n_to_bytes(chsn.n) as nat,
                ));
                assert(track@ =~= format_preamble() + sectors_bytes(
                    format_buffer@.take(i as int),
                    fill_byte,
                    gap3 as nat,
                ) + sector_block(chsn, fill_byte, gap3 as nat));
                assert(format_buffer@.take(i + 1).drop_last() =~= format_buffer@.take(i as int));
                assert(track@ =~= format_preamble() + sectors_bytes(
                    format_buffer@.take(i + 1),
                    fill_byte,
                    gap3 as nat,
                ));
            }
            if track.len() > cap {
                proof {
                    lemma_sectors_prefix_le(format_buffer@, fill_byte, gap3 as nat, i + 1);
                }
                return Err(DiskImageError::ParameterError);
            }
            markers.push((System34Marker::Idam, (base + 12) * 16));
            markers.push((System34Marker::Dam, (base + 56) * 16));
            proof {
                assert(markers@ =~= spec_format_markers(
                    format_buffer@.take(i + 1),
                    fill_byte,
                    gap3 as nat,
                ));
            }
            i += 1;
        }
        proof {
            assert(format_buffer@.take(format_buffer@.len() as int) =~= format_buffer@);
        }
        let pad = cap - track.len();
        push_repeat(&mut track, 0x4E, pad);
        proof {
            assert(track@ =~= spec_format_bytes(
                format_buffer@,
                fill_byte,
                gap3 as nat,
                cap as nat,
            ));
        }
        Ok(System34FormatResult { track_bytes: track, markers })
    }
}

} // verus!
