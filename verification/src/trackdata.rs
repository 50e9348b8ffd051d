//! Track data at its two representational levels: a bitstream of encoded
//! cells with a derived structure timeline, or a bytestream of decoded
//! sector records, behind one sector- and track-oriented surface.

use crate::bits::{bits_of_bytes, bytes_of_bits, packed_bit};
use crate::chs::{spec_n_to_bytes, DiskCh, DiskChs, DiskChsn};
use crate::diskimage::{
    ReadSectorResult, ReadTrackResult, RwSectorScope, SectorMapEntry, TrackDataStream,
    TrackSectorIndex, WriteSectorResult,
};
use crate::mfm::{any_weak, decode_bytes, decoded_byte, encode_cells, falses, mfm_overwrite, MfmCodec};
use crate::system34::{
    clock_map_upto, lemma_format_markers_fit, set_markers_upto, spec_format_bytes,
    spec_format_fits, spec_format_markers, spec_marker_bytes, spec_scan_markers,
    spec_scan_metadata, spec_sector_ids, DiskStructureMetadata, DiskStructureMetadataItem,
    System34Element, System34Marker, System34Parser, System34Standard,
};
use crate::util::{crc_ccitt, lemma_crc_append, spec_crc_ccitt};
use crate::{DiskDataEncoding, DiskDataRate, DiskImageError};
use vstd::pervasive::VecAdditionalExecFns;
use vstd::prelude::*;

verus! {

/// Whether any byte of `s` is set.
pub open spec fn any_nonzero(s: Seq<u8>) -> bool {
    exists|i: int| 0 <= i < s.len() && s[i] != 0
}

/// The SHA-1 digest of a byte sequence; it depends on the bytes alone.
pub uninterp spec fn sha1_of(data: Seq<u8>) -> Seq<u8>;

/// Relies on `sha1_smol::Sha1` (`new`, `update`, `digest`, `bytes`): the
/// twenty-byte SHA-1 digest of `data`, a function of the bytes alone.
#[verifier::external_body]
fn sha1_digest(data: &Vec<u8>) -> (r: [u8; 20])
    ensures
        r@ == sha1_of(data@),
{
    let mut hasher = sha1_smol::Sha1::new();
    hasher.update(data.as_slice());
    hasher.digest().bytes()
}

impl TrackDataStream {
    /// The stream's cells.
    pub open spec fn s_cells(&self) -> Seq<bool> {
        match self {
            TrackDataStream::Mfm(c) => c.cells(),
            TrackDataStream::Raw(c) => c.cells(),
            TrackDataStream::Fm(c) => c.cells(),
            TrackDataStream::Gcr(c) => c.cells(),
        }
    }

    /// The stream's weak-bit mask.
    pub open spec fn s_weak(&self) -> Seq<bool> {
        match self {
            TrackDataStream::Mfm(c) => c.weak_bits(),
            TrackDataStream::Raw(c) => c.weak_bits(),
            TrackDataStream::Fm(c) => c.weak_bits(),
            TrackDataStream::Gcr(c) => c.weak_bits(),
        }
    }

    /// Whether the stream is decoded MFM.
    pub open spec fn is_mfm(&self) -> bool {
        self is Mfm
    }

    /// Well-formedness of the underlying codec.
    pub open spec fn s_wf(&self) -> bool {
        match self {
            TrackDataStream::Mfm(c) => c.wf(),
            TrackDataStream::Raw(c) => c.wf(),
            TrackDataStream::Fm(c) => c.wf(),
            TrackDataStream::Gcr(c) => c.wf(),
        }
    }

    /// The number of cells in the stream.
    pub fn len(&self) -> (r: usize)
        ensures
            r == self.s_cells().len(),
    {
        match self {
            TrackDataStream::Mfm(c) => c.len(),
            TrackDataStream::Raw(c) => c.len(),
            TrackDataStream::Fm(c) => c.len(),
            TrackDataStream::Gcr(c) => c.len(),
        }
    }

    /// Whether any cell is marked weak.
    pub fn has_weak_bits(&self) -> (r: bool)
        requires
            self.s_wf(),
        ensures
            r == any_weak(self.s_weak()),
    {
        match self {
            TrackDataStream::Mfm(c) => c.has_weak_bits(),
            TrackDataStream::Raw(c) => c.has_weak_bits(),
            TrackDataStream::Fm(c) => c.has_weak_bits(),
            TrackDataStream::Gcr(c) => c.has_weak_bits(),
        }
    }

    /// The cells packed back into bytes, eight per byte.
    pub fn data(&self) -> (r: Vec<u8>)
        ensures
            r@ == bytes_of_bits(self.s_cells()),
    {
        match self {
            TrackDataStream::Mfm(c) => c.data_bytes(),
            TrackDataStream::Raw(c) => c.data_bytes(),
            TrackDataStream::Fm(c) => c.data_bytes(),
            TrackDataStream::Gcr(c) => c.data_bytes(),
        }
    }
}

/// The number of data elements of a structure timeline.
pub open spec fn count_sector_items(items: Seq<DiskStructureMetadataItem>) -> int
    decreases items.len(),
{
    if items.len() == 0 {
        0
    } else {
        count_sector_items(items.drop_last()) + if items.last().elem_type.spec_is_sector() {
            1int
        } else {
            0int
        }
    }
}

/// The sector listing of a bitstream track: one entry per data element
/// that carries an address.
pub open spec fn bs_sector_list(items: Seq<DiskStructureMetadataItem>) -> Seq<SectorMapEntry>
    decreases items.len(),
{
    if items.len() == 0 {
        Seq::empty()
    } else {
        let rest = bs_sector_list(items.drop_last());
        let it = items.last();
        match it.elem_type {
            System34Element::Data { address_crc, data_crc, deleted } => {
                if it.chsn is Some {
                    rest.push(
                        SectorMapEntry {
                            chsn: it.chsn->0,
                            address_crc_valid: address_crc,
                            data_crc_valid: data_crc,
                            deleted_mark: deleted,
                        },
                    )
                } else {
                    rest
                }
            },
            _ => rest,
        }
    }
}

/// Whether any record of a bytestream track carries the sector id `id`.
pub open spec fn has_id_in_records(sectors: Seq<TrackSectorIndex>, id: u8) -> bool {
    exists|i: int| 0 <= i < sectors.len() && (#[trigger] sectors[i]).sector_id == id
}

/// Whether any IDAM element of a timeline carries the sector id `id`.
pub open spec fn has_idam_with_id(items: Seq<DiskStructureMetadataItem>, id: u8) -> bool {
    exists|i: int|
        {
            let it = #[trigger] items[i];
            &&& 0 <= i < items.len()
            &&& it.elem_type matches System34Element::Marker(System34Marker::Idam, _)
            &&& it.chsn is Some
            &&& it.chsn->0.s == id
        }
}

/// The sector listing entry of one bytestream record.
pub open spec fn entry_of_record(si: TrackSectorIndex) -> SectorMapEntry {
    SectorMapEntry {
        chsn: DiskChsn { c: si.cylinder_id, h: si.head_id, s: si.sector_id, n: si.n },
        address_crc_valid: !si.address_crc_error,
        data_crc_valid: !si.data_crc_error,
        deleted_mark: si.deleted_mark,
    }
}

/// The sector listing of a bytestream track.
pub open spec fn byte_sector_list(sectors: Seq<TrackSectorIndex>) -> Seq<SectorMapEntry> {
    Seq::new(sectors.len(), |i: int| entry_of_record(sectors[i]))
}

/// The sector lookup of a bitstream track, walking the timeline from
/// element `i` with the walk state so far: once an IDAM carrying the
/// requested sector id (and size code, when one is demanded) has been
/// seen, the next data element is the sector, carrying the address of
/// the most recent IDAM. Cylinder and head are not matched: a header
/// that lies about its address is still found, and the mismatch is
/// reported as a flag on the result. The first match wins; duplicates
/// further along the track stay reachable only through the id order.
pub open spec fn bs_lookup_from(
    items: Seq<DiskStructureMetadataItem>,
    i: int,
    matched: bool,
    idam: Option<DiskChsn>,
    chs: DiskChs,
    n: Option<u8>,
) -> Option<(usize, DiskChsn, bool, bool, bool)>
    decreases items.len() - i,
{
    if i < 0 || i >= items.len() {
        None
    } else {
        let it = items[i];
        match it.elem_type {
            System34Element::Marker(System34Marker::Idam, _) => {
                let m2 = if it.chsn is Some && it.chsn->0.s == chs.s && (n is None
                    || it.chsn->0.n == n->0) {
                    true
                } else {
                    matched
                };
                bs_lookup_from(items, i + 1, m2, it.chsn, chs, n)
            },
            System34Element::Data { address_crc, data_crc, deleted } => {
                if matched && idam is Some {
                    Some((it.start, idam->0, address_crc, data_crc, deleted))
                } else {
                    bs_lookup_from(items, i + 1, matched, idam, chs, n)
                }
            },
            _ => bs_lookup_from(items, i + 1, matched, idam, chs, n),
        }
    }
}

/// The sector lookup of a bitstream track from the start of its
/// timeline.
pub open spec fn bs_lookup(
    items: Seq<DiskStructureMetadataItem>,
    chs: DiskChs,
    n: Option<u8>,
) -> Option<(usize, DiskChsn, bool, bool, bool)> {
    bs_lookup_from(items, 0, false, None, chs, n)
}

/// The first sector at or after `bit_index`, walking the timeline from
/// element `i`: the first data element after any IDAM, carrying the most
/// recent IDAM's address.
pub open spec fn first_sector_from(
    items: Seq<DiskStructureMetadataItem>,
    i: int,
    matched: bool,
    idam: Option<DiskChsn>,
    bit_index: int,
) -> Option<TrackDataIndexResult>
    decreases items.len() - i,
{
    if i < 0 || i >= items.len() {
        None
    } else {
        let it = items[i];
        if (it.start as int) < bit_index {
            first_sector_from(items, i + 1, matched, idam, bit_index)
        } else {
            match it.elem_type {
                System34Element::Marker(System34Marker::Idam, _) => first_sector_from(
                    items,
                    i + 1,
                    true,
                    it.chsn,
                    bit_index,
                ),
                System34Element::Data { address_crc, data_crc, deleted } => {
                    if matched {
                        match idam {
                            Some(chsn) => Some(
                                TrackDataIndexResult {
                                    element_start: it.start,
                                    element_end: it.end,
                                    sector_chsn: chsn,
                                    address_crc_valid: address_crc,
                                    data_crc_valid: data_crc,
                                    deleted: deleted,
                                },
                            ),
                            None => None,
                        }
                    } else {
                        first_sector_from(items, i + 1, matched, idam, bit_index)
                    }
                },
                _ => first_sector_from(items, i + 1, matched, idam, bit_index),
            }
        }
    }
}

/// The first sector of the timeline at or after `bit_index`.
pub open spec fn spec_first_sector_at(
    items: Seq<DiskStructureMetadataItem>,
    bit_index: int,
) -> Option<TrackDataIndexResult> {
    first_sector_from(items, 0, false, None, bit_index)
}

/// The value of a sector read before it is materialised: the payload
/// position inside the buffer, the decoded bytes, and the flags.
pub struct RsModel {
    pub data_idx: int,
    pub data_len: int,
    pub buf: Seq<u8>,
    pub deleted_mark: bool,
    pub address_crc_error: bool,
    pub data_crc_error: bool,
    pub wrong_cylinder: bool,
    pub wrong_head: bool,
}

/// Whether a materialised read result carries exactly the modelled one.
pub open spec fn rs_matches(r: ReadSectorResult, m: RsModel) -> bool {
    &&& r.data_idx == m.data_idx
    &&& r.data_len == m.data_len
    &&& r.read_buf@ == m.buf
    &&& r.deleted_mark == m.deleted_mark
    &&& r.address_crc_error == m.address_crc_error
    &&& r.data_crc_error == m.data_crc_error
    &&& r.wrong_cylinder == m.wrong_cylinder
    &&& r.wrong_head == m.wrong_head
}

/// Whether a read outcome carries exactly the modelled outcome.
pub open spec fn rs_result_matches(
    r: Result<ReadSectorResult, DiskImageError>,
    m: Result<RsModel, DiskImageError>,
) -> bool {
    match (r, m) {
        (Ok(rr), Ok(mm)) => rs_matches(rr, mm),
        (Err(e1), Err(e2)) => e1 == e2,
        _ => false,
    }
}

/// The outcome of decoding a resolved sector at cell offset `so` of a
/// bitstream track: the scope picks whether the address mark and CRC
/// frame the payload, and the read fails only when it would run off the
/// stream.
pub open spec fn bs_read_outcome(
    cells: Seq<bool>,
    so: int,
    data_len: int,
    scope: RwSectorScope,
    aok: bool,
    dok: bool,
    del: bool,
    wc: bool,
    wh: bool,
) -> Result<RsModel, DiskImageError> {
    let read_off: int = if scope is DataBlock {
        0
    } else {
        32
    };
    let data_idx: int = if scope is DataBlock {
        4
    } else {
        0
    };
    let adj: int = if scope is DataBlock {
        6
    } else {
        0
    };
    let cell = 2 * (so / 2 + read_off);
    if cell + 16 * (data_len + adj) <= cells.len() {
        Ok(
            RsModel {
                data_idx,
                data_len,
                buf: decode_bytes(cells, cell, (data_len + adj) as nat),
                deleted_mark: del,
                address_crc_error: !aok,
                data_crc_error: !dok,
                wrong_cylinder: wc,
                wrong_head: wh,
            },
        )
    } else {
        Err(DiskImageError::IoError)
    }
}

/// The value of a bytestream sector read: the walk over the first `n`
/// records appends the payload of every record whose id matches, keeps
/// the length of the last match, and accumulates the flags.
pub struct ByteReadModel {
    pub buf: Seq<u8>,
    pub data_len: int,
    pub data_crc_error: bool,
    pub wrong_cylinder: bool,
    pub deleted: bool,
}

/// The stored span of the record `si` within a payload buffer of length
/// `dlen`: its own length, clipped to the buffer.
pub open spec fn record_read_len(si: TrackSectorIndex, dlen: int) -> int {
    if si.t_idx + si.len <= dlen {
        si.len as int
    } else if si.t_idx <= dlen {
        dlen - si.t_idx
    } else {
        0
    }
}

/// The bytestream sector read over the first `n` records.
pub open spec fn byte_read_fold(
    sectors: Seq<TrackSectorIndex>,
    data: Seq<u8>,
    chs: DiskChs,
    n: int,
) -> ByteReadModel
    decreases n,
{
    if n <= 0 {
        ByteReadModel {
            buf: Seq::empty(),
            data_len: 0,
            data_crc_error: false,
            wrong_cylinder: false,
            deleted: false,
        }
    } else {
        let prev = byte_read_fold(sectors, data, chs, n - 1);
        let si = sectors[n - 1];
        if si.sector_id == chs.s {
            let dl = record_read_len(si, data.len() as int);
            ByteReadModel {
                buf: prev.buf + data.subrange(si.t_idx as int, si.t_idx + dl),
                data_len: dl,
                data_crc_error: prev.data_crc_error || si.data_crc_error,
                wrong_cylinder: prev.wrong_cylinder || si.cylinder_id != chs.c,
                deleted: prev.deleted || si.deleted_mark,
            }
        } else {
            prev
        }
    }
}

/// The sector read, at either representational level. For a bitstream
/// track the first data element whose IDAM carries the requested sector
/// id wins, and a header whose cylinder or head differ from the
/// requested address yields the payload with the mismatch flagged; a
/// bad header CRC yields an empty success carrying the flag unless the
/// read is a diagnostic one; size codes out of range are parameter
/// errors. For a bytestream track the payload of every matching record
/// is returned, and only the bare payload scope is supported. A sector
/// id absent from the track is a data error on either level.
pub open spec fn read_sector_spec(
    td: TrackData,
    chs: DiskChs,
    n: Option<u8>,
    scope: RwSectorScope,
    debug: bool,
) -> Result<RsModel, DiskImageError> {
    match td {
        TrackData::BitStream { data, metadata, .. } => {
            if !data.is_mfm() {
                Err(DiskImageError::UnsupportedFormat)
            } else {
                match bs_lookup(metadata.items@, chs, n) {
                    None => Err(DiskImageError::DataError),
                    Some((so, chsn, aok, dok, del)) => {
                        let wc = chsn.c != chs.c;
                        let wh = chsn.h != chs.h;
                        if !aok && !debug {
                            Ok(
                                RsModel {
                                    data_idx: 0,
                                    data_len: 0,
                                    buf: Seq::empty(),
                                    deleted_mark: false,
                                    address_crc_error: true,
                                    data_crc_error: false,
                                    wrong_cylinder: wc,
                                    wrong_head: wh,
                                },
                            )
                        } else if n is Some && debug {
                            if n->0 >= 8 {
                                Err(DiskImageError::ParameterError)
                            } else {
                                bs_read_outcome(
                                    data.s_cells(),
                                    so as int,
                                    spec_n_to_bytes(n->0) as int,
                                    scope,
                                    aok,
                                    dok,
                                    del,
                                    wc,
                                    wh,
                                )
                            }
                        } else if n is Some {
                            if chsn.n != n->0 {
                                Err(DiskImageError::DataError)
                            } else if chsn.n >= 8 {
                                Err(DiskImageError::ParameterError)
                            } else {
                                bs_read_outcome(
                                    data.s_cells(),
                                    so as int,
                                    spec_n_to_bytes(chsn.n) as int,
                                    scope,
                                    aok,
                                    dok,
                                    del,
                                    wc,
                                    wh,
                                )
                            }
                        } else {
                            if chsn.n >= 8 {
                                Err(DiskImageError::ParameterError)
                            } else {
                                bs_read_outcome(
                                    data.s_cells(),
                                    so as int,
                                    spec_n_to_bytes(chsn.n) as int,
                                    scope,
                                    aok,
                                    dok,
                                    del,
                                    wc,
                                    wh,
                                )
                            }
                        }
                    },
                }
            }
        },
        TrackData::ByteStream { sectors, data, .. } => {
            if scope is DataBlock {
                Err(DiskImageError::ParameterError)
            } else if !has_id_in_records(sectors@, chs.s) {
                Err(DiskImageError::DataError)
            } else {
                let m = byte_read_fold(sectors@, data@, chs, sectors@.len() as int);
                Ok(
                    RsModel {
                        data_idx: 0,
                        data_len: m.data_len,
                        buf: m.buf,
                        deleted_mark: m.deleted,
                        address_crc_error: false,
                        data_crc_error: m.data_crc_error,
                        wrong_cylinder: m.wrong_cylinder,
                        wrong_head: false,
                    },
                )
            }
        },
    }
}

/// The four data-mark bytes a write lays down for the sector's existing
/// deleted polarity.
pub open spec fn mark_bytes_for(deleted: bool) -> Seq<u8> {
    if deleted {
        spec_marker_bytes(System34Marker::Ddam)
    } else {
        spec_marker_bytes(System34Marker::Dam)
    }
}

/// The cells of a bitstream track after writing `payload` into the
/// sector whose data element starts at cell `so`: the payload
/// re-encoded past the four mark bytes, then the CRC of mark and
/// payload, big-endian, re-encoded right after it.
pub open spec fn bs_write_cells(
    cells: Seq<bool>,
    so: int,
    payload: Seq<u8>,
    deleted: bool,
) -> Seq<bool> {
    let c1 = mfm_overwrite(cells, so + 64, payload);
    let crc = spec_crc_ccitt(mark_bytes_for(deleted) + payload, 0xFFFF);
    let crcb = seq![(crc >> 8u16) as u8, (crc & 0xFF) as u8];
    mfm_overwrite(c1, so + 16 * (4 + payload.len()), crcb)
}

/// The first record at or after `i` whose id matches (and whose size
/// code matches, when one is demanded).
pub open spec fn byte_write_find(
    sectors: Seq<TrackSectorIndex>,
    chs: DiskChs,
    n: Option<u8>,
    i: int,
) -> Option<int>
    decreases sectors.len() - i,
{
    if i < 0 || i >= sectors.len() {
        None
    } else if sectors[i].sector_id == chs.s && (n is None || sectors[i].n == n->0) {
        Some(i)
    } else {
        byte_write_find(sectors, chs, n, i + 1)
    }
}

/// A record lookup that succeeds names a record in range.
pub proof fn lemma_byte_write_find_range(
    sectors: Seq<TrackSectorIndex>,
    chs: DiskChs,
    n: Option<u8>,
    i: int,
)
    ensures
        byte_write_find(sectors, chs, n, i) matches Some(j) ==> i <= j < sectors.len(),
    decreases sectors.len() - i,
{
    if 0 <= i < sectors.len() {
        lemma_byte_write_find_range(sectors, chs, n, i + 1);
    }
}

/// One timeline element with its data-CRC verdict refreshed when it is
/// the data element at cell `so`.
pub open spec fn refreshed_item(
    it: DiskStructureMetadataItem,
    so: usize,
) -> DiskStructureMetadataItem {
    match it.elem_type {
        System34Element::Data { address_crc, data_crc, deleted } => {
            if it.start == so {
                DiskStructureMetadataItem {
                    elem_type: System34Element::Data { address_crc, data_crc: true, deleted },
                    start: it.start,
                    end: it.end,
                    chsn: it.chsn,
                }
            } else {
                it
            }
        },
        _ => it,
    }
}

/// The timeline after a successful write into the data element at cell
/// `so`: that element's data-CRC verdict becomes valid — the write just
/// laid a fresh, correct CRC over mark and payload — and nothing else
/// changes. Metadata is derived state, kept in step with the cells.
pub open spec fn refresh_data_crc(
    items: Seq<DiskStructureMetadataItem>,
    so: usize,
) -> Seq<DiskStructureMetadataItem> {
    Seq::new(items.len(), |k: int| refreshed_item(items[k], so))
}

/// The sector write: the outcome, then the cells, payload buffer and
/// structure timeline afterwards. On any error all three stay
/// unchanged; a successful bitstream write refreshes the written
/// element's data-CRC verdict. Buffer sizes must match the size code
/// exactly unless a diagnostic write clips to the buffer. A sector id
/// absent from the track is a data error on either level.
pub open spec fn write_sector_spec(
    td: TrackData,
    chs: DiskChs,
    n: Option<u8>,
    wdata: Seq<u8>,
    write_deleted: bool,
    debug: bool,
) -> (Result<WriteSectorResult, DiskImageError>, Seq<bool>, Seq<u8>, Seq<
    DiskStructureMetadataItem,
>) {
    let cells0 = td.cells_of();
    let bytes0 = td.bytes_of();
    let items0 = td.items_of();
    match td {
        TrackData::BitStream { data, metadata, .. } => {
            if !data.is_mfm() {
                (Err(DiskImageError::UnsupportedFormat), cells0, bytes0, items0)
            } else {
                match bs_lookup(metadata.items@, chs, n) {
                    None => (Err(DiskImageError::DataError), cells0, bytes0, items0),
                    Some((so, chsn, aok, dok, del)) => {
                        let wc = chsn.c != chs.c;
                        let wh = chsn.h != chs.h;
                        if !aok && !debug {
                            (
                                Ok(
                                    WriteSectorResult {
                                        not_found: false,
                                        address_crc_error: true,
                                        wrong_cylinder: wc,
                                        wrong_head: wh,
                                    },
                                ),
                                cells0,
                                bytes0,
                                items0,
                            )
                        } else {
                            let dl: int = if n is Some && debug {
                                if n->0 < 8 {
                                    if wdata.len() <= spec_n_to_bytes(n->0) {
                                        wdata.len() as int
                                    } else {
                                        spec_n_to_bytes(n->0) as int
                                    }
                                } else {
                                    -1
                                }
                            } else if n is Some {
                                if chsn.n != n->0 {
                                    -2
                                } else if chsn.n >= 8 {
                                    -1
                                } else if spec_n_to_bytes(chsn.n) > wdata.len() {
                                    -1
                                } else {
                                    spec_n_to_bytes(chsn.n) as int
                                }
                            } else {
                                if chsn.n >= 8 {
                                    -1
                                } else if spec_n_to_bytes(chsn.n) != wdata.len() {
                                    -1
                                } else {
                                    spec_n_to_bytes(chsn.n) as int
                                }
                            };
                            if dl == -2 {
                                (Err(DiskImageError::DataError), cells0, bytes0, items0)
                            } else if dl == -1 {
                                (Err(DiskImageError::ParameterError), cells0, bytes0, items0)
                            } else if so + 16 * (6 + dl) <= cells0.len() {
                                (
                                    Ok(
                                        WriteSectorResult {
                                            not_found: false,
                                            address_crc_error: false,
                                            wrong_cylinder: wc,
                                            wrong_head: wh,
                                        },
                                    ),
                                    bs_write_cells(cells0, so as int, wdata.take(dl), del),
                                    bytes0,
                                    refresh_data_crc(items0, so),
                                )
                            } else {
                                (Err(DiskImageError::IoError), cells0, bytes0, items0)
                            }
                        }
                    },
                }
            }
        },
        TrackData::ByteStream { sectors, data, .. } => {
            match byte_write_find(sectors@, chs, n, 0) {
                None => (Err(DiskImageError::DataError), cells0, bytes0, items0),
                Some(j) => {
                    let si = sectors@[j];
                    if si.n >= 8 {
                        (Err(DiskImageError::ParameterError), cells0, bytes0, items0)
                    } else if spec_n_to_bytes(si.n) != wdata.len() {
                        (Err(DiskImageError::ParameterError), cells0, bytes0, items0)
                    } else if si.t_idx + wdata.len() <= bytes0.len() {
                        (
                            Ok(
                                WriteSectorResult {
                                    not_found: false,
                                    address_crc_error: false,
                                    wrong_cylinder: si.cylinder_id != chs.c,
                                    wrong_head: si.head_id != chs.h,
                                },
                            ),
                            cells0,
                            Seq::new(
                                bytes0.len(),
                                |x: int|
                                    if si.t_idx <= x < si.t_idx + wdata.len() {
                                        wdata[x - si.t_idx]
                                    } else {
                                        bytes0[x]
                                    },
                            ),
                            items0,
                        )
                    } else {
                        (Err(DiskImageError::ParameterError), cells0, bytes0, items0)
                    }
                },
            }
        },
    }
}

/// The first position at or after `i` whose id carries the sector id
/// `s`.
pub open spec fn first_id_match(ids: Seq<DiskChsn>, s: u8, i: int) -> Option<int>
    decreases ids.len() - i,
{
    if i < 0 || i >= ids.len() {
        None
    } else if ids[i].s == s {
        Some(i)
    } else {
        first_id_match(ids, s, i + 1)
    }
}

/// The id after the first occurrence of `s` in the physical id order,
/// wrapping to the first id after the last position.
pub open spec fn spec_next_id(ids: Seq<DiskChsn>, s: u8) -> Option<DiskChsn> {
    if ids.len() == 0 {
        None
    } else {
        match first_id_match(ids, s, 0) {
            None => None,
            Some(j) => if j + 1 < ids.len() {
                Some(ids[j + 1])
            } else {
                Some(ids[0])
            },
        }
    }
}

/// The physical id order a track answers `get_next_id` from: the
/// recorded order of a bitstream track, or the record order of a
/// bytestream track on the requested cylinder and head.
pub open spec fn track_ids_for(td: TrackData, chs: DiskChs) -> Seq<DiskChsn> {
    match td {
        TrackData::BitStream { sector_ids, .. } => sector_ids@,
        TrackData::ByteStream { sectors, .. } => Seq::new(
            sectors@.len(),
            |i: int|
                DiskChsn {
                    c: chs.c,
                    h: chs.h,
                    s: sectors@[i].sector_id,
                    n: sectors@[i].n,
                },
        ),
    }
}

/// The accumulated value of a whole-track sector walk.
pub struct RtModel {
    pub not_found: bool,
    pub sectors_read: u16,
    pub buf: Seq<u8>,
    pub deleted: bool,
    pub aerr: bool,
    pub derr: bool,
}

/// Whether a materialised track read carries exactly the modelled one.
pub open spec fn rt_matches(r: ReadTrackResult, m: RtModel) -> bool {
    &&& r.not_found == m.not_found
    &&& r.sectors_read == m.sectors_read
    &&& r.read_buf@ == m.buf
    &&& r.deleted_mark == m.deleted
    &&& r.address_crc_error == m.aerr
    &&& r.data_crc_error == m.derr
}

/// Whether a track-read outcome carries exactly the modelled outcome.
pub open spec fn rt_result_matches(
    r: Result<ReadTrackResult, DiskImageError>,
    m: Result<RtModel, DiskImageError>,
) -> bool {
    match (r, m) {
        (Ok(rr), Ok(mm)) => rt_matches(rr, mm),
        (Err(e1), Err(e2)) => e1 == e2,
        _ => false,
    }
}

/// A count incremented without wrapping.
pub open spec fn sat_inc(c: u16) -> u16 {
    if c == 0xFFFF {
        c
    } else {
        (c + 1) as u16
    }
}

/// The whole-track sector walk of a bitstream track from cell `bit`:
/// each sector found is read with the fixed size `size` — the header's
/// own size code is deliberately ignored, as the Read Track command of a
/// floppy controller does — until a sector id equals `eot` or the
/// timeline is exhausted. CRC verdicts accumulate as flags.
pub open spec fn read_all_bs_from(
    items: Seq<DiskStructureMetadataItem>,
    cells: Seq<bool>,
    mfm: bool,
    bit: int,
    size: int,
    eot: u8,
    acc: RtModel,
) -> Result<RtModel, DiskImageError>
    decreases usize::MAX as int + 1 - bit,
{
    if bit < 0 || bit > usize::MAX {
        Err(DiskImageError::IoError)
    } else {
        match spec_first_sector_at(items, bit) {
            None => Ok(acc),
            Some(t) => {
                let f = RtModel {
                    not_found: false,
                    sectors_read: acc.sectors_read,
                    buf: acc.buf,
                    deleted: acc.deleted || t.deleted,
                    aerr: acc.aerr || !t.address_crc_valid,
                    derr: acc.derr || !t.data_crc_valid,
                };
                if !mfm {
                    Err(DiskImageError::UnsupportedFormat)
                } else {
                    let cell = 2 * ((t.element_start + 64) / 2);
                    if cell + 16 * size <= cells.len() {
                        let f2 = RtModel {
                            not_found: false,
                            sectors_read: sat_inc(f.sectors_read),
                            buf: f.buf + decode_bytes(cells, cell, size as nat),
                            deleted: f.deleted,
                            aerr: f.aerr,
                            derr: f.derr,
                        };
                        if t.sector_chsn.s == eot {
                            Ok(f2)
                        } else if t.element_end <= bit {
                            Ok(f2)
                        } else {
                            read_all_bs_from(
                                items,
                                cells,
                                mfm,
                                t.element_end as int,
                                size,
                                eot,
                                f2,
                            )
                        }
                    } else {
                        Err(DiskImageError::IoError)
                    }
                }
            },
        }
    }
}

/// The whole-track sector walk of a bytestream track from record `i`:
/// records are read in order with the fixed size `size`, clipped to the
/// buffer, skipping records that overlap the bytes already taken, until
/// `eot` sectors have been read.
pub open spec fn read_all_byte_from(
    sectors: Seq<TrackSectorIndex>,
    data: Seq<u8>,
    size: int,
    eot: u16,
    i: int,
    acc: RtModel,
    last_end: int,
) -> RtModel
    decreases sectors.len() - i,
{
    if i < 0 || i >= sectors.len() {
        acc
    } else {
        let si = sectors[i];
        let acc0 = RtModel {
            not_found: false,
            sectors_read: acc.sectors_read,
            buf: acc.buf,
            deleted: acc.deleted,
            aerr: acc.aerr,
            derr: acc.derr,
        };
        if acc.sectors_read >= eot {
            acc0
        } else if (si.t_idx as int) < last_end {
            read_all_byte_from(sectors, data, size, eot, i + 1, acc0, last_end)
        } else {
            let avail: int = if si.t_idx <= data.len() {
                data.len() - si.t_idx
            } else {
                0
            };
            let dl: int = if size <= avail {
                size
            } else {
                avail
            };
            let acc1 = RtModel {
                not_found: false,
                sectors_read: sat_inc(acc.sectors_read),
                buf: acc.buf + data.subrange(si.t_idx as int, si.t_idx + dl),
                deleted: acc.deleted || si.deleted_mark,
                aerr: acc.aerr || si.address_crc_error,
                derr: acc.derr || si.data_crc_error,
            };
            read_all_byte_from(sectors, data, size, eot, i + 1, acc1, si.t_idx + dl)
        }
    }
}

/// The empty accumulator a whole-track walk starts from.
pub open spec fn rt_init() -> RtModel {
    RtModel {
        not_found: true,
        sectors_read: 0,
        buf: Seq::empty(),
        deleted: false,
        aerr: false,
        derr: false,
    }
}

/// The whole-track sector read: Read Track semantics with a fixed size
/// code, ending at the sector id `eot`.
pub open spec fn read_all_spec(td: TrackData, n: u8, eot: u8) -> Result<
    RtModel,
    DiskImageError,
> {
    if n >= 8 {
        Err(DiskImageError::ParameterError)
    } else {
        match td {
            TrackData::BitStream { data, metadata, .. } => {
                if spec_first_sector_at(metadata.items@, 0) is None {
                    Err(DiskImageError::DataError)
                } else {
                    read_all_bs_from(
                        metadata.items@,
                        data.s_cells(),
                        data.is_mfm(),
                        0,
                        spec_n_to_bytes(n) as int,
                        eot,
                        rt_init(),
                    )
                }
            },
            TrackData::ByteStream { sectors, data, .. } => Ok(
                read_all_byte_from(
                    sectors@,
                    data@,
                    spec_n_to_bytes(n) as int,
                    eot as u16,
                    0,
                    rt_init(),
                    0,
                ),
            ),
        }
    }
}

/// Writing a sector and reading it back: the payload-scope read of the
/// cells a write produced returns the written payload byte for byte.
/// The CRC laid down after the payload never disturbs it.
pub proof fn lemma_read_after_write(cells: Seq<bool>, so: int, payload: Seq<u8>, deleted: bool)
    requires
        0 <= so,
        so % 2 == 0,
        so + 16 * (6 + payload.len()) <= cells.len(),
    ensures
        decode_bytes(
            bs_write_cells(cells, so, payload, deleted),
            2 * (so / 2 + 32),
            payload.len(),
        ) == payload,
{
    let c1 = mfm_overwrite(cells, so + 64, payload);
    crate::mfm::lemma_decode_overwrite(cells, so + 64, payload);
    let crc = spec_crc_ccitt(mark_bytes_for(deleted) + payload, 0xFFFF);
    let crcb = seq![(crc >> 8u16) as u8, (crc & 0xFF) as u8];
    let c2 = bs_write_cells(cells, so, payload, deleted);
    assert(c2 == mfm_overwrite(c1, so + 16 * (4 + payload.len()), crcb));
    assert(2 * (so / 2 + 32) == so + 64);
    assert forall|j: int| 0 <= j < payload.len() implies #[trigger] decode_bytes(
        c2,
        so + 64,
        payload.len(),
    )[j] == decode_bytes(c1, so + 64, payload.len())[j] by {
        let base = so + 64 + 16 * j;
        assert(base + 15 < so + 16 * (4 + payload.len()));
        assert(c2[base + 1] == c1[base + 1]);
        assert(packed_bit(c2, base + 1) == packed_bit(c1, base + 1));
        assert(c2[base + 3] == c1[base + 3]);
        assert(packed_bit(c2, base + 3) == packed_bit(c1, base + 3));
        assert(c2[base + 5] == c1[base + 5]);
        assert(packed_bit(c2, base + 5) == packed_bit(c1, base + 5));
        assert(c2[base + 7] == c1[base + 7]);
        assert(packed_bit(c2, base + 7) == packed_bit(c1, base + 7));
        assert(c2[base + 9] == c1[base + 9]);
        assert(packed_bit(c2, base + 9) == packed_bit(c1, base + 9));
        assert(c2[base + 11] == c1[base + 11]);
        assert(packed_bit(c2, base + 11) == packed_bit(c1, base + 11));
        assert(c2[base + 13] == c1[base + 13]);
        assert(packed_bit(c2, base + 13) == packed_bit(c1, base + 13));
        assert(c2[base + 15] == c1[base + 15]);
        assert(packed_bit(c2, base + 15) == packed_bit(c1, base + 15));
    }
    assert(decode_bytes(c2, so + 64, payload.len()) =~= decode_bytes(
        c1,
        so + 64,
        payload.len(),
    ));
    assert(decode_bytes(c1, so + 64, payload.len()) == payload);
}

/// A lookup that resolves a sector is blind to anything recorded after
/// it on the timeline: appending further elements — a second copy of
/// the same sector id among them — never changes which data element a
/// read or write resolves to. The first match wins.
pub proof fn lemma_lookup_first_wins(
    items: Seq<DiskStructureMetadataItem>,
    extra: Seq<DiskStructureMetadataItem>,
    chs: DiskChs,
    n: Option<u8>,
)
    requires
        bs_lookup(items, chs, n) is Some,
    ensures
        bs_lookup(items + extra, chs, n) == bs_lookup(items, chs, n),
{
    lemma_lookup_append_from(items, extra, 0, false, None, chs, n);
}

proof fn lemma_lookup_append_from(
    items: Seq<DiskStructureMetadataItem>,
    extra: Seq<DiskStructureMetadataItem>,
    i: int,
    matched: bool,
    idam: Option<DiskChsn>,
    chs: DiskChs,
    n: Option<u8>,
)
    requires
        0 <= i,
        bs_lookup_from(items, i, matched, idam, chs, n) is Some,
    ensures
        bs_lookup_from(items + extra, i, matched, idam, chs, n) == bs_lookup_from(
            items,
            i,
            matched,
            idam,
            chs,
            n,
        ),
    decreases items.len() - i,
{
    if i < items.len() {
        assert((items + extra)[i] == items[i]);
        let it = items[i];
        match it.elem_type {
            System34Element::Marker(System34Marker::Idam, _) => {
                let m2 = if it.chsn is Some && it.chsn->0.s == chs.s && (n is None
                    || it.chsn->0.n == n->0) {
                    true
                } else {
                    matched
                };
                lemma_lookup_append_from(items, extra, i + 1, m2, it.chsn, chs, n);
            },
            System34Element::Data { .. } => {
                if !(matched && idam is Some) {
                    lemma_lookup_append_from(items, extra, i + 1, matched, idam, chs, n);
                }
            },
            _ => {
                lemma_lookup_append_from(items, extra, i + 1, matched, idam, chs, n);
            },
        }
    }
}

proof fn lemma_first_match_at(ids: Seq<DiskChsn>, s: u8, i: int, j: int)
    requires
        0 <= i <= j < ids.len(),
        ids[j].s == s,
        forall|k: int| i <= k < j ==> (#[trigger] ids[k]).s != s,
    ensures
        first_id_match(ids, s, i) == Some(j),
    decreases j - i,
{
    if i < j {
        lemma_first_match_at(ids, s, i + 1, j);
    }
}

/// The id order advances in physical order: when the first occurrence
/// of a sector id is not the last id of the track, the next id is the
/// one recorded right after it.
pub proof fn lemma_next_id_advances(ids: Seq<DiskChsn>, s: u8, j: int)
    requires
        0 <= j < ids.len() - 1,
        ids[j].s == s,
        forall|k: int| 0 <= k < j ==> (#[trigger] ids[k]).s != s,
    ensures
        spec_next_id(ids, s) == Some(ids[j + 1]),
{
    lemma_first_match_at(ids, s, 0, j);
}

/// The id order wraps: when the first occurrence of a sector id is the
/// last id of the track, the next id is the first id of the track.
pub proof fn lemma_next_id_wraps(ids: Seq<DiskChsn>, s: u8)
    requires
        ids.len() > 0,
        ids.last().s == s,
        forall|k: int| 0 <= k < ids.len() - 1 ==> (#[trigger] ids[k]).s != s,
    ensures
        spec_next_id(ids, s) == Some(ids[0]),
{
    lemma_first_match_at(ids, s, 0, ids.len() - 1);
}

/// Refreshing the data-CRC verdict at cell `so` leaves the sector
/// lookup pointing at the same element, now carrying a valid verdict.
pub proof fn lemma_lookup_after_refresh(
    items: Seq<DiskStructureMetadataItem>,
    chs: DiskChs,
    n: Option<u8>,
    so: usize,
)
    requires
        bs_lookup(items, chs, n) is Some,
        (bs_lookup(items, chs, n)->0).0 == so,
    ensures
        ({
            let t = bs_lookup(items, chs, n)->0;
            bs_lookup(refresh_data_crc(items, so), chs, n) == Some(
                (t.0, t.1, t.2, true, t.4),
            )
        }),
{
    lemma_lookup_refresh_from(items, 0, false, None, chs, n, so);
}

proof fn lemma_lookup_refresh_from(
    items: Seq<DiskStructureMetadataItem>,
    i: int,
    matched: bool,
    idam: Option<DiskChsn>,
    chs: DiskChs,
    n: Option<u8>,
    so: usize,
)
    requires
        0 <= i,
        bs_lookup_from(items, i, matched, idam, chs, n) is Some,
        (bs_lookup_from(items, i, matched, idam, chs, n)->0).0 == so,
    ensures
        ({
            let t = bs_lookup_from(items, i, matched, idam, chs, n)->0;
            bs_lookup_from(refresh_data_crc(items, so), i, matched, idam, chs, n) == Some(
                (t.0, t.1, t.2, true, t.4),
            )
        }),
    decreases items.len() - i,
{
    if i < items.len() {
        let it = items[i];
        assert(refresh_data_crc(items, so)[i] == refreshed_item(it, so));
        match it.elem_type {
            System34Element::Marker(System34Marker::Idam, _) => {
                let m2 = if it.chsn is Some && it.chsn->0.s == chs.s && (n is None
                    || it.chsn->0.n == n->0) {
                    true
                } else {
                    matched
                };
                lemma_lookup_refresh_from(items, i + 1, m2, it.chsn, chs, n, so);
            },
            System34Element::Data { .. } => {
                if !(matched && idam is Some) {
                    lemma_lookup_refresh_from(items, i + 1, matched, idam, chs, n, so);
                }
            },
            _ => {
                lemma_lookup_refresh_from(items, i + 1, matched, idam, chs, n, so);
            },
        }
    }
}

/// Writing a sector and reading it back, over the whole contracts: when
/// a write of a full-size payload into the sector `chs` succeeds with a
/// clean header, any track holding the cells and timeline the write
/// left behind answers the payload-scope read of `chs` with exactly
/// that payload and no data-CRC error.
pub proof fn lemma_write_then_read_sector(
    td: TrackData,
    td2: TrackData,
    chs: DiskChs,
    payload: Seq<u8>,
)
    requires
        td.is_mfm_bitstream(),
        bs_lookup(td.items_of(), chs, None) is Some,
        ({
            let (so, chsn, aok, dok, del) = bs_lookup(td.items_of(), chs, None)->0;
            &&& aok
            &&& chsn.n < 8
            &&& payload.len() == spec_n_to_bytes(chsn.n)
            &&& so % 2 == 0
            &&& so + 16 * (6 + payload.len()) <= td.cells_of().len()
        }),
        td2.is_mfm_bitstream(),
        td2.cells_of() == write_sector_spec(td, chs, None, payload, false, false).1,
        td2.items_of() == write_sector_spec(td, chs, None, payload, false, false).3,
    ensures
        write_sector_spec(td, chs, None, payload, false, false).0 is Ok,
        read_sector_spec(td2, chs, None, RwSectorScope::DataOnly, false) is Ok,
        ({
            let m = read_sector_spec(td2, chs, None, RwSectorScope::DataOnly, false)->Ok_0;
            &&& m.buf == payload
            &&& m.data_len == payload.len()
            &&& !m.data_crc_error
            &&& !m.address_crc_error
        }),
{
    let (so, chsn, aok, dok, del) = bs_lookup(td.items_of(), chs, None)->0;
    let (res, ncells, _, nitems) = write_sector_spec(td, chs, None, payload, false, false);
    assert(payload.take(payload.len() as int) =~= payload);
    assert(ncells == bs_write_cells(td.cells_of(), so as int, payload, del));
    assert(ncells.len() == td.cells_of().len());
    lemma_lookup_after_refresh(td.items_of(), chs, None, so);
    assert(bs_lookup(nitems, chs, None) == Some((so, chsn, aok, true, del)));
    lemma_read_after_write(td.cells_of(), so as int, payload, del);
    assert(2 * ((so as int) / 2 + 32) == so + 64);
    assert(read_sector_spec(td2, chs, None, RwSectorScope::DataOnly, false)
        == bs_read_outcome(
        ncells,
        so as int,
        payload.len() as int,
        RwSectorScope::DataOnly,
        true,
        true,
        del,
        chsn.c != chs.c,
        chsn.h != chs.h,
    ));
}

/// The contract of reformatting a track in place: errors leave it
/// unchanged, and success rewrites the cells to the freshly formatted,
/// marker-anchored stream with every piece of derived state rebuilt
/// from it.
pub open spec fn format_post(
    old_td: TrackData,
    new_td: TrackData,
    format_buffer: Seq<DiskChsn>,
    fill_byte: u8,
    gap3: nat,
    r: Result<(), DiskImageError>,
) -> bool {
    &&& (r is Err ==> new_td == old_td)
    &&& (!old_td.is_mfm_bitstream() ==> r == Err::<(), DiskImageError>(
        DiskImageError::UnsupportedFormat,
    ))
    &&& (old_td.is_mfm_bitstream() && !spec_format_fits(
        format_buffer,
        fill_byte,
        gap3,
        old_td.cells_of().len() / 16,
    ) ==> r == Err::<(), DiskImageError>(DiskImageError::ParameterError))
    &&& (old_td.is_mfm_bitstream() && spec_format_fits(
        format_buffer,
        fill_byte,
        gap3,
        old_td.cells_of().len() / 16,
    ) ==> {
        let cap = old_td.cells_of().len() / 16;
        let tb = spec_format_bytes(format_buffer, fill_byte, gap3, cap);
        let mks = spec_format_markers(format_buffer, fill_byte, gap3);
        let cells1 = set_markers_upto(encode_cells(bits_of_bytes(tb), false), mks, mks.len() as int);
        let markers2 = spec_scan_markers(cells1);
        &&& r is Ok
        &&& new_td.is_mfm_bitstream()
        &&& new_td.cells_of() == cells1
        &&& new_td.items_of() == spec_scan_metadata(cells1, markers2)
        &&& new_td.ids_of() == spec_sector_ids(new_td.items_of())
        &&& new_td.track_clock() == clock_map_upto(
            falses(cells1.len()),
            markers2,
            markers2.len() as int,
            cells1.len() as int,
        )
        &&& new_td.track_weak() == falses(cells1.len())
        &&& new_td.spec_ch() == old_td.spec_ch()
        &&& new_td.enc_of() == old_td.enc_of()
        &&& new_td.rate_of() == old_td.rate_of()
        &&& new_td.dclock_of() == old_td.dclock_of()
    })
}

/// Everything of a track except its cell stream, payload buffer and
/// structure timeline: the representational level, addressing, id
/// order, weak planes and format settings.
pub open spec fn track_shape_eq(a: TrackData, b: TrackData) -> bool {
    &&& a.is_bitstream() == b.is_bitstream()
    &&& a.is_mfm_bitstream() == b.is_mfm_bitstream()
    &&& a.spec_ch() == b.spec_ch()
    &&& a.ids_of() == b.ids_of()
    &&& a.sectors_of() == b.sectors_of()
    &&& a.weak_mask_of() == b.weak_mask_of()
    &&& a.track_weak() == b.track_weak()
    &&& a.track_clock() == b.track_clock()
    &&& a.enc_of() == b.enc_of()
    &&& a.rate_of() == b.rate_of()
    &&& a.dclock_of() == b.dclock_of()
}

/// The sector and flags a bitstream lookup resolved to: the data
/// element's cell span, the address its IDAM carried, and the CRC and
/// deleted verdicts.
#[derive(Copy, Clone, Debug, PartialEq, Eq, Structural)]
pub struct TrackDataIndexResult {
    pub element_start: usize,
    pub element_end: usize,
    pub sector_chsn: DiskChsn,
    pub address_crc_valid: bool,
    pub data_crc_valid: bool,
    pub deleted: bool,
}

/// One track's data, at one of two representational levels: an encoded
/// bitstream with its derived structure timeline and sector-id order, or
/// decoded sector records over a shared payload buffer with a byte-level
/// weak mask.
pub enum TrackData {
    BitStream {
        encoding: DiskDataEncoding,
        data_rate: DiskDataRate,
        data_clock: u32,
        cylinder: u16,
        head: u8,
        data: TrackDataStream,
        metadata: DiskStructureMetadata,
        sector_ids: Vec<DiskChsn>,
    },
    ByteStream {
        encoding: DiskDataEncoding,
        data_rate: DiskDataRate,
        cylinder: u16,
        head: u8,
        sectors: Vec<TrackSectorIndex>,
        data: Vec<u8>,
        weak_mask: Vec<u8>,
    },
}

impl TrackData {
    /// Whether this track is a bitstream track.
    pub open spec fn is_bitstream(&self) -> bool {
        self is BitStream
    }

    /// Whether this track is a bitstream track over decoded MFM.
    pub open spec fn is_mfm_bitstream(&self) -> bool {
        match self {
            TrackData::BitStream { data, .. } => data.is_mfm(),
            _ => false,
        }
    }

    /// The cells of a bitstream track; empty for a bytestream track.
    pub open spec fn cells_of(&self) -> Seq<bool> {
        match self {
            TrackData::BitStream { data, .. } => data.s_cells(),
            _ => Seq::empty(),
        }
    }

    /// The structure timeline of a bitstream track; empty for a
    /// bytestream track.
    pub open spec fn items_of(&self) -> Seq<DiskStructureMetadataItem> {
        match self {
            TrackData::BitStream { metadata, .. } => metadata.items@,
            _ => Seq::empty(),
        }
    }

    /// The sector-id order of a bitstream track.
    pub open spec fn ids_of(&self) -> Seq<DiskChsn> {
        match self {
            TrackData::BitStream { sector_ids, .. } => sector_ids@,
            _ => Seq::empty(),
        }
    }

    /// The sector records of a bytestream track.
    pub open spec fn sectors_of(&self) -> Seq<TrackSectorIndex> {
        match self {
            TrackData::ByteStream { sectors, .. } => sectors@,
            _ => Seq::empty(),
        }
    }

    /// The payload buffer of a bytestream track.
    pub open spec fn bytes_of(&self) -> Seq<u8> {
        match self {
            TrackData::ByteStream { data, .. } => data@,
            _ => Seq::empty(),
        }
    }

    /// The byte-level weak mask of a bytestream track.
    pub open spec fn weak_mask_of(&self) -> Seq<u8> {
        match self {
            TrackData::ByteStream { weak_mask, .. } => weak_mask@,
            _ => Seq::empty(),
        }
    }

    /// The weak-bit mask of a bitstream track's stream.
    pub open spec fn track_weak(&self) -> Seq<bool> {
        match self {
            TrackData::BitStream { data, .. } => data.s_weak(),
            _ => Seq::empty(),
        }
    }

    /// The clock map of an MFM bitstream track.
    pub open spec fn track_clock(&self) -> Seq<bool> {
        match self {
            TrackData::BitStream { data: TrackDataStream::Mfm(c), .. } => c.clock_bits(),
            _ => Seq::empty(),
        }
    }

    /// The track's cell-level encoding tag.
    pub open spec fn enc_of(&self) -> DiskDataEncoding {
        match self {
            TrackData::BitStream { encoding, .. } => *encoding,
            TrackData::ByteStream { encoding, .. } => *encoding,
        }
    }

    /// The track's data rate.
    pub open spec fn rate_of(&self) -> DiskDataRate {
        match self {
            TrackData::BitStream { data_rate, .. } => *data_rate,
            TrackData::ByteStream { data_rate, .. } => *data_rate,
        }
    }

    /// The nominal cell clock of a bitstream track.
    pub open spec fn dclock_of(&self) -> u32 {
        match self {
            TrackData::BitStream { data_clock, .. } => *data_clock,
            _ => 0,
        }
    }

    /// The track address this data belongs to.
    pub open spec fn spec_ch(&self) -> DiskCh {
        match self {
            TrackData::BitStream { cylinder, head, .. } => DiskCh { c: *cylinder, h: *head },
            TrackData::ByteStream { cylinder, head, .. } => DiskCh { c: *cylinder, h: *head },
        }
    }

    /// Well-formedness: a bitstream track's codec planes agree; a
    /// bytestream track's records lie within its payload buffer.
    pub open spec fn wf(&self) -> bool {
        match self {
            TrackData::BitStream { data, .. } => data.s_wf(),
            TrackData::ByteStream { sectors, data, .. } => forall|i: int|
                0 <= i < sectors@.len() ==> (#[trigger] sectors@[i]).t_idx + sectors@[i].len
                    <= data@.len(),
        }
    }

    /// The bytes the track hashes to: the packed cells of a bitstream
    /// track, the payload buffer of a bytestream track.
    pub open spec fn hash_input(&self) -> Seq<u8> {
        match self {
            TrackData::BitStream { data, .. } => bytes_of_bits(data.s_cells()),
            TrackData::ByteStream { data, .. } => data@,
        }
    }

    /// The track address this data belongs to.
    pub fn ch(&self) -> (r: DiskCh)
        ensures
            r == self.spec_ch(),
    {
        match self {
            TrackData::BitStream { cylinder, head, .. } => DiskCh::new(*cylinder, *head),
            TrackData::ByteStream { cylinder, head, .. } => DiskCh::new(*cylinder, *head),
        }
    }

    /// The structure timeline of a bitstream track; a bytestream track
    /// has none.
    pub fn metadata(&self) -> (r: Option<&DiskStructureMetadata>)
        ensures
            self.is_bitstream() ==> r is Some && r->0.items@ == self.items_of(),
            !self.is_bitstream() ==> r is None,
    {
        match self {
            TrackData::BitStream { metadata, .. } => Some(metadata),
            TrackData::ByteStream { .. } => None,
        }
    }

    /// The SHA-1 of the track's committed contents, for change detection.
    pub fn get_hash(&self) -> (r: [u8; 20])
        ensures
            r@ == sha1_of(self.hash_input()),
    {
        match self {
            TrackData::BitStream { data, .. } => {
                let bytes = data.data();
                sha1_digest(&bytes)
            },
            TrackData::ByteStream { data, .. } => sha1_digest(data),
        }
    }

    /// The number of sectors the track carries: data elements for a
    /// bitstream track, records for a bytestream track.
    pub fn get_sector_ct(&self) -> (r: usize)
        ensures
            r == (match self {
                TrackData::ByteStream { .. } => self.sectors_of().len() as int,
                TrackData::BitStream { .. } => count_sector_items(self.items_of()),
            }),
    {
        match self {
            TrackData::ByteStream { sectors, .. } => sectors.len(),
            TrackData::BitStream { metadata, .. } => {
                let mut sector_ct: usize = 0;
                let mut i: usize = 0;
                while i < metadata.items.len()
                    invariant
                        i <= metadata.items@.len(),
                        sector_ct <= i,
                        sector_ct == count_sector_items(metadata.items@.take(i as int)),
                    decreases metadata.items@.len() - i,
                {
                    if metadata.items[i].elem_type.is_sector() {
                        sector_ct += 1;
                    }
                    proof {
                        assert(metadata.items@.take(i + 1).drop_last() =~= metadata.items@.take(
                            i as int,
                        ));
                    }
                    i += 1;
                }
                proof {
                    assert(metadata.items@.take(metadata.items@.len() as int)
                        =~= metadata.items@);
                }
                sector_ct
            },
        }
    }

    /// Whether any sector of the track carries the id `id`: any record
    /// for a bytestream track, any IDAM element for a bitstream track.
    pub fn has_sector_id(&self, id: u8) -> (r: bool)
        ensures
            r == (match self {
                TrackData::ByteStream { .. } => has_id_in_records(self.sectors_of(), id),
                TrackData::BitStream { .. } => has_idam_with_id(self.items_of(), id),
            }),
    {
        match self {
            TrackData::ByteStream { sectors, .. } => {
                let mut i: usize = 0;
                let mut found = false;
                while i < sectors.len()
                    invariant
                        i <= sectors@.len(),
                        found == exists|j: int|
                            0 <= j < i && (#[trigger] sectors@[j]).sector_id == id,
                    decreases sectors@.len() - i,
                {
                    if sectors[i].sector_id == id {
                        found = true;
                    }
                    i += 1;
                }
                found
            },
            TrackData::BitStream { metadata, .. } => {
                let mut i: usize = 0;
                let mut found = false;
                while i < metadata.items.len()
                    invariant
                        i <= metadata.items@.len(),
                        found == exists|j: int|
                            {
                                let it = #[trigger] metadata.items@[j];
                                &&& 0 <= j < i
                                &&& it.elem_type matches System34Element::Marker(
                                    System34Marker::Idam,
                                    _,
                                )
                                &&& it.chsn is Some
                                &&& it.chsn->0.s == id
                            },
                    decreases metadata.items@.len() - i,
                {
                    let it = &metadata.items[i];
                    match (it.elem_type, it.chsn) {
                        (System34Element::Marker(System34Marker::Idam, _), Some(chsn)) => {
                            if chsn.s == id {
                                found = true;
                            }
                        },
                        _ => {},
                    }
                    i += 1;
                }
                found
            },
        }
    }

    /// The sector listing of the track, in track order.
    pub fn get_sector_list(&self) -> (r: Vec<SectorMapEntry>)
        ensures
            r@ == (match self {
                TrackData::ByteStream { .. } => byte_sector_list(self.sectors_of()),
                TrackData::BitStream { .. } => bs_sector_list(self.items_of()),
            }),
    {
        match self {
            TrackData::ByteStream { sectors, .. } => {
                let mut out: Vec<SectorMapEntry> = Vec::new();
                let mut i: usize = 0;
                while i < sectors.len()
                    invariant
                        i <= sectors@.len(),
                        out@ == byte_sector_list(sectors@).take(i as int),
                    decreases sectors@.len() - i,
                {
                    let s = &sectors[i];
                    out.push(
                        SectorMapEntry {
                            chsn: DiskChsn::new(s.cylinder_id, s.head_id, s.sector_id, s.n),
                            address_crc_valid: !s.address_crc_error,
                            data_crc_valid: !s.data_crc_error,
                            deleted_mark: s.deleted_mark,
                        },
                    );
                    proof {
                        assert(byte_sector_list(sectors@).take(i + 1) =~= byte_sector_list(
                            sectors@,
                        ).take(i as int).push(entry_of_record(sectors@[i as int])));
                    }
                    i += 1;
                }
                proof {
                    assert(byte_sector_list(sectors@).take(sectors@.len() as int)
                        =~= byte_sector_list(sectors@));
                }
                out
            },
            TrackData::BitStream { metadata, .. } => {
                let mut out: Vec<SectorMapEntry> = Vec::new();
                let mut i: usize = 0;
                while i < metadata.items.len()
                    invariant
                        i <= metadata.items@.len(),
                        out@ == bs_sector_list(metadata.items@.take(i as int)),
                    decreases metadata.items@.len() - i,
                {
                    let it = &metadata.items[i];
                    match (it.elem_type, it.chsn) {
                        (
                            System34Element::Data { address_crc, data_crc, deleted },
                            Some(chsn),
                        ) => {
                            out.push(
                                SectorMapEntry {
                                    chsn,
                                    address_crc_valid: address_crc,
                                    data_crc_valid: data_crc,
                                    deleted_mark: deleted,
                                },
                            );
                        },
                        _ => {},
                    }
                    proof {
                        assert(metadata.items@.take(i + 1).drop_last() =~= metadata.items@.take(
                            i as int,
                        ));
                        assert(metadata.items@.take(i + 1).last() == metadata.items@[i as int]);
                    }
                    i += 1;
                }
                proof {
                    assert(metadata.items@.take(metadata.items@.len() as int)
                        =~= metadata.items@);
                }
                out
            },
        }
    }

    /// Resolves the sector with `seek_chs`'s id (and size code `n`,
    /// when one is demanded) on a bitstream track: the cell offset of
    /// its data element, its IDAM address, the two CRC verdicts and the
    /// deleted flag. Cylinder and head are not matched — a header that
    /// lies about its address is still found, and callers report the
    /// mismatch as a flag. The first matching data element wins.
    pub fn get_sector_bit_index(&self, seek_chs: DiskChs, n: Option<u8>) -> (r: Option<
        (usize, DiskChsn, bool, bool, bool),
    >)
        ensures
            r == (if self.is_bitstream() {
                bs_lookup(self.items_of(), seek_chs, n)
            } else {
                None::<(usize, DiskChsn, bool, bool, bool)>
            }),
    {
        match self {
            TrackData::BitStream { metadata, .. } => {
                let ghost gitems = metadata.items@;
                let mut matched = false;
                let mut idam: Option<DiskChsn> = None;
                let mut i: usize = 0;
                while i < metadata.items.len()
                    invariant
                        i <= gitems.len(),
                        gitems == metadata.items@,
                        self.is_bitstream(),
                        self.items_of() == gitems,
                        bs_lookup(gitems, seek_chs, n) == bs_lookup_from(
                            gitems,
                            i as int,
                            matched,
                            idam,
                            seek_chs,
                            n,
                        ),
                    decreases gitems.len() - i,
                {
                    let it = &metadata.items[i];
                    match it.elem_type {
                        System34Element::Marker(System34Marker::Idam, _) => {
                            match it.chsn {
                                Some(mc) => {
                                    if mc.s == seek_chs.s {
                                        let n_ok = match n {
                                            None => true,
                                            Some(nv) => mc.n == nv,
                                        };
                                        if n_ok {
                                            matched = true;
                                        }
                                    }
                                },
                                None => {},
                            }
                            idam = it.chsn;
                        },
                        System34Element::Data { address_crc, data_crc, deleted } => {
                            if matched {
                                if let Some(chsn) = idam {
                                    return Some((it.start, chsn, address_crc, data_crc, deleted));
                                }
                            }
                        },
                        _ => {},
                    }
                    i += 1;
                }
                None
            },
            TrackData::ByteStream { .. } => None,
        }
    }

    /// The first sector of a bitstream track at or after the cell index
    /// `bit_index`, with its span, address and verdicts.
    pub fn get_first_sector_at_bit_index(&self, bit_index: usize) -> (r: Option<
        TrackDataIndexResult,
    >)
        ensures
            r == (if self.is_bitstream() {
                spec_first_sector_at(self.items_of(), bit_index as int)
            } else {
                None::<TrackDataIndexResult>
            }),
    {
        match self {
            TrackData::BitStream { metadata, .. } => {
                let ghost gitems = metadata.items@;
                let mut matched = false;
                let mut idam: Option<DiskChsn> = None;
                let mut i: usize = 0;
                while i < metadata.items.len()
                    invariant
                        i <= gitems.len(),
                        gitems == metadata.items@,
                        self.is_bitstream(),
                        self.items_of() == gitems,
                        spec_first_sector_at(gitems, bit_index as int) == first_sector_from(
                            gitems,
                            i as int,
                            matched,
                            idam,
                            bit_index as int,
                        ),
                    decreases gitems.len() - i,
                {
                    let it = &metadata.items[i];
                    if it.start >= bit_index {
                        match it.elem_type {
                            System34Element::Marker(System34Marker::Idam, _) => {
                                idam = it.chsn;
                                matched = true;
                            },
                            System34Element::Data { address_crc, data_crc, deleted } => {
                                if matched {
                                    return match idam {
                                        Some(chsn) => Some(
                                            TrackDataIndexResult {
                                                element_start: it.start,
                                                element_end: it.end,
                                                sector_chsn: chsn,
                                                address_crc_valid: address_crc,
                                                data_crc_valid: data_crc,
                                                deleted: deleted,
                                            },
                                        ),
                                        None => None,
                                    };
                                }
                            },
                            _ => {},
                        }
                    }
                    i += 1;
                }
                None
            },
            TrackData::ByteStream { .. } => None,
        }
    }

    /// Reads `count` decoded bytes at the half-bit offset `offset >> 1`
    /// of a bitstream track, or `count` stored bytes at byte offset
    /// `offset` of a bytestream track.
    pub fn read_exact_at(&self, offset: usize, count: usize) -> (r: Result<Vec<u8>, DiskImageError>)
        requires
            self.wf(),
        ensures
            r == match self {
                TrackData::BitStream { data, .. } => {
                    if data.is_mfm() {
                        let cell = 2 * ((offset as int) / 2);
                        if cell + 16 * count <= data.s_cells().len() {
                            Ok::<Vec<u8>, DiskImageError>(r->Ok_0)
                        } else {
                            Err::<Vec<u8>, DiskImageError>(DiskImageError::IoError)
                        }
                    } else {
                        Err::<Vec<u8>, DiskImageError>(DiskImageError::UnsupportedFormat)
                    }
                },
                TrackData::ByteStream { data, .. } => {
                    if offset + count <= data@.len() {
                        Ok::<Vec<u8>, DiskImageError>(r->Ok_0)
                    } else {
                        Err::<Vec<u8>, DiskImageError>(DiskImageError::IoError)
                    }
                },
            },
            r is Ok ==> match self {
                TrackData::BitStream { data, .. } => r->Ok_0@ == decode_bytes(
                    data.s_cells(),
                    2 * ((offset as int) / 2),
                    count as nat,
                ),
                TrackData::ByteStream { data, .. } => r->Ok_0@ == data@.subrange(
                    offset as int,
                    offset + count,
                ),
            },
    {
        match self {
            TrackData::BitStream { data: TrackDataStream::Mfm(codec), .. } => {
                let half = offset / 2;
                let nn = codec.len();
                let c0 = 2 * half;
                if c0 > nn || (nn - c0) / 16 < count {
                    return Err(DiskImageError::IoError);
                }
                Ok(codec.read_decoded(half, count))
            },
            TrackData::BitStream { .. } => Err(DiskImageError::UnsupportedFormat),
            TrackData::ByteStream { data, .. } => {
                if offset > data.len() || data.len() - offset < count {
                    return Err(DiskImageError::IoError);
                }
                let mut out: Vec<u8> = Vec::new();
                let mut k: usize = 0;
                while k < count
                    invariant
                        k <= count,
                        offset + count <= data@.len(),
                        offset + count <= usize::MAX,
                        out@ == data@.subrange(offset as int, offset + k),
                    decreases count - k,
                {
                    out.push(data[offset + k]);
                    proof {
                        assert(data@.subrange(offset as int, offset + k + 1) =~= data@.subrange(
                            offset as int,
                            offset + k,
                        ).push(data@[offset + k]));
                    }
                    k += 1;
                }
                Ok(out)
            },
        }
    }

    /// Reads the sector `chs`, located by its sector id: a header whose
    /// cylinder or head differ from the requested address still yields
    /// its payload, with the mismatch flagged. On a bitstream track the
    /// first matching data element wins and the scope picks whether the
    /// address mark and CRC frame the payload; a bad header CRC yields
    /// an empty success with its flag set unless `debug` asks for the
    /// data anyway. On a bytestream track every matching record's
    /// payload is returned. A sector id absent from the track is a data
    /// error; CRC failures are flags on the result, never errors.
    pub fn read_sector(
        &self,
        chs: DiskChs,
        n: Option<u8>,
        scope: RwSectorScope,
        debug: bool,
    ) -> (r: Result<ReadSectorResult, DiskImageError>)
        requires
            self.wf(),
        ensures
            rs_result_matches(r, read_sector_spec(*self, chs, n, scope, debug)),
    {
        let bit_index = match self {
            TrackData::BitStream { .. } => self.get_sector_bit_index(chs, n),
            TrackData::ByteStream { .. } => None,
        };
        match self {
            TrackData::BitStream { data: TrackDataStream::Mfm(codec), .. } => {
                let (so, chsn, aok, dok, del) = match bit_index {
                    Some(t) => t,
                    None => {
                        return Err(DiskImageError::DataError);
                    },
                };
                let wrong_cylinder = chsn.c != chs.c;
                let wrong_head = chsn.h != chs.h;
                let address_crc_error = !aok;
                if address_crc_error && !debug {
                    return Ok(
                        ReadSectorResult {
                            data_idx: 0,
                            data_len: 0,
                            read_buf: Vec::new(),
                            deleted_mark: false,
                            address_crc_error: true,
                            data_crc_error: false,
                            wrong_cylinder,
                            wrong_head,
                        },
                    );
                }
                let data_len: usize;
                if let Some(nv) = n {
                    if debug {
                        if nv >= 8 {
                            return Err(DiskImageError::ParameterError);
                        }
                        data_len = DiskChsn::n_to_bytes(nv);
                    } else {
                        if chsn.n != nv {
                            return Err(DiskImageError::DataError);
                        }
                        if chsn.n >= 8 {
                            return Err(DiskImageError::ParameterError);
                        }
                        data_len = chsn.n_size();
                    }
                } else {
                    if chsn.n >= 8 {
                        return Err(DiskImageError::ParameterError);
                    }
                    data_len = chsn.n_size();
                }
                let read_off: usize = match scope {
                    RwSectorScope::DataBlock => 0,
                    RwSectorScope::DataOnly => 32,
                };
                let data_idx: usize = match scope {
                    RwSectorScope::DataBlock => 4,
                    RwSectorScope::DataOnly => 0,
                };
                let adj: usize = match scope {
                    RwSectorScope::DataBlock => 6,
                    RwSectorScope::DataOnly => 0,
                };
                let half = so / 2 + read_off;
                let total = data_len + adj;
                let nn = codec.len();
                if half > nn / 2 {
                    return Err(DiskImageError::IoError);
                }
                let c0 = 2 * half;
                if (nn - c0) / 16 < total {
                    return Err(DiskImageError::IoError);
                }
                let read_vec = codec.read_decoded(half, total);
                Ok(
                    ReadSectorResult {
                        data_idx,
                        data_len,
                        read_buf: read_vec,
                        deleted_mark: del,
                        address_crc_error,
                        data_crc_error: !dok,
                        wrong_cylinder,
                        wrong_head,
                    },
                )
            },
            TrackData::BitStream { .. } => Err(DiskImageError::UnsupportedFormat),
            TrackData::ByteStream { sectors, data, .. } => {
                match scope {
                    RwSectorScope::DataBlock => {
                        return Err(DiskImageError::ParameterError);
                    },
                    RwSectorScope::DataOnly => {},
                }
                let ghost gsec = sectors@;
                let ghost gdata = data@;
                let _dlen = data.len();
                let mut read_vec: Vec<u8> = Vec::new();
                let mut data_len: usize = 0;
                let mut data_crc_error = false;
                let mut wrong_cylinder = false;
                let mut deleted_mark = false;
                let mut found = false;
                let mut i: usize = 0;
                while i < sectors.len()
                    invariant
                        i <= gsec.len(),
                        gsec == sectors@,
                        gdata == data@,
                        gdata.len() <= usize::MAX,
                        self.wf(),
                        self is ByteStream,
                        self.sectors_of() == gsec,
                        self.bytes_of() == gdata,
                        read_vec@ == byte_read_fold(gsec, gdata, chs, i as int).buf,
                        data_len == byte_read_fold(gsec, gdata, chs, i as int).data_len,
                        data_crc_error == byte_read_fold(gsec, gdata, chs, i as int).data_crc_error,
                        wrong_cylinder == byte_read_fold(gsec, gdata, chs, i as int).wrong_cylinder,
                        deleted_mark == byte_read_fold(gsec, gdata, chs, i as int).deleted,
                        found == exists|j: int|
                            0 <= j < i && (#[trigger] gsec[j]).sector_id == chs.s,
                    decreases gsec.len() - i,
                {
                    let si = &sectors[i];
                    if si.sector_id == chs.s {
                        found = true;
                        proof {
                            assert(gsec[i as int].t_idx + gsec[i as int].len <= gdata.len());
                            assert(record_read_len(gsec[i as int], gdata.len() as int)
                                == gsec[i as int].len as int);
                        }
                        let dl = si.len;
                        let t0 = si.t_idx;
                        let mut k: usize = 0;
                        while k < dl
                            invariant
                                k <= dl,
                                t0 + dl <= gdata.len(),
                                t0 + dl <= usize::MAX,
                                gdata == data@,
                                read_vec@ == byte_read_fold(gsec, gdata, chs, i as int).buf
                                    + gdata.subrange(t0 as int, t0 + k),
                            decreases dl - k,
                        {
                            read_vec.push(data[t0 + k]);
                            proof {
                                assert(gdata.subrange(t0 as int, t0 + k + 1) =~= gdata.subrange(
                                    t0 as int,
                                    t0 + k,
                                ).push(gdata[t0 + k]));
                            }
                            k += 1;
                        }
                        data_len = dl;
                        if si.data_crc_error {
                            data_crc_error = true;
                        }
                        if si.cylinder_id != chs.c {
                            wrong_cylinder = true;
                        }
                        if si.deleted_mark {
                            deleted_mark = true;
                        }
                    }
                    i += 1;
                }
                if !found {
                    return Err(DiskImageError::DataError);
                }
                Ok(
                    ReadSectorResult {
                        data_idx: 0,
                        data_len,
                        read_buf: read_vec,
                        deleted_mark,
                        address_crc_error: false,
                        data_crc_error,
                        wrong_cylinder,
                        wrong_head: false,
                    },
                )
            },
        }
    }

    /// Writes `write_data` into the sector `chs`. On a bitstream track
    /// the payload is re-encoded past the sector's data mark and a fresh
    /// CRC of mark and payload is laid down after it; a bad header CRC
    /// stops the write with its flag set unless `debug` forces it. On a
    /// bytestream track the first matching record's payload is replaced
    /// in place. Buffer sizes must match the size code exactly, except
    /// that a diagnostic write clips to the buffer.
    #[verifier::rlimit(100)]
    pub fn write_sector(
        &mut self,
        chs: DiskChs,
        n: Option<u8>,
        write_data: &[u8],
        _scope: RwSectorScope,
        write_deleted: bool,
        debug: bool,
    ) -> (r: Result<WriteSectorResult, DiskImageError>)
        requires
            old(self).wf(),
        ensures
            final(self).wf(),
            track_shape_eq(*old(self), *final(self)),
            ({
                let (res, ncells, nbytes, nitems) = write_sector_spec(
                    *old(self),
                    chs,
                    n,
                    write_data@,
                    write_deleted,
                    debug,
                );
                &&& r == res
                &&& final(self).cells_of() == ncells
                &&& final(self).bytes_of() == nbytes
                &&& final(self).items_of() == nitems
            }),
    {
        let bit_index = match self {
            TrackData::BitStream { .. } => self.get_sector_bit_index(chs, n),
            TrackData::ByteStream { .. } => None,
        };
        let ghost old_self = *self;
        match self {
            TrackData::BitStream { data: TrackDataStream::Mfm(codec), metadata, .. } => {
                let ghost items0 = metadata.items@;
                let (so, chsn, aok, dok, del) = match bit_index {
                    Some(t) => t,
                    None => {
                        return Err(DiskImageError::DataError);
                    },
                };
                let wrong_cylinder = chsn.c != chs.c;
                let wrong_head = chsn.h != chs.h;
                let address_crc_error = !aok;
                if address_crc_error && !debug {
                    return Ok(
                        WriteSectorResult {
                            not_found: false,
                            address_crc_error: true,
                            wrong_cylinder,
                            wrong_head,
                        },
                    );
                }
                let data_len: usize;
                if let Some(nv) = n {
                    if debug {
                        if nv >= 8 {
                            return Err(DiskImageError::ParameterError);
                        }
                        let sz = DiskChsn::n_to_bytes(nv);
                        data_len = if write_data.len() < sz {
                            write_data.len()
                        } else {
                            sz
                        };
                    } else {
                        if chsn.n != nv {
                            return Err(DiskImageError::DataError);
                        }
                        if chsn.n >= 8 {
                            return Err(DiskImageError::ParameterError);
                        }
                        data_len = chsn.n_size();
                        if data_len > write_data.len() {
                            return Err(DiskImageError::ParameterError);
                        }
                    }
                } else {
                    if chsn.n >= 8 {
                        return Err(DiskImageError::ParameterError);
                    }
                    if DiskChsn::n_to_bytes(chsn.n) != write_data.len() {
                        return Err(DiskImageError::ParameterError);
                    }
                    data_len = chsn.n_size();
                }
                let nn = codec.len();
                let need = 16 * (6 + data_len);
                if so > nn || nn - so < need {
                    return Err(DiskImageError::IoError);
                }
                let payload = vstd::slice::slice_subrange(write_data, 0, data_len);
                codec.write_encoded(so + 64, payload);
                let mark = System34Parser::marker_bytes(
                    if del {
                        System34Marker::Ddam
                    } else {
                        System34Marker::Dam
                    },
                );
                let crc1 = crc_ccitt(mark.as_slice(), None);
                let crc = crc_ccitt(payload, Some(crc1));
                let hi: u8 = #[verifier::truncate] ((crc >> 8u16) as u8);
                let lo: u8 = #[verifier::truncate] ((crc & 0xFF) as u8);
                let crc_bytes: Vec<u8> = vec![hi, lo];
                codec.write_encoded(so + 16 * (4 + data_len), crc_bytes.as_slice());
                proof {
                    lemma_crc_append(mark@, payload@, 0xFFFF);
                    assert(payload@ =~= write_data@.take(data_len as int));
                    let spec_crc = spec_crc_ccitt(
                        mark_bytes_for(del) + write_data@.take(data_len as int),
                        0xFFFF,
                    );
                    assert(mark@ + payload@ =~= mark_bytes_for(del) + write_data@.take(
                        data_len as int,
                    ));
                    assert(crc_bytes@ =~= seq![
                        (spec_crc >> 8u16) as u8,
                        (spec_crc & 0xFF) as u8,
                    ]);
                    assert(codec.cells() =~= bs_write_cells(
                        old_self.cells_of(),
                        so as int,
                        write_data@.take(data_len as int),
                        del,
                    ));
                }
                // The cells changed under the timeline: refresh the
                // written element's data-CRC verdict so that metadata
                // and cells agree again.
                let items_len = metadata.items.len();
                let mut k: usize = 0;
                while k < items_len
                    invariant
                        k <= items_len,
                        items_len == items0.len(),
                        metadata.items@.len() == items0.len(),
                        forall|x: int|
                            0 <= x < k ==> metadata.items@[x] == #[trigger] refresh_data_crc(
                                items0,
                                so,
                            )[x],
                        forall|x: int|
                            k <= x < items0.len() ==> #[trigger] metadata.items@[x] == items0[x],
                    decreases items_len - k,
                {
                    let it = metadata.items[k];
                    match it.elem_type {
                        System34Element::Data { address_crc, data_crc, deleted } => {
                            if it.start == so {
                                metadata.items.set(
                                    k,
                                    DiskStructureMetadataItem {
                                        elem_type: System34Element::Data {
                                            address_crc,
                                            data_crc: true,
                                            deleted,
                                        },
                                        start: it.start,
                                        end: it.end,
                                        chsn: it.chsn,
                                    },
                                );
                            }
                        },
                        _ => {},
                    }
                    k += 1;
                }
                proof {
                    assert(metadata.items@ =~= refresh_data_crc(items0, so));
                }
                Ok(
                    WriteSectorResult {
                        not_found: false,
                        address_crc_error: false,
                        wrong_cylinder,
                        wrong_head,
                    },
                )
            },
            TrackData::BitStream { .. } => Err(DiskImageError::UnsupportedFormat),
            TrackData::ByteStream { sectors, data, .. } => {
                let ghost gsec = sectors@;
                let mut fidx: Option<usize> = None;
                let mut i: usize = 0;
                while i < sectors.len()
                    invariant_except_break
                        fidx is None,
                    invariant
                        i <= gsec.len(),
                        gsec == sectors@,
                        byte_write_find(gsec, chs, n, 0) == byte_write_find(gsec, chs, n, i as int),
                    ensures
                        gsec == sectors@,
                        match fidx {
                            Some(j) => byte_write_find(gsec, chs, n, 0) == Some(j as int),
                            None => byte_write_find(gsec, chs, n, 0) is None,
                        },
                    decreases gsec.len() - i,
                {
                    let si = &sectors[i];
                    let mut sector_match = si.sector_id == chs.s;
                    if let Some(nv) = n {
                        sector_match = sector_match && si.n == nv;
                    }
                    if sector_match {
                        fidx = Some(i);
                        break ;
                    }
                    i += 1;
                }
                proof {
                    lemma_byte_write_find_range(gsec, chs, n, 0);
                }
                let j = match fidx {
                    None => {
                        return Err(DiskImageError::DataError);
                    },
                    Some(j) => j,
                };
                let si = sectors[j];
                if si.n >= 8 {
                    return Err(DiskImageError::ParameterError);
                }
                let write_data_len = write_data.len();
                if DiskChsn::n_to_bytes(si.n) != write_data_len {
                    return Err(DiskImageError::ParameterError);
                }
                let wrong_cylinder = si.cylinder_id != chs.c;
                let wrong_head = si.head_id != chs.h;
                if si.t_idx > data.len() || data.len() - si.t_idx < write_data_len {
                    return Err(DiskImageError::ParameterError);
                }
                let ghost gdata0 = data@;
                let t0 = si.t_idx;
                let mut k: usize = 0;
                while k < write_data_len
                    invariant
                        k <= write_data_len,
                        t0 + write_data_len <= gdata0.len(),
                        t0 + write_data_len <= usize::MAX,
                        write_data_len == write_data@.len(),
                        data@.len() == gdata0.len(),
                        forall|x: int|
                            0 <= x < gdata0.len() && !(t0 <= x < t0 + k) ==> data@[x] == gdata0[x],
                        forall|x: int| t0 <= x < t0 + k ==> data@[x] == write_data@[x - t0],
                    decreases write_data_len - k,
                {
                    data.set(t0 + k, write_data[k]);
                    k += 1;
                }
                proof {
                    assert(data@ =~= Seq::new(
                        gdata0.len(),
                        |x: int|
                            if t0 <= x < t0 + write_data@.len() {
                                write_data@[x - t0]
                            } else {
                                gdata0[x]
                            },
                    ));
                }
                Ok(
                    WriteSectorResult {
                        not_found: false,
                        address_crc_error: false,
                        wrong_cylinder,
                        wrong_head,
                    },
                )
            },
        }
    }

    /// The id after `chs`'s sector id in the physical interleave order,
    /// wrapping to the first id at the end of the track; `None` when the
    /// id is not on the track at all.
    pub fn get_next_id(&self, chs: DiskChs) -> (r: Option<DiskChsn>)
        ensures
            r == spec_next_id(track_ids_for(*self, chs), chs.s),
    {
        match self {
            TrackData::BitStream { sector_ids, .. } => {
                let ghost ids = sector_ids@;
                if sector_ids.len() == 0 {
                    return None;
                }
                let first_sector = sector_ids[0];
                let mut j: usize = 0;
                while j < sector_ids.len()
                    invariant
                        j <= ids.len(),
                        ids == sector_ids@,
                        ids.len() > 0,
                        first_sector == ids[0],
                        self is BitStream,
                        self.ids_of() == ids,
                        track_ids_for(*self, chs) == ids,
                        first_id_match(ids, chs.s, 0) == first_id_match(ids, chs.s, j as int),
                    decreases ids.len() - j,
                {
                    if sector_ids[j].s == chs.s {
                        if j + 1 < sector_ids.len() {
                            return Some(sector_ids[j + 1]);
                        } else {
                            return Some(first_sector);
                        }
                    }
                    j += 1;
                }
                None
            },
            TrackData::ByteStream { sectors, .. } => {
                let ghost ids = track_ids_for(*self, chs);
                if sectors.len() == 0 {
                    return None;
                }
                let first = &sectors[0];
                let first_id = DiskChsn::new(chs.c, chs.h, first.sector_id, first.n);
                let mut j: usize = 0;
                while j < sectors.len()
                    invariant
                        j <= sectors@.len(),
                        ids == track_ids_for(*self, chs),
                        self is ByteStream,
                        self.sectors_of() == sectors@,
                        ids.len() == sectors@.len(),
                        sectors@.len() > 0,
                        first_id == ids[0],
                        forall|t: int|
                            0 <= t < sectors@.len() ==> #[trigger] ids[t] == (DiskChsn {
                                c: chs.c,
                                h: chs.h,
                                s: sectors@[t].sector_id,
                                n: sectors@[t].n,
                            }),
                        first_id_match(ids, chs.s, 0) == first_id_match(ids, chs.s, j as int),
                    decreases sectors@.len() - j,
                {
                    if sectors[j].sector_id == chs.s {
                        if j + 1 < sectors.len() {
                            let nx = &sectors[j + 1];
                            return Some(DiskChsn::new(chs.c, chs.h, nx.sector_id, nx.n));
                        } else {
                            return Some(first_id);
                        }
                    }
                    j += 1;
                }
                None
            },
        }
    }

    /// Dumps the whole track: every cell decoded in order, sixteen cells
    /// per byte, with a final partial byte padded with zero bits. Only a
    /// decoded MFM bitstream track supports this.
    pub fn read_track(&self, _ch: DiskCh) -> (r: Result<ReadTrackResult, DiskImageError>)
        requires
            self.wf(),
        ensures
            self.is_mfm_bitstream() ==> {
                let ds = self.cells_of().len() / 16 + if self.cells_of().len() % 16 > 0 {
                    1int
                } else {
                    0int
                };
                &&& r is Ok
                &&& r->Ok_0.read_buf@ == decode_bytes(self.cells_of(), 0, ds as nat)
                &&& r->Ok_0.not_found == false
                &&& r->Ok_0.sectors_read == 0
                &&& r->Ok_0.deleted_mark == false
                &&& r->Ok_0.address_crc_error == false
                &&& r->Ok_0.data_crc_error == false
            },
            !self.is_mfm_bitstream() ==> r == Err::<ReadTrackResult, DiskImageError>(
                DiskImageError::UnsupportedFormat,
            ),
    {
        match self {
            TrackData::BitStream { data: TrackDataStream::Mfm(codec), .. } => {
                let len = codec.len();
                let ds = len / 16 + if len % 16 > 0 {
                    1
                } else {
                    0
                };
                let mut buf: Vec<u8> = Vec::new();
                let mut j: usize = 0;
                while j < ds
                    invariant
                        j <= ds,
                        codec.wf(),
                        len == codec.cells().len(),
                        16 * ds <= len + 15,
                        buf@ == decode_bytes(codec.cells(), 0, j as nat),
                    decreases ds - j,
                {
                    let byte = codec.decode_byte_padded(16 * j);
                    buf.push(byte);
                    proof {
                        assert(decode_bytes(codec.cells(), 0, (j + 1) as nat) =~= decode_bytes(
                            codec.cells(),
                            0,
                            j as nat,
                        ).push(decoded_byte(codec.cells(), 16 * j)));
                    }
                    j += 1;
                }
                Ok(
                    ReadTrackResult {
                        not_found: false,
                        sectors_read: 0,
                        read_buf: buf,
                        deleted_mark: false,
                        address_crc_error: false,
                        data_crc_error: false,
                    },
                )
            },
            _ => Err(DiskImageError::UnsupportedFormat),
        }
    }

    /// Reads sectors off the whole track in physical order, every one
    /// with the fixed size code `n` — per-sector size codes are ignored,
    /// as the Read Track command of a floppy controller ignores them —
    /// until a sector id equals `eot`. CRC verdicts accumulate as flags
    /// on the result.
    pub fn read_all_sectors(&self, ch: DiskCh, n: u8, eot: u8) -> (r: Result<
        ReadTrackResult,
        DiskImageError,
    >)
        requires
            self.wf(),
        ensures
            rt_result_matches(r, read_all_spec(*self, n, eot)),
    {
        match self {
            TrackData::BitStream { .. } => self.read_all_sectors_bitstream(ch, n, eot),
            TrackData::ByteStream { .. } => self.read_all_sectors_bytestream(ch, n, eot),
        }
    }

    fn read_all_sectors_bitstream(&self, _ch: DiskCh, n: u8, eot: u8) -> (r: Result<
        ReadTrackResult,
        DiskImageError,
    >)
        requires
            self.wf(),
            self.is_bitstream(),
        ensures
            rt_result_matches(r, read_all_spec(*self, n, eot)),
    {
        if n >= 8 {
            return Err(DiskImageError::ParameterError);
        }
        let size = DiskChsn::n_to_bytes(n);
        let mut track_read_vec: Vec<u8> = Vec::new();
        let mut data_crc_error = false;
        let mut address_crc_error = false;
        let mut deleted_mark = false;
        let mut not_found = true;
        let mut sectors_read: u16 = 0;
        let mut bit: usize = 0;
        match self.get_first_sector_at_bit_index(0) {
            Some(_) => {},
            None => {
                return Err(DiskImageError::DataError);
            },
        }
        loop
            invariant_except_break
                read_all_spec(*self, n, eot) == read_all_bs_from(
                    self.items_of(),
                    self.cells_of(),
                    self.is_mfm_bitstream(),
                    bit as int,
                    spec_n_to_bytes(n) as int,
                    eot,
                    RtModel {
                        not_found,
                        sectors_read,
                        buf: track_read_vec@,
                        deleted: deleted_mark,
                        aerr: address_crc_error,
                        derr: data_crc_error,
                    },
                ),
            invariant
                self.wf(),
                self is BitStream,
                n < 8,
                size == spec_n_to_bytes(n),
                128 <= size <= 16384,
            ensures
                read_all_spec(*self, n, eot) == Ok::<RtModel, DiskImageError>(
                    RtModel {
                        not_found,
                        sectors_read,
                        buf: track_read_vec@,
                        deleted: deleted_mark,
                        aerr: address_crc_error,
                        derr: data_crc_error,
                    },
                ),
            decreases usize::MAX as int + 1 - bit,
        {
            let tdir = match self.get_first_sector_at_bit_index(bit) {
                Some(t) => t,
                None => {
                    break ;
                },
            };
            not_found = false;
            address_crc_error = address_crc_error || !tdir.address_crc_valid;
            data_crc_error = data_crc_error || !tdir.data_crc_valid;
            deleted_mark = deleted_mark || tdir.deleted;
            match self {
                TrackData::BitStream { data: TrackDataStream::Mfm(_), .. } => {},
                _ => {
                    return Err(DiskImageError::UnsupportedFormat);
                },
            }
            if tdir.element_start > usize::MAX - 64 {
                proof {
                    let so = tdir.element_start as int;
                    assert(2 * ((so + 64) / 2) >= so + 63);
                    assert(self.cells_of().len() <= usize::MAX);
                }
                return Err(DiskImageError::IoError);
            }
            let piece = match self.read_exact_at(tdir.element_start + 64, size) {
                Ok(v) => v,
                Err(e) => {
                    return Err(e);
                },
            };
            let mut t: usize = 0;
            let ghost buf0 = track_read_vec@;
            while t < piece.len()
                invariant
                    t <= piece@.len(),
                    track_read_vec@ == buf0 + piece@.take(t as int),
                decreases piece@.len() - t,
            {
                track_read_vec.push(piece[t]);
                proof {
                    assert(buf0 + piece@.take(t + 1) =~= (buf0 + piece@.take(t as int)).push(
                        piece@[t as int],
                    ));
                }
                t += 1;
            }
            proof {
                assert(track_read_vec@ =~= buf0 + piece@);
            }
            sectors_read = if sectors_read == 0xFFFF {
                sectors_read
            } else {
                sectors_read + 1
            };
            if tdir.sector_chsn.s == eot {
                break ;
            }
            if tdir.element_end <= bit {
                break ;
            }
            bit = tdir.element_end;
        }
        Ok(
            ReadTrackResult {
                not_found,
                sectors_read,
                read_buf: track_read_vec,
                deleted_mark,
                address_crc_error,
                data_crc_error,
            },
        )
    }

    fn read_all_sectors_bytestream(&self, _ch: DiskCh, n: u8, eot: u8) -> (r: Result<
        ReadTrackResult,
        DiskImageError,
    >)
        requires
            self.wf(),
            self is ByteStream,
        ensures
            rt_result_matches(r, read_all_spec(*self, n, eot)),
    {
        if n >= 8 {
            return Err(DiskImageError::ParameterError);
        }
        let eot16: u16 = eot as u16;
        let size = DiskChsn::n_to_bytes(n);
        match self {
            TrackData::ByteStream { sectors, data, .. } => {
                let ghost gsec = sectors@;
                let ghost gdata = data@;
                let _dlen = data.len();
                let mut track_read_vec: Vec<u8> = Vec::new();
                let mut address_crc_error = false;
                let mut data_crc_error = false;
                let mut deleted_mark = false;
                let mut last_data_end: usize = 0;
                let mut not_found = true;
                let mut sectors_read: u16 = 0;
                let mut i: usize = 0;
                while i < sectors.len()
                    invariant
                        i <= gsec.len(),
                        gsec == sectors@,
                        gdata == data@,
                        gdata.len() <= usize::MAX,
                        size == spec_n_to_bytes(n),
                        self.wf(),
                        self is ByteStream,
                        self.sectors_of() == gsec,
                        self.bytes_of() == gdata,
                        read_all_byte_from(gsec, gdata, size as int, eot16, 0, rt_init(), 0)
                            == read_all_byte_from(
                            gsec,
                            gdata,
                            size as int,
                            eot16,
                            i as int,
                            RtModel {
                                not_found,
                                sectors_read,
                                buf: track_read_vec@,
                                deleted: deleted_mark,
                                aerr: address_crc_error,
                                derr: data_crc_error,
                            },
                            last_data_end as int,
                        ),
                    ensures
                        read_all_byte_from(gsec, gdata, size as int, eot16, 0, rt_init(), 0)
                            == (RtModel {
                            not_found,
                            sectors_read,
                            buf: track_read_vec@,
                            deleted: deleted_mark,
                            aerr: address_crc_error,
                            derr: data_crc_error,
                        }),
                    decreases gsec.len() - i,
                {
                    let si = &sectors[i];
                    not_found = false;
                    if sectors_read >= eot16 {
                        proof {
                            assert(read_all_byte_from(
                                gsec,
                                gdata,
                                size as int,
                                eot16,
                                i as int,
                                RtModel {
                                    not_found: true,
                                    sectors_read,
                                    buf: track_read_vec@,
                                    deleted: deleted_mark,
                                    aerr: address_crc_error,
                                    derr: data_crc_error,
                                },
                                last_data_end as int,
                            ) == read_all_byte_from(
                                gsec,
                                gdata,
                                size as int,
                                eot16,
                                i as int,
                                RtModel {
                                    not_found: false,
                                    sectors_read,
                                    buf: track_read_vec@,
                                    deleted: deleted_mark,
                                    aerr: address_crc_error,
                                    derr: data_crc_error,
                                },
                                last_data_end as int,
                            ));
                        }
                        break ;
                    }
                    if si.t_idx < last_data_end {
                        i += 1;
                        continue ;
                    }
                    let avail = if si.t_idx <= data.len() {
                        data.len() - si.t_idx
                    } else {
                        0
                    };
                    let dl = if size <= avail {
                        size
                    } else {
                        avail
                    };
                    let t0 = si.t_idx;
                    let ghost buf0 = track_read_vec@;
                    let mut k: usize = 0;
                    while k < dl
                        invariant
                            k <= dl,
                            t0 + dl <= gdata.len(),
                            t0 + dl <= usize::MAX,
                            gdata == data@,
                            track_read_vec@ == buf0 + gdata.subrange(t0 as int, t0 + k),
                        decreases dl - k,
                    {
                        track_read_vec.push(data[t0 + k]);
                        proof {
                            assert(gdata.subrange(t0 as int, t0 + k + 1) =~= gdata.subrange(
                                t0 as int,
                                t0 + k,
                            ).push(gdata[t0 + k]));
                        }
                        k += 1;
                    }
                    sectors_read = if sectors_read == 0xFFFF {
                        sectors_read
                    } else {
                        sectors_read + 1
                    };
                    last_data_end = t0 + dl;
                    if si.address_crc_error {
                        address_crc_error = true;
                    }
                    if si.data_crc_error {
                        data_crc_error = true;
                    }
                    if si.deleted_mark {
                        deleted_mark = true;
                    }
                    i += 1;
                }
                Ok(
                    ReadTrackResult {
                        not_found,
                        sectors_read,
                        read_buf: track_read_vec,
                        deleted_mark,
                        address_crc_error,
                        data_crc_error,
                    },
                )
            },
            _ => Err(DiskImageError::UnsupportedFormat),
        }
    }

    /// Reformats a decoded-MFM bitstream track in place, preserving its
    /// physical cell count: the track bytes are synthesised afresh for
    /// the given sectors, encoded, the markers written with their
    /// illegal clock patterns, and the clock map, structure timeline and
    /// id order all re-derived from the rewritten cells. Fails, leaving
    /// the track unchanged, when the track is not decoded MFM or the
    /// layout does not fit.
    #[verifier::rlimit(100)]
    pub fn format(
        &mut self,
        standard: System34Standard,
        format_buffer: Vec<DiskChsn>,
        fill_byte: u8,
        gap3: usize,
    ) -> (r: Result<(), DiskImageError>)
        requires
            old(self).wf(),
        ensures
            final(self).wf(),
            format_post(*old(self), *final(self), format_buffer@, fill_byte, gap3 as nat, r),
    {
        let ghost old_self = *old(self);
        match self {
            TrackData::BitStream { data, metadata, sector_ids, .. } => {
                match data {
                    TrackDataStream::Mfm(codec) => {
                        let bitcell_ct = codec.len();
                        let fr = match System34Parser::format_track_as_bytes(
                            standard,
                            bitcell_ct,
                            format_buffer,
                            fill_byte,
                            gap3,
                        ) {
                            Ok(fr) => fr,
                            Err(e) => {
                                return Err(e);
                            },
                        };
                        codec.replace_encoded(fr.track_bytes.as_slice());
                        proof {
                            lemma_format_markers_fit(
                                format_buffer@,
                                fill_byte,
                                gap3 as nat,
                                (bitcell_ct / 16) as nat,
                            );
                        }
                        match System34Parser::set_track_markers(codec, &fr.markers) {
                            Ok(()) => {},
                            Err(e) => {
                                proof {
                                    assert(false);
                                }
                                return Err(e);
                            },
                        }
                        let markers2 = System34Parser::scan_track_markers(codec);
                        System34Parser::create_clock_map(&markers2, codec);
                        let new_items = System34Parser::scan_track_metadata(codec, &markers2);
                        let new_metadata = DiskStructureMetadata::new(new_items);
                        let new_ids = new_metadata.get_sector_ids();
                        *metadata = new_metadata;
                        *sector_ids = new_ids;
                        Ok(())
                    },
                    _ => Err(DiskImageError::UnsupportedFormat),
                }
            },
            TrackData::ByteStream { .. } => Err(DiskImageError::UnsupportedFormat),
        }
    }

    /// Whether the track carries any weak bit.
    pub fn has_weak_bits(&self) -> (r: bool)
        requires
            self.wf(),
        ensures
            r == (match self {
                TrackData::BitStream { data, .. } => any_weak(data.s_weak()),
                TrackData::ByteStream { weak_mask, .. } => any_nonzero(weak_mask@),
            }),
    {
        match self {
            TrackData::BitStream { data, .. } => data.has_weak_bits(),
            TrackData::ByteStream { weak_mask, .. } => {
                let n = weak_mask.len();
                let mut i: usize = 0;
                let mut found = false;
                while i < n
                    invariant
                        i <= n,
                        n == weak_mask@.len(),
                        found == exists|j: int| 0 <= j < i && weak_mask@[j] != 0,
                    decreases n - i,
                {
                    if weak_mask[i] != 0 {
                        found = true;
                    }
                    i += 1;
                }
                found
            },
        }
    }
}

} // verus!
