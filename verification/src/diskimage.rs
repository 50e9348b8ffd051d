//! The disk image: a pool of tracks indexed by head and cylinder, a
//! descriptor and consistency summary, and sector-oriented operations
//! routed to the owning track.

use crate::bits::bits_of_bytes;
use crate::chs::{DiskCh, DiskChs, DiskChsn};
use crate::mfm::{falses, MfmCodec, RawCodec};
use crate::system34::{
    clock_map_upto, spec_scan_markers, spec_scan_metadata, spec_sector_ids, DiskStructureMetadata,
    System34Parser, System34Standard,
};
use crate::trackdata::{
    bs_sector_list, byte_sector_list, count_sector_items, has_id_in_records, has_idam_with_id,
    format_post, read_sector_spec, rs_result_matches, track_shape_eq, write_sector_spec,
    TrackData,
};
use crate::{
    DiskDataEncoding, DiskDataRate, DiskImageError, DiskRpm, EncodingPhase, DEFAULT_SECTOR_SIZE,
};
use vstd::prelude::*;

verus! {

/// The on-disk container formats a disk image can be loaded from. The
/// loaders themselves live outside the core; the core only names them.
#[derive(Copy, Clone, Debug, PartialEq, Eq, Structural)]
pub enum DiskImageFormat {
    RawSectorImage,
    ImageDisk,
    PceSectorImage,
    PceBitstreamImage,
    MfmBitstreamImage,
    TeleDisk,
    KryofluxStream,
    HfeImage,
}

impl DiskImageFormat {
    /// A human-readable name for the container format.
    pub open spec fn spec_name(self) -> Seq<char> {
        match self {
            DiskImageFormat::RawSectorImage => "Raw Sector Image"@,
            DiskImageFormat::PceSectorImage => "PCE Sector Image"@,
            DiskImageFormat::PceBitstreamImage => "PCE Bitstream Image"@,
            DiskImageFormat::ImageDisk => "ImageDisk"@,
            DiskImageFormat::TeleDisk => "TeleDisk"@,
            DiskImageFormat::KryofluxStream => "Kryoflux Stream"@,
            DiskImageFormat::MfmBitstreamImage => "HxC MFM Bitstream Image"@,
            DiskImageFormat::HfeImage => "HFEv1 Bitstream Image"@,
        }
    }

    /// A human-readable name for the container format.
    pub fn name(&self) -> (r: &'static str)
        ensures
            r@ == self.spec_name(),
    {
        match self {
            DiskImageFormat::RawSectorImage => "Raw Sector Image",
            DiskImageFormat::PceSectorImage => "PCE Sector Image",
            DiskImageFormat::PceBitstreamImage => "PCE Bitstream Image",
            DiskImageFormat::ImageDisk => "ImageDisk",
            DiskImageFormat::TeleDisk => "TeleDisk",
            DiskImageFormat::KryofluxStream => "Kryoflux Stream",
            DiskImageFormat::MfmBitstreamImage => "HxC MFM Bitstream Image",
            DiskImageFormat::HfeImage => "HFEv1 Bitstream Image",
        }
    }
}

/// The nominal floppy formats the library knows, plus a custom geometry
/// and an unknown marker.
#[derive(Debug, Copy, Clone, Hash, Eq, PartialEq, Structural)]
pub enum FloppyFormat {
    Unknown,
    FloppyCustom(DiskChs),
    PcFloppy160,
    PcFloppy180,
    PcFloppy320,
    PcFloppy360,
    PcFloppy720,
    PcFloppy1200,
    PcFloppy1440,
    PcFloppy2880,
}

/// The geometry of each nominal format.
pub open spec fn spec_format_chs(f: FloppyFormat) -> DiskChs {
    match f {
        FloppyFormat::Unknown => DiskChs { c: 0, h: 0, s: 0 },
        FloppyFormat::FloppyCustom(chs) => chs,
        FloppyFormat::PcFloppy160 => DiskChs { c: 40, h: 1, s: 8 },
        FloppyFormat::PcFloppy180 => DiskChs { c: 40, h: 1, s: 9 },
        FloppyFormat::PcFloppy320 => DiskChs { c: 40, h: 2, s: 8 },
        FloppyFormat::PcFloppy360 => DiskChs { c: 40, h: 2, s: 9 },
        FloppyFormat::PcFloppy720 => DiskChs { c: 80, h: 2, s: 9 },
        FloppyFormat::PcFloppy1200 => DiskChs { c: 80, h: 2, s: 15 },
        FloppyFormat::PcFloppy1440 => DiskChs { c: 80, h: 2, s: 18 },
        FloppyFormat::PcFloppy2880 => DiskChs { c: 80, h: 2, s: 36 },
    }
}

/// The byte size of each nominal format; a custom geometry counts
/// 512-byte sectors.
pub open spec fn spec_format_size(f: FloppyFormat) -> usize {
    match f {
        FloppyFormat::Unknown => 0usize,
        FloppyFormat::FloppyCustom(chs) => ((chs.c as int) * (chs.h as int) * (chs.s as int)
            * 512) as usize,
        FloppyFormat::PcFloppy160 => 163840usize,
        FloppyFormat::PcFloppy180 => 184320usize,
        FloppyFormat::PcFloppy320 => 327680usize,
        FloppyFormat::PcFloppy360 => 368640usize,
        FloppyFormat::PcFloppy720 => 737280usize,
        FloppyFormat::PcFloppy1200 => 1228800usize,
        FloppyFormat::PcFloppy1440 => 1474560usize,
        FloppyFormat::PcFloppy2880 => 2949120usize,
    }
}

/// The nominal format a raw image of `size` bytes holds; sizes that match
/// no format map to `Unknown`. Exact sizes only.
pub open spec fn spec_format_from_size(size: usize) -> FloppyFormat {
    if size == 163840 {
        FloppyFormat::PcFloppy160
    } else if size == 184320 {
        FloppyFormat::PcFloppy180
    } else if size == 327680 {
        FloppyFormat::PcFloppy320
    } else if size == 368640 {
        FloppyFormat::PcFloppy360
    } else if size == 737280 {
        FloppyFormat::PcFloppy720
    } else if size == 1228800 {
        FloppyFormat::PcFloppy1200
    } else if size == 1474560 {
        FloppyFormat::PcFloppy1440
    } else if size == 2949120 {
        FloppyFormat::PcFloppy2880
    } else {
        FloppyFormat::Unknown
    }
}

/// Every nominal format tag maps to its size and back: the size table is
/// a bijection between the eight PC formats and their byte sizes.
pub proof fn lemma_format_size_bijection(f: FloppyFormat)
    requires
        !(f is Unknown),
        !(f is FloppyCustom),
    ensures
        spec_format_from_size(spec_format_size(f)) == f,
{
}

impl FloppyFormat {
    /// The cylinder, head and sector-count geometry of this format.
    pub fn get_chs(&self) -> (r: DiskChs)
        ensures
            r == spec_format_chs(*self),
    {
        match self {
            FloppyFormat::Unknown => DiskChs::new(0, 0, 0),
            FloppyFormat::FloppyCustom(chs) => *chs,
            FloppyFormat::PcFloppy160 => DiskChs::new(40, 1, 8),
            FloppyFormat::PcFloppy180 => DiskChs::new(40, 1, 9),
            FloppyFormat::PcFloppy320 => DiskChs::new(40, 2, 8),
            FloppyFormat::PcFloppy360 => DiskChs::new(40, 2, 9),
            FloppyFormat::PcFloppy720 => DiskChs::new(80, 2, 9),
            FloppyFormat::PcFloppy1200 => DiskChs::new(80, 2, 15),
            FloppyFormat::PcFloppy1440 => DiskChs::new(80, 2, 18),
            FloppyFormat::PcFloppy2880 => DiskChs::new(80, 2, 36),
        }
    }

    /// The cylinder and head geometry of this format.
    pub fn get_ch(&self) -> (r: DiskCh)
        ensures
            r == (DiskCh { c: spec_format_chs(*self).c, h: spec_format_chs(*self).h }),
    {
        self.get_chs().to_ch()
    }

    /// Every nominal PC format is MFM-encoded.
    pub fn get_encoding(&self) -> (r: DiskDataEncoding)
        ensures
            r == DiskDataEncoding::Mfm,
    {
        DiskDataEncoding::Mfm
    }

    /// The data rate of this format.
    pub fn get_data_rate(&self) -> (r: DiskDataRate)
        ensures
            r == DiskDataRate::Rate500Kbps,
    {
        DiskDataRate::Rate500Kbps
    }

    /// The rotation rate of this format: 360 RPM for the 1.2M format and
    /// the non-standard tags, 300 RPM for the rest.
    pub fn get_rpm(&self) -> (r: DiskRpm)
        ensures
            r == (if self is PcFloppy1200 || self is Unknown || self is FloppyCustom {
                DiskRpm::Rpm360
            } else {
                DiskRpm::Rpm300
            }),
    {
        match self {
            FloppyFormat::Unknown => DiskRpm::Rpm360,
            FloppyFormat::FloppyCustom(_) => DiskRpm::Rpm360,
            FloppyFormat::PcFloppy1200 => DiskRpm::Rpm360,
            _ => DiskRpm::Rpm300,
        }
    }

    /// A declarative descriptor conforming to this format.
    pub fn get_image_format(&self) -> (r: DiskDescriptor)
        ensures
            r == (DiskDescriptor {
                geometry: DiskCh { c: spec_format_chs(*self).c, h: spec_format_chs(*self).h },
                default_sector_size: DEFAULT_SECTOR_SIZE,
                data_encoding: DiskDataEncoding::Mfm,
                data_rate: DiskDataRate::Rate500Kbps,
                rpm: Some(DiskRpm::Rpm300),
            }),
    {
        DiskDescriptor {
            geometry: self.get_ch(),
            default_sector_size: DEFAULT_SECTOR_SIZE,
            data_encoding: DiskDataEncoding::Mfm,
            data_rate: DiskDataRate::Rate500Kbps,
            rpm: Some(DiskRpm::Rpm300),
        }
    }

    /// The total byte size of this format.
    pub fn size(&self) -> (r: usize)
        ensures
            r == spec_format_size(*self),
    {
        match self {
            FloppyFormat::Unknown => 0,
            FloppyFormat::FloppyCustom(chs) => {
                let c64: u64 = chs.c as u64;
                let h64: u64 = chs.h as u64;
                let s64: u64 = chs.s as u64;
                proof {
                    assert(c64 * h64 <= 16711425) by (nonlinear_arith)
                        requires
                            c64 <= 65535,
                            h64 <= 255,
                    ;
                    assert(c64 * h64 * s64 <= 4261413375) by (nonlinear_arith)
                        requires
                            c64 * h64 <= 16711425,
                            s64 <= 255,
                    ;
                    assert(c64 * h64 * s64 * 512 <= 2181843648000) by (nonlinear_arith)
                        requires
                            c64 * h64 * s64 <= 4261413375,
                    ;
                }
                let prod: u64 = c64 * h64 * s64 * 512;
                #[verifier::truncate] (prod as usize)
            },
            FloppyFormat::PcFloppy160 => 163840,
            FloppyFormat::PcFloppy180 => 184320,
            FloppyFormat::PcFloppy320 => 327680,
            FloppyFormat::PcFloppy360 => 368640,
            FloppyFormat::PcFloppy720 => 737280,
            FloppyFormat::PcFloppy1200 => 1228800,
            FloppyFormat::PcFloppy1440 => 1474560,
            FloppyFormat::PcFloppy2880 => 2949120,
        }
    }
}

impl From<FloppyFormat> for usize {
    /// The total byte size of the format.
    fn from(format: FloppyFormat) -> (r: usize) {
        format.size()
    }
}

impl vstd::std_specs::convert::FromSpecImpl<FloppyFormat> for usize {
    open spec fn obeys_from_spec() -> bool {
        true
    }

    open spec fn from_spec(format: FloppyFormat) -> usize {
        spec_format_size(format)
    }
}

impl From<usize> for FloppyFormat {
    /// The nominal format whose raw image is exactly `size` bytes long.
    fn from(size: usize) -> (r: FloppyFormat) {
        if size == 163840 {
            FloppyFormat::PcFloppy160
        } else if size == 184320 {
            FloppyFormat::PcFloppy180
        } else if size == 327680 {
            FloppyFormat::PcFloppy320
        } else if size == 368640 {
            FloppyFormat::PcFloppy360
        } else if size == 737280 {
            FloppyFormat::PcFloppy720
        } else if size == 1228800 {
            FloppyFormat::PcFloppy1200
        } else if size == 1474560 {
            FloppyFormat::PcFloppy1440
        } else if size == 2949120 {
            FloppyFormat::PcFloppy2880
        } else {
            FloppyFormat::Unknown
        }
    }
}

impl vstd::std_specs::convert::FromSpecImpl<usize> for FloppyFormat {
    open spec fn obeys_from_spec() -> bool {
        true
    }

    open spec fn from_spec(size: usize) -> FloppyFormat {
        spec_format_from_size(size)
    }
}

/// A sector handed to `master_sector` when a loader populates a
/// bytestream track: its id, optional header overrides for images whose
/// headers lie about their address, size code, payload, optional weak
/// mask, and flags.
pub struct SectorDescriptor {
    pub id: u8,
    pub cylinder_id: Option<u16>,
    pub head_id: Option<u8>,
    pub n: u8,
    pub data: Vec<u8>,
    pub weak: Option<Vec<u8>>,
    pub address_crc_error: bool,
    pub data_crc_error: bool,
    pub deleted_mark: bool,
}

/// One sector as reported by the track's sector listing.
#[derive(Copy, Clone, Debug, PartialEq, Eq, Structural)]
pub struct SectorMapEntry {
    pub chsn: DiskChsn,
    pub address_crc_valid: bool,
    pub data_crc_valid: bool,
    pub deleted_mark: bool,
}

/// A cached summary of how uniform a disk image is; recomputed after load
/// and after mutations that could affect it.
#[derive(Copy, Clone, Debug, PartialEq, Eq, Structural)]
pub struct DiskConsistency {
    /// Whether the disk image contains weak bits.
    pub weak: bool,
    /// Whether the disk image contains deleted sectors.
    pub deleted: bool,
    /// The sector size if every sector agrees on one, otherwise None.
    pub consistent_sector_size: Option<u32>,
    /// The per-track sector count if every track agrees, otherwise None.
    pub consistent_track_length: Option<u8>,
}

impl Default for DiskConsistency {
    fn default() -> (r: DiskConsistency)
        ensures
            r == (DiskConsistency {
                weak: false,
                deleted: false,
                consistent_sector_size: None::<u32>,
                consistent_track_length: None::<u8>,
            }),
    {
        DiskConsistency {
            weak: false,
            deleted: false,
            consistent_sector_size: None,
            consistent_track_length: None,
        }
    }
}

/// Per-track format settings; some container formats vary these per
/// track, so they are kept beside each track.
#[derive(Copy, Clone, Debug, PartialEq, Eq, Structural)]
pub struct TrackFormat {
    pub data_encoding: DiskDataEncoding,
    pub data_sync: Option<EncodingPhase>,
    pub data_rate: DiskDataRate,
}

/// The cell-level stream under a bitstream track: decoded MFM, or an
/// opaque pass-through for the encodings the library carries undecoded.
pub enum TrackDataStream {
    Raw(RawCodec),
    Mfm(MfmCodec),
    Fm(RawCodec),
    Gcr(RawCodec),
}

/// One sector record of a bytestream track: its header fields and where
/// its payload lies in the track's data buffer. `len` is the stored byte
/// count, which may differ from `128 << n` for under- or over-dumps.
#[derive(Copy, Clone, Debug, PartialEq, Eq, Structural)]
pub struct TrackSectorIndex {
    pub sector_id: u8,
    pub cylinder_id: u16,
    pub head_id: u8,
    pub t_idx: usize,
    pub n: u8,
    pub len: usize,
    pub address_crc_error: bool,
    pub data_crc_error: bool,
    pub deleted_mark: bool,
}

/// One track of the disk: its format settings and its data, at either
/// representational level.
pub struct DiskTrack {
    pub format: TrackFormat,
    pub data: TrackData,
}

impl DiskTrack {
    /// The number of sectors the track carries.
    pub fn get_sector_count(&self) -> (r: usize)
        ensures
            r == (match self.data {
                TrackData::ByteStream { .. } => self.data.sectors_of().len() as int,
                TrackData::BitStream { .. } => count_sector_items(self.data.items_of()),
            }),
    {
        self.data.get_sector_ct()
    }

    /// Whether any sector of the track carries the id `id`.
    pub fn has_sector_id(&self, id: u8) -> (r: bool)
        ensures
            r == (match self.data {
                TrackData::ByteStream { .. } => has_id_in_records(self.data.sectors_of(), id),
                TrackData::BitStream { .. } => has_idam_with_id(self.data.items_of(), id),
            }),
    {
        self.data.has_sector_id(id)
    }

    /// The sector listing of the track, in track order.
    pub fn get_sector_list(&self) -> (r: Vec<SectorMapEntry>)
        ensures
            r@ == spec_sector_list_of(self.data),
    {
        self.data.get_sector_list()
    }

    /// The structure timeline of a bitstream track; a bytestream track
    /// has none.
    pub fn metadata(&self) -> (r: Option<&DiskStructureMetadata>)
        ensures
            self.data.is_bitstream() ==> r is Some && r->0.items@ == self.data.items_of(),
            !self.data.is_bitstream() ==> r is None,
    {
        self.data.metadata()
    }
}

/// The sector listing of any track.
pub open spec fn spec_sector_list_of(td: TrackData) -> Seq<SectorMapEntry> {
    match td {
        TrackData::ByteStream { .. } => byte_sector_list(td.sectors_of()),
        TrackData::BitStream { .. } => bs_sector_list(td.items_of()),
    }
}

/// The indices into the track pool, one ordered list per head; entry `c`
/// of a head's list names the track of cylinder `c`.
pub struct TrackMap {
    pub head0: Vec<usize>,
    pub head1: Vec<usize>,
}

impl TrackMap {
    /// The index list of head `h`.
    pub open spec fn view_of(&self, h: int) -> Seq<usize> {
        if h == 0 {
            self.head0@
        } else {
            self.head1@
        }
    }

    /// The number of cylinders mapped under head `h`.
    pub fn len_of(&self, h: u8) -> (r: usize)
        requires
            h < 2,
        ensures
            r == self.view_of(h as int).len(),
    {
        if h == 0 {
            self.head0.len()
        } else {
            self.head1.len()
        }
    }

    /// The pool index of cylinder `i` under head `h`.
    pub fn get(&self, h: u8, i: usize) -> (r: usize)
        requires
            h < 2,
            i < self.view_of(h as int).len(),
        ensures
            r == self.view_of(h as int)[i as int],
    {
        if h == 0 {
            self.head0[i]
        } else {
            self.head1[i]
        }
    }

    /// Appends a pool index under head `h`.
    pub fn push_to(&mut self, h: u8, idx: usize)
        requires
            h < 2,
        ensures
            final(self).view_of(h as int) == old(self).view_of(h as int).push(idx),
            final(self).view_of(1 - h as int) == old(self).view_of(1 - h as int),
    {
        if h == 0 {
            self.head0.push(idx);
        } else {
            self.head1.push(idx);
        }
    }
}

/// An optional secondary index from head, track and sector ordinal to
/// pool index; populated only by loaders that need it.
pub struct SectorMap {
    pub head0: Vec<Vec<usize>>,
    pub head1: Vec<Vec<usize>>,
}

/// The declarative summary of a disk: geometry, default sector size,
/// encoding, rate, and rotation speed. Individual tracks may diverge.
#[derive(Copy, Clone, Debug, PartialEq, Eq, Structural)]
pub struct DiskDescriptor {
    pub geometry: DiskCh,
    pub default_sector_size: usize,
    pub data_encoding: DiskDataEncoding,
    pub data_rate: DiskDataRate,
    pub rpm: Option<DiskRpm>,
}

impl Default for DiskDescriptor {
    fn default() -> (r: DiskDescriptor)
        ensures
            r == (DiskDescriptor {
                geometry: DiskCh { c: 0, h: 0 },
                default_sector_size: DEFAULT_SECTOR_SIZE,
                data_encoding: DiskDataEncoding::Mfm,
                data_rate: DiskDataRate::Rate500Kbps,
                rpm: None::<DiskRpm>,
            }),
    {
        DiskDescriptor {
            geometry: DiskCh::new(0, 0),
            default_sector_size: DEFAULT_SECTOR_SIZE,
            data_encoding: DiskDataEncoding::Mfm,
            data_rate: DiskDataRate::Rate500Kbps,
            rpm: None,
        }
    }
}

/// How much of a sector a read or write covers: the bare payload, or the
/// whole data block with its address mark and CRC.
#[derive(Copy, Clone, Debug, PartialEq, Eq, Structural)]
pub enum RwSectorScope {
    DataBlock,
    DataOnly,
}

/// The outcome of a sector read: where the payload lies inside the
/// returned buffer, and the flags the track reported. CRC failures are
/// flags here, never errors.
#[derive(Clone, Debug)]
pub struct ReadSectorResult {
    pub data_idx: usize,
    pub data_len: usize,
    pub read_buf: Vec<u8>,
    pub deleted_mark: bool,
    pub address_crc_error: bool,
    pub data_crc_error: bool,
    pub wrong_cylinder: bool,
    pub wrong_head: bool,
}

/// The outcome of a sector write.
#[derive(Copy, Clone, Debug, PartialEq, Eq, Structural)]
pub struct WriteSectorResult {
    pub not_found: bool,
    pub address_crc_error: bool,
    pub wrong_cylinder: bool,
    pub wrong_head: bool,
}

/// The outcome of a whole-track read.
#[derive(Clone, Debug)]
pub struct ReadTrackResult {
    pub not_found: bool,
    pub sectors_read: u16,
    pub read_buf: Vec<u8>,
    pub deleted_mark: bool,
    pub address_crc_error: bool,
    pub data_crc_error: bool,
}

/// A floppy disk image in memory: the pool of tracks, the per-head maps
/// into it, the declarative descriptor and the consistency summary.
/// Sector-oriented operations are routed to the track the map names.
pub struct DiskImage {
    pub disk_format: FloppyFormat,
    pub image_format: DiskDescriptor,
    pub consistency: DiskConsistency,
    pub sector_size: usize,
    /// The volume name of the disk image, if any.
    pub volume_name: Option<String>,
    /// An ASCII comment embedded in the disk image, if any.
    pub comment: Option<String>,
    /// The pool of tracks, in no particular order; entries removed from
    /// the map stay in the pool until the image is re-exported.
    pub track_pool: Vec<DiskTrack>,
    pub track_map: TrackMap,
    pub sector_map: SectorMap,
}

impl DiskImage {
    /// Every mapped pool index names a live, well-formed track.
    pub open spec fn wf(&self) -> bool {
        &&& forall|k: int|
            0 <= k < self.track_pool@.len() ==> (#[trigger] self.track_pool@[k]).data.wf()
        &&& forall|h: int, i: int|
            0 <= h < 2 && 0 <= i < self.track_map.view_of(h).len() ==> (
            #[trigger] self.track_map.view_of(h)[i]) < self.track_pool@.len()
    }

    /// A blank image conforming to `disk_format`, with no tracks yet.
    pub fn new(disk_format: FloppyFormat) -> (r: DiskImage)
        ensures
            r.wf(),
            r.disk_format == disk_format,
            r.image_format == (DiskDescriptor {
                geometry: DiskCh { c: spec_format_chs(disk_format).c, h: spec_format_chs(disk_format).h },
                default_sector_size: DEFAULT_SECTOR_SIZE,
                data_encoding: DiskDataEncoding::Mfm,
                data_rate: DiskDataRate::Rate500Kbps,
                rpm: Some(DiskRpm::Rpm300),
            }),
            r.sector_size == DEFAULT_SECTOR_SIZE,
            r.consistency == (DiskConsistency {
                weak: false,
                deleted: false,
                consistent_sector_size: Some(DEFAULT_SECTOR_SIZE as u32),
                consistent_track_length: Some(spec_format_chs(disk_format).s),
            }),
            r.volume_name is None,
            r.comment is None,
            r.track_pool@.len() == 0,
            r.track_map.view_of(0).len() == 0,
            r.track_map.view_of(1).len() == 0,
            r.sector_map.head0@.len() == 0,
            r.sector_map.head1@.len() == 0,
    {
        DiskImage {
            disk_format,
            image_format: disk_format.get_image_format(),
            sector_size: DEFAULT_SECTOR_SIZE,
            consistency: DiskConsistency {
                weak: false,
                deleted: false,
                consistent_sector_size: Some(DEFAULT_SECTOR_SIZE as u32),
                consistent_track_length: Some(disk_format.get_chs().s()),
            },
            volume_name: None,
            comment: None,
            track_pool: Vec::new(),
            track_map: TrackMap { head0: Vec::new(), head1: Vec::new() },
            sector_map: SectorMap { head0: Vec::new(), head1: Vec::new() },
        }
    }

    pub fn set_volume_name(&mut self, name: String)
        ensures
            *final(self) == (DiskImage { volume_name: Some(name), ..*old(self) }),
    {
        self.volume_name = Some(name);
    }

    pub fn volume_name(&self) -> (r: Option<&str>)
        ensures
            match (r, self.volume_name) {
                (Some(s), Some(v)) => s@ == v@,
                (None, None) => true,
                _ => false,
            },
    {
        match &self.volume_name {
            Some(s) => Some(s.as_str()),
            None => None,
        }
    }

    pub fn set_data_rate(&mut self, rate: DiskDataRate)
        ensures
            *final(self) == (DiskImage {
                image_format: DiskDescriptor { data_rate: rate, ..old(self).image_format },
                ..*old(self)
            }),
    {
        self.image_format.data_rate = rate;
    }

    pub fn data_rate(&self) -> (r: DiskDataRate)
        ensures
            r == self.image_format.data_rate,
    {
        self.image_format.data_rate
    }

    pub fn set_data_encoding(&mut self, encoding: DiskDataEncoding)
        ensures
            *final(self) == (DiskImage {
                image_format: DiskDescriptor { data_encoding: encoding, ..old(self).image_format },
                ..*old(self)
            }),
    {
        self.image_format.data_encoding = encoding;
    }

    pub fn data_encoding(&self) -> (r: DiskDataEncoding)
        ensures
            r == self.image_format.data_encoding,
    {
        self.image_format.data_encoding
    }

    pub fn set_image_format(&mut self, format: DiskDescriptor)
        ensures
            *final(self) == (DiskImage { image_format: format, ..*old(self) }),
    {
        self.image_format = format;
    }

    pub fn image_format(&self) -> (r: DiskDescriptor)
        ensures
            r == self.image_format,
    {
        self.image_format
    }

    pub fn geometry(&self) -> (r: DiskCh)
        ensures
            r == self.image_format.geometry,
    {
        self.image_format.geometry
    }

    pub fn heads(&self) -> (r: u8)
        ensures
            r == self.image_format.geometry.h,
    {
        self.image_format.geometry.h
    }
}

/// The number of sectors a track carries.
pub open spec fn spec_sector_ct_of(td: TrackData) -> int {
    match td {
        TrackData::ByteStream { .. } => td.sectors_of().len() as int,
        TrackData::BitStream { .. } => count_sector_items(td.items_of()),
    }
}

/// An all-zero byte sequence of length `n`.
pub open spec fn zero_bytes(n: nat) -> Seq<u8> {
    Seq::new(n, |i: int| 0u8)
}

/// How many entries of `map` name an empty track of `pool`.
pub open spec fn count_empty(pool: Seq<DiskTrack>, map: Seq<usize>) -> int
    decreases map.len(),
{
    if map.len() == 0 {
        0
    } else {
        count_empty(pool, map.drop_last()) + if map.last() < pool.len() && spec_sector_ct_of(
            pool[map.last() as int].data,
        ) == 0 {
            1int
        } else {
            0int
        }
    }
}

/// `map` with every entry naming an empty track removed, order kept.
pub open spec fn filter_nonempty(pool: Seq<DiskTrack>, map: Seq<usize>) -> Seq<usize>
    decreases map.len(),
{
    if map.len() == 0 {
        Seq::empty()
    } else {
        let rest = filter_nonempty(pool, map.drop_last());
        if map.last() < pool.len() && spec_sector_ct_of(pool[map.last() as int].data) == 0 {
            rest
        } else {
            rest.push(map.last())
        }
    }
}

impl DiskImage {
    /// Counts the empty tracks mapped under head `h`.
    fn count_empty_head(&self, h: u8) -> (r: usize)
        requires
            self.wf(),
            h < 2,
        ensures
            r == count_empty(self.track_pool@, self.track_map.view_of(h as int)),
            r <= self.track_map.view_of(h as int).len(),
    {
        let ghost map = self.track_map.view_of(h as int);
        let n = self.track_map.len_of(h);
        let mut count: usize = 0;
        let mut i: usize = 0;
        while i < n
            invariant
                i <= n,
                h < 2,
                self.wf(),
                n == map.len(),
                map == self.track_map.view_of(h as int),
                count <= i,
                count == count_empty(self.track_pool@, map.take(i as int)),
            decreases n - i,
        {
            let ti = self.track_map.get(h, i);
            let ct = self.track_pool[ti].get_sector_count();
            if ct == 0 {
                count += 1;
            }
            proof {
                assert(map.take(i + 1).drop_last() =~= map.take(i as int));
                assert(map.take(i + 1).last() == map[i as int]);
            }
            i += 1;
        }
        proof {
            assert(map.take(map.len() as int) =~= map);
        }
        count
    }

    /// Rebuilds the map of head `h` without its empty tracks.
    fn filter_head(&self, h: u8) -> (r: Vec<usize>)
        requires
            self.wf(),
            h < 2,
        ensures
            r@ == filter_nonempty(self.track_pool@, self.track_map.view_of(h as int)),
    {
        let ghost map = self.track_map.view_of(h as int);
        let n = self.track_map.len_of(h);
        let mut out: Vec<usize> = Vec::new();
        let mut i: usize = 0;
        while i < n
            invariant
                i <= n,
                h < 2,
                self.wf(),
                n == map.len(),
                map == self.track_map.view_of(h as int),
                out@ == filter_nonempty(self.track_pool@, map.take(i as int)),
            decreases n - i,
        {
            let ti = self.track_map.get(h, i);
            let ct = self.track_pool[ti].get_sector_count();
            if ct != 0 {
                out.push(ti);
            }
            proof {
                assert(map.take(i + 1).drop_last() =~= map.take(i as int));
                assert(map.take(i + 1).last() == map[i as int]);
            }
            i += 1;
        }
        proof {
            assert(map.take(map.len() as int) =~= map);
        }
        out
    }

    /// Removes the entries of the track map that name empty tracks. The
    /// pool keeps the tombstoned tracks: pool indices stay stable, and
    /// the memory is reclaimed only when the image is re-exported.
    pub fn remove_empty_tracks(&mut self)
        requires
            old(self).wf(),
        ensures
            final(self).wf(),
            final(self).track_map.view_of(0) == filter_nonempty(
                old(self).track_pool@,
                old(self).track_map.view_of(0),
            ),
            final(self).track_map.view_of(1) == filter_nonempty(
                old(self).track_pool@,
                old(self).track_map.view_of(1),
            ),
            *final(self) == (DiskImage { track_map: final(self).track_map, ..*old(self) }),
    {
        let new0 = self.filter_head(0);
        let new1 = self.filter_head(1);
        proof {
            lemma_filter_nonempty_bounds(self.track_pool@, self.track_map.view_of(0));
            lemma_filter_nonempty_bounds(self.track_pool@, self.track_map.view_of(1));
        }
        self.track_map.head0 = new0;
        self.track_map.head1 = new1;
    }

    /// Detects and corrects a common dump artifact: a 40-track disk
    /// stored as 80 tracks, or a single-sided disk stored double-sided,
    /// with the extra tracks empty. When at least half of the mapped
    /// tracks are empty, the empty entries leave the map.
    pub fn normalize(&mut self)
        requires
            old(self).wf(),
        ensures
            final(self).wf(),
            ({
                let pool = old(self).track_pool@;
                let m0 = old(self).track_map.view_of(0);
                let m1 = old(self).track_map.view_of(1);
                let empties = count_empty(pool, m0) + count_empty(pool, m1);
                if empties >= (m0.len() + m1.len()) as int / 2 {
                    &&& final(self).track_map.view_of(0) == filter_nonempty(pool, m0)
                    &&& final(self).track_map.view_of(1) == filter_nonempty(pool, m1)
                    &&& *final(self) == (DiskImage {
                        track_map: final(self).track_map,
                        ..*old(self)
                    })
                } else {
                    *final(self) == *old(self)
                }
            }),
    {
        let e0 = self.count_empty_head(0);
        let e1 = self.count_empty_head(1);
        let total: u128 = self.track_map.len_of(0) as u128 + self.track_map.len_of(1) as u128;
        if e0 as u128 + e1 as u128 >= total / 2 {
            self.remove_empty_tracks();
        }
    }

    /// Post-load normalisation: applied once after a loader populates
    /// the image.
    pub fn post_load_process(&mut self)
        requires
            old(self).wf(),
        ensures
            final(self).wf(),
            ({
                let pool = old(self).track_pool@;
                let m0 = old(self).track_map.view_of(0);
                let m1 = old(self).track_map.view_of(1);
                let empties = count_empty(pool, m0) + count_empty(pool, m1);
                if empties >= (m0.len() + m1.len()) as int / 2 {
                    &&& final(self).track_map.view_of(0) == filter_nonempty(pool, m0)
                    &&& final(self).track_map.view_of(1) == filter_nonempty(pool, m1)
                    &&& *final(self) == (DiskImage {
                        track_map: final(self).track_map,
                        ..*old(self)
                    })
                } else {
                    *final(self) == *old(self)
                }
            }),
    {
        self.normalize();
    }
}

impl DiskImage {
    /// Appends an empty bytestream track for `ch` and maps it. Loaders
    /// then populate it sector by sector with `master_sector`.
    pub fn add_track_bytestream(
        &mut self,
        data_encoding: DiskDataEncoding,
        data_rate: DiskDataRate,
        ch: DiskCh,
    ) -> (r: Result<(), DiskImageError>)
        requires
            old(self).wf(),
        ensures
            final(self).wf(),
            ch.h >= 2 ==> r == Err::<(), DiskImageError>(DiskImageError::SeekError) && *final(self)
                == *old(self),
            ch.h < 2 ==> {
                let t = final(self).track_pool@.last();
                &&& r is Ok
                &&& final(self).track_pool@.len() == old(self).track_pool@.len() + 1
                &&& final(self).track_pool@.take(old(self).track_pool@.len() as int) == old(
                    self,
                ).track_pool@
                &&& t.format == (TrackFormat {
                    data_encoding,
                    data_sync: None::<EncodingPhase>,
                    data_rate,
                })
                &&& t.data is ByteStream
                &&& t.data.spec_ch() == ch
                &&& t.data.enc_of() == data_encoding
                &&& t.data.rate_of() == data_rate
                &&& t.data.sectors_of() == Seq::<TrackSectorIndex>::empty()
                &&& t.data.bytes_of() == Seq::<u8>::empty()
                &&& t.data.weak_mask_of() == Seq::<u8>::empty()
                &&& final(self).track_map.view_of(ch.h as int) == old(self).track_map.view_of(
                    ch.h as int,
                ).push(old(self).track_pool@.len() as usize)
                &&& final(self).track_map.view_of(1 - ch.h as int) == old(self).track_map.view_of(
                    1 - ch.h as int,
                )
                &&& *final(self) == (DiskImage {
                    track_pool: final(self).track_pool,
                    track_map: final(self).track_map,
                    ..*old(self)
                })
            },
    {
        if ch.h >= 2 {
            return Err(DiskImageError::SeekError);
        }
        let format = TrackFormat { data_encoding, data_sync: None, data_rate };
        let idx = self.track_pool.len();
        self.track_pool.push(
            DiskTrack {
                format,
                data: TrackData::ByteStream {
                    encoding: data_encoding,
                    data_rate,
                    cylinder: ch.c,
                    head: ch.h,
                    sectors: Vec::new(),
                    data: Vec::new(),
                    weak_mask: Vec::new(),
                },
            },
        );
        self.track_map.push_to(ch.h, idx);
        proof {
            assert(final(self).track_pool@.take(old(self).track_pool@.len() as int) =~= old(
                self,
            ).track_pool@);
        }
        Ok(())
    }

    /// Wraps raw track bytes into a bitstream track for `ch`, derives its
    /// markers, clock map, structure timeline and id order when the
    /// encoding is decoded MFM, appends it to the pool and maps it.
    /// Encodings the library carries opaquely get an undecoded stream
    /// and an empty timeline. The weak mask starts all clear; a supplied
    /// mask must at least match the data in length.
    #[verifier::rlimit(100)]
    pub fn add_track_bitstream(
        &mut self,
        data_encoding: DiskDataEncoding,
        data_rate: DiskDataRate,
        ch: DiskCh,
        data_clock: u32,
        data: &[u8],
        weak: Option<&[u8]>,
    ) -> (r: Result<(), DiskImageError>)
        requires
            old(self).wf(),
            8 * data@.len() <= usize::MAX,
        ensures
            final(self).wf(),
            ch.h >= 2 ==> r == Err::<(), DiskImageError>(DiskImageError::SeekError) && *final(self)
                == *old(self),
            ch.h < 2 && (weak matches Some(w) && data@.len() != w@.len()) ==> r == Err::<
                (),
                DiskImageError,
            >(DiskImageError::ParameterError) && *final(self) == *old(self),
            ch.h < 2 && (weak is None || weak->0@.len() == data@.len()) ==> {
                let t = final(self).track_pool@.last();
                let cells = bits_of_bytes(data@);
                let mks = spec_scan_markers(cells);
                &&& r is Ok
                &&& final(self).track_pool@.len() == old(self).track_pool@.len() + 1
                &&& final(self).track_pool@.take(old(self).track_pool@.len() as int) == old(
                    self,
                ).track_pool@
                &&& t.data is BitStream
                &&& t.data.spec_ch() == ch
                &&& t.data.enc_of() == data_encoding
                &&& t.data.rate_of() == data_rate
                &&& t.data.dclock_of() == data_clock
                &&& t.data.cells_of() == cells
                &&& t.data.track_weak() == falses(cells.len())
                &&& t.data.is_mfm_bitstream() == (data_encoding is Mfm)
                &&& (data_encoding is Mfm ==> {
                    &&& t.data.items_of() == spec_scan_metadata(cells, mks)
                    &&& t.data.ids_of() == spec_sector_ids(t.data.items_of())
                    &&& t.data.track_clock() == clock_map_upto(
                        falses(cells.len()),
                        mks,
                        mks.len() as int,
                        cells.len() as int,
                    )
                    &&& t.format == (TrackFormat {
                        data_encoding,
                        data_sync: if mks.len() == 0 {
                            None::<EncodingPhase>
                        } else if mks[0].1 % 2 == 0 {
                            Some(EncodingPhase::Even)
                        } else {
                            Some(EncodingPhase::Odd)
                        },
                        data_rate,
                    })
                })
                &&& (!(data_encoding is Mfm) ==> {
                    &&& t.data.items_of() == Seq::<
                        crate::system34::DiskStructureMetadataItem,
                    >::empty()
                    &&& t.data.ids_of() == Seq::<DiskChsn>::empty()
                    &&& t.format == (TrackFormat {
                        data_encoding,
                        data_sync: None::<EncodingPhase>,
                        data_rate,
                    })
                })
                &&& final(self).track_map.view_of(ch.h as int) == old(self).track_map.view_of(
                    ch.h as int,
                ).push(old(self).track_pool@.len() as usize)
                &&& final(self).track_map.view_of(1 - ch.h as int) == old(self).track_map.view_of(
                    1 - ch.h as int,
                )
                &&& *final(self) == (DiskImage {
                    track_pool: final(self).track_pool,
                    track_map: final(self).track_map,
                    ..*old(self)
                })
            },
    {
        if ch.h >= 2 {
            return Err(DiskImageError::SeekError);
        }
        if let Some(w) = weak {
            if data.len() != w.len() {
                return Err(DiskImageError::ParameterError);
            }
        }
        let idx = self.track_pool.len();
        let track = match data_encoding {
            DiskDataEncoding::Mfm => {
                let mut codec = MfmCodec::new(data);
                let markers = System34Parser::scan_track_markers(&codec);
                System34Parser::create_clock_map(&markers, &mut codec);
                let items = System34Parser::scan_track_metadata(&codec, &markers);
                let metadata = DiskStructureMetadata::new(items);
                let sector_ids = metadata.get_sector_ids();
                let data_sync = if markers.len() == 0 {
                    None
                } else if markers[0].1 % 2 == 0 {
                    Some(EncodingPhase::Even)
                } else {
                    Some(EncodingPhase::Odd)
                };
                DiskTrack {
                    format: TrackFormat { data_encoding, data_sync, data_rate },
                    data: TrackData::BitStream {
                        encoding: data_encoding,
                        data_rate,
                        data_clock,
                        cylinder: ch.c,
                        head: ch.h,
                        data: TrackDataStream::Mfm(codec),
                        metadata,
                        sector_ids,
                    },
                }
            },
            _ => {
                let codec = RawCodec::new(data);
                DiskTrack {
                    format: TrackFormat { data_encoding, data_sync: None, data_rate },
                    data: TrackData::BitStream {
                        encoding: data_encoding,
                        data_rate,
                        data_clock,
                        cylinder: ch.c,
                        head: ch.h,
                        data: TrackDataStream::Raw(codec),
                        metadata: DiskStructureMetadata::new(Vec::new()),
                        sector_ids: Vec::new(),
                    },
                }
            },
        };
        self.track_pool.push(track);
        self.track_map.push_to(ch.h, idx);
        proof {
            assert(final(self).track_pool@.take(old(self).track_pool@.len() as int) =~= old(
                self,
            ).track_pool@);
        }
        Ok(())
    }

    /// Appends the sector `sd` to the bytestream track of `chs`: its
    /// record is indexed at the current end of the track's payload
    /// buffer, and its payload and weak mask (all clear when none is
    /// supplied) are appended. Only a bytestream track supports this.
    pub fn master_sector(&mut self, chs: DiskChs, sd: &SectorDescriptor) -> (r: Result<
        (),
        DiskImageError,
    >)
        requires
            old(self).wf(),
        ensures
            final(self).wf(),
            (chs.h > 1 || chs.c as int >= old(self).track_map.view_of(chs.h as int).len()) ==> r
                == Err::<(), DiskImageError>(DiskImageError::SeekError) && *final(self) == *old(
                self,
            ),
            (chs.h <= 1 && (chs.c as int) < old(self).track_map.view_of(chs.h as int).len()) ==> {
                let ti = old(self).track_map.view_of(chs.h as int)[chs.c as int] as int;
                let td = old(self).track_pool@[ti].data;
                let nt = final(self).track_pool@[ti];
                &&& final(self).track_pool@.len() == old(self).track_pool@.len()
                &&& (forall|k: int|
                    0 <= k < old(self).track_pool@.len() && k != ti
                        ==> #[trigger] final(self).track_pool@[k] == old(self).track_pool@[k])
                &&& (td is ByteStream ==> {
                    &&& r is Ok
                    &&& nt.format == old(self).track_pool@[ti].format
                    &&& nt.data is ByteStream
                    &&& nt.data.spec_ch() == td.spec_ch()
                    &&& nt.data.enc_of() == td.enc_of()
                    &&& nt.data.rate_of() == td.rate_of()
                    &&& nt.data.sectors_of() == td.sectors_of().push(
                        TrackSectorIndex {
                            sector_id: sd.id,
                            cylinder_id: if sd.cylinder_id is Some {
                                sd.cylinder_id->0
                            } else {
                                chs.c
                            },
                            head_id: if sd.head_id is Some {
                                sd.head_id->0
                            } else {
                                chs.h
                            },
                            n: sd.n,
                            t_idx: td.bytes_of().len() as usize,
                            len: sd.data@.len() as usize,
                            address_crc_error: sd.address_crc_error,
                            data_crc_error: sd.data_crc_error,
                            deleted_mark: sd.deleted_mark,
                        },
                    )
                    &&& nt.data.bytes_of() == td.bytes_of() + sd.data@
                    &&& nt.data.weak_mask_of() == td.weak_mask_of() + (match sd.weak {
                        Some(w) => w@,
                        None => zero_bytes(sd.data@.len()),
                    })
                })
                &&& (td is BitStream ==> r == Err::<(), DiskImageError>(
                    DiskImageError::UnsupportedFormat,
                ) && final(self).track_pool@ == old(self).track_pool@)
                &&& *final(self) == (DiskImage {
                    track_pool: final(self).track_pool,
                    ..*old(self)
                })
            },
    {
        if chs.h > 1 || chs.c as usize >= self.track_map.len_of(chs.h) {
            return Err(DiskImageError::SeekError);
        }
        let ti = self.track_map.get(chs.h, chs.c as usize);
        let mut track = self.track_pool.remove(ti);
        let ghost old_track = track;
        let mut failed = false;
        match &mut track.data {
            TrackData::ByteStream { sectors, data, weak_mask, .. } => {
                let t_idx = data.len();
                sectors.push(
                    TrackSectorIndex {
                        sector_id: sd.id,
                        cylinder_id: match sd.cylinder_id {
                            Some(c) => c,
                            None => chs.c,
                        },
                        head_id: match sd.head_id {
                            Some(h) => h,
                            None => chs.h,
                        },
                        n: sd.n,
                        t_idx,
                        len: sd.data.len(),
                        address_crc_error: sd.address_crc_error,
                        data_crc_error: sd.data_crc_error,
                        deleted_mark: sd.deleted_mark,
                    },
                );
                let ghost data0 = data@;
                let mut k: usize = 0;
                while k < sd.data.len()
                    invariant
                        k <= sd.data@.len(),
                        data@ == data0 + sd.data@.take(k as int),
                    decreases sd.data@.len() - k,
                {
                    data.push(sd.data[k]);
                    proof {
                        assert(data0 + sd.data@.take(k + 1) =~= (data0 + sd.data@.take(
                            k as int,
                        )).push(sd.data@[k as int]));
                    }
                    k += 1;
                }
                proof {
                    assert(data@ =~= data0 + sd.data@);
                }
                let ghost weak0 = weak_mask@;
                match &sd.weak {
                    Some(w) => {
                        let mut k2: usize = 0;
                        while k2 < w.len()
                            invariant
                                k2 <= w@.len(),
                                weak_mask@ == weak0 + w@.take(k2 as int),
                            decreases w@.len() - k2,
                        {
                            weak_mask.push(w[k2]);
                            proof {
                                assert(weak0 + w@.take(k2 + 1) =~= (weak0 + w@.take(
                                    k2 as int,
                                )).push(w@[k2 as int]));
                            }
                            k2 += 1;
                        }
                        proof {
                            assert(weak_mask@ =~= weak0 + w@);
                        }
                    },
                    None => {
                        let mut k2: usize = 0;
                        while k2 < sd.data.len()
                            invariant
                                k2 <= sd.data@.len(),
                                weak_mask@ == weak0 + zero_bytes(k2 as nat),
                            decreases sd.data@.len() - k2,
                        {
                            weak_mask.push(0);
                            proof {
                                assert(weak0 + zero_bytes((k2 + 1) as nat) =~= (weak0
                                    + zero_bytes(k2 as nat)).push(0u8));
                            }
                            k2 += 1;
                        }
                        proof {
                            assert(weak_mask@ =~= weak0 + zero_bytes(sd.data@.len()));
                        }
                    },
                }
            },
            TrackData::BitStream { .. } => {
                failed = true;
            },
        }
        self.track_pool.insert(ti, track);
        proof {
            if failed {
                assert(self.track_pool@ =~= old(self).track_pool@);
            }
        }
        if failed {
            return Err(DiskImageError::UnsupportedFormat);
        }
        Ok(())
    }
}

impl DiskImage {
    /// The next sector address on the same track, taking the track's
    /// own sector count as the modulus: `None` at the end of the track.
    pub fn next_sector_on_track(&self, chs: DiskChs) -> (r: Option<DiskChs>)
        requires
            self.wf(),
            chs.h < 2,
            (chs.c as int) < self.track_map.view_of(chs.h as int).len(),
        ensures
            ({
                let ti = self.track_map.view_of(chs.h as int)[chs.c as int] as int;
                let count = spec_sector_ct_of(self.track_pool@[ti].data);
                r == (if chs.s < count as u8 {
                    Some(DiskChs { c: chs.c, h: chs.h, s: (chs.s + 1) as u8 })
                } else {
                    None::<DiskChs>
                })
            }),
    {
        let ti = self.track_map.get(chs.h, chs.c as usize);
        let s = self.track_pool[ti].get_sector_count();
        let geom = DiskChs::new(chs.c, chs.h, #[verifier::truncate] (s as u8));
        chs.get_next_sector(&geom)
    }

    /// Whether the sector id of `chs` exists on its track; false when
    /// the geometry is out of bounds.
    pub fn is_id_valid(&self, chs: DiskChs) -> (r: bool)
        requires
            self.wf(),
        ensures
            (chs.h > 1 || chs.c as int >= self.track_map.view_of(chs.h as int).len()) ==> r
                == false,
            (chs.h <= 1 && (chs.c as int) < self.track_map.view_of(chs.h as int).len()) ==> {
                let td = self.track_pool@[self.track_map.view_of(chs.h as int)[chs.c as int] as int].data;
                r == (match td {
                    TrackData::BitStream { .. } => has_idam_with_id(td.items_of(), chs.s),
                    TrackData::ByteStream { .. } => has_id_in_records(td.sectors_of(), chs.s),
                })
            },
    {
        if chs.h > 1 || chs.c as usize >= self.track_map.len_of(chs.h) {
            return false;
        }
        let ti = self.track_map.get(chs.h, chs.c as usize);
        self.track_pool[ti].data.has_sector_id(chs.s)
    }

    /// Reads the sector `chs` of its track; see the track-level read for
    /// the semantics. Fails with a seek error when the geometry is out
    /// of bounds.
    pub fn read_sector(&mut self, chs: DiskChs, n: Option<u8>, scope: RwSectorScope) -> (r: Result<
        ReadSectorResult,
        DiskImageError,
    >)
        requires
            old(self).wf(),
        ensures
            *final(self) == *old(self),
            (chs.h > 1 || chs.c as int >= old(self).track_map.view_of(chs.h as int).len()) ==> r == Err::<
                ReadSectorResult,
                DiskImageError,
            >(DiskImageError::SeekError),
            (chs.h <= 1 && (chs.c as int) < old(self).track_map.view_of(chs.h as int).len())
                ==> rs_result_matches(
                r,
                read_sector_spec(
                    old(self).track_pool@[old(self).track_map.view_of(chs.h as int)[chs.c as int] as int].data,
                    chs,
                    n,
                    scope,
                    false,
                ),
            ),
    {
        if chs.h > 1 || chs.c as usize >= self.track_map.len_of(chs.h) {
            return Err(DiskImageError::SeekError);
        }
        let ti = self.track_map.get(chs.h, chs.c as usize);
        self.track_pool[ti].data.read_sector(chs, n, scope, false)
    }

    /// Writes the sector `chs` of its track; see the track-level write
    /// for the semantics. Fails with a seek error when the geometry is
    /// out of bounds.
    pub fn write_sector(
        &mut self,
        chs: DiskChs,
        n: Option<u8>,
        write_data: &[u8],
        scope: RwSectorScope,
        write_deleted: bool,
        debug: bool,
    ) -> (r: Result<WriteSectorResult, DiskImageError>)
        requires
            old(self).wf(),
        ensures
            final(self).wf(),
            (chs.h > 1 || chs.c as int >= old(self).track_map.view_of(chs.h as int).len()) ==> r == Err::<
                WriteSectorResult,
                DiskImageError,
            >(DiskImageError::SeekError) && *final(self) == *old(self),
            (chs.h <= 1 && (chs.c as int) < old(self).track_map.view_of(chs.h as int).len()) ==> {
                let ti = old(self).track_map.view_of(chs.h as int)[chs.c as int] as int;
                let td = old(self).track_pool@[ti].data;
                let (res, ncells, nbytes, nitems) = write_sector_spec(
                    td,
                    chs,
                    n,
                    write_data@,
                    write_deleted,
                    debug,
                );
                &&& r == res
                &&& final(self).track_pool@.len() == old(self).track_pool@.len()
                &&& (forall|k: int|
                    0 <= k < old(self).track_pool@.len() && k != ti
                        ==> #[trigger] final(self).track_pool@[k] == old(self).track_pool@[k])
                &&& final(self).track_pool@[ti].format == old(self).track_pool@[ti].format
                &&& track_shape_eq(td, final(self).track_pool@[ti].data)
                &&& final(self).track_pool@[ti].data.cells_of() == ncells
                &&& final(self).track_pool@[ti].data.bytes_of() == nbytes
                &&& final(self).track_pool@[ti].data.items_of() == nitems
                &&& *final(self) == (DiskImage {
                    track_pool: final(self).track_pool,
                    ..*old(self)
                })
            },
    {
        if chs.h > 1 || chs.c as usize >= self.track_map.len_of(chs.h) {
            return Err(DiskImageError::SeekError);
        }
        let ti = self.track_map.get(chs.h, chs.c as usize);
        let mut track = self.track_pool.remove(ti);
        let r = track.data.write_sector(chs, n, write_data, scope, write_deleted, debug);
        self.track_pool.insert(ti, track);
        r
    }

    /// Reformats the bitstream track of `ch` in place; see the
    /// track-level format for the semantics. Fails with a seek error
    /// when the geometry is out of bounds.
    pub fn format_track(
        &mut self,
        ch: DiskCh,
        format_buffer: Vec<DiskChsn>,
        fill_byte: u8,
        gap3: usize,
    ) -> (r: Result<(), DiskImageError>)
        requires
            old(self).wf(),
        ensures
            final(self).wf(),
            (ch.h > 1 || ch.c as int >= old(self).track_map.view_of(ch.h as int).len()) ==> r == Err::<
                (),
                DiskImageError,
            >(DiskImageError::SeekError) && *final(self) == *old(self),
            (ch.h <= 1 && (ch.c as int) < old(self).track_map.view_of(ch.h as int).len()) ==> {
                let ti = old(self).track_map.view_of(ch.h as int)[ch.c as int] as int;
                let td = old(self).track_pool@[ti].data;
                &&& format_post(
                    td,
                    final(self).track_pool@[ti].data,
                    format_buffer@,
                    fill_byte,
                    gap3 as nat,
                    r,
                )
                &&& final(self).track_pool@.len() == old(self).track_pool@.len()
                &&& (forall|k: int|
                    0 <= k < old(self).track_pool@.len() && k != ti
                        ==> #[trigger] final(self).track_pool@[k] == old(self).track_pool@[k])
                &&& final(self).track_pool@[ti].format == old(self).track_pool@[ti].format
                &&& *final(self) == (DiskImage {
                    track_pool: final(self).track_pool,
                    ..*old(self)
                })
            },
    {
        if ch.h > 1 || ch.c as usize >= self.track_map.len_of(ch.h) {
            return Err(DiskImageError::SeekError);
        }
        let ti = self.track_map.get(ch.h, ch.c as usize);
        let mut track = self.track_pool.remove(ti);
        let r = track.data.format(System34Standard::Ibm, format_buffer, fill_byte, gap3);
        self.track_pool.insert(ti, track);
        r
    }

    /// The full sector map of the image: for every head of the declared
    /// geometry, for every mapped track, its sector listing.
    pub fn get_sector_map(&self) -> (r: Vec<Vec<Vec<SectorMapEntry>>>)
        requires
            self.wf(),
            self.image_format.geometry.h <= 2,
        ensures
            r@.len() == self.image_format.geometry.h as int,
            forall|h: int|
                0 <= h < r@.len() ==> (#[trigger] r@[h])@.len() == self.track_map.view_of(h).len(),
            forall|h: int, t: int|
                0 <= h < r@.len() && 0 <= t < r@[h]@.len() ==> (#[trigger] r@[h]@[t])@
                    == spec_sector_list_of(
                    self.track_pool@[self.track_map.view_of(h)[t] as int].data,
                ),
    {
        let mut head_map: Vec<Vec<Vec<SectorMapEntry>>> = Vec::new();
        let heads = self.image_format.geometry.h;
        let mut h: u8 = 0;
        while h < heads
            invariant
                h <= heads,
                heads <= 2,
                self.wf(),
                head_map@.len() == h as int,
                forall|x: int|
                    0 <= x < h as int ==> (#[trigger] head_map@[x])@.len()
                        == self.track_map.view_of(x).len(),
                forall|x: int, t: int|
                    0 <= x < h as int && 0 <= t < head_map@[x]@.len() ==> (
                    #[trigger] head_map@[x]@[t])@ == spec_sector_list_of(
                        self.track_pool@[self.track_map.view_of(x)[t] as int].data,
                    ),
            decreases heads - h,
        {
            let mut track_list: Vec<Vec<SectorMapEntry>> = Vec::new();
            let n = self.track_map.len_of(h);
            let mut t: usize = 0;
            while t < n
                invariant
                    t <= n,
                    h < 2,
                    self.wf(),
                    n == self.track_map.view_of(h as int).len(),
                    track_list@.len() == t as int,
                    forall|u: int|
                        0 <= u < t as int ==> (#[trigger] track_list@[u])@ == spec_sector_list_of(
                            self.track_pool@[self.track_map.view_of(h as int)[u] as int].data,
                        ),
                decreases n - t,
            {
                let ti = self.track_map.get(h, t);
                track_list.push(self.track_pool[ti].get_sector_list());
                t += 1;
            }
            head_map.push(track_list);
            h += 1;
        }
        head_map
    }
}

/// Every index a filtered map keeps was in the map before.
proof fn lemma_filter_nonempty_bounds(pool: Seq<DiskTrack>, map: Seq<usize>)
    ensures
        forall|i: int|
            0 <= i < filter_nonempty(pool, map).len() ==> exists|j: int|
                0 <= j < map.len() && map[j] == #[trigger] filter_nonempty(pool, map)[i],
    decreases map.len(),
{
    if map.len() > 0 {
        lemma_filter_nonempty_bounds(pool, map.drop_last());
        let rest = filter_nonempty(pool, map.drop_last());
        let cur = filter_nonempty(pool, map);
        assert forall|i: int| 0 <= i < cur.len() implies exists|j: int|
            0 <= j < map.len() && map[j] == #[trigger] cur[i] by {
            if i < rest.len() {
                assert(cur[i] == rest[i]);
                let j = choose|j: int| 0 <= j < map.drop_last().len() && map.drop_last()[j] == rest[i];
                assert(map[j] == cur[i]);
            } else {
                assert(cur[i] == map.last());
                assert(map[map.len() - 1] == cur[i]);
            }
        }
    }
}

impl Default for DiskImage {
    fn default() -> (r: DiskImage)
        ensures
            r.wf(),
            r.disk_format == FloppyFormat::PcFloppy360,
            r.image_format == (DiskDescriptor {
                geometry: DiskCh { c: 0, h: 0 },
                default_sector_size: DEFAULT_SECTOR_SIZE,
                data_encoding: DiskDataEncoding::Mfm,
                data_rate: DiskDataRate::Rate500Kbps,
                rpm: None::<DiskRpm>,
            }),
            r.consistency == (DiskConsistency {
                weak: false,
                deleted: false,
                consistent_sector_size: None::<u32>,
                consistent_track_length: None::<u8>,
            }),
            r.sector_size == DEFAULT_SECTOR_SIZE,
            r.volume_name is None,
            r.comment is None,
            r.track_pool@.len() == 0,
            r.track_map.view_of(0).len() == 0,
            r.track_map.view_of(1).len() == 0,
            r.sector_map.head0@.len() == 0,
            r.sector_map.head1@.len() == 0,
    {
        DiskImage {
            disk_format: FloppyFormat::PcFloppy360,
            image_format: DiskDescriptor::default(),
            consistency: DiskConsistency::default(),
            sector_size: DEFAULT_SECTOR_SIZE,
            volume_name: None,
            comment: None,
            track_pool: Vec::new(),
            track_map: TrackMap { head0: Vec::new(), head1: Vec::new() },
            sector_map: SectorMap { head0: Vec::new(), head1: Vec::new() },
        }
    }
}

} // verus!
