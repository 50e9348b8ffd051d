use fluxfox::chs::{DiskChs, DiskChsn};
use fluxfox::diskimage::{DiskImageFormat, FloppyFormat};
use fluxfox::{DiskDataEncoding, DiskDataRate, DiskRpm};

#[test]
fn format_size_round_trip() {
    let formats = [
        FloppyFormat::PcFloppy160,
        FloppyFormat::PcFloppy180,
        FloppyFormat::PcFloppy320,
        FloppyFormat::PcFloppy360,
        FloppyFormat::PcFloppy720,
        FloppyFormat::PcFloppy1200,
        FloppyFormat::PcFloppy1440,
        FloppyFormat::PcFloppy2880,
    ];
    let sizes = [
        163_840usize,
        184_320,
        327_680,
        368_640,
        737_280,
        1_228_800,
        1_474_560,
        2_949_120,
    ];
    for i in 0..formats.len() {
        assert_eq!(formats[i].size(), sizes[i]);
        assert_eq!(FloppyFormat::from(sizes[i]), formats[i]);
        assert_eq!(usize::from(formats[i]), sizes[i]);
    }
}

#[test]
fn format_from_size_examples() {
    assert_eq!(FloppyFormat::from(1_474_560usize), FloppyFormat::PcFloppy1440);
    assert_eq!(FloppyFormat::from(100_000usize), FloppyFormat::Unknown);
}

#[test]
fn format_geometries() {
    assert_eq!(FloppyFormat::PcFloppy360.get_chs(), DiskChs::new(40, 2, 9));
    assert_eq!(FloppyFormat::PcFloppy1440.get_chs(), DiskChs::new(80, 2, 18));
    assert_eq!(FloppyFormat::PcFloppy160.get_chs(), DiskChs::new(40, 1, 8));
    assert_eq!(FloppyFormat::PcFloppy360.get_ch().c(), 40);
    assert_eq!(FloppyFormat::PcFloppy360.get_ch().h(), 2);
}

#[test]
fn n_to_bytes_table() {
    for n in 0u8..8 {
        assert_eq!(DiskChsn::n_to_bytes(n), 128usize << n);
    }
    assert_eq!(DiskChsn::n_to_bytes(2), 512);
    assert_eq!(DiskChsn::new(0, 0, 1, 2).n_size(), 512);
}

#[test]
fn format_descriptors() {
    assert_eq!(FloppyFormat::PcFloppy360.get_encoding(), DiskDataEncoding::Mfm);
    assert_eq!(FloppyFormat::PcFloppy360.get_data_rate(), DiskDataRate::Rate500Kbps);
    assert_eq!(FloppyFormat::PcFloppy360.get_rpm(), DiskRpm::Rpm300);
    assert_eq!(FloppyFormat::PcFloppy1200.get_rpm(), DiskRpm::Rpm360);
    let desc = FloppyFormat::PcFloppy1440.get_image_format();
    assert_eq!(desc.geometry.c(), 80);
    assert_eq!(desc.default_sector_size, 512);
    assert_eq!(desc.rpm, Some(DiskRpm::Rpm300));
    assert_eq!(DiskImageFormat::RawSectorImage.name(), "Raw Sector Image");
    assert_eq!(DiskImageFormat::TeleDisk.name(), "TeleDisk");
}

#[test]
fn custom_geometry_size() {
    let custom = FloppyFormat::FloppyCustom(DiskChs::new(40, 2, 9));
    assert_eq!(custom.size(), 40 * 2 * 9 * 512);
    assert_eq!(FloppyFormat::Unknown.size(), 0);
}

#[test]
fn next_sector_within_track() {
    let geom = DiskChs::new(40, 2, 9);
    let cur = DiskChs::new(3, 1, 5);
    assert_eq!(cur.get_next_sector(&geom), Some(DiskChs::new(3, 1, 6)));
    let last = DiskChs::new(3, 1, 9);
    assert_eq!(last.get_next_sector(&geom), None);
}
