use fluxfox::chs::{DiskCh, DiskChs, DiskChsn};
use fluxfox::diskimage::{DiskImage, FloppyFormat, RwSectorScope};
use fluxfox::{DiskDataEncoding, DiskDataRate, DiskImageError};

/// A blank 360K image with one freshly formatted nine-sector track on
/// cylinder 0, head 0, filled with `fill`.
fn formatted_disk(fill: u8, gap3: usize) -> DiskImage {
    let mut img = DiskImage::new(FloppyFormat::PcFloppy360);
    let raw = vec![0u8; 12500];
    img.add_track_bitstream(
        DiskDataEncoding::Mfm,
        DiskDataRate::Rate500Kbps,
        DiskCh::new(0, 0),
        500_000,
        &raw,
        None,
    )
    .unwrap();
    let sectors: Vec<DiskChsn> = (1u8..=9).map(|s| DiskChsn::new(0, 0, s, 2)).collect();
    img.format_track(DiskCh::new(0, 0), sectors, fill, gap3).unwrap();
    img
}

#[test]
fn format_then_read_sector() {
    let mut img = formatted_disk(0xF6, 80);
    let res = img
        .read_sector(DiskChs::new(0, 0, 5), None, RwSectorScope::DataOnly)
        .unwrap();
    assert_eq!(res.data_len, 512);
    assert_eq!(res.read_buf.len(), 512);
    assert!(res.read_buf.iter().all(|&b| b == 0xF6));
    assert!(!res.address_crc_error);
    assert!(!res.data_crc_error);
    assert!(!res.deleted_mark);
    assert!(!res.wrong_cylinder);
}

#[test]
fn format_scan_yields_every_sector_with_valid_crcs() {
    let img = formatted_disk(0xF6, 80);
    let ti = img.track_map.head0[0];
    let list = img.track_pool[ti].get_sector_list();
    assert_eq!(list.len(), 9);
    for (i, entry) in list.iter().enumerate() {
        assert_eq!(entry.chsn, DiskChsn::new(0, 0, (i + 1) as u8, 2));
        assert!(entry.address_crc_valid);
        assert!(entry.data_crc_valid);
        assert!(!entry.deleted_mark);
    }
    assert_eq!(img.track_pool[ti].get_sector_count(), 9);
    assert!(img.track_pool[ti].has_sector_id(9));
    assert!(!img.track_pool[ti].has_sector_id(10));
}

#[test]
fn format_scan_marker_count() {
    let img = formatted_disk(0xF6, 80);
    let ti = img.track_map.head0[0];
    let md = img.track_pool[ti].metadata().unwrap();
    // One IAM, nine IDAM elements and nine data elements.
    assert_eq!(md.items.len(), 19);
}

#[test]
fn read_data_block_scope_frames_payload() {
    let mut img = formatted_disk(0xF6, 80);
    let res = img
        .read_sector(DiskChs::new(0, 0, 3), None, RwSectorScope::DataBlock)
        .unwrap();
    assert_eq!(res.data_len, 512);
    assert_eq!(res.read_buf.len(), 518);
    assert_eq!(res.data_idx, 4);
    assert_eq!(&res.read_buf[0..4], &[0xA1, 0xA1, 0xA1, 0xFB]);
    assert!(res.read_buf[4..516].iter().all(|&b| b == 0xF6));
}

#[test]
fn write_then_read_round_trip() {
    let mut img = formatted_disk(0xF6, 80);
    let payload: Vec<u8> = (0..512).map(|i| (i * 7 % 251) as u8).collect();
    let wr = img
        .write_sector(
            DiskChs::new(0, 0, 4),
            None,
            &payload,
            RwSectorScope::DataOnly,
            false,
            false,
        )
        .unwrap();
    assert!(!wr.not_found);
    assert!(!wr.address_crc_error);
    let res = img
        .read_sector(DiskChs::new(0, 0, 4), None, RwSectorScope::DataOnly)
        .unwrap();
    assert_eq!(res.read_buf, payload);
    assert!(!res.data_crc_error);
    // The neighbours keep their fill.
    let other = img
        .read_sector(DiskChs::new(0, 0, 3), None, RwSectorScope::DataOnly)
        .unwrap();
    assert!(other.read_buf.iter().all(|&b| b == 0xF6));
}

#[test]
fn write_wrong_buffer_size_is_rejected_and_harmless() {
    let mut img = formatted_disk(0xF6, 80);
    let ti = img.track_map.head0[0];
    let before = img.track_pool[ti].data.get_hash();
    let short = vec![0x55u8; 500];
    let err = img
        .write_sector(
            DiskChs::new(0, 0, 2),
            None,
            &short,
            RwSectorScope::DataOnly,
            false,
            false,
        )
        .unwrap_err();
    assert_eq!(err, DiskImageError::ParameterError);
    let after = img.track_pool[ti].data.get_hash();
    assert_eq!(before, after);
}

#[test]
fn hash_changes_after_a_write() {
    let mut img = formatted_disk(0xF6, 80);
    let ti = img.track_map.head0[0];
    let before = img.track_pool[ti].data.get_hash();
    let payload = vec![0x11u8; 512];
    img.write_sector(
        DiskChs::new(0, 0, 1),
        None,
        &payload,
        RwSectorScope::DataOnly,
        false,
        false,
    )
    .unwrap();
    let after = img.track_pool[ti].data.get_hash();
    assert_ne!(before, after);
}

#[test]
fn missing_sector_is_a_data_error() {
    let mut img = formatted_disk(0xF6, 80);
    let err = img
        .read_sector(DiskChs::new(0, 0, 10), None, RwSectorScope::DataOnly)
        .unwrap_err();
    assert_eq!(err, DiskImageError::DataError);
}

#[test]
fn out_of_bounds_geometry_is_a_seek_error() {
    let mut img = formatted_disk(0xF6, 80);
    let err = img
        .read_sector(DiskChs::new(1, 0, 1), None, RwSectorScope::DataOnly)
        .unwrap_err();
    assert_eq!(err, DiskImageError::SeekError);
    let err2 = img
        .read_sector(DiskChs::new(0, 2, 1), None, RwSectorScope::DataOnly)
        .unwrap_err();
    assert_eq!(err2, DiskImageError::SeekError);
}

#[test]
fn size_code_mismatch_without_debug_is_a_data_error() {
    let mut img = formatted_disk(0xF6, 80);
    let err = img
        .read_sector(DiskChs::new(0, 0, 5), Some(1), RwSectorScope::DataOnly)
        .unwrap_err();
    assert_eq!(err, DiskImageError::DataError);
    let ok = img
        .read_sector(DiskChs::new(0, 0, 5), Some(2), RwSectorScope::DataOnly)
        .unwrap();
    assert_eq!(ok.data_len, 512);
}

#[test]
fn next_sector_on_track_stops_at_track_end() {
    let img = formatted_disk(0xF6, 80);
    assert_eq!(
        img.next_sector_on_track(DiskChs::new(0, 0, 5)),
        Some(DiskChs::new(0, 0, 6))
    );
    assert_eq!(img.next_sector_on_track(DiskChs::new(0, 0, 9)), None);
}

#[test]
fn read_all_sectors_stops_at_eot() {
    let img = formatted_disk(0xF6, 80);
    let ti = img.track_map.head0[0];
    let res = img.track_pool[ti]
        .data
        .read_all_sectors(DiskCh::new(0, 0), 2, 5)
        .unwrap();
    assert_eq!(res.sectors_read, 5);
    assert_eq!(res.read_buf.len(), 5 * 512);
    assert!(res.read_buf.iter().all(|&b| b == 0xF6));
    assert!(!res.not_found);
    assert!(!res.address_crc_error);
    assert!(!res.data_crc_error);
}

#[test]
fn duplicate_sector_ids_first_wins_and_id_order_wraps() {
    let mut img = DiskImage::new(FloppyFormat::PcFloppy360);
    let raw = vec![0u8; 12500];
    img.add_track_bitstream(
        DiskDataEncoding::Mfm,
        DiskDataRate::Rate500Kbps,
        DiskCh::new(0, 0),
        500_000,
        &raw,
        None,
    )
    .unwrap();
    let sectors = vec![
        DiskChsn::new(0, 0, 1, 2),
        DiskChsn::new(0, 0, 1, 2),
        DiskChsn::new(0, 0, 2, 2),
    ];
    img.format_track(DiskCh::new(0, 0), sectors, 0xE5, 80).unwrap();

    // A write resolves to the first of the two id-1 sectors ...
    let payload = vec![0x42u8; 512];
    img.write_sector(
        DiskChs::new(0, 0, 1),
        None,
        &payload,
        RwSectorScope::DataOnly,
        false,
        false,
    )
    .unwrap();
    // ... and so does the read: it sees the written payload, not the
    // fill still held by the duplicate further along the track.
    let res = img
        .read_sector(DiskChs::new(0, 0, 1), None, RwSectorScope::DataOnly)
        .unwrap();
    assert_eq!(res.read_buf, payload);

    // The physical id order walks the duplicates in track order and
    // wraps at the end.
    let ti = img.track_map.head0[0];
    let next_after_1 = img.track_pool[ti].data.get_next_id(DiskChs::new(0, 0, 1)).unwrap();
    assert_eq!(next_after_1.s(), 1);
    let next_after_2 = img.track_pool[ti].data.get_next_id(DiskChs::new(0, 0, 2)).unwrap();
    assert_eq!(next_after_2.s(), 1);
}

#[test]
fn lying_header_is_flagged_and_still_read() {
    // The header claims cylinder 5 head 1 although the track is the
    // physical cylinder 0 head 0, as copy protections arrange.
    let mut img = DiskImage::new(FloppyFormat::PcFloppy360);
    let raw = vec![0u8; 12500];
    img.add_track_bitstream(
        DiskDataEncoding::Mfm,
        DiskDataRate::Rate500Kbps,
        DiskCh::new(0, 0),
        500_000,
        &raw,
        None,
    )
    .unwrap();
    img.format_track(DiskCh::new(0, 0), vec![DiskChsn::new(5, 1, 1, 2)], 0xD7, 80)
        .unwrap();
    let res = img
        .read_sector(DiskChs::new(0, 0, 1), None, RwSectorScope::DataOnly)
        .unwrap();
    assert!(res.wrong_cylinder);
    assert!(res.wrong_head);
    assert_eq!(res.data_len, 512);
    assert!(res.read_buf.iter().all(|&b| b == 0xD7));
    assert!(!res.address_crc_error);
    assert!(!res.data_crc_error);
}

#[test]
fn read_track_dumps_every_decoded_byte() {
    let img = formatted_disk(0xF6, 80);
    let ti = img.track_map.head0[0];
    let res = img.track_pool[ti].data.read_track(DiskCh::new(0, 0)).unwrap();
    // 100,000 cells decode to 6,250 bytes.
    assert_eq!(res.read_buf.len(), 6250);
    assert!(!res.not_found);
    // The track opens with gap4a bytes.
    assert!(res.read_buf[..80].iter().all(|&b| b == 0x4E));
}

#[test]
fn volume_name_and_descriptor_setters() {
    let mut img = DiskImage::new(FloppyFormat::PcFloppy360);
    assert_eq!(img.volume_name(), None);
    img.set_volume_name(String::from("TESTDISK"));
    assert_eq!(img.volume_name(), Some("TESTDISK"));
    img.set_data_rate(DiskDataRate::Rate250Kbps);
    assert_eq!(img.data_rate(), DiskDataRate::Rate250Kbps);
    img.set_data_encoding(DiskDataEncoding::Fm);
    assert_eq!(img.data_encoding(), DiskDataEncoding::Fm);
    let mut desc = img.image_format();
    desc.default_sector_size = 256;
    img.set_image_format(desc);
    assert_eq!(img.image_format().default_sector_size, 256);
}

#[test]
fn is_id_valid_checks_bounds_and_ids() {
    let img = formatted_disk(0xF6, 80);
    assert!(img.is_id_valid(DiskChs::new(0, 0, 1)));
    assert!(img.is_id_valid(DiskChs::new(0, 0, 9)));
    assert!(!img.is_id_valid(DiskChs::new(0, 0, 10)));
    assert!(!img.is_id_valid(DiskChs::new(5, 0, 1)));
    assert!(!img.is_id_valid(DiskChs::new(0, 2, 1)));
}

#[test]
fn blank_image_reports_its_format() {
    let img = DiskImage::new(FloppyFormat::PcFloppy360);
    assert_eq!(img.disk_format, FloppyFormat::PcFloppy360);
    assert_eq!(img.sector_size, 512);
    assert_eq!(img.geometry(), DiskCh::new(40, 2));
    assert_eq!(img.heads(), 2);
    assert_eq!(img.data_rate(), DiskDataRate::Rate500Kbps);
    assert_eq!(img.data_encoding(), DiskDataEncoding::Mfm);
    assert_eq!(img.consistency.consistent_track_length, Some(9));
}
