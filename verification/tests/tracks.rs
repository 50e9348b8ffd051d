use fluxfox::chs::{DiskCh, DiskChs};
use fluxfox::diskimage::{
    DiskImage, FloppyFormat, RwSectorScope, SectorDescriptor,
};
use fluxfox::util::crc_ccitt;
use fluxfox::{DiskDataEncoding, DiskDataRate, DiskImageError};

fn descriptor(id: u8, n: u8, data: Vec<u8>) -> SectorDescriptor {
    SectorDescriptor {
        id,
        cylinder_id: None,
        head_id: None,
        n,
        data,
        weak: None,
        address_crc_error: false,
        data_crc_error: false,
        deleted_mark: false,
    }
}

#[test]
fn byte_track_sector_list_reports_crc_flags() {
    let mut img = DiskImage::new(FloppyFormat::PcFloppy360);
    img.add_track_bytestream(
        DiskDataEncoding::Mfm,
        DiskDataRate::Rate500Kbps,
        DiskCh::new(0, 0),
    )
    .unwrap();
    for id in 1u8..=3 {
        let mut sd = descriptor(id, 2, vec![id; 512]);
        if id == 2 {
            sd.data_crc_error = true;
        }
        img.master_sector(DiskChs::new(0, 0, id), &sd).unwrap();
    }
    let ti = img.track_map.head0[0];
    let list = img.track_pool[ti].get_sector_list();
    assert_eq!(list.len(), 3);
    let flags: Vec<bool> = list.iter().map(|e| e.data_crc_valid).collect();
    assert_eq!(flags, vec![true, false, true]);
}

#[test]
fn wrong_cylinder_is_flagged_and_payload_still_returned() {
    let mut img = DiskImage::new(FloppyFormat::PcFloppy360);
    img.add_track_bytestream(
        DiskDataEncoding::Mfm,
        DiskDataRate::Rate500Kbps,
        DiskCh::new(0, 0),
    )
    .unwrap();
    let mut sd = descriptor(1, 2, vec![7u8; 512]);
    // The header lies about its cylinder, as copy protections do.
    sd.cylinder_id = Some(5);
    img.master_sector(DiskChs::new(0, 0, 1), &sd).unwrap();
    let res = img
        .read_sector(DiskChs::new(0, 0, 1), None, RwSectorScope::DataOnly)
        .unwrap();
    assert!(res.wrong_cylinder);
    assert_eq!(res.data_len, 512);
    assert!(res.read_buf.iter().all(|&b| b == 7));
}

#[test]
fn byte_track_write_replaces_payload_in_place() {
    let mut img = DiskImage::new(FloppyFormat::PcFloppy360);
    img.add_track_bytestream(
        DiskDataEncoding::Mfm,
        DiskDataRate::Rate500Kbps,
        DiskCh::new(0, 0),
    )
    .unwrap();
    img.master_sector(DiskChs::new(0, 0, 1), &descriptor(1, 2, vec![1u8; 512]))
        .unwrap();
    img.master_sector(DiskChs::new(0, 0, 2), &descriptor(2, 2, vec![2u8; 512]))
        .unwrap();
    let fresh = vec![9u8; 512];
    img.write_sector(
        DiskChs::new(0, 0, 1),
        None,
        &fresh,
        RwSectorScope::DataOnly,
        false,
        false,
    )
    .unwrap();
    let one = img
        .read_sector(DiskChs::new(0, 0, 1), None, RwSectorScope::DataOnly)
        .unwrap();
    assert!(one.read_buf.iter().all(|&b| b == 9));
    let two = img
        .read_sector(DiskChs::new(0, 0, 2), None, RwSectorScope::DataOnly)
        .unwrap();
    assert!(two.read_buf.iter().all(|&b| b == 2));
}

#[test]
fn byte_track_read_all_sectors_honours_eot() {
    let mut img = DiskImage::new(FloppyFormat::PcFloppy360);
    img.add_track_bytestream(
        DiskDataEncoding::Mfm,
        DiskDataRate::Rate500Kbps,
        DiskCh::new(0, 0),
    )
    .unwrap();
    for id in 1u8..=9 {
        img.master_sector(DiskChs::new(0, 0, id), &descriptor(id, 2, vec![id; 512]))
            .unwrap();
    }
    let ti = img.track_map.head0[0];
    let res = img.track_pool[ti]
        .data
        .read_all_sectors(DiskCh::new(0, 0), 2, 5)
        .unwrap();
    assert_eq!(res.sectors_read, 5);
    assert_eq!(res.read_buf.len(), 5 * 512);
    for (i, chunk) in res.read_buf.chunks(512).enumerate() {
        assert!(chunk.iter().all(|&b| b == (i + 1) as u8));
    }
}

#[test]
fn normalisation_drops_empty_tracks_of_a_wide_dump() {
    let mut img = DiskImage::new(FloppyFormat::PcFloppy360);
    for h in 0u8..2 {
        for c in 0u16..80 {
            img.add_track_bytestream(
                DiskDataEncoding::Mfm,
                DiskDataRate::Rate500Kbps,
                DiskCh::new(c, h),
            )
            .unwrap();
            if c % 2 == 0 {
                img.master_sector(
                    DiskChs::new(c, h, 1),
                    &descriptor(1, 2, vec![0xF6; 512]),
                )
                .unwrap();
            }
        }
    }
    assert_eq!(img.track_map.head0.len(), 80);
    assert_eq!(img.track_map.head1.len(), 80);
    img.post_load_process();
    assert_eq!(img.track_map.head0.len(), 40);
    assert_eq!(img.track_map.head1.len(), 40);
    // Every surviving track still has its sector.
    for h in 0u8..2 {
        for c in 0u16..40 {
            assert!(img.is_id_valid(DiskChs::new(c, h, 1)));
        }
    }
}

#[test]
fn normalisation_keeps_a_mostly_full_disk() {
    let mut img = DiskImage::new(FloppyFormat::PcFloppy360);
    for c in 0u16..4 {
        img.add_track_bytestream(
            DiskDataEncoding::Mfm,
            DiskDataRate::Rate500Kbps,
            DiskCh::new(c, 0),
        )
        .unwrap();
        if c > 0 {
            img.master_sector(DiskChs::new(c, 0, 1), &descriptor(1, 2, vec![1u8; 512]))
                .unwrap();
        }
    }
    img.post_load_process();
    assert_eq!(img.track_map.head0.len(), 4);
}

#[test]
fn sector_map_covers_the_geometry() {
    let mut img = DiskImage::new(FloppyFormat::PcFloppy360);
    for h in 0u8..2 {
        img.add_track_bytestream(
            DiskDataEncoding::Mfm,
            DiskDataRate::Rate500Kbps,
            DiskCh::new(0, h),
        )
        .unwrap();
        img.master_sector(DiskChs::new(0, h, 1), &descriptor(1, 2, vec![h; 512]))
            .unwrap();
    }
    let map = img.get_sector_map();
    assert_eq!(map.len(), 2);
    assert_eq!(map[0].len(), 1);
    assert_eq!(map[1].len(), 1);
    assert_eq!(map[0][0].len(), 1);
    assert_eq!(map[0][0][0].chsn.s(), 1);
}

#[test]
fn missing_sector_on_byte_track_is_a_data_error() {
    let mut img = DiskImage::new(FloppyFormat::PcFloppy360);
    img.add_track_bytestream(
        DiskDataEncoding::Mfm,
        DiskDataRate::Rate500Kbps,
        DiskCh::new(0, 0),
    )
    .unwrap();
    for id in 1u8..=3 {
        img.master_sector(DiskChs::new(0, 0, id), &descriptor(id, 2, vec![id; 512]))
            .unwrap();
    }
    let read_err = img
        .read_sector(DiskChs::new(0, 0, 9), None, RwSectorScope::DataOnly)
        .unwrap_err();
    assert_eq!(read_err, DiskImageError::DataError);
    let buf = vec![0u8; 512];
    let write_err = img
        .write_sector(
            DiskChs::new(0, 0, 9),
            None,
            &buf,
            RwSectorScope::DataOnly,
            false,
            false,
        )
        .unwrap_err();
    assert_eq!(write_err, DiskImageError::DataError);
    // An empty track misses every id.
    let mut empty = DiskImage::new(FloppyFormat::PcFloppy360);
    empty
        .add_track_bytestream(
            DiskDataEncoding::Mfm,
            DiskDataRate::Rate500Kbps,
            DiskCh::new(0, 0),
        )
        .unwrap();
    let err = empty
        .read_sector(DiskChs::new(0, 0, 1), None, RwSectorScope::DataOnly)
        .unwrap_err();
    assert_eq!(err, DiskImageError::DataError);
}

// --- A hand-built MFM track whose sector header carries a corrupted CRC ---

fn push_mfm_byte(cells: &mut Vec<bool>, byte: u8, prev: &mut bool) {
    for k in 0..8 {
        let bit = (byte >> (7 - k)) & 1 == 1;
        cells.push(!*prev && !bit);
        cells.push(bit);
        *prev = bit;
    }
}

fn push_sync_a1(cells: &mut Vec<bool>, prev: &mut bool) {
    let w: u16 = 0x4489;
    for k in 0..16 {
        cells.push((w >> (15 - k)) & 1 == 1);
    }
    *prev = true;
}

fn cells_to_bytes(cells: &[bool]) -> Vec<u8> {
    let mut out = Vec::new();
    for chunk in cells.chunks(8) {
        let mut b = 0u8;
        for (j, &bit) in chunk.iter().enumerate() {
            if bit {
                b |= 1 << (7 - j);
            }
        }
        out.push(b);
    }
    out
}

#[test]
fn corrupted_header_crc_reads_empty_unless_debugging() {
    let mut cells: Vec<bool> = Vec::new();
    let mut prev = false;
    for _ in 0..20 {
        push_mfm_byte(&mut cells, 0x4E, &mut prev);
    }
    for _ in 0..12 {
        push_mfm_byte(&mut cells, 0x00, &mut prev);
    }
    // IDAM with a deliberately wrong CRC.
    for _ in 0..3 {
        push_sync_a1(&mut cells, &mut prev);
    }
    push_mfm_byte(&mut cells, 0xFE, &mut prev);
    for b in [0x00u8, 0x00, 0x01, 0x02] {
        push_mfm_byte(&mut cells, b, &mut prev);
    }
    let good = crc_ccitt(&[0xA1, 0xA1, 0xA1, 0xFE, 0x00, 0x00, 0x01, 0x02], None);
    let bad = good ^ 0x5A5A;
    push_mfm_byte(&mut cells, (bad >> 8) as u8, &mut prev);
    push_mfm_byte(&mut cells, (bad & 0xFF) as u8, &mut prev);
    for _ in 0..22 {
        push_mfm_byte(&mut cells, 0x4E, &mut prev);
    }
    for _ in 0..12 {
        push_mfm_byte(&mut cells, 0x00, &mut prev);
    }
    // DAM with a correct data CRC over mark and payload.
    for _ in 0..3 {
        push_sync_a1(&mut cells, &mut prev);
    }
    push_mfm_byte(&mut cells, 0xFB, &mut prev);
    let payload = vec![0xAAu8; 512];
    for &b in &payload {
        push_mfm_byte(&mut cells, b, &mut prev);
    }
    let mut dcrc = crc_ccitt(&[0xA1, 0xA1, 0xA1, 0xFB], None);
    dcrc = crc_ccitt(&payload, Some(dcrc));
    push_mfm_byte(&mut cells, (dcrc >> 8) as u8, &mut prev);
    push_mfm_byte(&mut cells, (dcrc & 0xFF) as u8, &mut prev);
    for _ in 0..50 {
        push_mfm_byte(&mut cells, 0x4E, &mut prev);
    }

    let raw = cells_to_bytes(&cells);
    let mut img = DiskImage::new(FloppyFormat::PcFloppy360);
    img.add_track_bitstream(
        DiskDataEncoding::Mfm,
        DiskDataRate::Rate500Kbps,
        DiskCh::new(0, 0),
        500_000,
        &raw,
        None,
    )
    .unwrap();

    // A normal read refuses the payload but reports the bad header.
    let res = img
        .read_sector(DiskChs::new(0, 0, 1), None, RwSectorScope::DataOnly)
        .unwrap();
    assert!(res.address_crc_error);
    assert_eq!(res.data_len, 0);
    assert_eq!(res.read_buf.len(), 0);

    // A diagnostic read hands the payload out anyway, flag still set.
    let ti = img.track_map.head0[0];
    let dbg = img.track_pool[ti]
        .data
        .read_sector(DiskChs::new(0, 0, 1), None, RwSectorScope::DataOnly, true)
        .unwrap();
    assert!(dbg.address_crc_error);
    assert_eq!(dbg.data_len, 512);
    assert_eq!(dbg.read_buf, payload);
    assert!(!dbg.data_crc_error);
}

#[test]
fn write_refreshes_a_stale_data_crc_verdict() {
    // A track whose sector header checks out but whose data CRC is
    // corrupt: a read flags the bad data, and a fresh write lays a
    // correct CRC and clears the verdict.
    let mut cells: Vec<bool> = Vec::new();
    let mut prev = false;
    for _ in 0..20 {
        push_mfm_byte(&mut cells, 0x4E, &mut prev);
    }
    for _ in 0..12 {
        push_mfm_byte(&mut cells, 0x00, &mut prev);
    }
    for _ in 0..3 {
        push_sync_a1(&mut cells, &mut prev);
    }
    push_mfm_byte(&mut cells, 0xFE, &mut prev);
    for b in [0x00u8, 0x00, 0x01, 0x02] {
        push_mfm_byte(&mut cells, b, &mut prev);
    }
    let hcrc = crc_ccitt(&[0xA1, 0xA1, 0xA1, 0xFE, 0x00, 0x00, 0x01, 0x02], None);
    push_mfm_byte(&mut cells, (hcrc >> 8) as u8, &mut prev);
    push_mfm_byte(&mut cells, (hcrc & 0xFF) as u8, &mut prev);
    for _ in 0..22 {
        push_mfm_byte(&mut cells, 0x4E, &mut prev);
    }
    for _ in 0..12 {
        push_mfm_byte(&mut cells, 0x00, &mut prev);
    }
    for _ in 0..3 {
        push_sync_a1(&mut cells, &mut prev);
    }
    push_mfm_byte(&mut cells, 0xFB, &mut prev);
    let payload = vec![0x33u8; 512];
    for &b in &payload {
        push_mfm_byte(&mut cells, b, &mut prev);
    }
    let mut dcrc = crc_ccitt(&[0xA1, 0xA1, 0xA1, 0xFB], None);
    dcrc = crc_ccitt(&payload, Some(dcrc));
    let bad = dcrc ^ 0x0F0F;
    push_mfm_byte(&mut cells, (bad >> 8) as u8, &mut prev);
    push_mfm_byte(&mut cells, (bad & 0xFF) as u8, &mut prev);
    for _ in 0..50 {
        push_mfm_byte(&mut cells, 0x4E, &mut prev);
    }

    let raw = cells_to_bytes(&cells);
    let mut img = DiskImage::new(FloppyFormat::PcFloppy360);
    img.add_track_bitstream(
        DiskDataEncoding::Mfm,
        DiskDataRate::Rate500Kbps,
        DiskCh::new(0, 0),
        500_000,
        &raw,
        None,
    )
    .unwrap();

    let ti = img.track_map.head0[0];
    let before = img
        .read_sector(DiskChs::new(0, 0, 1), None, RwSectorScope::DataOnly)
        .unwrap();
    assert!(before.data_crc_error);
    assert_eq!(before.read_buf, payload);
    assert!(!img.track_pool[ti].get_sector_list()[0].data_crc_valid);

    let fresh = vec![0x44u8; 512];
    img.write_sector(
        DiskChs::new(0, 0, 1),
        None,
        &fresh,
        RwSectorScope::DataOnly,
        false,
        false,
    )
    .unwrap();
    let after = img
        .read_sector(DiskChs::new(0, 0, 1), None, RwSectorScope::DataOnly)
        .unwrap();
    assert!(!after.data_crc_error);
    assert_eq!(after.read_buf, fresh);
    assert!(img.track_pool[ti].get_sector_list()[0].data_crc_valid);
}
