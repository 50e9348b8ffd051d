use fluxfox::mfm::MfmCodec;
use fluxfox::util::crc_ccitt;

#[test]
fn mfm_encode_decode_round_trip() {
    let data: Vec<u8> = (0u16..=255).map(|b| b as u8).collect();
    let zeros = vec![0u8; data.len() * 2];
    let mut codec = MfmCodec::new(&zeros);
    codec.replace_encoded(&data);
    assert_eq!(codec.len(), data.len() * 16);
    let back = codec.read_decoded(0, data.len());
    assert_eq!(back, data);
    assert!(!codec.has_weak_bits());
}

#[test]
fn mfm_write_read_round_trip_mid_stream() {
    let base = vec![0x4E_u8; 64];
    let mut codec = MfmCodec::new(&vec![0u8; 128]);
    codec.replace_encoded(&base);
    let payload: Vec<u8> = vec![0xDE, 0xAD, 0xBE, 0xEF, 0x01, 0x02];
    codec.write_encoded(160, &payload);
    let back = codec.read_decoded(80, payload.len());
    assert_eq!(back, payload);
}

#[test]
fn crc_ccitt_threads_its_seed() {
    let field: [u8; 8] = [0xA1, 0xA1, 0xA1, 0xFE, 0x00, 0x00, 0x01, 0x02];
    let whole = crc_ccitt(&field, None);
    let head = crc_ccitt(&field[0..4], None);
    let threaded = crc_ccitt(&field[4..8], Some(head));
    assert_eq!(whole, threaded);
    // The seed matters: a fresh CRC of the tail alone differs.
    assert_ne!(whole, crc_ccitt(&field[4..8], None));
}

#[test]
fn crc_ccitt_differs_on_corruption() {
    let field: [u8; 8] = [0xA1, 0xA1, 0xA1, 0xFE, 0x00, 0x00, 0x01, 0x02];
    let mut bad = field;
    bad[6] = 0x03;
    assert_ne!(crc_ccitt(&field, None), crc_ccitt(&bad, None));
}
