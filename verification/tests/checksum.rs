use inverter_codec::checksum::calc_crc;

#[test]
fn crc_of_nothing_is_zero() {
    assert_eq!(calc_crc(&[]), 0);
}

#[test]
fn crc_check_value() {
    assert_eq!(calc_crc(b"123456789"), 0x31c3);
}

#[test]
fn crc_of_status_command() {
    assert_eq!(calc_crc(b"QPIGS"), 0xb7a9);
}

#[test]
fn crc_of_single_bytes() {
    assert_eq!(calc_crc(&[0x00]), 0x0000);
    assert_eq!(calc_crc(&[0x01]), 0x1021);
    assert_eq!(calc_crc(&[0x80]), 0x9188);
    assert_eq!(calc_crc(&[0xff]), 0x1ef0);
}

#[test]
fn crc_self_verifies() {
    let samples: Vec<Vec<u8>> = vec![
        vec![],
        vec![0],
        b"QPIGS".to_vec(),
        b"(0 233.7".to_vec(),
        (0u8..=255).collect(),
    ];
    for data in samples {
        let crc = calc_crc(&data);
        let mut framed = data.clone();
        framed.push((crc >> 8) as u8);
        framed.push((crc & 0xff) as u8);
        assert_eq!(calc_crc(&framed), 0);
    }
}

#[test]
fn crc_detects_any_other_trailer() {
    let data = b"(0 233.7".to_vec();
    let crc = calc_crc(&data);
    for wrong in 0u16..=0xffff {
        if wrong == crc {
            continue;
        }
        let mut framed = data.clone();
        framed.push((wrong >> 8) as u8);
        framed.push((wrong & 0xff) as u8);
        assert_ne!(calc_crc(&framed), 0);
    }
}
