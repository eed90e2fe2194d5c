use inverter_codec::checksum::calc_crc;
use inverter_codec::errors::InverterError;
use inverter_codec::frame::{
    append_chunk, checked_bytes, checksum_mismatch, decode_response, encode_command,
    encode_frame, format_hex16, read_response, slice_trim_end_matches, trim_chunk, CHUNK_LENGTH,
    END_RESPONSE_MARKER, MAX_COMMAND_LENGTH, MIN_FRAME_LENGTH, START_RESPONSE_MARKER,
};

fn framed(payload: &[u8]) -> Vec<u8> {
    let mut response = vec![START_RESPONSE_MARKER];
    response.extend_from_slice(payload);
    let crc = calc_crc(&response);
    response.push((crc >> 8) as u8);
    response.push((crc & 0xff) as u8);
    response
}

#[test]
fn constants_of_the_wire_format() {
    assert_eq!(MAX_COMMAND_LENGTH, 5);
    assert_eq!(START_RESPONSE_MARKER, b'(');
    assert_eq!(END_RESPONSE_MARKER, b'\r');
    assert_eq!(MIN_FRAME_LENGTH, 8);
    assert_eq!(CHUNK_LENGTH, 8);
}

#[test]
fn encode_status_command() {
    assert_eq!(
        encode_command("QPIGS").unwrap(),
        vec![81, 80, 73, 71, 83, 183, 169, 13]
    );
}

#[test]
fn encode_short_command_is_padded() {
    let frame = encode_command("QID").unwrap();
    let crc = calc_crc(b"QID");
    assert_eq!(
        frame,
        vec![b'Q', b'I', b'D', (crc >> 8) as u8, (crc & 0xff) as u8, 13, 0, 0]
    );
}

#[test]
fn encode_empty_command() {
    assert_eq!(encode_command("").unwrap(), vec![0, 0, 13, 0, 0, 0, 0, 0]);
}

#[test]
fn encode_has_minimum_length_for_every_short_command() {
    for cmd in ["", "Q", "QP", "QPI", "QPIG", "QPIGS"] {
        assert_eq!(encode_command(cmd).unwrap().len(), 8);
    }
}

#[test]
fn encode_refuses_long_command() {
    assert_eq!(
        encode_command("QPIGS2"),
        Err(InverterError::CommandTooLong { cmd: "QPIGS2".to_string() })
    );
}

#[test]
fn encode_counts_bytes_not_characters() {
    assert_eq!(
        encode_command("ééé"),
        Err(InverterError::CommandTooLong { cmd: "ééé".to_string() })
    );
    assert_eq!(encode_command("éé").unwrap().len(), 8);
}

#[test]
fn encode_frame_takes_any_length() {
    let payload = b"QPIGS2";
    let crc = calc_crc(payload);
    let frame = encode_frame(payload);
    assert_eq!(frame.len(), 9);
    assert_eq!(&frame[..6], payload);
    assert_eq!(frame[6], (crc >> 8) as u8);
    assert_eq!(frame[7], (crc & 0xff) as u8);
    assert_eq!(frame[8], 13);
}

#[test]
fn encoded_frame_without_padding_self_verifies() {
    let frame = encode_command("QPIGS").unwrap();
    assert_eq!(calc_crc(&frame[..7]), 0);
}

#[test]
fn trim_end_matches_drops_matching_tail() {
    let data = [1, 2, 0, 3, 0, 0];
    assert_eq!(slice_trim_end_matches(&data, |b: &i32| *b == 0), &[1, 2, 0, 3]);
    assert_eq!(slice_trim_end_matches(&data, |b: &i32| *b < 5), &[] as &[i32]);
    assert_eq!(slice_trim_end_matches(&data, |b: &i32| *b > 5), &data);
    assert_eq!(slice_trim_end_matches(&[] as &[i32], |_: &i32| true), &[] as &[i32]);
}

#[test]
fn trim_chunk_drops_padding_only() {
    assert_eq!(trim_chunk(&[9, 0xc7, 13, 0, 0, 0, 0, 0]), &[9, 0xc7, 13]);
    assert_eq!(trim_chunk(&[0, 1, 0, 2, 0, 0, 0, 0]), &[0, 1, 0, 2]);
    assert_eq!(trim_chunk(&[0; 8]), &[] as &[u8]);
    assert_eq!(trim_chunk(b"(0 233.7"), b"(0 233.7");
}

#[test]
fn append_chunk_joins_and_stops_at_end_marker() {
    let mut received = Vec::new();
    assert!(!append_chunk(&mut received, b"(0 233.7"));
    assert_eq!(received, b"(0 233.7");
    assert!(append_chunk(&mut received, &[0x09, 0xc7, 13, 0, 0, 0, 0, 0]));
    assert_eq!(received, b"(0 233.7\x09\xc7");
}

#[test]
fn append_chunk_of_padding_changes_nothing() {
    let mut received = vec![1, 2, 3];
    assert!(!append_chunk(&mut received, &[0; 8]));
    assert_eq!(received, vec![1, 2, 3]);
}

#[test]
fn append_chunk_takes_end_marker_alone() {
    let mut received = vec![1, 2, 3];
    assert!(append_chunk(&mut received, &[13, 0, 0, 0, 0, 0, 0, 0]));
    assert_eq!(received, vec![1, 2, 3]);
}

#[test]
fn append_chunk_keeps_end_marker_inside_chunk() {
    let mut received = Vec::new();
    assert!(!append_chunk(&mut received, &[13, 1, 0, 0, 0, 0, 0, 0]));
    assert_eq!(received, vec![13, 1]);
}

#[test]
fn decode_accepts_checked_response() {
    assert_eq!(decode_response(b"(0 233.7\x09\xc7"), Ok("0 233.7".to_string()));
}

#[test]
fn decode_accepts_empty_payload() {
    assert_eq!(decode_response(&framed(b"")), Ok(String::new()));
}

#[test]
fn decode_accepts_utf8_payload() {
    assert_eq!(decode_response(&framed("23 °C".as_bytes())), Ok("23 °C".to_string()));
}

#[test]
fn decode_misses_marker() {
    assert_eq!(decode_response(b""), Err(InverterError::MissingResponseMarker));
    assert_eq!(
        decode_response(b"0 233.7\x09\xc7"),
        Err(InverterError::MissingResponseMarker)
    );
    let mut response = b")0 233.7".to_vec();
    let crc = calc_crc(&response);
    response.push((crc >> 8) as u8);
    response.push((crc & 0xff) as u8);
    assert_eq!(decode_response(&response), Err(InverterError::MissingResponseMarker));
}

#[test]
fn decode_reports_checksum_mismatch() {
    assert_eq!(
        decode_response(b"(0 233.7\x09\xc8"),
        Err(InverterError::InvalidCrc {
            expected: "0x09c7".to_string(),
            actual: "0x09c8".to_string(),
            data: "(0 233.7".to_string(),
        })
    );
}

#[test]
fn decode_reports_checksum_in_lower_case_with_leading_zeros() {
    let crc = calc_crc(b"(");
    assert_eq!(crc, 0xa56a);
    assert_eq!(
        decode_response(&[b'(', 0x00, 0xab]),
        Err(InverterError::InvalidCrc {
            expected: "0xa56a".to_string(),
            actual: "0x00ab".to_string(),
            data: "(".to_string(),
        })
    );
}

#[test]
fn decode_rejects_lone_marker() {
    assert_eq!(
        decode_response(b"("),
        Err(InverterError::InvalidCrc {
            expected: "0x0000".to_string(),
            actual: "0x0028".to_string(),
            data: String::new(),
        })
    );
}

#[test]
fn decode_rejects_marker_and_one_byte() {
    assert_eq!(
        decode_response(b"(a"),
        Err(InverterError::InvalidCrc {
            expected: "0x0000".to_string(),
            actual: "0x2861".to_string(),
            data: String::new(),
        })
    );
}

#[test]
fn decode_reports_unreadable_data_with_replacement() {
    assert_eq!(
        decode_response(&[b'(', 0xff, b'a', 0x12, 0x34]),
        Err(InverterError::InvalidCrc {
            expected: format!("{:#06x}", calc_crc(&[b'(', 0xff, b'a'])),
            actual: "0x1234".to_string(),
            data: "(\u{fffd}a".to_string(),
        })
    );
}

#[test]
fn decode_expects_utf8() {
    let payload = [b'a', 0xff, b'b'];
    let source = std::str::from_utf8(&payload).unwrap_err();
    assert_eq!(
        decode_response(&framed(&payload)),
        Err(InverterError::ExpectedUtf8 { source })
    );
}

#[test]
fn hex_of_sixteen_bits() {
    assert_eq!(format_hex16(0), "0x0000");
    assert_eq!(format_hex16(0x09c7), "0x09c7");
    assert_eq!(format_hex16(0xabcd), "0xabcd");
    assert_eq!(format_hex16(0xffff), "0xffff");
    assert_eq!(format_hex16(0x000f), "0x000f");
}

#[test]
fn hex_agrees_with_the_formatter() {
    for value in 0u16..=0xffff {
        assert_eq!(format_hex16(value), format!("{:#06x}", value));
    }
}

#[test]
fn checked_bytes_leave_out_the_checksum() {
    assert_eq!(checked_bytes(b"(0 233.7\x09\xc7"), b"(0 233.7");
    assert_eq!(checked_bytes(b"(ab"), b"(");
    assert_eq!(checked_bytes(b"ab"), b"");
    assert_eq!(checked_bytes(b"a"), b"");
    assert_eq!(checked_bytes(b""), b"");
}

#[test]
fn checksum_mismatch_reports_both_checksums() {
    assert_eq!(
        checksum_mismatch(b"(0 233.7\x09\xc8", "shown".to_string()),
        InverterError::InvalidCrc {
            expected: "0x09c7".to_string(),
            actual: "0x09c8".to_string(),
            data: "shown".to_string(),
        }
    );
    assert_eq!(
        checksum_mismatch(b"", String::new()),
        InverterError::InvalidCrc {
            expected: "0x0000".to_string(),
            actual: "0x0000".to_string(),
            data: String::new(),
        }
    );
}

#[test]
fn read_response_from_two_chunks() {
    let chunks = vec![b"(0 233.7".to_vec(), vec![0x09, 0xc7, 0x0d, 0, 0, 0, 0, 0]];
    assert_eq!(read_response(&chunks), Some(Ok("0 233.7".to_string())));
}

#[test]
fn read_response_reports_checksum_mismatch() {
    let chunks = vec![b"(0 233.7".to_vec(), vec![0x09, 0xc8, 0x0d, 0, 0, 0, 0, 0]];
    assert_eq!(
        read_response(&chunks),
        Some(Err(InverterError::InvalidCrc {
            expected: "0x09c7".to_string(),
            actual: "0x09c8".to_string(),
            data: "(0 233.7".to_string(),
        }))
    );
}

#[test]
fn read_response_needs_the_end_marker() {
    assert_eq!(read_response(&[]), None);
    assert_eq!(read_response(&[b"(0 233.7".to_vec()]), None);
    assert_eq!(read_response(&[b"(0 233.7".to_vec(), vec![0x09, 0xc7, 0, 0, 0, 0, 0, 0]]), None);
}

#[test]
fn read_response_stops_at_the_first_end_marker() {
    let chunks = vec![
        vec![0; 8],
        b"(0 233.7".to_vec(),
        vec![0x09, 0xc7, 0x0d, 0, 0, 0, 0, 0],
        b"(1 000.0".to_vec(),
        vec![0x0d],
    ];
    assert_eq!(read_response(&chunks), Some(Ok("0 233.7".to_string())));
}

#[test]
fn read_response_in_one_short_chunk() {
    assert_eq!(
        read_response(&[vec![b'(', b'a', 0xf3, 0xc8, 13, 0, 0, 0]]),
        Some(Ok("a".to_string()))
    );
    assert_eq!(
        read_response(&[vec![0x0d]]),
        Some(Err(InverterError::MissingResponseMarker))
    );
}
