use modem::crc::crc32;
use modem::digest::sha256;
use modem::frame::{
    decode_frame, encode_frame, FrameError, FrameHeader, FRAME_LEN, HEADER_LEN, MAX_PAYLOAD, VERSION,
};
use modem::rs::{rs_decode, rs_encode, RS_DATA, RS_TOTAL};

fn h(first: bool, last: bool, len: usize) -> FrameHeader {
    FrameHeader { first, last, ultrasonic: false, payload_len: len as u16 }
}

#[test]
fn empty_payload_roundtrip() {
    let header = h(true, true, 0);
    let bytes = encode_frame(header, &[]).unwrap();
    let (h2, p) = decode_frame(&bytes).unwrap();
    assert_eq!(h2, header);
    assert_eq!(p, Vec::<u8>::new());
}

#[test]
fn max_payload_roundtrip() {
    let payload: Vec<u8> = (0..MAX_PAYLOAD).map(|i| i as u8).collect();
    let header = h(true, true, MAX_PAYLOAD);
    let bytes = encode_frame(header, &payload).unwrap();
    let (h2, p) = decode_frame(&bytes).unwrap();
    assert_eq!(h2, header);
    assert_eq!(p, payload);
}

#[test]
fn corrects_byte_errors() {
    let payload: Vec<u8> = b"hello, world! this is a test payload.".to_vec();
    let header = h(true, true, payload.len());
    let mut bytes = encode_frame(header, &payload).unwrap();
    for i in [5, 22, 50, 80, 110, 140, 170, 200, 230, 240] {
        bytes[i] ^= 0x55;
    }
    let (_, p) = decode_frame(&bytes).unwrap();
    assert_eq!(p, payload);
}

#[test]
fn rejects_oversize_payload() {
    let payload = vec![0u8; MAX_PAYLOAD + 1];
    let header = h(true, true, payload.len());
    assert!(encode_frame(header, &payload).is_err());
}

#[test]
fn rs_failure_reported_as_rs_not_crc() {
    let payload = vec![0xAA; 100];
    let header = h(true, true, payload.len());
    let mut bytes = encode_frame(header, &payload).unwrap();
    for i in 0..20 {
        bytes[i] ^= 0xFF;
    }
    assert!(matches!(decode_frame(&bytes), Err(FrameError::RsUncorrectable)));
}

#[test]
fn rejects_reserved_flag_bits() {
    let mut bytes = encode_frame(
        FrameHeader { first: true, last: true, ultrasonic: false, payload_len: 4 },
        b"abcd",
    )
    .unwrap();
    bytes[1] |= 0b1000;
    let header_bytes: [u8; HEADER_LEN] = [VERSION, 0b0000_1011, 0, 4];
    assert!(matches!(FrameHeader::from_bytes(&header_bytes), Err(FrameError::ReservedFlagsSet(_))));
}

#[test]
fn header_bytes_roundtrip_for_every_flag_combination() {
    for bits in 0u8..8 {
        let header = FrameHeader {
            first: bits & 1 != 0,
            last: bits & 2 != 0,
            ultrasonic: bits & 4 != 0,
            payload_len: 210,
        };
        let b = header.to_bytes();
        assert_eq!(b, [VERSION, bits, 0, 210]);
        assert_eq!(header.flags_byte(), bits);
        assert_eq!(FrameHeader::from_bytes(&b), Ok(header));
    }
}

#[test]
fn header_longer_than_a_frame_holds_is_refused() {
    assert_eq!(FrameHeader::from_bytes(&[VERSION, 0, 0x12, 0x34]), Err(FrameError::PayloadTooLong(0x1234)));
}

#[test]
fn header_with_wrong_version_is_refused() {
    assert_eq!(FrameHeader::from_bytes(&[0x02, 0, 0, 0]), Err(FrameError::BadVersion(0x02)));
}

#[test]
fn payload_length_must_match_the_header() {
    let header = h(true, false, 5);
    assert_eq!(
        encode_frame(header, b"abc"),
        Err(FrameError::HeaderPayloadLenMismatch { header_says: 5, got: 3 })
    );
}

#[test]
fn oversize_payload_error_names_the_length() {
    let payload = vec![0u8; 300];
    let header = h(true, true, 300);
    assert_eq!(encode_frame(header, &payload), Err(FrameError::PayloadTooLong(300)));
}

#[test]
fn decode_refuses_a_frame_of_the_wrong_length() {
    let bytes = vec![0u8; FRAME_LEN - 1];
    assert_eq!(decode_frame(&bytes), Err(FrameError::BadLength(FRAME_LEN - 1)));
}

#[test]
fn frame_is_a_codeword_followed_by_the_crc() {
    let payload = b"xyz";
    let header = FrameHeader { first: false, last: true, ultrasonic: true, payload_len: 3 };
    let bytes = encode_frame(header, payload).unwrap();
    assert_eq!(&bytes[0..4], &[VERSION, 0b110, 0, 3]);
    assert_eq!(&bytes[4..7], payload);
    assert!(bytes[7..RS_DATA].iter().all(|&b| b == 0));
    let mut data = [0u8; RS_DATA];
    data.copy_from_slice(&bytes[0..RS_DATA]);
    let cw = rs_encode(&data);
    assert_eq!(&cw[..], &bytes[0..RS_TOTAL]);
    let crc = crc32(&bytes[0..7]).to_be_bytes();
    assert_eq!(&bytes[RS_TOTAL..], &crc);
}

#[test]
fn a_corrupted_crc_is_reported_as_crc_mismatch() {
    let header = h(true, true, 2);
    let mut bytes = encode_frame(header, b"hi").unwrap();
    bytes[RS_TOTAL] ^= 1;
    assert_eq!(decode_frame(&bytes), Err(FrameError::CrcMismatch));
}

#[test]
fn framing_errors_read_as_the_program_prints_them() {
    assert_eq!(FrameError::PayloadTooLong(220).message(), "payload too long: 220 > 219");
    assert_eq!(
        FrameError::HeaderPayloadLenMismatch { header_says: 5, got: 3 }.message(),
        "header says payload_len=5 but got 3 bytes"
    );
    assert_eq!(FrameError::BadVersion(0x2a).message(), "bad version byte: 0x2a");
    assert_eq!(FrameError::ReservedFlagsSet(0x0b).message(), "reserved flag bits set: 0b00001011");
    assert_eq!(FrameError::BadLength(12).message(), "frame length wrong: got 12, expected 259");
    assert_eq!(FrameError::RsUncorrectable.message(), "RS uncorrectable");
    assert_eq!(FrameError::CrcMismatch.message(), "CRC mismatch");
}

fn sample_data() -> [u8; RS_DATA] {
    let mut d = [0u8; RS_DATA];
    for (i, b) in d.iter_mut().enumerate() {
        *b = (i as u8).wrapping_mul(37).wrapping_add(11);
    }
    d
}

#[test]
fn clean_roundtrip() {
    let data = sample_data();
    let cw = rs_encode(&data);
    let back = rs_decode(&cw).unwrap();
    assert_eq!(back, data);
}

#[test]
fn corrects_16_byte_errors() {
    let data = sample_data();
    let mut cw = rs_encode(&data);
    for &i in &[3, 17, 42, 60, 77, 100, 128, 150, 170, 190, 200, 210, 220, 230, 240, 250] {
        cw[i] ^= 0xFF;
    }
    let back = rs_decode(&cw).unwrap();
    assert_eq!(back, data, "RS must correct up to 16 byte errors");
}

#[test]
fn fails_above_16_byte_errors() {
    let data = sample_data();
    let mut cw = rs_encode(&data);
    for i in 0..17 {
        cw[i * 10] ^= 0xAA;
    }
    assert!(rs_decode(&cw).is_err(), "17 errors must be uncorrectable");
}

#[test]
fn rs_codeword_starts_with_the_data() {
    let data = sample_data();
    let cw = rs_encode(&data);
    assert_eq!(&cw[..RS_DATA], &data[..]);
    assert!(cw[RS_DATA..].iter().any(|&b| b != 0));
}

#[test]
fn known_vectors() {
    assert_eq!(crc32(b""), 0x00000000);
    assert_eq!(crc32(b"123456789"), 0xCBF43926);
    assert_eq!(crc32(b"hello world"), 0x0D4A1185);
}

#[test]
fn sha256_of_abc() {
    let d = sha256(b"abc");
    assert_eq!(
        d,
        [
            0xba, 0x78, 0x16, 0xbf, 0x8f, 0x01, 0xcf, 0xea, 0x41, 0x41, 0x40, 0xde, 0x5d, 0xae, 0x22, 0x23, 0xb0,
            0x03, 0x61, 0xa3, 0x96, 0x17, 0x7a, 0x9c, 0xb4, 0x10, 0xff, 0x61, 0xf2, 0x00, 0x15, 0xad
        ]
    );
}
