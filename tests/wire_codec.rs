use splicer::ipc::wire::{
    check_len, decode_frame, encode_frame, FrameError, FrameHeader, Kind, HEADER_SIZE, MAX_PAYLOAD,
};

fn header(kind: Kind, schema_id: u32, len: u32) -> FrameHeader {
    FrameHeader { api_major: 1, kind, schema_id, len }
}

#[test]
fn header_bytes_are_big_endian() {
    let h = header(Kind::Response, 0x01020304, 0x0a0b0c0d);
    assert_eq!(h.to_bytes(), [1, 1, 1, 2, 3, 4, 0x0a, 0x0b, 0x0c, 0x0d]);
    assert_eq!(HEADER_SIZE, 10);
}

#[test]
fn header_round_trip() {
    for kind in [Kind::Request, Kind::Response, Kind::Event] {
        let h = header(kind, 7, 65536);
        assert_eq!(FrameHeader::from_bytes(h.to_bytes()), h);
    }
}

#[test]
fn unknown_kind_byte_reads_as_event() {
    let h = FrameHeader::from_bytes([1, 9, 0, 0, 0, 2, 0, 0, 0, 0]);
    assert_eq!(h.kind, Kind::Event);
    assert_eq!(h.schema_id, 2);
    assert_eq!(h.len, 0);
}

#[test]
fn kind_numbers() {
    assert_eq!(u8::from(Kind::Request), 0);
    assert_eq!(u8::from(Kind::Response), 1);
    assert_eq!(u8::from(Kind::Event), 2);
}

#[test]
fn frame_round_trip_keeps_header_and_payload() {
    let payload = b"hello, peer".to_vec();
    let h = header(Kind::Request, 1, payload.len() as u32);
    let bytes = encode_frame(&h, &payload);
    assert_eq!(bytes.len(), 10 + payload.len());
    let (h2, p2) = decode_frame(&bytes, MAX_PAYLOAD).unwrap();
    assert_eq!(h2, h);
    assert_eq!(p2, payload);
}

#[test]
fn decode_leaves_trailing_bytes_alone() {
    let h = header(Kind::Event, 2, 3);
    let mut bytes = encode_frame(&h, &[7, 8, 9]);
    bytes.extend_from_slice(&[1, 2]);
    assert_eq!(decode_frame(&bytes, MAX_PAYLOAD).unwrap().1, vec![7, 8, 9]);
}

#[test]
fn truncated_frames_are_refused() {
    let h = header(Kind::Event, 2, 4);
    let bytes = encode_frame(&h, &[1, 2, 3, 4]);
    assert_eq!(decode_frame(&bytes[..9], MAX_PAYLOAD), Err(FrameError::Truncated));
    assert_eq!(decode_frame(&bytes[..13], MAX_PAYLOAD), Err(FrameError::Truncated));
    assert_eq!(decode_frame(&[], MAX_PAYLOAD), Err(FrameError::Truncated));
}

#[test]
fn oversized_payloads_are_refused() {
    let h = header(Kind::Request, 1, MAX_PAYLOAD + 1);
    assert_eq!(check_len(&h, MAX_PAYLOAD), Err(FrameError::TooLarge));
    assert_eq!(check_len(&header(Kind::Request, 1, MAX_PAYLOAD), MAX_PAYLOAD), Ok(()));
    assert_eq!(decode_frame(&h.to_bytes(), MAX_PAYLOAD), Err(FrameError::TooLarge));
    assert_eq!(MAX_PAYLOAD, 16 * 1024 * 1024);
}
