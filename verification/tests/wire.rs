use flipple_multiplayer_relay::wire::{WireError, WireFrame, MAX_DATAGRAM_LEN, MAX_PAYLOAD_LEN};

#[test]
fn round_trip_uses_network_byte_order() {
    let frame = WireFrame::new(0x1234, 0x89ab_cdef, b"ip-packet".to_vec()).unwrap();
    let encoded = frame.encode().unwrap();
    assert_eq!(
        &encoded[..10],
        &[2, 0, 0, 0, 0x12, 0x34, 0x89, 0xab, 0xcd, 0xef]
    );
    assert_eq!(WireFrame::decode(encoded).unwrap(), frame);
}

#[test]
fn rejects_invalid_input_without_truncation() {
    assert_eq!(
        WireFrame::decode(vec![1, 0]).unwrap_err(),
        WireError::TooShort
    );
    assert_eq!(
        WireFrame::new(2, 1, vec![0_u8; MAX_PAYLOAD_LEN + 1]).unwrap_err(),
        WireError::TooLarge,
    );
}

#[test]
fn matches_frozen_gate_a_vector() {
    let payload = vec![
        0x45, 0x00, 0x00, 0x1c, 0, 0, 0, 0, 0x40, 0x11, 0, 0, 100, 96, 0, 1, 100, 96, 0, 2,
        0x4a, 0x7e, 0x4a, 0x7e, 0, 8, 0, 0,
    ];
    let encoded = WireFrame::new(2, 7, payload).unwrap().encode().unwrap();
    assert_eq!(
        encoded.as_slice(),
        &[
            0x02, 0x00, 0x00, 0x00, 0x00, 0x02, 0x00, 0x00, 0x00, 0x07, 0x45, 0x00, 0x00, 0x1c,
            0x00, 0x00, 0x00, 0x00, 0x40, 0x11, 0x00, 0x00, 0x64, 0x60, 0x00, 0x01, 0x64, 0x60,
            0x00, 0x02, 0x4a, 0x7e, 0x4a, 0x7e, 0x00, 0x08, 0x00, 0x00,
        ]
    );
}

#[test]
fn decode_reports_each_header_error() {
    let mut bytes = vec![0u8; MAX_DATAGRAM_LEN + 1];
    bytes[0] = 2;
    assert_eq!(WireFrame::decode(bytes).unwrap_err(), WireError::TooLarge);
    assert_eq!(
        WireFrame::decode(vec![1, 0, 0, 0, 0, 1, 0, 0, 0, 0, 9]).unwrap_err(),
        WireError::UnsupportedVersion(1)
    );
    assert_eq!(
        WireFrame::decode(vec![2, 4, 0, 0, 0, 1, 0, 0, 0, 0, 9]).unwrap_err(),
        WireError::UnsupportedFlags(4)
    );
    assert_eq!(
        WireFrame::decode(vec![2, 0, 0, 0, 0, 0, 0, 0, 0, 0, 9]).unwrap_err(),
        WireError::InvalidDestination
    );
    assert_eq!(
        WireFrame::decode(vec![2, 0, 0, 0, 0, 1, 0, 0, 0, 0]).unwrap_err(),
        WireError::EmptyPayload
    );
}

#[test]
fn encode_refuses_invalid_frames() {
    let frame = WireFrame {
        flags: 1,
        dst_peer: 3,
        sequence: 0,
        payload: vec![1],
    };
    assert_eq!(frame.encode().unwrap_err(), WireError::UnsupportedFlags(1));
    assert_eq!(WireFrame::new(0, 0, vec![1]).unwrap_err(), WireError::InvalidDestination);
    assert_eq!(WireFrame::new(1, 0, Vec::new()).unwrap_err(), WireError::EmptyPayload);
}

#[test]
fn largest_frame_round_trips_at_the_datagram_limit() {
    let frame = WireFrame::new(u32::MAX, 0, vec![0xa5; MAX_PAYLOAD_LEN]).unwrap();
    let encoded = frame.encode().unwrap();
    assert_eq!(encoded.len(), MAX_DATAGRAM_LEN);
    assert_eq!(&encoded[..6], &[2, 0, 0xff, 0xff, 0xff, 0xff]);
    let decoded = WireFrame::decode(encoded.clone()).unwrap();
    assert_eq!(decoded, frame);
    assert_eq!(decoded.encode().unwrap(), encoded);
}

#[test]
fn frame_errors_say_what_went_wrong() {
    assert_eq!(WireError::TooShort.message(), "frame is shorter than the 10-byte header");
    assert_eq!(WireError::UnsupportedVersion(1).message(), "unsupported protocol version 1");
    assert_eq!(WireError::UnsupportedVersion(42).message(), "unsupported protocol version 42");
    assert_eq!(WireError::UnsupportedVersion(255).message(), "unsupported protocol version 255");
    assert_eq!(WireError::UnsupportedFlags(4).message(), "unsupported flags 0x04");
    assert_eq!(WireError::UnsupportedFlags(0xab).message(), "unsupported flags 0xab");
    assert_eq!(WireError::InvalidDestination.message(), "destination peer must be non-zero");
    assert_eq!(WireError::EmptyPayload.message(), "payload is empty");
    assert_eq!(WireError::TooLarge.message(), "frame exceeds the 1200-byte POC limit");
}
