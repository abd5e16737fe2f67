use binary_rpc_client::frame::{decode_frame, encode_frame, Decoded, FrameError, HEADER_LEN};
use binary_rpc_client::response::{split_outcome, success_payload_hex, ResponseError};

#[test]
fn encode_layout_is_little_endian() {
    let bytes = encode_frame(0x0102, 0x0A0B0C0D, 1, &[7, 8]);
    assert_eq!(bytes, vec![0x02, 0x01, 0x0D, 0x0C, 0x0B, 0x0A, 1, 2, 0, 0, 0, 7, 8]);
}

#[test]
fn round_trip_recovers_frame() {
    let payload: Vec<u8> = (0..100u8).collect();
    let mut bytes = encode_frame(3, 0xDEADBEEF, 0, &payload);
    bytes.extend_from_slice(&[9, 9, 9]);
    match decode_frame(&bytes, &[10, 10, 10, 100]) {
        Decoded::Complete { frame, consumed } => {
            assert_eq!(frame.channel, 3);
            assert_eq!(frame.request_id, 0xDEADBEEF);
            assert_eq!(frame.outcome, 0);
            assert_eq!(frame.payload, payload);
            assert_eq!(consumed, HEADER_LEN + 100);
        }
        _ => panic!("expected a complete frame"),
    }
}

#[test]
fn round_trip_empty_payload() {
    let bytes = encode_frame(0, 0, 5, &[]);
    assert_eq!(bytes.len(), HEADER_LEN);
    match decode_frame(&bytes, &[0]) {
        Decoded::Complete { frame, consumed } => {
            assert_eq!(frame.outcome, 5);
            assert!(frame.payload.is_empty());
            assert_eq!(consumed, HEADER_LEN);
        }
        _ => panic!("expected a complete frame"),
    }
}

#[test]
fn partial_frames_are_incomplete() {
    let bytes = encode_frame(0, 1, 0, &[1, 2, 3, 4]);
    for cut in 0..bytes.len() {
        assert!(matches!(decode_frame(&bytes[..cut], &[16]), Decoded::Incomplete));
    }
}

#[test]
fn unknown_channel_is_corrupt() {
    let bytes = encode_frame(2, 1, 0, &[1]);
    assert!(matches!(
        decode_frame(&bytes, &[16, 16]),
        Decoded::Corrupt(FrameError::UnknownChannel)
    ));
}

#[test]
fn oversized_length_is_corrupt_before_payload_arrives() {
    let bytes = encode_frame(0, 1, 0, &[0; 17]);
    assert!(matches!(
        decode_frame(&bytes[..HEADER_LEN], &[16]),
        Decoded::Corrupt(FrameError::PayloadTooLarge)
    ));
}

#[test]
fn outcome_zero_gives_payload() {
    match split_outcome(&[0, 0xAB, 0xCD]) {
        Ok(p) => assert_eq!(p, vec![0xAB, 0xCD]),
        Err(_) => panic!("expected a payload"),
    }
}

#[test]
fn outcome_nonzero_is_app_error() {
    match split_outcome(&[1]) {
        Err(ResponseError::AppError(d)) => assert!(d.is_empty()),
        _ => panic!("expected an application error"),
    }
    match split_outcome(&[2, 5]) {
        Err(ResponseError::AppError(d)) => assert_eq!(d, vec![5]),
        _ => panic!("expected an application error"),
    }
}

#[test]
fn empty_response_is_refused() {
    assert!(matches!(split_outcome(&[]), Err(ResponseError::Empty)));
}

#[test]
fn success_payload_as_hex() {
    assert_eq!(success_payload_hex(&[0, 0xAB, 0x01, 0xF0]), Some("ab01f0".to_string()));
    assert_eq!(success_payload_hex(&[0]), Some(String::new()));
    assert_eq!(success_payload_hex(&[1, 0xAB]), None);
    assert_eq!(success_payload_hex(&[]), None);
}
