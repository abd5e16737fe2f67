use binary_rpc_client::admission::{Admission, AdmissionError, ChannelConfig};
use binary_rpc_client::client::{Client, ClientError, Received};
use binary_rpc_client::correlator::{
    Correlator, RegisterError, RequestError, Resolution, ResolveStatus,
};
use binary_rpc_client::frame::{encode_frame, FrameError, HEADER_LEN};
use casper_types::bytesrepr::{FromBytes, ToBytes};
use casper_types::{BlockHash, Digest};

fn config(limit: u32, max_req: u32, max_resp: u32) -> ChannelConfig {
    ChannelConfig {
        request_limit: limit,
        max_request_payload_size: max_req,
        max_response_payload_size: max_resp,
    }
}

fn reply(client: &mut Client, channel: u16, id: u32, outcome: u8, payload: &[u8]) -> Received {
    let bytes = encode_frame(channel, id, outcome, payload);
    client.receive(&bytes)
}

#[test]
fn admission_bound_blocks_until_release() {
    let mut a = Admission::new(vec![config(3, 4096, 4096)]);
    for _ in 0..3 {
        assert_eq!(a.try_acquire(0), Ok(()));
    }
    assert_eq!(a.try_acquire(0), Err(AdmissionError::WouldBlock));
    assert!(a.release(0));
    assert_eq!(a.try_acquire(0), Ok(()));
    assert_eq!(a.try_acquire(1), Err(AdmissionError::UnknownChannel));
}

#[test]
fn release_without_acquire_is_refused() {
    let mut a = Admission::new(vec![config(1, 1, 1)]);
    assert!(!a.release(0));
    assert!(!a.release(7));
}

#[test]
fn size_check_at_limit_and_one_over() {
    let a = Admission::new(vec![config(1, 8, 8)]);
    assert_eq!(a.check_request_size(0, 8), Ok(()));
    assert_eq!(a.check_request_size(0, 9), Err(AdmissionError::PayloadTooLarge));
}

#[test]
fn client_admission_bound() {
    let mut c = Client::new(vec![config(3, 4096, 4096)]);
    let ids: Vec<u32> = (0..3).map(|_| c.send_request(0, b"x").unwrap().request_id).collect();
    assert_eq!(ids, vec![0, 1, 2]);
    assert!(matches!(c.send_request(0, b"x"), Err(ClientError::WouldBlock)));
    assert!(matches!(reply(&mut c, 0, 1, 0, b"ok"), Received::Frame { status: ResolveStatus::Delivered, .. }));
    // resolved but not yet collected: the slot is still taken
    assert!(matches!(c.send_request(0, b"x"), Err(ClientError::WouldBlock)));
    assert!(c.poll_response(0, 1).is_some());
    assert_eq!(c.send_request(0, b"x").unwrap().request_id, 3);
}

#[test]
fn oversized_request_rejected_before_write() {
    let mut c = Client::new(vec![config(3, 4, 4096)]);
    assert!(matches!(c.send_request(0, &[0; 5]), Err(ClientError::PayloadTooLarge)));
    let ok = c.send_request(0, &[0; 4]).unwrap();
    assert_eq!(ok.request_id, 0);
    assert_eq!(ok.bytes.len(), HEADER_LEN + 4);
    assert!(matches!(c.send_request(3, &[0]), Err(ClientError::UnknownChannel)));
}

#[test]
fn out_of_order_responses_reach_their_callers() {
    let mut c = Client::new(vec![config(3, 4096, 4096)]);
    let a = c.send_request(0, b"first").unwrap();
    let b = c.send_request(0, b"second").unwrap();
    assert!(matches!(reply(&mut c, 0, b.request_id, 0, b"for b"), Received::Frame { status: ResolveStatus::Delivered, .. }));
    assert!(c.poll_response(0, a.request_id).is_none());
    assert!(matches!(reply(&mut c, 0, a.request_id, 0, b"for a"), Received::Frame { status: ResolveStatus::Delivered, .. }));
    let ra = c.poll_response(0, a.request_id).unwrap().into_result().unwrap();
    let rb = c.poll_response(0, b.request_id).unwrap().into_result().unwrap();
    assert_eq!(ra, Some(b"for a".to_vec()));
    assert_eq!(rb, Some(b"for b".to_vec()));
}

#[test]
fn resolve_then_fail_all_keeps_response() {
    let mut k = Correlator::new();
    assert_eq!(k.register(0, 1), Ok(()));
    assert_eq!(k.resolve(0, 1, 0, vec![4]), ResolveStatus::Delivered);
    assert_eq!(k.resolve(0, 1, 0, vec![5]), ResolveStatus::Unknown);
    assert_eq!(k.fail_all(), 0);
    match k.take(0, 1) {
        Some(Resolution::Success(p)) => assert_eq!(p, vec![4]),
        other => panic!("unexpected {:?}", other),
    }
    assert!(k.take(0, 1).is_none());
}

#[test]
fn fail_all_then_resolve_keeps_connection_lost() {
    let mut k = Correlator::new();
    assert_eq!(k.register(0, 1), Ok(()));
    assert_eq!(k.fail_all(), 1);
    assert_eq!(k.fail_all(), 0);
    assert_eq!(k.resolve(0, 1, 0, vec![4]), ResolveStatus::Closed);
    assert!(matches!(k.take(0, 1), Some(Resolution::ConnectionLost)));
    assert_eq!(k.register(0, 2), Err(RegisterError::ConnectionLost));
}

#[test]
fn duplicate_and_unknown_ids() {
    let mut k = Correlator::new();
    assert_eq!(k.register(1, 9), Ok(()));
    assert_eq!(k.register(1, 9), Err(RegisterError::DuplicateId));
    assert_eq!(k.register(0, 9), Ok(()));
    assert_eq!(k.resolve(2, 9, 0, vec![]), ResolveStatus::Unknown);
    assert!(k.take(1, 9).is_none());
    assert!(k.cancel(1, 9));
    assert_eq!(k.resolve(1, 9, 0, vec![]), ResolveStatus::Unknown);
    assert_eq!(k.len(), 1);
}

#[test]
fn connection_loss_fans_out_to_every_channel() {
    let mut c = Client::new(vec![config(3, 64, 64), config(3, 64, 64)]);
    let mut keys = Vec::new();
    for ch in 0..2u16 {
        for _ in 0..3 {
            keys.push((ch, c.send_request(ch, b"q").unwrap().request_id));
        }
    }
    assert!(matches!(reply(&mut c, 1, keys[4].1, 0, b"done"), Received::Frame { status: ResolveStatus::Delivered, .. }));
    assert_eq!(c.connection_lost(), 5);
    assert_eq!(c.connection_lost(), 0);
    assert!(c.is_closed());
    for (i, (ch, id)) in keys.iter().enumerate() {
        let r = c.poll_response(*ch, *id).unwrap().into_result();
        if i == 4 {
            assert_eq!(r.unwrap(), Some(b"done".to_vec()));
        } else {
            assert!(matches!(r, Err(RequestError::ConnectionLost)));
        }
    }
    assert!(matches!(c.send_request(0, b"q"), Err(ClientError::ConnectionLost)));
}

#[test]
fn corrupt_stream_fails_pending_requests() {
    let mut c = Client::new(vec![config(2, 64, 8)]);
    let a = c.send_request(0, b"q").unwrap();
    let big = encode_frame(0, a.request_id, 0, &[0; 9]);
    assert_eq!(c.receive(&big), Received::Corrupt(FrameError::PayloadTooLarge));
    assert!(matches!(c.poll_response(0, a.request_id).unwrap(), Resolution::ConnectionLost));
}

#[test]
fn reader_accumulates_partial_frames() {
    let mut c = Client::new(vec![config(2, 64, 64)]);
    let a = c.send_request(0, b"q").unwrap();
    let bytes = encode_frame(0, a.request_id, 0, b"abc");
    assert_eq!(c.receive(&bytes[..5]), Received::NeedMore);
    assert_eq!(c.receive(&bytes[..HEADER_LEN + 2]), Received::NeedMore);
    assert_eq!(
        c.receive(&bytes),
        Received::Frame { consumed: HEADER_LEN + 3, status: ResolveStatus::Delivered }
    );
}

#[test]
fn cancelled_request_frees_slot_and_ignores_late_response() {
    let mut c = Client::new(vec![config(1, 64, 64)]);
    let a = c.send_request(0, b"q").unwrap();
    assert!(c.cancel(0, a.request_id));
    assert!(!c.cancel(0, a.request_id));
    assert_eq!(
        reply(&mut c, 0, a.request_id, 0, b"late"),
        Received::Frame { consumed: HEADER_LEN + 4, status: ResolveStatus::Unknown }
    );
    assert_eq!(c.send_request(0, b"q").unwrap().request_id, 1);
}

#[test]
fn request_frame_carries_payload() {
    let mut c = Client::new(vec![config(1, 64, 64)]);
    let a = c.send_request(0, &[0xAA, 0xBB]).unwrap();
    assert_eq!(a.bytes, encode_frame(0, 0, 0, &[0xAA, 0xBB]));
}

#[test]
fn scenario_get_returns_decodable_payload() {
    let mut c = Client::new(vec![config(3, 4096, 4096)]);
    let digest = Digest::from_hex("aa".repeat(32)).unwrap();
    let key = BlockHash::new(digest).to_bytes().unwrap();
    let sent = c.send_request(0, &key).unwrap();
    assert_eq!(sent.channel, 0);
    assert_eq!(&sent.bytes[HEADER_LEN..], key.as_slice());

    let expected = BlockHash::new(Digest::from_hex("bb".repeat(32)).unwrap());
    let body = expected.to_bytes().unwrap();
    assert!(matches!(reply(&mut c, 0, sent.request_id, 0, &body), Received::Frame { status: ResolveStatus::Delivered, .. }));
    let payload = c.poll_response(0, sent.request_id).unwrap().into_result().unwrap().unwrap();
    let (decoded, rest) = BlockHash::from_bytes(&payload).unwrap();
    assert!(rest.is_empty());
    assert_eq!(decoded, expected);
}

#[test]
fn scenario_app_error_is_not_decoded() {
    let mut c = Client::new(vec![config(3, 4096, 4096)]);
    let sent = c.send_request(0, b"get").unwrap();
    reply(&mut c, 0, sent.request_id, 1, b"");
    match c.poll_response(0, sent.request_id).unwrap().into_result() {
        Err(RequestError::AppError(detail)) => assert!(detail.is_empty()),
        other => panic!("unexpected {:?}", other),
    }
}

#[test]
fn empty_success_payload_is_none() {
    let mut c = Client::new(vec![config(3, 4096, 4096)]);
    let sent = c.send_request(0, b"").unwrap();
    reply(&mut c, 0, sent.request_id, 0, b"");
    assert_eq!(c.poll_response(0, sent.request_id).unwrap().into_result().unwrap(), None);
}

#[test]
fn request_ids_are_per_channel() {
    let mut c = Client::new(vec![config(3, 64, 64), config(3, 64, 64)]);
    assert_eq!(c.send_request(1, b"a").unwrap().request_id, 0);
    assert_eq!(c.send_request(1, b"a").unwrap().request_id, 1);
    assert_eq!(c.send_request(0, b"a").unwrap().request_id, 0);
}
