use inference_core::hybrid::{
    make_inference_result, offload_error_of, verify_result, HybridExecutor, InferenceResult, OffloadError, Peer,
};
use inference_core::wire::{
    decode_frame, encode_frame, encode_request, encode_response, le32_bytes, read_header, FrameError, REQUEST_TYPE,
    RESPONSE_TYPE,
};

const HELLO_SHA256: &str = "2cf24dba5fb0a30e26e83b2ac5b9e29e1b161e5c1fa7425e73043362938b9824";

#[test]
fn request_frame_is_byte_exact() {
    let f = encode_request("hi").unwrap();
    assert_eq!(f, vec![2u8, 2, 0, 0, 0, b'h', b'i']);
}

#[test]
fn response_frame_is_byte_exact() {
    let f = encode_response(b"{}").unwrap();
    assert_eq!(f, vec![3u8, 2, 0, 0, 0, b'{', b'}']);
}

#[test]
fn empty_request_frame() {
    assert_eq!(encode_request("").unwrap(), vec![2u8, 0, 0, 0, 0]);
}

#[test]
fn length_is_little_endian() {
    assert_eq!(le32_bytes(0x0102_0304), [4u8, 3, 2, 1]);
    assert_eq!(le32_bytes(u32::MAX), [255u8, 255, 255, 255]);
    let payload = vec![7u8; 300];
    let f = encode_frame(9, &payload).unwrap();
    assert_eq!(&f[..5], &[9u8, 44, 1, 0, 0]);
    assert_eq!(f.len(), 305);
}

#[test]
fn header_of_request_gives_declared_length() {
    assert_eq!(read_header(REQUEST_TYPE, &[2, 0x10, 0x27, 0, 0]), Ok(10_000));
    assert_eq!(read_header(RESPONSE_TYPE, &[3, 0, 0, 0, 1]), Ok(16_777_216));
}

#[test]
fn foreign_first_byte_is_refused() {
    assert_eq!(read_header(REQUEST_TYPE, &[7, 1, 0, 0, 0]), Err(FrameError::UnexpectedType(7)));
    assert_eq!(read_header(REQUEST_TYPE, &[3, 1, 0, 0, 0]), Err(FrameError::UnexpectedType(3)));
    assert_eq!(decode_frame(RESPONSE_TYPE, &[2, 1, 0, 0, 0, b'x']), Err(FrameError::UnexpectedType(2)));
}

#[test]
fn short_header_is_truncated() {
    assert_eq!(read_header(REQUEST_TYPE, &[]), Err(FrameError::Truncated));
    assert_eq!(read_header(REQUEST_TYPE, &[2, 1, 0]), Err(FrameError::Truncated));
}

#[test]
fn short_payload_is_truncated() {
    assert_eq!(decode_frame(REQUEST_TYPE, &[2, 10, 0, 0, 0, b'a', b'b', b'c']), Err(FrameError::Truncated));
    assert_eq!(decode_frame(REQUEST_TYPE, &[2, 0, 0, 0, 1]), Err(FrameError::Truncated));
}

#[test]
fn frame_round_trip() {
    let f = encode_request("run this prompt").unwrap();
    assert_eq!(decode_frame(REQUEST_TYPE, &f).unwrap(), b"run this prompt".to_vec());
    let mut longer = f.clone();
    longer.extend_from_slice(b"trailing");
    assert_eq!(decode_frame(REQUEST_TYPE, &longer).unwrap(), b"run this prompt".to_vec());
}

#[test]
fn frame_errors_are_protocol_errors() {
    assert_eq!(offload_error_of(FrameError::Truncated), OffloadError::ProtocolError);
    assert_eq!(offload_error_of(FrameError::UnexpectedType(1)), OffloadError::ProtocolError);
}

#[test]
fn result_digest_is_sha256_hex() {
    let r = make_inference_result("hello".to_string());
    assert_eq!(r.output, "hello");
    assert_eq!(r.hash, HELLO_SHA256);
}

#[test]
fn authentic_result_is_accepted() {
    let r = make_inference_result("some generated text".to_string());
    assert_eq!(verify_result(r), Ok("some generated text".to_string()));
}

#[test]
fn tampered_result_is_rejected() {
    let r = InferenceResult { output: "hellO".to_string(), hash: HELLO_SHA256.to_string() };
    assert_eq!(verify_result(r), Err(OffloadError::VerificationFailure));
    let r = InferenceResult { output: "hello".to_string(), hash: "00".to_string() };
    assert_eq!(verify_result(r), Err(OffloadError::VerificationFailure));
}

#[test]
fn default_executor_has_one_peer() {
    let h = HybridExecutor::new();
    assert_eq!(h.peers.len(), 1);
    assert_eq!(h.peers[0].id, "peer1");
    assert_eq!(h.peers[0].address, "127.0.0.1:8081");
}

#[test]
fn hybrid_needs_policy_and_a_peer() {
    let mut h = HybridExecutor { peers: vec![] };
    assert!(!h.should_use_hybrid(true));
    assert!(!h.should_use_hybrid(false));
    assert!(h.select_peer().is_none());
    h.add_peer(Peer { id: "a".to_string(), address: "10.0.0.1:1".to_string() });
    assert!(h.should_use_hybrid(true));
    assert!(!h.should_use_hybrid(false));
    assert_eq!(h.select_peer().unwrap().id, "a");
}

#[test]
fn chunk_peers_take_turns() {
    let mut h = HybridExecutor { peers: vec![] };
    assert!(h.peer_for_chunk(0).is_none());
    h.add_peer(Peer { id: "a".to_string(), address: "x:1".to_string() });
    h.add_peer(Peer { id: "b".to_string(), address: "x:2".to_string() });
    h.add_peer(Peer { id: "c".to_string(), address: "x:3".to_string() });
    let order: Vec<String> = (0..7).map(|k| h.peer_for_chunk(k).unwrap().id.clone()).collect();
    assert_eq!(order, vec!["a", "b", "c", "a", "b", "c", "a"]);
    assert_eq!(h.select_peer().unwrap().id, "a");
}
