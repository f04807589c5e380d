use inference_core::chunk_id::{chunk_id, parse_chunk_ordinal};
use inference_core::chunked::{
    combine_chunk_outcomes, digests_match, gather, make_partial, reassemble, split_into_chunks, verify_full, ChunkError, PartialResult,
};
use inference_core::hybrid::OffloadError;

fn part(n: u64, payload: &[u8]) -> PartialResult {
    make_partial(chunk_id(n), payload.to_vec())
}

#[test]
fn chunk_ids_are_decimal() {
    assert_eq!(chunk_id(0), "chunk_0");
    assert_eq!(chunk_id(12), "chunk_12");
    assert_eq!(chunk_id(9_999_999_999_999_999_999), "chunk_9999999999999999999");
}

#[test]
fn chunk_ordinals_parse() {
    assert_eq!(parse_chunk_ordinal("chunk_0"), Some(0));
    assert_eq!(parse_chunk_ordinal("chunk_42"), Some(42));
    assert_eq!(parse_chunk_ordinal("chunk_007"), Some(7));
    assert_eq!(parse_chunk_ordinal("chunk_9999999999999999999"), Some(9_999_999_999_999_999_999));
    assert_eq!(parse_chunk_ordinal("chunk_"), None);
    assert_eq!(parse_chunk_ordinal("chunk_1a"), None);
    assert_eq!(parse_chunk_ordinal("chunk-1"), None);
    assert_eq!(parse_chunk_ordinal("chunk_12345678901234567890"), None);
    assert_eq!(parse_chunk_ordinal("piece_1"), None);
    assert_eq!(parse_chunk_ordinal(""), None);
}

#[test]
fn reassembly_follows_ids_not_arrival() {
    let parts = vec![part(2, b"C"), part(0, b"A"), part(1, b"B")];
    let full = reassemble(&parts).unwrap();
    assert_eq!(full.merged, b"ABC".to_vec());
    let ids: Vec<String> = full.parts.iter().map(|p| p.chunk_id.clone()).collect();
    assert_eq!(ids, vec!["chunk_0", "chunk_1", "chunk_2"]);
}

#[test]
fn reassembly_is_the_same_for_every_arrival_order() {
    let orders = [[0u64, 1, 2], [0, 2, 1], [1, 0, 2], [1, 2, 0], [2, 0, 1], [2, 1, 0]];
    let payloads: [&[u8]; 3] = [b"A", b"B", b"C"];
    for order in orders {
        let parts: Vec<PartialResult> = order.iter().map(|&k| part(k, payloads[k as usize])).collect();
        let full = reassemble(&parts).unwrap();
        assert_eq!(full.merged, b"ABC".to_vec());
        assert!(verify_full(&full));
    }
}

#[test]
fn reassembly_of_nothing_is_empty() {
    let full = reassemble(&vec![]).unwrap();
    assert!(full.parts.is_empty());
    assert!(full.merged.is_empty());
    assert!(verify_full(&full));
}

#[test]
fn reassembly_errors() {
    let bad = vec![part(0, b"A"), make_partial("first".to_string(), b"B".to_vec())];
    assert_eq!(reassemble(&bad).err(), Some(ChunkError::BadChunkId));
    let dup = vec![part(0, b"A"), part(0, b"B")];
    assert_eq!(reassemble(&dup).err(), Some(ChunkError::DuplicateChunk));
    let gap = vec![part(0, b"A"), part(2, b"C")];
    assert_eq!(reassemble(&gap).err(), Some(ChunkError::MissingChunk));
}

#[test]
fn flipping_any_payload_byte_fails_verification() {
    let parts = vec![part(1, b"world"), part(0, b"hello")];
    let full = reassemble(&parts).unwrap();
    assert!(verify_full(&full));
    for i in 0..full.parts.len() {
        for j in 0..full.parts[i].state.data.len() {
            let mut tampered = reassemble(&parts).unwrap();
            tampered.parts[i].state.data[j] ^= 0x01;
            assert!(!verify_full(&tampered));
        }
    }
}

#[test]
fn digests_match_compares_one_by_one() {
    let full = reassemble(&vec![part(0, b"x"), part(1, b"y")]).unwrap();
    let good: Vec<String> = full.parts.iter().map(|p| p.state.hash.clone()).collect();
    assert!(digests_match(&full, &good));
    let mut wrong = good.clone();
    wrong[1] = "0".repeat(64);
    assert!(!digests_match(&full, &wrong));
    assert!(!digests_match(&full, &good[..1].to_vec()));
}

#[test]
fn gather_accepts_only_complete_sets() {
    let all_ok = vec![Ok(part(0, b"A")), Ok(part(1, b"B"))];
    let got = gather(&all_ok).unwrap();
    assert_eq!(got.len(), 2);
    assert_eq!(got[1].state.data, b"B".to_vec());
    let one_late = vec![Ok(part(0, b"A")), Err(OffloadError::Timeout), Err(OffloadError::TransportFailure)];
    assert_eq!(gather(&one_late).err(), Some(OffloadError::Timeout));
}

#[test]
fn split_makes_fixed_size_named_chunks() {
    let chunks = split_into_chunks(b"abcdefg", 3);
    assert_eq!(chunks.len(), 3);
    assert_eq!(chunks[0].id, "chunk_0");
    assert_eq!(chunks[0].payload, b"abc".to_vec());
    assert_eq!(chunks[1].id, "chunk_1");
    assert_eq!(chunks[1].payload, b"def".to_vec());
    assert_eq!(chunks[2].id, "chunk_2");
    assert_eq!(chunks[2].payload, b"g".to_vec());
    assert!(split_into_chunks(b"", 4).is_empty());
    assert_eq!(split_into_chunks(b"abcd", 4).len(), 1);
}

#[test]
fn split_then_reassemble_gives_back_the_payload() {
    let data: Vec<u8> = (0u8..=250).collect();
    let chunks = split_into_chunks(&data, 16);
    let mut parts: Vec<PartialResult> = chunks
        .into_iter()
        .map(|c| make_partial(c.id, c.payload))
        .collect();
    parts.reverse();
    let full = reassemble(&parts).unwrap();
    assert_eq!(full.merged, data);
    assert!(verify_full(&full));
}

#[test]
fn chunked_offload_joins_answers_in_chunk_order() {
    let outcomes = vec![Ok(part(1, b"B")), Ok(part(2, b"C")), Ok(part(0, b"A"))];
    assert_eq!(combine_chunk_outcomes(&outcomes), Ok(b"ABC".to_vec()));
    assert_eq!(combine_chunk_outcomes(&vec![]), Ok(vec![]));
}

#[test]
fn chunked_offload_fails_on_first_failed_chunk() {
    let outcomes = vec![Ok(part(0, b"A")), Err(OffloadError::Timeout), Err(OffloadError::TransportFailure)];
    assert_eq!(combine_chunk_outcomes(&outcomes), Err(OffloadError::Timeout));
}

#[test]
fn chunked_offload_rejects_bad_order_and_tampering() {
    let gap = vec![Ok(part(0, b"A")), Ok(part(2, b"C"))];
    assert_eq!(combine_chunk_outcomes(&gap), Err(OffloadError::ProtocolError));
    let mut forged = part(1, b"B");
    forged.state.data[0] ^= 0x80;
    let tampered = vec![Ok(part(0, b"A")), Ok(forged)];
    assert_eq!(combine_chunk_outcomes(&tampered), Err(OffloadError::VerificationFailure));
}
