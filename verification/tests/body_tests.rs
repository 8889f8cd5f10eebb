use mocktail::body::Body;

#[test]
fn empty_body_has_no_content() {
    let mut b = Body::empty();
    assert!(b.is_empty());
    assert_eq!(b.len(), 0);
    assert_eq!(b.next_chunk(), None);
}

#[test]
fn bytes_body_is_one_chunk() {
    let mut b = Body::bytes(vec![1, 2, 3]);
    assert_eq!(b.len(), 3);
    assert!(!b.is_empty());
    assert_eq!(b.next_chunk(), Some(vec![1, 2, 3]));
    assert_eq!(b.next_chunk(), None);
}

#[test]
fn bytes_stream_keeps_chunk_boundaries() {
    let b = Body::bytes_stream(vec![vec![1], vec![2, 3], vec![4]]);
    assert_eq!(b.iter(), vec![vec![1], vec![2, 3], vec![4]]);
    assert_eq!(b.len(), 4);
}

#[test]
fn bytes_stream_of_nothing_is_empty() {
    let b = Body::bytes_stream(Vec::new());
    assert!(b.is_empty());
    assert_eq!(b.len(), 0);
}

#[test]
fn chunk_invariant_equality() {
    let mut b1 = Body::bytes_stream(vec![vec![1, 2], vec![3]]);
    let mut b2 = Body::bytes_stream(vec![vec![1], vec![2, 3]]);
    assert!(b1 == b2);
    assert!(b2 == b1);
    // The comparisons must not have consumed either operand.
    assert_eq!(b1.as_bytes(), vec![1, 2, 3]);
    assert_eq!(b2.as_bytes(), vec![1, 2, 3]);
}

#[test]
fn different_content_is_unequal() {
    let b1 = Body::bytes(vec![1, 2]);
    let b2 = Body::bytes(vec![1, 2, 3]);
    assert!(b1 != b2);
}

#[test]
fn streaming_completeness() {
    let mut b = Body::bytes_stream(vec![vec![10, 11], vec![12], vec![13, 14, 15]]);
    let total = b.len();
    let mut seen: Vec<u8> = Vec::new();
    let mut frames = 0;
    while let Some(chunk) = b.next_chunk() {
        seen.extend_from_slice(&chunk);
        frames += 1;
    }
    assert_eq!(frames, 3);
    assert_eq!(seen.len(), total);
    assert_eq!(seen, vec![10, 11, 12, 13, 14, 15]);
    assert_eq!(b.next_chunk(), None);
}

#[test]
fn drain_is_idempotent() {
    let mut b = Body::bytes_stream(vec![b"ab".to_vec(), b"cd".to_vec()]);
    assert!(!b.is_empty());
    assert_eq!(b.as_bytes(), b"abcd".to_vec());
    assert!(b.is_empty());
    assert_eq!(b.as_bytes(), Vec::<u8>::new());
    assert!(b.is_empty());
}

#[test]
fn clone_is_independent() {
    let mut original = Body::bytes_stream(vec![vec![1], vec![2]]);
    let mut copy = original.clone();
    assert_eq!(copy.as_bytes(), vec![1, 2]);
    assert!(copy.is_empty());
    assert_eq!(original.as_bytes(), vec![1, 2]);
}

#[test]
fn json_body_holds_encoded_value() {
    let value = serde_json::Value::String("a".to_string());
    let mut b = Body::json(&value);
    assert_eq!(b.as_bytes(), b"\"a\"".to_vec());
}

#[test]
fn json_lines_framing() {
    let values = vec![
        serde_json::Value::String("a".to_string()),
        serde_json::Value::Bool(true),
    ];
    let b = Body::json_lines_stream(&values);
    let chunks = b.iter();
    assert_eq!(chunks.len(), 2);
    for (chunk, value) in chunks.iter().zip(values.iter()) {
        assert_eq!(*chunk.last().unwrap(), b'\n');
        let stripped = &chunk[..chunk.len() - 1];
        assert!(!stripped.contains(&b'\n'));
        let parsed: serde_json::Value = serde_json::from_slice(stripped).unwrap();
        assert_eq!(&parsed, value);
    }
}

#[test]
fn pb_body_holds_wire_encoding() {
    let mut b = Body::pb(&42u32);
    // A u32 encodes as a wrapper message: field 1, varint 42.
    assert_eq!(b.as_bytes(), vec![0x08, 0x2a]);
}

#[test]
fn pb_stream_is_one_chunk_per_message() {
    let messages = vec![1u32, 2u32];
    let b = Body::pb_stream(&messages);
    let chunks = b.iter();
    assert_eq!(chunks.len(), 2);
    assert_eq!(chunks[0], vec![0x08, 0x01]);
    assert_eq!(chunks[1], vec![0x08, 0x02]);
}

#[test]
fn ordering_is_lexicographic_over_content() {
    let a = Body::bytes(b"abc".to_vec());
    let b = Body::bytes(b"abd".to_vec());
    assert!(a < b);
    assert!(b > a);
    // A shared prefix orders before the longer sequence.
    let short = Body::bytes(b"ab".to_vec());
    assert!(short < a);
    // Chunking does not affect the ordering.
    let chunked = Body::bytes_stream(vec![b"ab".to_vec(), b"c".to_vec()]);
    assert_eq!(a.partial_cmp(&chunked), Some(std::cmp::Ordering::Equal));
}
