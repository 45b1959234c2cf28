use netbackup::chunk::{chunk_data, ChunkEnvelope, EnvelopeError, CHUNK_SIZE};

#[test]
fn test_envelope_round_trip() {
    let envelope = ChunkEnvelope {
        filename: b"photo.jpg".to_vec(),
        chunk_number: 3,
        total_chunks: 7,
        data: vec![1, 2, 3, 4, 5],
    };
    let payload = envelope.to_payload();
    assert_eq!(payload.len(), 4 + 9 + 4 + 4 + 5);
    let parsed = ChunkEnvelope::from_payload(&payload).unwrap();
    assert_eq!(parsed, envelope);
}

#[test]
fn test_envelope_empty_fields() {
    let envelope = ChunkEnvelope {
        filename: Vec::new(),
        chunk_number: 0,
        total_chunks: 1,
        data: Vec::new(),
    };
    let payload = envelope.to_payload();
    assert_eq!(payload.len(), 12);
    let parsed = ChunkEnvelope::from_payload(&payload).unwrap();
    assert_eq!(parsed, envelope);
}

#[test]
fn test_envelope_truncated() {
    // Shorter than the length field.
    assert_eq!(
        ChunkEnvelope::from_payload(&[0, 0, 0]).unwrap_err(),
        EnvelopeError::TruncatedEnvelope
    );
    // The declared filename exceeds the buffer.
    let mut bytes = vec![0, 0, 0, 200];
    bytes.extend_from_slice(&[b'a'; 20]);
    assert_eq!(
        ChunkEnvelope::from_payload(&bytes).unwrap_err(),
        EnvelopeError::TruncatedEnvelope
    );
    // Fewer than twelve bytes remain after the filename.
    let mut bytes = vec![0, 0, 0, 2];
    bytes.extend_from_slice(b"ab");
    bytes.extend_from_slice(&[0; 7]);
    assert_eq!(
        ChunkEnvelope::from_payload(&bytes).unwrap_err(),
        EnvelopeError::TruncatedEnvelope
    );
}

#[test]
fn test_chunk_data_split() {
    // 200000 bytes split into 65536-byte chunks: three full, one partial.
    let data: Vec<u8> = (0..200000u32).map(|i| (i % 251) as u8).collect();
    let chunks = chunk_data(&data);
    assert_eq!(chunks.len(), 4);
    assert_eq!(chunks[0].len(), CHUNK_SIZE);
    assert_eq!(chunks[1].len(), CHUNK_SIZE);
    assert_eq!(chunks[2].len(), CHUNK_SIZE);
    assert_eq!(chunks[3].len(), 200000 - 3 * CHUNK_SIZE);
    let rejoined: Vec<u8> = chunks.concat();
    assert_eq!(rejoined, data);
}

#[test]
fn test_chunk_data_edges() {
    assert_eq!(chunk_data(&[]).len(), 0);

    let exactly_one = vec![7u8; CHUNK_SIZE];
    let chunks = chunk_data(&exactly_one);
    assert_eq!(chunks.len(), 1);
    assert_eq!(chunks[0], exactly_one);

    let one_more = vec![7u8; CHUNK_SIZE + 1];
    let chunks = chunk_data(&one_more);
    assert_eq!(chunks.len(), 2);
    assert_eq!(chunks[0].len(), CHUNK_SIZE);
    assert_eq!(chunks[1].len(), 1);
}
