use netbackup::engine::{Engine, EngineError};

fn chunks_in_order(order: &[u32]) -> Vec<u8> {
    let data: [&[u8]; 3] = [b"first-", b"second-", b"third"];
    let mut engine = Engine::new();
    let mut completed = false;
    for &i in order {
        completed = engine
            .accept_chunk(b"file.bin", i, 3, data[i as usize].to_vec())
            .unwrap();
    }
    assert!(completed);
    engine.complete(b"file.bin").unwrap()
}

#[test]
fn test_reassembly_order_independent() {
    let expected = b"first-second-third".to_vec();
    assert_eq!(chunks_in_order(&[0, 1, 2]), expected);
    assert_eq!(chunks_in_order(&[2, 0, 1]), expected);
    assert_eq!(chunks_in_order(&[1, 2, 0]), expected);
}

#[test]
fn test_completion_gating() {
    let mut engine = Engine::new();
    assert!(!engine.accept_chunk(b"f", 0, 3, b"aa".to_vec()).unwrap());
    assert!(!engine.accept_chunk(b"f", 2, 3, b"cc".to_vec()).unwrap());

    // Completing early fails and preserves the received chunks.
    assert_eq!(
        engine.complete(b"f").unwrap_err(),
        EngineError::IncompleteUpload
    );

    // The missing chunk can still arrive, and completion then succeeds.
    assert!(engine.accept_chunk(b"f", 1, 3, b"bb".to_vec()).unwrap());
    assert_eq!(engine.complete(b"f").unwrap(), b"aabbcc".to_vec());

    // The entry is consumed by the successful completion.
    assert_eq!(
        engine.complete(b"f").unwrap_err(),
        EngineError::NoPendingUpload
    );
}

#[test]
fn test_idempotent_overwrite() {
    let mut engine = Engine::new();
    assert!(!engine.accept_chunk(b"f", 0, 2, b"old!".to_vec()).unwrap());
    assert!(!engine.accept_chunk(b"f", 0, 2, b"new!".to_vec()).unwrap());
    assert!(engine.accept_chunk(b"f", 1, 2, b"tail".to_vec()).unwrap());
    assert_eq!(engine.complete(b"f").unwrap(), b"new!tail".to_vec());
}

#[test]
fn test_first_seen_total_wins() {
    let mut engine = Engine::new();
    assert!(!engine.accept_chunk(b"f", 0, 2, b"a".to_vec()).unwrap());
    // A later chunk declaring a different total does not change the upload.
    assert!(engine.accept_chunk(b"f", 1, 5, b"b".to_vec()).unwrap());
    assert_eq!(engine.complete(b"f").unwrap(), b"ab".to_vec());
}

#[test]
fn test_invalid_chunks_rejected() {
    let mut engine = Engine::new();
    assert_eq!(
        engine
            .accept_chunk(b"../evil", 0, 1, b"x".to_vec())
            .unwrap_err(),
        EngineError::InvalidFilename
    );
    // A rejected filename creates no pending entry.
    assert_eq!(
        engine.complete(b"../evil").unwrap_err(),
        EngineError::NoPendingUpload
    );

    // An index at or past the declared total is rejected.
    assert_eq!(
        engine.accept_chunk(b"f", 2, 2, b"x".to_vec()).unwrap_err(),
        EngineError::InvalidChunkIndex
    );
    assert_eq!(
        engine.accept_chunk(b"f", 0, 0, b"x".to_vec()).unwrap_err(),
        EngineError::InvalidChunkIndex
    );

    assert!(!engine.accept_chunk(b"f", 0, 2, b"x".to_vec()).unwrap());
    assert_eq!(
        engine.accept_chunk(b"f", 2, 2, b"x".to_vec()).unwrap_err(),
        EngineError::InvalidChunkIndex
    );
}

#[test]
fn test_independent_uploads() {
    let mut engine = Engine::new();
    assert!(!engine.accept_chunk(b"a", 0, 2, b"a0".to_vec()).unwrap());
    assert!(!engine.accept_chunk(b"b", 0, 2, b"b0".to_vec()).unwrap());
    assert!(engine.accept_chunk(b"b", 1, 2, b"b1".to_vec()).unwrap());
    assert_eq!(engine.complete(b"b").unwrap(), b"b0b1".to_vec());
    // The other upload is untouched.
    assert_eq!(
        engine.complete(b"a").unwrap_err(),
        EngineError::IncompleteUpload
    );
    assert!(engine.accept_chunk(b"a", 1, 2, b"a1".to_vec()).unwrap());
    assert_eq!(engine.complete(b"a").unwrap(), b"a0a1".to_vec());
}
