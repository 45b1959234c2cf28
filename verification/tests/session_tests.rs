use netbackup::chunk::ChunkEnvelope;
use netbackup::engine::{Engine, EngineError};
use netbackup::protocol::{generate_auth_token, Message, Operation, StatusCode};
use netbackup::session::{fs_response, handle_request, FsOutcome, FsRequest, SessionState, Step};

/// A stand-in for the storage root: name/content pairs in memory.
struct FakeStorage {
    files: Vec<(Vec<u8>, Vec<u8>)>,
}

impl FakeStorage {
    fn new() -> FakeStorage {
        FakeStorage { files: Vec::new() }
    }

    fn perform(&mut self, request: FsRequest) -> FsOutcome {
        match request {
            FsRequest::Write { name, data } => {
                self.files.retain(|(n, _)| n != &name);
                self.files.push((name, data));
                FsOutcome::Done
            }
            FsRequest::Read { name } => match self.files.iter().find(|(n, _)| n == &name) {
                Some((_, data)) => FsOutcome::Data(data.clone()),
                None => FsOutcome::NotFound,
            },
            FsRequest::Remove { name } => {
                let before = self.files.len();
                self.files.retain(|(n, _)| n != &name);
                if self.files.len() < before {
                    FsOutcome::Done
                } else {
                    FsOutcome::NotFound
                }
            }
            FsRequest::ListDir => FsOutcome::Data(Vec::new()),
        }
    }
}

/// Drive one request through the handler and the fake storage, returning
/// the response a client would see.
fn roundtrip(
    session: &mut SessionState,
    engine: &mut Engine,
    storage: &mut FakeStorage,
    token: &[u8],
    msg: Message,
) -> Message {
    let request_id = msg.request_id;
    let operation = msg.operation;
    match handle_request(session, engine, token, msg) {
        Step::Done(resp) => resp,
        Step::Fs(request) => {
            let outcome = storage.perform(request);
            fs_response(request_id, operation, outcome)
        }
    }
}

fn chunk_message(
    token: &[u8],
    filename: &[u8],
    chunk_number: u32,
    total_chunks: u32,
    data: Vec<u8>,
) -> Message {
    let envelope = ChunkEnvelope {
        filename: filename.to_vec(),
        chunk_number,
        total_chunks,
        data,
    };
    Message::new_with_auth(Operation::StoreChunk, envelope.to_payload(), token.to_vec())
}

#[test]
fn test_unauthenticated_requests_denied() {
    let token = generate_auth_token("right password");
    let mut session = SessionState::new();
    let mut engine = Engine::new();
    let mut storage = FakeStorage::new();

    // Every non-Auth operation is denied before a successful Auth, even
    // when the message itself carries the right token.
    let ops = [
        Operation::Store,
        Operation::Retrieve,
        Operation::Delete,
        Operation::List,
        Operation::StoreChunk,
        Operation::RetrieveChunk,
        Operation::StoreComplete,
    ];
    for op in ops {
        let msg = Message::new_with_auth(op, b"whatever".to_vec(), token.clone());
        let resp = roundtrip(&mut session, &mut engine, &mut storage, &token, msg);
        assert_eq!(resp.status, StatusCode::ErrorPermissionDenied);
        assert_eq!(resp.payload, b"Authentication required");
    }

    // No storage mutation happened.
    assert!(storage.files.is_empty());
    assert_eq!(
        engine.complete(b"whatever").unwrap_err(),
        EngineError::NoPendingUpload
    );
}

#[test]
fn test_wrong_token_denied() {
    let token = generate_auth_token("right password");
    let mut session = SessionState::new();
    let mut engine = Engine::new();
    let mut storage = FakeStorage::new();

    // Failed authentication with a token one byte off.
    let mut near_token = token.clone();
    near_token[0] ^= 0x01;
    let auth = Message::new_with_auth(Operation::Auth, Vec::new(), near_token.clone());
    let resp = roundtrip(&mut session, &mut engine, &mut storage, &token, auth);
    assert_eq!(resp.status, StatusCode::ErrorPermissionDenied);
    assert_eq!(resp.payload, b"Invalid password");

    // Successful authentication.
    let auth = Message::new_with_auth(Operation::Auth, Vec::new(), token.clone());
    let resp = roundtrip(&mut session, &mut engine, &mut storage, &token, auth);
    assert_eq!(resp.status, StatusCode::Success);

    // The token is re-checked per message: one differing byte denies the
    // request and mutates nothing.
    let mut store_payload = b"a.txt".to_vec();
    store_payload.push(0);
    store_payload.extend_from_slice(b"content");
    let store = Message::new_with_auth(Operation::Store, store_payload, near_token);
    let resp = roundtrip(&mut session, &mut engine, &mut storage, &token, store);
    assert_eq!(resp.status, StatusCode::ErrorPermissionDenied);
    assert_eq!(resp.payload, b"Invalid authentication token");
    assert!(storage.files.is_empty());
}

#[test]
fn test_end_to_end_chunked_upload() {
    let token = generate_auth_token("secure_password_123");
    let mut session = SessionState::new();
    let mut engine = Engine::new();
    let mut storage = FakeStorage::new();

    // Authenticate with the correct token.
    let auth = Message::new_with_auth(Operation::Auth, Vec::new(), token.clone());
    let resp = roundtrip(&mut session, &mut engine, &mut storage, &token, auth);
    assert_eq!(resp.status, StatusCode::Success);

    // Chunk 0 of 2: 65536 bytes of 0xAA.
    let msg = chunk_message(&token, b"f.bin", 0, 2, vec![0xAA; 65536]);
    let resp = roundtrip(&mut session, &mut engine, &mut storage, &token, msg);
    assert_eq!(resp.status, StatusCode::Success);
    assert_eq!(resp.payload, b"OK");

    // Chunk 1 of 2: 10 bytes of 0xBB.
    let msg = chunk_message(&token, b"f.bin", 1, 2, vec![0xBB; 10]);
    let resp = roundtrip(&mut session, &mut engine, &mut storage, &token, msg);
    assert_eq!(resp.status, StatusCode::Success);
    assert_eq!(resp.payload, b"COMPLETE");

    // Completion persists the assembled file.
    let complete = Message::new_with_auth(
        Operation::StoreComplete,
        b"f.bin".to_vec(),
        token.clone(),
    );
    let resp = roundtrip(&mut session, &mut engine, &mut storage, &token, complete);
    assert_eq!(resp.status, StatusCode::Success);
    assert_eq!(resp.payload, b"File stored successfully");

    // Retrieval returns exactly the two chunks concatenated in order.
    let retrieve = Message::new_with_auth(Operation::Retrieve, b"f.bin".to_vec(), token.clone());
    let resp = roundtrip(&mut session, &mut engine, &mut storage, &token, retrieve);
    assert_eq!(resp.status, StatusCode::Success);
    assert_eq!(resp.payload.len(), 65546);
    let mut expected = vec![0xAA; 65536];
    expected.extend_from_slice(&[0xBB; 10]);
    assert_eq!(resp.payload, expected);
}

#[test]
fn test_fs_response_mappings() {
    let resp = fs_response(5, Operation::Store, FsOutcome::Done);
    assert_eq!(resp.request_id, 5);
    assert_eq!(resp.status, StatusCode::Success);
    assert_eq!(resp.payload, b"OK");

    let resp = fs_response(6, Operation::Retrieve, FsOutcome::Data(b"bytes".to_vec()));
    assert_eq!(resp.status, StatusCode::Success);
    assert_eq!(resp.payload, b"bytes");

    let resp = fs_response(7, Operation::Delete, FsOutcome::NotFound);
    assert_eq!(resp.status, StatusCode::ErrorNotFound);
    assert_eq!(resp.payload, b"File not found");

    let resp = fs_response(8, Operation::Store, FsOutcome::Failed);
    assert_eq!(resp.status, StatusCode::ErrorServerError);
    assert_eq!(resp.payload, b"Storage failed");

    let resp = fs_response(9, Operation::List, FsOutcome::Failed);
    assert_eq!(resp.status, StatusCode::ErrorServerError);
    assert_eq!(resp.payload, b"List failed");

    let resp = fs_response(10, Operation::StoreComplete, FsOutcome::Done);
    assert_eq!(resp.status, StatusCode::Success);
    assert_eq!(resp.payload, b"File stored successfully");
}

#[test]
fn test_premature_completion_then_success() {
    let token = generate_auth_token("pw");
    let mut session = SessionState::new();
    let mut engine = Engine::new();
    let mut storage = FakeStorage::new();

    let auth = Message::new_with_auth(Operation::Auth, Vec::new(), token.clone());
    roundtrip(&mut session, &mut engine, &mut storage, &token, auth);

    let msg = chunk_message(&token, b"f", 1, 2, b"tail".to_vec());
    let resp = roundtrip(&mut session, &mut engine, &mut storage, &token, msg);
    assert_eq!(resp.payload, b"OK");

    // Completing before every chunk arrived fails and stores nothing.
    let complete =
        Message::new_with_auth(Operation::StoreComplete, b"f".to_vec(), token.clone());
    let resp = roundtrip(&mut session, &mut engine, &mut storage, &token, complete);
    assert_eq!(resp.status, StatusCode::ErrorServerError);
    assert_eq!(resp.payload, b"Failed to finalize upload");
    assert!(storage.files.is_empty());

    // The received chunk was preserved; the upload can still finish.
    let msg = chunk_message(&token, b"f", 0, 2, b"head".to_vec());
    let resp = roundtrip(&mut session, &mut engine, &mut storage, &token, msg);
    assert_eq!(resp.payload, b"COMPLETE");
    let complete =
        Message::new_with_auth(Operation::StoreComplete, b"f".to_vec(), token.clone());
    let resp = roundtrip(&mut session, &mut engine, &mut storage, &token, complete);
    assert_eq!(resp.status, StatusCode::Success);
    assert_eq!(storage.files.len(), 1);
    assert_eq!(storage.files[0].1, b"headtail");
}

#[test]
fn test_whole_file_operations() {
    let token = generate_auth_token("pw");
    let mut session = SessionState::new();
    let mut engine = Engine::new();
    let mut storage = FakeStorage::new();

    let auth = Message::new_with_auth(Operation::Auth, Vec::new(), token.clone());
    roundtrip(&mut session, &mut engine, &mut storage, &token, auth);

    // A store payload without the null separator is rejected.
    let store = Message::new_with_auth(Operation::Store, b"no separator".to_vec(), token.clone());
    let resp = roundtrip(&mut session, &mut engine, &mut storage, &token, store);
    assert_eq!(resp.status, StatusCode::ErrorInvalidData);
    assert_eq!(resp.payload, b"Invalid STORE payload");

    // Store, retrieve, delete, and retrieve again.
    let mut payload = b"hello.txt".to_vec();
    payload.push(0);
    payload.extend_from_slice(b"Hello!");
    let store = Message::new_with_auth(Operation::Store, payload, token.clone());
    let resp = roundtrip(&mut session, &mut engine, &mut storage, &token, store);
    assert_eq!(resp.status, StatusCode::Success);
    assert_eq!(resp.payload, b"OK");

    let retrieve =
        Message::new_with_auth(Operation::Retrieve, b"hello.txt".to_vec(), token.clone());
    let resp = roundtrip(&mut session, &mut engine, &mut storage, &token, retrieve);
    assert_eq!(resp.status, StatusCode::Success);
    assert_eq!(resp.payload, b"Hello!");

    let delete = Message::new_with_auth(Operation::Delete, b"hello.txt".to_vec(), token.clone());
    let resp = roundtrip(&mut session, &mut engine, &mut storage, &token, delete);
    assert_eq!(resp.status, StatusCode::Success);
    assert_eq!(resp.payload, b"OK");

    let retrieve =
        Message::new_with_auth(Operation::Retrieve, b"hello.txt".to_vec(), token.clone());
    let resp = roundtrip(&mut session, &mut engine, &mut storage, &token, retrieve);
    assert_eq!(resp.status, StatusCode::ErrorNotFound);
    assert_eq!(resp.payload, b"File not found");

    // Chunked retrieval is not part of this protocol version.
    let rc = Message::new_with_auth(Operation::RetrieveChunk, Vec::new(), token.clone());
    let resp = roundtrip(&mut session, &mut engine, &mut storage, &token, rc);
    assert_eq!(resp.status, StatusCode::ErrorServerError);

    // A chunk message whose payload is no envelope is invalid data.
    let bad = Message::new_with_auth(Operation::StoreChunk, b"xy".to_vec(), token.clone());
    let resp = roundtrip(&mut session, &mut engine, &mut storage, &token, bad);
    assert_eq!(resp.status, StatusCode::ErrorInvalidData);
    assert_eq!(resp.payload, b"Invalid chunk metadata");
}
