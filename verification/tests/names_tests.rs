use netbackup::engine::Engine;
use netbackup::names::validate_name;
use netbackup::protocol::{generate_auth_token, Message, Operation, StatusCode};
use netbackup::session::{handle_request, SessionState, Step};

#[test]
fn test_validate_name_cases() {
    assert!(!validate_name(b"../secret"));
    assert!(!validate_name(b"a/b"));
    assert!(!validate_name(b"a\\b"));
    assert!(validate_name(b"report_2024.pdf"));
}

fn authed_session(token: &[u8]) -> (SessionState, Engine) {
    let mut session = SessionState::new();
    let mut engine = Engine::new();
    let auth = Message::new_with_auth(Operation::Auth, Vec::new(), token.to_vec());
    match handle_request(&mut session, &mut engine, token, auth) {
        Step::Done(resp) => assert_eq!(resp.status, StatusCode::Success),
        Step::Fs(_) => panic!("authentication asked for a filesystem action"),
    }
    (session, engine)
}

#[test]
fn test_path_traversal_prevention() {
    let token = generate_auth_token("pw");
    let (mut session, mut engine) = authed_session(&token);

    // A whole-file store to a traversing name never reaches the filesystem.
    let mut store_payload = b"../evil.txt".to_vec();
    store_payload.push(0);
    store_payload.extend_from_slice(b"bad");
    let store = Message::new_with_auth(Operation::Store, store_payload, token.clone());
    match handle_request(&mut session, &mut engine, &token, store) {
        Step::Done(resp) => assert_eq!(resp.status, StatusCode::ErrorServerError),
        Step::Fs(_) => panic!("traversing store reached the filesystem"),
    }

    // Neither does a retrieval of it.
    let retrieve = Message::new_with_auth(
        Operation::Retrieve,
        b"../evil.txt".to_vec(),
        token.clone(),
    );
    match handle_request(&mut session, &mut engine, &token, retrieve) {
        Step::Done(resp) => assert_eq!(resp.status, StatusCode::ErrorServerError),
        Step::Fs(_) => panic!("traversing retrieval reached the filesystem"),
    }

    // Nor a deletion.
    let delete = Message::new_with_auth(
        Operation::Delete,
        b"../evil.txt".to_vec(),
        token.clone(),
    );
    match handle_request(&mut session, &mut engine, &token, delete) {
        Step::Done(resp) => assert_eq!(resp.status, StatusCode::ErrorServerError),
        Step::Fs(_) => panic!("traversing deletion reached the filesystem"),
    }
}
