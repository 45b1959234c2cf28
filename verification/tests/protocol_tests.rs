use netbackup::protocol::{generate_auth_token, DecodeError, Message, Operation, StatusCode};

#[test]
fn test_checksum_verification() {
    let msg = Message::new(Operation::Store, b"test data".to_vec());
    assert!(msg.verify_checksum());
}

#[test]
fn test_message_with_auth() {
    let token = generate_auth_token("my_secret_password");
    let msg = Message::new_with_auth(Operation::Store, b"data".to_vec(), token.clone());
    assert_eq!(msg.auth_token, token);
}

#[test]
fn test_enhanced_serialization() {
    let mut msg = Message::new(Operation::Store, b"test".to_vec());
    msg.set_request_id(42);

    let bytes = msg.to_bytes();
    let length = u32::from_be_bytes([bytes[0], bytes[1], bytes[2], bytes[3]]);
    let parsed = Message::from_bytes(length, &bytes[4..]).unwrap();

    assert_eq!(parsed.request_id, 42);
    assert_eq!(parsed.operation, Operation::Store);
    assert_eq!(parsed.payload, b"test");
    assert!(parsed.verify_checksum());
}

#[test]
fn test_round_trip_all_fields() {
    let token = generate_auth_token("some secret");
    let mut msg = Message::new_with_auth(Operation::StoreChunk, vec![0, 1, 2, 254, 255], token);
    msg.set_request_id(7);

    let bytes = msg.to_bytes();
    let length = u32::from_be_bytes([bytes[0], bytes[1], bytes[2], bytes[3]]);
    assert_eq!(length as usize, bytes.len() - 4);
    let parsed = Message::from_bytes(length, &bytes[4..]).unwrap();

    assert_eq!(parsed.request_id, msg.request_id);
    assert_eq!(parsed.operation, msg.operation);
    assert_eq!(parsed.status, msg.status);
    assert_eq!(parsed.checksum, msg.checksum);
    assert_eq!(parsed.auth_token, msg.auth_token);
    assert_eq!(parsed.payload, msg.payload);
}

#[test]
fn test_round_trip_empty_payload() {
    let msg = Message::new(Operation::List, Vec::new());
    let bytes = msg.to_bytes();
    assert_eq!(bytes.len(), 74);
    let length = u32::from_be_bytes([bytes[0], bytes[1], bytes[2], bytes[3]]);
    assert_eq!(length, 70);
    let parsed = Message::from_bytes(length, &bytes[4..]).unwrap();
    assert_eq!(parsed.payload, Vec::<u8>::new());
}

#[test]
fn test_single_byte_corruption_rejected() {
    let msg = Message::new(Operation::Store, b"payload under test".to_vec());
    let bytes = msg.to_bytes();
    let length = u32::from_be_bytes([bytes[0], bytes[1], bytes[2], bytes[3]]);

    // Every payload byte sits after the 74 fixed bytes of the frame.
    for i in 74..bytes.len() {
        let mut mutated = bytes.clone();
        mutated[i] ^= 0x01;
        let result = Message::from_bytes(length, &mutated[4..]);
        assert_eq!(result.unwrap_err(), DecodeError::ChecksumMismatch);
    }
}

#[test]
fn test_decode_error_cases() {
    // Too short for the fixed header.
    assert_eq!(
        Message::from_bytes(70, &[0u8; 69]).unwrap_err(),
        DecodeError::FramingError
    );

    let msg = Message::new(Operation::Store, b"x".to_vec());
    let bytes = msg.to_bytes();
    let length = u32::from_be_bytes([bytes[0], bytes[1], bytes[2], bytes[3]]);

    // Unknown operation code.
    let mut bad_op = bytes.clone();
    bad_op[8] = 9;
    assert_eq!(
        Message::from_bytes(length, &bad_op[4..]).unwrap_err(),
        DecodeError::UnknownOperation
    );

    // Unknown status code.
    let mut bad_status = bytes.clone();
    bad_status[9] = 5;
    assert_eq!(
        Message::from_bytes(length, &bad_status[4..]).unwrap_err(),
        DecodeError::UnknownStatus
    );

    // Declared length disagrees with the bytes.
    assert_eq!(
        Message::from_bytes(length + 1, &bytes[4..]).unwrap_err(),
        DecodeError::LengthMismatch
    );
    assert_eq!(
        Message::from_bytes(69, &bytes[4..]).unwrap_err(),
        DecodeError::LengthMismatch
    );
}

#[test]
fn test_operation_codes() {
    let cases = [
        (1u8, Operation::Store),
        (2, Operation::Retrieve),
        (3, Operation::Delete),
        (4, Operation::List),
        (5, Operation::Auth),
        (6, Operation::StoreChunk),
        (7, Operation::RetrieveChunk),
        (8, Operation::StoreComplete),
    ];
    for (code, op) in cases {
        assert_eq!(Operation::from_u8(code).unwrap(), op);
    }
    assert_eq!(
        Operation::from_u8(0).unwrap_err(),
        DecodeError::UnknownOperation
    );
    assert_eq!(
        Operation::from_u8(9).unwrap_err(),
        DecodeError::UnknownOperation
    );
}

#[test]
fn test_status_codes() {
    let cases = [
        (0u8, StatusCode::Success),
        (1, StatusCode::ErrorNotFound),
        (2, StatusCode::ErrorPermissionDenied),
        (3, StatusCode::ErrorInvalidData),
        (4, StatusCode::ErrorServerError),
    ];
    for (code, status) in cases {
        assert_eq!(StatusCode::from_u8(code).unwrap(), status);
    }
    assert_eq!(
        StatusCode::from_u8(5).unwrap_err(),
        DecodeError::UnknownStatus
    );
}

#[test]
fn test_auth_token_is_sha256_of_secret() {
    // SHA-256 of the empty string, a published test vector.
    let expected_empty = [
        0xe3u8, 0xb0, 0xc4, 0x42, 0x98, 0xfc, 0x1c, 0x14, 0x9a, 0xfb, 0xf4, 0xc8, 0x99, 0x6f,
        0xb9, 0x24, 0x27, 0xae, 0x41, 0xe4, 0x64, 0x9b, 0x93, 0x4c, 0xa4, 0x95, 0x99, 0x1b, 0x78,
        0x52, 0xb8, 0x55,
    ];
    assert_eq!(generate_auth_token(""), expected_empty.to_vec());

    // SHA-256 of "abc", a published test vector.
    let expected_abc = [
        0xbau8, 0x78, 0x16, 0xbf, 0x8f, 0x01, 0xcf, 0xea, 0x41, 0x41, 0x40, 0xde, 0x5d, 0xae,
        0x22, 0x23, 0xb0, 0x03, 0x61, 0xa3, 0x96, 0x17, 0x7a, 0x9c, 0xb4, 0x10, 0xff, 0x61, 0xf2,
        0x00, 0x15, 0xad,
    ];
    assert_eq!(generate_auth_token("abc"), expected_abc.to_vec());

    // The message checksum is the same function of the payload.
    let msg = Message::new(Operation::Store, b"abc".to_vec());
    assert_eq!(msg.checksum, expected_abc.to_vec());
}
