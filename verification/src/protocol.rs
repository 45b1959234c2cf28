//! The wire codec: a self-describing message with a 4-byte length prefix,
//! fixed header fields, a payload checksum and an authentication token,
//! followed by the payload bytes.
//!
//! Frame layout, all integers big-endian:
//! `[u32 total_length][u32 request_id][u8 operation][u8 status]`
//! `[32-byte checksum][32-byte auth_token][payload]`,
//! where `total_length` counts every byte after the length prefix itself
//! (70 fixed bytes plus the payload).

use vstd::prelude::*;
use vstd::slice::{slice_subrange, slice_to_vec};
use vstd::string::StringSliceAdditionalSpecFns;
use sha2::Digest;

use crate::wire::{bytes_eq, spec_u32_from_be, spec_u32_to_be, u32_from_be, u32_to_be};
use crate::wire::lemma_u32_be_round_trip;

verus! {

/// Fixed bytes of every frame after the length prefix: request id (4),
/// operation (1), status (1), checksum (32), auth token (32).
pub const HEADER_LEN: usize = 70;

// ---------------------------------------------------------------------------
// Operations and status codes
// ---------------------------------------------------------------------------

#[derive(Clone, Copy, Debug, PartialEq, Eq, Structural)]
pub enum Operation {
    Store,
    Retrieve,
    Delete,
    List,
    Auth,
    StoreChunk,
    RetrieveChunk,
    StoreComplete,
}

#[derive(Clone, Copy, Debug, PartialEq, Eq, Structural)]
pub enum StatusCode {
    Success,
    ErrorNotFound,
    ErrorPermissionDenied,
    ErrorInvalidData,
    ErrorServerError,
}

/// Everything that can make a received frame unusable.
#[derive(Clone, Copy, Debug, PartialEq, Eq, Structural)]
pub enum DecodeError {
    /// Fewer bytes than the fixed header needs.
    FramingError,
    /// The operation byte maps to no operation.
    UnknownOperation,
    /// The status byte maps to no status.
    UnknownStatus,
    /// The payload does not have the length the prefix declared.
    LengthMismatch,
    /// The recomputed payload checksum disagrees with the transmitted one.
    ChecksumMismatch,
}

/// The wire code of each operation.
pub open spec fn spec_op_code(op: Operation) -> u8 {
    match op {
        Operation::Store => 1,
        Operation::Retrieve => 2,
        Operation::Delete => 3,
        Operation::List => 4,
        Operation::Auth => 5,
        Operation::StoreChunk => 6,
        Operation::RetrieveChunk => 7,
        Operation::StoreComplete => 8,
    }
}

/// The operation a wire code denotes, if any.
pub open spec fn spec_parse_op(value: u8) -> Option<Operation> {
    if value == 1 {
        Some(Operation::Store)
    } else if value == 2 {
        Some(Operation::Retrieve)
    } else if value == 3 {
        Some(Operation::Delete)
    } else if value == 4 {
        Some(Operation::List)
    } else if value == 5 {
        Some(Operation::Auth)
    } else if value == 6 {
        Some(Operation::StoreChunk)
    } else if value == 7 {
        Some(Operation::RetrieveChunk)
    } else if value == 8 {
        Some(Operation::StoreComplete)
    } else {
        None
    }
}

/// The wire code of each status.
pub open spec fn spec_status_code(st: StatusCode) -> u8 {
    match st {
        StatusCode::Success => 0,
        StatusCode::ErrorNotFound => 1,
        StatusCode::ErrorPermissionDenied => 2,
        StatusCode::ErrorInvalidData => 3,
        StatusCode::ErrorServerError => 4,
    }
}

/// The status a wire code denotes, if any.
pub open spec fn spec_parse_status(value: u8) -> Option<StatusCode> {
    if value == 0 {
        Some(StatusCode::Success)
    } else if value == 1 {
        Some(StatusCode::ErrorNotFound)
    } else if value == 2 {
        Some(StatusCode::ErrorPermissionDenied)
    } else if value == 3 {
        Some(StatusCode::ErrorInvalidData)
    } else if value == 4 {
        Some(StatusCode::ErrorServerError)
    } else {
        None
    }
}

/// Parsing the code of an operation gives the operation back.
pub proof fn lemma_op_code_round_trip(op: Operation)
    ensures
        spec_parse_op(spec_op_code(op)) == Some(op),
{
}

/// Parsing the code of a status gives the status back.
pub proof fn lemma_status_code_round_trip(st: StatusCode)
    ensures
        spec_parse_status(spec_status_code(st)) == Some(st),
{
}

impl Operation {
    pub fn to_u8(self) -> (r: u8)
        ensures
            r == spec_op_code(self),
    {
        match self {
            Operation::Store => 1,
            Operation::Retrieve => 2,
            Operation::Delete => 3,
            Operation::List => 4,
            Operation::Auth => 5,
            Operation::StoreChunk => 6,
            Operation::RetrieveChunk => 7,
            Operation::StoreComplete => 8,
        }
    }

    pub fn from_u8(value: u8) -> (r: Result<Operation, DecodeError>)
        ensures
            match r {
                Ok(op) => spec_parse_op(value) == Some(op),
                Err(e) => spec_parse_op(value) is None && e == DecodeError::UnknownOperation,
            },
    {
        match value {
            1 => Ok(Operation::Store),
            2 => Ok(Operation::Retrieve),
            3 => Ok(Operation::Delete),
            4 => Ok(Operation::List),
            5 => Ok(Operation::Auth),
            6 => Ok(Operation::StoreChunk),
            7 => Ok(Operation::RetrieveChunk),
            8 => Ok(Operation::StoreComplete),
            _ => Err(DecodeError::UnknownOperation),
        }
    }
}

impl StatusCode {
    pub fn to_u8(self) -> (r: u8)
        ensures
            r == spec_status_code(self),
    {
        match self {
            StatusCode::Success => 0,
            StatusCode::ErrorNotFound => 1,
            StatusCode::ErrorPermissionDenied => 2,
            StatusCode::ErrorInvalidData => 3,
            StatusCode::ErrorServerError => 4,
        }
    }

    pub fn from_u8(value: u8) -> (r: Result<StatusCode, DecodeError>)
        ensures
            match r {
                Ok(st) => spec_parse_status(value) == Some(st),
                Err(e) => spec_parse_status(value) is None && e == DecodeError::UnknownStatus,
            },
    {
        match value {
            0 => Ok(StatusCode::Success),
            1 => Ok(StatusCode::ErrorNotFound),
            2 => Ok(StatusCode::ErrorPermissionDenied),
            3 => Ok(StatusCode::ErrorInvalidData),
            4 => Ok(StatusCode::ErrorServerError),
            _ => Err(DecodeError::UnknownStatus),
        }
    }
}

// ---------------------------------------------------------------------------
// Checksums and tokens
// ---------------------------------------------------------------------------

/// The SHA-256 digest of a byte sequence, as the sha2 crate computes it.
pub uninterp spec fn sha256_of(data: Seq<u8>) -> Seq<u8>;

/// Relies on sha2::Sha256 through the Digest trait: the digest depends on
/// the input bytes alone and is exactly 32 bytes long.
#[verifier::external_body]
pub(crate) fn sha256(data: &[u8]) -> (r: Vec<u8>)
    ensures
        r@ == sha256_of(data@),
        r@.len() == 32,
{
    let mut hasher = sha2::Sha256::new();
    hasher.update(data);
    hasher.finalize().to_vec()
}

/// The token a shared secret derives to: the content hash of its UTF-8 bytes.
/// Client and server apply this same function to the same secret.
pub fn generate_auth_token(password: &str) -> (r: Vec<u8>)
    ensures
        r@ == sha256_of(password.spec_bytes()),
        r@.len() == 32,
{
    sha256(password.as_bytes())
}

/// The all-zero token that requests without a credential carry.
pub open spec fn spec_zero_token() -> Seq<u8> {
    Seq::new(32, |i: int| 0u8)
}

fn zero_token() -> (r: Vec<u8>)
    ensures
        r@ == spec_zero_token(),
{
    let mut r: Vec<u8> = Vec::new();
    let mut i: usize = 0;
    while i < 32
        invariant
            i <= 32,
            r@ =~= Seq::new(i as nat, |j: int| 0u8),
        decreases 32 - i,
    {
        r.push(0);
        i += 1;
    }
    proof {
        assert(r@ =~= spec_zero_token());
    }
    r
}

// ---------------------------------------------------------------------------
// Messages
// ---------------------------------------------------------------------------

/// The unit of wire communication.
#[derive(Debug, Clone, PartialEq)]
pub struct Message {
    pub request_id: u32,
    pub operation: Operation,
    pub status: StatusCode,
    pub checksum: Vec<u8>,
    pub auth_token: Vec<u8>,
    pub payload: Vec<u8>,
}

/// The mathematical content of a message.
#[verifier::ext_equal]
pub ghost struct MessageModel {
    pub request_id: u32,
    pub operation: Operation,
    pub status: StatusCode,
    pub checksum: Seq<u8>,
    pub auth_token: Seq<u8>,
    pub payload: Seq<u8>,
}

impl View for Message {
    type V = MessageModel;

    open spec fn view(&self) -> MessageModel {
        MessageModel {
            request_id: self.request_id,
            operation: self.operation,
            status: self.status,
            checksum: self.checksum@,
            auth_token: self.auth_token@,
            payload: self.payload@,
        }
    }
}

impl MessageModel {
    /// Field widths as the wire format fixes them, and a payload short
    /// enough for the length prefix to count the frame.
    pub open spec fn wf(self) -> bool {
        &&& self.checksum.len() == 32
        &&& self.auth_token.len() == 32
        &&& self.payload.len() + HEADER_LEN <= u32::MAX
    }
}

/// The bytes after the length prefix.
pub open spec fn spec_encode_body(m: MessageModel) -> Seq<u8> {
    spec_u32_to_be(m.request_id) + seq![spec_op_code(m.operation), spec_status_code(m.status)]
        + m.checksum + m.auth_token + m.payload
}

/// The whole frame: length prefix, then the body.
pub open spec fn spec_encode(m: MessageModel) -> Seq<u8> {
    spec_u32_to_be((HEADER_LEN + m.payload.len()) as u32) + spec_encode_body(m)
}

/// What decoding a frame body yields: the message, or the first failure
/// in the order the decoder checks them.
pub open spec fn spec_parse(length: u32, data: Seq<u8>) -> Result<MessageModel, DecodeError> {
    if data.len() < HEADER_LEN {
        Err(DecodeError::FramingError)
    } else {
        match spec_parse_op(data[4]) {
            None => Err(DecodeError::UnknownOperation),
            Some(op) => match spec_parse_status(data[5]) {
                None => Err(DecodeError::UnknownStatus),
                Some(st) => {
                    if !(length >= HEADER_LEN && data.len() == length) {
                        Err(DecodeError::LengthMismatch)
                    } else if sha256_of(data.skip(HEADER_LEN as int)) != data.subrange(6, 38) {
                        Err(DecodeError::ChecksumMismatch)
                    } else {
                        Ok(
                            MessageModel {
                                request_id: spec_u32_from_be(data.subrange(0, 4)) as u32,
                                operation: op,
                                status: st,
                                checksum: data.subrange(6, 38),
                                auth_token: data.subrange(38, HEADER_LEN as int),
                                payload: data.skip(HEADER_LEN as int),
                            },
                        )
                    }
                },
            },
        }
    }
}

impl Message {
    pub open spec fn wf(self) -> bool {
        self@.wf()
    }

    /// A request with no credential: status Success, request id zero,
    /// checksum computed from the payload.
    pub fn new(operation: Operation, payload: Vec<u8>) -> (r: Message)
        requires
            payload@.len() + HEADER_LEN <= u32::MAX,
        ensures
            r.wf(),
            r@ == (MessageModel {
                request_id: 0,
                operation,
                status: StatusCode::Success,
                checksum: sha256_of(payload@),
                auth_token: spec_zero_token(),
                payload: payload@,
            }),
    {
        let checksum = sha256(payload.as_slice());
        Message {
            request_id: 0,
            operation,
            status: StatusCode::Success,
            checksum,
            auth_token: zero_token(),
            payload,
        }
    }

    /// A request carrying a credential-derived token.
    pub fn new_with_auth(operation: Operation, payload: Vec<u8>, auth_token: Vec<u8>) -> (r:
        Message)
        requires
            payload@.len() + HEADER_LEN <= u32::MAX,
            auth_token@.len() == 32,
        ensures
            r.wf(),
            r@ == (MessageModel {
                request_id: 0,
                operation,
                status: StatusCode::Success,
                checksum: sha256_of(payload@),
                auth_token: auth_token@,
                payload: payload@,
            }),
    {
        let checksum = sha256(payload.as_slice());
        Message { request_id: 0, operation, status: StatusCode::Success, checksum, auth_token, payload }
    }

    /// A response echoing the request id, with a zero token.
    pub fn new_response(request_id: u32, operation: Operation, status: StatusCode, payload: Vec<
        u8,
    >) -> (r: Message)
        requires
            payload@.len() + HEADER_LEN <= u32::MAX,
        ensures
            r.wf(),
            r@ == (MessageModel {
                request_id,
                operation,
                status,
                checksum: sha256_of(payload@),
                auth_token: spec_zero_token(),
                payload: payload@,
            }),
    {
        let checksum = sha256(payload.as_slice());
        Message { request_id, operation, status, checksum, auth_token: zero_token(), payload }
    }

    pub fn set_request_id(&mut self, id: u32)
        ensures
            final(self)@ == (MessageModel { request_id: id, ..old(self)@ }),
    {
        self.request_id = id;
    }

    /// Whether the transmitted checksum matches the payload's content hash.
    pub fn verify_checksum(&self) -> (r: bool)
        ensures
            r == (self.checksum@ == sha256_of(self.payload@)),
    {
        let calculated = sha256(self.payload.as_slice());
        bytes_eq(self.checksum.as_slice(), calculated.as_slice())
    }

    /// Serialize the message: length prefix, header fields, payload.
    pub fn to_bytes(&self) -> (r: Vec<u8>)
        requires
            self.wf(),
        ensures
            r@ == spec_encode(self@),
    {
        let payload_len = self.payload.len() as u32;
        let total_len = HEADER_LEN as u32 + payload_len;

        let mut bytes = u32_to_be(total_len);
        let mut rid = u32_to_be(self.request_id);
        bytes.append(&mut rid);
        bytes.push(self.operation.to_u8());
        bytes.push(self.status.to_u8());
        bytes.extend_from_slice(self.checksum.as_slice());
        bytes.extend_from_slice(self.auth_token.as_slice());
        bytes.extend_from_slice(self.payload.as_slice());
        proof {
            assert(bytes@ =~= spec_encode(self@));
        }
        bytes
    }

    /// Parse a frame body against the length its prefix declared.
    pub fn from_bytes(length: u32, data: &[u8]) -> (r: Result<Message, DecodeError>)
        ensures
            match r {
                Ok(m) => spec_parse(length, data@) == Ok::<MessageModel, DecodeError>(m@)
                    && m.wf(),
                Err(e) => spec_parse(length, data@) == Err::<MessageModel, DecodeError>(e),
            },
    {
        if data.len() < HEADER_LEN {
            return Err(DecodeError::FramingError);
        }

        let request_id = u32_from_be(data[0], data[1], data[2], data[3]);
        proof {
            assert(seq![data@[0], data@[1], data@[2], data@[3]] =~= data@.subrange(0, 4));
        }

        let operation = match Operation::from_u8(data[4]) {
            Ok(op) => op,
            Err(e) => { return Err(e); },
        };
        let status = match StatusCode::from_u8(data[5]) {
            Ok(st) => st,
            Err(e) => { return Err(e); },
        };

        let checksum = slice_to_vec(slice_subrange(data, 6, 38));
        let auth_token = slice_to_vec(slice_subrange(data, 38, HEADER_LEN));
        let payload = slice_to_vec(slice_subrange(data, HEADER_LEN, data.len()));

        if length < HEADER_LEN as u32 || payload.len() != length as usize - HEADER_LEN {
            return Err(DecodeError::LengthMismatch);
        }

        let calculated = sha256(payload.as_slice());
        if !bytes_eq(calculated.as_slice(), checksum.as_slice()) {
            return Err(DecodeError::ChecksumMismatch);
        }

        Ok(Message { request_id, operation, status, checksum, auth_token, payload })
    }
}

// ---------------------------------------------------------------------------
// Laws of the codec
// ---------------------------------------------------------------------------

/// Round trip: a well-formed message whose checksum is the content hash of
/// its payload is recovered, field for field, by decoding its own encoding
/// with the length its own prefix declares.
pub proof fn lemma_message_round_trip(m: MessageModel)
    requires
        m.wf(),
        m.checksum == sha256_of(m.payload),
    ensures
        spec_u32_from_be(spec_encode(m).subrange(0, 4)) == HEADER_LEN + m.payload.len(),
        spec_parse(
            (HEADER_LEN + m.payload.len()) as u32,
            spec_encode(m).skip(4),
        ) == Ok::<MessageModel, DecodeError>(m),
{
    let frame = spec_encode(m);
    let body = frame.skip(4);
    let total = (HEADER_LEN + m.payload.len()) as u32;

    assert(frame.subrange(0, 4) =~= spec_u32_to_be(total));
    lemma_u32_be_round_trip(total);

    assert(body =~= spec_encode_body(m));
    assert(body.len() == HEADER_LEN + m.payload.len());

    assert(body.subrange(0, 4) =~= spec_u32_to_be(m.request_id));
    lemma_u32_be_round_trip(m.request_id);

    assert(body[4] == spec_op_code(m.operation));
    assert(body[5] == spec_status_code(m.status));
    lemma_op_code_round_trip(m.operation);
    lemma_status_code_round_trip(m.status);

    assert(body.subrange(6, 38) =~= m.checksum);
    assert(body.subrange(38, HEADER_LEN as int) =~= m.auth_token);
    assert(body.skip(HEADER_LEN as int) =~= m.payload);

    let parsed = spec_parse(total, body);
    assert(parsed is Ok);
    assert(parsed->Ok_0 =~= m);
}

/// Corruption is rejected: take a well-formed message and replace its
/// payload with any bytes of the same length whose content hash differs
/// (as mutating a byte of it does, short of a hash collision).  Decoding
/// the resulting frame fails with a checksum error and yields no message.
pub proof fn lemma_corrupted_payload_rejected(m: MessageModel, corrupted: Seq<u8>)
    requires
        m.wf(),
        m.checksum == sha256_of(m.payload),
        corrupted.len() == m.payload.len(),
        sha256_of(corrupted) != sha256_of(m.payload),
    ensures
        spec_parse(
            (HEADER_LEN + m.payload.len()) as u32,
            spec_encode(MessageModel { payload: corrupted, ..m }).skip(4),
        ) == Err::<MessageModel, DecodeError>(DecodeError::ChecksumMismatch),
{
    let m2 = MessageModel { payload: corrupted, ..m };
    let body = spec_encode(m2).skip(4);
    let total = (HEADER_LEN + m.payload.len()) as u32;

    assert(body =~= spec_encode_body(m2));
    assert(body.len() == HEADER_LEN + corrupted.len());

    assert(body[4] == spec_op_code(m2.operation));
    assert(body[5] == spec_status_code(m2.status));
    lemma_op_code_round_trip(m2.operation);
    lemma_status_code_round_trip(m2.status);

    assert(body.subrange(6, 38) =~= m.checksum);
    assert(body.skip(HEADER_LEN as int) =~= corrupted);

    assert(spec_parse(total, body) == Err::<MessageModel, DecodeError>(
        DecodeError::ChecksumMismatch,
    ));
}

/// Any message that decoding yields carries a checksum that equals the
/// content hash of its payload: a frame whose checksum disagrees with its
/// payload never becomes a usable message.
pub proof fn lemma_parse_validates_checksum(length: u32, data: Seq<u8>, m: MessageModel)
    requires
        spec_parse(length, data) == Ok::<MessageModel, DecodeError>(m),
    ensures
        m.checksum == sha256_of(m.payload),
{
}

} // verus!
