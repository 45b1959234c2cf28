//! The per-connection request handler: the authentication gate, and the
//! dispatch of authorized operations to the chunk reassembly engine or to
//! filesystem actions that the caller performs.
//!
//! The handler owns every decision; the caller only moves bytes.  It
//! receives one parsed message, and either hands back the finished
//! response, or asks for one filesystem action.  After performing the
//! action the caller builds the response with [`fs_response`].
//!
//! Every reply the handler itself produces is one of a closed set of
//! kinds; each kind fixes the response's status code and the
//! human-readable detail its payload carries.

use vstd::prelude::*;
use vstd::slice::{slice_subrange, slice_to_vec};
use vstd::string::{is_ascii, is_ascii_spec_bytes, StringSliceAdditionalSpecFns};

use crate::chunk::{spec_parse_envelope, ChunkEnvelope};
use crate::engine::{
    after_accept, assembled, chunk_accepted, filled_count, Engine,
};
use crate::names::{valid_name, validate_name};
use crate::protocol::{
    sha256_of, spec_zero_token, Message, MessageModel, Operation, StatusCode, HEADER_LEN,
};
use crate::wire::bytes_eq;

verus! {

// ---------------------------------------------------------------------------
// Reply kinds
// ---------------------------------------------------------------------------

/// The closed set of canned replies, replacing free-text error payloads:
/// each kind fixes a status code and a detail string.
#[derive(Clone, Copy, Debug, PartialEq, Eq, Structural)]
pub enum ReplyKind {
    /// The presented token matched the configured one.
    Authenticated,
    /// An authentication attempt presented the wrong token.
    InvalidPassword,
    /// A non-authentication operation arrived before a successful
    /// authentication.
    AuthenticationRequired,
    /// An authenticated connection presented a token that no longer
    /// matches the configured one.
    InvalidToken,
    /// A chunk was stored; more chunks are missing.
    ChunkStored,
    /// A chunk was stored and the upload now holds all of its chunks.
    UploadComplete,
    /// A chunk message carried a payload that is no envelope.
    InvalidChunkMetadata,
    /// A chunk was rejected: bad destination name or chunk index.
    ChunkStorageFailed,
    /// A completed upload was assembled and persisted.
    FileStored,
    /// Completion failed: no pending upload, missing chunks, or the
    /// assembled file could not be persisted.
    FinalizeFailed,
    /// A whole-file store or a delete succeeded.
    ActionOk,
    /// A whole-file store payload held no null separator.
    InvalidStorePayload,
    /// A whole-file store failed: bad name or a filesystem error.
    StorageFailed,
    /// The named file does not exist.
    FileNotFound,
    /// A retrieval failed: bad name or a filesystem error.
    RetrievalFailed,
    /// A deletion failed: bad name or a filesystem error.
    DeletionFailed,
    /// Listing the storage root failed.
    ListFailed,
    /// Chunked retrieval is not part of this protocol version.
    ChunkedRetrievalUnsupported,
    /// A frame could not be decoded into a message.
    InvalidMessageFormat,
}

/// The status code each reply kind maps to.
pub open spec fn spec_reply_status(k: ReplyKind) -> StatusCode {
    match k {
        ReplyKind::Authenticated => StatusCode::Success,
        ReplyKind::InvalidPassword => StatusCode::ErrorPermissionDenied,
        ReplyKind::AuthenticationRequired => StatusCode::ErrorPermissionDenied,
        ReplyKind::InvalidToken => StatusCode::ErrorPermissionDenied,
        ReplyKind::ChunkStored => StatusCode::Success,
        ReplyKind::UploadComplete => StatusCode::Success,
        ReplyKind::InvalidChunkMetadata => StatusCode::ErrorInvalidData,
        ReplyKind::ChunkStorageFailed => StatusCode::ErrorServerError,
        ReplyKind::FileStored => StatusCode::Success,
        ReplyKind::FinalizeFailed => StatusCode::ErrorServerError,
        ReplyKind::ActionOk => StatusCode::Success,
        ReplyKind::InvalidStorePayload => StatusCode::ErrorInvalidData,
        ReplyKind::StorageFailed => StatusCode::ErrorServerError,
        ReplyKind::FileNotFound => StatusCode::ErrorNotFound,
        ReplyKind::RetrievalFailed => StatusCode::ErrorServerError,
        ReplyKind::DeletionFailed => StatusCode::ErrorServerError,
        ReplyKind::ListFailed => StatusCode::ErrorServerError,
        ReplyKind::ChunkedRetrievalUnsupported => StatusCode::ErrorServerError,
        ReplyKind::InvalidMessageFormat => StatusCode::ErrorInvalidData,
    }
}

/// The detail each reply kind carries in its payload.
pub open spec fn spec_reply_detail(k: ReplyKind) -> Seq<u8> {
    match k {
        ReplyKind::Authenticated => "Authenticated".spec_bytes(),
        ReplyKind::InvalidPassword => "Invalid password".spec_bytes(),
        ReplyKind::AuthenticationRequired => "Authentication required".spec_bytes(),
        ReplyKind::InvalidToken => "Invalid authentication token".spec_bytes(),
        ReplyKind::ChunkStored => "OK".spec_bytes(),
        ReplyKind::UploadComplete => "COMPLETE".spec_bytes(),
        ReplyKind::InvalidChunkMetadata => "Invalid chunk metadata".spec_bytes(),
        ReplyKind::ChunkStorageFailed => "Chunk storage failed".spec_bytes(),
        ReplyKind::FileStored => "File stored successfully".spec_bytes(),
        ReplyKind::FinalizeFailed => "Failed to finalize upload".spec_bytes(),
        ReplyKind::ActionOk => "OK".spec_bytes(),
        ReplyKind::InvalidStorePayload => "Invalid STORE payload".spec_bytes(),
        ReplyKind::StorageFailed => "Storage failed".spec_bytes(),
        ReplyKind::FileNotFound => "File not found".spec_bytes(),
        ReplyKind::RetrievalFailed => "Retrieval failed".spec_bytes(),
        ReplyKind::DeletionFailed => "Deletion failed".spec_bytes(),
        ReplyKind::ListFailed => "List failed".spec_bytes(),
        ReplyKind::ChunkedRetrievalUnsupported => "Chunked retrieval not yet implemented".spec_bytes(),
        ReplyKind::InvalidMessageFormat => "Invalid message format".spec_bytes(),
    }
}

impl ReplyKind {
    fn status(self) -> (r: StatusCode)
        ensures
            r == spec_reply_status(self),
    {
        match self {
            ReplyKind::Authenticated => StatusCode::Success,
            ReplyKind::InvalidPassword => StatusCode::ErrorPermissionDenied,
            ReplyKind::AuthenticationRequired => StatusCode::ErrorPermissionDenied,
            ReplyKind::InvalidToken => StatusCode::ErrorPermissionDenied,
            ReplyKind::ChunkStored => StatusCode::Success,
            ReplyKind::UploadComplete => StatusCode::Success,
            ReplyKind::InvalidChunkMetadata => StatusCode::ErrorInvalidData,
            ReplyKind::ChunkStorageFailed => StatusCode::ErrorServerError,
            ReplyKind::FileStored => StatusCode::Success,
            ReplyKind::FinalizeFailed => StatusCode::ErrorServerError,
            ReplyKind::ActionOk => StatusCode::Success,
            ReplyKind::InvalidStorePayload => StatusCode::ErrorInvalidData,
            ReplyKind::StorageFailed => StatusCode::ErrorServerError,
            ReplyKind::FileNotFound => StatusCode::ErrorNotFound,
            ReplyKind::RetrievalFailed => StatusCode::ErrorServerError,
            ReplyKind::DeletionFailed => StatusCode::ErrorServerError,
            ReplyKind::ListFailed => StatusCode::ErrorServerError,
            ReplyKind::ChunkedRetrievalUnsupported => StatusCode::ErrorServerError,
            ReplyKind::InvalidMessageFormat => StatusCode::ErrorInvalidData,
        }
    }

    fn detail(self) -> (r: Vec<u8>)
        ensures
            r@ == spec_reply_detail(self),
            r@.len() + HEADER_LEN <= u32::MAX,
    {
        match self {
            ReplyKind::Authenticated => {
                proof {
                    reveal_strlit("Authenticated");
                    assert(is_ascii("Authenticated"));
                    is_ascii_spec_bytes("Authenticated");
                }
                slice_to_vec("Authenticated".as_bytes())
            },
            ReplyKind::InvalidPassword => {
                proof {
                    reveal_strlit("Invalid password");
                    assert(is_ascii("Invalid password"));
                    is_ascii_spec_bytes("Invalid password");
                }
                slice_to_vec("Invalid password".as_bytes())
            },
            ReplyKind::AuthenticationRequired => {
                proof {
                    reveal_strlit("Authentication required");
                    assert(is_ascii("Authentication required"));
                    is_ascii_spec_bytes("Authentication required");
                }
                slice_to_vec("Authentication required".as_bytes())
            },
            ReplyKind::InvalidToken => {
                proof {
                    reveal_strlit("Invalid authentication token");
                    assert(is_ascii("Invalid authentication token"));
                    is_ascii_spec_bytes("Invalid authentication token");
                }
                slice_to_vec("Invalid authentication token".as_bytes())
            },
            ReplyKind::ChunkStored => {
                proof {
                    reveal_strlit("OK");
                    assert(is_ascii("OK"));
                    is_ascii_spec_bytes("OK");
                }
                slice_to_vec("OK".as_bytes())
            },
            ReplyKind::UploadComplete => {
                proof {
                    reveal_strlit("COMPLETE");
                    assert(is_ascii("COMPLETE"));
                    is_ascii_spec_bytes("COMPLETE");
                }
                slice_to_vec("COMPLETE".as_bytes())
            },
            ReplyKind::InvalidChunkMetadata => {
                proof {
                    reveal_strlit("Invalid chunk metadata");
                    assert(is_ascii("Invalid chunk metadata"));
                    is_ascii_spec_bytes("Invalid chunk metadata");
                }
                slice_to_vec("Invalid chunk metadata".as_bytes())
            },
            ReplyKind::ChunkStorageFailed => {
                proof {
                    reveal_strlit("Chunk storage failed");
                    assert(is_ascii("Chunk storage failed"));
                    is_ascii_spec_bytes("Chunk storage failed");
                }
                slice_to_vec("Chunk storage failed".as_bytes())
            },
            ReplyKind::FileStored => {
                proof {
                    reveal_strlit("File stored successfully");
                    assert(is_ascii("File stored successfully"));
                    is_ascii_spec_bytes("File stored successfully");
                }
                slice_to_vec("File stored successfully".as_bytes())
            },
            ReplyKind::FinalizeFailed => {
                proof {
                    reveal_strlit("Failed to finalize upload");
                    assert(is_ascii("Failed to finalize upload"));
                    is_ascii_spec_bytes("Failed to finalize upload");
                }
                slice_to_vec("Failed to finalize upload".as_bytes())
            },
            ReplyKind::ActionOk => {
                proof {
                    reveal_strlit("OK");
                    assert(is_ascii("OK"));
                    is_ascii_spec_bytes("OK");
                }
                slice_to_vec("OK".as_bytes())
            },
            ReplyKind::InvalidStorePayload => {
                proof {
                    reveal_strlit("Invalid STORE payload");
                    assert(is_ascii("Invalid STORE payload"));
                    is_ascii_spec_bytes("Invalid STORE payload");
                }
                slice_to_vec("Invalid STORE payload".as_bytes())
            },
            ReplyKind::StorageFailed => {
                proof {
                    reveal_strlit("Storage failed");
                    assert(is_ascii("Storage failed"));
                    is_ascii_spec_bytes("Storage failed");
                }
                slice_to_vec("Storage failed".as_bytes())
            },
            ReplyKind::FileNotFound => {
                proof {
                    reveal_strlit("File not found");
                    assert(is_ascii("File not found"));
                    is_ascii_spec_bytes("File not found");
                }
                slice_to_vec("File not found".as_bytes())
            },
            ReplyKind::RetrievalFailed => {
                proof {
                    reveal_strlit("Retrieval failed");
                    assert(is_ascii("Retrieval failed"));
                    is_ascii_spec_bytes("Retrieval failed");
                }
                slice_to_vec("Retrieval failed".as_bytes())
            },
            ReplyKind::DeletionFailed => {
                proof {
                    reveal_strlit("Deletion failed");
                    assert(is_ascii("Deletion failed"));
                    is_ascii_spec_bytes("Deletion failed");
                }
                slice_to_vec("Deletion failed".as_bytes())
            },
            ReplyKind::ListFailed => {
                proof {
                    reveal_strlit("List failed");
                    assert(is_ascii("List failed"));
                    is_ascii_spec_bytes("List failed");
                }
                slice_to_vec("List failed".as_bytes())
            },
            ReplyKind::ChunkedRetrievalUnsupported => {
                proof {
                    reveal_strlit("Chunked retrieval not yet implemented");
                    assert(is_ascii("Chunked retrieval not yet implemented"));
                    is_ascii_spec_bytes("Chunked retrieval not yet implemented");
                }
                slice_to_vec("Chunked retrieval not yet implemented".as_bytes())
            },
            ReplyKind::InvalidMessageFormat => {
                proof {
                    reveal_strlit("Invalid message format");
                    assert(is_ascii("Invalid message format"));
                    is_ascii_spec_bytes("Invalid message format");
                }
                slice_to_vec("Invalid message format".as_bytes())
            },
        }
    }
}

/// The response a reply kind produces for a given request.
pub open spec fn reply_model(request_id: u32, op: Operation, kind: ReplyKind) -> MessageModel {
    MessageModel {
        request_id,
        operation: op,
        status: spec_reply_status(kind),
        checksum: sha256_of(spec_reply_detail(kind)),
        auth_token: spec_zero_token(),
        payload: spec_reply_detail(kind),
    }
}

/// Build the canned response of the given kind.
pub fn reply_message(request_id: u32, op: Operation, kind: ReplyKind) -> (r: Message)
    ensures
        r.wf(),
        r@ == reply_model(request_id, op, kind),
{
    let status = kind.status();
    let detail = kind.detail();
    Message::new_response(request_id, op, status, detail)
}

// ---------------------------------------------------------------------------
// Session state and handler steps
// ---------------------------------------------------------------------------

/// Per-connection authentication state.
#[derive(Clone, Copy, Debug, PartialEq, Eq, Structural)]
pub struct SessionState {
    pub authenticated: bool,
}

impl SessionState {
    pub fn new() -> (r: SessionState)
        ensures
            !r.authenticated,
    {
        SessionState { authenticated: false }
    }
}

/// A filesystem action the caller must perform under the storage root.
/// Every name in a request has already passed validation.
pub enum FsRequest {
    /// Create or replace the file `name` with `data`.
    Write { name: Vec<u8>, data: Vec<u8> },
    /// Read the whole content of `name`.
    Read { name: Vec<u8> },
    /// Remove `name`.
    Remove { name: Vec<u8> },
    /// Enumerate the regular files under the storage root.
    ListDir,
}

/// What handling one message yields: a finished response, or one
/// filesystem action whose outcome [`fs_response`] turns into the
/// response.
pub enum Step {
    Done(Message),
    Fs(FsRequest),
}

/// What a performed filesystem action came to.
pub enum FsOutcome {
    /// A write or remove succeeded.
    Done,
    /// A read or a listing succeeded with these payload bytes.
    Data(Vec<u8>),
    /// The named file does not exist.
    NotFound,
    /// The action failed for any other reason.
    Failed,
}

/// The reply kind a failed filesystem action maps to, by operation.
pub open spec fn spec_failed_kind(op: Operation) -> ReplyKind {
    match op {
        Operation::Store => ReplyKind::StorageFailed,
        Operation::StoreComplete => ReplyKind::FinalizeFailed,
        Operation::Retrieve => ReplyKind::RetrievalFailed,
        Operation::Delete => ReplyKind::DeletionFailed,
        Operation::List => ReplyKind::ListFailed,
        _ => ReplyKind::StorageFailed,
    }
}

/// The reply kind a successful write or remove maps to, by operation.
pub open spec fn spec_done_kind(op: Operation) -> ReplyKind {
    if op == Operation::StoreComplete {
        ReplyKind::FileStored
    } else {
        ReplyKind::ActionOk
    }
}

/// Build the response for a filesystem action the caller performed on
/// behalf of `op`.
pub fn fs_response(request_id: u32, op: Operation, outcome: FsOutcome) -> (r: Message)
    requires
        outcome matches FsOutcome::Data(d) ==> d@.len() + HEADER_LEN <= u32::MAX,
    ensures
        r.wf(),
        match outcome {
            FsOutcome::Done => r@ == reply_model(request_id, op, spec_done_kind(op)),
            FsOutcome::Data(d) => r@ == (MessageModel {
                request_id,
                operation: op,
                status: StatusCode::Success,
                checksum: sha256_of(d@),
                auth_token: spec_zero_token(),
                payload: d@,
            }),
            FsOutcome::NotFound => r@ == reply_model(request_id, op, ReplyKind::FileNotFound),
            FsOutcome::Failed => r@ == reply_model(request_id, op, spec_failed_kind(op)),
        },
{
    match outcome {
        FsOutcome::Done => {
            if op == Operation::StoreComplete {
                reply_message(request_id, op, ReplyKind::FileStored)
            } else {
                reply_message(request_id, op, ReplyKind::ActionOk)
            }
        },
        FsOutcome::Data(d) => Message::new_response(request_id, op, StatusCode::Success, d),
        FsOutcome::NotFound => reply_message(request_id, op, ReplyKind::FileNotFound),
        FsOutcome::Failed => {
            let kind = match op {
                Operation::Store => ReplyKind::StorageFailed,
                Operation::StoreComplete => ReplyKind::FinalizeFailed,
                Operation::Retrieve => ReplyKind::RetrievalFailed,
                Operation::Delete => ReplyKind::DeletionFailed,
                Operation::List => ReplyKind::ListFailed,
                _ => ReplyKind::StorageFailed,
            };
            reply_message(request_id, op, kind)
        },
    }
}

// ---------------------------------------------------------------------------
// Null separator of whole-file store payloads
// ---------------------------------------------------------------------------

/// `p` is the position of the first null byte of `s`.
pub open spec fn spec_is_first_null(s: Seq<u8>, p: int) -> bool {
    &&& 0 <= p < s.len()
    &&& s[p] == 0
    &&& forall|j: int| 0 <= j < p ==> s[j] != 0
}

/// Whether `s` holds a null byte at all.
pub open spec fn spec_has_null(s: Seq<u8>) -> bool {
    exists|i: int| 0 <= i < s.len() && s[i] == 0
}

fn find_null(s: &[u8]) -> (r: Option<usize>)
    ensures
        match r {
            Some(p) => spec_is_first_null(s@, p as int),
            None => !spec_has_null(s@),
        },
{
    let mut i: usize = 0;
    while i < s.len()
        invariant
            i <= s@.len(),
            forall|j: int| 0 <= j < i ==> s@[j] != 0,
        decreases s@.len() - i,
    {
        if s[i] == 0 {
            return Some(i);
        }
        i += 1;
    }
    None
}

// ---------------------------------------------------------------------------
// The request handler
// ---------------------------------------------------------------------------

/// Whether a message is authorized to act: the session has authenticated
/// and the message's own token matches the configured one.  The token is
/// re-checked on every request, not only at the handshake.
pub open spec fn spec_authorized(s: SessionState, m: MessageModel, expected: Seq<u8>) -> bool {
    s.authenticated && m.auth_token == expected
}

/// What the handler steps to for an authorized whole-file store, given
/// the position of the payload's first null separator.
pub open spec fn spec_store_step(r: Step, rid: u32, payload: Seq<u8>, p: int) -> bool {
    if valid_name(payload.take(p)) {
        r matches Step::Fs(FsRequest::Write { name, data }) && name@ == payload.take(p) && data@
            == payload.skip(p + 1)
    } else {
        r matches Step::Done(resp) && resp@ == reply_model(
            rid,
            Operation::Store,
            ReplyKind::StorageFailed,
        )
    }
}

/// Handle one parsed message for one connection.
///
/// Every operation other than authentication requires an authenticated
/// session and a matching token on the message itself; a request that
/// fails this gate is answered with a permission-denied response and
/// touches neither the pending uploads nor the filesystem.
pub fn handle_request(
    session: &mut SessionState,
    engine: &mut Engine,
    expected_token: &[u8],
    msg: Message,
) -> (r: Step)
    requires
        old(engine).wf(),
    ensures
        final(engine).wf(),
        // Only a successful authentication marks the session authenticated.
        final(session).authenticated == (if msg@.operation == Operation::Auth && msg@.auth_token
            == expected_token@ {
            true
        } else {
            old(session).authenticated
        }),
        // Authentication: re-evaluated on every attempt, engine untouched.
        msg@.operation == Operation::Auth ==> final(engine)@ == old(engine)@ && (r matches
            Step::Done(resp) && resp@ == reply_model(
            msg@.request_id,
            Operation::Auth,
            if msg@.auth_token == expected_token@ {
                ReplyKind::Authenticated
            } else {
                ReplyKind::InvalidPassword
            },
        )),
        // Authorization: an unauthorized non-authentication request is
        // denied, and neither the pending uploads nor the filesystem are
        // touched.
        msg@.operation != Operation::Auth && !spec_authorized(
            *old(session),
            msg@,
            expected_token@,
        ) ==> final(engine)@ == old(engine)@ && (r matches Step::Done(resp) && resp@
            == reply_model(
            msg@.request_id,
            msg@.operation,
            if !old(session).authenticated {
                ReplyKind::AuthenticationRequired
            } else {
                ReplyKind::InvalidToken
            },
        )),
        // Chunk arrival.
        msg@.operation == Operation::StoreChunk && spec_authorized(
            *old(session),
            msg@,
            expected_token@,
        ) ==> match spec_parse_envelope(msg@.payload) {
            Err(_) => final(engine)@ == old(engine)@ && (r matches Step::Done(resp) && resp@
                == reply_model(msg@.request_id, Operation::StoreChunk, ReplyKind::InvalidChunkMetadata)),
            Ok(env) => {
                if chunk_accepted(old(engine)@, env.filename, env.chunk_number, env.total_chunks) {
                    &&& final(engine)@ == after_accept(
                        old(engine)@,
                        env.filename,
                        env.chunk_number,
                        env.total_chunks,
                        env.data,
                    )
                    &&& (r matches Step::Done(resp) && resp@ == reply_model(
                        msg@.request_id,
                        Operation::StoreChunk,
                        if filled_count(final(engine)@[env.filename].slots) == final(
                            engine)@[env.filename].total {
                            ReplyKind::UploadComplete
                        } else {
                            ReplyKind::ChunkStored
                        },
                    ))
                } else {
                    &&& final(engine)@ == old(engine)@
                    &&& (r matches Step::Done(resp) && resp@ == reply_model(
                        msg@.request_id,
                        Operation::StoreChunk,
                        ReplyKind::ChunkStorageFailed,
                    ))
                }
            },
        },
        // Upload completion: on success the assembled bytes go to the
        // filesystem and the pending entry is gone; on failure the
        // pending entry, if any, is preserved.
        msg@.operation == Operation::StoreComplete && spec_authorized(
            *old(session),
            msg@,
            expected_token@,
        ) ==> {
            if old(engine)@.contains_key(msg@.payload) && filled_count(
                old(engine)@[msg@.payload].slots,
            ) == old(engine)@[msg@.payload].total {
                &&& final(engine)@ == old(engine)@.remove(msg@.payload)
                &&& (r matches Step::Fs(FsRequest::Write { name, data }) && name@ == msg@.payload
                    && data@ == assembled(old(engine)@[msg@.payload].slots))
            } else {
                &&& final(engine)@ == old(engine)@
                &&& (r matches Step::Done(resp) && resp@ == reply_model(
                    msg@.request_id,
                    Operation::StoreComplete,
                    ReplyKind::FinalizeFailed,
                ))
            }
        },
        // Whole-file store: the payload splits at its first null byte
        // into a name and the file bytes.
        msg@.operation == Operation::Store && spec_authorized(
            *old(session),
            msg@,
            expected_token@,
        ) ==> final(engine)@ == old(engine)@ && (if !spec_has_null(msg@.payload) {
            r matches Step::Done(resp) && resp@ == reply_model(
                msg@.request_id,
                Operation::Store,
                ReplyKind::InvalidStorePayload,
            )
        } else {
            forall|p: int|
                spec_is_first_null(msg@.payload, p) ==> spec_store_step(
                    r,
                    msg@.request_id,
                    msg@.payload,
                    p,
                )
        }),
        // Retrieval: the payload is the name.
        msg@.operation == Operation::Retrieve && spec_authorized(
            *old(session),
            msg@,
            expected_token@,
        ) ==> final(engine)@ == old(engine)@ && (if valid_name(msg@.payload) {
            r matches Step::Fs(FsRequest::Read { name }) && name@ == msg@.payload
        } else {
            r matches Step::Done(resp) && resp@ == reply_model(
                msg@.request_id,
                Operation::Retrieve,
                ReplyKind::RetrievalFailed,
            )
        }),
        // Deletion: the payload is the name.
        msg@.operation == Operation::Delete && spec_authorized(
            *old(session),
            msg@,
            expected_token@,
        ) ==> final(engine)@ == old(engine)@ && (if valid_name(msg@.payload) {
            r matches Step::Fs(FsRequest::Remove { name }) && name@ == msg@.payload
        } else {
            r matches Step::Done(resp) && resp@ == reply_model(
                msg@.request_id,
                Operation::Delete,
                ReplyKind::DeletionFailed,
            )
        }),
        // Listing.
        msg@.operation == Operation::List && spec_authorized(
            *old(session),
            msg@,
            expected_token@,
        ) ==> final(engine)@ == old(engine)@ && r matches Step::Fs(FsRequest::ListDir),
        // Chunked retrieval is not offered.
        msg@.operation == Operation::RetrieveChunk && spec_authorized(
            *old(session),
            msg@,
            expected_token@,
        ) ==> final(engine)@ == old(engine)@ && (r matches Step::Done(resp) && resp@
            == reply_model(
            msg@.request_id,
            Operation::RetrieveChunk,
            ReplyKind::ChunkedRetrievalUnsupported,
        )),
{
    let rid = msg.request_id;
    let op = msg.operation;
    let auth_match = bytes_eq(msg.auth_token.as_slice(), expected_token);

    if op == Operation::Auth {
        if auth_match {
            session.authenticated = true;
            return Step::Done(reply_message(rid, Operation::Auth, ReplyKind::Authenticated));
        } else {
            return Step::Done(reply_message(rid, Operation::Auth, ReplyKind::InvalidPassword));
        }
    }

    if !session.authenticated {
        return Step::Done(reply_message(rid, op, ReplyKind::AuthenticationRequired));
    }
    if !auth_match {
        return Step::Done(reply_message(rid, op, ReplyKind::InvalidToken));
    }

    match op {
        Operation::StoreChunk => {
            match ChunkEnvelope::from_payload(msg.payload.as_slice()) {
                Ok(env) => {
                    match engine.accept_chunk(
                        env.filename.as_slice(),
                        env.chunk_number,
                        env.total_chunks,
                        env.data,
                    ) {
                        Ok(complete) => {
                            let kind = if complete {
                                ReplyKind::UploadComplete
                            } else {
                                ReplyKind::ChunkStored
                            };
                            Step::Done(reply_message(rid, Operation::StoreChunk, kind))
                        },
                        Err(_) => Step::Done(
                            reply_message(rid, Operation::StoreChunk, ReplyKind::ChunkStorageFailed),
                        ),
                    }
                },
                Err(_) => Step::Done(
                    reply_message(rid, Operation::StoreChunk, ReplyKind::InvalidChunkMetadata),
                ),
            }
        },
        Operation::StoreComplete => {
            match engine.complete(msg.payload.as_slice()) {
                Ok(data) => Step::Fs(FsRequest::Write { name: msg.payload, data }),
                Err(_) => Step::Done(
                    reply_message(rid, Operation::StoreComplete, ReplyKind::FinalizeFailed),
                ),
            }
        },
        Operation::Store => {
            match find_null(msg.payload.as_slice()) {
                None => Step::Done(
                    reply_message(rid, Operation::Store, ReplyKind::InvalidStorePayload),
                ),
                Some(p) => {
                    proof {
                        assert(p < msg.payload@.len());
                    }
                    let name = slice_to_vec(slice_subrange(msg.payload.as_slice(), 0, p));
                    let data = slice_to_vec(
                        slice_subrange(msg.payload.as_slice(), p + 1, msg.payload.len()),
                    );
                    let step = if validate_name(name.as_slice()) {
                        Step::Fs(FsRequest::Write { name, data })
                    } else {
                        Step::Done(reply_message(rid, Operation::Store, ReplyKind::StorageFailed))
                    };
                    proof {
                        assert forall|q: int|
                            spec_is_first_null(msg@.payload, q) implies spec_store_step(
                            step,
                            rid,
                            msg@.payload,
                            q,
                        ) by {
                            assert(q == p as int);
                        }
                    }
                    step
                },
            }
        },
        Operation::Retrieve => {
            if validate_name(msg.payload.as_slice()) {
                Step::Fs(FsRequest::Read { name: msg.payload })
            } else {
                Step::Done(reply_message(rid, Operation::Retrieve, ReplyKind::RetrievalFailed))
            }
        },
        Operation::Delete => {
            if validate_name(msg.payload.as_slice()) {
                Step::Fs(FsRequest::Remove { name: msg.payload })
            } else {
                Step::Done(reply_message(rid, Operation::Delete, ReplyKind::DeletionFailed))
            }
        },
        Operation::List => Step::Fs(FsRequest::ListDir),
        Operation::RetrieveChunk => Step::Done(
            reply_message(rid, Operation::RetrieveChunk, ReplyKind::ChunkedRetrievalUnsupported),
        ),
        Operation::Auth => {
            proof {
                assert(false);
            }
            Step::Done(reply_message(rid, Operation::Auth, ReplyKind::InvalidPassword))
        },
    }
}

} // verus!
