//! The chunk envelope codec: the sub-format carried inside the payload of
//! chunked-transfer messages, and the client-side splitting of a file into
//! bounded chunks.
//!
//! Envelope layout, integers big-endian:
//! `[u32 filename_len][filename bytes][u32 chunk_number][u32 total_chunks][chunk data]`.

use vstd::prelude::*;
use vstd::slice::{slice_subrange, slice_to_vec};

use crate::wire::{spec_u32_from_be, spec_u32_to_be, u32_from_be, u32_to_be};
use crate::wire::lemma_u32_be_round_trip;

verus! {

/// Upper bound on the data bytes one chunk carries.
pub const CHUNK_SIZE: usize = 65536;

/// Decoding an envelope fails only when the buffer is too short for the
/// declared filename and the fixed fields.
#[derive(Clone, Copy, Debug, PartialEq, Eq, Structural)]
pub enum EnvelopeError {
    TruncatedEnvelope,
}

/// One chunk of an upload: destination name, zero-based index, declared
/// total, and the chunk's bytes.
#[derive(Debug, Clone, PartialEq)]
pub struct ChunkEnvelope {
    pub filename: Vec<u8>,
    pub chunk_number: u32,
    pub total_chunks: u32,
    pub data: Vec<u8>,
}

/// The mathematical content of a chunk envelope.
#[verifier::ext_equal]
pub ghost struct ChunkEnvelopeModel {
    pub filename: Seq<u8>,
    pub chunk_number: u32,
    pub total_chunks: u32,
    pub data: Seq<u8>,
}

impl View for ChunkEnvelope {
    type V = ChunkEnvelopeModel;

    open spec fn view(&self) -> ChunkEnvelopeModel {
        ChunkEnvelopeModel {
            filename: self.filename@,
            chunk_number: self.chunk_number,
            total_chunks: self.total_chunks,
            data: self.data@,
        }
    }
}

impl ChunkEnvelopeModel {
    /// A filename short enough for its length to fit the length field.
    pub open spec fn wf(self) -> bool {
        self.filename.len() <= u32::MAX
    }
}

/// The payload bytes that carry one envelope.
pub open spec fn spec_encode_envelope(e: ChunkEnvelopeModel) -> Seq<u8> {
    spec_u32_to_be(e.filename.len() as u32) + e.filename + spec_u32_to_be(e.chunk_number)
        + spec_u32_to_be(e.total_chunks) + e.data
}

/// What decoding an envelope yields: fails when fewer than twelve bytes
/// remain once the declared filename is consumed, or when the declared
/// filename itself exceeds the buffer.
pub open spec fn spec_parse_envelope(data: Seq<u8>) -> Result<ChunkEnvelopeModel, EnvelopeError> {
    if data.len() < 4 {
        Err(EnvelopeError::TruncatedEnvelope)
    } else {
        let flen = spec_u32_from_be(data.subrange(0, 4));
        if data.len() < flen + 12 {
            Err(EnvelopeError::TruncatedEnvelope)
        } else {
            Ok(
                ChunkEnvelopeModel {
                    filename: data.subrange(4, 4 + flen),
                    chunk_number: spec_u32_from_be(data.subrange(4 + flen, 8 + flen)) as u32,
                    total_chunks: spec_u32_from_be(data.subrange(8 + flen, 12 + flen)) as u32,
                    data: data.skip(12 + flen),
                },
            )
        }
    }
}

impl ChunkEnvelope {
    pub open spec fn wf(self) -> bool {
        self@.wf()
    }

    /// Serialize the envelope for transmission inside a message payload.
    pub fn to_payload(&self) -> (r: Vec<u8>)
        requires
            self.wf(),
        ensures
            r@ == spec_encode_envelope(self@),
    {
        let mut bytes = u32_to_be(self.filename.len() as u32);
        bytes.extend_from_slice(self.filename.as_slice());
        let mut num = u32_to_be(self.chunk_number);
        bytes.append(&mut num);
        let mut total = u32_to_be(self.total_chunks);
        bytes.append(&mut total);
        bytes.extend_from_slice(self.data.as_slice());
        proof {
            assert(bytes@ =~= spec_encode_envelope(self@));
        }
        bytes
    }

    /// Parse an envelope out of a message payload.
    pub fn from_payload(data: &[u8]) -> (r: Result<ChunkEnvelope, EnvelopeError>)
        ensures
            match r {
                Ok(e) => spec_parse_envelope(data@) == Ok::<ChunkEnvelopeModel, EnvelopeError>(e@)
                    && e.wf(),
                Err(err) => spec_parse_envelope(data@) == Err::<ChunkEnvelopeModel, EnvelopeError>(
                    err,
                ),
            },
    {
        if data.len() < 4 {
            return Err(EnvelopeError::TruncatedEnvelope);
        }
        let flen = u32_from_be(data[0], data[1], data[2], data[3]);
        proof {
            assert(seq![data@[0], data@[1], data@[2], data@[3]] =~= data@.subrange(0, 4));
        }
        if data.len() < 12 || data.len() - 12 < flen as usize {
            return Err(EnvelopeError::TruncatedEnvelope);
        }
        let fl = flen as usize;
        let filename = slice_to_vec(slice_subrange(data, 4, 4 + fl));
        let chunk_number = u32_from_be(data[4 + fl], data[5 + fl], data[6 + fl], data[7 + fl]);
        let total_chunks = u32_from_be(data[8 + fl], data[9 + fl], data[10 + fl], data[11 + fl]);
        let chunk_data = slice_to_vec(slice_subrange(data, 12 + fl, data.len()));
        proof {
            assert(seq![data@[4 + fl], data@[5 + fl], data@[6 + fl], data@[7 + fl]] =~= data@
                .subrange(4 + fl as int, 8 + fl as int));
            assert(seq![data@[8 + fl], data@[9 + fl], data@[10 + fl], data@[11 + fl]] =~= data@
                .subrange(8 + fl as int, 12 + fl as int));
        }
        Ok(ChunkEnvelope { filename, chunk_number, total_chunks, data: chunk_data })
    }
}

/// Round trip: decoding an encoded envelope gives the envelope back.
pub proof fn lemma_envelope_round_trip(e: ChunkEnvelopeModel)
    requires
        e.wf(),
    ensures
        spec_parse_envelope(spec_encode_envelope(e)) == Ok::<ChunkEnvelopeModel, EnvelopeError>(e),
{
    let bytes = spec_encode_envelope(e);
    let flen = e.filename.len() as int;

    assert(bytes.subrange(0, 4) =~= spec_u32_to_be(e.filename.len() as u32));
    lemma_u32_be_round_trip(e.filename.len() as u32);
    lemma_u32_be_round_trip(e.chunk_number);
    lemma_u32_be_round_trip(e.total_chunks);

    assert(bytes.subrange(4, 4 + flen) =~= e.filename);
    assert(bytes.subrange(4 + flen, 8 + flen) =~= spec_u32_to_be(e.chunk_number));
    assert(bytes.subrange(8 + flen, 12 + flen) =~= spec_u32_to_be(e.total_chunks));
    assert(bytes.skip(12 + flen) =~= e.data);

    let parsed = spec_parse_envelope(bytes);
    assert(parsed is Ok);
    assert(parsed->Ok_0 =~= e);
}

/// How many chunks a file of `len` bytes splits into.
pub open spec fn spec_chunk_count(len: int) -> int {
    (len + CHUNK_SIZE - 1) / (CHUNK_SIZE as int)
}

/// Split file contents into consecutive chunks: every chunk is non-empty,
/// no chunk exceeds `CHUNK_SIZE`, all but the last are exactly `CHUNK_SIZE`,
/// and in order they concatenate back to the input.
pub fn chunk_data(data: &[u8]) -> (r: Vec<Vec<u8>>)
    ensures
        r@.map_values(|c: Vec<u8>| c@).flatten() == data@,
        forall|i: int| 0 <= i < r@.len() ==> 0 < #[trigger] r@[i]@.len() <= CHUNK_SIZE,
        forall|i: int| 0 <= i < r@.len() - 1 ==> #[trigger] r@[i]@.len() == CHUNK_SIZE,
        r@.len() == spec_chunk_count(data@.len() as int),
{
    let mut r: Vec<Vec<u8>> = Vec::new();
    let mut start: usize = 0;
    while start < data.len()
        invariant
            start <= data@.len(),
            r@.map_values(|c: Vec<u8>| c@).flatten() == data@.take(start as int),
            forall|i: int| 0 <= i < r@.len() ==> 0 < #[trigger] r@[i]@.len() <= CHUNK_SIZE,
            forall|i: int| 0 <= i < r@.len() - 1 ==> #[trigger] r@[i]@.len() == CHUNK_SIZE,
            start < data@.len() ==> forall|i: int| 0 <= i < r@.len() ==> #[trigger] r@[i]@.len()
                == CHUNK_SIZE,
            start == r@.len() * CHUNK_SIZE || (start == data@.len() && r@.len()
                == spec_chunk_count(data@.len() as int)),
            start < data@.len() ==> start == r@.len() * CHUNK_SIZE,
        decreases data@.len() - start,
    {
        let end = if data.len() - start < CHUNK_SIZE {
            data.len()
        } else {
            start + CHUNK_SIZE
        };
        let piece = slice_to_vec(slice_subrange(data, start, end));
        proof {
            let ghost old_seqs = r@.map_values(|c: Vec<u8>| c@);
            old_seqs.lemma_flatten_push(piece@);
            assert(r@.push(piece).map_values(|c: Vec<u8>| c@) =~= old_seqs.push(piece@));
            assert(old_seqs.flatten() + piece@ =~= data@.take(end as int));
            if end == data@.len() {
                let k = r@.len() as int;
                assert(k * CHUNK_SIZE < data@.len() <= (k + 1) * CHUNK_SIZE);
                assert((data@.len() + CHUNK_SIZE - 1) / (CHUNK_SIZE as int) == k + 1) by (nonlinear_arith)
                    requires
                        k * CHUNK_SIZE < data@.len() <= (k + 1) * CHUNK_SIZE,
                        k >= 0,
                ;
            }
        }
        r.push(piece);
        start = end;
    }
    proof {
        assert(data@.take(start as int) =~= data@);
        if data@.len() == 0 {
            assert(r@.len() == 0);
            assert(spec_chunk_count(0) == 0);
        }
    }
    r
}

} // verus!
