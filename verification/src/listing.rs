//! The listing record format: the payload of a successful List response
//! is a serialized sequence of file metadata records.  The format is an
//! internal detail of the protocol; what matters, and what is proved, is
//! that it round-trips losslessly.
//!
//! Layout, integers big-endian: a `u32` record count, then per record
//! `[u32 name_len][name][u64 size][u32 modified_len][modified][32-byte checksum]`.

use vstd::prelude::*;
use vstd::multiset::Multiset;
use vstd::slice::{slice_subrange, slice_to_vec};

use crate::protocol::{sha256, sha256_of};
use crate::wire::{
    spec_u32_from_be, spec_u32_to_be, spec_u64_from_be, spec_u64_to_be, u32_from_be, u32_to_be,
    u64_from_be, u64_to_be,
};
use crate::wire::{lemma_u32_be_round_trip, lemma_u64_be_round_trip};

verus! {

/// Decoding a listing fails only on a buffer that is no listing.
#[derive(Clone, Copy, Debug, PartialEq, Eq, Structural)]
pub enum ListingError {
    /// A record runs past the end of the buffer.
    TruncatedRecord,
    /// Bytes remain after the declared number of records.
    TrailingBytes,
}

/// What a listing reports of one stored file: its name, its size in
/// bytes, its last-modified time rendered as a fixed-format string, and
/// the content hash of its bytes.
#[derive(Debug, Clone, PartialEq)]
pub struct FileMetadata {
    pub name: Vec<u8>,
    pub size: u64,
    pub modified: Vec<u8>,
    pub checksum: Vec<u8>,
}

/// The mathematical content of one metadata record.
#[verifier::ext_equal]
pub ghost struct FileMetadataModel {
    pub name: Seq<u8>,
    pub size: u64,
    pub modified: Seq<u8>,
    pub checksum: Seq<u8>,
}

impl View for FileMetadata {
    type V = FileMetadataModel;

    open spec fn view(&self) -> FileMetadataModel {
        FileMetadataModel {
            name: self.name@,
            size: self.size,
            modified: self.modified@,
            checksum: self.checksum@,
        }
    }
}

impl FileMetadataModel {
    pub open spec fn wf(self) -> bool {
        &&& self.name.len() <= u32::MAX
        &&& self.modified.len() <= u32::MAX
        &&& self.checksum.len() == 32
    }
}

impl FileMetadata {
    pub open spec fn wf(self) -> bool {
        self@.wf()
    }

    /// Metadata for a file whose bytes are at hand: the checksum is the
    /// content hash of the bytes.
    pub fn new(name: Vec<u8>, size: u64, modified: Vec<u8>, content: &[u8]) -> (r: FileMetadata)
        requires
            name@.len() <= u32::MAX,
            modified@.len() <= u32::MAX,
        ensures
            r.wf(),
            r@ == (FileMetadataModel {
                name: name@,
                size,
                modified: modified@,
                checksum: sha256_of(content@),
            }),
    {
        let checksum = sha256(content);
        FileMetadata { name, size, modified, checksum }
    }
}

/// The models of a vector of records.
pub open spec fn metas_model(v: Seq<FileMetadata>) -> Seq<FileMetadataModel> {
    v.map_values(|m: FileMetadata| m@)
}

// ---------------------------------------------------------------------------
// Encoding
// ---------------------------------------------------------------------------

/// The bytes of one record.
#[verifier::opaque]
pub open spec fn spec_encode_meta(m: FileMetadataModel) -> Seq<u8> {
    spec_u32_to_be(m.name.len() as u32) + m.name + spec_u64_to_be(m.size) + spec_u32_to_be(
        m.modified.len() as u32,
    ) + m.modified + m.checksum
}

/// The records one after another.
pub open spec fn spec_encode_records(ms: Seq<FileMetadataModel>) -> Seq<u8>
    decreases ms.len(),
{
    if ms.len() == 0 {
        Seq::empty()
    } else {
        spec_encode_meta(ms.first()) + spec_encode_records(ms.drop_first())
    }
}

/// The whole listing payload: the record count, then the records.
pub open spec fn spec_encode_list(ms: Seq<FileMetadataModel>) -> Seq<u8> {
    spec_u32_to_be(ms.len() as u32) + spec_encode_records(ms)
}

/// Appending one record extends the encoding by that record's bytes.
proof fn lemma_encode_records_push(ms: Seq<FileMetadataModel>, m: FileMetadataModel)
    ensures
        spec_encode_records(ms.push(m)) == spec_encode_records(ms) + spec_encode_meta(m),
    decreases ms.len(),
{
    let post = ms.push(m);
    assert(spec_encode_records(post) == spec_encode_meta(post.first()) + spec_encode_records(
        post.drop_first(),
    ));
    if ms.len() == 0 {
        assert(post.first() == m);
        assert(post.drop_first() =~= Seq::<FileMetadataModel>::empty());
        assert(ms =~= Seq::<FileMetadataModel>::empty());
        assert(spec_encode_records(Seq::<FileMetadataModel>::empty()) == Seq::<u8>::empty());
        assert(spec_encode_meta(m) + Seq::<u8>::empty() =~= spec_encode_meta(m));
        assert(Seq::<u8>::empty() + spec_encode_meta(m) =~= spec_encode_meta(m));
    } else {
        assert(post.first() == ms.first());
        assert(post.drop_first() =~= ms.drop_first().push(m));
        lemma_encode_records_push(ms.drop_first(), m);
        assert(spec_encode_records(ms) == spec_encode_meta(ms.first()) + spec_encode_records(
            ms.drop_first(),
        ));
        assert(spec_encode_meta(ms.first()) + (spec_encode_records(ms.drop_first())
            + spec_encode_meta(m)) =~= (spec_encode_meta(ms.first()) + spec_encode_records(
            ms.drop_first(),
        )) + spec_encode_meta(m));
    }
}

fn encode_meta(m: &FileMetadata) -> (r: Vec<u8>)
    requires
        m.wf(),
    ensures
        r@ == spec_encode_meta(m@),
{
    let mut bytes = u32_to_be(m.name.len() as u32);
    bytes.extend_from_slice(m.name.as_slice());
    let mut size = u64_to_be(m.size);
    bytes.append(&mut size);
    let mut mlen = u32_to_be(m.modified.len() as u32);
    bytes.append(&mut mlen);
    bytes.extend_from_slice(m.modified.as_slice());
    bytes.extend_from_slice(m.checksum.as_slice());
    proof {
        reveal(spec_encode_meta);
        assert(bytes@ =~= spec_encode_meta(m@));
    }
    bytes
}

/// Serialize a listing.
pub fn encode_file_list(metas: &Vec<FileMetadata>) -> (r: Vec<u8>)
    requires
        metas@.len() <= u32::MAX,
        forall|i: int| 0 <= i < metas@.len() ==> #[trigger] metas@[i].wf(),
    ensures
        r@ == spec_encode_list(metas_model(metas@)),
{
    let mut bytes = u32_to_be(metas.len() as u32);
    let mut i: usize = 0;
    while i < metas.len()
        invariant
            i <= metas@.len(),
            metas@.len() <= u32::MAX,
            forall|j: int| 0 <= j < metas@.len() ==> #[trigger] metas@[j].wf(),
            bytes@ == spec_u32_to_be(metas@.len() as u32) + spec_encode_records(
                metas_model(metas@.take(i as int)),
            ),
        decreases metas@.len() - i,
    {
        let mut rec = encode_meta(&metas[i]);
        proof {
            lemma_encode_records_push(metas_model(metas@.take(i as int)), metas@[i as int]@);
            assert(metas_model(metas@.take(i + 1)) =~= metas_model(metas@.take(i as int)).push(
                metas@[i as int]@,
            ));
        }
        bytes.append(&mut rec);
        i += 1;
    }
    proof {
        assert(metas@.take(metas@.len() as int) =~= metas@);
    }
    bytes
}

// ---------------------------------------------------------------------------
// Decoding
// ---------------------------------------------------------------------------

/// What parsing one record off the front of `data` yields: the record
/// and how many bytes it occupied.
#[verifier::opaque]
pub open spec fn spec_parse_record(data: Seq<u8>) -> Result<
    (FileMetadataModel, int),
    ListingError,
> {
    if data.len() < 4 {
        Err(ListingError::TruncatedRecord)
    } else {
        let nlen = spec_u32_from_be(data.take(4));
        if data.len() < 4 + nlen + 12 {
            Err(ListingError::TruncatedRecord)
        } else {
            let mlen = spec_u32_from_be(data.subrange(12 + nlen, 16 + nlen));
            if data.len() < 16 + nlen + mlen + 32 {
                Err(ListingError::TruncatedRecord)
            } else {
                Ok(
                    (
                        FileMetadataModel {
                            name: data.subrange(4, 4 + nlen),
                            size: spec_u64_from_be(data.subrange(4 + nlen, 12 + nlen)) as u64,
                            modified: data.subrange(16 + nlen, 16 + nlen + mlen),
                            checksum: data.subrange(16 + nlen + mlen, 16 + nlen + mlen + 32),
                        },
                        16 + nlen + mlen + 32,
                    ),
                )
            }
        }
    }
}

/// What parsing `n` consecutive records out of all of `data` yields.
pub open spec fn spec_parse_records(data: Seq<u8>, n: nat) -> Result<
    Seq<FileMetadataModel>,
    ListingError,
>
    decreases n,
{
    if n == 0 {
        if data.len() == 0 {
            Ok(Seq::empty())
        } else {
            Err(ListingError::TrailingBytes)
        }
    } else {
        match spec_parse_record(data) {
            Err(e) => Err(e),
            Ok((m, used)) => match spec_parse_records(data.skip(used), (n - 1) as nat) {
                Err(e) => Err(e),
                Ok(rest) => Ok(seq![m] + rest),
            },
        }
    }
}

/// What decoding a whole listing payload yields.
pub open spec fn spec_parse_list(data: Seq<u8>) -> Result<Seq<FileMetadataModel>, ListingError> {
    if data.len() < 4 {
        Err(ListingError::TruncatedRecord)
    } else {
        spec_parse_records(data.skip(4), spec_u32_from_be(data.take(4)) as nat)
    }
}

fn parse_record(data: &[u8]) -> (r: Result<(FileMetadata, usize), ListingError>)
    ensures
        match r {
            Ok((meta, used)) => spec_parse_record(data@) == Ok::<
                (FileMetadataModel, int),
                ListingError,
            >((meta@, used as int)) && meta.wf() && 16 <= used <= data@.len(),
            Err(e) => spec_parse_record(data@) == Err::<(FileMetadataModel, int), ListingError>(e),
        },
{
    proof {
        reveal(spec_parse_record);
    }
    if data.len() < 4 {
        return Err(ListingError::TruncatedRecord);
    }
    let nlen = u32_from_be(data[0], data[1], data[2], data[3]);
    proof {
        assert(seq![data@[0], data@[1], data@[2], data@[3]] =~= data@.take(4));
    }
    if data.len() < 16 || data.len() - 16 < nlen as usize {
        return Err(ListingError::TruncatedRecord);
    }
    let nl = nlen as usize;
    let name = slice_to_vec(slice_subrange(data, 4, 4 + nl));
    let size = u64_from_be(slice_subrange(data, 4 + nl, 12 + nl));
    let mlen = u32_from_be(data[12 + nl], data[13 + nl], data[14 + nl], data[15 + nl]);
    proof {
        assert(seq![data@[12 + nl], data@[13 + nl], data@[14 + nl], data@[15 + nl]] =~= data@
            .subrange(12 + nl as int, 16 + nl as int));
    }
    if data.len() - 16 - nl < 32 || data.len() - 16 - nl - 32 < mlen as usize {
        return Err(ListingError::TruncatedRecord);
    }
    let ml = mlen as usize;
    let modified = slice_to_vec(slice_subrange(data, 16 + nl, 16 + nl + ml));
    let checksum = slice_to_vec(slice_subrange(data, 16 + nl + ml, 16 + nl + ml + 32));
    let used = 16 + nl + ml + 32;
    Ok((FileMetadata { name, size, modified, checksum }, used))
}

/// Deserialize a listing.
pub fn decode_file_list(data: &[u8]) -> (r: Result<Vec<FileMetadata>, ListingError>)
    ensures
        match r {
            Ok(v) => spec_parse_list(data@) == Ok::<Seq<FileMetadataModel>, ListingError>(
                metas_model(v@),
            ) && forall|i: int| 0 <= i < v@.len() ==> #[trigger] v@[i].wf(),
            Err(e) => spec_parse_list(data@) == Err::<Seq<FileMetadataModel>, ListingError>(e),
        },
{
    if data.len() < 4 {
        return Err(ListingError::TruncatedRecord);
    }
    let count = u32_from_be(data[0], data[1], data[2], data[3]);
    proof {
        assert(seq![data@[0], data@[1], data@[2], data@[3]] =~= data@.take(4));
        assert(spec_parse_list(data@) == spec_parse_records(data@.skip(4), count as nat));
    }
    let mut metas: Vec<FileMetadata> = Vec::new();
    let mut offset: usize = 4;
    let mut remaining = count;
    while remaining > 0
        invariant
            4 <= offset <= data@.len(),
            remaining <= count,
            spec_parse_list(data@) == spec_parse_records(data@.skip(4), count as nat),
            forall|i: int| 0 <= i < metas@.len() ==> #[trigger] metas@[i].wf(),
            spec_parse_records(data@.skip(4), count as nat) == (match spec_parse_records(
                data@.skip(offset as int),
                remaining as nat,
            ) {
                Ok(rest) => Ok::<Seq<FileMetadataModel>, ListingError>(metas_model(metas@) + rest),
                Err(e) => Err::<Seq<FileMetadataModel>, ListingError>(e),
            }),
        decreases remaining,
    {
        let rest = slice_subrange(data, offset, data.len());
        proof {
            assert(rest@ =~= data@.skip(offset as int));
        }
        match parse_record(rest) {
            Err(e) => {
                return Err(e);
            },
            Ok((meta, used)) => {
                proof {
                    assert(data@.skip(offset as int).skip(used as int) =~= data@.skip(
                        offset + used,
                    ));
                    assert(metas_model(metas@.push(meta)) =~= metas_model(metas@).push(meta@));
                    let pr = spec_parse_records(data@.skip(offset + used), (remaining - 1) as nat);
                    if pr is Ok {
                        let tail = pr->Ok_0;
                        assert(metas_model(metas@) + (seq![meta@] + tail) =~= metas_model(
                            metas@,
                        ).push(meta@) + tail);
                    }
                }
                metas.push(meta);
                offset = offset + used;
                remaining = remaining - 1;
            },
        }
    }
    if offset != data.len() {
        return Err(ListingError::TrailingBytes);
    }
    proof {
        assert(data@.skip(offset as int).len() == 0);
        assert(metas_model(metas@) + Seq::<FileMetadataModel>::empty() =~= metas_model(metas@));
    }
    Ok(metas)
}

// ---------------------------------------------------------------------------
// Ordering: a listing reports files by name, ascending
// ---------------------------------------------------------------------------

/// Lexicographic byte order, a shorter sequence preceding its extensions.
pub open spec fn lex_le(a: Seq<u8>, b: Seq<u8>) -> bool
    decreases a.len(),
{
    if a.len() == 0 {
        true
    } else if b.len() == 0 {
        false
    } else if a.first() < b.first() {
        true
    } else if a.first() > b.first() {
        false
    } else {
        lex_le(a.drop_first(), b.drop_first())
    }
}

/// Any two byte sequences compare in at least one direction.
pub proof fn lemma_lex_le_total(a: Seq<u8>, b: Seq<u8>)
    ensures
        lex_le(a, b) || lex_le(b, a),
    decreases a.len(),
{
    if a.len() > 0 && b.len() > 0 && a.first() == b.first() {
        lemma_lex_le_total(a.drop_first(), b.drop_first());
    }
}

/// The order is transitive.
pub proof fn lemma_lex_le_trans(a: Seq<u8>, b: Seq<u8>, c: Seq<u8>)
    requires
        lex_le(a, b),
        lex_le(b, c),
    ensures
        lex_le(a, c),
    decreases a.len(),
{
    if a.len() > 0 && b.len() > 0 && c.len() > 0 && a.first() == b.first() && b.first()
        == c.first() {
        lemma_lex_le_trans(a.drop_first(), b.drop_first(), c.drop_first());
    }
}

/// Dropping a common prefix does not change how two sequences compare.
proof fn lemma_lex_le_skip(a: Seq<u8>, b: Seq<u8>, i: int)
    requires
        0 <= i <= a.len(),
        i <= b.len(),
        forall|j: int| 0 <= j < i ==> a[j] == b[j],
    ensures
        lex_le(a, b) == lex_le(a.skip(i), b.skip(i)),
    decreases i,
{
    if i > 0 {
        assert(a.len() > 0 && b.len() > 0 && a.first() == b.first());
        assert(a.drop_first().skip(i - 1) =~= a.skip(i));
        assert(b.drop_first().skip(i - 1) =~= b.skip(i));
        lemma_lex_le_skip(a.drop_first(), b.drop_first(), i - 1);
    } else {
        assert(a.skip(0) =~= a);
        assert(b.skip(0) =~= b);
    }
}

/// Compare two byte strings in lexicographic order.
pub fn bytes_le(a: &[u8], b: &[u8]) -> (r: bool)
    ensures
        r == lex_le(a@, b@),
{
    let mut i: usize = 0;
    loop
        invariant
            i <= a@.len(),
            i <= b@.len(),
            forall|j: int| 0 <= j < i ==> a@[j] == b@[j],
        ensures
            lex_le(a@, b@) == lex_le(a@.skip(i as int), b@.skip(i as int)),
            (i == a@.len()) || (i == b@.len()) || a@[i as int] != b@[i as int],
        decreases a@.len() - i,
    {
        proof {
            lemma_lex_le_skip(a@, b@, i as int);
        }
        if i >= a.len() || i >= b.len() || a[i] != b[i] {
            break;
        }
        i += 1;
    }
    proof {
        lemma_lex_le_skip(a@, b@, i as int);
    }
    if i >= a.len() {
        proof {
            assert(a@.skip(i as int).len() == 0);
        }
        true
    } else if i >= b.len() {
        proof {
            assert(b@.skip(i as int).len() == 0);
            assert(a@.skip(i as int).len() > 0);
        }
        false
    } else {
        proof {
            assert(a@.skip(i as int).first() == a@[i as int]);
            assert(b@.skip(i as int).first() == b@[i as int]);
        }
        a[i] < b[i]
    }
}

/// Records in ascending name order.
pub open spec fn sorted_by_name(ms: Seq<FileMetadataModel>) -> bool {
    forall|i: int, j: int|
        #![trigger ms[i], ms[j]]
        0 <= i < j < ms.len() ==> lex_le(ms[i].name, ms[j].name)
}

/// Sort a listing by name, ascending: the result holds exactly the given
/// records, in order.
pub fn sort_by_name(metas: Vec<FileMetadata>) -> (r: Vec<FileMetadata>)
    ensures
        sorted_by_name(metas_model(r@)),
        r@.to_multiset() == metas@.to_multiset(),
{
    let mut src = metas;
    let mut out: Vec<FileMetadata> = Vec::new();
    proof {
        broadcast use vstd::seq_lib::group_to_multiset_ensures;

        assert(out@.to_multiset() =~= Multiset::<FileMetadata>::empty());
        assert(out@.to_multiset().add(src@.to_multiset()) =~= src@.to_multiset());
    }
    while src.len() > 0
        invariant
            sorted_by_name(metas_model(out@)),
            out@.to_multiset().add(src@.to_multiset()) == metas@.to_multiset(),
        decreases src@.len(),
    {
        let ghost src_pre = src@;
        let ghost out_pre = out@;
        let m = src.pop().unwrap();
        proof {
            broadcast use vstd::seq_lib::group_to_multiset_ensures;

            assert(src_pre =~= src@.push(m));
            assert(src_pre.to_multiset() == src@.to_multiset().insert(m));
        }

        let mut k: usize = 0;
        loop
            invariant
                k <= out@.len(),
                out@ == out_pre,
                forall|j: int| 0 <= j < k ==> lex_le(metas_model(out@)[j].name, m@.name),
            ensures
                k <= out@.len(),
                out@ == out_pre,
                forall|j: int| 0 <= j < k ==> lex_le(metas_model(out@)[j].name, m@.name),
                k < out@.len() ==> !lex_le(metas_model(out@)[k as int].name, m@.name),
            decreases out@.len() - k,
        {
            if k >= out.len() {
                break;
            }
            if !bytes_le(out[k].name.as_slice(), m.name.as_slice()) {
                break;
            }
            k += 1;
        }

        proof {
            if (k as int) < out@.len() {
                lemma_lex_le_total(metas_model(out@)[k as int].name, m@.name);
            }
            assert forall|j: int| k <= j < out@.len() implies lex_le(
                m@.name,
                metas_model(out@)[j].name,
            ) by {
                if j > k {
                    lemma_lex_le_trans(
                        m@.name,
                        metas_model(out@)[k as int].name,
                        metas_model(out@)[j].name,
                    );
                }
            }
        }
        let ghost out_mid = out@;
        out.insert(k, m);
        proof {
            broadcast use vstd::seq_lib::group_to_multiset_ensures;

            assert(out@.remove(k as int) =~= out_mid);
            assert(out@[k as int] == m);
            assert(out@.to_multiset().count(m) > 0);
            assert(out@.to_multiset() =~= out_mid.to_multiset().insert(m)) by {
                assert(out@.to_multiset().remove(m) =~= out_mid.to_multiset());
                assert forall|x: FileMetadata|
                    out@.to_multiset().count(x) == out_mid.to_multiset().insert(m).count(
                    x,
                ) by {
                    if x == m {
                        assert(out@.to_multiset().remove(m).count(m) == out@.to_multiset().count(
                            m,
                        ) - 1);
                    } else {
                        assert(out@.to_multiset().remove(m).count(x) == out@.to_multiset().count(
                            x,
                        ));
                    }
                }
            }
            assert(out@.to_multiset().add(src@.to_multiset()) =~= out_mid.to_multiset().add(
                src_pre.to_multiset(),
            ));
            assert(metas_model(out@) =~= metas_model(out_mid).insert(k as int, m@));
            assert forall|i: int, j: int|
                #![trigger metas_model(out@)[i], metas_model(out@)[j]]
                0 <= i < j < metas_model(out@).len() implies lex_le(
                metas_model(out@)[i].name,
                metas_model(out@)[j].name,
            ) by {
                let nm = metas_model(out@);
                let om = metas_model(out_mid);
                if j < k {
                    assert(nm[i] == om[i] && nm[j] == om[j]);
                } else if j == k {
                    assert(nm[i] == om[i] && nm[j] == m@);
                } else if i < k {
                    assert(nm[i] == om[i] && nm[j] == om[j - 1]);
                } else if i == k {
                    assert(nm[i] == m@ && nm[j] == om[j - 1]);
                } else {
                    assert(nm[i] == om[i - 1] && nm[j] == om[j - 1]);
                }
            }
        }
    }
    proof {
        broadcast use vstd::seq_lib::group_to_multiset_ensures;

        assert(src@.to_multiset() =~= Multiset::<FileMetadata>::empty());
        assert(out@.to_multiset().add(src@.to_multiset()) =~= out@.to_multiset());
    }
    out
}

// ---------------------------------------------------------------------------
// The round-trip law
// ---------------------------------------------------------------------------

/// One encoded record parses back off the front of any buffer it
/// prefixes, consuming exactly its own bytes.
proof fn lemma_record_round_trip(m: FileMetadataModel, rest: Seq<u8>)
    requires
        m.wf(),
    ensures
        spec_parse_record(spec_encode_meta(m) + rest) == Ok::<(FileMetadataModel, int), ListingError>(
            (m, spec_encode_meta(m).len() as int),
        ),
        spec_encode_meta(m).len() == 16 + m.name.len() + m.modified.len() + 32,
{
    reveal(spec_encode_meta);
    reveal(spec_parse_record);
    let bytes = spec_encode_meta(m) + rest;
    let nlen = m.name.len() as int;
    let mlen = m.modified.len() as int;
    assert(spec_encode_meta(m).len() == 16 + nlen + mlen + 32);

    assert(bytes.take(4) =~= spec_u32_to_be(m.name.len() as u32));
    lemma_u32_be_round_trip(m.name.len() as u32);
    assert(bytes.subrange(4, 4 + nlen) =~= m.name);
    assert(bytes.subrange(4 + nlen, 12 + nlen) =~= spec_u64_to_be(m.size));
    lemma_u64_be_round_trip(m.size);
    assert(bytes.subrange(12 + nlen, 16 + nlen) =~= spec_u32_to_be(m.modified.len() as u32));
    lemma_u32_be_round_trip(m.modified.len() as u32);
    assert(bytes.subrange(16 + nlen, 16 + nlen + mlen) =~= m.modified);
    assert(bytes.subrange(16 + nlen + mlen, 16 + nlen + mlen + 32) =~= m.checksum);

    let parsed = spec_parse_record(bytes);
    assert(parsed is Ok);
    assert(parsed->Ok_0.0 =~= m);
}

#[verifier::rlimit(50)]
proof fn lemma_records_round_trip(ms: Seq<FileMetadataModel>)
    requires
        forall|i: int| 0 <= i < ms.len() ==> #[trigger] ms[i].wf(),
    ensures
        spec_parse_records(spec_encode_records(ms), ms.len()) == Ok::<
            Seq<FileMetadataModel>,
            ListingError,
        >(ms),
    decreases ms.len(),
{
    if ms.len() == 0 {
        assert(ms =~= Seq::<FileMetadataModel>::empty());
        assert(spec_encode_records(ms).len() == 0);
    } else {
        let head = ms.first();
        let tail = ms.drop_first();
        let rest = spec_encode_records(tail);
        let bytes = spec_encode_records(ms);
        assert(bytes == spec_encode_meta(head) + rest);
        lemma_record_round_trip(head, rest);
        lemma_records_round_trip(tail);
        let used = spec_encode_meta(head).len() as int;
        assert(spec_parse_record(bytes) == Ok::<(FileMetadataModel, int), ListingError>((
            head,
            used,
        )));
        assert(bytes.skip(used) =~= rest);
        assert(spec_parse_records(bytes, ms.len()) == Ok::<Seq<FileMetadataModel>, ListingError>(
            seq![head] + tail,
        ));
        assert(seq![head] + tail =~= ms);
    }
}

/// Round trip: decoding an encoded listing gives the records back.
pub proof fn lemma_list_round_trip(ms: Seq<FileMetadataModel>)
    requires
        forall|i: int| 0 <= i < ms.len() ==> #[trigger] ms[i].wf(),
        ms.len() <= u32::MAX,
    ensures
        spec_parse_list(spec_encode_list(ms)) == Ok::<Seq<FileMetadataModel>, ListingError>(ms),
{
    let bytes = spec_encode_list(ms);
    assert(bytes.take(4) =~= spec_u32_to_be(ms.len() as u32));
    lemma_u32_be_round_trip(ms.len() as u32);
    assert(bytes.skip(4) =~= spec_encode_records(ms));
    lemma_records_round_trip(ms);
}

} // verus!
