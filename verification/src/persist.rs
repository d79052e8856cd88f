//! The binary cache of an index.
//!
//! A cache file holds, in this order:
//! - the magic bytes `SONR`
//! - the version, a little-endian 32-bit integer
//! - the content hash of the project, a blob of UTF-8 text
//! - the chunks, a blob of JSON
//! - the tokenised documents, a blob of JSON
//! - a flag byte, 1 if vectors follow
//! - the dimension of the vectors, a little-endian 32-bit integer
//! - the vectors, a blob of little-endian 32-bit floats
//!
//! A blob is preceded by its length, a little-endian 32-bit integer.
use vstd::prelude::*;
use vstd::string::{StrSliceExecFns, StringExecFns};
#[allow(unused_imports)]
use vstd::utf8::{decode_utf8, encode_utf8, valid_utf8};

use crate::ann::Flat;
use crate::bm25::BM25Index;
#[allow(unused_imports)]
use crate::codec::{blob, le_u32, le_u64, split_blob, split_u32, u32_of_le};
use crate::codec::{read_blob, read_u32, write_blob, write_bytes, write_u32, write_u64, Reader};
#[allow(unused_imports)]
use crate::engine::all_documented;
use crate::engine::{tokenize_chunks, Engine};
use crate::error::{SonarError, VERSION};
use crate::groups::{group_by_file, group_by_language};
#[allow(unused_imports)]
use crate::index::built;
use crate::index::{Mode, SonarIndex};
#[allow(unused_imports)]
use crate::listing::by_path;
use crate::listing::{sort_by_path, FileStamp};
use crate::text::same_text;
use crate::types::Chunk;
use crate::walk::Project;

verus! {

/// The BLAKE3 hash of some bytes, in lowercase hexadecimal.
pub uninterp spec fn blake3_hex(bytes: Seq<u8>) -> Seq<char>;

/// A digit of a lowercase hexadecimal number.
pub open spec fn hex_digit(c: char) -> bool {
    '0' <= c <= '9' || 'a' <= c <= 'f'
}

/// What a content hash looks like: 64 lowercase hexadecimal digits.
pub open spec fn hash_shaped(hash: Seq<char>) -> bool {
    hash.len() == 64 && forall|i: int| 0 <= i < hash.len() ==> hex_digit(#[trigger] hash[i])
}

/// `blake3::Hasher` fed with `bytes`, finalized and written with `Hash::to_hex`. The result is
/// named by `blake3_hex`; it is a function of the bytes, and it has 64 lowercase hexadecimal
/// digits.
#[verifier::external_body]
fn hash_bytes(bytes: &[u8]) -> (r: String)
    ensures
        r@ == blake3_hex(bytes@),
        r@.len() == 64,
        forall|i: int| 0 <= i < r@.len() ==> hex_digit(#[trigger] r@[i]),
{
    blake3::Hasher::new().update(bytes).finalize().to_hex().to_string()
}

/// What `serde_json` reads as a list of token lists: the lists, or the text of the error.
pub uninterp spec fn json_documents(bytes: Seq<u8>) -> Result<Seq<Seq<Seq<char>>>, Seq<char>>;

/// What `serde_json` writes for a list of token lists.
pub uninterp spec fn documents_json(documents: Seq<Seq<Seq<char>>>) -> Seq<u8>;

/// A successful reading of documents.
pub open spec fn read_as(documents: Seq<Seq<Seq<char>>>) -> Result<
    Seq<Seq<Seq<char>>>,
    Seq<char>,
> {
    Ok(documents)
}

/// A failed reading of documents.
pub open spec fn refused_for(reason: Seq<char>) -> Result<Seq<Seq<Seq<char>>>, Seq<char>> {
    Err(reason)
}

/// `serde_json::to_vec` on a list of token lists. It writes to memory and there is no map in the
/// value, so it succeeds; the bytes are named by `documents_json`, and `serde_json` reads the
/// same lists out of them.
#[verifier::external_body]
fn documents_to_json(documents: &Vec<Vec<String>>) -> (r: Result<Vec<u8>, String>)
    ensures
        r is Ok,
        r->Ok_0@ == documents_json(documents.deep_view()),
        json_documents(r->Ok_0@) == read_as(documents.deep_view()),
{
    serde_json::to_vec(documents).map_err(|e| e.to_string())
}

/// `serde_json::from_slice` to a list of token lists. The lists, or the text of the error, are
/// named by `json_documents`.
#[verifier::external_body]
fn documents_from_json(bytes: &[u8]) -> (r: Result<Vec<Vec<String>>, String>)
    ensures
        match r {
            Ok(documents) => json_documents(bytes@) == read_as(documents.deep_view()),
            Err(reason) => json_documents(bytes@) == refused_for(reason@),
        },
{
    serde_json::from_slice(bytes).map_err(|e| e.to_string())
}

/// What `String::from_utf8` says of bytes that are not UTF-8.
pub uninterp spec fn utf8_fault(bytes: Seq<u8>) -> Seq<char>;

/// `String::from_utf8`: the text that the bytes encode, or the text of the error if they are not
/// UTF-8. The latter is named by `utf8_fault`.
#[verifier::external_body]
fn utf8_text(bytes: Vec<u8>) -> (r: Result<String, String>)
    ensures
        match r {
            Ok(text) => valid_utf8(bytes@) && text@ == decode_utf8(bytes@),
            Err(reason) => !valid_utf8(bytes@) && reason@ == utf8_fault(bytes@),
        },
{
    String::from_utf8(bytes).map_err(|e| e.to_string())
}

/// The bytes that are hashed for a listing: the path and the time of each entry, one after the
/// other.
pub open spec fn listing_bytes(listing: Seq<(Seq<char>, u64)>) -> Seq<u8>
    decreases listing.len(),
{
    if listing.len() == 0 {
        Seq::empty()
    } else {
        listing_bytes(listing.drop_last()) + encode_utf8(listing.last().0) + le_u64(
            listing.last().1,
        )
    }
}

/// The content hash of a listing: that of its entries in the order of their paths.
pub open spec fn content_hash(listing: Seq<(Seq<char>, u64)>) -> Seq<char> {
    blake3_hex(listing_bytes(by_path(listing)))
}

/// Writes out a file listing for hashing, in the order of the paths.
pub fn write_listing(listing: &Vec<FileStamp>) -> (r: Vec<u8>)
    ensures
        r@ == listing_bytes(by_path(listing.deep_view())),
{
    let sorted = sort_by_path(listing);
    let ghost order = sorted.deep_view();
    let mut bytes: Vec<u8> = Vec::new();
    for i in 0..sorted.len()
        invariant
            order == sorted.deep_view(),
            bytes@ == listing_bytes(order.take(i as int)),
    {
        let entry = sorted[i];
        let ghost before = bytes@;
        proof {
            assert(order.take(i + 1).drop_last() =~= order.take(i as int));
            assert(order.take(i + 1).last() == entry.deep_view());
        }
        write_bytes(&mut bytes, entry.path.as_str().as_bytes());
        write_u64(&mut bytes, entry.modified);
        assert(bytes@ =~= before + encode_utf8(entry.path@) + le_u64(entry.modified));
    }
    assert(order.take(order.len() as int) =~= order);
    bytes
}

/// Hashes a file listing, to tell whether an index is stale.
pub fn compute_content_hash(listing: &Vec<FileStamp>) -> (r: Result<String, SonarError>)
    ensures
        r matches Ok(hash) && hash@ == content_hash(listing.deep_view()) && hash_shaped(hash@),
{
    let bytes = write_listing(listing);
    Ok(hash_bytes(bytes.as_slice()))
}

/// The first bytes of every cache file, `SONR`.
pub open spec fn magic() -> Seq<u8> {
    seq![0x53u8, 0x4fu8, 0x4eu8, 0x52u8]
}

/// The bytes of a vector, component after component.
pub open spec fn vector_bytes(vector: Seq<u32>) -> Seq<u8>
    decreases vector.len(),
{
    if vector.len() == 0 {
        Seq::empty()
    } else {
        vector_bytes(vector.drop_last()) + le_u32(vector.last())
    }
}

/// The bytes of some vectors, one after the other.
pub open spec fn raw_vectors(vecs: Seq<Seq<u32>>) -> Seq<u8>
    decreases vecs.len(),
{
    if vecs.len() == 0 {
        Seq::empty()
    } else {
        raw_vectors(vecs.drop_last()) + vector_bytes(vecs.last())
    }
}

/// The last part of a cache file: the flag and, if there is a vector, the dimension and all
/// vectors. The dimension is that of the first vector, modulo 2^32.
pub open spec fn vector_section(flat: Option<Flat>) -> Seq<u8> {
    match flat {
        Some(f) if f.spec_vecs().len() > 0 => seq![1u8] + le_u32(
            (f.spec_dim() % 0x1_0000_0000) as u32,
        ) + blob(raw_vectors(f.spec_vecs())),
        _ => seq![0u8],
    }
}

/// The bytes of a cache file.
pub open spec fn index_bytes(
    hash: Seq<char>,
    chunks_json: Seq<u8>,
    documents_json: Seq<u8>,
    flat: Option<Flat>,
) -> Seq<u8> {
    magic() + le_u32(VERSION) + blob(encode_utf8(hash)) + blob(chunks_json) + blob(documents_json)
        + vector_section(flat)
}

/// Appends all vectors, one after the other.
fn write_vectors(buf: &mut Vec<u8>, vecs: &Vec<Vec<u32>>)
    ensures
        final(buf)@ == old(buf)@ + raw_vectors(vecs.deep_view()),
{
    let ghost rows = vecs.deep_view();
    let ghost start = buf@;
    assert(buf@ =~= start + raw_vectors(rows.take(0)));
    for i in 0..vecs.len()
        invariant
            rows == vecs.deep_view(),
            buf@ == start + raw_vectors(rows.take(i as int)),
    {
        let v = &vecs[i];
        let ghost before = buf@;
        assert(buf@ =~= before + vector_bytes(v@.take(0)));
        for j in 0..v.len()
            invariant
                buf@ == before + vector_bytes(v@.take(j as int)),
        {
            let ghost inner = buf@;
            write_u32(buf, v[j]);
            proof {
                assert(v@.take(j + 1).drop_last() =~= v@.take(j as int));
                assert(inner + le_u32(v@[j as int]) =~= before + (vector_bytes(v@.take(j as int))
                    + le_u32(v@[j as int])));
            }
        }
        proof {
            assert(v@.take(v@.len() as int) =~= v@);
            assert(rows[i as int] =~= v@);
            assert(rows.take(i + 1).drop_last() =~= rows.take(i as int));
            assert(buf@ =~= start + (raw_vectors(rows.take(i as int)) + vector_bytes(v@)));
        }
    }
    assert(rows.take(rows.len() as int) =~= rows);
}

/// Puts a cache file together.
pub fn encode_index(
    content_hash: &str,
    chunks_json: &[u8],
    documents_json: &[u8],
    flat: Option<&Flat>,
) -> (r: Vec<u8>)
    ensures
        r@ == index_bytes(content_hash@, chunks_json@, documents_json@, flat_value(flat)),
{
    let mut buf: Vec<u8> = Vec::new();
    buf.push(0x53);
    buf.push(0x4f);
    buf.push(0x4e);
    buf.push(0x52);
    assert(buf@ =~= magic());
    write_u32(&mut buf, VERSION);
    write_blob(&mut buf, content_hash.as_bytes());
    write_blob(&mut buf, chunks_json);
    write_blob(&mut buf, documents_json);
    let ghost head = buf@;
    match flat {
        Some(f) if f.len() > 0 => {
            buf.push(1);
            let dim: u64 = f.dim() as u64;
            write_u32(&mut buf, (dim % 0x1_0000_0000) as u32);
            let mut raw: Vec<u8> = Vec::new();
            write_vectors(&mut raw, f.vecs());
            assert(raw@ =~= raw_vectors(f.spec_vecs()));
            write_blob(&mut buf, raw.as_slice());
        },
        _ => {
            buf.push(0);
        },
    }
    assert(buf@ =~= head + vector_section(flat_value(flat)));
    buf
}

/// The index of vectors behind a reference to one.
pub open spec fn flat_value(flat: Option<&Flat>) -> Option<Flat> {
    match flat {
        Some(f) => Some(*f),
        None => None,
    }
}

/// `r` is what saving an index may give. `serde_json` reads the stored documents back.
pub open spec fn saved<E: Engine>(
    engine: &E,
    index: &SonarIndex,
    hash: Seq<char>,
    r: Result<Vec<u8>, SonarError>,
) -> bool {
    exists|json: Result<Vec<u8>, String>|
        {
            &&& #[trigger] call_ensures(E::chunks_to_json, (engine, &index.chunks), json)
            &&& match json {
                Err(reason) => r matches Err(SonarError::ChunksNotSerialized { reason: text })
                    && text@ == reason@,
                Ok(chunks_json) => exists|documents: Seq<Seq<Seq<char>>>|
                    {
                        &&& #[trigger] all_documented(engine, index.chunks@, documents)
                        &&& json_documents(documents_json(documents)) == read_as(documents)
                        &&& r matches Ok(bytes) && bytes@ == index_bytes(
                            hash,
                            chunks_json@,
                            documents_json(documents),
                            index.flat,
                        )
                    },
            }
        }
}

/// The bytes of the cache file of an index.
pub fn save_index<E: Engine>(engine: &E, index: &SonarIndex, content_hash: &str) -> (r: Result<
    Vec<u8>,
    SonarError,
>)
    ensures
        saved(engine, index, content_hash@, r),
{
    let json = engine.chunks_to_json(&index.chunks);
    assert(call_ensures(E::chunks_to_json, (engine, &index.chunks), json));
    match json {
        Err(reason) => Err(SonarError::ChunksNotSerialized { reason }),
        Ok(chunks_json) => {
            let documents = tokenize_chunks(engine, &index.chunks);
            let documents_json = match documents_to_json(&documents) {
                Ok(bytes) => bytes,
                Err(reason) => {
                    return Err(SonarError::DocumentsNotSerialized { reason });
                },
            };
            let bytes = encode_index(
                content_hash,
                chunks_json.as_slice(),
                documents_json.as_slice(),
                index.flat(),
            );
            Ok(bytes)
        },
    }
}

/// The first part of a cache file: what identifies it, the chunks and where the rest begins.
pub struct Header<'a> {
    pub content_hash: String,
    pub chunks_json: Vec<u8>,
    pub rest: Reader<'a>,
}

/// The contents of a `Header`.
pub struct HeaderView {
    pub content_hash: Seq<char>,
    pub chunks_json: Seq<u8>,
    pub rest: Seq<u8>,
}

impl<'a> View for Header<'a> {
    type V = HeaderView;

    open spec fn view(&self) -> HeaderView {
        HeaderView {
            content_hash: self.content_hash@,
            chunks_json: self.chunks_json@,
            rest: self.rest@,
        }
    }
}

/// What can be wrong with a header.
pub enum HeaderFault {
    MagicTruncated,
    InvalidMagic { bytes: (u8, u8, u8, u8) },
    Truncated,
    UnsupportedVersion { version: u32 },
    HashNotUtf8 { text: Seq<char> },
}

/// `error` tells of `fault`.
pub open spec fn reports(error: SonarError, fault: HeaderFault) -> bool {
    match fault {
        HeaderFault::MagicTruncated => error == SonarError::MagicTruncated,
        HeaderFault::InvalidMagic { bytes } => error == (SonarError::InvalidMagic { bytes }),
        HeaderFault::Truncated => error == SonarError::Truncated,
        HeaderFault::UnsupportedVersion { version } => error == (SonarError::UnsupportedVersion {
            version,
        }),
        HeaderFault::HashNotUtf8 { text } => error matches SonarError::HashNotUtf8 { reason }
            && reason@ == text,
    }
}

/// The header of a cache file, or the first thing that is wrong with it.
pub open spec fn header_of(data: Seq<u8>) -> Result<HeaderView, HeaderFault> {
    if data.len() < 4 {
        Err(HeaderFault::MagicTruncated)
    } else if data.take(4) != magic() {
        Err(HeaderFault::InvalidMagic { bytes: (data[0], data[1], data[2], data[3]) })
    } else {
        match split_u32(data.skip(4)) {
            None => Err(HeaderFault::Truncated),
            Some((version, after_version)) => if version != VERSION {
                Err(HeaderFault::UnsupportedVersion { version })
            } else {
                match split_blob(after_version) {
                    None => Err(HeaderFault::Truncated),
                    Some((hash, after_hash)) => if !valid_utf8(hash) {
                        Err(HeaderFault::HashNotUtf8 { text: utf8_fault(hash) })
                    } else {
                        match split_blob(after_hash) {
                            None => Err(HeaderFault::Truncated),
                            Some((chunks_json, rest)) => Ok(
                                HeaderView { content_hash: decode_utf8(hash), chunks_json, rest },
                            ),
                        }
                    },
                }
            },
        }
    }
}

/// Reads the header of a cache file.
pub fn read_header<'a>(data: &'a [u8]) -> (r: Result<Header<'a>, SonarError>)
    ensures
        match header_of(data@) {
            Ok(view) => r matches Ok(header) && header@ == view && header.rest.wf(),
            Err(fault) => r matches Err(error) && reports(error, fault),
        },
{
    let mut reader = Reader::new(data);
    if reader.remaining() < 4 {
        return Err(SonarError::MagicTruncated);
    }
    let start = reader.take(4);
    if start[0] != 0x53 || start[1] != 0x4f || start[2] != 0x4e || start[3] != 0x52 {
        let bytes = (start[0], start[1], start[2], start[3]);
        proof {
            if data@.take(4) == magic() {
                assert(data@.take(4)[0] == 0x53 && data@.take(4)[1] == 0x4f && data@.take(4)[2]
                    == 0x4e && data@.take(4)[3] == 0x52);
            }
        }
        return Err(SonarError::InvalidMagic { bytes });
    }
    assert(data@.take(4) =~= magic());
    let version: u32 = match read_u32(&mut reader) {
        Ok(v) => v,
        Err(e) => {
            return Err(e);
        },
    };
    if version != VERSION {
        return Err(SonarError::UnsupportedVersion { version });
    }
    let hash = match read_blob(&mut reader) {
        Ok(bytes) => bytes,
        Err(e) => {
            return Err(e);
        },
    };
    let content_hash = match utf8_text(hash) {
        Ok(text) => text,
        Err(reason) => {
            return Err(SonarError::HashNotUtf8 { reason });
        },
    };
    let chunks_json = match read_blob(&mut reader) {
        Ok(bytes) => bytes,
        Err(e) => {
            return Err(e);
        },
    };
    Ok(Header { content_hash, chunks_json, rest: reader })
}

/// The `count` vectors of dimension `dim` that the bytes hold.
pub open spec fn vectors_in(raw: Seq<u8>, count: nat, dim: nat) -> Seq<Seq<u32>> {
    Seq::new(
        count,
        |i: int|
            Seq::new(
                dim,
                |j: int| u32_of_le(raw.subrange(4 * (i * dim + j), 4 * (i * dim + j) + 4)),
            ),
    )
}

/// The vectors in the last part of a cache file, one for each of `count` chunks. There are none
/// if the part is missing or if its flag is not 1.
pub open spec fn vectors_of(tail: Seq<u8>, count: nat) -> Result<
    Option<Seq<Seq<u32>>>,
    SonarError,
> {
    if tail.len() == 0 || tail[0] != 1 {
        Ok(None)
    } else {
        match split_u32(tail.skip(1)) {
            None => Err(SonarError::Truncated),
            Some((dim, after_dim)) => match split_blob(after_dim) {
                None => Err(SonarError::Truncated),
                Some((raw, _)) => if raw.len() != count * dim * 4 {
                    Err(
                        SonarError::EmbeddingSize {
                            expected: (count * dim * 4) as u128,
                            found: raw.len() as usize,
                        },
                    )
                } else {
                    Ok(Some(vectors_in(raw, count, dim as nat)))
                },
            },
        }
    }
}

/// A row lies inside the bytes of all rows.
proof fn lemma_row_fits(i: int, count: int, dim: int)
    requires
        0 <= i < count,
        0 <= dim,
    ensures
        0 <= i * dim,
        (i + 1) * dim == i * dim + dim,
        i * dim + dim <= count * dim,
{
    assert(0 <= i * dim) by (nonlinear_arith)
        requires
            0 <= i,
            0 <= dim,
    ;
    assert((i + 1) * dim == i * dim + dim) by (nonlinear_arith);
    assert((i + 1) * dim <= count * dim) by (nonlinear_arith)
        requires
            i + 1 <= count,
            0 <= dim,
    ;
}

/// Cuts the bytes into vectors.
fn split_vectors(raw: &Vec<u8>, count: usize, dim: usize) -> (r: Vec<Vec<u32>>)
    requires
        raw@.len() == count * dim * 4,
    ensures
        r.deep_view() == vectors_in(raw@, count as nat, dim as nat),
{
    let ghost expected = vectors_in(raw@, count as nat, dim as nat);
    let mut vecs: Vec<Vec<u32>> = Vec::new();
    let mut pos: usize = 0;
    let len: usize = raw.len();
    assert(0 * dim == 0) by (nonlinear_arith);
    for i in 0..count
        invariant
            len == raw@.len(),
            raw@.len() == count * dim * 4,
            expected == vectors_in(raw@, count as nat, dim as nat),
            pos == 4 * (i * dim),
            vecs@.len() == i,
            forall|k: int| 0 <= k < i ==> (#[trigger] vecs@[k])@ == expected[k],
    {
        proof {
            lemma_row_fits(i as int, count as int, dim as int);
        }
        let mut v: Vec<u32> = Vec::new();
        for j in 0..dim
            invariant
                len == raw@.len(),
                raw@.len() == count * dim * 4,
                expected == vectors_in(raw@, count as nat, dim as nat),
                0 <= i * dim,
                i * dim + dim <= count * dim,
                i < count,
                pos == 4 * (i * dim + j),
                v@.len() == j,
                forall|k: int| 0 <= k < j ==> #[trigger] v@[k] == expected[i as int][k],
        {
            let word: u32 = raw[pos] as u32 + 0x100 * (raw[pos + 1] as u32) + 0x1_0000 * (raw[pos
                + 2] as u32) + 0x100_0000 * (raw[pos + 3] as u32);
            proof {
                let s = raw@.subrange(pos as int, pos + 4);
                assert(s[0] == raw@[pos as int] && s[1] == raw@[pos + 1] && s[2] == raw@[pos + 2]
                    && s[3] == raw@[pos + 3]);
                assert(expected[i as int][j as int] == u32_of_le(s));
            }
            v.push(word);
            assert(pos + 4 <= len);
            pos = pos + 4;
        }
        assert(v@ =~= expected[i as int]);
        vecs.push(v);
    }
    assert forall|k: int| 0 <= k < count implies #[trigger] vecs.deep_view()[k] == expected[k] by {
        assert(vecs.deep_view()[k] =~= vecs@[k]@);
    }
    assert(vecs.deep_view() =~= expected);
    vecs
}

/// Reads the vectors in the last part of a cache file.
pub fn read_vectors(reader: &mut Reader, count: usize) -> (r: Result<
    Option<Vec<Vec<u32>>>,
    SonarError,
>)
    requires
        old(reader).wf(),
    ensures
        match vectors_of(old(reader)@, count as nat) {
            Ok(None) => r matches Ok(None),
            Ok(Some(vecs)) => r matches Ok(Some(v)) && v.deep_view() == vecs,
            Err(e) => r matches Err(error) && error == e,
        },
{
    if reader.remaining() == 0 {
        return Ok(None);
    }
    let flag = reader.take(1);
    if flag[0] != 1 {
        return Ok(None);
    }
    let dim: u32 = match read_u32(reader) {
        Ok(v) => v,
        Err(e) => {
            return Err(e);
        },
    };
    let raw = match read_blob(reader) {
        Ok(bytes) => bytes,
        Err(e) => {
            return Err(e);
        },
    };
    proof {
        assert(0 <= count * dim <= 0xffff_ffff_ffff_ffff * 0xffff_ffff) by (nonlinear_arith)
            requires
                0 <= count <= 0xffff_ffff_ffff_ffff,
                0 <= dim <= 0xffff_ffff,
        ;
    }
    let expected: u128 = count as u128 * dim as u128 * 4;
    if raw.len() as u128 != expected {
        return Err(SonarError::EmbeddingSize { expected, found: raw.len() });
    }
    proof {
        if count == 0 {
            assert(count * dim == 0) by (nonlinear_arith)
                requires
                    count == 0,
            ;
        }
    }
    Ok(Some(split_vectors(&raw, count, dim as usize)))
}

/// The part of a cache file behind the chunks.
pub struct Body {
    pub documents: Vec<Vec<String>>,
    pub vectors: Option<Vec<Vec<u32>>>,
}

/// `r` is what reading the part behind the chunks gives, for `count` chunks.
pub open spec fn body_read(rest: Seq<u8>, count: nat, r: Result<Body, SonarError>) -> bool {
    match split_blob(rest) {
        None => r matches Err(e) && e == SonarError::Truncated,
        Some((json, tail)) => match json_documents(json) {
            Err(text) => r matches Err(SonarError::DocumentsNotParsed { reason }) && reason@ == text,
            Ok(documents) => match vectors_of(tail, count) {
                Err(error) => r matches Err(e) && e == error,
                Ok(vectors) => {
                    &&& r matches Ok(body)
                    &&& body.documents.deep_view() == documents
                    &&& body.vectors.deep_view() == vectors
                },
            },
        },
    }
}

/// Reads the part behind the chunks, for `count` chunks.
pub fn read_body(reader: &mut Reader, count: usize) -> (r: Result<Body, SonarError>)
    requires
        old(reader).wf(),
    ensures
        body_read(old(reader)@, count as nat, r),
{
    let json = match read_blob(reader) {
        Ok(bytes) => bytes,
        Err(e) => {
            return Err(e);
        },
    };
    let documents = match documents_from_json(json.as_slice()) {
        Ok(documents) => documents,
        Err(reason) => {
            return Err(SonarError::DocumentsNotParsed { reason });
        },
    };
    match read_vectors(reader, count) {
        Ok(vectors) => Ok(Body { documents, vectors }),
        Err(e) => Err(e),
    }
}

/// `r` is what reading a cache file may give.
pub open spec fn loaded<E: Engine>(
    engine: &E,
    data: Seq<u8>,
    r: Result<(SonarIndex, String), SonarError>,
) -> bool {
    match header_of(data) {
        Err(fault) => r matches Err(e) && reports(e, fault),
        Ok(header) => exists|json: Vec<u8>, parsed: Result<Vec<Chunk>, String>|
            {
                &&& json@ == header.chunks_json
                &&& #[trigger] call_ensures(E::chunks_from_json, (engine, &json), parsed)
                &&& match parsed {
                    Err(reason) => r matches Err(SonarError::ChunksNotParsed { reason: text })
                        && text@ == reason@,
                    Ok(chunks) => exists|body: Result<Body, SonarError>|
                        {
                            &&& #[trigger] body_read(header.rest, chunks@.len(), body)
                            &&& restored(engine, chunks, header.content_hash, body, r)
                        },
                }
            },
    }
}

/// `r` is what may become of the chunks and the hash of a cache file and of the part behind them.
pub open spec fn restored<E: Engine>(
    engine: &E,
    chunks: Vec<Chunk>,
    hash: Seq<char>,
    body: Result<Body, SonarError>,
    r: Result<(SonarIndex, String), SonarError>,
) -> bool {
    match body {
        Err(error) => r matches Err(e) && e == error,
        Ok(b) => {
            &&& r matches Ok((index, stored))
            &&& stored@ == hash
            &&& index.chunks == chunks
            &&& index.bm25.spec_documents() == b.documents.deep_view()
            &&& index.grouped()
            &&& match b.vectors {
                None => index.keyword_only(),
                Some(vectors) => {
                    &&& index.flat matches Some(flat) && flat.spec_vecs() == vectors.deep_view()
                    &&& index.revived(engine)
                },
            }
        },
    }
}

/// Reads a cache file: the index and the content hash that was stored with it.
pub fn load_index<E: Engine>(engine: &E, data: &[u8]) -> (r: Result<
    (SonarIndex, String),
    SonarError,
>)
    ensures
        loaded(engine, data@, r),
{
    let header = match read_header(data) {
        Ok(header) => header,
        Err(e) => {
            return Err(e);
        },
    };
    let ghost view = header@;
    let mut reader = header.rest;
    let parsed = engine.chunks_from_json(&header.chunks_json);
    assert(call_ensures(E::chunks_from_json, (engine, &header.chunks_json), parsed));
    let chunks = match parsed {
        Ok(chunks) => chunks,
        Err(reason) => {
            return Err(SonarError::ChunksNotParsed { reason });
        },
    };
    let read = read_body(&mut reader, chunks.len());
    assert(body_read(view.rest, chunks@.len(), read));
    let body = match read {
        Ok(body) => body,
        Err(e) => {
            return Err(e);
        },
    };
    let bm25 = BM25Index::build(body.documents);
    let file_mapping = group_by_file(&chunks);
    let language_mapping = group_by_language(&chunks);
    let index = match body.vectors {
        Some(vectors) => SonarIndex::new_with_vectors(
            engine,
            chunks,
            bm25,
            file_mapping,
            language_mapping,
            Flat::new(vectors),
        ),
        None => SonarIndex::new(chunks, bm25, file_mapping, language_mapping),
    };
    Ok((index, header.content_hash))
}

/// Where the cache file of a project stands.
pub open spec fn cache_path(root: Seq<char>) -> Seq<char> {
    if root.len() == 0 || root.last() == '/' {
        root + ".sonar/index.bin"@
    } else {
        root + "/.sonar/index.bin"@
    }
}

/// The path of the cache file of a project.
pub fn default_cache_path(root: &str) -> (r: String)
    ensures
        r@ == cache_path(root@),
{
    let n: usize = root.unicode_len();
    let mut path = root.to_owned();
    if n == 0 || root.get_char(n - 1) == '/' {
        path.append(".sonar/index.bin");
    } else {
        path.append("/.sonar/index.bin");
    }
    path
}

/// `r` is what looking for a usable cache may give: nothing if there is no cache file or if it
/// was made of another listing.
pub open spec fn cache_checked<E: Engine>(
    engine: &E,
    cache: Option<&[u8]>,
    listing: Seq<(Seq<char>, u64)>,
    r: Result<Option<SonarIndex>, SonarError>,
) -> bool {
    match cache {
        None => r matches Ok(None),
        Some(data) => exists|l: Result<(SonarIndex, String), SonarError>|
            {
                &&& #[trigger] loaded(engine, data@, l)
                &&& match l {
                    Err(error) => r matches Err(e) && e == error,
                    Ok((index, hash)) => if hash@ == content_hash(listing) {
                        r matches Ok(Some(found)) && found == index
                    } else {
                        r matches Ok(None)
                    },
                }
            },
    }
}

/// The index, if the hash that was stored with it is the current one.
pub fn if_current(index: SonarIndex, stored: &str, current: &str) -> (r: Option<SonarIndex>)
    ensures
        r == if stored@ == current@ {
            Some(index)
        } else {
            None
        },
{
    if same_text(stored, current) {
        Some(index)
    } else {
        None
    }
}

/// The index in the cache file of a project, if there is one that fits the file listing.
pub fn load_cached<E: Engine>(
    engine: &E,
    cache: Option<&[u8]>,
    listing: &Vec<FileStamp>,
) -> (r: Result<Option<SonarIndex>, SonarError>)
    ensures
        cache_checked(engine, cache, listing.deep_view(), r),
{
    let data = match cache {
        Some(data) => data,
        None => {
            return Ok(None);
        },
    };
    let l = load_index(engine, data);
    assert(loaded(engine, data@, l));
    match l {
        Err(e) => Err(e),
        Ok((index, stored)) => {
            let current = match compute_content_hash(listing) {
                Ok(hash) => hash,
                Err(e) => {
                    return Err(e);
                },
            };
            Ok(if_current(index, stored.as_str(), current.as_str()))
        },
    }
}

/// An index with the cache file to be written for it.
pub struct SavedIndex {
    pub index: SonarIndex,
    pub cache_path: String,
    pub bytes: Vec<u8>,
}

/// `r` is what building an index and saving it may give.
pub open spec fn built_and_saved<E: Engine>(
    engine: &E,
    project: Project,
    listing: Seq<(Seq<char>, u64)>,
    r: Result<SavedIndex, SonarError>,
) -> bool {
    exists|b: Result<SonarIndex, SonarError>|
        {
            &&& #[trigger] built(engine, project, Mode::Hybrid, b)
            &&& match b {
                Err(error) => r matches Err(e) && e == error,
                Ok(index) => exists|s: Result<Vec<u8>, SonarError>|
                    {
                        &&& #[trigger] saved(engine, &index, content_hash(listing), s)
                        &&& match s {
                            Err(error) => r matches Err(e) && e == error,
                            Ok(bytes) => {
                                &&& hash_shaped(content_hash(listing))
                                &&& r matches Ok(made)
                                &&& made.index == index
                                &&& made.cache_path@ == cache_path(project.root@)
                                &&& made.bytes == bytes
                            },
                        }
                    },
            }
        }
}

/// Builds an index of a project and the cache file for it.
pub fn build_and_save<E: Engine>(engine: &E, project: Project, listing: &Vec<FileStamp>) -> (r:
    Result<SavedIndex, SonarError>)
    ensures
        built_and_saved(engine, project, listing.deep_view(), r),
{
    let cache_path = default_cache_path(project.root.as_str());
    let b = SonarIndex::from_path(engine, project);
    assert(built(engine, project, Mode::Hybrid, b));
    let index = match b {
        Ok(index) => index,
        Err(e) => {
            return Err(e);
        },
    };
    let hash = match compute_content_hash(listing) {
        Ok(hash) => hash,
        Err(e) => {
            return Err(e);
        },
    };
    let s = save_index(engine, &index, hash.as_str());
    assert(saved(engine, &index, content_hash(listing.deep_view()), s));
    match s {
        Ok(bytes) => Ok(SavedIndex { index, cache_path, bytes }),
        Err(e) => Err(e),
    }
}

/// An index that came of a project and its cache file.
pub enum CachedIndex {
    /// The index was in the cache file.
    Fresh { index: SonarIndex },
    /// The index was built, and a new cache file is to be written.
    Rebuilt { saved: SavedIndex },
}

impl CachedIndex {
    /// The index, wherever it came from.
    pub open spec fn spec_index(&self) -> SonarIndex {
        match self {
            CachedIndex::Fresh { index } => *index,
            CachedIndex::Rebuilt { saved } => saved.index,
        }
    }
}

/// `r` is what may come of a cache file that was looked at (`checked`), of the walk that follows
/// if the cache is of no use, and of the listing.
pub open spec fn opened<E: Engine, F: FnOnce() -> Project>(
    engine: &E,
    walk: F,
    listing: Seq<(Seq<char>, u64)>,
    checked: Result<Option<SonarIndex>, SonarError>,
    r: Result<CachedIndex, SonarError>,
) -> bool {
    match checked {
        Err(error) => r matches Err(e) && e == error,
        Ok(Some(found)) => r matches Ok(CachedIndex::Fresh { index }) && index == found,
        Ok(None) => exists|project: Project, made: Result<SavedIndex, SonarError>|
            {
                &&& #[trigger] call_ensures(walk, (), project)
                &&& #[trigger] built_and_saved(engine, project, listing, made)
                &&& match made {
                    Err(error) => r matches Err(e) && e == error,
                    Ok(m) => r matches Ok(CachedIndex::Rebuilt { saved }) && saved == m,
                }
            },
    }
}

impl SonarIndex {
    /// Takes the index out of the cache file if it fits the file listing. Otherwise walks the
    /// project, builds the index and the cache file for it.
    pub fn from_path_cached<E: Engine, F: FnOnce() -> Project>(
        engine: &E,
        cache: Option<&[u8]>,
        listing: &Vec<FileStamp>,
        walk: F,
    ) -> (r: Result<CachedIndex, SonarError>)
        requires
            call_requires(walk, ()),
        ensures
            exists|checked: Result<Option<SonarIndex>, SonarError>|
                {
                    &&& #[trigger] cache_checked(engine, cache, listing.deep_view(), checked)
                    &&& opened(engine, walk, listing.deep_view(), checked, r)
                },
    {
        let checked = load_cached(engine, cache, listing);
        assert(cache_checked(engine, cache, listing.deep_view(), checked));
        match checked {
            Err(e) => Err(e),
            Ok(Some(index)) => Ok(CachedIndex::Fresh { index }),
            Ok(None) => {
                let project = walk();
                let made = build_and_save(engine, project, listing);
                assert(built_and_saved(engine, project, listing.deep_view(), made));
                match made {
                    Ok(saved) => Ok(CachedIndex::Rebuilt { saved }),
                    Err(e) => Err(e),
                }
            },
        }
    }
}

} // verus!
