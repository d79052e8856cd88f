//! What reading a cache file gives back of what was written.
use vstd::prelude::*;
#[allow(unused_imports)]
use vstd::utf8::{
    encode_utf8, encode_utf8_decode_utf8, encode_utf8_valid_utf8, is_ascii_chars,
    is_ascii_chars_encode_utf8,
};

#[allow(unused_imports)]
use crate::ann::Flat;
#[allow(unused_imports)]
use crate::codec::{blob, law_blob_read_back, law_u32_read_back, le_u32, split_blob, split_u32};
#[allow(unused_imports)]
use crate::engine::{all_documented, Engine};
#[allow(unused_imports)]
use crate::error::{SonarError, VERSION};
#[allow(unused_imports)]
use crate::groups::{counts, language_keys};
#[allow(unused_imports)]
use crate::index::SonarIndex;
#[allow(unused_imports)]
use crate::persist::{
    body_read, built_and_saved, cache_checked, content_hash, documents_json, hash_shaped,
    header_of, hex_digit, index_bytes, json_documents, loaded, magic, raw_vectors, read_as, restored, saved,
    vector_bytes, vector_section, vectors_in, vectors_of, Body, HeaderFault, HeaderView, SavedIndex,
};
#[allow(unused_imports)]
use crate::types::Chunk;
#[allow(unused_imports)]
use crate::walk::Project;

verus! {

/// All vectors have `dim` components.
pub open spec fn rectangular(vecs: Seq<Seq<u32>>, dim: nat) -> bool {
    forall|i: int| 0 <= i < vecs.len() ==> (#[trigger] vecs[i]).len() == dim
}

/// A vector takes four bytes for each component, and each component stands in its place.
proof fn lemma_vector_bytes(v: Seq<u32>)
    ensures
        vector_bytes(v).len() == 4 * v.len(),
        forall|j: int|
            0 <= j < v.len() ==> #[trigger] vector_bytes(v).subrange(4 * j, 4 * j + 4) == le_u32(
                v[j],
            ),
    decreases v.len(),
{
    if v.len() > 0 {
        let init = v.drop_last();
        lemma_vector_bytes(init);
        law_u32_read_back(v.last(), Seq::empty());
        assert forall|j: int| 0 <= j < v.len() implies #[trigger] vector_bytes(v).subrange(
            4 * j,
            4 * j + 4,
        ) == le_u32(v[j]) by {
            if j < init.len() {
                assert(vector_bytes(v).subrange(4 * j, 4 * j + 4) =~= vector_bytes(init).subrange(
                    4 * j,
                    4 * j + 4,
                ));
                assert(v[j] == init[j]);
            } else {
                assert(vector_bytes(v).subrange(4 * j, 4 * j + 4) =~= le_u32(v.last()));
            }
        }
    }
}

/// The bytes of vectors of one dimension hold each component in its place.
pub proof fn lemma_raw_vectors(vecs: Seq<Seq<u32>>, dim: nat)
    requires
        rectangular(vecs, dim),
    ensures
        raw_vectors(vecs).len() == 4 * (vecs.len() * dim),
        forall|i: int, j: int|
            0 <= i < vecs.len() && 0 <= j < dim ==> #[trigger] raw_vectors(vecs).subrange(
                4 * (i * dim + j),
                4 * (i * dim + j) + 4,
            ) == le_u32(vecs[i][j]),
    decreases vecs.len(),
{
    if vecs.len() == 0 {
        assert(0 * dim == 0) by (nonlinear_arith);
    } else {
        let init = vecs.drop_last();
        let last = vecs.last();
        let n = init.len();
        assert forall|i: int| 0 <= i < n implies (#[trigger] init[i]).len() == dim by {
            assert(init[i] == vecs[i]);
        }
        lemma_raw_vectors(init, dim);
        lemma_vector_bytes(last);
        assert(last == vecs[n as int]);
        assert((n + 1) * dim == n * dim + dim) by (nonlinear_arith);
        let raw = raw_vectors(vecs);
        assert forall|i: int, j: int| 0 <= i < vecs.len() && 0 <= j < dim implies #[trigger] raw.subrange(
            4 * (i * dim + j),
            4 * (i * dim + j) + 4,
        ) == le_u32(vecs[i][j]) by {
            let at = i * dim + j;
            assert(0 <= i * dim) by (nonlinear_arith)
                requires
                    0 <= i,
            ;
            if i < n {
                assert(i * dim + dim <= n * dim) by (nonlinear_arith)
                    requires
                        i + 1 <= n,
                ;
                assert(raw.subrange(4 * at, 4 * at + 4) =~= raw_vectors(init).subrange(
                    4 * at,
                    4 * at + 4,
                ));
                assert(vecs[i] == init[i]);
            } else {
                assert(i == n);
                assert(raw.subrange(4 * at, 4 * at + 4) =~= vector_bytes(last).subrange(
                    4 * j,
                    4 * j + 4,
                ));
            }
        }
    }
}

/// Reading the bytes of vectors of one dimension gives the vectors.
pub proof fn law_vectors_read_back(vecs: Seq<Seq<u32>>, dim: nat)
    requires
        rectangular(vecs, dim),
    ensures
        raw_vectors(vecs).len() == vecs.len() * dim * 4,
        vectors_in(raw_vectors(vecs), vecs.len(), dim) == vecs,
{
    lemma_raw_vectors(vecs, dim);
    let raw = raw_vectors(vecs);
    let read = vectors_in(raw, vecs.len(), dim);
    assert forall|i: int| 0 <= i < vecs.len() implies #[trigger] read[i] == vecs[i] by {
        assert forall|j: int| 0 <= j < dim implies #[trigger] read[i][j] == vecs[i][j] by {
            law_u32_read_back(vecs[i][j], Seq::empty());
            assert(raw.subrange(4 * (i * dim + j), 4 * (i * dim + j) + 4) == le_u32(vecs[i][j]));
        }
        assert(read[i] =~= vecs[i]);
    }
    assert(read =~= vecs);
}

/// The vectors that are read for an index that was saved with `flat`: those of `flat`, or none
/// if it holds none.
pub open spec fn stored_vectors(flat: Option<Flat>) -> Option<Seq<Seq<u32>>> {
    match flat {
        Some(f) if f.spec_vecs().len() > 0 => Some(f.spec_vecs()),
        _ => None,
    }
}

/// The vectors of an index can be stored: there is one for each chunk, and all have one
/// dimension.
pub open spec fn storable(flat: Option<Flat>, count: nat) -> bool {
    flat matches Some(f) ==> f.spec_vecs().len() == 0 || (f.spec_vecs().len() == count
        && rectangular(f.spec_vecs(), f.spec_dim()))
}

/// The bytes of all vectors are fewer than a length field can tell.
pub open spec fn vectors_fit(flat: Option<Flat>) -> bool {
    flat matches Some(f) ==> raw_vectors(f.spec_vecs()).len() < 0x1_0000_0000
}

/// Reading the last part of a cache file gives the vectors that it was written with.
#[verifier::rlimit(30)]
pub proof fn law_vector_section_read_back(flat: Option<Flat>, count: nat)
    requires
        storable(flat, count),
        vectors_fit(flat),
    ensures
        vectors_of(vector_section(flat), count) == Ok::<_, SonarError>(stored_vectors(flat)),
{
    let tail = vector_section(flat);
    match flat {
        Some(f) if f.spec_vecs().len() > 0 => {
            let vecs = f.spec_vecs();
            let dim = f.spec_dim();
            law_vectors_read_back(vecs, dim);
            let raw = raw_vectors(vecs);
            assert(tail.len() == 9 + raw.len());
            assert(dim <= vecs.len() * dim) by (nonlinear_arith)
                requires
                    1 <= vecs.len(),
            ;
            let d = (dim % 0x1_0000_0000) as u32;
            assert(d == dim);
            assert(tail.skip(1) =~= le_u32(d) + blob(raw));
            law_u32_read_back(d, blob(raw));
            law_blob_read_back(raw, Seq::empty());
            assert(blob(raw) + Seq::<u8>::empty() =~= blob(raw));
        },
        _ => {},
    }
}

/// Behind the magic bytes and the version stands the rest.
proof fn lemma_header_start(after: Seq<u8>)
    ensures
        (magic() + le_u32(VERSION) + after).len() >= 4,
        (magic() + le_u32(VERSION) + after).take(4) == magic(),
        split_u32((magic() + le_u32(VERSION) + after).skip(4)) == Some((VERSION, after)),
{
    let data = magic() + le_u32(VERSION) + after;
    assert(data.take(4) =~= magic());
    assert(data.skip(4) =~= le_u32(VERSION) + after);
    law_u32_read_back(VERSION, after);
}

/// Reading the header of a cache file gives what it was written with.
pub proof fn law_header_read_back(hash: Seq<char>, chunks_json: Seq<u8>, rest: Seq<u8>)
    requires
        encode_utf8(hash).len() < 0x1_0000_0000,
        chunks_json.len() < 0x1_0000_0000,
    ensures
        header_of(
            magic() + le_u32(VERSION) + blob(encode_utf8(hash)) + blob(chunks_json) + rest,
        ) == Ok::<_, HeaderFault>(HeaderView { content_hash: hash, chunks_json, rest }),
{
    let text = encode_utf8(hash);
    let data = magic() + le_u32(VERSION) + blob(text) + blob(chunks_json) + rest;
    let after_hash = blob(chunks_json) + rest;
    let after_version = blob(text) + after_hash;
    assert(data =~= magic() + le_u32(VERSION) + after_version);
    lemma_header_start(after_version);
    law_blob_read_back(text, after_hash);
    law_blob_read_back(chunks_json, rest);
    encode_utf8_valid_utf8(hash);
    encode_utf8_decode_utf8(hash);
}

/// What the engine reads out of the JSON form of a chunk list is that list.
pub open spec fn chunks_read_back<E: Engine>(engine: &E, chunks: &Vec<Chunk>) -> bool {
    forall|json: Result<Vec<u8>, String>, copy: Vec<u8>, parsed: Result<Vec<Chunk>, String>|
        {
            &&& #[trigger] call_ensures(E::chunks_to_json, (engine, chunks), json)
            &&& json matches Ok(bytes) && bytes@ == copy@
            &&& #[trigger] call_ensures(E::chunks_from_json, (engine, &copy), parsed)
        } ==> (parsed matches Ok(read) && read.deep_view() == chunks.deep_view())
}

/// `back` is what a saved index becomes when it is loaded: the same chunks, tokens for them, the
/// same vectors, and groups that list the chunks as they are.
pub open spec fn survives<E: Engine>(engine: &E, index: SonarIndex, back: SonarIndex) -> bool {
    &&& back.chunks.deep_view() == index.chunks.deep_view()
    &&& all_documented(engine, index.chunks@, back.bm25.spec_documents())
    &&& back.grouped()
    &&& match stored_vectors(index.flat) {
        None => back.keyword_only(),
        Some(vecs) => {
            &&& back.flat matches Some(flat) && flat.spec_vecs() == vecs
            &&& back.revived(engine)
        },
    }
}

/// Whatever the engine makes of the chunks of an index, the JSON forms and the vectors have fewer
/// bytes than a length field can tell.
pub open spec fn blobs_fit<E: Engine>(engine: &E, index: SonarIndex) -> bool {
    &&& forall|json: Result<Vec<u8>, String>| #[trigger]
        call_ensures(E::chunks_to_json, (engine, &index.chunks), json) ==> (json matches Ok(bytes)
            ==> bytes@.len() < 0x1_0000_0000)
    &&& forall|documents: Seq<Seq<Seq<char>>>| #[trigger]
        all_documented(engine, index.chunks@, documents) ==> documents_json(documents).len()
            < 0x1_0000_0000
    &&& vectors_fit(index.flat)
}

/// A cache file consists of the JSON forms that the engine and `serde_json` gave.
pub proof fn lemma_saved_parts<E: Engine>(
    engine: &E,
    index: SonarIndex,
    hash: Seq<char>,
    bytes: Vec<u8>,
) -> (parts: (Vec<u8>, Seq<Seq<Seq<char>>>))
    requires
        saved(engine, &index, hash, Ok(bytes)),
    ensures
        call_ensures(E::chunks_to_json, (engine, &index.chunks), Ok(parts.0)),
        all_documented(engine, index.chunks@, parts.1),
        json_documents(documents_json(parts.1)) == read_as(parts.1),
        bytes@ == index_bytes(hash, parts.0@, documents_json(parts.1), index.flat),
{
    let json = choose|json: Result<Vec<u8>, String>|
        {
            &&& #[trigger] call_ensures(E::chunks_to_json, (engine, &index.chunks), json)
            &&& match json {
                Err(reason) => false,
                Ok(chunks_json) => exists|documents: Seq<Seq<Seq<char>>>|
                    {
                        &&& #[trigger] all_documented(engine, index.chunks@, documents)
                        &&& json_documents(documents_json(documents)) == read_as(documents)
                        &&& bytes@ == index_bytes(
                            hash,
                            chunks_json@,
                            documents_json(documents),
                            index.flat,
                        )
                    },
            }
        };
    let chunks_json = json->Ok_0;
    let documents = choose|documents: Seq<Seq<Seq<char>>>|
        {
            &&& #[trigger] all_documented(engine, index.chunks@, documents)
            &&& json_documents(documents_json(documents)) == read_as(documents)
            &&& bytes@ == index_bytes(hash, chunks_json@, documents_json(documents), index.flat)
        };
    (chunks_json, documents)
}

/// What a header leads to: the chunks that the engine may read out of it, and what is made of them
/// and of the rest.
pub proof fn lemma_loaded_parts<E: Engine>(
    engine: &E,
    data: Seq<u8>,
    header: HeaderView,
    r: Result<(SonarIndex, String), SonarError>,
) -> (parts: (Vec<u8>, Result<Vec<Chunk>, String>, Result<Body, SonarError>))
    requires
        loaded(engine, data, r),
        header_of(data) == Ok::<_, HeaderFault>(header),
    ensures
        parts.0@ == header.chunks_json,
        call_ensures(E::chunks_from_json, (engine, &parts.0), parts.1),
        match parts.1 {
            Err(_) => r is Err,
            Ok(chunks) => {
                &&& body_read(header.rest, chunks@.len(), parts.2)
                &&& restored(engine, chunks, header.content_hash, parts.2, r)
            },
        },
{
    let (copy, parsed) = choose|copy: Vec<u8>, parsed: Result<Vec<Chunk>, String>|
        {
            &&& copy@ == header.chunks_json
            &&& #[trigger] call_ensures(E::chunks_from_json, (engine, &copy), parsed)
            &&& match parsed {
                Err(reason) => r matches Err(SonarError::ChunksNotParsed { reason: text })
                    && text@ == reason@,
                Ok(chunks) => exists|body: Result<Body, SonarError>|
                    {
                        &&& #[trigger] body_read(header.rest, chunks@.len(), body)
                        &&& restored(engine, chunks, header.content_hash, body, r)
                    },
            }
        };
    let chunks = parsed->Ok_0;
    let body = choose|body: Result<Body, SonarError>|
        {
            &&& #[trigger] body_read(header.rest, chunks@.len(), body)
            &&& restored(engine, chunks, header.content_hash, body, r)
        };
    (copy, parsed, body)
}

/// A saved index loads, with its content hash, its chunks and its vectors. Only blobs of 4 GiB and
/// more are left out: their length fields do not hold their lengths.
#[verifier::rlimit(30)]
pub proof fn law_saved_index_loads<E: Engine>(
    engine: &E,
    index: SonarIndex,
    hash: Seq<char>,
    bytes: Vec<u8>,
    r: Result<(SonarIndex, String), SonarError>,
)
    requires
        saved(engine, &index, hash, Ok(bytes)),
        loaded(engine, bytes@, r),
        encode_utf8(hash).len() < 0x1_0000_0000,
        blobs_fit(engine, index),
        storable(index.flat, index.chunks@.len()),
        chunks_read_back(engine, &index.chunks),
    ensures
        r matches Ok((back, stored)) && stored@ == hash && survives(engine, index, back),
{
    let (chunks_json, documents) = lemma_saved_parts(engine, index, hash, bytes);
    let stored_documents = documents_json(documents);
    let tail = vector_section(index.flat);
    let rest = blob(stored_documents) + tail;
    assert(bytes@ =~= magic() + le_u32(VERSION) + blob(encode_utf8(hash)) + blob(chunks_json@)
        + rest);
    law_header_read_back(hash, chunks_json@, rest);
    law_blob_read_back(stored_documents, tail);
    let header = HeaderView { content_hash: hash, chunks_json: chunks_json@, rest };
    let (copy, parsed, body) = lemma_loaded_parts(engine, bytes@, header, r);
    assert(parsed is Ok);
    let chunks = parsed->Ok_0;
    assert(chunks.deep_view().len() == chunks@.len());
    assert(index.chunks.deep_view().len() == index.chunks@.len());
    law_vector_section_read_back(index.flat, chunks@.len());
}

/// Cutting the bytes behind a blob leaves the blob; cutting the blob itself makes it unreadable.
proof fn lemma_cut_blob(data: Seq<u8>, rest: Seq<u8>, k: int)
    requires
        data.len() < 0x1_0000_0000,
        0 <= k <= 4 + data.len() + rest.len(),
    ensures
        k < 4 + data.len() ==> split_blob((blob(data) + rest).take(k)) is None,
        k >= 4 + data.len() ==> split_blob((blob(data) + rest).take(k)) == Some(
            (data, rest.take(k - 4 - data.len())),
        ),
{
    let n = (data.len() % 0x1_0000_0000) as u32;
    let s = (blob(data) + rest).take(k);
    law_u32_read_back(n, Seq::empty());
    if k >= 4 {
        assert(s.take(4) =~= le_u32(n));
        assert(s.skip(4) =~= (data + rest).take(k - 4));
        if k >= 4 + data.len() {
            assert(s =~= blob(data) + rest.take(k - 4 - data.len()));
            law_blob_read_back(data, rest.take(k - 4 - data.len()));
        }
    }
}

/// A header that was cut short is refused.
#[verifier::rlimit(30)]
proof fn lemma_cut_header(hash: Seq<char>, chunks_json: Seq<u8>, k: int)
    requires
        encode_utf8(hash).len() < 0x1_0000_0000,
        chunks_json.len() < 0x1_0000_0000,
        0 <= k < 16 + encode_utf8(hash).len() + chunks_json.len(),
    ensures
        header_of(
            (magic() + le_u32(VERSION) + blob(encode_utf8(hash)) + blob(chunks_json)).take(k),
        ) is Err,
{
    let text = encode_utf8(hash);
    let data = (magic() + le_u32(VERSION) + blob(text) + blob(chunks_json)).take(k);
    if k < 4 {
        assert(data.len() < 4);
    } else if k < 8 {
        assert(data.skip(4).len() < 4);
        assert(split_u32(data.skip(4)) is None);
    } else {
        let after_version = (blob(text) + blob(chunks_json)).take(k - 8);
        assert(data =~= magic() + le_u32(VERSION) + after_version);
        lemma_header_start(after_version);
        lemma_cut_blob_pair(text, chunks_json, k - 8);
    }
}

/// Of two blobs that were cut short the first or the second is unreadable.
proof fn lemma_cut_blob_pair(first: Seq<u8>, second: Seq<u8>, k: int)
    requires
        first.len() < 0x1_0000_0000,
        second.len() < 0x1_0000_0000,
        0 <= k < 8 + first.len() + second.len(),
    ensures
        match split_blob((blob(first) + blob(second)).take(k)) {
            None => true,
            Some((_, rest)) => split_blob(rest) is None,
        },
{
    lemma_cut_blob(first, blob(second), k);
    if k >= 4 + first.len() {
        assert(blob(second) + Seq::<u8>::empty() =~= blob(second));
        lemma_cut_blob(second, Seq::empty(), k - 4 - first.len());
    }
}

/// Of a vector section that was cut short nothing is left, or it is refused.
proof fn lemma_cut_vector_section(flat: Option<Flat>, count: nat, k: int)
    requires
        vectors_fit(flat),
        0 <= k < vector_section(flat).len(),
    ensures
        k == 0 ==> vectors_of(vector_section(flat).take(k), count) == Ok::<_, SonarError>(
            None::<Seq<Seq<u32>>>,
        ),
        k > 0 ==> vectors_of(vector_section(flat).take(k), count) is Err,
{
    let tail = vector_section(flat).take(k);
    if k > 0 {
        let f = flat->Some_0;
        let raw = raw_vectors(f.spec_vecs());
        let d = (f.spec_dim() % 0x1_0000_0000) as u32;
        if k >= 5 {
            assert(tail.skip(1) =~= le_u32(d) + blob(raw).take(k - 5));
            law_u32_read_back(d, blob(raw).take(k - 5));
            assert(blob(raw) + Seq::<u8>::empty() =~= blob(raw));
            lemma_cut_blob(raw, Seq::empty(), k - 5);
        }
    }
}

/// What a cache file that was cut short has for a header: all of it, or nothing.
proof fn lemma_cut_index(
    hash: Seq<char>,
    chunks_json: Seq<u8>,
    documents: Seq<u8>,
    flat: Option<Flat>,
    k: int,
)
    requires
        encode_utf8(hash).len() < 0x1_0000_0000,
        chunks_json.len() < 0x1_0000_0000,
        0 <= k <= index_bytes(hash, chunks_json, documents, flat).len(),
    ensures
        ({
            let bytes = index_bytes(hash, chunks_json, documents, flat);
            let head = 16 + encode_utf8(hash).len() + chunks_json.len();
            let rest = blob(documents) + vector_section(flat);
            &&& bytes.len() == head + rest.len()
            &&& k < head ==> header_of(bytes.take(k)) is Err
            &&& k >= head ==> header_of(bytes.take(k)) == Ok::<_, HeaderFault>(
                HeaderView { content_hash: hash, chunks_json, rest: rest.take(k - head) },
            )
        }),
{
    let bytes = index_bytes(hash, chunks_json, documents, flat);
    let rest = blob(documents) + vector_section(flat);
    let text = encode_utf8(hash);
    let head = magic() + le_u32(VERSION) + blob(text) + blob(chunks_json);
    assert(bytes =~= head + rest);
    assert(head.len() == 16 + text.len() + chunks_json.len());
    if k < head.len() {
        assert(bytes.take(k) =~= head.take(k));
        lemma_cut_header(hash, chunks_json, k);
    } else {
        let j = k - head.len();
        assert(bytes.take(k) =~= head + rest.take(j));
        law_header_read_back(hash, chunks_json, rest.take(j));
    }
}

/// What follows the chunks in a cache file that was cut short is refused, unless the cut is right
/// in front of the vector section.
proof fn lemma_cut_body(
    documents: Seq<u8>,
    flat: Option<Flat>,
    count: nat,
    j: int,
    r: Result<Body, SonarError>,
)
    requires
        documents.len() < 0x1_0000_0000,
        vectors_fit(flat),
        0 <= j < 4 + documents.len() + vector_section(flat).len(),
        body_read((blob(documents) + vector_section(flat)).take(j), count, r),
    ensures
        j != 4 + documents.len() ==> r is Err,
        j == 4 + documents.len() ==> match json_documents(documents) {
            Err(_) => r is Err,
            Ok(read) => r matches Ok(body) && body.documents.deep_view() == read && body.vectors is None,
        },
{
    let tail = vector_section(flat);
    lemma_cut_blob(documents, tail, j);
    if j >= 4 + documents.len() {
        lemma_cut_vector_section(flat, count, j - 4 - documents.len());
    }
}

/// What becomes of a cache file that was cut behind the header.
proof fn lemma_cut_load<E: Engine>(
    engine: &E,
    data: Seq<u8>,
    header: HeaderView,
    documents: Seq<u8>,
    flat: Option<Flat>,
    j: int,
    r: Result<(SonarIndex, String), SonarError>,
) -> (copy: (Vec<u8>, Result<Vec<Chunk>, String>))
    requires
        loaded(engine, data, r),
        header_of(data) == Ok::<_, HeaderFault>(header),
        header.rest == (blob(documents) + vector_section(flat)).take(j),
        documents.len() < 0x1_0000_0000,
        vectors_fit(flat),
        0 <= j < 4 + documents.len() + vector_section(flat).len(),
    ensures
        j != 4 + documents.len() ==> r is Err,
        copy.0@ == header.chunks_json,
        call_ensures(E::chunks_from_json, (engine, &copy.0), copy.1),
        j == 4 + documents.len() && copy.1 is Ok ==> match json_documents(documents) {
            Err(_) => r is Err,
            Ok(read) => {
                &&& r matches Ok((back, stored))
                &&& stored@ == header.content_hash
                &&& back.chunks == copy.1->Ok_0
                &&& back.bm25.spec_documents() == read
                &&& back.grouped()
                &&& back.keyword_only()
            },
        },
{
    let (copy, parsed, body) = lemma_loaded_parts(engine, data, header, r);
    if parsed is Ok {
        lemma_cut_body(documents, flat, parsed->Ok_0@.len(), j, body);
    }
    (copy, parsed)
}

/// A cache file that was cut short never loads as a shorter index: it is refused wherever it is
/// cut, except right in front of the vector section. Of an index without vectors that section is
/// the last byte.
#[verifier::rlimit(30)]
pub proof fn law_cut_file_is_refused<E: Engine>(
    engine: &E,
    index: SonarIndex,
    hash: Seq<char>,
    bytes: Vec<u8>,
    k: int,
    r: Result<(SonarIndex, String), SonarError>,
)
    requires
        saved(engine, &index, hash, Ok(bytes)),
        0 <= k < bytes@.len(),
        k != bytes@.len() - vector_section(index.flat).len(),
        loaded(engine, bytes@.take(k), r),
        encode_utf8(hash).len() < 0x1_0000_0000,
        blobs_fit(engine, index),
    ensures
        r is Err,
        stored_vectors(index.flat) is None ==> vector_section(index.flat).len() == 1,
{
    let (chunks_json, documents) = lemma_saved_parts(engine, index, hash, bytes);
    let stored_documents = documents_json(documents);
    let head = 16 + encode_utf8(hash).len() + chunks_json@.len();
    lemma_cut_index(hash, chunks_json@, stored_documents, index.flat, k);
    if k >= head {
        let header = HeaderView {
            content_hash: hash,
            chunks_json: chunks_json@,
            rest: (blob(stored_documents) + vector_section(index.flat)).take(k - head),
        };
        lemma_cut_load(
            engine,
            bytes@.take(k),
            header,
            stored_documents,
            index.flat,
            k - head,
            r,
        );
    }
}

/// The number of bytes of a cache file.
proof fn lemma_index_length(
    hash: Seq<char>,
    chunks_json: Seq<u8>,
    documents: Seq<u8>,
    flat: Option<Flat>,
)
    ensures
        index_bytes(hash, chunks_json, documents, flat).len() == 20 + encode_utf8(hash).len()
            + chunks_json.len() + documents.len() + vector_section(flat).len(),
{
}

/// What becomes of a cache file without its vector section.
#[verifier::rlimit(50)]
proof fn lemma_load_without_section<E: Engine>(
    engine: &E,
    hash: Seq<char>,
    chunks_json: Seq<u8>,
    documents: Seq<u8>,
    flat: Option<Flat>,
    data: Seq<u8>,
    r: Result<(SonarIndex, String), SonarError>,
) -> (copy: (Vec<u8>, Result<Vec<Chunk>, String>))
    requires
        loaded(engine, data, r),
        data == index_bytes(hash, chunks_json, documents, flat).take(
            20 + encode_utf8(hash).len() as int + chunks_json.len() + documents.len(),
        ),
        encode_utf8(hash).len() < 0x1_0000_0000,
        chunks_json.len() < 0x1_0000_0000,
        documents.len() < 0x1_0000_0000,
        vectors_fit(flat),
    ensures
        copy.0@ == chunks_json,
        call_ensures(E::chunks_from_json, (engine, &copy.0), copy.1),
        copy.1 is Ok ==> match json_documents(documents) {
            Err(_) => r is Err,
            Ok(read) => {
                &&& r matches Ok((back, stored))
                &&& stored@ == hash
                &&& back.chunks == copy.1->Ok_0
                &&& back.bm25.spec_documents() == read
                &&& back.grouped()
                &&& back.keyword_only()
            },
        },
{
    let tail = vector_section(flat);
    let head = 16 + encode_utf8(hash).len() as int + chunks_json.len();
    let j = 4 + documents.len() as int;
    let header = HeaderView {
        content_hash: hash,
        chunks_json,
        rest: (blob(documents) + tail).take(j),
    };
    assert(header_of(data) == Ok::<_, HeaderFault>(header)) by {
        lemma_index_length(hash, chunks_json, documents, flat);
        lemma_cut_index(hash, chunks_json, documents, flat, head + j);
    }
    assert(tail.len() > 0);
    lemma_cut_load(engine, data, header, documents, flat, j, r)
}

/// A cache file without its vector section loads with the same hash and chunks, without vectors.
/// Of an index without vectors that section is the last byte, so nothing is lost.
#[verifier::rlimit(30)]
pub proof fn law_file_without_vector_section_loads<E: Engine>(
    engine: &E,
    index: SonarIndex,
    hash: Seq<char>,
    bytes: Vec<u8>,
    r: Result<(SonarIndex, String), SonarError>,
)
    requires
        saved(engine, &index, hash, Ok(bytes)),
        loaded(engine, bytes@.take(bytes@.len() - vector_section(index.flat).len()), r),
        encode_utf8(hash).len() < 0x1_0000_0000,
        blobs_fit(engine, index),
        chunks_read_back(engine, &index.chunks),
    ensures
        r matches Ok((back, stored)) && stored@ == hash && back.chunks.deep_view()
            == index.chunks.deep_view() && all_documented(
            engine,
            index.chunks@,
            back.bm25.spec_documents(),
        ) && back.grouped() && back.keyword_only(),
        stored_vectors(index.flat) is None ==> vector_section(index.flat).len() == 1,
        stored_vectors(index.flat) is None ==> (r matches Ok((back, _)) && survives(
            engine,
            index,
            back,
        )),
{
    let (chunks_json, documents) = lemma_saved_parts(engine, index, hash, bytes);
    let stored_documents = documents_json(documents);
    lemma_index_length(hash, chunks_json@, stored_documents, index.flat);
    let (copy, parsed) = lemma_load_without_section(
        engine,
        hash,
        chunks_json@,
        stored_documents,
        index.flat,
        bytes@.take(bytes@.len() - vector_section(index.flat).len()),
        r,
    );
    assert(parsed matches Ok(read) && read.deep_view() == index.chunks.deep_view());
}

/// The bytes of a content hash are few.
proof fn lemma_hash_fits(hash: Seq<char>)
    requires
        hash_shaped(hash),
    ensures
        encode_utf8(hash).len() == 64,
{
    assert(is_ascii_chars(hash)) by {
        assert forall|i: int| 0 <= i < hash.len() implies '\0' <= #[trigger] hash[i] <= '\u{7f}' by {
            assert(hex_digit(hash[i]));
        }
    }
    is_ascii_chars_encode_utf8(hash);
}

/// A cache file is used for the listing under whose hash it was saved: the index in it is the one
/// that was saved.
pub proof fn law_fresh_cache_is_used<E: Engine>(
    engine: &E,
    index: SonarIndex,
    listing: Seq<(Seq<char>, u64)>,
    bytes: Vec<u8>,
    cache: Option<&[u8]>,
    r: Result<Option<SonarIndex>, SonarError>,
)
    requires
        saved(engine, &index, content_hash(listing), Ok(bytes)),
        hash_shaped(content_hash(listing)),
        cache matches Some(data) && data@ == bytes@,
        cache_checked(engine, cache, listing, r),
        blobs_fit(engine, index),
        storable(index.flat, index.chunks@.len()),
        chunks_read_back(engine, &index.chunks),
    ensures
        r matches Ok(Some(back)) && survives(engine, index, back),
{
    lemma_saved_cache(engine, index, listing, bytes, cache, listing, r);
}

/// A cache file that was made with an index is used for the listing that it was made of.
pub proof fn law_built_cache_is_used<E: Engine>(
    engine: &E,
    project: Project,
    listing: Seq<(Seq<char>, u64)>,
    made: SavedIndex,
    cache: Option<&[u8]>,
    r: Result<Option<SonarIndex>, SonarError>,
)
    requires
        built_and_saved(engine, project, listing, Ok(made)),
        cache matches Some(data) && data@ == made.bytes@,
        cache_checked(engine, cache, listing, r),
        blobs_fit(engine, made.index),
        storable(made.index.flat, made.index.chunks@.len()),
        chunks_read_back(engine, &made.index.chunks),
    ensures
        r matches Ok(Some(back)) && survives(engine, made.index, back),
{
    assert(saved(engine, &made.index, content_hash(listing), Ok(made.bytes)));
    law_fresh_cache_is_used(engine, made.index, listing, made.bytes, cache, r);
}

/// A cache file is of no use for a listing with another hash.
pub proof fn law_stale_cache_is_not_used<E: Engine>(
    engine: &E,
    index: SonarIndex,
    listing: Seq<(Seq<char>, u64)>,
    bytes: Vec<u8>,
    cache: Option<&[u8]>,
    current: Seq<(Seq<char>, u64)>,
    r: Result<Option<SonarIndex>, SonarError>,
)
    requires
        saved(engine, &index, content_hash(listing), Ok(bytes)),
        hash_shaped(content_hash(listing)),
        cache matches Some(data) && data@ == bytes@,
        cache_checked(engine, cache, current, r),
        content_hash(current) != content_hash(listing),
        blobs_fit(engine, index),
        storable(index.flat, index.chunks@.len()),
        chunks_read_back(engine, &index.chunks),
    ensures
        r matches Ok(None),
{
    lemma_saved_cache(engine, index, listing, bytes, cache, current, r);
}

/// A cache file that was saved under the hash of `listing` loads with that hash.
proof fn lemma_saved_cache<E: Engine>(
    engine: &E,
    index: SonarIndex,
    listing: Seq<(Seq<char>, u64)>,
    bytes: Vec<u8>,
    cache: Option<&[u8]>,
    current: Seq<(Seq<char>, u64)>,
    r: Result<Option<SonarIndex>, SonarError>,
) -> (l: (SonarIndex, String))
    requires
        saved(engine, &index, content_hash(listing), Ok(bytes)),
        hash_shaped(content_hash(listing)),
        cache matches Some(data) && data@ == bytes@,
        cache_checked(engine, cache, current, r),
        blobs_fit(engine, index),
        storable(index.flat, index.chunks@.len()),
        chunks_read_back(engine, &index.chunks),
    ensures
        l.1@ == content_hash(listing),
        survives(engine, index, l.0),
        if content_hash(current) == content_hash(listing) {
            r matches Ok(Some(found)) && found == l.0
        } else {
            r matches Ok(None)
        },
{
    let hash = content_hash(listing);
    let data = cache->Some_0;
    let l = choose|l: Result<(SonarIndex, String), SonarError>|
        {
            &&& #[trigger] loaded(engine, data@, l)
            &&& match l {
                Err(error) => r matches Err(e) && e == error,
                Ok((found, stored)) => if stored@ == content_hash(current) {
                    r matches Ok(Some(f)) && f == found
                } else {
                    r matches Ok(None)
                },
            }
        };
    lemma_hash_fits(hash);
    law_saved_index_loads(engine, index, hash, bytes, l);
    l->Ok_0
}

/// The groups of a saved index survive, and so do the statistics that are made of them.
pub proof fn law_groups_survive<E: Engine>(engine: &E, index: SonarIndex, back: SonarIndex)
    requires
        index.grouped(),
        survives(engine, index, back),
    ensures
        back.file_mapping@ == index.file_mapping@,
        back.language_mapping@ == index.language_mapping@,
        back.chunks@.len() == index.chunks@.len(),
        counts(language_keys(back.chunks.deep_view())) == counts(
            language_keys(index.chunks.deep_view()),
        ),
{
    assert(back.chunks.deep_view().len() == back.chunks@.len());
    assert(index.chunks.deep_view().len() == index.chunks@.len());
}

} // verus!
