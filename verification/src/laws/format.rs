//! What stands where in a cache file, and what is made of it.
use vstd::prelude::*;
#[allow(unused_imports)]
use vstd::utf8::{decode_utf8, encode_utf8, valid_utf8};

#[allow(unused_imports)]
use crate::ann::Flat;
#[allow(unused_imports)]
use crate::codec::{blob, le_u32, split_blob, split_u32, u32_of_le};
#[allow(unused_imports)]
use crate::engine::Engine;
#[allow(unused_imports)]
use crate::error::{error_text, SonarError};
#[allow(unused_imports)]
use crate::index::{built, Mode, SonarIndex};
#[allow(unused_imports)]
use crate::laws::building::{law_documents, split_into};
#[allow(unused_imports)]
use crate::laws::order::{law_four_bytes, number};
#[allow(unused_imports)]
use crate::persist::{
    body_read, built_and_saved, cache_checked, cache_path, content_hash, documents_json, flat_value,
    header_of, index_bytes, json_documents, loaded, magic, opened, raw_vectors, read_as, saved,
    vector_section, vectors_in, vectors_of, Body, CachedIndex, HeaderFault, HeaderView, SavedIndex,
};
#[allow(unused_imports)]
use crate::roundtrip::{
    blobs_fit, chunks_read_back, law_saved_index_loads, lemma_loaded_parts, lemma_raw_vectors,
    lemma_saved_parts, rectangular, storable,
};
#[allow(unused_imports)]
use crate::text::decimal;
#[allow(unused_imports)]
use crate::types::Chunk;
#[allow(unused_imports)]
use crate::walk::Project;

verus! {

/// `data` stands at `at`, behind four bytes for its length.
pub open spec fn blob_at(file: Seq<u8>, at: int, data: Seq<u8>) -> bool {
    &&& 0 <= at
    &&& at + 4 + data.len() <= file.len()
    &&& number(file.skip(at)) == data.len() % 4294967296
    &&& file.subrange(at + 4, at + 4 + data.len()) == data
}

/// Behind its length, in four bytes, a blob holds its data.
pub proof fn law_blob(data: Seq<u8>)
    ensures
        blob(data).len() == 4 + data.len(),
        blob_at(blob(data), 0, data),
{
    let n = (data.len() % 0x1_0000_0000) as u32;
    law_four_bytes(n);
    assert(blob(data).skip(0) =~= blob(data));
    assert(blob(data).subrange(4, 4 + data.len() as int) =~= data);
}

/// Reading an integer takes the number of the first four bytes off, if there are four.
pub proof fn law_split_number(s: Seq<u8>)
    ensures
        split_u32(s) is None <==> s.len() < 4,
        split_u32(s) matches Some((v, rest)) ==> v == number(s) && rest == s.skip(4),
{
    if s.len() >= 4 {
        let t = s.take(4);
        assert(t[0] == s[0] && t[1] == s[1] && t[2] == s[2] && t[3] == s[3]);
    }
}

/// Reading a blob takes off a length and as many bytes, if they are there.
pub proof fn law_split_blob(s: Seq<u8>)
    ensures
        split_blob(s) is None <==> s.len() < 4 || s.len() < 4 + number(s),
        split_blob(s) matches Some((data, rest)) ==> data == s.subrange(4, 4 + number(s)) && rest
            == s.skip(4 + number(s)),
{
    law_split_number(s);
    if s.len() >= 4 && s.len() >= 4 + number(s) {
        let n = number(s);
        assert(s.skip(4).take(n) =~= s.subrange(4, 4 + n));
        assert(s.skip(4).skip(n) =~= s.skip(4 + n));
    }
}

proof fn lemma_blob_between(before: Seq<u8>, data: Seq<u8>, after: Seq<u8>)
    ensures
        blob_at(before + blob(data) + after, before.len() as int, data),
{
    let file = before + blob(data) + after;
    let at = before.len() as int;
    law_blob(data);
    assert(file.skip(at) =~= blob(data) + after);
    assert(number(file.skip(at)) == number(blob(data)));
    assert(blob(data).skip(0) =~= blob(data));
    assert(file.subrange(at + 4, at + 4 + data.len()) =~= data);
}

/// A cache file starts with `SONR` and the version, and holds the hash, the chunks and the documents
/// behind them.
pub proof fn law_cache_file(
    hash: Seq<char>,
    chunks_json: Seq<u8>,
    documents: Seq<u8>,
    flat: Option<Flat>,
)
    ensures
        ({
            let file = index_bytes(hash, chunks_json, documents, flat);
            let text = encode_utf8(hash);
            &&& file.len() > 8
            &&& file[0] == 'S' as u8 && file[1] == 'O' as u8 && file[2] == 'N' as u8 && file[3]
                == 'R' as u8
            &&& number(file.skip(4)) == 2
            &&& blob_at(file, 8, text)
            &&& blob_at(file, 12 + text.len() as int, chunks_json)
            &&& blob_at(file, 16 + text.len() as int + chunks_json.len(), documents)
        }),
{
    let file = index_bytes(hash, chunks_json, documents, flat);
    let text = encode_utf8(hash);
    let tail = vector_section(flat);
    let start = magic() + le_u32(2);
    let second = start + blob(text);
    let third = second + blob(chunks_json);
    law_four_bytes(2);
    assert(start.len() == 8);
    assert(blob_at(file, 8, text)) by {
        let after = blob(chunks_json) + blob(documents) + tail;
        assert(file =~= start + blob(text) + after);
        lemma_blob_between(start, text, after);
    }
    assert(blob_at(file, 12 + text.len() as int, chunks_json)) by {
        let after = blob(documents) + tail;
        assert(file =~= second + blob(chunks_json) + after);
        lemma_blob_between(second, chunks_json, after);
    }
    assert(blob_at(file, 16 + text.len() as int + chunks_json.len(), documents)) by {
        assert(file =~= third + blob(documents) + tail);
        lemma_blob_between(third, documents, tail);
    }
    assert(number(file.skip(4)) == 2) by {
        let s = file.skip(4);
        let v = le_u32(2);
        assert(s[0] == v[0] && s[1] == v[1] && s[2] == v[2] && s[3] == v[3]);
    }
}

/// Behind the documents of a cache file one byte tells whether vectors follow. If so, their dimension
/// and their bytes come next, and the file ends with them.
pub proof fn law_cache_file_vectors(
    hash: Seq<char>,
    chunks_json: Seq<u8>,
    documents: Seq<u8>,
    flat: Option<Flat>,
)
    ensures
        ({
            let file = index_bytes(hash, chunks_json, documents, flat);
            let flag: int = 20 + encode_utf8(hash).len() as int + chunks_json.len()
                + documents.len();
            &&& file.len() > flag
            &&& match flat {
                Some(f) => if f.spec_vecs().len() > 0 {
                    &&& file[flag] == 1
                    &&& number(file.skip(flag + 1)) == f.spec_vecs()[0].len() % 4294967296
                    &&& blob_at(file, flag + 5, raw_vectors(f.spec_vecs()))
                    &&& file.len() == flag + 9 + raw_vectors(f.spec_vecs()).len()
                } else {
                    file[flag] == 0 && file.len() == flag + 1
                },
                None => file[flag] == 0 && file.len() == flag + 1,
            }
        }),
{
    let file = index_bytes(hash, chunks_json, documents, flat);
    let tail = vector_section(flat);
    let head = magic() + le_u32(2) + blob(encode_utf8(hash)) + blob(chunks_json) + blob(documents);
    let flag = head.len() as int;
    law_four_bytes(2);
    assert(file == head + tail);
    assert(file[flag] == tail[0]);
    lemma_vector_section_parts(head, flat);
}

proof fn lemma_vector_section_parts(head: Seq<u8>, flat: Option<Flat>)
    ensures
        flat matches Some(f) ==> f.spec_vecs().len() > 0 ==> {
            let file = head + vector_section(flat);
            let flag = head.len() as int;
            &&& number(file.skip(flag + 1)) == f.spec_vecs()[0].len() % 4294967296
            &&& blob_at(file, flag + 5, raw_vectors(f.spec_vecs()))
            &&& file.len() == flag + 9 + raw_vectors(f.spec_vecs()).len()
        },
{
    if let Some(f) = flat {
        if f.spec_vecs().len() > 0 {
            let file = head + vector_section(flat);
            let flag = head.len() as int;
            let d = (f.spec_dim() % 0x1_0000_0000) as u32;
            let v = le_u32(d);
            let raw = raw_vectors(f.spec_vecs());
            law_four_bytes(d);
            let before = head + seq![1u8] + v;
            assert(file =~= before + blob(raw) + Seq::<u8>::empty());
            lemma_blob_between(before, raw, Seq::empty());
            let s = file.skip(flag + 1);
            assert(s[0] == v[0] && s[1] == v[1] && s[2] == v[2] && s[3] == v[3]);
        }
    }
}

/// In the bytes of vectors of one dimension each component stands in its place, row by row.
pub proof fn law_vector_bytes(vecs: Seq<Seq<u32>>, dim: nat, i: int, j: int)
    requires
        forall|k: int| 0 <= k < vecs.len() ==> (#[trigger] vecs[k]).len() == dim,
        0 <= i < vecs.len(),
        0 <= j < dim,
    ensures
        raw_vectors(vecs).len() == 4 * (vecs.len() * dim),
        number(raw_vectors(vecs).subrange(4 * (i * dim + j), 4 * (i * dim + j) + 4)) == vecs[i][j],
{
    assert(rectangular(vecs, dim));
    lemma_raw_vectors(vecs, dim);
    law_four_bytes(vecs[i][j]);
}

/// Vectors are read row by row, each component from its place.
pub proof fn law_vectors_in_bytes(raw: Seq<u8>, count: nat, dim: nat, i: int, j: int)
    requires
        raw.len() == 4 * (count * dim),
        0 <= i < count,
        0 <= j < dim,
    ensures
        vectors_in(raw, count, dim).len() == count,
        vectors_in(raw, count, dim)[i].len() == dim,
        vectors_in(raw, count, dim)[i][j] == number(
            raw.subrange(4 * (i * dim + j), 4 * (i * dim + j) + 4),
        ),
{
    let at = 4 * (i * dim + j);
    assert(0 <= i * dim) by (nonlinear_arith)
        requires
            0 <= i,
    ;
    assert(i * dim + dim <= count * dim) by (nonlinear_arith)
        requires
            i + 1 <= count,
    ;
    let s = raw.subrange(at, at + 4);
    assert(s.len() == 4);
    assert(vectors_in(raw, count, dim)[i][j] == u32_of_le(s));
}

/// A file has a readable header exactly if it starts with `SONR` and the version, followed by a hash
/// in UTF-8 and the chunks, each behind its length. These are what is read.
pub proof fn law_header(file: Seq<u8>)
    ensures
        ({
            let hash_end = 12 + number(file.skip(8));
            let chunks_end = hash_end + 4 + number(file.skip(hash_end));
            let good = {
                &&& file.len() >= 12
                &&& file[0] == 'S' as u8 && file[1] == 'O' as u8 && file[2] == 'N' as u8 && file[3]
                    == 'R' as u8
                &&& number(file.skip(4)) == 2
                &&& file.len() >= hash_end
                &&& valid_utf8(file.subrange(12, hash_end))
                &&& file.len() >= hash_end + 4
                &&& file.len() >= chunks_end
            };
            &&& header_of(file) is Ok <==> good
            &&& header_of(file) matches Ok(header) ==> {
                &&& header.content_hash == decode_utf8(file.subrange(12, hash_end))
                &&& header.chunks_json == file.subrange(hash_end + 4, chunks_end)
                &&& header.rest == file.skip(chunks_end)
            }
        }),
        file.len() < 4 <==> header_of(file) == Err::<HeaderView, _>(HeaderFault::MagicTruncated),
        file.len() >= 4 && (file[0] != 'S' as u8 || file[1] != 'O' as u8 || file[2] != 'N' as u8
            || file[3] != 'R' as u8) ==> header_of(file) == Err::<HeaderView, _>(
            HeaderFault::InvalidMagic { bytes: (file[0], file[1], file[2], file[3]) },
        ),
        file.len() >= 8 && file[0] == 'S' as u8 && file[1] == 'O' as u8 && file[2] == 'N' as u8
            && file[3] == 'R' as u8 && number(file.skip(4)) != 2 ==> header_of(file) == Err::<
            HeaderView,
            _,
        >(HeaderFault::UnsupportedVersion { version: number(file.skip(4)) as u32 }),
{
    if file.len() >= 4 {
        let t = file.take(4);
        assert(t[0] == file[0] && t[1] == file[1] && t[2] == file[2] && t[3] == file[3]);
        if t[0] == 'S' as u8 && t[1] == 'O' as u8 && t[2] == 'N' as u8 && t[3] == 'R' as u8 {
            assert(t =~= magic());
            let a = file.skip(4);
            law_split_number(a);
            if a.len() >= 4 {
                let b = a.skip(4);
                assert(b =~= file.skip(8));
                law_split_blob(b);
                if b.len() >= 4 && b.len() >= 4 + number(b) {
                    let n = number(b);
                    assert(b.subrange(4, 4 + n) =~= file.subrange(12, 12 + n));
                    let c = b.skip(4 + n);
                    assert(c =~= file.skip(12 + n));
                    law_split_blob(c);
                    if c.len() >= 4 && c.len() >= 4 + number(c) {
                        let m = number(c);
                        assert(c.subrange(4, 4 + m) =~= file.subrange(16 + n, 16 + n + m));
                        assert(c.skip(4 + m) =~= file.skip(16 + n + m));
                    }
                }
            }
        } else {
            assert(magic()[0] == 'S' as u8 && magic()[1] == 'O' as u8 && magic()[2] == 'N' as u8
                && magic()[3] == 'R' as u8);
        }
    }
}

/// Vectors are read exactly if the section starts with 1; the bytes behind the dimension and their
/// length must be those of one vector for each chunk.
pub proof fn law_vector_section(tail: Seq<u8>, count: nat)
    ensures
        tail.len() == 0 || tail[0] != 1 ==> vectors_of(tail, count) == Ok::<_, SonarError>(
            None::<Seq<Seq<u32>>>,
        ),
        tail.len() > 0 && tail[0] == 1 ==> {
            let dim = number(tail.skip(1));
            let size = number(tail.skip(5));
            let whole = tail.len() >= 9 && tail.len() >= 9 + size;
            &&& !whole ==> vectors_of(tail, count) == Err::<Option<Seq<Seq<u32>>>, _>(
                SonarError::Truncated,
            )
            &&& whole && size != count * dim * 4 ==> vectors_of(tail, count) is Err
            &&& whole && size == count * dim * 4 ==> vectors_of(tail, count) == Ok::<_, SonarError>(
                Some(vectors_in(tail.subrange(9, 9 + size), count, dim as nat)),
            )
        },
{
    if tail.len() > 0 && tail[0] == 1 {
        let a = tail.skip(1);
        law_split_number(a);
        if a.len() >= 4 {
            let b = a.skip(4);
            assert(b =~= tail.skip(5));
            law_split_blob(b);
            if b.len() >= 4 && b.len() >= 4 + number(b) {
                let n = number(b);
                assert(b.subrange(4, 4 + n) =~= tail.subrange(9, 9 + n));
            }
        }
    }
}

/// A file that loads gives the hash of its header, the chunks that the engine reads out of it, the
/// documents that stand behind them, and groups that list the chunks.
pub proof fn law_loaded_file<E: Engine>(
    engine: &E,
    file: Seq<u8>,
    header: HeaderView,
    index: SonarIndex,
    hash: String,
)
    requires
        loaded(engine, file, Ok((index, hash))),
        header_of(file) == Ok::<_, HeaderFault>(header),
    ensures
        hash@ == header.content_hash,
        exists|copy: Vec<u8>|
            copy@ == header.chunks_json && #[trigger] call_ensures(
                E::chunks_from_json,
                (engine, &copy),
                Ok(index.chunks),
            ),
        header.rest.len() >= 4 + number(header.rest),
        json_documents(header.rest.subrange(4, 4 + number(header.rest))) == read_as(
            index.bm25.spec_documents(),
        ),
        index.grouped(),
        ({
            let tail = header.rest.skip(4 + number(header.rest));
            if tail.len() > 0 && tail[0] == 1 {
                &&& vectors_of(tail, index.chunks@.len()) matches Ok(Some(vecs))
                &&& index.flat matches Some(f)
                &&& f.spec_vecs() == vecs
                &&& index.revived(engine)
            } else {
                index.flat is None && index.embedder is None && index.mode == Mode::Bm25
            }
        }),
{
    let r = Ok::<_, SonarError>((index, hash));
    let (copy, parsed, body) = lemma_loaded_parts(engine, file, header, r);
    assert(parsed is Ok);
    assert(index.chunks == parsed->Ok_0);
    assert(call_ensures(E::chunks_from_json, (engine, &copy), Ok(index.chunks)));
    law_split_blob(header.rest);
    law_vector_section(header.rest.skip(4 + number(header.rest)), index.chunks@.len());
}

/// A file whose header cannot be read does not load, and the error tells why.
pub proof fn law_unreadable_file<E: Engine>(
    engine: &E,
    file: Seq<u8>,
    fault: HeaderFault,
    r: Result<(SonarIndex, String), SonarError>,
)
    requires
        loaded(engine, file, r),
        header_of(file) == Err::<HeaderView, _>(fault),
    ensures
        match fault {
            HeaderFault::MagicTruncated => r matches Err(SonarError::MagicTruncated),
            HeaderFault::InvalidMagic { bytes: b } => r matches Err(
                SonarError::InvalidMagic { bytes },
            ) && bytes == b,
            HeaderFault::Truncated => r matches Err(SonarError::Truncated),
            HeaderFault::UnsupportedVersion { version: v } => r matches Err(
                SonarError::UnsupportedVersion { version },
            ) && version == v,
            HeaderFault::HashNotUtf8 { text } => r matches Err(SonarError::HashNotUtf8 { reason })
                && reason@ == text,
        },
{
}

/// A saved index comes back with its hash, its chunks and its vectors, and its groups list them.
pub proof fn law_saved_index_comes_back<E: Engine>(
    engine: &E,
    index: SonarIndex,
    hash: Seq<char>,
    bytes: Vec<u8>,
    r: Result<(SonarIndex, String), SonarError>,
)
    requires
        saved(engine, &index, hash, Ok(bytes)),
        loaded(engine, bytes@, r),
        encode_utf8(hash).len() < 0x1_0000_0000,
        blobs_fit(engine, index),
        chunks_read_back(engine, &index.chunks),
        index.flat matches Some(f) ==> f.spec_vecs().len() == 0 || (f.spec_vecs().len()
            == index.chunks@.len() && forall|i: int|
            0 <= i < f.spec_vecs().len() ==> (#[trigger] f.spec_vecs()[i]).len()
                == f.spec_vecs()[0].len()),
    ensures
        r matches Ok((back, stored)) && {
            &&& stored@ == hash
            &&& back.chunks.deep_view() == index.chunks.deep_view()
            &&& back.grouped()
            &&& match index.flat {
                Some(f) => if f.spec_vecs().len() > 0 {
                    &&& back.flat matches Some(g)
                    &&& g.spec_vecs() == f.spec_vecs()
                    &&& back.revived(engine)
                } else {
                    back.flat is None && back.embedder is None && back.mode == Mode::Bm25
                },
                None => back.flat is None && back.embedder is None && back.mode == Mode::Bm25,
            }
        },
{
    assert(storable(index.flat, index.chunks@.len()));
    law_saved_index_loads(engine, index, hash, bytes, r);
}

/// A cached index is used exactly if there is a cache file, it loads, and the hash in it is that of
/// the listing.
pub proof fn law_cache_is_checked<E: Engine>(
    engine: &E,
    cache: Option<&[u8]>,
    listing: Seq<(Seq<char>, u64)>,
    r: Result<Option<SonarIndex>, SonarError>,
)
    requires
        cache_checked(engine, cache, listing, r),
    ensures
        cache is None ==> r matches Ok(None),
        cache matches Some(file) ==> match r {
            Err(error) => loaded(engine, file@, Err(error)),
            Ok(Some(index)) => exists|hash: String|
                hash@ == content_hash(listing) && #[trigger] loaded(
                    engine,
                    file@,
                    Ok((index, hash)),
                ),
            Ok(None) => exists|index: SonarIndex, hash: String|
                hash@ != content_hash(listing) && #[trigger] loaded(
                    engine,
                    file@,
                    Ok((index, hash)),
                ),
        },
{
    if let Some(file) = cache {
        let l = choose|l: Result<(SonarIndex, String), SonarError>|
            {
                &&& #[trigger] loaded(engine, file@, l)
                &&& match l {
                    Err(error) => r matches Err(e) && e == error,
                    Ok((index, hash)) => if hash@ == content_hash(listing) {
                        r matches Ok(Some(found)) && found == index
                    } else {
                        r matches Ok(None)
                    },
                }
            };
        match l {
            Ok((index, hash)) => {
                assert(loaded(engine, file@, Ok((index, hash))));
            },
            Err(_) => {},
        }
    }
}

/// An index that is built to be saved is a hybrid one, as far as the model loads; its cache file
/// holds it under the hash of the listing, and stands in `.sonar` below the root.
pub proof fn law_built_to_be_saved<E: Engine>(
    engine: &E,
    project: Project,
    listing: Seq<(Seq<char>, u64)>,
    made: SavedIndex,
)
    requires
        built_and_saved(engine, project, listing, Ok(made)),
    ensures
        built(engine, project, Mode::Hybrid, Ok(made.index)),
        saved(engine, &made.index, content_hash(listing), Ok(made.bytes)),
        made.cache_path@ == cache_path(project.root@),
{
}

/// The cache file of a project stands below its root, with one slash between.
pub proof fn law_cache_path(root: Seq<char>)
    ensures
        root.len() > 0 && root.last() != '/' ==> cache_path(root) == root + seq!['/']
            + ".sonar/index.bin"@,
        root.len() == 0 || root.last() == '/' ==> cache_path(root) == root + ".sonar/index.bin"@,
{
    reveal_strlit(".sonar/index.bin");
    reveal_strlit("/.sonar/index.bin");
    assert("/.sonar/index.bin"@ =~= seq!['/'] + ".sonar/index.bin"@);
    assert(root + (seq!['/'] + ".sonar/index.bin"@) =~= root + seq!['/'] + ".sonar/index.bin"@);
}

/// Opening a project takes the cached index as it is, and builds and saves one exactly if there is
/// none to take.
pub proof fn law_opened<E: Engine, F: FnOnce() -> Project>(
    engine: &E,
    walk: F,
    listing: Seq<(Seq<char>, u64)>,
    checked: Result<Option<SonarIndex>, SonarError>,
    r: Result<CachedIndex, SonarError>,
)
    requires
        opened(engine, walk, listing, checked, r),
    ensures
        checked is Err ==> (r matches Err(e) && e == checked->Err_0),
        checked matches Ok(Some(index)) ==> (r matches Ok(CachedIndex::Fresh { index: taken })
            && taken == index),
        checked matches Ok(None) ==> match r {
            Ok(CachedIndex::Fresh { .. }) => false,
            Ok(CachedIndex::Rebuilt { saved: made }) => exists|project: Project|
                call_ensures(walk, (), project) && #[trigger] built_and_saved(
                    engine,
                    project,
                    listing,
                    Ok(made),
                ),
            Err(error) => exists|project: Project|
                call_ensures(walk, (), project) && #[trigger] built_and_saved(
                    engine,
                    project,
                    listing,
                    Err(error),
                ),
        },
{
}

/// What stands behind the chunks is read exactly if the documents are all there and are JSON, and
/// the vectors can be read; otherwise the first of these that fails is the error.
pub proof fn law_body(rest: Seq<u8>, count: nat, r: Result<Body, SonarError>)
    requires
        body_read(rest, count, r),
    ensures
        ({
            let whole = rest.len() >= 4 && rest.len() >= 4 + number(rest);
            let json = rest.subrange(4, 4 + number(rest));
            let tail = rest.skip(4 + number(rest));
            &&& !whole ==> (r matches Err(SonarError::Truncated))
            &&& whole ==> match json_documents(json) {
                Err(text) => r matches Err(SonarError::DocumentsNotParsed { reason }) && reason@
                    == text,
                Ok(documents) => match vectors_of(tail, count) {
                    Err(error) => r matches Err(e) && e == error,
                    Ok(vectors) => r matches Ok(body) && body.documents.deep_view() == documents
                        && body.vectors.deep_view() == vectors,
                },
            }
        }),
{
    law_split_blob(rest);
}

/// A file loads if the engine reads its chunks and the rest can be read for as many chunks; it does
/// not if the engine reads none.
pub proof fn law_readable_file_loads<E: Engine>(
    engine: &E,
    file: Seq<u8>,
    header: HeaderView,
    count: nat,
    documents: Seq<Seq<Seq<char>>>,
    vectors: Option<Seq<Seq<u32>>>,
    r: Result<(SonarIndex, String), SonarError>,
)
    requires
        loaded(engine, file, r),
        header_of(file) == Ok::<_, HeaderFault>(header),
    ensures
        (forall|copy: Vec<u8>, parsed: Result<Vec<Chunk>, String>|
            copy@ == header.chunks_json && #[trigger] call_ensures(
                E::chunks_from_json,
                (engine, &copy),
                parsed,
            ) ==> parsed is Err) ==> r matches Err(SonarError::ChunksNotParsed { .. }),
        (forall|copy: Vec<u8>, parsed: Result<Vec<Chunk>, String>|
            copy@ == header.chunks_json && #[trigger] call_ensures(
                E::chunks_from_json,
                (engine, &copy),
                parsed,
            ) ==> (parsed matches Ok(chunks) && chunks@.len() == count)) && header.rest.len() >= 4
            && header.rest.len() >= 4 + number(header.rest) && json_documents(
            header.rest.subrange(4, 4 + number(header.rest)),
        ) == read_as(documents) && vectors_of(
            header.rest.skip(4 + number(header.rest)),
            count,
        ) == Ok::<_, SonarError>(vectors) ==> (r matches Ok((index, _))
            && index.bm25.spec_documents() == documents && index.chunks@.len() == count),
{
    let (copy, parsed, body) = lemma_loaded_parts(engine, file, header, r);
    if parsed is Ok {
        law_body(header.rest, parsed->Ok_0@.len(), body);
    }
}

/// Saving succeeds exactly if the engine gives a JSON form of the chunks. The file holds it, behind
/// the hash under which the index is saved.
pub proof fn law_saved_file<E: Engine>(
    engine: &E,
    index: SonarIndex,
    hash: Seq<char>,
    r: Result<Vec<u8>, SonarError>,
    chunks_json: Seq<u8>,
)
    requires
        saved(engine, &index, hash, r),
    ensures
        (forall|json: Result<Vec<u8>, String>| #[trigger]
            call_ensures(E::chunks_to_json, (engine, &index.chunks), json) ==> json is Err)
            ==> r matches Err(SonarError::ChunksNotSerialized { .. }),
        (forall|json: Result<Vec<u8>, String>| #[trigger]
            call_ensures(E::chunks_to_json, (engine, &index.chunks), json) ==> (json matches Ok(j)
                && j@ == chunks_json)) ==> (r matches Ok(bytes) && blob_at(
            bytes@,
            8,
            encode_utf8(hash),
        ) && blob_at(bytes@, 12 + encode_utf8(hash).len() as int, chunks_json)),
{
    if let Ok(bytes) = r {
        let (json, documents) = lemma_saved_parts(engine, index, hash, bytes);
        law_cache_file(hash, json@, documents_json(documents), index.flat);
    }
}

/// A saved index comes back with the tokens of its chunks.
pub proof fn law_saved_documents_come_back<E: Engine>(
    engine: &E,
    index: SonarIndex,
    hash: Seq<char>,
    bytes: Vec<u8>,
    r: Result<(SonarIndex, String), SonarError>,
    i: int,
    tokens: Seq<Seq<char>>,
)
    requires
        saved(engine, &index, hash, Ok(bytes)),
        loaded(engine, bytes@, r),
        encode_utf8(hash).len() < 0x1_0000_0000,
        blobs_fit(engine, index),
        chunks_read_back(engine, &index.chunks),
        storable(index.flat, index.chunks@.len()),
        0 <= i < index.chunks@.len(),
        split_into(engine, index.chunks@[i], tokens),
    ensures
        r matches Ok((back, _)) && back.bm25.spec_documents().len() == index.chunks@.len()
            && back.bm25.spec_documents()[i] == tokens,
{
    law_saved_index_loads(engine, index, hash, bytes, r);
    law_documents(engine, index.chunks@, r->Ok_0.0.bm25.spec_documents(), i, tokens);
}

/// If an index cannot be built or cannot be saved, that is the error.
pub proof fn law_not_built_or_not_saved<E: Engine>(
    engine: &E,
    project: Project,
    listing: Seq<(Seq<char>, u64)>,
    error: SonarError,
)
    requires
        built_and_saved(engine, project, listing, Err(error)),
    ensures
        built(engine, project, Mode::Hybrid, Err(error)) || exists|index: SonarIndex|
            built(engine, project, Mode::Hybrid, Ok(index)) && #[trigger] saved(
                engine,
                &index,
                content_hash(listing),
                Err(error),
            ),
{
    let b = choose|b: Result<SonarIndex, SonarError>|
        {
            &&& #[trigger] built(engine, project, Mode::Hybrid, b)
            &&& match b {
                Err(e) => e == error,
                Ok(index) => exists|s: Result<Vec<u8>, SonarError>|
                    #[trigger] saved(engine, &index, content_hash(listing), s) && (s matches Err(e)
                        && e == error),
            }
        };
    if let Ok(index) = b {
        assert(saved(engine, &index, content_hash(listing), Err(error)));
    }
}

/// The vectors behind a reference are written as they are.
pub proof fn law_referenced_vectors(flat: &Flat)
    ensures
        flat_value(Some(flat)) == Some(*flat),
        flat_value(None) is None,
{
}

/// The texts of the errors: each names what went wrong, with the path, the reason or the numbers.
pub proof fn law_messages(text: String, bytes: (u8, u8, u8, u8), n: u32, m: u128, k: usize)
    ensures
        error_text(SonarError::PathMissing { path: text }) == "Path does not exist: "@ + text@,
        error_text(SonarError::NotADirectory { path: text }) == "Path is not a directory: "@
            + text@,
        error_text(SonarError::NoSupportedFiles { path: text })
            == "No supported files found under "@ + text@,
        error_text(SonarError::HashNotUtf8 { reason: text }) == "invalid hash string: "@ + text@,
        error_text(SonarError::ChunksNotParsed { reason: text }) == "deserialize chunks: "@ + text@,
        error_text(SonarError::DocumentsNotParsed { reason: text }) == "deserialize documents: "@
            + text@,
        error_text(SonarError::ChunksNotSerialized { reason: text }) == "serialize chunks: "@
            + text@,
        error_text(SonarError::DocumentsNotSerialized { reason: text })
            == "serialize documents: "@ + text@,
        error_text(SonarError::UnsupportedVersion { version: n })
            == "unsupported index version: expected "@ + decimal(2) + ", got "@ + decimal(n as nat),
        error_text(SonarError::EmbeddingSize { expected: m, found: k })
            == "embedding size mismatch: expected "@ + decimal(m as nat) + " bytes, got "@
            + decimal(k as nat),
        error_text(SonarError::InvalidMagic { bytes })
            == "invalid magic bytes: expected SONR, got ["@ + decimal(bytes.0 as nat) + ", "@
            + decimal(bytes.1 as nat) + ", "@ + decimal(bytes.2 as nat) + ", "@ + decimal(
            bytes.3 as nat,
        ) + "]"@,
{
}

} // verus!
