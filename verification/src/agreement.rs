//! Where two ways to an index lead to the same one, if the engine gives the same answers on both.
use vstd::prelude::*;

#[allow(unused_imports)]
use crate::embed::Embedder;
#[allow(unused_imports)]
use crate::engine::{chunked, Engine};
#[allow(unused_imports)]
use crate::error::{error_text, SonarError};
#[allow(unused_imports)]
use crate::index::{built, chunks_of_files, Mode, SonarIndex};
#[allow(unused_imports)]
use crate::persist::{
    body_read, built_and_saved, cache_checked, content_hash, header_of, loaded, opened, Body,
    CachedIndex, SavedIndex,
};
#[allow(unused_imports)]
use crate::roundtrip::{
    blobs_fit, chunks_read_back, law_built_cache_is_used, lemma_loaded_parts, rectangular,
    survives,
};
#[allow(unused_imports)]
use crate::types::{Chunk, ChunkView};
#[allow(unused_imports)]
use crate::walk::{picked_files, Project, RootStatus, WalkedFileView};

verus! {

/// The engine cuts equal files into equal chunks.
pub open spec fn chunks_alike<E: Engine>(engine: &E) -> bool {
    forall|
        content: Seq<char>,
        path: Seq<char>,
        language: Option<Seq<char>>,
        x: Seq<ChunkView>,
        y: Seq<ChunkView>,
    |
        #[trigger] chunked(engine, content, path, language, x) && #[trigger] chunked(
            engine,
            content,
            path,
            language,
            y,
        ) ==> x == y
}

/// The embedding model is available each time or never.
pub open spec fn model_alike<E: Engine>(engine: &E) -> bool {
    forall|x: Result<Embedder, String>, y: Result<Embedder, String>|
        #[trigger] call_ensures(E::load_embedder, (engine,), x) && #[trigger] call_ensures(
            E::load_embedder,
            (engine,),
            y,
        ) ==> (x is Ok <==> y is Ok)
}

/// The engine reads equal chunks out of equal bytes, or none each time.
pub open spec fn parses_alike<E: Engine>(engine: &E) -> bool {
    forall|x: Vec<u8>, y: Vec<u8>, p: Result<Vec<Chunk>, String>, q: Result<Vec<Chunk>, String>|
        x@ == y@ && #[trigger] call_ensures(E::chunks_from_json, (engine, &x), p)
            && #[trigger] call_ensures(E::chunks_from_json, (engine, &y), q) ==> match (p, q) {
            (Ok(a), Ok(b)) => a.deep_view() == b.deep_view(),
            (Err(_), Err(_)) => true,
            _ => false,
        }
}

/// The indexes have the same chunks, groups and mode, and both or neither has vectors.
pub open spec fn same_index(a: SonarIndex, b: SonarIndex) -> bool {
    &&& a.chunks.deep_view() == b.chunks.deep_view()
    &&& a.file_mapping@ == b.file_mapping@
    &&& a.language_mapping@ == b.language_mapping@
    &&& a.mode == b.mode
    &&& (a.flat is Some <==> b.flat is Some)
}

/// Files are cut into the same chunks each time.
proof fn lemma_chunks_of_files<E: Engine>(
    engine: &E,
    files: Seq<WalkedFileView>,
    x: Seq<ChunkView>,
    y: Seq<ChunkView>,
)
    requires
        chunks_of_files(engine, files, x),
        chunks_of_files(engine, files, y),
        chunks_alike(engine),
    ensures
        x == y,
{
    let p = choose|parts: Seq<Seq<ChunkView>>|
        {
            &&& parts.len() == files.len()
            &&& forall|i: int|
                0 <= i < files.len() ==> chunked(
                    engine,
                    files[i].content,
                    files[i].relative_path,
                    files[i].language,
                    #[trigger] parts[i],
                )
            &&& x == #[trigger] parts.flatten()
        };
    let q = choose|parts: Seq<Seq<ChunkView>>|
        {
            &&& parts.len() == files.len()
            &&& forall|i: int|
                0 <= i < files.len() ==> chunked(
                    engine,
                    files[i].content,
                    files[i].relative_path,
                    files[i].language,
                    #[trigger] parts[i],
                )
            &&& y == #[trigger] parts.flatten()
        };
    assert forall|i: int| 0 <= i < files.len() implies p[i] == q[i] by {
        let f = files[i];
        assert(chunked(engine, f.content, f.relative_path, f.language, p[i]));
        assert(chunked(engine, f.content, f.relative_path, f.language, q[i]));
    }
    assert(p =~= q);
}

/// The mode and the vectors of a built index follow from whether the model is available.
proof fn lemma_embedded_alike<E: Engine>(
    engine: &E,
    requested: Mode,
    a: SonarIndex,
    b: SonarIndex,
)
    requires
        a.embedded(engine, requested),
        b.embedded(engine, requested),
        model_alike(engine),
    ensures
        a.mode == b.mode,
        a.flat is Some <==> b.flat is Some,
{
}

/// Building an index of a project twice gives the same index, or the same error.
pub proof fn law_builds_agree<E: Engine>(
    engine: &E,
    project: Project,
    requested: Mode,
    x: Result<SonarIndex, SonarError>,
    y: Result<SonarIndex, SonarError>,
)
    requires
        built(engine, project, requested, x),
        built(engine, project, requested, y),
        chunks_alike(engine),
        model_alike(engine),
    ensures
        match (x, y) {
            (Ok(a), Ok(b)) => same_index(a, b),
            (Err(a), Err(b)) => error_text(a) == error_text(b),
            _ => false,
        },
{
    let files = picked_files(project.entries@);
    if project.status == RootStatus::Directory && files.len() > 0 {
        assert forall|p: Seq<ChunkView>, q: Seq<ChunkView>|
            #[trigger] chunks_of_files(engine, files, p) && #[trigger] chunks_of_files(
                engine,
                files,
                q,
            ) implies p == q by {
            lemma_chunks_of_files(engine, files, p, q);
        }
        if x is Ok && y is Ok {
            lemma_embedded_alike(engine, requested, x->Ok_0, y->Ok_0);
        }
    }
}

/// Building and saving gives the index that building alone gives.
pub proof fn law_build_and_save_agrees<E: Engine>(
    engine: &E,
    project: Project,
    listing: Seq<(Seq<char>, u64)>,
    made: SavedIndex,
    r: Result<SonarIndex, SonarError>,
)
    requires
        built_and_saved(engine, project, listing, Ok(made)),
        built(engine, project, Mode::Hybrid, r),
        chunks_alike(engine),
        model_alike(engine),
    ensures
        r matches Ok(index) && same_index(made.index, index),
{
    assert(built(engine, project, Mode::Hybrid, Ok(made.index)));
    law_builds_agree(engine, project, Mode::Hybrid, Ok(made.index), r);
}

/// The part of a cache file behind the chunks is read alike each time.
proof fn lemma_bodies_agree(
    rest: Seq<u8>,
    count: nat,
    x: Result<Body, SonarError>,
    y: Result<Body, SonarError>,
)
    requires
        body_read(rest, count, x),
        body_read(rest, count, y),
    ensures
        match (x, y) {
            (Ok(a), Ok(b)) => a.vectors is Some <==> b.vectors is Some,
            (Err(_), Err(_)) => true,
            _ => false,
        },
{
    if x is Ok && y is Ok {
        assert(x->Ok_0.vectors.deep_view() == y->Ok_0.vectors.deep_view());
    }
}

/// A cache file is read alike each time.
pub proof fn law_loads_agree<E: Engine>(
    engine: &E,
    data: Seq<u8>,
    x: Result<(SonarIndex, String), SonarError>,
    y: Result<(SonarIndex, String), SonarError>,
)
    requires
        loaded(engine, data, x),
        loaded(engine, data, y),
        parses_alike(engine),
        model_alike(engine),
    ensures
        match (x, y) {
            (Ok((a, p)), Ok((b, q))) => p@ == q@ && same_index(a, b),
            (Err(_), Err(_)) => true,
            _ => false,
        },
{
    if let Ok(header) = header_of(data) {
        let (cx, px, bx) = lemma_loaded_parts(engine, data, header, x);
        let (cy, py, by) = lemma_loaded_parts(engine, data, header, y);
        if px is Ok && py is Ok {
            assert(px->Ok_0.deep_view().len() == px->Ok_0@.len());
            assert(py->Ok_0.deep_view().len() == py->Ok_0@.len());
            lemma_bodies_agree(header.rest, px->Ok_0@.len(), bx, by);
        }
    }
}

/// The vectors of an index, if it has any, are one for each chunk, all of one dimension.
pub open spec fn one_vector_each(index: SonarIndex) -> bool {
    index.flat matches Some(f) ==> f.spec_vecs().len() == index.chunks@.len() && rectangular(
        f.spec_vecs(),
        f.spec_dim(),
    )
}

/// An index that was built and saved is the same when it is loaded.
proof fn lemma_built_survives<E: Engine>(
    engine: &E,
    project: Project,
    index: SonarIndex,
    back: SonarIndex,
)
    requires
        built(engine, project, Mode::Hybrid, Ok(index)),
        survives(engine, index, back),
        one_vector_each(index),
        model_alike(engine),
    ensures
        same_index(index, back),
{
    assert(index.chunks.deep_view().len() == index.chunks@.len());
}

/// Opening an unchanged project a second time takes the same index out of the cache file, which is
/// not written again. The cache file is the one that was there, or the one that the first opening
/// made.
pub proof fn law_second_opening_is_fresh<
    E: Engine,
    F: FnOnce() -> Project,
    G: FnOnce() -> Project,
>(
    engine: &E,
    listing: Seq<(Seq<char>, u64)>,
    first_cache: Option<&[u8]>,
    first_checked: Result<Option<SonarIndex>, SonarError>,
    first_walk: F,
    first: CachedIndex,
    cache: Option<&[u8]>,
    checked: Result<Option<SonarIndex>, SonarError>,
    walk: G,
    r: Result<CachedIndex, SonarError>,
)
    requires
        cache_checked(engine, first_cache, listing, first_checked),
        opened(engine, first_walk, listing, first_checked, Ok(first)),
        match first {
            CachedIndex::Fresh { .. } => cache == first_cache,
            CachedIndex::Rebuilt { saved } => cache matches Some(data) && data@ == saved.bytes@,
        },
        cache_checked(engine, cache, listing, checked),
        opened(engine, walk, listing, checked, r),
        first is Rebuilt ==> blobs_fit(engine, first.spec_index()) && one_vector_each(
            first.spec_index(),
        ) && chunks_read_back(engine, &first.spec_index().chunks),
        parses_alike(engine),
        model_alike(engine),
    ensures
        r matches Ok(CachedIndex::Fresh { index }) && same_index(first.spec_index(), index),
{
    match first {
        CachedIndex::Fresh { index } => {
            lemma_checks_agree(engine, cache, listing, first_checked, checked);
        },
        CachedIndex::Rebuilt { saved } => {
            let project = choose|project: Project| #[trigger]
                built_and_saved(engine, project, listing, Ok(saved));
            assert(built_and_saved(engine, project, listing, Ok(saved)));
            law_built_cache_is_used(engine, project, listing, saved, cache, checked);
            assert(built(engine, project, Mode::Hybrid, Ok(saved.index)));
            lemma_built_survives(engine, project, saved.index, checked->Ok_0->Some_0);
        },
    }
}

/// Looking at a cache file twice gives the same index.
proof fn lemma_checks_agree<E: Engine>(
    engine: &E,
    cache: Option<&[u8]>,
    listing: Seq<(Seq<char>, u64)>,
    x: Result<Option<SonarIndex>, SonarError>,
    y: Result<Option<SonarIndex>, SonarError>,
)
    requires
        cache_checked(engine, cache, listing, x),
        cache_checked(engine, cache, listing, y),
        x matches Ok(Some(_)),
        parses_alike(engine),
        model_alike(engine),
    ensures
        y matches Ok(Some(b)) && same_index(x->Ok_0->Some_0, b),
{
    let data = cache->Some_0;
    let l = choose|l: Result<(SonarIndex, String), SonarError>|
        {
            &&& #[trigger] loaded(engine, data@, l)
            &&& match l {
                Err(error) => false,
                Ok((index, stored)) => if stored@ == content_hash(listing) {
                    x matches Ok(Some(found)) && found == index
                } else {
                    false
                },
            }
        };
    let m = choose|m: Result<(SonarIndex, String), SonarError>|
        {
            &&& #[trigger] loaded(engine, data@, m)
            &&& match m {
                Err(error) => y matches Err(e) && e == error,
                Ok((index, stored)) => if stored@ == content_hash(listing) {
                    y matches Ok(Some(found)) && found == index
                } else {
                    y matches Ok(None)
                },
            }
        };
    law_loads_agree(engine, data@, l, m);
}

} // verus!
