//! What an index is made of.
use vstd::prelude::*;
#[allow(unused_imports)]
use vstd::std_specs::cmp::PartialEqSpec;

#[allow(unused_imports)]
use crate::ann::Flat;
#[allow(unused_imports)]
use crate::embed::Embedder;
#[allow(unused_imports)]
use crate::engine::{all_documented, chunked, documented, Engine};
#[allow(unused_imports)]
use crate::error::SonarError;
#[allow(unused_imports)]
use crate::groups::{file_keys, groups, language_keys, law_positions, positions};
#[allow(unused_imports)]
use crate::index::{built, chunks_of_files, contents, vectors_of_chunks, Mode, SonarIndex};
#[allow(unused_imports)]
use crate::listing::{FileStamp, MetFile};
#[allow(unused_imports)]
use crate::text::decimal;
#[allow(unused_imports)]
use crate::types::{Chunk, ChunkView, IndexStats, SearchResult};
#[allow(unused_imports)]
use crate::walk::{picked_files, Project, RootStatus, WalkedFile, WalkedFileView};

verus! {

/// Chunks are equal exactly if all their parts are.
pub proof fn law_equal_chunks(a: Chunk, b: Chunk)
    ensures
        a.eq_spec(&b) <==> a@ == b@,
        a@ == b@ <==> {
            &&& a.content@ == b.content@
            &&& a.file_path@ == b.file_path@
            &&& a.start_line == b.start_line
            &&& a.end_line == b.end_line
            &&& match (a.language, b.language) {
                (Some(x), Some(y)) => x@ == y@,
                (None, None) => true,
                _ => false,
            }
        },
        a@.content == a.content@,
        a@.file_path == a.file_path@,
        a@.start_line == a.start_line,
        a@.end_line == a.end_line,
        match a.language {
            Some(x) => a@.language == Some(x@),
            None => a@.language is None,
        },
{
    if a.content@ == b.content@ && a.file_path@ == b.file_path@ && a.start_line == b.start_line
        && a.end_line == b.end_line && a.language.deep_view() == b.language.deep_view() {
        assert(a@ =~= b@);
    }
}

/// `at` are the places, in ascending order, at which `holds` is true of a chunk.
pub open spec fn places(
    chunks: Seq<ChunkView>,
    holds: spec_fn(ChunkView) -> bool,
    at: Seq<usize>,
) -> bool {
    &&& forall|i: usize| #[trigger]
        at.contains(i) <==> i < chunks.len() && holds(chunks[i as int])
    &&& forall|m: int, n: int| 0 <= m < n < at.len() ==> at[m] < at[n]
}

/// Of the chunks of one file.
pub open spec fn in_file(path: Seq<char>) -> spec_fn(ChunkView) -> bool {
    |c: ChunkView| c.file_path == path
}

/// Of the chunks in one language.
pub open spec fn in_language(language: Seq<char>) -> spec_fn(ChunkView) -> bool {
    |c: ChunkView| c.language == Some(language)
}

/// The files of a grouped index are those of its chunks, each with the places of its chunks.
pub proof fn law_file_groups(index: SonarIndex, path: Seq<char>)
    requires
        index.grouped(),
        index.chunks@.len() <= usize::MAX,
    ensures
        index.file_mapping@.contains_key(path) <==> exists|i: int|
            0 <= i < index.chunks@.len() && (#[trigger] index.chunks@[i]).file_path@ == path,
        index.file_mapping@.contains_key(path) ==> places(
            index.chunks.deep_view(),
            in_file(path),
            index.file_mapping@[path],
        ),
{
    let chunks = index.chunks.deep_view();
    let keys = file_keys(chunks);
    law_positions(keys, path);
    assert(chunks.len() == index.chunks@.len());
    if keys.contains(Some(path)) {
        let i = choose|i: int| 0 <= i < keys.len() && keys[i] == Some(path);
        assert(index.chunks@[i].file_path@ == path);
    }
    if exists|i: int|
        0 <= i < index.chunks@.len() && (#[trigger] index.chunks@[i]).file_path@ == path {
        let i = choose|i: int|
            0 <= i < index.chunks@.len() && (#[trigger] index.chunks@[i]).file_path@ == path;
        assert(chunks[i].file_path == path);
        assert(keys[i] == Some(path));
    }
}

/// The languages of a grouped index are those of its chunks, each with the places of its chunks; a
/// chunk without a language is in no group.
pub proof fn law_language_groups(index: SonarIndex, language: Seq<char>)
    requires
        index.grouped(),
        index.chunks@.len() <= usize::MAX,
    ensures
        index.language_mapping@.contains_key(language) <==> exists|i: int|
            0 <= i < index.chunks@.len() && (#[trigger] index.chunks.deep_view()[i]).language
                == Some(language),
        index.language_mapping@.contains_key(language) ==> places(
            index.chunks.deep_view(),
            in_language(language),
            index.language_mapping@[language],
        ),
{
    let chunks = index.chunks.deep_view();
    let keys = language_keys(chunks);
    law_positions(keys, language);
    assert(chunks.len() == index.chunks@.len());
    if keys.contains(Some(language)) {
        let i = choose|i: int| 0 <= i < keys.len() && keys[i] == Some(language);
        assert(chunks[i].language == Some(language));
    }
    if exists|i: int|
        0 <= i < index.chunks@.len() && (#[trigger] chunks[i]).language == Some(language) {
        let i = choose|i: int|
            0 <= i < index.chunks@.len() && (#[trigger] chunks[i]).language == Some(language);
        assert(keys[i] == Some(language));
    }
}

/// The statistics count the files of the mapping, the chunks, and for each language that a chunk has
/// the places of its chunks.
pub proof fn law_counts(index: SonarIndex, stats: IndexStats, language: Seq<char>)
    requires
        index.counted(stats),
        index.chunks@.len() <= usize::MAX,
    ensures
        stats.indexed_files == index.file_mapping@.dom().len(),
        stats.total_chunks == index.chunks@.len(),
        stats.languages@.contains_key(language) <==> exists|i: int|
            0 <= i < index.chunks@.len() && (#[trigger] index.chunks.deep_view()[i]).language
                == Some(language),
        stats.languages@.contains_key(language) ==> exists|at: Seq<usize>|
            #[trigger] places(
                index.chunks.deep_view(),
                in_language(language),
                at,
            ) && at.len() == stats.languages@[language],
{
    let chunks = index.chunks.deep_view();
    let keys = language_keys(chunks);
    law_positions(keys, language);
    assert(chunks.len() == index.chunks@.len());
    if keys.contains(Some(language)) {
        let i = choose|i: int| 0 <= i < keys.len() && keys[i] == Some(language);
        assert(chunks[i].language == Some(language));
        assert(places(
            chunks,
            in_language(language),
            positions(keys, language),
        ));
    }
    if exists|i: int|
        0 <= i < index.chunks@.len() && (#[trigger] chunks[i]).language == Some(language) {
        let i = choose|i: int|
            0 <= i < index.chunks@.len() && (#[trigger] chunks[i]).language == Some(language);
        assert(keys[i] == Some(language));
    }
}

/// The engine cuts this file into these chunks.
pub open spec fn cut_into<E: Engine>(
    engine: &E,
    file: WalkedFileView,
    part: Seq<ChunkView>,
) -> bool {
    forall|text: &str, path: &str, language: Option<&str>, out: Vec<Chunk>|
        #[trigger] call_ensures(E::chunk_source, (engine, text, path, language), out) && text@
            == file.content && path@ == file.relative_path && language.deep_view()
            == file.language ==> out.deep_view() == part
}

/// The engine cuts the picked files of a project into these parts.
pub open spec fn cut_into_parts<E: Engine>(
    engine: &E,
    project: Project,
    parts: Seq<Seq<ChunkView>>,
) -> bool {
    &&& parts.len() == picked_files(project.entries@).len()
    &&& forall|i: int|
        0 <= i < parts.len() ==> cut_into(
            engine,
            picked_files(project.entries@)[i],
            #[trigger] parts[i],
        )
}

proof fn lemma_parts<E: Engine>(
    engine: &E,
    files: Seq<WalkedFileView>,
    parts: Seq<Seq<ChunkView>>,
    chunks: Seq<ChunkView>,
)
    requires
        chunks_of_files(engine, files, chunks),
        parts.len() == files.len(),
        forall|i: int| 0 <= i < parts.len() ==> cut_into(engine, files[i], #[trigger] parts[i]),
    ensures
        chunks == parts.flatten(),
{
    let made = choose|made: Seq<Seq<ChunkView>>|
        {
            &&& made.len() == files.len()
            &&& forall|i: int|
                0 <= i < files.len() ==> chunked(
                    engine,
                    files[i].content,
                    files[i].relative_path,
                    files[i].language,
                    #[trigger] made[i],
                )
            &&& chunks == #[trigger] made.flatten()
        };
    assert forall|i: int| 0 <= i < files.len() implies made[i] == parts[i] by {
        assert(chunked(
            engine,
            files[i].content,
            files[i].relative_path,
            files[i].language,
            made[i],
        ));
        assert(cut_into(engine, files[i], parts[i]));
    }
    assert(made =~= parts);
}

/// An index of a project is made of the chunks of its picked files, file after file. It is refused
/// exactly if there is no directory, no picked file or no chunk.
pub proof fn law_chunks_of_a_project<E: Engine>(
    engine: &E,
    project: Project,
    requested: Mode,
    parts: Seq<Seq<ChunkView>>,
    r: Result<SonarIndex, SonarError>,
)
    requires
        built(engine, project, requested, r),
        cut_into_parts(engine, project, parts),
    ensures
        project.status == RootStatus::Missing ==> (r matches Err(SonarError::PathMissing { path })
            && path@ == project.root@),
        project.status == RootStatus::NotADirectory ==> (r matches Err(
            SonarError::NotADirectory { path },
        ) && path@ == project.root@),
        project.status == RootStatus::Directory && parts.len() == 0 ==> (r matches Err(
            SonarError::NoSupportedFiles { path },
        ) && path@ == project.root@),
        project.status == RootStatus::Directory && parts.len() > 0 && parts.flatten().len() == 0
            ==> r matches Err(SonarError::NoChunks),
        project.status == RootStatus::Directory && parts.len() > 0 && parts.flatten().len() > 0
            ==> (r matches Ok(index) && index.chunks.deep_view() == parts.flatten()),
{
    let files = picked_files(project.entries@);
    if project.status == RootStatus::Directory && files.len() > 0 {
        assert forall|chunks: Seq<ChunkView>| #[trigger]
            chunks_of_files(engine, files, chunks) implies chunks == parts.flatten() by {
            assert forall|i: int| 0 <= i < parts.len() implies cut_into(
                engine,
                files[i],
                #[trigger] parts[i],
            ) by {}
            lemma_parts(engine, files, parts, chunks);
        }
    }
}

/// The engine splits the search text of a chunk into these tokens.
pub open spec fn split_into<E: Engine>(
    engine: &E,
    chunk: Chunk,
    tokens: Seq<Seq<char>>,
) -> bool {
    forall|text: String, t: &str, out: Vec<String>|
        #[trigger] call_ensures(E::enrich_for_bm25, (engine, &chunk), text)
            && #[trigger] call_ensures(E::tokenize, (engine, t), out) && t@ == text@
            ==> out.deep_view() == tokens
}

/// The documents of chunks are one for each, in their order: the tokens of its search text.
pub proof fn law_documents<E: Engine>(
    engine: &E,
    chunks: Seq<Chunk>,
    documents: Seq<Seq<Seq<char>>>,
    i: int,
    tokens: Seq<Seq<char>>,
)
    requires
        all_documented(engine, chunks, documents),
        0 <= i < chunks.len(),
        split_into(engine, chunks[i], tokens),
    ensures
        documents.len() == chunks.len(),
        documents[i] == tokens,
{
    assert(documented(engine, chunks[i], documents[i]));
}

/// The keyword index of a built index holds the documents of its chunks, and its groups list them.
pub proof fn law_built_documents<E: Engine>(
    engine: &E,
    project: Project,
    requested: Mode,
    index: SonarIndex,
    i: int,
    tokens: Seq<Seq<char>>,
)
    requires
        built(engine, project, requested, Ok(index)),
        0 <= i < index.chunks@.len(),
        split_into(engine, index.chunks@[i], tokens),
    ensures
        index.bm25.spec_documents().len() == index.chunks@.len(),
        index.bm25.spec_documents()[i] == tokens,
        index.grouped(),
{
    law_documents(engine, index.chunks@, index.bm25.spec_documents(), i, tokens);
}

/// If the model loads, and another mode than keywords is asked for, a built index has it, the
/// vectors that it gives for the texts of the chunks, and the requested mode.
pub proof fn law_built_with_a_model<E: Engine>(
    engine: &E,
    project: Project,
    requested: Mode,
    index: SonarIndex,
    model: Embedder,
    vectors: Seq<Seq<u32>>,
)
    requires
        built(engine, project, requested, Ok(index)),
        requested != Mode::Bm25,
        forall|loaded: Result<Embedder, String>| #[trigger]
            call_ensures(E::load_embedder, (engine,), loaded) ==> (loaded matches Ok(m) && m
                == model),
        forall|texts: Vec<String>, out: Vec<Vec<u32>>|
            texts@.len() == index.chunks@.len() && (forall|i: int|
                0 <= i < texts@.len() ==> (#[trigger] texts@[i])@ == index.chunks@[i].content@)
                && #[trigger] call_ensures(E::encode_batch, (engine, &model, &texts), out)
                ==> out.deep_view() == vectors,
    ensures
        index.embedder matches Some(m) && m == model,
        index.flat matches Some(f) && f.spec_vecs() == vectors,
        index.mode == requested,
{
    let chunks = index.chunks.deep_view();
    assert(index.embedded(engine, requested));
    let flat = index.flat->Some_0;
    assert(vectors_of_chunks(engine, &model, chunks, &flat));
    let (texts, vecs) = choose|texts: Vec<String>, vecs: Vec<Vec<u32>>|
        {
            &&& texts.deep_view() == contents(chunks)
            &&& #[trigger] call_ensures(E::encode_batch, (engine, &model, &texts), vecs)
            &&& flat.spec_vecs() == vecs.deep_view()
        };
    assert(texts.deep_view().len() == texts@.len());
    assert forall|i: int| 0 <= i < texts@.len() implies (#[trigger] texts@[i])@
        == index.chunks@[i].content@ by {
        assert(texts.deep_view()[i] == texts@[i]@);
        assert(contents(chunks)[i] == chunks[i].content);
    }
}

/// If only keywords are asked for, or the model does not load, a built index has no model and no
/// vectors, and searches by keywords.
pub proof fn law_built_without_a_model<E: Engine>(
    engine: &E,
    project: Project,
    requested: Mode,
    index: SonarIndex,
)
    requires
        built(engine, project, requested, Ok(index)),
        requested == Mode::Bm25 || forall|loaded: Result<Embedder, String>| #[trigger]
            call_ensures(E::load_embedder, (engine,), loaded) ==> loaded is Err,
    ensures
        index.embedder is None,
        index.flat is None,
        index.mode == Mode::Bm25,
{
}

/// An index with vectors from a cache gets the model if it loads, and is hybrid with it; without it
/// the index searches by keywords.
pub proof fn law_revived<E: Engine>(engine: &E, index: SonarIndex, model: Option<Embedder>)
    requires
        index.revived(engine),
        forall|loaded: Result<Embedder, String>| #[trigger]
            call_ensures(E::load_embedder, (engine,), loaded) ==> match model {
                Some(m) => loaded matches Ok(x) && x == m,
                None => loaded is Err,
            },
    ensures
        index.embedder == model,
        model is Some ==> index.mode == Mode::Hybrid,
        model is None ==> index.mode == Mode::Bm25,
{
}

/// The line about an index tells the number of its chunks, its mode and whether it has a model.
pub proof fn law_summary(index: SonarIndex, mode: Seq<char>, model: Seq<char>)
    requires
        mode == match index.mode {
            Mode::Bm25 => "Bm25"@,
            Mode::Semantic => "Semantic"@,
            Mode::Hybrid => "Hybrid"@,
        },
        model == if index.embedder is Some {
            "true"@
        } else {
            "false"@
        },
    ensures
        index.summary() == "SonarIndex { chunks: "@ + decimal(index.chunks@.len()) + ", mode: "@
            + mode + ", has_embeddings: "@ + model + " }"@,
{
}

/// The value of a result, of a walked file, of a listed file and of a vector index is made of all
/// their parts.
pub proof fn law_values(
    result: SearchResult,
    file: WalkedFile,
    stamp: FileStamp,
    met: MetFile,
    flat: Flat,
)
    ensures
        result@ == (result.chunk@, result.score_bits),
        result.deep_view() == (result.chunk@, result.score_bits),
        file.deep_view() == file@,
        file@.relative_path == file.relative_path@,
        file@.content == file.content@,
        file@.content_type == file.content_type,
        match file.language {
            Some(l) => file@.language == Some(l@),
            None => file@.language is None,
        },
        stamp.deep_view() == (stamp.path@, stamp.modified),
        met.deep_view().1 == (met.stamp.path@, met.stamp.modified),
        met.deep_view().0.len() == met.directories@.len(),
        forall|i: int|
            0 <= i < met.directories@.len() ==> #[trigger] met.deep_view().0[i]
                == met.directories@[i]@,
        flat.spec_vecs().len() == 0 ==> flat.spec_dim() == 0,
        flat.spec_vecs().len() > 0 ==> flat.spec_dim() == flat.spec_vecs()[0].len(),
{
}

} // verus!
