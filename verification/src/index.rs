//! The index: construction, search and statistics.
use vstd::prelude::*;
#[allow(unused_imports)]
use vstd::seq_lib::seq_to_set_is_finite;
use vstd::string::StringExecFns;

use crate::ann::Flat;
use crate::bm25::BM25Index;
use crate::embed::Embedder;
#[allow(unused_imports)]
use crate::engine::{all_documented, chunked, encoded};
use crate::engine::{tokenize_chunks, Engine};
use crate::error::SonarError;
#[allow(unused_imports)]
use crate::groups::{counts, file_keys, groups, language_keys, law_counts_are_group_sizes};
use crate::groups::{count_languages, group_by_file, group_by_language};
use crate::keyed::StringMap;
#[allow(unused_imports)]
use crate::scores::{points_at, score_map};
use crate::scores::{score_hits, Scores};
#[allow(unused_imports)]
use crate::text::{blank, decimal};
use crate::text::{is_blank, to_decimal};
#[allow(unused_imports)]
use crate::types::ChunkView;
use crate::types::{Chunk, Hit, IndexStats, SearchResult};
use crate::walk::{walk_directory, Project, RootStatus, WalkedFile};
#[allow(unused_imports)]
use crate::walk::{picked_files, WalkedFileView};

verus! {

/// Which retrieval backends a search uses.
#[derive(Debug, Clone, Copy, PartialEq, Eq, Structural)]
pub enum Mode {
    /// Keyword search only.
    Bm25,
    /// Vector similarity only; needs embeddings.
    Semantic,
    /// Both combined; needs embeddings.
    Hybrid,
}

impl Default for Mode {
    fn default() -> (r: Self)
        ensures
            r == Mode::Hybrid,
    {
        Mode::Hybrid
    }
}

impl Mode {
    /// The name of the mode on the command line.
    pub open spec fn spec_name(self) -> Seq<char> {
        match self {
            Mode::Bm25 => "bm25"@,
            Mode::Semantic => "semantic"@,
            Mode::Hybrid => "hybrid"@,
        }
    }

    pub fn name(&self) -> (r: &'static str)
        ensures
            r@ == self.spec_name(),
    {
        match self {
            Mode::Bm25 => "bm25",
            Mode::Semantic => "semantic",
            Mode::Hybrid => "hybrid",
        }
    }
}

/// What a search does.
pub enum Route {
    /// There is nothing to search in or nothing to search for.
    Nothing,
    Bm25,
    Semantic,
    Hybrid,
}

/// The chunks of a project with all that it takes to search them.
pub struct SonarIndex {
    pub chunks: Vec<Chunk>,
    pub bm25: BM25Index,
    /// The chunks of each file.
    pub file_mapping: StringMap<Vec<usize>>,
    /// The chunks of each language.
    pub language_mapping: StringMap<Vec<usize>>,
    pub embedder: Option<Embedder>,
    pub flat: Option<Flat>,
    pub mode: Mode,
}

/// `chunks` are the chunks that the engine may make of the files, file by file.
pub open spec fn chunks_of_files<E: Engine>(
    engine: &E,
    files: Seq<WalkedFileView>,
    chunks: Seq<ChunkView>,
) -> bool {
    exists|parts: Seq<Seq<ChunkView>>|
        {
            &&& parts.len() == files.len()
            &&& forall|i: int|
                0 <= i < files.len() ==> chunked(
                    engine,
                    files[i].content,
                    files[i].relative_path,
                    files[i].language,
                    #[trigger] parts[i],
                )
            &&& chunks == #[trigger] parts.flatten()
        }
}

/// The texts of the chunks.
pub open spec fn contents(chunks: Seq<ChunkView>) -> Seq<Seq<char>> {
    Seq::new(chunks.len(), |i: int| chunks[i].content)
}

/// `flat` holds the vectors that the engine may make of the texts of the chunks.
pub open spec fn vectors_of_chunks<E: Engine>(
    engine: &E,
    embedder: &Embedder,
    chunks: Seq<ChunkView>,
    flat: &Flat,
) -> bool {
    exists|texts: Vec<String>, vecs: Vec<Vec<u32>>|
        {
            &&& texts.deep_view() == contents(chunks)
            &&& #[trigger] call_ensures(E::encode_batch, (engine, embedder, &texts), vecs)
            &&& flat.spec_vecs() == vecs.deep_view()
        }
}

impl SonarIndex {
    /// The mappings list the chunks as they are.
    pub open spec fn grouped(&self) -> bool {
        &&& self.file_mapping@ == groups(file_keys(self.chunks.deep_view()))
        &&& self.language_mapping@ == groups(language_keys(self.chunks.deep_view()))
    }

    /// The index searches by keywords only.
    pub open spec fn keyword_only(&self) -> bool {
        &&& self.embedder is None
        &&& self.flat is None
        &&& self.mode == Mode::Bm25
    }

    /// Queries can be embedded and compared with vectors.
    pub open spec fn searches_vectors(&self) -> bool {
        self.embedder is Some && self.flat is Some
    }

    /// What a search for `query` does: a mode that needs embeddings falls back to keywords
    /// without them.
    pub open spec fn route(&self, query: Seq<char>) -> Route {
        if self.chunks@.len() == 0 || blank(query) {
            Route::Nothing
        } else if !self.searches_vectors() {
            Route::Bm25
        } else {
            match self.mode {
                Mode::Bm25 => Route::Bm25,
                Mode::Semantic => Route::Semantic,
                Mode::Hybrid => Route::Hybrid,
            }
        }
    }

    /// The index has the embeddings and the mode that come of asking for `requested`: if the model
    /// does not load, keyword search is left.
    pub open spec fn embedded<E: Engine>(&self, engine: &E, requested: Mode) -> bool {
        if requested == Mode::Bm25 {
            self.keyword_only()
        } else {
            exists|loaded: Result<Embedder, String>|
                {
                    &&& #[trigger] call_ensures(E::load_embedder, (engine,), loaded)
                    &&& match loaded {
                        Ok(embedder) => {
                            &&& self.embedder == Some(embedder)
                            &&& self.flat matches Some(flat) && vectors_of_chunks(
                                engine,
                                &embedder,
                                self.chunks.deep_view(),
                                &flat,
                            )
                            &&& self.mode == requested
                        },
                        Err(_) => self.keyword_only(),
                    }
                }
        }
    }
}

/// `r` is what building an index of a project may give.
pub open spec fn built<E: Engine>(
    engine: &E,
    project: Project,
    requested: Mode,
    r: Result<SonarIndex, SonarError>,
) -> bool {
    match project.status {
        RootStatus::Missing => r matches Err(SonarError::PathMissing { path }) && path@
            == project.root@,
        RootStatus::NotADirectory => r matches Err(SonarError::NotADirectory { path }) && path@
            == project.root@,
        RootStatus::Directory => if picked_files(project.entries@).len() == 0 {
            r matches Err(SonarError::NoSupportedFiles { path }) && path@ == project.root@
        } else {
            exists|chunks: Seq<ChunkView>|
                {
                    &&& #[trigger] chunks_of_files(engine, picked_files(project.entries@), chunks)
                    &&& if chunks.len() == 0 {
                        r matches Err(SonarError::NoChunks)
                    } else {
                        &&& r matches Ok(index)
                        &&& index.chunks.deep_view() == chunks
                        &&& all_documented(
                            engine,
                            index.chunks@,
                            index.bm25.spec_documents(),
                        )
                        &&& index.grouped()
                        &&& index.embedded(engine, requested)
                    }
                }
        },
    }
}

/// `r` is a ranking that the engine may make of `scores`.
pub open spec fn ranked<E: Engine>(
    engine: &E,
    scores: Scores,
    query: &str,
    chunks: &Vec<Chunk>,
    top_k: usize,
    penalise_paths: bool,
    r: Vec<SearchResult>,
) -> bool {
    exists|spread: Scores, boosted: Scores|
        {
            &&& #[trigger] call_ensures(E::boost_multi_chunk_files, (engine, scores), spread)
            &&& #[trigger] call_ensures(
                E::apply_query_boost,
                (engine, &spread, query, chunks),
                boosted,
            )
            &&& call_ensures(E::rerank_topk, (engine, &boosted, top_k, penalise_paths), r)
        }
}

/// The number of candidates that a backend is asked for.
pub open spec fn candidates(top_k: usize) -> usize {
    (top_k * 5) as usize
}

/// `scores` are scores that keyword search may give to the chunks.
pub open spec fn keyword_scores<E: Engine>(
    engine: &E,
    index: &SonarIndex,
    query: &str,
    top_k: usize,
    scores: Scores,
) -> bool {
    exists|tokens: Vec<String>, hits: Vec<Hit>|
        {
            &&& #[trigger] call_ensures(E::tokenize, (engine, query), tokens)
            &&& #[trigger] call_ensures(
                E::bm25_search,
                (engine, &index.bm25, &tokens, candidates(top_k)),
                hits,
            )
            &&& scores@ == score_map(index.chunks.deep_view(), hits@)
        }
}

/// `scores` are scores that vector search may give to the chunks.
pub open spec fn vector_scores<E: Engine>(
    engine: &E,
    index: &SonarIndex,
    query: &str,
    top_k: usize,
    scores: Scores,
) -> bool {
    index.searches_vectors() && exists|vector: Vec<u32>, hits: Vec<Hit>|
        {
            &&& #[trigger] call_ensures(
                E::encode,
                (engine, &index.embedder->Some_0, query),
                vector,
            )
            &&& #[trigger] call_ensures(
                E::flat_query,
                (engine, &index.flat->Some_0, &vector, candidates(top_k)),
                hits,
            )
            &&& scores@ == score_map(index.chunks.deep_view(), hits@)
        }
}

/// `r` is what keyword search may find.
pub open spec fn bm25_results<E: Engine>(
    engine: &E,
    index: &SonarIndex,
    query: &str,
    top_k: usize,
    r: Vec<SearchResult>,
) -> bool {
    exists|scores: Scores|
        {
            &&& #[trigger] keyword_scores(engine, index, query, top_k, scores)
            &&& ranked(engine, scores, query, &index.chunks, top_k, true, r)
        }
}

/// `r` is what vector search may find.
pub open spec fn semantic_results<E: Engine>(
    engine: &E,
    index: &SonarIndex,
    query: &str,
    top_k: usize,
    r: Vec<SearchResult>,
) -> bool {
    exists|scores: Scores|
        {
            &&& #[trigger] vector_scores(engine, index, query, top_k, scores)
            &&& ranked(engine, scores, query, &index.chunks, top_k, false, r)
        }
}

/// `r` is what the combined search may find.
pub open spec fn hybrid_results<E: Engine>(
    engine: &E,
    index: &SonarIndex,
    query: &str,
    top_k: usize,
    r: Vec<SearchResult>,
) -> bool {
    exists|semantic: Scores, bm25: Scores|
        {
            &&& #[trigger] vector_scores(engine, index, query, top_k, semantic)
            &&& #[trigger] keyword_scores(engine, index, query, top_k, bm25)
            &&& call_ensures(
                E::hybrid_search,
                (engine, query, &semantic, &bm25, &index.chunks, top_k, None, true),
                r,
            )
        }
}

/// `r` is what a search may find.
pub open spec fn found<E: Engine>(
    engine: &E,
    index: &SonarIndex,
    query: &str,
    top_k: usize,
    r: Vec<SearchResult>,
) -> bool {
    match index.route(query@) {
        Route::Nothing => r@.len() == 0,
        Route::Bm25 => bm25_results(engine, index, query, top_k, r),
        Route::Semantic => semantic_results(engine, index, query, top_k, r),
        Route::Hybrid => hybrid_results(engine, index, query, top_k, r),
    }
}

/// The chunks that were hit, other than `chunk`, with their scores.
pub open spec fn others(chunks: Seq<ChunkView>, hits: Seq<Hit>, chunk: ChunkView) -> Seq<
    (ChunkView, u64),
>
    decreases hits.len(),
{
    if hits.len() == 0 {
        Seq::empty()
    } else {
        let before = others(chunks, hits.drop_last(), chunk);
        let hit = hits.last();
        if hit.index < chunks.len() && chunks[hit.index as int] != chunk {
            before.push((chunks[hit.index as int], hit.score_bits))
        } else {
            before
        }
    }
}

/// The first `top_k` of the chunks that were hit, other than `chunk`.
pub open spec fn related(
    chunks: Seq<ChunkView>,
    hits: Seq<Hit>,
    chunk: ChunkView,
    top_k: usize,
) -> Seq<(ChunkView, u64)> {
    let all = others(chunks, hits, chunk);
    if all.len() <= top_k {
        all
    } else {
        all.take(top_k as int)
    }
}

/// `r` is what looking for related chunks may find.
pub open spec fn related_found<E: Engine>(
    engine: &E,
    index: &SonarIndex,
    chunk: &Chunk,
    top_k: usize,
    r: Vec<SearchResult>,
) -> bool {
    if index.searches_vectors() {
        exists|vector: Vec<u32>, hits: Vec<Hit>|
            {
                &&& #[trigger] encoded(engine, &index.embedder->Some_0, chunk.content@, vector)
                &&& #[trigger] call_ensures(
                    E::flat_query,
                    (engine, &index.flat->Some_0, &vector, (top_k + 1) as usize),
                    hits,
                )
                &&& r.deep_view() == related(index.chunks.deep_view(), hits@, chunk@, top_k)
            }
    } else {
        r@.len() == 0
    }
}

/// Later hits only append.
proof fn lemma_others_prefix(chunks: Seq<ChunkView>, hits: Seq<Hit>, chunk: ChunkView, i: int)
    requires
        0 <= i <= hits.len(),
    ensures
        others(chunks, hits.take(i), chunk).is_prefix_of(others(chunks, hits, chunk)),
    decreases hits.len() - i,
{
    if i < hits.len() {
        lemma_others_prefix(chunks, hits, chunk, i + 1);
        assert(hits.take(i + 1).drop_last() =~= hits.take(i));
        let a = others(chunks, hits.take(i), chunk);
        let b = others(chunks, hits.take(i + 1), chunk);
        let c = others(chunks, hits, chunk);
        assert(a.is_prefix_of(b));
        assert(c.take(a.len() as int) =~= c.take(b.len() as int).take(a.len() as int));
        assert(a.is_prefix_of(c));
    } else {
        assert(hits.take(i) =~= hits);
    }
}

/// Picks the first `top_k` of the chunks that were hit, other than `chunk`.
pub fn related_chunks(
    chunks: &Vec<Chunk>,
    hits: &Vec<Hit>,
    chunk: &Chunk,
    top_k: usize,
) -> (r: Vec<SearchResult>)
    ensures
        r.deep_view() == related(chunks.deep_view(), hits@, chunk@, top_k),
{
    let mut results: Vec<SearchResult> = Vec::new();
    let ghost views = chunks.deep_view();
    assert(results.deep_view() =~= others(views, hits@.take(0), chunk@));
    let mut i: usize = 0;
    while i < hits.len() && results.len() < top_k
        invariant
            i <= hits@.len(),
            views == chunks.deep_view(),
            results@.len() <= top_k,
            results.deep_view() == others(views, hits@.take(i as int), chunk@),
        decreases hits@.len() - i,
    {
        let hit = hits[i];
        let ghost before = results.deep_view();
        assert(hits@.take(i + 1).drop_last() =~= hits@.take(i as int));
        if hit.index < chunks.len() && chunks[hit.index] != *chunk {
            let found = SearchResult {
                chunk: chunks[hit.index].clone(),
                score_bits: hit.score_bits,
            };
            let ghost value = found@;
            results.push(found);
            assert(results.deep_view() =~= before.push(value));
        }
        i = i + 1;
    }
    proof {
        lemma_others_prefix(views, hits@, chunk@, i as int);
        let all = others(views, hits@, chunk@);
        assert(hits@.take(hits@.len() as int) =~= hits@);
        if i < hits@.len() {
            assert(results.deep_view() =~= all.take(top_k as int));
        }
    }
    results
}

/// Chunks all files.
fn chunk_files<E: Engine>(engine: &E, files: &Vec<WalkedFile>) -> (r: Vec<Chunk>)
    ensures
        chunks_of_files(engine, files.deep_view(), r.deep_view()),
{
    let mut chunks: Vec<Chunk> = Vec::new();
    let ghost views = files.deep_view();
    let ghost mut parts: Seq<Seq<ChunkView>> = Seq::empty();
    assert(chunks.deep_view() =~= parts.flatten());
    for i in 0..files.len()
        invariant
            views == files.deep_view(),
            parts.len() == i,
            forall|j: int|
                0 <= j < i ==> chunked(
                    engine,
                    views[j].content,
                    views[j].relative_path,
                    views[j].language,
                    #[trigger] parts[j],
                ),
            chunks.deep_view() == parts.flatten(),
    {
        let file = &files[i];
        let language = match &file.language {
            Some(l) => Some(l.as_str()),
            None => None,
        };
        let mut part = engine.chunk_source(
            file.content.as_str(),
            file.relative_path.as_str(),
            language,
        );
        let ghost before = chunks.deep_view();
        let ghost value = part.deep_view();
        proof {
            assert(views[i as int] == file@);
            assert(chunked(
                engine,
                file.content@,
                file.relative_path@,
                file.language.deep_view(),
                value,
            ));
            parts.lemma_flatten_push(value);
            parts = parts.push(value);
        }
        chunks.append(&mut part);
        assert(chunks.deep_view() =~= before + value);
    }
    chunks
}

/// Copies the texts of the chunks.
fn chunk_texts(chunks: &Vec<Chunk>) -> (r: Vec<String>)
    ensures
        r.deep_view() == contents(chunks.deep_view()),
{
    let mut texts: Vec<String> = Vec::new();
    for i in 0..chunks.len()
        invariant
            texts@.len() == i,
            forall|j: int| 0 <= j < i ==> (#[trigger] texts@[j])@ == chunks@[j].content@,
    {
        texts.push(chunks[i].content.clone());
    }
    assert(texts.deep_view() =~= contents(chunks.deep_view()));
    texts
}

impl SonarIndex {
    /// An index that searches by keywords only.
    pub fn new(
        chunks: Vec<Chunk>,
        bm25: BM25Index,
        file_mapping: StringMap<Vec<usize>>,
        language_mapping: StringMap<Vec<usize>>,
    ) -> (r: Self)
        ensures
            r.chunks == chunks,
            r.bm25 == bm25,
            r.file_mapping == file_mapping,
            r.language_mapping == language_mapping,
            r.keyword_only(),
    {
        SonarIndex {
            chunks,
            bm25,
            file_mapping,
            language_mapping,
            embedder: None,
            flat: None,
            mode: Mode::Bm25,
        }
    }

    /// An index with a model and with vectors.
    pub fn new_hybrid(
        chunks: Vec<Chunk>,
        bm25: BM25Index,
        file_mapping: StringMap<Vec<usize>>,
        language_mapping: StringMap<Vec<usize>>,
        embedder: Embedder,
        flat: Flat,
    ) -> (r: Self)
        ensures
            r.chunks == chunks,
            r.bm25 == bm25,
            r.file_mapping == file_mapping,
            r.language_mapping == language_mapping,
            r.embedder == Some(embedder),
            r.flat == Some(flat),
            r.mode == Mode::Hybrid,
    {
        SonarIndex {
            chunks,
            bm25,
            file_mapping,
            language_mapping,
            embedder: Some(embedder),
            flat: Some(flat),
            mode: Mode::Hybrid,
        }
    }

    /// An index with vectors, and with a model if there is one. The vectors stay in any case;
    /// without a model the index searches by keywords.
    pub fn with_vectors(
        chunks: Vec<Chunk>,
        bm25: BM25Index,
        file_mapping: StringMap<Vec<usize>>,
        language_mapping: StringMap<Vec<usize>>,
        flat: Flat,
        embedder: Option<Embedder>,
    ) -> (r: Self)
        ensures
            r.chunks == chunks,
            r.bm25 == bm25,
            r.file_mapping == file_mapping,
            r.language_mapping == language_mapping,
            r.embedder == embedder,
            r.flat == Some(flat),
            r.mode == if embedder is Some {
                Mode::Hybrid
            } else {
                Mode::Bm25
            },
    {
        let mode = if embedder.is_some() {
            Mode::Hybrid
        } else {
            Mode::Bm25
        };
        SonarIndex {
            chunks,
            bm25,
            file_mapping,
            language_mapping,
            embedder,
            flat: Some(flat),
            mode,
        }
    }

    /// An index with vectors that were loaded from the cache. The model is loaded at once, so that
    /// queries can be embedded.
    pub fn new_with_vectors<E: Engine>(
        engine: &E,
        chunks: Vec<Chunk>,
        bm25: BM25Index,
        file_mapping: StringMap<Vec<usize>>,
        language_mapping: StringMap<Vec<usize>>,
        flat: Flat,
    ) -> (r: Self)
        ensures
            r.chunks == chunks,
            r.bm25 == bm25,
            r.file_mapping == file_mapping,
            r.language_mapping == language_mapping,
            r.flat == Some(flat),
            r.revived(engine),
    {
        let loaded = engine.load_embedder();
        let r = SonarIndex::with_vectors(
            chunks,
            bm25,
            file_mapping,
            language_mapping,
            flat,
            loaded.ok(),
        );
        assert(r.embedder == match loaded {
            Ok(embedder) => Some(embedder),
            Err(_) => None,
        });
        r
    }

    /// The index has the model that the engine may have loaded, and the mode that goes with it.
    pub open spec fn revived<E: Engine>(&self, engine: &E) -> bool {
        exists|loaded: Result<Embedder, String>|
            {
                &&& #[trigger] call_ensures(E::load_embedder, (engine,), loaded)
                &&& match loaded {
                    Ok(embedder) => self.embedder == Some(embedder) && self.mode == Mode::Hybrid,
                    Err(_) => self.embedder is None && self.mode == Mode::Bm25,
                }
            }
    }

    /// Builds an index of a project for all modes, as far as the embedding model is available.
    pub fn from_path<E: Engine>(engine: &E, project: Project) -> (r: Result<Self, SonarError>)
        ensures
            built(engine, project, Mode::Hybrid, r),
    {
        Self::from_path_with_mode(engine, project, Mode::default())
    }

    /// Builds an index of a project in the given mode. If the mode needs the embedding model and
    /// it does not load, the index searches by keywords.
    pub fn from_path_with_mode<E: Engine>(
        engine: &E,
        project: Project,
        requested_mode: Mode,
    ) -> (r: Result<Self, SonarError>)
        ensures
            built(engine, project, requested_mode, r),
    {
        match project.status {
            RootStatus::Missing => {
                return Err(SonarError::PathMissing { path: project.root });
            },
            RootStatus::NotADirectory => {
                return Err(SonarError::NotADirectory { path: project.root });
            },
            RootStatus::Directory => {},
        }
        let ghost picked = picked_files(project.entries@);
        let walked = walk_directory(project.entries);
        assert(walked@.len() == walked.deep_view().len());
        if walked.len() == 0 {
            return Err(SonarError::NoSupportedFiles { path: project.root });
        }
        let chunks = chunk_files(engine, &walked);
        assert(chunks_of_files(engine, picked, chunks.deep_view()));
        if chunks.len() == 0 {
            assert(chunks.deep_view().len() == 0);
            return Err(SonarError::NoChunks);
        }
        let documents = tokenize_chunks(engine, &chunks);
        let bm25 = BM25Index::build(documents);
        let file_mapping = group_by_file(&chunks);
        let language_mapping = group_by_language(&chunks);

        if requested_mode == Mode::Bm25 {
            return Ok(SonarIndex::new(chunks, bm25, file_mapping, language_mapping));
        }
        let loaded = engine.load_embedder();
        match loaded {
            Ok(embedder) => {
                let texts = chunk_texts(&chunks);
                let vecs = engine.encode_batch(&embedder, &texts);
                let flat = Flat::new(vecs);
                let ghost views = chunks.deep_view();
                assert(vectors_of_chunks(engine, &embedder, views, &flat));
                Ok(
                    SonarIndex {
                        chunks,
                        bm25,
                        file_mapping,
                        language_mapping,
                        embedder: Some(embedder),
                        flat: Some(flat),
                        mode: requested_mode,
                    },
                )
            },
            Err(_) => Ok(SonarIndex::new(chunks, bm25, file_mapping, language_mapping)),
        }
    }

    /// Searches in the active mode.
    pub fn search<E: Engine>(&self, engine: &E, query: &str, top_k: usize) -> (r: Vec<SearchResult>)
        requires
            !(self.route(query@) is Nothing) ==> top_k * 5 <= usize::MAX,
        ensures
            found(engine, self, query, top_k, r),
    {
        if self.chunks.len() == 0 || is_blank(query) {
            return Vec::new();
        }
        match self.mode {
            Mode::Bm25 => self.search_bm25(engine, query, top_k),
            Mode::Semantic => self.search_semantic(engine, query, top_k),
            Mode::Hybrid => self.search_hybrid(engine, query, top_k),
        }
    }

    fn keyword_hits<E: Engine>(&self, engine: &E, query: &str, top_k: usize) -> (r: Scores)
        requires
            top_k * 5 <= usize::MAX,
        ensures
            keyword_scores(engine, self, query, top_k, r),
    {
        let tokens = engine.tokenize(query);
        let hits = engine.bm25_search(&self.bm25, &tokens, top_k * 5);
        score_hits(&self.chunks, &hits)
    }

    fn rank<E: Engine>(
        &self,
        engine: &E,
        scores: Scores,
        query: &str,
        top_k: usize,
        penalise_paths: bool,
    ) -> (r: Vec<SearchResult>)
        ensures
            ranked(engine, scores, query, &self.chunks, top_k, penalise_paths, r),
    {
        let spread = engine.boost_multi_chunk_files(scores);
        let boosted = engine.apply_query_boost(&spread, query, &self.chunks);
        engine.rerank_topk(&boosted, top_k, penalise_paths)
    }

    fn search_bm25<E: Engine>(&self, engine: &E, query: &str, top_k: usize) -> (r: Vec<
        SearchResult,
    >)
        requires
            top_k * 5 <= usize::MAX,
        ensures
            bm25_results(engine, self, query, top_k, r),
    {
        let scores = self.keyword_hits(engine, query, top_k);
        self.rank(engine, scores, query, top_k, true)
    }

    fn search_semantic<E: Engine>(&self, engine: &E, query: &str, top_k: usize) -> (r: Vec<
        SearchResult,
    >)
        requires
            top_k * 5 <= usize::MAX,
        ensures
            if self.searches_vectors() {
                semantic_results(engine, self, query, top_k, r)
            } else {
                bm25_results(engine, self, query, top_k, r)
            },
    {
        let (embedder, flat) = match (&self.embedder, &self.flat) {
            (Some(e), Some(f)) => (e, f),
            _ => {
                return self.search_bm25(engine, query, top_k);
            },
        };
        let vector = engine.encode(embedder, query);
        let hits = engine.flat_query(flat, &vector, top_k * 5);
        let scores = score_hits(&self.chunks, &hits);
        assert(vector_scores(engine, self, query, top_k, scores));
        self.rank(engine, scores, query, top_k, false)
    }

    fn search_hybrid<E: Engine>(&self, engine: &E, query: &str, top_k: usize) -> (r: Vec<
        SearchResult,
    >)
        requires
            top_k * 5 <= usize::MAX,
        ensures
            if self.searches_vectors() {
                hybrid_results(engine, self, query, top_k, r)
            } else {
                bm25_results(engine, self, query, top_k, r)
            },
    {
        let (embedder, flat) = match (&self.embedder, &self.flat) {
            (Some(e), Some(f)) => (e, f),
            _ => {
                return self.search_bm25(engine, query, top_k);
            },
        };
        let vector = engine.encode(embedder, query);
        let hits = engine.flat_query(flat, &vector, top_k * 5);
        let semantic = score_hits(&self.chunks, &hits);
        assert(vector_scores(engine, self, query, top_k, semantic));
        let bm25 = self.keyword_hits(engine, query, top_k);
        engine.hybrid_search(query, &semantic, &bm25, &self.chunks, top_k, None, true)
    }

    /// Finds the chunks nearest to the given one. Without embeddings there are none.
    pub fn find_related<E: Engine>(&self, engine: &E, chunk: &Chunk, top_k: usize) -> (r: Vec<
        SearchResult,
    >)
        requires
            self.searches_vectors() ==> top_k < usize::MAX,
        ensures
            related_found(engine, self, chunk, top_k, r),
    {
        let (embedder, flat) = match (&self.embedder, &self.flat) {
            (Some(e), Some(f)) => (e, f),
            _ => {
                return Vec::new();
            },
        };
        let vector = engine.encode(embedder, chunk.content.as_str());
        assert(encoded(engine, embedder, chunk.content@, vector));
        let hits = engine.flat_query(flat, &vector, top_k + 1);
        related_chunks(&self.chunks, &hits, chunk, top_k)
    }

    /// The size and the kind of the index in one line.
    pub open spec fn summary(&self) -> Seq<char> {
        let mode = match self.mode {
            Mode::Bm25 => "Bm25"@,
            Mode::Semantic => "Semantic"@,
            Mode::Hybrid => "Hybrid"@,
        };
        let model = if self.embedder is Some {
            "true"@
        } else {
            "false"@
        };
        "SonarIndex { chunks: "@ + decimal(self.chunks@.len()) + ", mode: "@ + mode
            + ", has_embeddings: "@ + model + " }"@
    }

    /// Describes the index in one line: the number of chunks, the mode and whether there is a model.
    pub fn describe(&self) -> (r: String)
        ensures
            r@ == self.summary(),
    {
        let mode = match self.mode {
            Mode::Bm25 => "Bm25",
            Mode::Semantic => "Semantic",
            Mode::Hybrid => "Hybrid",
        };
        let mut out = "SonarIndex { chunks: ".to_owned();
        out.append(to_decimal(self.chunks.len() as u128).as_str());
        out.append(", mode: ");
        out.append(mode);
        out.append(", has_embeddings: ");
        if self.embedder.is_some() {
            out.append("true");
        } else {
            out.append("false");
        }
        out.append(" }");
        out
    }

    /// `stats` are the numbers of files and chunks, and of the chunks of each language.
    pub open spec fn counted(&self, stats: IndexStats) -> bool {
        &&& stats.indexed_files == self.file_mapping@.len()
        &&& stats.total_chunks == self.chunks@.len()
        &&& stats.languages@ == counts(language_keys(self.chunks.deep_view()))
    }

    /// Counts files, chunks and the chunks of each language.
    pub fn stats(&self) -> (r: IndexStats)
        ensures
            self.counted(r),
    {
        IndexStats {
            indexed_files: self.file_mapping.len(),
            total_chunks: self.chunks.len(),
            languages: count_languages(&self.chunks),
        }
    }

    pub fn mode(&self) -> (r: Mode)
        ensures
            r == self.mode,
    {
        self.mode
    }

    /// Overrides the search mode, for example to search an index with embeddings by keywords.
    pub fn set_mode(&mut self, mode: Mode)
        ensures
            *final(self) == (SonarIndex { mode, ..*old(self) }),
    {
        self.mode = mode;
    }

    /// Whether the index holds vectors.
    pub fn has_embeddings(&self) -> (r: bool)
        ensures
            r == self.flat is Some,
    {
        self.flat.is_some()
    }

    pub fn flat(&self) -> (r: Option<&Flat>)
        ensures
            match r {
                Some(f) => self.flat == Some(*f),
                None => self.flat is None,
            },
    {
        self.flat.as_ref()
    }

    pub fn chunks(&self) -> (r: &[Chunk])
        ensures
            r@ == self.chunks@,
    {
        self.chunks.as_slice()
    }

    pub fn file_mapping(&self) -> (r: &StringMap<Vec<usize>>)
        ensures
            *r == self.file_mapping,
    {
        &self.file_mapping
    }

    pub fn language_mapping(&self) -> (r: &StringMap<Vec<usize>>)
        ensures
            *r == self.language_mapping,
    {
        &self.language_mapping
    }
}

/// Without a model or without vectors every mode searches by keywords.
pub proof fn law_falls_back_to_keywords(index: SonarIndex, query: Seq<char>, mode: Mode)
    requires
        !index.searches_vectors(),
    ensures
        (SonarIndex { mode, ..index }).route(query) == (SonarIndex {
            mode: Mode::Bm25,
            ..index
        }).route(query),
{
}

/// A search for white space finds nothing, whatever the index.
pub proof fn law_blank_query_finds_nothing(index: SonarIndex, query: Seq<char>)
    requires
        blank(query),
    ensures
        index.route(query) is Nothing,
{
}

/// Keyword search depends on the chunks and on the keyword index alone: what it may find is the
/// same with and without a model, vectors and groups. So are the results of a search in the keyword
/// mode.
pub proof fn law_keyword_search_ignores_vectors<E: Engine>(
    engine: &E,
    a: SonarIndex,
    b: SonarIndex,
    query: &str,
    top_k: usize,
    r: Vec<SearchResult>,
)
    requires
        a.chunks == b.chunks,
        a.bm25 == b.bm25,
    ensures
        bm25_results(engine, &a, query, top_k, r) == bm25_results(engine, &b, query, top_k, r),
        a.mode == Mode::Bm25 && b.mode == Mode::Bm25 ==> found(engine, &a, query, top_k, r)
            == found(engine, &b, query, top_k, r),
{
    assert forall|scores: Scores|
        keyword_scores(engine, &a, query, top_k, scores) == keyword_scores(
            engine,
            &b,
            query,
            top_k,
            scores,
        ) by {}
}

/// Vector search depends on the chunks, the model and the vectors alone: what it may find is the
/// same whatever the keyword index and the groups. So are the results of a search in the semantic
/// mode.
pub proof fn law_vector_search_ignores_keywords<E: Engine>(
    engine: &E,
    a: SonarIndex,
    b: SonarIndex,
    query: &str,
    top_k: usize,
    r: Vec<SearchResult>,
)
    requires
        a.chunks == b.chunks,
        a.embedder == b.embedder,
        a.flat == b.flat,
    ensures
        semantic_results(engine, &a, query, top_k, r) == semantic_results(
            engine,
            &b,
            query,
            top_k,
            r,
        ),
        a.mode == Mode::Semantic && b.mode == Mode::Semantic && a.searches_vectors() ==> found(
            engine,
            &a,
            query,
            top_k,
            r,
        ) == found(engine, &b, query, top_k, r),
{
    assert forall|scores: Scores|
        vector_scores(engine, &a, query, top_k, scores) == vector_scores(
            engine,
            &b,
            query,
            top_k,
            scores,
        ) by {}
}

/// A built index is in the requested mode and can search in it, or the model was not available
/// and it searches by keywords.
pub proof fn law_built_index_can_search<E: Engine>(
    engine: &E,
    project: Project,
    requested: Mode,
    index: SonarIndex,
)
    requires
        built(engine, project, requested, Ok(index)),
    ensures
        index.chunks@.len() > 0,
        index.grouped(),
        index.keyword_only() || (index.mode == requested && index.searches_vectors()),
        requested == Mode::Bm25 ==> index.keyword_only(),
        index.mode != Mode::Bm25 ==> index.searches_vectors(),
{
    assert(index.chunks.deep_view().len() == index.chunks@.len());
}

/// The paths of the files that the chunks come from.
pub open spec fn paths(chunks: Seq<ChunkView>) -> Set<Seq<char>> {
    Seq::new(chunks.len(), |i: int| chunks[i].file_path).to_set()
}

/// The statistics of an index whose groups list its chunks as they are: the files are the distinct
/// paths of the chunks, at most one for each chunk, and the languages are counted as they are
/// grouped.
pub proof fn law_statistics(index: SonarIndex, stats: IndexStats, language: Seq<char>)
    requires
        index.grouped(),
        index.counted(stats),
    ensures
        stats.indexed_files == paths(index.chunks.deep_view()).len(),
        stats.indexed_files <= stats.total_chunks,
        index.chunks@.len() > 0 ==> stats.indexed_files > 0,
        stats.languages@.contains_key(language) <==> index.language_mapping@.contains_key(language),
        stats.languages@.contains_key(language) ==> stats.languages@[language]
            == index.language_mapping@[language].len(),
        stats.languages@.contains_key(language) <==> exists|i: int|
            0 <= i < index.chunks@.len() && (#[trigger] index.chunks.deep_view()[i]).language
                == Some(language),
{
    let chunks = index.chunks.deep_view();
    assert(chunks.len() == index.chunks@.len());
    let names = Seq::new(chunks.len(), |i: int| chunks[i].file_path);
    let files = file_keys(chunks);
    assert(index.file_mapping@.dom() =~= names.to_set()) by {
        assert forall|k: Seq<char>| files.contains(Some(k)) <==> names.contains(k) by {
            if files.contains(Some(k)) {
                let i = choose|i: int| 0 <= i < files.len() && files[i] == Some(k);
                assert(names[i] == k);
            }
            if names.contains(k) {
                let i = choose|i: int| 0 <= i < names.len() && names[i] == k;
                assert(files[i] == Some(k));
            }
        }
    }
    names.lemma_cardinality_of_set();
    seq_to_set_is_finite(names);
    if chunks.len() > 0 {
        assert(names.contains(names[0]));
        assert(names.to_set().contains(names[0]));
    }
    let languages = language_keys(chunks);
    assert(languages.len() == chunks.len());
    assert(stats.total_chunks <= usize::MAX);
    law_counts_are_group_sizes(languages, language);
    if languages.contains(Some(language)) {
        let i = choose|i: int| 0 <= i < languages.len() && languages[i] == Some(language);
        assert(chunks[i].language == Some(language));
    }
    if exists|i: int|
        0 <= i < index.chunks@.len() && (#[trigger] chunks[i]).language == Some(language) {
        let i = choose|i: int|
            0 <= i < index.chunks@.len() && (#[trigger] chunks[i]).language == Some(language);
        assert(languages[i] == Some(language));
    }
}

/// The statistics of a built index: it holds at least one file, and no more files than chunks.
pub proof fn law_built_statistics<E: Engine>(
    engine: &E,
    project: Project,
    requested: Mode,
    index: SonarIndex,
    stats: IndexStats,
)
    requires
        built(engine, project, requested, Ok(index)),
        index.counted(stats),
    ensures
        0 < stats.indexed_files <= stats.total_chunks,
        stats.indexed_files == paths(index.chunks.deep_view()).len(),
{
    law_built_index_can_search(engine, project, requested, index);
    law_statistics(index, stats, Seq::empty());
}

/// A chunk is not related to itself, no more than `top_k` chunks are returned, and each is a
/// chunk that was hit, with the score of that hit.
pub proof fn law_related_chunks(
    chunks: Seq<ChunkView>,
    hits: Seq<Hit>,
    chunk: ChunkView,
    top_k: usize,
    i: int,
)
    requires
        0 <= i < related(chunks, hits, chunk, top_k).len(),
    ensures
        related(chunks, hits, chunk, top_k).len() <= top_k,
        related(chunks, hits, chunk, top_k)[i].0 != chunk,
        exists|k: int|
            0 <= k < hits.len() && points_at(
                chunks,
                #[trigger] hits[k],
                related(chunks, hits, chunk, top_k)[i].0,
            ) && hits[k].score_bits == related(chunks, hits, chunk, top_k)[i].1,
{
    lemma_others(chunks, hits, chunk, i);
}

proof fn lemma_others(chunks: Seq<ChunkView>, hits: Seq<Hit>, chunk: ChunkView, i: int)
    requires
        0 <= i < others(chunks, hits, chunk).len(),
    ensures
        others(chunks, hits, chunk)[i].0 != chunk,
        exists|k: int|
            0 <= k < hits.len() && points_at(
                chunks,
                #[trigger] hits[k],
                others(chunks, hits, chunk)[i].0,
            ) && hits[k].score_bits == others(chunks, hits, chunk)[i].1,
    decreases hits.len(),
{
    let rest = hits.drop_last();
    if i < others(chunks, rest, chunk).len() {
        lemma_others(chunks, rest, chunk, i);
        let found = others(chunks, hits, chunk)[i];
        let k = choose|k: int|
            0 <= k < rest.len() && points_at(chunks, #[trigger] rest[k], found.0)
                && rest[k].score_bits == found.1;
        assert(hits[k] == rest[k]);
    } else {
        assert(hits[hits.len() - 1] == hits.last());
    }
}

/// One hit more than is wanted is enough: if all hits are on chunks, and at most one of them is
/// on the chunk itself, the search returns as many as are wanted.
pub proof fn law_one_hit_more_is_enough(
    chunks: Seq<ChunkView>,
    hits: Seq<Hit>,
    chunk: ChunkView,
    top_k: usize,
)
    requires
        hits.len() == top_k + 1,
        forall|i: int| 0 <= i < hits.len() ==> (#[trigger] hits[i]).index < chunks.len(),
        forall|i: int, j: int|
            0 <= i < j < hits.len() ==> !(points_at(chunks, #[trigger] hits[i], chunk)
                && points_at(chunks, #[trigger] hits[j], chunk)),
    ensures
        related(chunks, hits, chunk, top_k).len() == top_k,
{
    lemma_others_len(chunks, hits, chunk);
}

proof fn lemma_others_len(chunks: Seq<ChunkView>, hits: Seq<Hit>, chunk: ChunkView)
    requires
        forall|i: int| 0 <= i < hits.len() ==> (#[trigger] hits[i]).index < chunks.len(),
        forall|i: int, j: int|
            0 <= i < j < hits.len() ==> !(points_at(chunks, #[trigger] hits[i], chunk)
                && points_at(chunks, #[trigger] hits[j], chunk)),
    ensures
        others(chunks, hits, chunk).len() + 1 >= hits.len(),
        (forall|i: int| 0 <= i < hits.len() ==> !points_at(chunks, #[trigger] hits[i], chunk))
            ==> others(chunks, hits, chunk).len() == hits.len(),
    decreases hits.len(),
{
    if hits.len() > 0 {
        let rest = hits.drop_last();
        let n = hits.len() - 1;
        assert(forall|i: int| 0 <= i < n ==> #[trigger] rest[i] == hits[i]);
        lemma_others_len(chunks, rest, chunk);
        assert(hits[n] == hits.last());
        if points_at(chunks, hits[n], chunk) {
            assert forall|i: int| 0 <= i < rest.len() implies !points_at(
                chunks,
                #[trigger] rest[i],
                chunk,
            ) by {
                assert(hits[i] == rest[i]);
            }
        }
    }
}

} // verus!
