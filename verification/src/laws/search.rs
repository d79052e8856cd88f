//! What searches find.
//!
//! The engine is asked for vectors, hits and rankings. The laws say which of its answers a search
//! is made of: given the answers to certain questions, and to no others, they tell the results.
use vstd::prelude::*;

#[allow(unused_imports)]
use crate::engine::Engine;
#[allow(unused_imports)]
use crate::index::{
    bm25_results, found, hybrid_results, keyword_scores, others, ranked, related, related_found,
    semantic_results, vector_scores, Mode, SonarIndex,
};
#[allow(unused_imports)]
use crate::scores::{score_map, Scores};
#[allow(unused_imports)]
use crate::text::is_white_space;
#[allow(unused_imports)]
use crate::types::{Chunk, ChunkView, Hit, SearchResult};

verus! {

/// The hit is on `chunk`, or on a chunk equal to it.
pub open spec fn hits_chunk(chunks: Seq<ChunkView>, hit: Hit, chunk: ChunkView) -> bool {
    hit.index < chunks.len() && chunks[hit.index as int] == chunk
}

/// Some hit is on `chunk`.
pub open spec fn is_hit(chunks: Seq<ChunkView>, hits: Seq<Hit>, chunk: ChunkView) -> bool {
    exists|i: int| 0 <= i < hits.len() && hits_chunk(chunks, #[trigger] hits[i], chunk)
}

/// `i` is the last hit on `chunk`.
pub open spec fn last_hit(
    chunks: Seq<ChunkView>,
    hits: Seq<Hit>,
    chunk: ChunkView,
    i: int,
) -> bool {
    &&& 0 <= i < hits.len()
    &&& hits_chunk(chunks, hits[i], chunk)
    &&& forall|j: int| i < j < hits.len() ==> !hits_chunk(chunks, #[trigger] hits[j], chunk)
}

/// `scores` are the scores of the chunks that were hit: each has that of the last hit on it.
pub open spec fn scores_of(
    chunks: Seq<ChunkView>,
    hits: Seq<Hit>,
    scores: Map<ChunkView, u64>,
) -> bool {
    &&& forall|c: ChunkView| #[trigger] scores.contains_key(c) <==> is_hit(chunks, hits, c)
    &&& forall|c: ChunkView, i: int|
        #[trigger] last_hit(chunks, hits, c, i) ==> scores[c] == hits[i].score_bits
}

proof fn lemma_has_last_hit(chunks: Seq<ChunkView>, hits: Seq<Hit>, c: ChunkView) -> (i: int)
    requires
        is_hit(chunks, hits, c),
    ensures
        last_hit(chunks, hits, c, i),
    decreases hits.len(),
{
    let n = hits.len() - 1;
    if hits_chunk(chunks, hits[n], c) {
        n
    } else {
        let rest = hits.drop_last();
        let k = choose|k: int| 0 <= k < hits.len() && hits_chunk(chunks, #[trigger] hits[k], c);
        assert(rest[k] == hits[k]);
        let i = lemma_has_last_hit(chunks, rest, c);
        assert forall|j: int| i < j < hits.len() implies !hits_chunk(
            chunks,
            #[trigger] hits[j],
            c,
        ) by {
            if j < n {
                assert(rest[j] == hits[j]);
            }
        }
        assert(rest[i] == hits[i]);
        i
    }
}

proof fn lemma_score_map_of(chunks: Seq<ChunkView>, hits: Seq<Hit>, c: ChunkView)
    ensures
        score_map(chunks, hits).contains_key(c) <==> is_hit(chunks, hits, c),
        forall|i: int| #[trigger]
            last_hit(chunks, hits, c, i) ==> score_map(chunks, hits)[c] == hits[i].score_bits,
    decreases hits.len(),
{
    if hits.len() > 0 {
        let rest = hits.drop_last();
        let n = hits.len() - 1;
        lemma_score_map_of(chunks, rest, c);
        assert(hits.last() == hits[n]);
        if is_hit(chunks, rest, c) {
            let k = choose|k: int|
                0 <= k < rest.len() && hits_chunk(chunks, #[trigger] rest[k], c);
            assert(hits[k] == rest[k]);
        }
        if is_hit(chunks, hits, c) && !hits_chunk(chunks, hits[n], c) {
            let k = choose|k: int|
                0 <= k < hits.len() && hits_chunk(chunks, #[trigger] hits[k], c);
            assert(rest[k] == hits[k]);
        }
        assert forall|i: int| #[trigger] last_hit(chunks, hits, c, i) implies score_map(
            chunks,
            hits,
        )[c] == hits[i].score_bits by {
            if i < n {
                assert(!hits_chunk(chunks, hits[n], c));
                assert(rest[i] == hits[i]);
                assert forall|j: int| i < j < rest.len() implies !hits_chunk(
                    chunks,
                    #[trigger] rest[j],
                    c,
                ) by {
                    assert(rest[j] == hits[j]);
                }
                assert(last_hit(chunks, rest, c, i));
            }
        }
    }
}

/// The scores that hits give are determined: a chunk is scored exactly if it was hit, and its score
/// is that of the last hit on it.
pub proof fn law_scores_of_hits(
    chunks: Seq<ChunkView>,
    hits: Seq<Hit>,
    scores: Map<ChunkView, u64>,
)
    ensures
        scores == score_map(chunks, hits) <==> scores_of(chunks, hits, scores),
{
    let map = score_map(chunks, hits);
    assert forall|c: ChunkView| #[trigger] map.contains_key(c) <==> is_hit(chunks, hits, c) by {
        lemma_score_map_of(chunks, hits, c);
    }
    assert forall|c: ChunkView, i: int| #[trigger] last_hit(chunks, hits, c, i) implies map[c]
        == hits[i].score_bits by {
        lemma_score_map_of(chunks, hits, c);
    }
    if scores_of(chunks, hits, scores) {
        assert forall|c: ChunkView| #[trigger] scores.contains_key(c) implies scores[c]
            == map[c] by {
            let i = lemma_has_last_hit(chunks, hits, c);
        }
        assert(scores =~= map);
    }
}

/// There is something to search in and something to search for.
pub open spec fn searches(index: SonarIndex, query: Seq<char>) -> bool {
    &&& index.chunks@.len() > 0
    &&& exists|i: int| 0 <= i < query.len() && !is_white_space(#[trigger] query[i])
}

/// Every keyword search of the engine for the query, with five candidates for each wanted result,
/// gives `hits`.
pub open spec fn keyword_hits_are<E: Engine>(
    engine: &E,
    index: SonarIndex,
    query: &str,
    top_k: usize,
    hits: Seq<Hit>,
) -> bool {
    forall|tokens: Vec<String>, found: Vec<Hit>|
        call_ensures(E::tokenize, (engine, query), tokens) && #[trigger] call_ensures(
            E::bm25_search,
            (engine, &index.bm25, &tokens, (5 * top_k) as usize),
            found,
        ) ==> found@ == hits
}

/// Every vector search of the engine for the vector of the query, with five candidates for each
/// wanted result, gives `hits`.
pub open spec fn vector_hits_are<E: Engine>(
    engine: &E,
    index: SonarIndex,
    query: &str,
    top_k: usize,
    hits: Seq<Hit>,
) -> bool {
    forall|vector: Vec<u32>, found: Vec<Hit>|
        call_ensures(E::encode, (engine, &index.embedder->Some_0, query), vector)
            && #[trigger] call_ensures(
            E::flat_query,
            (engine, &index.flat->Some_0, &vector, (5 * top_k) as usize),
            found,
        ) ==> found@ == hits
}

/// The engine ranks chunks with these scores as `answer`: raised for files with several chunks,
/// then for the query, then cut to the wanted number, with penalties for paths or without.
pub open spec fn ranking_is<E: Engine>(
    engine: &E,
    index: SonarIndex,
    query: &str,
    top_k: usize,
    penalties: bool,
    scores: Map<ChunkView, u64>,
    answer: Seq<(ChunkView, u64)>,
) -> bool {
    forall|first: Scores, spread: Scores, boosted: Scores, out: Vec<SearchResult>|
        first@ == scores && #[trigger] call_ensures(
            E::boost_multi_chunk_files,
            (engine, first),
            spread,
        ) && #[trigger] call_ensures(
            E::apply_query_boost,
            (engine, &spread, query, &index.chunks),
            boosted,
        ) && #[trigger] call_ensures(
            E::rerank_topk,
            (engine, &boosted, top_k, penalties),
            out,
        ) ==> out.deep_view() == answer
}

/// The engine fuses these scores to `answer`.
pub open spec fn fusion_is<E: Engine>(
    engine: &E,
    index: SonarIndex,
    query: &str,
    top_k: usize,
    semantic: Map<ChunkView, u64>,
    keyword: Map<ChunkView, u64>,
    answer: Seq<(ChunkView, u64)>,
) -> bool {
    forall|s: Scores, k: Scores, out: Vec<SearchResult>|
        s@ == semantic && k@ == keyword && #[trigger] call_ensures(
            E::hybrid_search,
            (engine, query, &s, &k, &index.chunks, top_k, None, true),
            out,
        ) ==> out.deep_view() == answer
}

proof fn lemma_keyword_scores<E: Engine>(
    engine: &E,
    index: SonarIndex,
    query: &str,
    top_k: usize,
    hits: Seq<Hit>,
    scores: Scores,
)
    requires
        top_k * 5 <= usize::MAX,
        keyword_scores(engine, &index, query, top_k, scores),
        keyword_hits_are(engine, index, query, top_k, hits),
    ensures
        scores_of(index.chunks.deep_view(), hits, scores@),
{
    law_scores_of_hits(index.chunks.deep_view(), hits, scores@);
}

proof fn lemma_vector_scores<E: Engine>(
    engine: &E,
    index: SonarIndex,
    query: &str,
    top_k: usize,
    hits: Seq<Hit>,
    scores: Scores,
)
    requires
        top_k * 5 <= usize::MAX,
        vector_scores(engine, &index, query, top_k, scores),
        vector_hits_are(engine, index, query, top_k, hits),
    ensures
        scores_of(index.chunks.deep_view(), hits, scores@),
{
    law_scores_of_hits(index.chunks.deep_view(), hits, scores@);
}

/// Without anything to search in or for, nothing is found.
pub proof fn law_nothing_is_found_for_nothing<E: Engine>(
    engine: &E,
    index: SonarIndex,
    query: &str,
    top_k: usize,
    r: Vec<SearchResult>,
)
    requires
        found(engine, &index, query, top_k, r),
        !searches(index, query@),
    ensures
        r@.len() == 0,
{
}

/// In the keyword mode, and in every mode without a model or without vectors, a search finds what
/// the engine ranks, with penalties for paths, of the chunks that its keyword search for the query
/// hits.
pub proof fn law_keyword_search<E: Engine>(
    engine: &E,
    index: SonarIndex,
    query: &str,
    top_k: usize,
    r: Vec<SearchResult>,
    hits: Seq<Hit>,
    scores: Map<ChunkView, u64>,
    answer: Seq<(ChunkView, u64)>,
)
    requires
        top_k * 5 <= usize::MAX,
        found(engine, &index, query, top_k, r),
        searches(index, query@),
        index.mode == Mode::Bm25 || index.embedder is None || index.flat is None,
        keyword_hits_are(engine, index, query, top_k, hits),
        scores_of(index.chunks.deep_view(), hits, scores),
        ranking_is(engine, index, query, top_k, true, scores, answer),
    ensures
        r.deep_view() == answer,
{
    assert(bm25_results(engine, &index, query, top_k, r));
    let first = choose|first: Scores|
        {
            &&& #[trigger] keyword_scores(engine, &index, query, top_k, first)
            &&& ranked(engine, first, query, &index.chunks, top_k, true, r)
        };
    lemma_keyword_scores(engine, index, query, top_k, hits, first);
    law_scores_of_hits(index.chunks.deep_view(), hits, first@);
    law_scores_of_hits(index.chunks.deep_view(), hits, scores);
}

/// In the semantic mode, with a model and vectors, a search finds what the engine ranks, without
/// penalties for paths, of the chunks that the vector of the query hits.
pub proof fn law_semantic_search<E: Engine>(
    engine: &E,
    index: SonarIndex,
    query: &str,
    top_k: usize,
    r: Vec<SearchResult>,
    hits: Seq<Hit>,
    scores: Map<ChunkView, u64>,
    answer: Seq<(ChunkView, u64)>,
)
    requires
        top_k * 5 <= usize::MAX,
        found(engine, &index, query, top_k, r),
        searches(index, query@),
        index.mode == Mode::Semantic,
        index.embedder is Some,
        index.flat is Some,
        vector_hits_are(engine, index, query, top_k, hits),
        scores_of(index.chunks.deep_view(), hits, scores),
        ranking_is(engine, index, query, top_k, false, scores, answer),
    ensures
        r.deep_view() == answer,
{
    assert(semantic_results(engine, &index, query, top_k, r));
    let first = choose|first: Scores|
        {
            &&& #[trigger] vector_scores(engine, &index, query, top_k, first)
            &&& ranked(engine, first, query, &index.chunks, top_k, false, r)
        };
    lemma_vector_scores(engine, index, query, top_k, hits, first);
    law_scores_of_hits(index.chunks.deep_view(), hits, first@);
    law_scores_of_hits(index.chunks.deep_view(), hits, scores);
}

/// In the hybrid mode, with a model and vectors, a search finds what the engine makes of the scores
/// of the chunks that the vector of the query hits and of those that its keyword search hits.
pub proof fn law_hybrid_search<E: Engine>(
    engine: &E,
    index: SonarIndex,
    query: &str,
    top_k: usize,
    r: Vec<SearchResult>,
    vector_hits: Seq<Hit>,
    keyword_hits: Seq<Hit>,
    semantic: Map<ChunkView, u64>,
    keyword: Map<ChunkView, u64>,
    answer: Seq<(ChunkView, u64)>,
)
    requires
        top_k * 5 <= usize::MAX,
        found(engine, &index, query, top_k, r),
        searches(index, query@),
        index.mode == Mode::Hybrid,
        index.embedder is Some,
        index.flat is Some,
        vector_hits_are(engine, index, query, top_k, vector_hits),
        keyword_hits_are(engine, index, query, top_k, keyword_hits),
        scores_of(index.chunks.deep_view(), vector_hits, semantic),
        scores_of(index.chunks.deep_view(), keyword_hits, keyword),
        fusion_is(engine, index, query, top_k, semantic, keyword, answer),
    ensures
        r.deep_view() == answer,
{
    let chunks = index.chunks.deep_view();
    assert(hybrid_results(engine, &index, query, top_k, r));
    let (s, k) = choose|s: Scores, k: Scores|
        {
            &&& #[trigger] vector_scores(engine, &index, query, top_k, s)
            &&& #[trigger] keyword_scores(engine, &index, query, top_k, k)
            &&& call_ensures(
                E::hybrid_search,
                (engine, query, &s, &k, &index.chunks, top_k, None, true),
                r,
            )
        };
    lemma_vector_scores(engine, index, query, top_k, vector_hits, s);
    lemma_keyword_scores(engine, index, query, top_k, keyword_hits, k);
    law_scores_of_hits(chunks, vector_hits, s@);
    law_scores_of_hits(chunks, vector_hits, semantic);
    law_scores_of_hits(chunks, keyword_hits, k@);
    law_scores_of_hits(chunks, keyword_hits, keyword);
}

proof fn lemma_scored_chunks_are_few(
    chunks: Seq<ChunkView>,
    hits: Seq<Hit>,
    scores: Map<ChunkView, u64>,
)
    requires
        scores_of(chunks, hits, scores),
    ensures
        scores.dom().finite(),
        scores.dom().len() <= hits.len(),
{
    law_scores_of_hits(chunks, hits, scores);
    lemma_score_map_is_small(chunks, hits);
}

proof fn lemma_score_map_is_small(chunks: Seq<ChunkView>, hits: Seq<Hit>)
    ensures
        score_map(chunks, hits).dom().finite(),
        score_map(chunks, hits).dom().len() <= hits.len(),
    decreases hits.len(),
{
    if hits.len() > 0 {
        let before = score_map(chunks, hits.drop_last());
        lemma_score_map_is_small(chunks, hits.drop_last());
        let hit = hits.last();
        if hit.index < chunks.len() {
            let c = chunks[hit.index as int];
            assert(score_map(chunks, hits).dom() =~= before.dom().insert(c));
        }
    } else {
        assert(score_map(chunks, hits).dom() =~= Set::empty());
    }
}

/// `chunk` is among the results.
pub open spec fn among(r: Vec<SearchResult>, chunk: ChunkView) -> bool {
    exists|i: int| 0 <= i < r@.len() && (#[trigger] r@[i]).chunk@ == chunk
}

/// A hybrid search finds what only the vectors know: if the fusion keeps all chunks with a semantic
/// score, as long as they are not more than wanted, then every chunk that the vector of the query
/// hits is among the results.
pub proof fn law_hybrid_search_finds_vector_hits<E: Engine>(
    engine: &E,
    index: SonarIndex,
    query: &str,
    top_k: usize,
    r: Vec<SearchResult>,
    hits: Seq<Hit>,
    chunk: ChunkView,
)
    requires
        top_k * 5 <= usize::MAX,
        found(engine, &index, query, top_k, r),
        searches(index, query@),
        index.mode == Mode::Hybrid,
        index.embedder is Some,
        index.flat is Some,
        vector_hits_are(engine, index, query, top_k, hits),
        hits.len() <= top_k,
        is_hit(index.chunks.deep_view(), hits, chunk),
        forall|s: Scores, k: Scores, out: Vec<SearchResult>, c: ChunkView|
            #![trigger call_ensures(E::hybrid_search, (engine, query, &s, &k, &index.chunks, top_k, None, true), out), among(out, c)]
            call_ensures(
                E::hybrid_search,
                (engine, query, &s, &k, &index.chunks, top_k, None, true),
                out,
            ) && s@.dom().len() <= top_k && s@.contains_key(c) ==> among(out, c),
    ensures
        among(r, chunk),
{
    let (s, k) = choose|s: Scores, k: Scores|
        {
            &&& #[trigger] vector_scores(engine, &index, query, top_k, s)
            &&& #[trigger] keyword_scores(engine, &index, query, top_k, k)
            &&& call_ensures(
                E::hybrid_search,
                (engine, query, &s, &k, &index.chunks, top_k, None, true),
                r,
            )
        };
    lemma_vector_scores(engine, index, query, top_k, hits, s);
    lemma_scored_chunks_are_few(index.chunks.deep_view(), hits, s@);
    assert(s@.contains_key(chunk));
}

/// A hybrid search finds what only the keywords know: if the fusion keeps all chunks with a keyword
/// score, as long as they are not more than wanted, then every chunk that the keyword search hits is
/// among the results.
pub proof fn law_hybrid_search_finds_keyword_hits<E: Engine>(
    engine: &E,
    index: SonarIndex,
    query: &str,
    top_k: usize,
    r: Vec<SearchResult>,
    hits: Seq<Hit>,
    chunk: ChunkView,
)
    requires
        top_k * 5 <= usize::MAX,
        found(engine, &index, query, top_k, r),
        searches(index, query@),
        index.mode == Mode::Hybrid,
        index.embedder is Some,
        index.flat is Some,
        keyword_hits_are(engine, index, query, top_k, hits),
        hits.len() <= top_k,
        is_hit(index.chunks.deep_view(), hits, chunk),
        forall|s: Scores, k: Scores, out: Vec<SearchResult>, c: ChunkView|
            #![trigger call_ensures(E::hybrid_search, (engine, query, &s, &k, &index.chunks, top_k, None, true), out), among(out, c)]
            call_ensures(
                E::hybrid_search,
                (engine, query, &s, &k, &index.chunks, top_k, None, true),
                out,
            ) && k@.dom().len() <= top_k && k@.contains_key(c) ==> among(out, c),
    ensures
        among(r, chunk),
{
    let (s, k) = choose|s: Scores, k: Scores|
        {
            &&& #[trigger] vector_scores(engine, &index, query, top_k, s)
            &&& #[trigger] keyword_scores(engine, &index, query, top_k, k)
            &&& call_ensures(
                E::hybrid_search,
                (engine, query, &s, &k, &index.chunks, top_k, None, true),
                r,
            )
        };
    lemma_keyword_scores(engine, index, query, top_k, hits, k);
    lemma_scored_chunks_are_few(index.chunks.deep_view(), hits, k@);
    assert(k@.contains_key(chunk));
}

/// The engine raises scores without adding or losing a chunk, and its ranking gives as many of the
/// scored chunks as are wanted, or all if there are fewer.
pub open spec fn ranks_all<E: Engine>(
    engine: &E,
    index: SonarIndex,
    query: &str,
    top_k: usize,
    penalties: bool,
) -> bool {
    &&& forall|s: Scores, out: Scores| #[trigger]
        call_ensures(E::boost_multi_chunk_files, (engine, s), out) ==> out@.dom() == s@.dom()
    &&& forall|s: Scores, out: Scores| #[trigger]
        call_ensures(E::apply_query_boost, (engine, &s, query, &index.chunks), out) ==> out@.dom()
            == s@.dom()
    &&& forall|s: Scores, out: Vec<SearchResult>| #[trigger]
        call_ensures(E::rerank_topk, (engine, &s, top_k, penalties), out) ==> {
            &&& out@.len() == if s@.dom().len() <= top_k {
                s@.dom().len()
            } else {
                top_k as nat
            }
            &&& forall|i: int|
                0 <= i < out@.len() ==> s@.contains_key((#[trigger] out@[i]).chunk@)
        }
}

/// `all` are the chunks that were hit.
pub open spec fn chunks_hit(
    chunks: Seq<ChunkView>,
    hits: Seq<Hit>,
    all: Set<ChunkView>,
) -> bool {
    forall|c: ChunkView| #[trigger] all.contains(c) <==> is_hit(chunks, hits, c)
}

proof fn lemma_ranked_count<E: Engine>(
    engine: &E,
    index: SonarIndex,
    query: &str,
    top_k: usize,
    penalties: bool,
    scores: Scores,
    r: Vec<SearchResult>,
    all: Set<ChunkView>,
)
    requires
        ranked(engine, scores, query, &index.chunks, top_k, penalties, r),
        ranks_all(engine, index, query, top_k, penalties),
        scores@.dom() == all,
    ensures
        r@.len() == if all.len() <= top_k {
            all.len()
        } else {
            top_k as nat
        },
        forall|i: int| 0 <= i < r@.len() ==> all.contains((#[trigger] r@[i]).chunk@),
{
    let (spread, boosted) = choose|spread: Scores, boosted: Scores|
        {
            &&& #[trigger] call_ensures(E::boost_multi_chunk_files, (engine, scores), spread)
            &&& #[trigger] call_ensures(
                E::apply_query_boost,
                (engine, &spread, query, &index.chunks),
                boosted,
            )
            &&& call_ensures(E::rerank_topk, (engine, &boosted, top_k, penalties), r)
        };
    assert(boosted@.dom() == all);
    assert forall|i: int| 0 <= i < r@.len() implies all.contains((#[trigger] r@[i]).chunk@) by {
        assert(boosted@.contains_key(r@[i].chunk@));
    }
}

/// A keyword search finds as many of the chunks that were hit as are wanted, or all of them if they
/// are fewer, given an engine whose ranking does so.
pub proof fn law_keyword_search_finds_top_k<E: Engine>(
    engine: &E,
    index: SonarIndex,
    query: &str,
    top_k: usize,
    r: Vec<SearchResult>,
    hits: Seq<Hit>,
    all: Set<ChunkView>,
)
    requires
        top_k * 5 <= usize::MAX,
        found(engine, &index, query, top_k, r),
        searches(index, query@),
        index.mode == Mode::Bm25 || index.embedder is None || index.flat is None,
        keyword_hits_are(engine, index, query, top_k, hits),
        chunks_hit(index.chunks.deep_view(), hits, all),
        ranks_all(engine, index, query, top_k, true),
    ensures
        r@.len() == if all.len() <= top_k {
            all.len()
        } else {
            top_k as nat
        },
        forall|i: int| 0 <= i < r@.len() ==> all.contains((#[trigger] r@[i]).chunk@),
{
    let first = choose|first: Scores|
        {
            &&& #[trigger] keyword_scores(engine, &index, query, top_k, first)
            &&& ranked(engine, first, query, &index.chunks, top_k, true, r)
        };
    lemma_keyword_scores(engine, index, query, top_k, hits, first);
    assert forall|c: ChunkView| first@.dom().contains(c) <==> all.contains(c) by {
        assert(first@.contains_key(c) <==> is_hit(index.chunks.deep_view(), hits, c));
    }
    assert(first@.dom() =~= all);
    lemma_ranked_count(engine, index, query, top_k, true, first, r, all);
}

/// A semantic search finds as many of the chunks near the vector of the query as are wanted, or all
/// of them if they are fewer, given an engine whose ranking does so.
pub proof fn law_semantic_search_finds_top_k<E: Engine>(
    engine: &E,
    index: SonarIndex,
    query: &str,
    top_k: usize,
    r: Vec<SearchResult>,
    hits: Seq<Hit>,
    all: Set<ChunkView>,
)
    requires
        top_k * 5 <= usize::MAX,
        found(engine, &index, query, top_k, r),
        searches(index, query@),
        index.mode == Mode::Semantic,
        index.embedder is Some,
        index.flat is Some,
        vector_hits_are(engine, index, query, top_k, hits),
        chunks_hit(index.chunks.deep_view(), hits, all),
        ranks_all(engine, index, query, top_k, false),
    ensures
        r@.len() == if all.len() <= top_k {
            all.len()
        } else {
            top_k as nat
        },
        forall|i: int| 0 <= i < r@.len() ==> all.contains((#[trigger] r@[i]).chunk@),
{
    let first = choose|first: Scores|
        {
            &&& #[trigger] vector_scores(engine, &index, query, top_k, first)
            &&& ranked(engine, first, query, &index.chunks, top_k, false, r)
        };
    lemma_vector_scores(engine, index, query, top_k, hits, first);
    assert forall|c: ChunkView| first@.dom().contains(c) <==> all.contains(c) by {
        assert(first@.contains_key(c) <==> is_hit(index.chunks.deep_view(), hits, c));
    }
    assert(first@.dom() =~= all);
    lemma_ranked_count(engine, index, query, top_k, false, first, r, all);
}

/// A semantic search is made for the vector of its own query: if the engine's vector for each of two
/// queries hits one chunk only, each search finds that of its query, given an engine whose ranking
/// gives as many as are wanted.
pub proof fn law_semantic_search_depends_on_the_query<E: Engine>(
    engine: &E,
    index: SonarIndex,
    first_query: &str,
    second_query: &str,
    top_k: usize,
    first: Vec<SearchResult>,
    second: Vec<SearchResult>,
    first_hit: Hit,
    second_hit: Hit,
)
    requires
        0 < top_k,
        top_k * 5 <= usize::MAX,
        found(engine, &index, first_query, top_k, first),
        found(engine, &index, second_query, top_k, second),
        searches(index, first_query@),
        searches(index, second_query@),
        index.mode == Mode::Semantic,
        index.embedder is Some,
        index.flat is Some,
        vector_hits_are(engine, index, first_query, top_k, seq![first_hit]),
        vector_hits_are(engine, index, second_query, top_k, seq![second_hit]),
        first_hit.index < index.chunks@.len(),
        second_hit.index < index.chunks@.len(),
        ranks_all(engine, index, first_query, top_k, false),
        ranks_all(engine, index, second_query, top_k, false),
    ensures
        first@.len() == 1 && first@[0].chunk@ == index.chunks@[first_hit.index as int]@,
        second@.len() == 1 && second@[0].chunk@ == index.chunks@[second_hit.index as int]@,
{
    lemma_single_hit(engine, index, first_query, top_k, first, first_hit);
    lemma_single_hit(engine, index, second_query, top_k, second, second_hit);
}

proof fn lemma_single_hit<E: Engine>(
    engine: &E,
    index: SonarIndex,
    query: &str,
    top_k: usize,
    r: Vec<SearchResult>,
    hit: Hit,
)
    requires
        0 < top_k,
        top_k * 5 <= usize::MAX,
        found(engine, &index, query, top_k, r),
        searches(index, query@),
        index.mode == Mode::Semantic,
        index.embedder is Some,
        index.flat is Some,
        vector_hits_are(engine, index, query, top_k, seq![hit]),
        hit.index < index.chunks@.len(),
        ranks_all(engine, index, query, top_k, false),
    ensures
        r@.len() == 1 && r@[0].chunk@ == index.chunks@[hit.index as int]@,
{
    let chunks = index.chunks.deep_view();
    let c = chunks[hit.index as int];
    let all = set![c];
    assert(chunks.len() == index.chunks@.len());
    assert forall|x: ChunkView| #[trigger] all.contains(x) <==> is_hit(chunks, seq![hit], x) by {
        if x == c {
            assert(hits_chunk(chunks, seq![hit][0], x));
        }
    }
    law_semantic_search_finds_top_k(engine, index, query, top_k, r, seq![hit], all);
    assert(all.len() == 1);
    assert(all.contains(r@[0].chunk@));
}

/// The positions of the hits that related chunks stand for.
pub open spec fn stand_for(
    chunks: Seq<ChunkView>,
    hits: Seq<Hit>,
    chunk: ChunkView,
    results: Seq<(ChunkView, u64)>,
    positions: Seq<int>,
) -> bool {
    &&& positions.len() == results.len()
    &&& forall|n: int|
        0 <= n < positions.len() ==> {
            let p = #[trigger] positions[n];
            &&& 0 <= p < hits.len()
            &&& hits[p].index < chunks.len()
            &&& results[n].0 == chunks[hits[p].index as int]
            &&& results[n].0 != chunk
            &&& results[n].1 == hits[p].score_bits
        }
    &&& forall|m: int, n: int| 0 <= m < n < positions.len() ==> positions[m] < positions[n]
}

proof fn lemma_others_positions(
    chunks: Seq<ChunkView>,
    hits: Seq<Hit>,
    chunk: ChunkView,
) -> (positions: Seq<int>)
    ensures
        stand_for(chunks, hits, chunk, others(chunks, hits, chunk), positions),
        forall|p: int|
            0 <= p < hits.len() && (#[trigger] hits[p]).index < chunks.len()
                && chunks[hits[p].index as int] != chunk ==> positions.contains(p),
    decreases hits.len(),
{
    if hits.len() == 0 {
        Seq::empty()
    } else {
        let rest = hits.drop_last();
        let n = hits.len() - 1;
        let before = lemma_others_positions(chunks, rest, chunk);
        assert(hits.last() == hits[n]);
        assert(forall|p: int| 0 <= p < rest.len() ==> #[trigger] rest[p] == hits[p]);
        let all = if hits[n].index < chunks.len() && chunks[hits[n].index as int] != chunk {
            before.push(n)
        } else {
            before
        };
        assert forall|p: int|
            0 <= p < hits.len() && (#[trigger] hits[p]).index < chunks.len()
                && chunks[hits[p].index as int] != chunk implies all.contains(p) by {
            if p < n {
                assert(rest[p] == hits[p]);
                assert(before.contains(p));
                let m = choose|m: int| 0 <= m < before.len() && before[m] == p;
                assert(all[m] == p);
            } else {
                assert(all[all.len() - 1] == p);
            }
        }
        all
    }
}

/// Related chunks stand for different hits on other chunks, in the order of the hits, each with the
/// chunk and the score of its hit. They are at most as many as are wanted, and a hit on another
/// chunk is passed over only if as many as are wanted come before it.
pub proof fn law_related_chunks_are_the_first_others(
    chunks: Seq<ChunkView>,
    hits: Seq<Hit>,
    chunk: ChunkView,
    top_k: usize,
)
    ensures
        related(chunks, hits, chunk, top_k).len() <= top_k,
        exists|positions: Seq<int>|
            {
                &&& #[trigger] stand_for(
                    chunks,
                    hits,
                    chunk,
                    related(chunks, hits, chunk, top_k),
                    positions,
                )
                &&& forall|p: int|
                    0 <= p < hits.len() && (#[trigger] hits[p]).index < chunks.len()
                        && chunks[hits[p].index as int] != chunk ==> positions.contains(p) || (
                    positions.len() == top_k && forall|n: int|
                        0 <= n < positions.len() ==> #[trigger] positions[n] < p)
            },
{
    let all = lemma_others_positions(chunks, hits, chunk);
    let results = related(chunks, hits, chunk, top_k);
    let positions = all.take(results.len() as int);
    assert forall|p: int|
        0 <= p < hits.len() && (#[trigger] hits[p]).index < chunks.len()
            && chunks[hits[p].index as int] != chunk implies positions.contains(p) || (
    positions.len() == top_k && forall|n: int|
        0 <= n < positions.len() ==> #[trigger] positions[n] < p) by {
        assert(all.contains(p));
        let m = choose|m: int| 0 <= m < all.len() && all[m] == p;
        if m < positions.len() {
            assert(positions[m] == p);
        } else {
            assert forall|n: int| 0 <= n < positions.len() implies #[trigger] positions[n] < p by {
                assert(positions[n] == all[n]);
                assert(all[n] < all[m]);
            }
        }
    }
    assert(stand_for(chunks, hits, chunk, results, positions));
}

/// Looking for related chunks asks for one hit more than is wanted, near the vector of the text of
/// the chunk, and gives the first of these hits that are on other chunks. Without a model or without
/// vectors nothing is related.
pub proof fn law_find_related<E: Engine>(
    engine: &E,
    index: SonarIndex,
    chunk: &Chunk,
    top_k: usize,
    r: Vec<SearchResult>,
    hits: Seq<Hit>,
)
    requires
        top_k < usize::MAX,
        related_found(engine, &index, chunk, top_k, r),
        forall|text: &str, vector: Vec<u32>, near: Vec<Hit>|
            text@ == chunk.content@ && #[trigger] call_ensures(
                E::encode,
                (engine, &index.embedder->Some_0, text),
                vector,
            ) && #[trigger] call_ensures(
                E::flat_query,
                (engine, &index.flat->Some_0, &vector, (top_k + 1) as usize),
                near,
            ) ==> near@ == hits,
    ensures
        index.embedder is None || index.flat is None ==> r@.len() == 0,
        index.embedder is Some && index.flat is Some ==> {
            &&& r@.len() <= top_k
            &&& exists|positions: Seq<int>|
                {
                    &&& #[trigger] stand_for(
                        index.chunks.deep_view(),
                        hits,
                        chunk@,
                        r.deep_view(),
                        positions,
                    )
                    &&& forall|p: int|
                        0 <= p < hits.len() && (#[trigger] hits[p]).index < index.chunks@.len()
                            && index.chunks.deep_view()[hits[p].index as int] != chunk@
                            ==> positions.contains(p) || (positions.len() == top_k && forall|
                            n: int,
                        |
                            0 <= n < positions.len() ==> #[trigger] positions[n] < p)
                }
        },
{
    if index.embedder is Some && index.flat is Some {
        let chunks = index.chunks.deep_view();
        assert(chunks.len() == index.chunks@.len());
        law_related_chunks_are_the_first_others(chunks, hits, chunk@, top_k);
        assert(r.deep_view() == related(chunks, hits, chunk@, top_k));
        assert(r.deep_view().len() == r@.len());
    }
}

} // verus!
