//! The work that an index hands out: chunking, tokenising, embedding, scoring and ranking.
use vstd::prelude::*;

use crate::ann::Flat;
use crate::bm25::BM25Index;
use crate::embed::Embedder;
use crate::scores::Scores;
#[allow(unused_imports)]
use crate::types::ChunkView;
use crate::types::{Chunk, Hit, SearchResult};

verus! {

/// The computations behind an index.
///
/// Nothing is taken for granted of an implementation: what the index promises it promises for
/// every result that the engine may give. A contract that depends on such a result says which
/// call gave it, with `call_ensures`.
pub trait Engine {
    /// Splits the text of a file into chunks.
    fn chunk_source(&self, content: &str, file_path: &str, language: Option<&str>) -> Vec<Chunk>;

    /// The text under which keyword search finds a chunk.
    fn enrich_for_bm25(&self, chunk: &Chunk) -> String;

    /// Splits a text into search tokens.
    fn tokenize(&self, text: &str) -> Vec<String>;

    /// The best `limit` documents for some tokens.
    fn bm25_search(&self, index: &BM25Index, tokens: &Vec<String>, limit: usize) -> Vec<Hit>;

    /// Loads the default embedding model, or says why it is not available.
    fn load_embedder(&self) -> Result<Embedder, String>;

    /// The vector of a text.
    fn encode(&self, embedder: &Embedder, text: &str) -> Vec<u32>;

    /// The vectors of some texts, in their order.
    fn encode_batch(&self, embedder: &Embedder, texts: &Vec<String>) -> Vec<Vec<u32>>;

    /// The `limit` vectors nearest to a vector.
    fn flat_query(&self, flat: &Flat, vector: &Vec<u32>, limit: usize) -> Vec<Hit>;

    /// Raises the scores of files with several scored chunks.
    fn boost_multi_chunk_files(&self, scores: Scores) -> Scores;

    /// Raises the scores of chunks that define what the query names.
    fn apply_query_boost(&self, scores: &Scores, query: &str, chunks: &Vec<Chunk>) -> Scores;

    /// The `top_k` best chunks, with or without penalties for their paths.
    fn rerank_topk(&self, scores: &Scores, top_k: usize, penalise_paths: bool) -> Vec<
        SearchResult,
    >;

    /// The `top_k` best chunks by both kinds of scores. The weight of the semantic scores is a 64-bit
    /// float, given as its bit pattern; without one the engine chooses it. The chunks are reranked
    /// if `rerank` says so.
    fn hybrid_search(
        &self,
        query: &str,
        semantic: &Scores,
        bm25: &Scores,
        chunks: &Vec<Chunk>,
        top_k: usize,
        alpha_bits: Option<u64>,
        rerank: bool,
    ) -> Vec<SearchResult>;

    /// The JSON form of a chunk list.
    fn chunks_to_json(&self, chunks: &Vec<Chunk>) -> Result<Vec<u8>, String>;

    /// The chunk list of a JSON form.
    fn chunks_from_json(&self, bytes: &Vec<u8>) -> Result<Vec<Chunk>, String>;
}

/// `chunks` is what the engine may make of a file.
pub open spec fn chunked<E: Engine>(
    engine: &E,
    content: Seq<char>,
    file_path: Seq<char>,
    language: Option<Seq<char>>,
    chunks: Seq<ChunkView>,
) -> bool {
    exists|c: &str, p: &str, l: Option<&str>, out: Vec<Chunk>|
        {
            &&& #[trigger] call_ensures(E::chunk_source, (engine, c, p, l), out)
            &&& c@ == content
            &&& p@ == file_path
            &&& l.deep_view() == language
            &&& out.deep_view() == chunks
        }
}

/// `tokens` is what the engine may make of the search text of a chunk.
pub open spec fn documented<E: Engine>(
    engine: &E,
    chunk: Chunk,
    tokens: Seq<Seq<char>>,
) -> bool {
    exists|text: String, t: &str, out: Vec<String>|
        {
            &&& #[trigger] call_ensures(E::enrich_for_bm25, (engine, &chunk), text)
            &&& #[trigger] call_ensures(E::tokenize, (engine, t), out)
            &&& t@ == text@
            &&& out.deep_view() == tokens
        }
}

/// `documents` is what the engine may make of the search texts of all chunks, in their order.
pub open spec fn all_documented<E: Engine>(
    engine: &E,
    chunks: Seq<Chunk>,
    documents: Seq<Seq<Seq<char>>>,
) -> bool {
    &&& documents.len() == chunks.len()
    &&& forall|i: int|
        0 <= i < chunks.len() ==> documented(engine, chunks[i], #[trigger] documents[i])
}

/// `vector` is what the engine may make of a text.
pub open spec fn encoded<E: Engine>(
    engine: &E,
    embedder: &Embedder,
    text: Seq<char>,
    vector: Vec<u32>,
) -> bool {
    exists|t: &str|
        {
            &&& t@ == text
            &&& #[trigger] call_ensures(E::encode, (engine, embedder, t), vector)
        }
}

/// Tokenises the search texts of all chunks.
pub fn tokenize_chunks<E: Engine>(engine: &E, chunks: &Vec<Chunk>) -> (r: Vec<Vec<String>>)
    ensures
        all_documented(engine, chunks@, r.deep_view()),
{
    let mut documents: Vec<Vec<String>> = Vec::new();
    for i in 0..chunks.len()
        invariant
            documents@.len() == i,
            forall|j: int|
                0 <= j < i ==> documented(
                    engine,
                    chunks@[j],
                    #[trigger] documents.deep_view()[j],
                ),
    {
        let text = engine.enrich_for_bm25(&chunks[i]);
        let t = text.as_str();
        let tokens = engine.tokenize(t);
        let ghost value = tokens.deep_view();
        assert(documented(engine, chunks@[i as int], value));
        let ghost before = documents.deep_view();
        documents.push(tokens);
        assert(documents.deep_view() =~= before.push(value));
    }
    documents
}

} // verus!
