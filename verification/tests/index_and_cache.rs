use sonar_core::ann::Flat;
use sonar_core::bm25::BM25Index;
use sonar_core::embed::Embedder;
use sonar_core::engine::{tokenize_chunks, Engine};
use sonar_core::error::SonarError;
use sonar_core::groups::{group_by_file, group_by_language};
use sonar_core::index::{Mode, SonarIndex};
use sonar_core::listing::FileStamp;
use sonar_core::persist::{
    build_and_save, compute_content_hash, default_cache_path, load_cached, load_index,
    save_index, CachedIndex,
};
use sonar_core::scores::Scores;
use sonar_core::types::{Chunk, Hit, SearchResult};
use sonar_core::walk::{FileEntry, MetEntry, Project, RootStatus};

use serde_json::Value;

/// A small engine: one chunk per file, word counts for keyword search, letter counts for vectors.
struct Words {
    model: bool,
}

const KEYWORDS: Words = Words { model: false };
const VECTORS: Words = Words { model: true };

fn best_first(mut hits: Vec<Hit>, limit: usize) -> Vec<Hit> {
    hits.sort_by(|a, b| f64::from_bits(b.score_bits).total_cmp(&f64::from_bits(a.score_bits)));
    hits.truncate(limit);
    hits
}

fn copy(scores: &Scores) -> Scores {
    let mut out = Scores::new();
    for (chunk, bits) in scores.entries() {
        out = out.insert(chunk.clone(), *bits);
    }
    out
}

impl Engine for Words {
    fn chunk_source(&self, content: &str, file_path: &str, language: Option<&str>) -> Vec<Chunk> {
        if content.starts_with("nothing") {
            return Vec::new();
        }
        vec![Chunk {
            content: content.to_string(),
            file_path: file_path.to_string(),
            start_line: 1,
            end_line: content.lines().count(),
            language: language.map(|l| l.to_string()),
        }]
    }

    fn enrich_for_bm25(&self, chunk: &Chunk) -> String {
        format!("{} {}", chunk.content, chunk.file_path)
    }

    fn tokenize(&self, text: &str) -> Vec<String> {
        text.split(|c: char| !c.is_alphanumeric() && c != '_')
            .filter(|w| !w.is_empty())
            .map(|w| w.to_lowercase())
            .collect()
    }

    fn bm25_search(&self, index: &BM25Index, tokens: &Vec<String>, limit: usize) -> Vec<Hit> {
        let mut hits: Vec<Hit> = Vec::new();
        for (index, document) in index.documents().iter().enumerate() {
            let count = document.iter().filter(|w| tokens.contains(w)).count();
            if count > 0 {
                hits.push(Hit {
                    index,
                    score_bits: (count as f64).to_bits(),
                });
            }
        }
        best_first(hits, limit)
    }

    fn load_embedder(&self) -> Result<Embedder, String> {
        if self.model {
            Ok(Embedder {
                model: "letters".to_string(),
                dim: 3,
            })
        } else {
            Err("no model".to_string())
        }
    }

    fn encode(&self, _embedder: &Embedder, text: &str) -> Vec<u32> {
        let counts: Vec<f32> = ['a', 'e', 'o']
            .iter()
            .map(|l| text.chars().filter(|c| c == l).count() as f32 + 0.125)
            .collect();
        let norm = counts.iter().map(|c| c * c).sum::<f32>().sqrt();
        counts.iter().map(|c| (c / norm).to_bits()).collect()
    }

    fn encode_batch(&self, embedder: &Embedder, texts: &Vec<String>) -> Vec<Vec<u32>> {
        texts.iter().map(|t| self.encode(embedder, t)).collect()
    }

    fn flat_query(&self, flat: &Flat, vector: &Vec<u32>, limit: usize) -> Vec<Hit> {
        let hits = flat
            .vecs()
            .iter()
            .enumerate()
            .map(|(index, row)| {
                let score: f64 = row
                    .iter()
                    .zip(vector.iter())
                    .map(|(a, b)| f32::from_bits(*a) as f64 * f32::from_bits(*b) as f64)
                    .sum();
                Hit {
                    index,
                    score_bits: score.to_bits(),
                }
            })
            .collect();
        best_first(hits, limit)
    }

    fn boost_multi_chunk_files(&self, scores: Scores) -> Scores {
        scores
    }

    fn apply_query_boost(&self, scores: &Scores, _query: &str, _chunks: &Vec<Chunk>) -> Scores {
        copy(scores)
    }

    fn rerank_topk(&self, scores: &Scores, top_k: usize, _penalise: bool) -> Vec<SearchResult> {
        let mut results: Vec<SearchResult> = scores
            .entries()
            .iter()
            .map(|(chunk, bits)| SearchResult {
                chunk: chunk.clone(),
                score_bits: *bits,
            })
            .collect();
        results.sort_by(|a, b| f64::from_bits(b.score_bits).total_cmp(&f64::from_bits(a.score_bits)));
        results.truncate(top_k);
        results
    }

    fn hybrid_search(
        &self,
        query: &str,
        semantic: &Scores,
        bm25: &Scores,
        chunks: &Vec<Chunk>,
        top_k: usize,
        alpha_bits: Option<u64>,
        rerank: bool,
    ) -> Vec<SearchResult> {
        assert!(alpha_bits.is_none() && rerank && !chunks.is_empty() && !query.is_empty());
        let mut sum = copy(semantic);
        for (chunk, bits) in bm25.entries() {
            let mut score = f64::from_bits(*bits);
            for (other, more) in semantic.entries() {
                if other == chunk {
                    score += f64::from_bits(*more);
                }
            }
            sum = sum.insert(chunk.clone(), score.to_bits());
        }
        self.rerank_topk(&sum, top_k, true)
    }

    fn chunks_to_json(&self, chunks: &Vec<Chunk>) -> Result<Vec<u8>, String> {
        let mut list: Vec<Value> = Vec::new();
        for chunk in chunks {
            if chunk.content == "unwritable" {
                return Err("unwritable chunk".to_string());
            }
            let mut object = serde_json::Map::new();
            object.insert("content".to_string(), Value::from(chunk.content.clone()));
            object.insert("file_path".to_string(), Value::from(chunk.file_path.clone()));
            object.insert("start_line".to_string(), Value::from(chunk.start_line));
            object.insert("end_line".to_string(), Value::from(chunk.end_line));
            object.insert("language".to_string(), Value::from(chunk.language.clone()));
            list.push(Value::Object(object));
        }
        serde_json::to_vec(&list).map_err(|e| e.to_string())
    }

    fn chunks_from_json(&self, bytes: &Vec<u8>) -> Result<Vec<Chunk>, String> {
        let list: Vec<Value> = serde_json::from_slice(bytes).map_err(|e| e.to_string())?;
        let text = |v: &Value, key: &str| v[key].as_str().map(|s| s.to_string());
        let number = |v: &Value, key: &str| v[key].as_u64().map(|n| n as usize);
        list.iter()
            .map(|v| {
                Some(Chunk {
                    content: text(v, "content")?,
                    file_path: text(v, "file_path")?,
                    start_line: number(v, "start_line")?,
                    end_line: number(v, "end_line")?,
                    language: text(v, "language"),
                })
            })
            .collect::<Option<Vec<Chunk>>>()
            .ok_or("not a chunk".to_string())
    }
}

fn project_of(files: &[(&str, &str)]) -> Project {
    let entries = files
        .iter()
        .map(|(path, content)| {
            let mut directories: Vec<String> = vec!["project".to_string()];
            directories.extend(path.split('/').map(|name| name.to_string()));
            directories.pop();
            MetEntry {
                directories,
                entry: FileEntry {
                    path: path.to_string(),
                    relative_path: path.to_string(),
                    size: Some(content.len() as u64),
                    content: Some(content.to_string()),
                },
            }
        })
        .collect();
    Project {
        root: "/project".to_string(),
        status: RootStatus::Directory,
        entries,
    }
}

fn repo() -> Project {
    project_of(&[
        ("README.md", "# sonar\n\nFast code search.\n"),
        (
            "src/chunk.rs",
            "pub fn chunk_source(content: &str) -> Vec<Chunk> {\n    chunk_source_lines(content)\n}\n",
        ),
        ("src/index.rs", "pub struct SonarIndex {\n    chunks: Vec<Chunk>,\n}\n"),
        ("Cargo.toml", "[package]\n"),
    ])
}

const MAIN_RS: &str = "fn main() {\n    println!(\"hello world\");\n}\n";
const LIB_RS: &str = "pub fn add(a: i32, b: i32) -> i32 {\n    a + b\n}\n";

fn test_project() -> Project {
    project_of(&[("main.rs", MAIN_RS), ("lib.rs", LIB_RS)])
}

fn test_listing() -> Vec<FileStamp> {
    vec![stamp("main.rs", 100), stamp("lib.rs", 100)]
}

fn stamp(path: &str, modified: u64) -> FileStamp {
    FileStamp {
        path: path.to_string(),
        modified,
    }
}

fn ok<T>(r: Result<T, SonarError>) -> T {
    match r {
        Ok(value) => value,
        Err(e) => panic!("{}", e.message()),
    }
}

fn message<T>(r: Result<T, SonarError>) -> String {
    match r {
        Ok(_) => panic!("succeeded"),
        Err(e) => e.message(),
    }
}

fn chunk(content: &str, file_path: &str) -> Chunk {
    Chunk {
        content: content.to_string(),
        file_path: file_path.to_string(),
        start_line: 1,
        end_line: 1,
        language: Some("rust".to_string()),
    }
}

fn paths(results: &[SearchResult]) -> Vec<String> {
    results.iter().map(|r| r.chunk.file_path.clone()).collect()
}

#[test]
fn test_index_from_path_on_self() {
    let index = ok(SonarIndex::from_path(&KEYWORDS, repo()));
    let stats = index.stats();
    assert!(stats.indexed_files > 0, "should index some files");
    assert!(stats.total_chunks > 0, "should produce some chunks");
    assert!(
        stats.languages.contains_key("rust"),
        "should detect rust files"
    );
    assert_eq!(stats.indexed_files, 3);
    assert_eq!(stats.languages.get("markdown"), Some(&1));
    assert_eq!(stats.languages.get("rust"), Some(&2));
}

#[test]
fn test_search_returns_results() {
    let index = ok(SonarIndex::from_path(&KEYWORDS, repo()));
    let results = index.search(&KEYWORDS, "chunk_source", 5);
    assert!(!results.is_empty(), "should find chunk_source");
    assert!(
        results[0].chunk.content.contains("chunk_source"),
        "top result should contain the query term"
    );
}

#[test]
fn test_search_empty_query() {
    let index = ok(SonarIndex::from_path(&KEYWORDS, repo()));
    let results = index.search(&KEYWORDS, "", 5);
    assert!(results.is_empty());
    assert!(index.search(&KEYWORDS, " \t\u{3000}\n", 5).is_empty());
    assert!(index.search(&KEYWORDS, "", usize::MAX).is_empty());
}

#[test]
fn test_find_related_empty_without_embeddings() {
    let chunk = Chunk {
        content: "test".to_string(),
        file_path: "test.rs".to_string(),
        start_line: 1,
        end_line: 1,
        language: Some("rust".to_string()),
    };
    let index = ok(SonarIndex::from_path(&KEYWORDS, repo()));
    assert!(!index.has_embeddings());
    let results = index.find_related(&KEYWORDS, &chunk, 5);
    assert!(results.is_empty());
}

#[test]
fn test_bm25_only_mode() {
    let index = ok(SonarIndex::from_path_with_mode(&VECTORS, repo(), Mode::Bm25));
    assert_eq!(index.mode(), Mode::Bm25);
    assert!(!index.has_embeddings());
    let results = index.search(&VECTORS, "chunk_source", 5);
    assert!(!results.is_empty());
}

#[test]
fn test_from_path_falls_back_gracefully() {
    let index = ok(SonarIndex::from_path_with_mode(&KEYWORDS, repo(), Mode::Hybrid));
    let results = index.search(&KEYWORDS, "chunk_source", 5);
    assert!(!results.is_empty());
    assert_eq!(index.mode(), Mode::Bm25);
}

#[test]
fn test_save_load_roundtrip() {
    let index = ok(SonarIndex::from_path(&KEYWORDS, test_project()));
    let original_stats = index.stats();

    let hash = ok(compute_content_hash(&test_listing()));
    let bytes = ok(save_index(&KEYWORDS, &index, &hash));

    let (loaded, loaded_hash) = ok(load_index(&KEYWORDS, &bytes));
    let loaded_stats = loaded.stats();

    assert_eq!(original_stats.indexed_files, loaded_stats.indexed_files);
    assert_eq!(original_stats.total_chunks, loaded_stats.total_chunks);
    assert_eq!(
        original_stats.languages.entries(),
        loaded_stats.languages.entries()
    );
    assert_eq!(hash, loaded_hash);

    let results = loaded.search(&KEYWORDS, "main", 5);
    assert!(!results.is_empty(), "loaded index should support search");
    assert_eq!(loaded.chunks(), index.chunks());
    assert_eq!(loaded.bm25.documents(), index.bm25.documents());
}

#[test]
fn test_staleness_detection() {
    let hash_before = ok(compute_content_hash(&test_listing()));
    let mut listing = test_listing();
    listing.push(stamp("new_file.rs", 101));
    let hash_after = ok(compute_content_hash(&listing));
    assert_ne!(
        hash_before, hash_after,
        "hash should change when files are added"
    );
}

#[test]
fn test_invalid_magic_bytes() {
    let result = load_index(&KEYWORDS, b"BAAD\x01\x00\x00\x00");
    assert!(result.is_err());
    assert!(
        message(result).contains("invalid magic bytes"),
        "should report invalid magic"
    );
}

#[test]
fn test_invalid_version() {
    let mut data = Vec::new();
    data.extend_from_slice(b"SONR");
    data.extend_from_slice(&99u32.to_le_bytes());
    let result = load_index(&KEYWORDS, &data);
    assert!(result.is_err());
    assert!(
        message(result).contains("unsupported index version"),
        "should report bad version"
    );
}

#[test]
fn test_load_cached_returns_none_when_missing() {
    let result = ok(load_cached(&KEYWORDS, None, &Vec::new()));
    assert!(result.is_none(), "should return None when no cache exists");
}

#[test]
fn test_load_cached_detects_staleness() {
    let index = ok(SonarIndex::from_path(&KEYWORDS, test_project()));
    let hash = ok(compute_content_hash(&test_listing()));
    let bytes = ok(save_index(&KEYWORDS, &index, &hash));

    let cached = ok(load_cached(&KEYWORDS, Some(&bytes), &test_listing()));
    assert!(cached.is_some(), "cache should be valid initially");

    let mut listing = test_listing();
    listing.push(stamp("extra.rs", 101));
    let stale = ok(load_cached(&KEYWORDS, Some(&bytes), &listing));
    assert!(stale.is_none(), "cache should be stale after adding a file");
}

#[test]
fn test_embedding_vector_roundtrip() {
    let chunks = vec![
        chunk("fn main() { println!(\"hello\"); }", "main.rs"),
        chunk("pub fn add(a: i32, b: i32) -> i32 { a + b }", "lib.rs"),
        chunk("use std::io;", "io.rs"),
    ];
    let bm25 = BM25Index::build(tokenize_chunks(&KEYWORDS, &chunks));
    let file_mapping = group_by_file(&chunks);
    let language_mapping = group_by_language(&chunks);

    let test_vectors: Vec<Vec<u32>> = vec![
        vec![1.0f32, 0.0, 0.0],
        vec![0.0f32, 1.0, 0.0],
        vec![0.0f32, 0.0, 1.0],
    ]
    .iter()
    .map(|row| row.iter().map(|f| f.to_bits()).collect())
    .collect();
    let flat = Flat::new(test_vectors.clone());

    let index = SonarIndex::new_with_vectors(
        &KEYWORDS,
        chunks,
        bm25,
        file_mapping,
        language_mapping,
        flat,
    );
    assert!(index.flat().is_some(), "original should have flat index");

    let hash = "test_hash_abc123";
    let bytes = ok(save_index(&KEYWORDS, &index, hash));
    let (loaded, loaded_hash) = ok(load_index(&KEYWORDS, &bytes));

    assert_eq!(loaded_hash, hash);
    assert!(
        loaded.flat().is_some(),
        "loaded index should have embeddings"
    );
    let loaded_flat = loaded.flat().unwrap();
    assert_eq!(loaded_flat.dim(), 3);
    assert_eq!(loaded_flat.len(), 3);
    let loaded_vecs = loaded_flat.vecs();
    for (i, original) in test_vectors.iter().enumerate() {
        assert_eq!(
            loaded_vecs[i], *original,
            "vector {i} should match after roundtrip"
        );
    }
    let query = vec![1.0f32.to_bits(), 0.0f32.to_bits(), 0.0f32.to_bits()];
    let hits = KEYWORDS.flat_query(loaded_flat, &query, 3);
    assert_eq!(hits[0].index, 0, "query should find the matching vector");
    assert!((f64::from_bits(hits[0].score_bits) - 1.0).abs() < 1e-10);
}

#[test]
fn files_in_directories_that_are_not_entered_are_not_indexed() {
    let index = ok(SonarIndex::from_path(
        &KEYWORDS,
        project_of(&[("src/a.rs", "fn a() {}"), ("node_modules/b.js", "let b;")]),
    ));
    assert_eq!(index.stats().indexed_files, 1);
    assert!(index.file_mapping().contains_key("src/a.rs"));
    assert_eq!(
        message(SonarIndex::from_path(&KEYWORDS, project_of(&[("build/a.rs", "fn a() {}")]))),
        "No supported files found under /project"
    );
}

#[test]
fn statistics_count_files_and_languages() {
    let chunks = vec![
        chunk("a", "a.rs"),
        chunk("b", "a.rs"),
        Chunk {
            language: None,
            ..chunk("c", "c.txt")
        },
    ];
    let index = SonarIndex::new(
        chunks.clone(),
        BM25Index::build(Vec::new()),
        group_by_file(&chunks),
        group_by_language(&chunks),
    );
    let stats = index.stats();
    assert_eq!((stats.indexed_files, stats.total_chunks), (2, 3));
    assert_eq!(stats.languages.len(), index.language_mapping().len());
    for (language, count) in stats.languages.entries() {
        assert_eq!(index.language_mapping().get(language).map(|g| g.len()), Some(*count));
    }
    assert_eq!(stats.languages.get("rust"), Some(&2));
}

#[test]
fn unusable_projects_are_refused() {
    let mut missing = repo();
    missing.status = RootStatus::Missing;
    assert_eq!(
        message(SonarIndex::from_path(&KEYWORDS, missing)),
        "Path does not exist: /project"
    );
    let mut file = repo();
    file.status = RootStatus::NotADirectory;
    assert_eq!(
        message(build_and_save(&KEYWORDS, file, &Vec::new())),
        "Path is not a directory: /project"
    );
    assert_eq!(
        message(SonarIndex::from_path(&KEYWORDS, project_of(&[("a.toml", "x")]))),
        "No supported files found under /project"
    );
    assert_eq!(
        message(SonarIndex::from_path(&KEYWORDS, project_of(&[("a.rs", "nothing")]))),
        "No chunks produced from files"
    );
}

#[test]
fn modes_with_a_model() {
    let hybrid = ok(SonarIndex::from_path(&VECTORS, repo()));
    assert_eq!(hybrid.mode(), Mode::Hybrid);
    assert_eq!(hybrid.flat().map(|f| f.len()), Some(3));
    assert_eq!(hybrid.describe(), "SonarIndex { chunks: 3, mode: Hybrid, has_embeddings: true }");
    let semantic = ok(SonarIndex::from_path_with_mode(&VECTORS, repo(), Mode::Semantic));
    assert_eq!(semantic.mode(), Mode::Semantic);
    assert_eq!(semantic.search(&VECTORS, "oooo", 2).len(), 2);
    let results = hybrid.search(&VECTORS, "SonarIndex", 1);
    assert_eq!(paths(&results), vec!["src/index.rs".to_string()]);
    assert_eq!(Mode::default(), Mode::Hybrid);
    assert_eq!(Mode::Bm25.name(), "bm25");
    assert_eq!(Mode::Semantic.name(), "semantic");
    assert_eq!(Mode::Hybrid.name(), "hybrid");
}

#[test]
fn every_mode_falls_back_to_keywords() {
    let mut index = ok(SonarIndex::from_path(&KEYWORDS, repo()));
    let expected = paths(&index.search(&KEYWORDS, "chunk_source content", 5));
    for mode in [Mode::Bm25, Mode::Semantic, Mode::Hybrid] {
        index.set_mode(mode);
        assert_eq!(index.mode(), mode);
        assert_eq!(paths(&index.search(&KEYWORDS, "chunk_source content", 5)), expected);
    }
    assert_eq!(
        index.describe(),
        "SonarIndex { chunks: 3, mode: Hybrid, has_embeddings: false }"
    );
}

#[test]
fn related_chunks_of_an_index() {
    let index = ok(SonarIndex::from_path(&VECTORS, repo()));
    let own = index.chunks()[1].clone();
    let related = index.find_related(&VECTORS, &own, 2);
    assert_eq!(related.len(), 2);
    assert!(related.iter().all(|r| r.chunk != own));
}

#[test]
fn an_empty_index_finds_nothing() {
    let none: Vec<Chunk> = Vec::new();
    let index = SonarIndex::new(
        Vec::new(),
        BM25Index::build(Vec::new()),
        group_by_file(&none),
        group_by_language(&none),
    );
    assert!(index.search(&KEYWORDS, "anything", 5).is_empty());
    assert_eq!(index.stats().total_chunks, 0);
    assert_eq!(index.file_mapping().len() + index.language_mapping().len(), 0);
}

#[test]
fn constructors_keep_their_parts() {
    let chunks = vec![chunk("a", "a.rs")];
    let files = group_by_file(&chunks);
    let languages = group_by_language(&chunks);
    let embedder = ok(VECTORS.load_embedder().map_err(|_| SonarError::NoChunks));
    let index = SonarIndex::new_hybrid(
        chunks,
        BM25Index::build(vec![vec!["a".to_string()]]),
        files,
        languages,
        embedder,
        Flat::new(vec![vec![1, 2, 3]]),
    );
    assert_eq!(index.mode(), Mode::Hybrid);
    assert!(index.has_embeddings());
    assert_eq!(index.file_mapping().get("a.rs"), Some(&vec![0]));
    assert_eq!(index.language_mapping().get("rust"), Some(&vec![0]));
}

#[test]
fn a_saved_index_with_a_model_loads_with_it() {
    let made = ok(build_and_save(&VECTORS, test_project(), &test_listing()));
    assert_eq!(made.cache_path, default_cache_path("/project"));
    let back = ok(load_cached(&VECTORS, Some(&made.bytes), &test_listing())).unwrap();
    assert_eq!(back.mode(), Mode::Hybrid);
    assert_eq!(
        back.flat().map(|f| f.vecs().clone()),
        made.index.flat().map(|f| f.vecs().clone())
    );
    assert_eq!(
        paths(&back.search(&VECTORS, "hello", 2)),
        paths(&made.index.search(&VECTORS, "hello", 2))
    );
    let without = ok(load_cached(&KEYWORDS, Some(&made.bytes), &test_listing())).unwrap();
    assert_eq!(without.mode(), Mode::Bm25);
    assert!(without.has_embeddings());
}

#[test]
fn an_index_without_vectors_loads_without_embeddings() {
    let chunks = vec![chunk("a", "a.rs")];
    let index = SonarIndex::new_with_vectors(
        &VECTORS,
        chunks.clone(),
        BM25Index::build(Vec::new()),
        group_by_file(&chunks),
        group_by_language(&chunks),
        Flat::new(Vec::new()),
    );
    assert!(index.has_embeddings());
    let bytes = ok(save_index(&VECTORS, &index, ""));
    let (back, hash) = ok(load_index(&VECTORS, &bytes));
    assert_eq!(hash, "");
    assert!(!back.has_embeddings());
    assert_eq!(back.mode(), Mode::Bm25);
}

#[test]
fn stored_documents_are_those_of_the_chunks() {
    let index = ok(SonarIndex::from_path(&KEYWORDS, project_of(&[("a.rs", "Say \"ä\"")])));
    let bytes = ok(save_index(&KEYWORDS, &index, "h"));
    let json = b"[[\"say\",\"\xc3\xa4\",\"a\",\"rs\"]]";
    assert!(bytes.windows(json.len()).any(|w| w == json));
    let (back, _) = ok(load_index(&KEYWORDS, &bytes));
    assert_eq!(back.bm25.documents()[0][1], "ä");
}

#[test]
fn chunks_that_are_no_json_are_refused() {
    let chunks = vec![chunk("unwritable", "a.rs")];
    let index = SonarIndex::new(
        chunks.clone(),
        BM25Index::build(Vec::new()),
        group_by_file(&chunks),
        group_by_language(&chunks),
    );
    assert_eq!(
        message(save_index(&KEYWORDS, &index, "h")),
        "serialize chunks: unwritable chunk"
    );
    let bytes = sonar_core::persist::encode_index("h", b"[1]", b"[]", None);
    assert_eq!(
        message(load_index(&KEYWORDS, &bytes)),
        "deserialize chunks: not a chunk"
    );
    let bad_documents = sonar_core::persist::encode_index("h", b"[]", b"{", None);
    assert!(message(load_index(&KEYWORDS, &bad_documents)).starts_with("deserialize documents: "));
    let flat = Flat::new(vec![vec![1, 2]]);
    let too_many = sonar_core::persist::encode_index("h", b"[]", b"[]", Some(&flat));
    assert_eq!(
        message(load_cached(&KEYWORDS, Some(&too_many), &test_listing())),
        "embedding size mismatch: expected 0 bytes, got 8"
    );
}

#[test]
fn a_usable_cache_is_not_rebuilt() {
    let made = ok(build_and_save(&KEYWORDS, test_project(), &test_listing()));
    let fresh = ok(SonarIndex::from_path_cached(
        &KEYWORDS,
        Some(&made.bytes),
        &test_listing(),
        || panic!("walked"),
    ));
    match fresh {
        CachedIndex::Fresh { index } => assert_eq!(index.chunks(), made.index.chunks()),
        CachedIndex::Rebuilt { .. } => panic!("rebuilt"),
    }
    let listing = vec![stamp("main.rs", 200), stamp("lib.rs", 100)];
    let rebuilt = ok(SonarIndex::from_path_cached(
        &KEYWORDS,
        Some(&made.bytes),
        &listing,
        test_project,
    ));
    match rebuilt {
        CachedIndex::Fresh { .. } => panic!("not rebuilt"),
        CachedIndex::Rebuilt { saved } => {
            assert_ne!(saved.bytes, made.bytes);
            let again = ok(load_cached(&KEYWORDS, Some(&saved.bytes), &listing));
            assert!(again.is_some());
        }
    }
    let broken = SonarIndex::from_path_cached(&KEYWORDS, Some(b"x"), &listing, test_project);
    assert!(matches!(broken, Err(SonarError::MagicTruncated)));
    let absent = ok(SonarIndex::from_path_cached(&KEYWORDS, None, &listing, test_project));
    assert!(matches!(absent, CachedIndex::Rebuilt { .. }));
}

#[test]
fn a_cut_file_never_loads_as_a_shorter_index() {
    let index = ok(SonarIndex::from_path(&KEYWORDS, test_project()));
    let bytes = ok(save_index(&KEYWORDS, &index, "hash"));
    for k in 0..bytes.len() - 1 {
        assert!(load_index(&KEYWORDS, &bytes[..k]).is_err(), "cut at {k}");
    }
    let (back, hash) = ok(load_index(&KEYWORDS, &bytes[..bytes.len() - 1]));
    assert_eq!(hash, "hash");
    assert_eq!(back.chunks(), index.chunks());

    let hybrid = ok(SonarIndex::from_path(&VECTORS, test_project()));
    let bytes = ok(save_index(&VECTORS, &hybrid, "hash"));
    let section = 1 + 4 + 4 + 2 * 3 * 4;
    for k in 0..bytes.len() {
        let r = load_index(&VECTORS, &bytes[..k]);
        assert_eq!(r.is_ok(), k == bytes.len() - section, "cut at {k}");
    }
}

#[test]
fn building_and_saving_agrees_with_building() {
    for engine in [&KEYWORDS, &VECTORS] {
        let built = ok(SonarIndex::from_path(engine, test_project()));
        let made = ok(build_and_save(engine, test_project(), &test_listing()));
        assert_eq!(made.index.chunks(), built.chunks());
        assert_eq!(
            made.index.file_mapping().entries(),
            built.file_mapping().entries()
        );
        assert_eq!(
            made.index.language_mapping().entries(),
            built.language_mapping().entries()
        );
        assert_eq!(made.index.mode(), built.mode());
        assert_eq!(made.index.has_embeddings(), built.has_embeddings());
    }
}

#[test]
fn a_second_opening_is_fresh() {
    for engine in [&KEYWORDS, &VECTORS] {
        let first = ok(SonarIndex::from_path_cached(engine, None, &test_listing(), test_project));
        let saved = match first {
            CachedIndex::Rebuilt { saved } => saved,
            CachedIndex::Fresh { .. } => panic!("there was no cache"),
        };
        for _ in 0..2 {
            let again = ok(SonarIndex::from_path_cached(
                engine,
                Some(&saved.bytes),
                &test_listing(),
                || panic!("walked"),
            ));
            match again {
                CachedIndex::Fresh { index } => {
                    assert_eq!(index.chunks(), saved.index.chunks());
                    assert_eq!(
                        index.file_mapping().entries(),
                        saved.index.file_mapping().entries()
                    );
                    assert_eq!(index.mode(), saved.index.mode());
                    assert_eq!(index.has_embeddings(), saved.index.has_embeddings());
                }
                CachedIndex::Rebuilt { .. } => panic!("rebuilt"),
            }
        }
    }
}

#[test]
fn keyword_search_ignores_vectors_and_vector_search_ignores_keywords() {
    let plain = ok(SonarIndex::from_path_with_mode(&VECTORS, repo(), Mode::Bm25));
    let mut hybrid = ok(SonarIndex::from_path(&VECTORS, repo()));
    hybrid.set_mode(Mode::Bm25);
    let found = |index: &SonarIndex| -> Vec<(String, u64)> {
        index
            .search(&VECTORS, "chunk_source code", 3)
            .iter()
            .map(|r| (r.chunk.file_path.clone(), r.score_bits))
            .collect()
    };
    assert_eq!(found(&plain), found(&hybrid));
    hybrid.set_mode(Mode::Semantic);
    let with_keywords = found(&hybrid);
    hybrid.bm25 = BM25Index::build(Vec::new());
    assert_eq!(found(&hybrid), with_keywords);
    assert_eq!(with_keywords.len(), 3);
}
