//! The plain data that the index is made of.
use vstd::prelude::*;

use crate::keyed::StringMap;

verus! {

/// What kind of text a file holds.
#[derive(Debug, Clone, Copy, PartialEq, Eq, Structural)]
pub enum ContentType {
    Code,
    Docs,
    Config,
}

/// A contiguous piece of a source file.
#[derive(Debug)]
pub struct Chunk {
    pub content: String,
    pub file_path: String,
    pub start_line: usize,
    pub end_line: usize,
    pub language: Option<String>,
}

/// The mathematical value of a chunk.
#[verifier::ext_equal]
pub struct ChunkView {
    pub content: Seq<char>,
    pub file_path: Seq<char>,
    pub start_line: usize,
    pub end_line: usize,
    pub language: Option<Seq<char>>,
}

impl View for Chunk {
    type V = ChunkView;

    open spec fn view(&self) -> ChunkView {
        ChunkView {
            content: self.content@,
            file_path: self.file_path@,
            start_line: self.start_line,
            end_line: self.end_line,
            language: self.language.deep_view(),
        }
    }
}

impl DeepView for Chunk {
    type V = ChunkView;

    open spec fn deep_view(&self) -> ChunkView {
        self.view()
    }
}

impl Clone for Chunk {
    fn clone(&self) -> (r: Self)
        ensures
            r == *self,
    {
        Chunk {
            content: self.content.clone(),
            file_path: self.file_path.clone(),
            start_line: self.start_line,
            end_line: self.end_line,
            language: match &self.language {
                Some(l) => Some(l.clone()),
                None => None,
            },
        }
    }
}

impl vstd::std_specs::cmp::PartialEqSpecImpl for Chunk {
    open spec fn obeys_eq_spec() -> bool {
        true
    }

    open spec fn eq_spec(&self, other: &Chunk) -> bool {
        self@ == other@
    }
}

impl PartialEq for Chunk {
    fn eq(&self, other: &Chunk) -> (r: bool) {
        let same_language = match (&self.language, &other.language) {
            (Some(a), Some(b)) => *a == *b,
            (None, None) => true,
            _ => false,
        };
        let r = same_language && self.content == other.content && self.file_path
            == other.file_path && self.start_line == other.start_line && self.end_line
            == other.end_line;
        assert(r ==> self@ =~= other@);
        r
    }
}

impl Eq for Chunk {

}

/// A chunk picked by a search backend. The score is a 64-bit float, kept as its IEEE 754 bit
/// pattern.
#[derive(Debug, Clone, Copy, PartialEq, Eq, Structural)]
pub struct Hit {
    pub index: usize,
    pub score_bits: u64,
}

/// A ranked chunk. The score is a 64-bit float, kept as its IEEE 754 bit pattern.
#[derive(Debug)]
pub struct SearchResult {
    pub chunk: Chunk,
    pub score_bits: u64,
}

impl View for SearchResult {
    type V = (ChunkView, u64);

    open spec fn view(&self) -> (ChunkView, u64) {
        (self.chunk@, self.score_bits)
    }
}

impl DeepView for SearchResult {
    type V = (ChunkView, u64);

    open spec fn deep_view(&self) -> (ChunkView, u64) {
        self.view()
    }
}

/// The size of an index.
pub struct IndexStats {
    pub indexed_files: usize,
    pub total_chunks: usize,
    /// The number of chunks of each language.
    pub languages: StringMap<usize>,
}

} // verus!
