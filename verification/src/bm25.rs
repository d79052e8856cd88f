//! The documents of a keyword search.
use vstd::prelude::*;

verus! {

/// The tokens of every chunk, in chunk order. Everything a BM25 ranking depends on follows from
/// them; the engine computes the scores.
#[derive(Debug)]
pub struct BM25Index {
    documents: Vec<Vec<String>>,
}

impl BM25Index {
    /// The token texts of every document.
    pub closed spec fn spec_documents(&self) -> Seq<Seq<Seq<char>>> {
        self.documents.deep_view()
    }

    /// Indexes the given documents.
    pub fn build(documents: Vec<Vec<String>>) -> (r: Self)
        ensures
            r.spec_documents() == documents.deep_view(),
    {
        BM25Index { documents }
    }

    pub fn documents(&self) -> (r: &Vec<Vec<String>>)
        ensures
            r.deep_view() == self.spec_documents(),
    {
        &self.documents
    }
}

} // verus!
