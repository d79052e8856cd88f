//! A loaded embedding model.
use vstd::prelude::*;

verus! {

/// A handle on an embedding model that the engine has loaded.
#[derive(Debug)]
pub struct Embedder {
    /// The name of the model.
    pub model: String,
    /// The number of components of the vectors that it gives.
    pub dim: usize,
}

} // verus!
