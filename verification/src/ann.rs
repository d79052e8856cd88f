//! The vectors of an exhaustive nearest-neighbour search.
use vstd::prelude::*;

verus! {

/// One embedding vector per chunk. A component is a 32-bit float, kept as its IEEE 754 bit
/// pattern: the index stores and moves vectors, and only the engine computes with them.
#[derive(Debug)]
pub struct Flat {
    vecs: Vec<Vec<u32>>,
    dim: usize,
}

impl Flat {
    /// The vectors.
    pub closed spec fn spec_vecs(&self) -> Seq<Seq<u32>> {
        self.vecs.deep_view()
    }

    /// The number of components of the first vector, zero if there is no vector.
    pub open spec fn spec_dim(&self) -> nat {
        if self.spec_vecs().len() == 0 {
            0
        } else {
            self.spec_vecs()[0].len()
        }
    }

    #[verifier::type_invariant]
    spec fn dim_of_first(self) -> bool {
        self.dim == self.spec_dim()
    }

    /// Holds the given vectors.
    pub fn new(vecs: Vec<Vec<u32>>) -> (r: Self)
        ensures
            r.spec_vecs() == vecs.deep_view(),
    {
        let dim: usize = if vecs.len() == 0 {
            0
        } else {
            vecs[0].len()
        };
        Flat { vecs, dim }
    }

    pub fn vecs(&self) -> (r: &Vec<Vec<u32>>)
        ensures
            r.deep_view() == self.spec_vecs(),
    {
        &self.vecs
    }

    pub fn dim(&self) -> (r: usize)
        ensures
            r == self.spec_dim(),
    {
        proof {
            use_type_invariant(self);
        }
        self.dim
    }

    pub fn len(&self) -> (r: usize)
        ensures
            r == self.spec_vecs().len(),
    {
        self.vecs.len()
    }
}

} // verus!
