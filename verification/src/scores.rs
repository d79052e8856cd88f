//! Scores of chunks, before ranking.
use vstd::prelude::*;

#[allow(unused_imports)]
use crate::types::ChunkView;
use crate::types::{Chunk, Hit};

verus! {

/// A score for each of some chunks. Equal chunks are one chunk, so each has one score. The scores
/// are 64-bit floats, kept as their IEEE 754 bit patterns.
pub struct Scores {
    entries: Vec<(Chunk, u64)>,
}

impl View for Scores {
    type V = Map<ChunkView, u64>;

    closed spec fn view(&self) -> Map<ChunkView, u64> {
        Map::new(
            |c: ChunkView| exists|i: int| 0 <= i < self.entries@.len() && self.entries@[i].0@ == c,
            |c: ChunkView|
                self.entries@[choose|i: int|
                    0 <= i < self.entries@.len() && self.entries@[i].0@ == c].1,
        )
    }
}

impl Scores {
    #[verifier::type_invariant]
    spec fn one_score_each(self) -> bool {
        forall|i: int, j: int|
            0 <= i < j < self.entries@.len() ==> self.entries@[i].0@ != self.entries@[j].0@
    }

    proof fn lemma_entry(&self, i: int)
        requires
            self.one_score_each(),
            0 <= i < self.entries@.len(),
        ensures
            self@.contains_key(self.entries@[i].0@),
            self@[self.entries@[i].0@] == self.entries@[i].1,
    {
        let c = self.entries@[i].0@;
        let k = choose|k: int| 0 <= k < self.entries@.len() && self.entries@[k].0@ == c;
        assert(k == i);
    }

    /// No scores.
    pub fn new() -> (r: Self)
        ensures
            r@ == Map::<ChunkView, u64>::empty(),
    {
        let r = Scores { entries: Vec::new() };
        assert(r@ =~= Map::empty());
        r
    }

    /// All scored chunks with their scores, each chunk once.
    pub fn entries(&self) -> (r: &Vec<(Chunk, u64)>)
        ensures
            forall|i: int|
                0 <= i < r@.len() ==> self@.contains_key((#[trigger] r@[i]).0@) && self@[r@[i].0@]
                    == r@[i].1,
            forall|i: int, j: int| 0 <= i < j < r@.len() ==> r@[i].0@ != r@[j].0@,
            forall|c: ChunkView| #[trigger]
                self@.contains_key(c) ==> exists|i: int|
                    0 <= i < r@.len() && (#[trigger] r@[i]).0@ == c,
    {
        proof {
            use_type_invariant(self);
            assert forall|i: int| 0 <= i < self.entries@.len() implies self@.contains_key(
                (#[trigger] self.entries@[i]).0@,
            ) && self@[self.entries@[i].0@] == self.entries@[i].1 by {
                self.lemma_entry(i);
            }
        }
        &self.entries
    }

    /// Sets the score of a chunk, in place of the one that it had.
    pub fn insert(self, chunk: Chunk, score_bits: u64) -> (r: Self)
        ensures
            r@ == self@.insert(chunk@, score_bits),
    {
        proof {
            use_type_invariant(&self);
        }
        let ghost before = self;
        let Scores { mut entries } = self;
        let n: usize = entries.len();
        let mut i: usize = 0;
        while i < n && entries[i].0 != chunk
            invariant
                n == entries@.len(),
                entries@ == before.entries@,
                i <= n,
                forall|j: int| 0 <= j < i ==> entries@[j].0@ != chunk@,
            decreases n - i,
        {
            i = i + 1;
        }
        if i < n {
            entries[i].1 = score_bits;
        } else {
            entries.push((chunk, score_bits));
        }
        let r = Scores { entries };
        proof {
            let expected = before@.insert(chunk@, score_bits);
            assert(r.entries@[i as int].0@ == chunk@);
            assert forall|c: ChunkView| r@.contains_key(c) == expected.contains_key(c) by {
                if expected.contains_key(c) && c != chunk@ {
                    let k = choose|k: int|
                        0 <= k < before.entries@.len() && before.entries@[k].0@ == c;
                    assert(r.entries@[k].0@ == c);
                }
                if r@.contains_key(c) && c != chunk@ {
                    let k = choose|k: int| 0 <= k < r.entries@.len() && r.entries@[k].0@ == c;
                    assert(before.entries@[k].0@ == c);
                }
            }
            assert forall|c: ChunkView| #[trigger] r@.contains_key(c) implies r@[c]
                == expected[c] by {
                let k = choose|k: int| 0 <= k < r.entries@.len() && r.entries@[k].0@ == c;
                r.lemma_entry(k);
                if c != chunk@ {
                    assert(before.entries@[k] == r.entries@[k]);
                    before.lemma_entry(k);
                } else {
                    r.lemma_entry(i as int);
                }
            }
            assert(r@ =~= expected);
        }
        r
    }
}

/// The hit is on a chunk equal to `chunk`.
pub open spec fn points_at(chunks: Seq<ChunkView>, hit: Hit, chunk: ChunkView) -> bool {
    hit.index < chunks.len() && chunks[hit.index as int] == chunk
}

/// The scores that hits give to the chunks that they point at. Of several hits on equal chunks the
/// last one counts; a hit behind the last chunk gives no score.
pub open spec fn score_map(chunks: Seq<ChunkView>, hits: Seq<Hit>) -> Map<ChunkView, u64>
    decreases hits.len(),
{
    if hits.len() == 0 {
        Map::empty()
    } else {
        let before = score_map(chunks, hits.drop_last());
        let hit = hits.last();
        if hit.index < chunks.len() {
            before.insert(chunks[hit.index as int], hit.score_bits)
        } else {
            before
        }
    }
}

/// Gives the chunks that were hit their scores.
pub fn score_hits(chunks: &Vec<Chunk>, hits: &Vec<Hit>) -> (r: Scores)
    ensures
        r@ == score_map(chunks.deep_view(), hits@),
{
    let mut scores = Scores::new();
    for i in 0..hits.len()
        invariant
            scores@ == score_map(chunks.deep_view(), hits@.take(i as int)),
    {
        let hit = hits[i];
        proof {
            assert(hits@.take(i + 1).drop_last() =~= hits@.take(i as int));
        }
        if hit.index < chunks.len() {
            scores = scores.insert(chunks[hit.index].clone(), hit.score_bits);
        }
    }
    assert(hits@.take(hits@.len() as int) =~= hits@);
    scores
}

/// The score of a chunk is that of the last hit on it, or on a chunk equal to it.
pub proof fn law_last_hit_counts(
    chunks: Seq<ChunkView>,
    hits: Seq<Hit>,
    chunk: ChunkView,
    i: int,
)
    requires
        0 <= i < hits.len(),
        points_at(chunks, hits[i], chunk),
        forall|j: int| i < j < hits.len() ==> !points_at(chunks, #[trigger] hits[j], chunk),
    ensures
        score_map(chunks, hits).contains_key(chunk),
        score_map(chunks, hits)[chunk] == hits[i].score_bits,
    decreases hits.len(),
{
    let rest = hits.drop_last();
    if i < rest.len() {
        assert(!points_at(chunks, hits[hits.len() - 1], chunk));
        assert(forall|j: int| 0 <= j < rest.len() ==> #[trigger] rest[j] == hits[j]);
        law_last_hit_counts(chunks, rest, chunk, i);
    }
}

/// A chunk without a hit has no score.
pub proof fn law_no_score_without_a_hit(chunks: Seq<ChunkView>, hits: Seq<Hit>, chunk: ChunkView)
    requires
        forall|i: int| 0 <= i < hits.len() ==> !points_at(chunks, #[trigger] hits[i], chunk),
    ensures
        !score_map(chunks, hits).contains_key(chunk),
    decreases hits.len(),
{
    if hits.len() > 0 {
        let rest = hits.drop_last();
        assert(!points_at(chunks, hits[hits.len() - 1], chunk));
        assert(forall|j: int| 0 <= j < rest.len() ==> #[trigger] rest[j] == hits[j]);
        law_no_score_without_a_hit(chunks, rest, chunk);
    }
}

} // verus!
