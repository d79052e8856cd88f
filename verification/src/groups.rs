//! Chunks grouped by file and by language.
use vstd::prelude::*;

use crate::keyed::StringMap;
#[allow(unused_imports)]
use crate::keyed::group;
use crate::types::Chunk;
#[allow(unused_imports)]
use crate::types::ChunkView;

verus! {

/// The positions at which `key` stands in `keys`, in ascending order.
pub open spec fn positions(keys: Seq<Option<Seq<char>>>, key: Seq<char>) -> Seq<usize>
    decreases keys.len(),
{
    if keys.len() == 0 {
        Seq::empty()
    } else {
        let before = positions(keys.drop_last(), key);
        if keys.last() == Some(key) {
            before.push((keys.len() - 1) as usize)
        } else {
            before
        }
    }
}

/// The positions of each key that occurs in `keys`.
pub open spec fn groups(keys: Seq<Option<Seq<char>>>) -> Map<Seq<char>, Seq<usize>> {
    Map::new(|k: Seq<char>| keys.contains(Some(k)), |k: Seq<char>| positions(keys, k))
}

/// The number of times that each key occurs in `keys`.
pub open spec fn counts(keys: Seq<Option<Seq<char>>>) -> Map<Seq<char>, usize> {
    Map::new(
        |k: Seq<char>| keys.contains(Some(k)),
        |k: Seq<char>| positions(keys, k).len() as usize,
    )
}

/// The file of every chunk.
pub open spec fn file_keys(chunks: Seq<ChunkView>) -> Seq<Option<Seq<char>>> {
    Seq::new(chunks.len(), |i: int| Some(chunks[i].file_path))
}

/// The language of every chunk.
pub open spec fn language_keys(chunks: Seq<ChunkView>) -> Seq<Option<Seq<char>>> {
    Seq::new(chunks.len(), |i: int| chunks[i].language)
}

/// A position is listed under a key exactly if the key stands there; the positions ascend, so none
/// is listed twice.
pub proof fn law_positions(keys: Seq<Option<Seq<char>>>, key: Seq<char>)
    requires
        keys.len() <= usize::MAX,
    ensures
        forall|i: usize| #[trigger]
            positions(keys, key).contains(i) <==> i < keys.len() && keys[i as int] == Some(key),
        forall|a: int, b: int|
            0 <= a < b < positions(keys, key).len() ==> positions(keys, key)[a] < positions(
                keys,
                key,
            )[b],
        positions(keys, key).len() <= keys.len(),
    decreases keys.len(),
{
    if keys.len() > 0 {
        let rest = keys.drop_last();
        law_positions(rest, key);
        let before = positions(rest, key);
        let all = positions(keys, key);
        let last = (keys.len() - 1) as usize;
        assert forall|i: usize| #[trigger] all.contains(i) <==> i < keys.len() && keys[i as int]
            == Some(key) by {
            if all.contains(i) {
                let j = choose|j: int| 0 <= j < all.len() && all[j] == i;
                if j < before.len() {
                    assert(before[j] == i);
                    assert(before.contains(i));
                }
            }
            if i < keys.len() && keys[i as int] == Some(key) {
                if i == last {
                    assert(all[all.len() - 1] == i);
                } else {
                    assert(before.contains(i));
                    let j = choose|j: int| 0 <= j < before.len() && before[j] == i;
                    assert(all[j] == i);
                }
            }
        }
        assert forall|a: int, b: int| 0 <= a < b < all.len() implies all[a] < all[b] by {
            assert(before.contains(before[a]));
            if b < before.len() {
                assert(before[a] < before[b]);
            }
        }
    }
}

/// Every chunk with a key is in exactly one group, that of its key.
pub proof fn law_groups_partition(keys: Seq<Option<Seq<char>>>, i: usize, key: Seq<char>)
    requires
        keys.len() <= usize::MAX,
        i < keys.len(),
    ensures
        (groups(keys).contains_key(key) && groups(keys)[key].contains(i)) <==> keys[i as int]
            == Some(key),
{
    law_positions(keys, key);
    assert(keys[i as int] == Some(key) ==> keys.contains(Some(key)));
    assert(positions(keys, key).contains(i) <==> keys[i as int] == Some(key));
}

proof fn lemma_positions_absent(keys: Seq<Option<Seq<char>>>, key: Seq<char>)
    requires
        !keys.contains(Some(key)),
    ensures
        positions(keys, key).len() == 0,
    decreases keys.len(),
{
    if keys.len() > 0 {
        assert(keys.contains(keys.last()));
        assert forall|k: Option<Seq<char>>| keys.drop_last().contains(k) implies keys.contains(
            k,
        ) by {
            let j = choose|j: int| 0 <= j < keys.drop_last().len() && keys.drop_last()[j] == k;
            assert(keys[j] == k);
        }
        lemma_positions_absent(keys.drop_last(), key);
    }
}

proof fn lemma_contains_push(keys: Seq<Option<Seq<char>>>, last: Option<Seq<char>>)
    ensures
        forall|k: Option<Seq<char>>| #[trigger]
            keys.push(last).contains(k) <==> keys.contains(k) || k == last,
{
    assert forall|k: Option<Seq<char>>| #[trigger] keys.push(last).contains(k) <==> keys.contains(k)
        || k == last by {
        if keys.contains(k) {
            let j = choose|j: int| 0 <= j < keys.len() && keys[j] == k;
            assert(keys.push(last)[j] == k);
        }
        if k == last {
            assert(keys.push(last)[keys.len() as int] == k);
        }
    }
}

/// One more chunk under `key` extends the group of `key` only.
proof fn lemma_groups_push(keys: Seq<Option<Seq<char>>>, key: Seq<char>)
    ensures
        groups(keys.push(Some(key))) == groups(keys).insert(
            key,
            group(groups(keys), key).push(keys.len() as usize),
        ),
{
    let all = keys.push(Some(key));
    assert(all.drop_last() =~= keys);
    lemma_contains_push(keys, Some(key));
    if !keys.contains(Some(key)) {
        lemma_positions_absent(keys, key);
        assert(positions(keys, key) =~= Seq::<usize>::empty());
    }
    assert(groups(all) =~= groups(keys).insert(
        key,
        group(groups(keys), key).push(keys.len() as usize),
    ));
}

/// One more chunk without a key changes no group.
proof fn lemma_groups_skip(keys: Seq<Option<Seq<char>>>)
    ensures
        groups(keys.push(None)) == groups(keys),
{
    let all = keys.push(None);
    assert(all.drop_last() =~= keys);
    lemma_contains_push(keys, None);
    assert(groups(all) =~= groups(keys));
}

/// Groups the chunks by file.
pub fn group_by_file(chunks: &Vec<Chunk>) -> (r: StringMap<Vec<usize>>)
    ensures
        r@ == groups(file_keys(chunks.deep_view())),
{
    let mut map: StringMap<Vec<usize>> = StringMap::new();
    let ghost keys = file_keys(chunks.deep_view());
    assert(map@ =~= groups(keys.take(0)));
    for i in 0..chunks.len()
        invariant
            keys == file_keys(chunks.deep_view()),
            map@ == groups(keys.take(i as int)),
    {
        proof {
            lemma_groups_push(keys.take(i as int), chunks@[i as int].file_path@);
            assert(keys.take(i + 1) =~= keys.take(i as int).push(keys[i as int]));
        }
        map = map.push_to(chunks[i].file_path.as_str(), i);
    }
    assert(keys.take(keys.len() as int) =~= keys);
    map
}

/// Groups the chunks that have a language by language.
pub fn group_by_language(chunks: &Vec<Chunk>) -> (r: StringMap<Vec<usize>>)
    ensures
        r@ == groups(language_keys(chunks.deep_view())),
{
    let mut map: StringMap<Vec<usize>> = StringMap::new();
    let ghost keys = language_keys(chunks.deep_view());
    assert(map@ =~= groups(keys.take(0)));
    for i in 0..chunks.len()
        invariant
            keys == language_keys(chunks.deep_view()),
            map@ == groups(keys.take(i as int)),
    {
        assert(keys.take(i + 1) =~= keys.take(i as int).push(keys[i as int]));
        match &chunks[i].language {
            Some(language) => {
                proof {
                    lemma_groups_push(keys.take(i as int), language@);
                }
                map = map.push_to(language.as_str(), i);
            },
            None => {
                proof {
                    lemma_groups_skip(keys.take(i as int));
                }
            },
        }
    }
    assert(keys.take(keys.len() as int) =~= keys);
    map
}

/// Counts the chunks of each language.
pub fn count_languages(chunks: &Vec<Chunk>) -> (r: StringMap<usize>)
    ensures
        r@ == counts(language_keys(chunks.deep_view())),
{
    let mut map: StringMap<usize> = StringMap::new();
    let ghost keys = language_keys(chunks.deep_view());
    assert(map@ =~= counts(keys.take(0)));
    for i in 0..chunks.len()
        invariant
            keys == language_keys(chunks.deep_view()),
            map@ == counts(keys.take(i as int)),
    {
        let ghost seen = keys.take(i as int);
        let ghost all = keys.take(i + 1);
        proof {
            assert(all =~= seen.push(keys[i as int]));
            assert(all.drop_last() =~= seen);
            lemma_contains_push(seen, keys[i as int]);
        }
        match &chunks[i].language {
            Some(language) => {
                let n: usize = match map.get(language.as_str()) {
                    Some(n) => *n,
                    None => 0,
                };
                proof {
                    law_positions(seen, language@);
                    if !seen.contains(Some(language@)) {
                        lemma_positions_absent(seen, language@);
                    }
                    assert(n == positions(seen, language@).len());
                }
                let ghost before = map@;
                map = map.put(language.as_str(), n + 1);
                assert(before.insert(language@, (n + 1) as usize) =~= counts(all));
            },
            None => {
                assert(counts(seen) =~= counts(all));
            },
        }
    }
    assert(keys.take(keys.len() as int) =~= keys);
    map
}

/// The counts are the sizes of the groups.
pub proof fn law_counts_are_group_sizes(keys: Seq<Option<Seq<char>>>, key: Seq<char>)
    requires
        keys.len() <= usize::MAX,
    ensures
        counts(keys).contains_key(key) <==> groups(keys).contains_key(key),
        groups(keys).contains_key(key) ==> counts(keys)[key] == groups(keys)[key].len(),
        counts(keys).contains_key(key) ==> 0 < counts(keys)[key] <= keys.len(),
{
    law_positions(keys, key);
    if keys.contains(Some(key)) {
        let i = choose|i: int| 0 <= i < keys.len() && keys[i] == Some(key);
        assert(positions(keys, key).contains(i as usize));
    }
}

} // verus!
