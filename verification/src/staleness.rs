//! What makes a cache stale, and what does not.
use vstd::prelude::*;
#[allow(unused_imports)]
use vstd::utf8::encode_utf8;

#[allow(unused_imports)]
use crate::codec::{law_u32_read_back, le_u32, le_u64};
#[allow(unused_imports)]
use crate::engine::Engine;
#[allow(unused_imports)]
use crate::error::SonarError;
#[allow(unused_imports)]
use crate::index::SonarIndex;
#[allow(unused_imports)]
use crate::listing::{
    by_path, insert_by_path, law_by_path_ignores_order, listed_files, path_le,
};
#[allow(unused_imports)]
use crate::persist::{
    blake3_hex, cache_checked, content_hash, hash_shaped, listing_bytes, saved,
};
#[allow(unused_imports)]
use crate::roundtrip::{blobs_fit, chunks_read_back, law_stale_cache_is_not_used, storable};
#[allow(unused_imports)]
use crate::walk::{entered_directory, hidden_directory, reached};

verus! {

/// Every path is listed once.
pub open spec fn listed_once(listing: Seq<(Seq<char>, u64)>) -> bool {
    forall|i: int, j: int| 0 <= i < j < listing.len() ==> listing[i].0 != listing[j].0
}

/// The content hash depends on the files and their times, not on the order in which the walk met
/// them.
pub proof fn law_hash_ignores_walk_order(a: Seq<(Seq<char>, u64)>, b: Seq<(Seq<char>, u64)>)
    requires
        listed_once(a),
        listed_once(b),
        forall|e: (Seq<char>, u64)| a.contains(e) <==> b.contains(e),
    ensures
        content_hash(a) == content_hash(b),
{
    law_by_path_ignores_order(a, b);
}

/// Inserting an entry adds the bytes of its path and of its time.
proof fn lemma_insert_length(s: Seq<(Seq<char>, u64)>, e: (Seq<char>, u64))
    ensures
        listing_bytes(insert_by_path(s, e)).len() == listing_bytes(s).len() + encode_utf8(
            e.0,
        ).len() + 8,
    decreases s.len(),
{
    let r = insert_by_path(s, e);
    if s.len() == 0 || path_le(s.last().0, e.0) {
        assert(r.drop_last() =~= s);
    } else {
        lemma_insert_length(s.drop_last(), e);
        assert(r.drop_last() =~= insert_by_path(s.drop_last(), e));
    }
}

/// Ordering a listing does not change how many bytes are hashed.
proof fn lemma_sorted_length(s: Seq<(Seq<char>, u64)>)
    ensures
        listing_bytes(by_path(s)).len() == listing_bytes(s).len(),
    decreases s.len(),
{
    if s.len() > 0 {
        lemma_sorted_length(s.drop_last());
        lemma_insert_length(by_path(s.drop_last()), s.last());
    }
}

/// `b` lists the files of `a` and one more, `e`.
pub open spec fn one_more(
    a: Seq<(Seq<char>, u64)>,
    b: Seq<(Seq<char>, u64)>,
    e: (Seq<char>, u64),
) -> bool {
    &&& listed_once(a)
    &&& listed_once(b)
    &&& forall|i: int| 0 <= i < a.len() ==> (#[trigger] a[i]).0 != e.0
    &&& forall|x: (Seq<char>, u64)| #[trigger] b.contains(x) <==> a.contains(x) || x == e
}

/// With one file more, more bytes are hashed.
pub proof fn law_added_file_adds_bytes(
    a: Seq<(Seq<char>, u64)>,
    b: Seq<(Seq<char>, u64)>,
    e: (Seq<char>, u64),
)
    requires
        one_more(a, b, e),
    ensures
        listing_bytes(by_path(b)).len() > listing_bytes(by_path(a)).len(),
{
    let c = a.push(e);
    assert forall|i: int, j: int| 0 <= i < j < c.len() implies c[i].0 != c[j].0 by {
        assert(c[i] == a[i]);
    }
    assert forall|x: (Seq<char>, u64)| b.contains(x) <==> c.contains(x) by {
        assert(b.contains(x) <==> a.contains(x) || x == e);
        if a.contains(x) {
            let k = choose|k: int| 0 <= k < a.len() && a[k] == x;
            assert(c[k] == x);
        }
        if x == e {
            assert(c[a.len() as int] == x);
        }
        if c.contains(x) && x != e {
            let k = choose|k: int| 0 <= k < c.len() && c[k] == x;
            assert(a[k] == x);
        }
    }
    law_by_path_ignores_order(b, c);
    lemma_sorted_length(a);
    lemma_sorted_length(c);
    assert(c.drop_last() =~= a);
}

/// Where an entry is inserted depends on its path alone.
proof fn lemma_insert_retimed(s: Seq<(Seq<char>, u64)>, e: (Seq<char>, u64), t: u64) -> (m: int)
    ensures
        0 <= m < insert_by_path(s, e).len(),
        insert_by_path(s, e)[m] == e,
        insert_by_path(s, (e.0, t)) == insert_by_path(s, e).update(m, (e.0, t)),
    decreases s.len(),
{
    let r = insert_by_path(s, e);
    if s.len() == 0 || path_le(s.last().0, e.0) {
        assert(insert_by_path(s, (e.0, t)) =~= r.update(s.len() as int, (e.0, t)));
        s.len() as int
    } else {
        let m = lemma_insert_retimed(s.drop_last(), e, t);
        assert(insert_by_path(s, (e.0, t)) =~= r.update(m, (e.0, t)));
        m
    }
}

/// Another time of an entry does not change where others are inserted.
proof fn lemma_insert_into_retimed(
    s: Seq<(Seq<char>, u64)>,
    k: int,
    t: u64,
    e: (Seq<char>, u64),
) -> (m: int)
    requires
        0 <= k < s.len(),
    ensures
        0 <= m < insert_by_path(s, e).len(),
        insert_by_path(s, e)[m] == s[k],
        insert_by_path(s.update(k, (s[k].0, t)), e) == insert_by_path(s, e).update(
            m,
            (s[k].0, t),
        ),
    decreases s.len(),
{
    let x = (s[k].0, t);
    let u = s.update(k, x);
    let r = insert_by_path(s, e);
    assert(u.last().0 == s.last().0);
    if path_le(s.last().0, e.0) {
        assert(insert_by_path(u, e) =~= r.update(k, x));
        k
    } else if k == s.len() - 1 {
        assert(u.drop_last() =~= s.drop_last());
        let m = r.len() - 1;
        assert(insert_by_path(u, e) =~= r.update(m, x));
        m
    } else {
        let rest = s.drop_last();
        let m = lemma_insert_into_retimed(rest, k, t, e);
        assert(u.drop_last() =~= rest.update(k, x));
        assert(insert_by_path(u, e) =~= r.update(m, x));
        m
    }
}

/// Another time of an entry changes that entry in the ordered listing, and nothing else.
proof fn lemma_sorted_retimed(a: Seq<(Seq<char>, u64)>, k: int, t: u64) -> (m: int)
    requires
        0 <= k < a.len(),
    ensures
        0 <= m < by_path(a).len(),
        by_path(a)[m] == a[k],
        by_path(a.update(k, (a[k].0, t))) == by_path(a).update(m, (a[k].0, t)),
    decreases a.len(),
{
    let x = (a[k].0, t);
    let u = a.update(k, x);
    let rest = a.drop_last();
    if k == a.len() - 1 {
        assert(u.drop_last() =~= rest);
        lemma_insert_retimed(by_path(rest), a[k], t)
    } else {
        assert(u.drop_last() =~= rest.update(k, x));
        let m = lemma_sorted_retimed(rest, k, t);
        lemma_insert_into_retimed(by_path(rest), m, t, a.last())
    }
}

/// Different times have different bytes.
proof fn lemma_le_u64_injective(a: u64, b: u64)
    requires
        le_u64(a) == le_u64(b),
    ensures
        a == b,
{
    let a_low = (a % 0x1_0000_0000) as u32;
    let a_high = (a / 0x1_0000_0000) as u32;
    let b_low = (b % 0x1_0000_0000) as u32;
    let b_high = (b / 0x1_0000_0000) as u32;
    law_u32_read_back(a_low, Seq::empty());
    law_u32_read_back(a_high, Seq::empty());
    law_u32_read_back(b_low, Seq::empty());
    law_u32_read_back(b_high, Seq::empty());
    assert(le_u64(a).take(4) =~= le_u32(a_low));
    assert(le_u64(b).take(4) =~= le_u32(b_low));
    assert(le_u64(a).skip(4) =~= le_u32(a_high));
    assert(le_u64(b).skip(4) =~= le_u32(b_high));
}

/// Another time of an entry changes the bytes of a listing, but not their number.
proof fn lemma_retimed_bytes(s: Seq<(Seq<char>, u64)>, m: int, t: u64)
    requires
        0 <= m < s.len(),
        s[m].1 != t,
    ensures
        listing_bytes(s) != listing_bytes(s.update(m, (s[m].0, t))),
        listing_bytes(s).len() == listing_bytes(s.update(m, (s[m].0, t))).len(),
    decreases s.len(),
{
    let x = (s[m].0, t);
    let u = s.update(m, x);
    let rest = s.drop_last();
    let p = listing_bytes(s);
    let q = listing_bytes(u);
    if m == s.len() - 1 {
        assert(u.drop_last() =~= rest);
        let n = p.len() - 8;
        assert(p.skip(n) =~= le_u64(s[m].1));
        assert(q.skip(n) =~= le_u64(t));
        if p == q {
            lemma_le_u64_injective(s[m].1, t);
        }
    } else {
        assert(u.drop_last() =~= rest.update(m, x));
        lemma_retimed_bytes(rest, m, t);
        let n = listing_bytes(rest).len() as int;
        assert(p.take(n) =~= listing_bytes(rest));
        assert(q.take(n) =~= listing_bytes(rest.update(m, x)));
    }
}

/// With another time of a file, other bytes are hashed.
pub proof fn law_changed_time_changes_bytes(a: Seq<(Seq<char>, u64)>, k: int, t: u64)
    requires
        0 <= k < a.len(),
        a[k].1 != t,
    ensures
        listing_bytes(by_path(a)) != listing_bytes(by_path(a.update(k, (a[k].0, t)))),
{
    let m = lemma_sorted_retimed(a, k, t);
    lemma_retimed_bytes(by_path(a), m, t);
}

/// A file was added or removed, or its time has changed.
pub open spec fn one_change(a: Seq<(Seq<char>, u64)>, b: Seq<(Seq<char>, u64)>) -> bool {
    ||| exists|e: (Seq<char>, u64)| one_more(a, b, e)
    ||| exists|e: (Seq<char>, u64)| one_more(b, a, e)
    ||| exists|k: int, t: u64|
        0 <= k < a.len() && (#[trigger] a[k]).1 != t && b == #[trigger] a.update(k, (a[k].0, t))
}

/// The BLAKE3 hash has different values for two different byte strings.
pub open spec fn told_apart(x: Seq<u8>, y: Seq<u8>) -> bool {
    x != y ==> blake3_hex(x) != blake3_hex(y)
}

/// A cache is stale once a file was added or removed, or has another time, unless the two listings
/// happen to be a collision of the hash.
pub proof fn law_changed_project_makes_cache_stale<E: Engine>(
    engine: &E,
    index: SonarIndex,
    listing: Seq<(Seq<char>, u64)>,
    bytes: Vec<u8>,
    cache: Option<&[u8]>,
    current: Seq<(Seq<char>, u64)>,
    r: Result<Option<SonarIndex>, SonarError>,
)
    requires
        saved(engine, &index, content_hash(listing), Ok(bytes)),
        hash_shaped(content_hash(listing)),
        cache matches Some(data) && data@ == bytes@,
        cache_checked(engine, cache, current, r),
        blobs_fit(engine, index),
        storable(index.flat, index.chunks@.len()),
        chunks_read_back(engine, &index.chunks),
        one_change(listing, current),
        told_apart(listing_bytes(by_path(listing)), listing_bytes(by_path(current))),
    ensures
        content_hash(current) != content_hash(listing),
        r matches Ok(None),
{
    law_one_change_changes_bytes(listing, current);
    law_stale_cache_is_not_used(engine, index, listing, bytes, cache, current, r);
}

/// If a file was added or removed, or has another time, other bytes are hashed.
pub proof fn law_one_change_changes_bytes(a: Seq<(Seq<char>, u64)>, b: Seq<(Seq<char>, u64)>)
    requires
        one_change(a, b),
    ensures
        listing_bytes(by_path(a)) != listing_bytes(by_path(b)),
{
    if exists|e: (Seq<char>, u64)| one_more(a, b, e) {
        let e = choose|e: (Seq<char>, u64)| one_more(a, b, e);
        law_added_file_adds_bytes(a, b, e);
    } else if exists|e: (Seq<char>, u64)| one_more(b, a, e) {
        let e = choose|e: (Seq<char>, u64)| one_more(b, a, e);
        law_added_file_adds_bytes(b, a, e);
    } else {
        let (k, t) = choose|k: int, t: u64|
            0 <= k < a.len() && (#[trigger] a[k]).1 != t && b == #[trigger] a.update(
                k,
                (a[k].0, t),
            );
        law_changed_time_changes_bytes(a, k, t);
    }
}

/// Every path was met once.
pub open spec fn met_once(files: Seq<(Seq<Seq<char>>, (Seq<char>, u64))>) -> bool {
    forall|i: int, j: int| 0 <= i < j < files.len() ==> files[i].1.0 != files[j].1.0
}

/// `e` is listed because the walk reaches it.
pub open spec fn met(
    files: Seq<(Seq<Seq<char>>, (Seq<char>, u64))>,
    e: (Seq<char>, u64),
) -> bool {
    exists|i: int| 0 <= i < files.len() && reached((#[trigger] files[i]).0) && files[i].1 == e
}

/// The listing holds the files that the walk reaches, each once.
proof fn lemma_listed(files: Seq<(Seq<Seq<char>>, (Seq<char>, u64))>)
    ensures
        forall|e: (Seq<char>, u64)| #[trigger] listed_files(files).contains(e) <==> met(files, e),
        met_once(files) ==> listed_once(listed_files(files)),
    decreases files.len(),
{
    let all = listed_files(files);
    if files.len() > 0 {
        let rest = files.drop_last();
        let last = files.last();
        let before = listed_files(rest);
        lemma_listed(rest);
        assert forall|e: (Seq<char>, u64)| #[trigger] all.contains(e) <==> met(files, e) by {
            assert(before.contains(e) <==> met(rest, e));
            if all.contains(e) {
                let k = choose|k: int| 0 <= k < all.len() && all[k] == e;
                if k < before.len() {
                    assert(before[k] == e);
                    let i = choose|i: int|
                        0 <= i < rest.len() && reached((#[trigger] rest[i]).0) && rest[i].1 == e;
                    assert(files[i] == rest[i]);
                } else {
                    assert(files[files.len() - 1] == last);
                }
            }
            if met(files, e) {
                let i = choose|i: int|
                    0 <= i < files.len() && reached((#[trigger] files[i]).0) && files[i].1 == e;
                if i < rest.len() {
                    assert(rest[i] == files[i]);
                    let k = choose|k: int| 0 <= k < before.len() && before[k] == e;
                    assert(all[k] == e);
                } else {
                    assert(all[all.len() - 1] == e);
                }
            }
        }
        if met_once(files) {
            assert forall|i: int, j: int| 0 <= i < j < rest.len() implies rest[i].1.0
                != rest[j].1.0 by {
                assert(files[i].1.0 != files[j].1.0);
            }
            assert forall|i: int, j: int| 0 <= i < j < all.len() implies all[i].0 != all[j].0 by {
                assert(all[i] == before[i]);
                if j < before.len() {
                    assert(before[i].0 != before[j].0);
                } else {
                    assert(before.contains(before[i]));
                    let k = choose|k: int|
                        0 <= k < rest.len() && reached((#[trigger] rest[k]).0) && rest[k].1
                            == before[i];
                    assert(files[k].1.0 != files[files.len() - 1].1.0);
                }
            }
        }
    }
}

/// Files in directories that the walk does not enter do not count: if two walks meet the same files
/// apart from these, the content hash is the same.
pub proof fn law_unentered_files_do_not_count(
    a: Seq<(Seq<Seq<char>>, (Seq<char>, u64))>,
    b: Seq<(Seq<Seq<char>>, (Seq<char>, u64))>,
)
    requires
        met_once(a),
        met_once(b),
        forall|f: (Seq<Seq<char>>, (Seq<char>, u64))|
            reached(f.0) ==> (#[trigger] a.contains(f) <==> b.contains(f)),
    ensures
        content_hash(listed_files(a)) == content_hash(listed_files(b)),
{
    lemma_listed(a);
    lemma_listed(b);
    assert forall|e: (Seq<char>, u64)|
        listed_files(a).contains(e) <==> listed_files(b).contains(e) by {
        if met(a, e) {
            let i = choose|i: int|
                0 <= i < a.len() && reached((#[trigger] a[i]).0) && a[i].1 == e;
            assert(a.contains(a[i]));
            assert(b.contains(a[i]));
            let j = choose|j: int| 0 <= j < b.len() && b[j] == a[i];
            assert(reached(b[j].0) && b[j].1 == e);
        }
        if met(b, e) {
            let i = choose|i: int|
                0 <= i < b.len() && reached((#[trigger] b[i]).0) && b[i].1 == e;
            assert(b.contains(b[i]));
            assert(a.contains(b[i]));
            let j = choose|j: int| 0 <= j < a.len() && a[j] == b[i];
            assert(reached(a[j].0) && a[j].1 == e);
        }
    }
    law_hash_ignores_walk_order(listed_files(a), listed_files(b));
}

/// A file in a directory whose name starts with a dot is not listed. So saving a cache file, which
/// stands in `.sonar`, does not make it stale.
pub proof fn law_hidden_files_are_not_reached(directories: Seq<Seq<char>>, k: int)
    requires
        0 <= k < directories.len(),
        hidden_directory(directories[k]),
    ensures
        !reached(directories),
        hidden_directory(".sonar"@),
{
    reveal_strlit(".sonar");
    reveal_strlit(".");
    assert(!entered_directory(directories[k]));
}

} // verus!
