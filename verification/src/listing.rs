//! File listings in the order of their paths.
use vstd::prelude::*;
#[allow(unused_imports)]
use vstd::utf8::encode_utf8;

#[allow(unused_imports)]
use crate::text::lemma_utf8_injective;
use crate::walk::enters_all;
#[allow(unused_imports)]
use crate::walk::reached;

verus! {

/// A file and the time of its last change, in seconds since the epoch.
#[derive(Debug)]
pub struct FileStamp {
    pub path: String,
    pub modified: u64,
}

impl DeepView for FileStamp {
    type V = (Seq<char>, u64);

    open spec fn deep_view(&self) -> (Seq<char>, u64) {
        (self.path@, self.modified)
    }
}

/// A regular file below a project root, with the names of the directories on the way to it, that of
/// the root first.
#[derive(Debug)]
pub struct MetFile {
    pub directories: Vec<String>,
    pub stamp: FileStamp,
}

impl DeepView for MetFile {
    type V = (Seq<Seq<char>>, (Seq<char>, u64));

    open spec fn deep_view(&self) -> (Seq<Seq<char>>, (Seq<char>, u64)) {
        (self.directories.deep_view(), self.stamp.deep_view())
    }
}

/// The listing of a project: the files that the walk reaches, in their order.
pub open spec fn listed_files(files: Seq<(Seq<Seq<char>>, (Seq<char>, u64))>) -> Seq<
    (Seq<char>, u64),
>
    decreases files.len(),
{
    if files.len() == 0 {
        Seq::empty()
    } else {
        let before = listed_files(files.drop_last());
        if reached(files.last().0) {
            before.push(files.last().1)
        } else {
            before
        }
    }
}

/// Lists the files that the walk reaches.
pub fn list_files(files: Vec<MetFile>) -> (r: Vec<FileStamp>)
    ensures
        r.deep_view() == listed_files(files.deep_view()),
{
    let mut listing: Vec<FileStamp> = Vec::new();
    let ghost all = files.deep_view();
    assert(listing.deep_view() =~= listed_files(all.take(0)));
    for file in it: files
        invariant
            it.seq() == files@,
            all == files.deep_view(),
            listing.deep_view() == listed_files(all.take(it.index())),
    {
        let ghost i = it.index();
        let ghost before = listing.deep_view();
        proof {
            assert(all.take(i + 1).drop_last() =~= all.take(i));
            assert(all.take(i + 1).last() == file.deep_view());
        }
        if enters_all(&file.directories) {
            let ghost value = file.stamp.deep_view();
            listing.push(file.stamp);
            assert(listing.deep_view() =~= before.push(value));
        }
    }
    assert(all.take(all.len() as int) =~= all);
    listing
}

/// Lexicographic order of byte strings.
pub open spec fn bytes_le(a: Seq<u8>, b: Seq<u8>) -> bool
    decreases a.len(),
{
    if a.len() == 0 {
        true
    } else if b.len() == 0 {
        false
    } else if a[0] == b[0] {
        bytes_le(a.drop_first(), b.drop_first())
    } else {
        a[0] < b[0]
    }
}

/// Paths are ordered by their UTF-8 bytes.
pub open spec fn path_le(a: Seq<char>, b: Seq<char>) -> bool {
    bytes_le(encode_utf8(a), encode_utf8(b))
}

proof fn lemma_bytes_le_total(a: Seq<u8>, b: Seq<u8>)
    ensures
        bytes_le(a, b) || bytes_le(b, a),
    decreases a.len(),
{
    if a.len() > 0 && b.len() > 0 {
        lemma_bytes_le_total(a.drop_first(), b.drop_first());
    }
}

proof fn lemma_bytes_le_transitive(a: Seq<u8>, b: Seq<u8>, c: Seq<u8>)
    requires
        bytes_le(a, b),
        bytes_le(b, c),
    ensures
        bytes_le(a, c),
    decreases a.len(),
{
    if a.len() > 0 && a[0] == b[0] && b[0] == c[0] {
        lemma_bytes_le_transitive(a.drop_first(), b.drop_first(), c.drop_first());
    }
}

proof fn lemma_bytes_le_antisymmetric(a: Seq<u8>, b: Seq<u8>)
    requires
        bytes_le(a, b),
        bytes_le(b, a),
    ensures
        a == b,
    decreases a.len(),
{
    if a.len() > 0 && b.len() > 0 {
        lemma_bytes_le_antisymmetric(a.drop_first(), b.drop_first());
        assert(a =~= seq![a[0]] + a.drop_first());
        assert(b =~= seq![b[0]] + b.drop_first());
    } else {
        assert(a =~= b);
    }
}

/// The order of paths is total.
pub proof fn law_path_order(a: Seq<char>, b: Seq<char>, c: Seq<char>)
    ensures
        path_le(a, b) || path_le(b, a),
        path_le(a, b) && path_le(b, c) ==> path_le(a, c),
        path_le(a, b) && path_le(b, a) ==> a == b,
{
    lemma_bytes_le_total(encode_utf8(a), encode_utf8(b));
    if path_le(a, b) && path_le(b, c) {
        lemma_bytes_le_transitive(encode_utf8(a), encode_utf8(b), encode_utf8(c));
    }
    if path_le(a, b) && path_le(b, a) {
        lemma_bytes_le_antisymmetric(encode_utf8(a), encode_utf8(b));
        lemma_utf8_injective(a, b);
    }
}

/// Compares two paths.
fn path_at_most(a: &str, b: &str) -> (r: bool)
    ensures
        r == path_le(a@, b@),
{
    let x = a.as_bytes();
    let y = b.as_bytes();
    let mut i: usize = 0;
    assert(x@.skip(0) =~= x@ && y@.skip(0) =~= y@);
    while i < x.len() && i < y.len() && x[i] == y[i]
        invariant
            i <= x@.len(),
            i <= y@.len(),
            bytes_le(x@, y@) == bytes_le(x@.skip(i as int), y@.skip(i as int)),
        decreases x@.len() - i,
    {
        assert(x@.skip(i as int).drop_first() =~= x@.skip(i + 1));
        assert(y@.skip(i as int).drop_first() =~= y@.skip(i + 1));
        i = i + 1;
    }
    if i == x.len() {
        true
    } else if i == y.len() {
        false
    } else {
        x[i] < y[i]
    }
}

/// `entry` put behind everything in `sorted` whose path is not greater.
pub open spec fn insert_by_path(sorted: Seq<(Seq<char>, u64)>, entry: (Seq<char>, u64)) -> Seq<
    (Seq<char>, u64),
>
    decreases sorted.len(),
{
    if sorted.len() == 0 || path_le(sorted.last().0, entry.0) {
        sorted.push(entry)
    } else {
        insert_by_path(sorted.drop_last(), entry).push(sorted.last())
    }
}

/// The entries in the order of their paths; entries with the same path keep their order.
pub open spec fn by_path(entries: Seq<(Seq<char>, u64)>) -> Seq<(Seq<char>, u64)>
    decreases entries.len(),
{
    if entries.len() == 0 {
        Seq::empty()
    } else {
        insert_by_path(by_path(entries.drop_last()), entries.last())
    }
}

/// The paths ascend.
pub open spec fn ascending(s: Seq<(Seq<char>, u64)>) -> bool {
    forall|i: int, j: int| 0 <= i < j < s.len() ==> path_le(#[trigger] s[i].0, #[trigger] s[j].0)
}

/// The entries with the given path, in their order.
pub open spec fn run(s: Seq<(Seq<char>, u64)>, path: Seq<char>) -> Seq<(Seq<char>, u64)>
    decreases s.len(),
{
    if s.len() == 0 {
        Seq::empty()
    } else {
        let before = run(s.drop_last(), path);
        if s.last().0 == path {
            before.push(s.last())
        } else {
            before
        }
    }
}

proof fn lemma_run_concat(s: Seq<(Seq<char>, u64)>, t: Seq<(Seq<char>, u64)>, path: Seq<char>)
    ensures
        run(s + t, path) == run(s, path) + run(t, path),
    decreases t.len(),
{
    if t.len() == 0 {
        assert(s + t =~= s);
        assert(run(s, path) + run(t, path) =~= run(s, path));
    } else {
        assert((s + t).drop_last() =~= s + t.drop_last());
        lemma_run_concat(s, t.drop_last(), path);
        assert(run(s + t, path) =~= run(s, path) + run(t, path));
    }
}

/// A run holds what stands in the sequence under the path.
proof fn lemma_run_members(s: Seq<(Seq<char>, u64)>, path: Seq<char>)
    ensures
        forall|i: int| 0 <= i < s.len() && s[i].0 == path ==> run(s, path).contains(#[trigger] s[i]),
        forall|i: int|
            0 <= i < run(s, path).len() ==> s.contains(#[trigger] run(s, path)[i]) && run(
                s,
                path,
            )[i].0 == path,
    decreases s.len(),
{
    if s.len() > 0 {
        let rest = s.drop_last();
        let before = run(rest, path);
        let all = run(s, path);
        lemma_run_members(rest, path);
        assert forall|i: int| 0 <= i < s.len() && s[i].0 == path implies all.contains(
            #[trigger] s[i],
        ) by {
            if i < rest.len() {
                assert(rest[i] == s[i]);
                assert(before.contains(rest[i]));
                let k = choose|k: int| 0 <= k < before.len() && before[k] == rest[i];
                assert(all[k] == s[i]);
            } else {
                assert(all[all.len() - 1] == s[i]);
            }
        }
        assert forall|i: int| 0 <= i < all.len() implies s.contains(#[trigger] all[i]) && all[i].0
            == path by {
            if i < before.len() {
                assert(all[i] == before[i]);
                assert(rest.contains(before[i]));
                let k = choose|k: int| 0 <= k < rest.len() && rest[k] == before[i];
                assert(s[k] == all[i]);
            } else {
                assert(s[s.len() - 1] == all[i]);
            }
        }
    }
}

/// Ascending sequences with the same runs end alike.
proof fn lemma_same_last(x: Seq<(Seq<char>, u64)>, y: Seq<(Seq<char>, u64)>)
    requires
        x.len() > 0,
        ascending(x),
        ascending(y),
        forall|p: Seq<char>| #[trigger] run(x, p) == run(y, p),
    ensures
        y.len() > 0,
        x.last() == y.last(),
{
    let p = x.last().0;
    lemma_run_members(x, p);
    lemma_run_members(y, p);
    assert(run(x, p).contains(x[x.len() - 1]));
    assert(run(y, p).len() > 0);
    assert(y.contains(run(y, p)[0]));
    let q = y.last().0;
    lemma_run_members(x, q);
    lemma_run_members(y, q);
    assert(run(y, q).contains(y[y.len() - 1]));
    assert(run(x, q).len() > 0);
    assert(x.contains(run(x, q)[0]));
    let i = choose|i: int| 0 <= i < y.len() && y[i] == run(y, p)[0];
    let j = choose|j: int| 0 <= j < x.len() && x[j] == run(x, q)[0];
    assert(y[i].0 == p && x[j].0 == q);
    law_path_order(p, p, p);
    law_path_order(q, q, q);
    assert(path_le(p, q)) by {
        if i < y.len() - 1 {
            assert(path_le(y[i].0, y[y.len() - 1].0));
        }
    }
    assert(path_le(q, p)) by {
        if j < x.len() - 1 {
            assert(path_le(x[j].0, x[x.len() - 1].0));
        }
    }
    law_path_order(p, q, p);
    assert(run(x, p).last() == x.last());
    assert(run(y, p).last() == y.last());
}

/// Without its last entry a sequence still ascends.
proof fn lemma_ascending_drop_last(s: Seq<(Seq<char>, u64)>)
    requires
        s.len() > 0,
        ascending(s),
    ensures
        ascending(s.drop_last()),
{
    let t = s.drop_last();
    assert forall|a: int, b: int| 0 <= a < b < t.len() implies path_le(
        #[trigger] t[a].0,
        #[trigger] t[b].0,
    ) by {
        assert(path_le(s[a].0, s[b].0));
    }
}

/// An ascending sequence is determined by its runs.
proof fn lemma_ascending_unique(x: Seq<(Seq<char>, u64)>, y: Seq<(Seq<char>, u64)>)
    requires
        ascending(x),
        ascending(y),
        forall|p: Seq<char>| #[trigger] run(x, p) == run(y, p),
    ensures
        x == y,
    decreases x.len(),
{
    if x.len() == 0 {
        if y.len() > 0 {
            lemma_run_members(y, y[0].0);
            assert(run(y, y[0].0).contains(y[0]));
            assert(run(x, y[0].0) == run(y, y[0].0));
        }
        assert(x =~= y);
    } else {
        lemma_same_last(x, y);
        let p = x.last().0;
        let x1 = x.drop_last();
        let y1 = y.drop_last();
        assert forall|r: Seq<char>| #[trigger] run(x1, r) == run(y1, r) by {
            assert(run(x, r) == run(y, r));
            if r == p {
                assert(run(x1, r) =~= run(x, r).drop_last());
                assert(run(y1, r) =~= run(y, r).drop_last());
            }
        }
        lemma_ascending_drop_last(x);
        lemma_ascending_drop_last(y);
        lemma_ascending_unique(x1, y1);
        assert(x =~= x1.push(x.last()));
        assert(y =~= y1.push(y.last()));
    }
}

proof fn lemma_insert_bounded(
    s: Seq<(Seq<char>, u64)>,
    entry: (Seq<char>, u64),
    bound: Seq<char>,
)
    requires
        forall|i: int| 0 <= i < s.len() ==> path_le(#[trigger] s[i].0, bound),
        path_le(entry.0, bound),
    ensures
        forall|i: int|
            0 <= i < insert_by_path(s, entry).len() ==> path_le(
                #[trigger] insert_by_path(s, entry)[i].0,
                bound,
            ),
    decreases s.len(),
{
    let r = insert_by_path(s, entry);
    if s.len() == 0 || path_le(s.last().0, entry.0) {
        assert forall|i: int| 0 <= i < r.len() implies path_le(#[trigger] r[i].0, bound) by {
            if i < s.len() {
                assert(path_le(s[i].0, bound));
            }
        }
    } else {
        let rest = s.drop_last();
        let inner = insert_by_path(rest, entry);
        assert forall|i: int| 0 <= i < rest.len() implies path_le(#[trigger] rest[i].0, bound) by {
            assert(path_le(s[i].0, bound));
        }
        lemma_insert_bounded(rest, entry, bound);
        assert forall|i: int| 0 <= i < r.len() implies path_le(#[trigger] r[i].0, bound) by {
            if i < inner.len() {
                assert(path_le(inner[i].0, bound));
            } else {
                assert(path_le(s[s.len() - 1].0, bound));
            }
        }
    }
}

proof fn lemma_insert(s: Seq<(Seq<char>, u64)>, entry: (Seq<char>, u64))
    requires
        ascending(s),
    ensures
        ascending(insert_by_path(s, entry)),
        forall|p: Seq<char>| #[trigger]
            run(insert_by_path(s, entry), p) == run(s.push(entry), p),
    decreases s.len(),
{
    let r = insert_by_path(s, entry);
    if s.len() == 0 || path_le(s.last().0, entry.0) {
        assert forall|i: int, j: int| 0 <= i < j < r.len() implies path_le(
            #[trigger] r[i].0,
            #[trigger] r[j].0,
        ) by {
            if j < s.len() {
                assert(path_le(s[i].0, s[j].0));
            } else {
                law_path_order(s[i].0, s.last().0, entry.0);
                law_path_order(s[i].0, s[i].0, s[i].0);
                if i < s.len() - 1 {
                    assert(path_le(s[i].0, s[s.len() - 1].0));
                }
            }
        }
    } else {
        let rest = s.drop_last();
        let last = s.last();
        let inner = insert_by_path(rest, entry);
        lemma_ascending_drop_last(s);
        lemma_insert(rest, entry);
        assert forall|i: int| 0 <= i < rest.len() implies path_le(#[trigger] rest[i].0, last.0) by {
            assert(path_le(s[i].0, s[s.len() - 1].0));
        }
        law_path_order(entry.0, last.0, last.0);
        lemma_insert_bounded(rest, entry, last.0);
        assert forall|i: int, j: int| 0 <= i < j < r.len() implies path_le(
            #[trigger] r[i].0,
            #[trigger] r[j].0,
        ) by {
            if j < inner.len() {
                assert(path_le(inner[i].0, inner[j].0));
            } else {
                assert(path_le(inner[i].0, last.0));
            }
        }
        assert forall|p: Seq<char>| #[trigger] run(r, p) == run(s.push(entry), p) by {
            law_path_order(last.0, last.0, last.0);
            assert(r.drop_last() =~= inner);
            assert(run(inner, p) == run(rest.push(entry), p));
            assert(rest.push(entry).drop_last() =~= rest);
            assert(s.push(entry).drop_last() =~= s);
            assert(run(s, p) == if last.0 == p {
                run(rest, p).push(last)
            } else {
                run(rest, p)
            });
        }
    }
}

/// Ordering by path gives an ascending listing and leaves the entries under each path as they
/// were, so it neither loses nor adds anything.
pub proof fn law_by_path(entries: Seq<(Seq<char>, u64)>)
    ensures
        ascending(by_path(entries)),
        forall|p: Seq<char>| #[trigger] run(by_path(entries), p) == run(entries, p),
    decreases entries.len(),
{
    if entries.len() > 0 {
        let rest = entries.drop_last();
        let last = entries.last();
        law_by_path(rest);
        lemma_insert(by_path(rest), last);
        assert forall|p: Seq<char>| #[trigger] run(by_path(entries), p) == run(entries, p) by {
            assert(run(by_path(rest), p) == run(rest, p));
            assert(by_path(rest).push(last).drop_last() =~= by_path(rest));
            assert(run(by_path(entries), p) == run(by_path(rest).push(last), p));
        }
    }
}

/// Two listings of the same files, each listed once, are the same in the order of their paths.
pub proof fn law_by_path_ignores_order(a: Seq<(Seq<char>, u64)>, b: Seq<(Seq<char>, u64)>)
    requires
        forall|i: int, j: int| 0 <= i < j < a.len() ==> a[i].0 != a[j].0,
        forall|i: int, j: int| 0 <= i < j < b.len() ==> b[i].0 != b[j].0,
        forall|e: (Seq<char>, u64)| a.contains(e) <==> b.contains(e),
    ensures
        by_path(a) == by_path(b),
{
    law_by_path(a);
    law_by_path(b);
    assert forall|p: Seq<char>| #[trigger] run(by_path(a), p) == run(by_path(b), p) by {
        lemma_run_of_distinct(a, p);
        lemma_run_of_distinct(b, p);
        lemma_run_members(a, p);
        lemma_run_members(b, p);
        assert(run(by_path(a), p) == run(a, p));
        assert(run(by_path(b), p) == run(b, p));
        if run(a, p).len() == 1 {
            let e = run(a, p)[0];
            assert(a.contains(e) && b.contains(e));
            let k = choose|k: int| 0 <= k < b.len() && b[k] == e;
            assert(run(b, p).contains(b[k]));
            assert(run(a, p) =~= run(b, p));
        } else if run(b, p).len() == 1 {
            let e = run(b, p)[0];
            assert(b.contains(e) && a.contains(e));
            let k = choose|k: int| 0 <= k < a.len() && a[k] == e;
            assert(run(a, p).contains(a[k]));
        } else {
            assert(run(a, p) =~= run(b, p));
        }
    }
    lemma_ascending_unique(by_path(a), by_path(b));
}

proof fn lemma_run_of_distinct(s: Seq<(Seq<char>, u64)>, path: Seq<char>)
    requires
        forall|i: int, j: int| 0 <= i < j < s.len() ==> s[i].0 != s[j].0,
    ensures
        run(s, path).len() <= 1,
    decreases s.len(),
{
    if s.len() > 0 {
        let rest = s.drop_last();
        lemma_run_of_distinct(rest, path);
        lemma_run_members(rest, path);
        if s.last().0 == path && run(rest, path).len() > 0 {
            assert(rest.contains(run(rest, path)[0]));
            let k = choose|k: int| 0 <= k < rest.len() && rest[k] == run(rest, path)[0];
            assert(s[k].0 == s[s.len() - 1].0);
        }
    }
}

/// `out` is the merge of the first `i` entries of `x` with the first `j` entries of `y`.
spec fn merging(
    x: Seq<(Seq<char>, u64)>,
    y: Seq<(Seq<char>, u64)>,
    out: Seq<(Seq<char>, u64)>,
    i: int,
    j: int,
) -> bool {
    &&& 0 <= i <= x.len()
    &&& 0 <= j <= y.len()
    &&& ascending(out)
    &&& forall|k: int, l: int|
        0 <= k < out.len() && i <= l < x.len() ==> path_le(
            #[trigger] out[k].0,
            #[trigger] x[l].0,
        )
    &&& forall|k: int, l: int|
        0 <= k < out.len() && j <= l < y.len() ==> path_le(
            #[trigger] out[k].0,
            #[trigger] y[l].0,
        )
    &&& forall|k: int, l: int|
        0 <= k < j && i <= l < x.len() ==> !path_le(#[trigger] x[l].0, #[trigger] y[k].0)
    &&& forall|p: Seq<char>| #[trigger] run(out, p) == run(x.take(i), p) + run(y.take(j), p)
}

proof fn lemma_ascending_push(s: Seq<(Seq<char>, u64)>, e: (Seq<char>, u64))
    requires
        ascending(s),
        forall|k: int| 0 <= k < s.len() ==> path_le(#[trigger] s[k].0, e.0),
    ensures
        ascending(s.push(e)),
{
    let r = s.push(e);
    assert forall|a: int, b: int| 0 <= a < b < r.len() implies path_le(
        #[trigger] r[a].0,
        #[trigger] r[b].0,
    ) by {
        assert(path_le(s[a].0, e.0));
        if b < s.len() {
            assert(path_le(s[a].0, s[b].0));
        }
    }
}

proof fn lemma_merge_first(
    x: Seq<(Seq<char>, u64)>,
    y: Seq<(Seq<char>, u64)>,
    out: Seq<(Seq<char>, u64)>,
    i: int,
    j: int,
)
    requires
        merging(x, y, out, i, j),
        ascending(x),
        ascending(y),
        i < x.len(),
        j < y.len() ==> path_le(x[i].0, y[j].0),
    ensures
        merging(x, y, out.push(x[i]), i + 1, j),
{
    let next = out.push(x[i]);
    lemma_ascending_push(out, x[i]);
    assert forall|k: int, l: int| 0 <= k < next.len() && i + 1 <= l < x.len() implies path_le(
        #[trigger] next[k].0,
        #[trigger] x[l].0,
    ) by {
        if k < out.len() {
            assert(path_le(out[k].0, x[l].0));
        } else {
            assert(path_le(x[i].0, x[l].0));
        }
    }
    assert forall|k: int, l: int| 0 <= k < next.len() && j <= l < y.len() implies path_le(
        #[trigger] next[k].0,
        #[trigger] y[l].0,
    ) by {
        if k < out.len() {
            assert(path_le(out[k].0, y[l].0));
        } else {
            law_path_order(x[i].0, y[j].0, y[l].0);
            if j < l {
                assert(path_le(y[j].0, y[l].0));
            }
        }
    }
    assert forall|p: Seq<char>| #[trigger] run(next, p) == run(x.take(i + 1), p) + run(
        y.take(j),
        p,
    ) by {
        assert(next.drop_last() =~= out);
        assert(x.take(i + 1).drop_last() =~= x.take(i));
        assert(run(out, p) == run(x.take(i), p) + run(y.take(j), p));
        if x[i].0 == p {
            // Everything taken from `y` so far comes strictly before the entry.
            lemma_run_members(y.take(j), p);
            if run(y.take(j), p).len() > 0 {
                let e = run(y.take(j), p)[0];
                assert(y.take(j).contains(e));
                let k = choose|k: int| 0 <= k < y.take(j).len() && y.take(j)[k] == e;
                assert(!path_le(x[i].0, y[k].0));
                law_path_order(p, p, p);
            }
        }
        assert(run(next, p) =~= run(x.take(i + 1), p) + run(y.take(j), p));
    }
}

proof fn lemma_merge_second(
    x: Seq<(Seq<char>, u64)>,
    y: Seq<(Seq<char>, u64)>,
    out: Seq<(Seq<char>, u64)>,
    i: int,
    j: int,
)
    requires
        merging(x, y, out, i, j),
        ascending(x),
        ascending(y),
        j < y.len(),
        i < x.len() ==> !path_le(x[i].0, y[j].0),
    ensures
        merging(x, y, out.push(y[j]), i, j + 1),
{
    let next = out.push(y[j]);
    lemma_ascending_push(out, y[j]);
    assert forall|l: int| i <= l < x.len() implies !path_le(#[trigger] x[l].0, y[j].0) by {
        law_path_order(x[i].0, x[l].0, y[j].0);
        if i < l {
            assert(path_le(x[i].0, x[l].0));
        }
    }
    assert forall|k: int, l: int| 0 <= k < next.len() && i <= l < x.len() implies path_le(
        #[trigger] next[k].0,
        #[trigger] x[l].0,
    ) by {
        if k < out.len() {
            assert(path_le(out[k].0, x[l].0));
        } else {
            law_path_order(x[l].0, y[j].0, y[j].0);
        }
    }
    assert forall|k: int, l: int| 0 <= k < next.len() && j + 1 <= l < y.len() implies path_le(
        #[trigger] next[k].0,
        #[trigger] y[l].0,
    ) by {
        if k < out.len() {
            assert(path_le(out[k].0, y[l].0));
        } else {
            assert(path_le(y[j].0, y[l].0));
        }
    }
    assert forall|p: Seq<char>| #[trigger] run(next, p) == run(x.take(i), p) + run(
        y.take(j + 1),
        p,
    ) by {
        assert(next.drop_last() =~= out);
        assert(y.take(j + 1).drop_last() =~= y.take(j));
        assert(run(out, p) == run(x.take(i), p) + run(y.take(j), p));
        assert(run(next, p) =~= run(x.take(i), p) + run(y.take(j + 1), p));
    }
}

/// Merges two ascending listings; of entries with the same path those of `a` come first.
fn merge<'a>(a: &Vec<&'a FileStamp>, b: &Vec<&'a FileStamp>) -> (r: Vec<&'a FileStamp>)
    requires
        ascending(a.deep_view()),
        ascending(b.deep_view()),
    ensures
        ascending(r.deep_view()),
        forall|p: Seq<char>| #[trigger]
            run(r.deep_view(), p) == run(a.deep_view(), p) + run(b.deep_view(), p),
{
    let ghost x = a.deep_view();
    let ghost y = b.deep_view();
    let mut out: Vec<&'a FileStamp> = Vec::new();
    let mut i: usize = 0;
    let mut j: usize = 0;
    proof {
        assert forall|p: Seq<char>| #[trigger] run(out.deep_view(), p) == run(x.take(0), p) + run(
            y.take(0),
            p,
        ) by {
            assert(run(out.deep_view(), p) =~= run(x.take(0), p) + run(y.take(0), p));
        }
    }
    while i < a.len() || j < b.len()
        invariant
            x == a.deep_view(),
            y == b.deep_view(),
            ascending(x),
            ascending(y),
            merging(x, y, out.deep_view(), i as int, j as int),
        decreases (a@.len() - i) + (b@.len() - j),
    {
        let first = i < a.len() && (j >= b.len() || path_at_most(
            a[i].path.as_str(),
            b[j].path.as_str(),
        ));
        let ghost before = out.deep_view();
        if first {
            proof {
                lemma_merge_first(x, y, before, i as int, j as int);
            }
            out.push(a[i]);
            assert(out.deep_view() =~= before.push(x[i as int]));
            i = i + 1;
        } else {
            proof {
                lemma_merge_second(x, y, before, i as int, j as int);
            }
            out.push(b[j]);
            assert(out.deep_view() =~= before.push(y[j as int]));
            j = j + 1;
        }
    }
    proof {
        assert(x.take(x.len() as int) =~= x);
        assert(y.take(y.len() as int) =~= y);
    }
    out
}

/// Merge sort of `entries[from..to]`.
fn sort_range<'a>(entries: &'a Vec<FileStamp>, from: usize, to: usize) -> (r: Vec<&'a FileStamp>)
    requires
        from <= to <= entries@.len(),
    ensures
        ascending(r.deep_view()),
        forall|p: Seq<char>| #[trigger]
            run(r.deep_view(), p) == run(
                entries.deep_view().subrange(from as int, to as int),
                p,
            ),
    decreases to - from,
{
    let ghost all = entries.deep_view();
    if to - from <= 1 {
        let mut out: Vec<&'a FileStamp> = Vec::new();
        if from < to {
            out.push(&entries[from]);
        }
        assert(out.deep_view() =~= all.subrange(from as int, to as int));
        return out;
    }
    let mid: usize = from + (to - from) / 2;
    let a = sort_range(entries, from, mid);
    let b = sort_range(entries, mid, to);
    let r = merge(&a, &b);
    proof {
        let s = all.subrange(from as int, mid as int);
        let t = all.subrange(mid as int, to as int);
        assert(all.subrange(from as int, to as int) =~= s + t);
        assert forall|p: Seq<char>| #[trigger] run(r.deep_view(), p) == run(s + t, p) by {
            lemma_run_concat(s, t, p);
            assert(run(a.deep_view(), p) == run(s, p));
            assert(run(b.deep_view(), p) == run(t, p));
        }
    }
    r
}

/// The entries in the order of their paths.
pub fn sort_by_path<'a>(entries: &'a Vec<FileStamp>) -> (r: Vec<&'a FileStamp>)
    ensures
        r.deep_view() == by_path(entries.deep_view()),
{
    let r = sort_range(entries, 0, entries.len());
    proof {
        let all = entries.deep_view();
        assert(all.subrange(0, all.len() as int) =~= all);
        law_by_path(all);
        assert forall|p: Seq<char>| #[trigger] run(r.deep_view(), p) == run(by_path(all), p) by {
            assert(run(by_path(all), p) == run(all, p));
        }
        lemma_ascending_unique(r.deep_view(), by_path(all));
    }
    r
}

} // verus!
