//! How listings are ordered and written out, and how numbers are.
use vstd::prelude::*;
#[allow(unused_imports)]
use vstd::utf8::encode_utf8;

#[allow(unused_imports)]
use crate::codec::{le_u32, le_u64};
#[allow(unused_imports)]
use crate::listing::{by_path, bytes_le, insert_by_path, law_by_path, path_le};
#[allow(unused_imports)]
use crate::persist::{blake3_hex, content_hash, listing_bytes};
#[allow(unused_imports)]
use crate::text::{decimal, digit};

verus! {

/// Two byte strings agree up to `m`, and there the first one ends or has the lesser byte.
pub open spec fn precedes_at(a: Seq<u8>, b: Seq<u8>, m: int) -> bool {
    &&& 0 <= m <= a.len()
    &&& m <= b.len()
    &&& forall|i: int| 0 <= i < m ==> #[trigger] a[i] == b[i]
    &&& m == a.len() || (m < b.len() && a[m] < b[m])
}

/// The order of byte strings is that of a dictionary.
pub proof fn law_byte_order(a: Seq<u8>, b: Seq<u8>)
    ensures
        bytes_le(a, b) <==> exists|m: int| precedes_at(a, b, m),
    decreases a.len(),
{
    if a.len() == 0 {
        assert(precedes_at(a, b, 0));
    } else if b.len() > 0 {
        let x = a.drop_first();
        let y = b.drop_first();
        law_byte_order(x, y);
        if a[0] == b[0] {
            if bytes_le(x, y) {
                let m = choose|m: int| precedes_at(x, y, m);
                assert forall|i: int| 0 <= i < m + 1 implies #[trigger] a[i] == b[i] by {
                    if i > 0 {
                        assert(x[i - 1] == y[i - 1]);
                    }
                }
                assert(m < x.len() ==> a[m + 1] == x[m]);
                assert(m < y.len() ==> b[m + 1] == y[m]);
                assert(precedes_at(a, b, m + 1));
            }
            if exists|m: int| precedes_at(a, b, m) {
                let m = choose|m: int| precedes_at(a, b, m);
                assert(m > 0);
                assert forall|i: int| 0 <= i < m - 1 implies #[trigger] x[i] == y[i] by {
                    assert(a[i + 1] == b[i + 1]);
                }
                assert(m < a.len() ==> x[m - 1] == a[m]);
                assert(m < b.len() ==> y[m - 1] == b[m]);
                assert(precedes_at(x, y, m - 1));
            }
        } else {
            if a[0] < b[0] {
                assert(precedes_at(a, b, 0));
            }
            if exists|m: int| precedes_at(a, b, m) {
                let m = choose|m: int| precedes_at(a, b, m);
                if m > 0 {
                    assert(a[0] == b[0]);
                }
            }
        }
    } else {
        assert forall|m: int| !precedes_at(a, b, m) by {}
    }
}

proof fn lemma_insert_keeps(s: Seq<(Seq<char>, u64)>, e: (Seq<char>, u64))
    ensures
        insert_by_path(s, e).to_multiset() =~= s.to_multiset().insert(e),
        insert_by_path(s, e).len() == s.len() + 1,
    decreases s.len(),
{
    broadcast use vstd::seq_lib::group_to_multiset_ensures;

    if s.len() == 0 || path_le(s.last().0, e.0) {
        assert(insert_by_path(s, e) =~= s.push(e));
    } else {
        lemma_insert_keeps(s.drop_last(), e);
        assert(s =~= s.drop_last().push(s.last()));
        assert(insert_by_path(s, e) =~= insert_by_path(s.drop_last(), e).push(s.last()));
        assert(s.to_multiset() =~= s.drop_last().to_multiset().insert(s.last()));
    }
}

/// Ordering a listing keeps its entries, each as often as it stood there.
pub proof fn law_ordering_keeps_the_entries(s: Seq<(Seq<char>, u64)>)
    ensures
        by_path(s).to_multiset() == s.to_multiset(),
        by_path(s).len() == s.len(),
    decreases s.len(),
{
    broadcast use vstd::seq_lib::group_to_multiset_ensures;

    if s.len() > 0 {
        law_ordering_keeps_the_entries(s.drop_last());
        lemma_insert_keeps(by_path(s.drop_last()), s.last());
        assert(s =~= s.drop_last().push(s.last()));
        assert(by_path(s).to_multiset() =~= s.to_multiset());
    }
}

/// In an ordered listing the UTF-8 bytes of the paths ascend as in a dictionary.
pub proof fn law_ordered_paths_ascend(s: Seq<(Seq<char>, u64)>, i: int, j: int)
    requires
        0 <= i < j < by_path(s).len(),
    ensures
        exists|m: int|
            precedes_at(encode_utf8(by_path(s)[i].0), encode_utf8(by_path(s)[j].0), m),
{
    law_by_path(s);
    law_byte_order(encode_utf8(by_path(s)[i].0), encode_utf8(by_path(s)[j].0));
    assert(path_le(by_path(s)[i].0, by_path(s)[j].0));
}

/// What is hashed of two listings, one behind the other, is what is hashed of each; of one entry it
/// is the UTF-8 bytes of the path and the eight bytes of the time.
pub proof fn law_listing_bytes(
    a: Seq<(Seq<char>, u64)>,
    b: Seq<(Seq<char>, u64)>,
    e: (Seq<char>, u64),
)
    ensures
        listing_bytes(a + b) == listing_bytes(a) + listing_bytes(b),
        listing_bytes(seq![e]) == encode_utf8(e.0) + le_u64(e.1),
    decreases b.len(),
{
    let one = seq![e];
    assert(one.drop_last() =~= Seq::empty());
    assert(one.last() == e);
    assert(listing_bytes(one.drop_last()) =~= Seq::empty());
    assert(listing_bytes(one) =~= encode_utf8(e.0) + le_u64(e.1));
    if b.len() == 0 {
        assert(a + b =~= a);
        assert(listing_bytes(a) + listing_bytes(b) =~= listing_bytes(a));
    } else {
        law_listing_bytes(a, b.drop_last(), e);
        assert((a + b).drop_last() =~= a + b.drop_last());
        assert((a + b).last() == b.last());
        assert(listing_bytes(a + b) =~= listing_bytes(a) + listing_bytes(b));
    }
}

/// The content hash of a listing is the BLAKE3 hash of what is written out of it in order.
pub proof fn law_content_hash(listing: Seq<(Seq<char>, u64)>, ordered: Seq<(Seq<char>, u64)>)
    requires
        by_path(listing) == ordered,
    ensures
        content_hash(listing) == blake3_hex(listing_bytes(ordered)),
{
}

/// The number that four bytes stand for, the least significant first.
pub open spec fn number(s: Seq<u8>) -> int {
    s[0] + 256 * s[1] + 65536 * s[2] + 16777216 * s[3]
}

/// A 32-bit integer is written as the four bytes that stand for it.
#[verifier::rlimit(30)]
pub proof fn law_four_bytes(v: u32)
    ensures
        le_u32(v).len() == 4,
        number(le_u32(v)) == v,
{
}

/// A 64-bit integer is written as the eight bytes that stand for it.
pub proof fn law_eight_bytes(v: u64)
    ensures
        le_u64(v).len() == 8,
        number(le_u64(v)) + 4294967296 * number(le_u64(v).skip(4)) == v,
{
    let low = (v % 0x1_0000_0000) as u32;
    let high = (v / 0x1_0000_0000) as u32;
    law_four_bytes(low);
    law_four_bytes(high);
    assert(le_u64(v).skip(4) =~= le_u32(high));
    assert(number(le_u64(v)) == number(le_u32(low)));
}

/// The number that a text of digits stands for.
pub open spec fn value(text: Seq<char>) -> int
    decreases text.len(),
{
    if text.len() == 0 {
        0
    } else {
        10 * value(text.drop_last()) + (text.last() as u32 - 48)
    }
}

/// A number in decimal consists of digits that stand for it, without leading zeros.
pub proof fn law_decimal(n: nat)
    ensures
        value(decimal(n)) == n,
        decimal(n).len() > 0,
        forall|i: int| 0 <= i < decimal(n).len() ==> 48 <= #[trigger] decimal(n)[i] as u32 <= 57,
        n > 0 ==> decimal(n)[0] != '0',
        n == 0 ==> decimal(n) == seq!['0'],
    decreases n,
{
    if n < 10 {
        let one = seq![digit(n)];
        assert(one.drop_last() =~= Seq::empty());
        assert(value(one.drop_last()) == 0);
        assert(digit(n) as u32 == 48 + n);
        if n == 0 {
            assert(digit(n) == '0');
        }
    } else {
        law_decimal(n / 10);
        let d = digit(n % 10);
        assert(d as u32 == 48 + n % 10);
        assert(decimal(n).drop_last() =~= decimal(n / 10));
        assert(decimal(n)[0] == decimal(n / 10)[0]);
        assert forall|i: int| 0 <= i < decimal(n).len() implies 48 <= #[trigger] decimal(
            n,
        )[i] as u32 <= 57 by {
            if i < decimal(n / 10).len() {
                assert(decimal(n)[i] == decimal(n / 10)[i]);
            }
        }
    }
}

} // verus!
