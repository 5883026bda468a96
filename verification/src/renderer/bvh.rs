//! The order in which a bounding-volume hierarchy lays out objects before it
//! splits them in half: sorted by their key along the split axis, objects
//! with equal keys kept in the order they were in.
use vstd::prelude::*;
use vstd::seq_lib::lemma_multiset_commutative;

verus! {

broadcast use vstd::seq_lib::group_to_multiset_ensures, vstd::multiset::group_multiset_axioms;

/// Object `a` goes before object `b`: its key is smaller, or the keys are
/// equal and `a` stood earlier.
pub open spec fn goes_before(keys: Seq<u64>, a: usize, b: usize) -> bool {
    keys[a as int] < keys[b as int] || (keys[a as int] == keys[b as int] && a < b)
}

/// `order` lists every object index below `keys.len()` exactly once, with
/// keys never decreasing, and objects with equal keys in increasing index
/// order (the order they stood in).
pub open spec fn is_sort_order(keys: Seq<u64>, order: Seq<usize>) -> bool {
    &&& order.len() == keys.len()
    &&& forall|i: int| 0 <= i < order.len() ==> #[trigger] order[i] < keys.len()
    &&& forall|k: usize| k < keys.len() ==> #[trigger] order.contains(k)
    &&& forall|i: int, j: int|
        0 <= i < j < order.len() ==> keys[#[trigger] order[i] as int] <= keys[#[trigger] order[j] as int]
            && (keys[order[i] as int] == keys[order[j] as int] ==> order[i] < order[j])
}

spec fn before_or_same(keys: Seq<u64>, a: usize, b: usize) -> bool {
    goes_before(keys, a, b) || a == b
}

spec fn in_order(keys: Seq<u64>, s: Seq<usize>) -> bool {
    forall|i: int, j: int|
        0 <= i < j < s.len() ==> before_or_same(keys, #[trigger] s[i], #[trigger] s[j])
}

spec fn all_below(s: Seq<usize>, n: int) -> bool {
    forall|i: int| 0 <= i < s.len() ==> #[trigger] s[i] < n
}

spec fn index_range(lo: int, hi: int) -> Seq<usize> {
    Seq::new((hi - lo) as nat, |i: int| (lo + i) as usize)
}

/// Merges two ordered runs into one.
fn merge(keys: &Vec<u64>, a: Vec<usize>, b: Vec<usize>) -> (out: Vec<usize>)
    requires
        in_order(keys@, a@),
        in_order(keys@, b@),
        all_below(a@, keys.len() as int),
        all_below(b@, keys.len() as int),
    ensures
        in_order(keys@, out@),
        all_below(out@, keys.len() as int),
        out@.to_multiset() == a@.to_multiset().add(b@.to_multiset()),
{
    let mut out: Vec<usize> = Vec::new();
    let mut i: usize = 0;
    let mut j: usize = 0;
    while i < a.len() || j < b.len()
        invariant
            i <= a.len(),
            j <= b.len(),
            in_order(keys@, a@),
            in_order(keys@, b@),
            all_below(a@, keys.len() as int),
            all_below(b@, keys.len() as int),
            in_order(keys@, out@),
            all_below(out@, keys.len() as int),
            out@.to_multiset() == a@.subrange(0, i as int).to_multiset().add(
                b@.subrange(0, j as int).to_multiset(),
            ),
            forall|k: int|
                0 <= k < out.len() ==> (i < a.len() ==> before_or_same(keys@, #[trigger] out[k], a[i as int]))
                    && (j < b.len() ==> before_or_same(keys@, out[k], b[j as int])),
        decreases a.len() + b.len() - i - j,
    {
        let take_a = if j >= b.len() {
            true
        } else if i >= a.len() {
            false
        } else {
            let (x, y) = (a[i], b[j]);
            keys[x] < keys[y] || (keys[x] == keys[y] && x <= y)
        };
        if take_a {
            let x = a[i];
            proof {
                assert(a@.subrange(0, i + 1) =~= a@.subrange(0, i as int).push(x));
                if i + 1 < a.len() {
                    assert(before_or_same(keys@, a[i as int], a[i + 1]));
                }
            }
            out.push(x);
            i = i + 1;
        } else {
            let y = b[j];
            proof {
                assert(b@.subrange(0, j + 1) =~= b@.subrange(0, j as int).push(y));
                if j + 1 < b.len() {
                    assert(before_or_same(keys@, b[j as int], b[j + 1]));
                }
            }
            out.push(y);
            j = j + 1;
        }
    }
    assert(a@.subrange(0, a.len() as int) =~= a@);
    assert(b@.subrange(0, b.len() as int) =~= b@);
    out
}

/// Orders the object indices `lo..hi`.
fn sort_range(keys: &Vec<u64>, lo: usize, hi: usize) -> (out: Vec<usize>)
    requires
        lo <= hi <= keys.len(),
    ensures
        in_order(keys@, out@),
        all_below(out@, keys.len() as int),
        out@.to_multiset() == index_range(lo as int, hi as int).to_multiset(),
    decreases hi - lo,
{
    if hi - lo == 0 {
        let out: Vec<usize> = Vec::new();
        assert(index_range(lo as int, hi as int) =~= Seq::<usize>::empty());
        assert(out@ =~= Seq::<usize>::empty());
        out
    } else if hi - lo == 1 {
        let mut out: Vec<usize> = Vec::new();
        out.push(lo);
        assert(index_range(lo as int, hi as int) =~= Seq::<usize>::empty().push(lo));
        assert(out@ =~= Seq::<usize>::empty().push(lo));
        out
    } else {
        let mid = lo + (hi - lo) / 2;
        let left = sort_range(keys, lo, mid);
        let right = sort_range(keys, mid, hi);
        let out = merge(keys, left, right);
        proof {
            assert(index_range(lo as int, hi as int) =~= index_range(lo as int, mid as int)
                + index_range(mid as int, hi as int));
            lemma_multiset_commutative(
                index_range(lo as int, mid as int),
                index_range(mid as int, hi as int),
            );
        }
        out
    }
}

/// The order in which the objects with the given keys are laid out along
/// the split axis: by key, and objects with equal keys in the order they
/// stood in (a stable sort).
pub fn sort_order(keys: &Vec<u64>) -> (order: Vec<usize>)
    ensures
        is_sort_order(keys@, order@),
        order.len() == keys.len(),
        forall|i: int, j: int|
            0 <= i < j < order.len() ==> keys[#[trigger] order[i] as int] <= keys[#[trigger] order[j] as int]
                && (keys[order[i] as int] == keys[order[j] as int] ==> order[i] < order[j]),
{
    let order = sort_range(keys, 0, keys.len());
    proof {
        let r = index_range(0, keys.len() as int);
        assert(r.no_duplicates());
        r.lemma_multiset_has_no_duplicates();
        order@.lemma_multiset_has_no_duplicates_conv();
        assert forall|k: usize| k < keys.len() implies #[trigger] order@.contains(k) by {
            assert(r[k as int] == k);
            assert(r.contains(k));
            assert(r.to_multiset().count(k) > 0);
            assert(order@.to_multiset().count(k) > 0);
        }
        assert(order@.to_multiset().len() == r.to_multiset().len());
        assert forall|i: int, j: int| 0 <= i < j < order.len() implies keys@[
            #[trigger] order@[i] as int] <= keys@[#[trigger] order@[j] as int] && (keys@[
            order@[i] as int] == keys@[order@[j] as int] ==> order@[i] < order@[j]) by {
            assert(before_or_same(keys@, order@[i], order@[j]));
        }
    }
    order
}

/// What building a hierarchy over some objects does, by how many there are.
#[derive(Debug, Clone, Copy, PartialEq, Eq, Structural)]
pub enum BuildStep {
    /// One object: it is the hierarchy itself.
    Single,
    /// Two objects: a node with the first on the left and the second on the
    /// right, in the order they stand.
    Pair,
    /// Three or more: sort along the split axis and split in half.
    Split,
}

/// The step a build takes over `n` objects. An empty set of objects has no
/// hierarchy, so `n` is at least one.
pub fn build_step(n: usize) -> (step: BuildStep)
    requires
        n >= 1,
    ensures
        n == 1 ==> step == BuildStep::Single,
        n == 2 ==> step == BuildStep::Pair,
        n >= 3 ==> step == BuildStep::Split,
{
    if n == 1 {
        BuildStep::Single
    } else if n == 2 {
        BuildStep::Pair
    } else {
        BuildStep::Split
    }
}

/// The two halves into which a build splits objects with the given keys:
/// the sort order, cut at the middle, the first half holding `n / 2`
/// objects.
pub fn split_halves(keys: &Vec<u64>) -> (halves: (Vec<usize>, Vec<usize>))
    ensures
        halves.0.len() == keys.len() / 2,
        is_sort_order(keys@, halves.0@ + halves.1@),
        forall|i: int, j: int|
            0 <= i < halves.0.len() && 0 <= j < halves.1.len() ==> keys[#[trigger] halves.0[i] as int]
                <= keys[#[trigger] halves.1[j] as int] && (keys[halves.0[i] as int]
                == keys[halves.1[j] as int] ==> halves.0[i] < halves.1[j]),
{
    let order = sort_order(keys);
    let mid = order.len() / 2;
    let mut left: Vec<usize> = Vec::new();
    let mut right: Vec<usize> = Vec::new();
    let mut i: usize = 0;
    while i < order.len()
        invariant
            i <= order.len(),
            mid == order.len() / 2,
            left@ == order@.subrange(0, if i < mid { i as int } else { mid as int }),
            right@ == order@.subrange(mid as int, if i < mid { mid as int } else { i as int }),
        decreases order.len() - i,
    {
        if i < mid {
            left.push(order[i]);
        } else {
            right.push(order[i]);
        }
        i = i + 1;
    }
    assert(left@ + right@ =~= order@);
    (left, right)
}

/// Splitting a sort order at any point, as the hierarchy does at its middle,
/// gives two halves that share no object, and no object of the first half has
/// a larger key than any object of the second.
pub proof fn lemma_split_halves_ordered(keys: Seq<u64>, order: Seq<usize>, mid: int)
    requires
        is_sort_order(keys, order),
        0 <= mid <= order.len(),
    ensures
        forall|i: int, j: int|
            0 <= i < mid <= j < order.len() ==> #[trigger] order[i] != #[trigger] order[j]
                && keys[order[i] as int] <= keys[order[j] as int],
{
    assert forall|i: int, j: int| 0 <= i < mid <= j < order.len() implies #[trigger] order[i]
        != #[trigger] order[j] && keys[order[i] as int] <= keys[order[j] as int] by {
        assert(goes_before(keys, order[i], order[j]));
    }
}

/// The sort is stable: of two objects with equal keys, the one that stood
/// first (the smaller index) comes first in the sort order, and an object
/// with a smaller key comes before one with a larger key.
pub proof fn lemma_sort_order_stable(keys: Seq<u64>, order: Seq<usize>, a: usize, b: usize)
    requires
        is_sort_order(keys, order),
        a < keys.len(),
        b < keys.len(),
        keys[a as int] < keys[b as int] || (keys[a as int] == keys[b as int] && a < b),
    ensures
        exists|p: int, q: int|
            0 <= p < q < order.len() && #[trigger] order[p] == a && #[trigger] order[q] == b,
{
    assert(order.contains(a));
    assert(order.contains(b));
    let p = choose|p: int| 0 <= p < order.len() && order[p] == a;
    let q = choose|q: int| 0 <= q < order.len() && order[q] == b;
    if q < p {
        assert(keys[order[q] as int] <= keys[order[p] as int]);
    }
    assert(p != q);
    assert(0 <= p < q < order.len() && order[p] == a && order[q] == b);
}

/// For given keys there is only one sort order: the layout of the objects
/// along an axis is determined by their keys and their current order.
pub proof fn lemma_sort_order_unique(keys: Seq<u64>, a: Seq<usize>, b: Seq<usize>)
    requires
        is_sort_order(keys, a),
        is_sort_order(keys, b),
    ensures
        a == b,
{
    if a.len() > 0 {
        lemma_sort_orders_agree_up_to(keys, a, b, a.len() - 1);
    }
    assert(a =~= b);
}

/// Two sort orders for the same keys agree on their first `i + 1` places.
proof fn lemma_sort_orders_agree_up_to(keys: Seq<u64>, a: Seq<usize>, b: Seq<usize>, i: int)
    requires
        is_sort_order(keys, a),
        is_sort_order(keys, b),
        0 <= i < a.len(),
    ensures
        forall|j: int| 0 <= j <= i ==> #[trigger] a[j] == b[j],
    decreases i,
{
    if i > 0 {
        lemma_sort_orders_agree_up_to(keys, a, b, i - 1);
    }
    if a[i] != b[i] {
        if goes_before(keys, a[i], b[i]) {
            // a[i] stands somewhere in b; not before i, where b agrees with a,
            // and not after i, since it goes before b[i].
            assert(b.contains(a[i]));
            let q = choose|q: int| 0 <= q < b.len() && b[q] == a[i];
            if q < i {
                assert(a[q] == b[q]);
                assert(goes_before(keys, a[q], a[i]));
            } else {
                assert(goes_before(keys, b[i], b[q]));
            }
        } else {
            assert(a.contains(b[i]));
            let p = choose|p: int| 0 <= p < a.len() && a[p] == b[i];
            if p < i {
                assert(a[p] == b[p]);
                assert(goes_before(keys, b[p], b[i]));
            } else {
                assert(goes_before(keys, a[i], a[p]));
            }
        }
    }
}

} // verus!
