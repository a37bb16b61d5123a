//! A stable merge sort of brick indices by the centre of their boxes.

use vstd::prelude::*;
use vstd::multiset::Multiset;
use vstd::seq_lib::lemma_multiset_commutative;
use crate::aabb::AABB;
use crate::vec3::Axis;

verus! {

/// What brick `i` is ordered by: the centre of its box on `axis`.
pub open spec fn key(aabbs: Seq<AABB>, axis: Axis, i: usize) -> int {
    aabbs[i as int].center.at(axis)
}

/// Every index names a box.
pub open spec fn indices_in_range(indices: Seq<usize>, n: nat) -> bool {
    forall|k: int| 0 <= k < indices.len() ==> #[trigger] indices[k] < n
}

/// Tests `indices_in_range`.
pub fn indices_valid(indices: &Vec<usize>, n: usize) -> (r: bool)
    ensures
        r == indices_in_range(indices@, n as nat),
{
    let mut k: usize = 0;
    while k < indices.len()
        invariant
            k <= indices.len(),
            forall|j: int| 0 <= j < k ==> #[trigger] indices@[j] < n,
        decreases indices.len() - k,
    {
        if indices[k] >= n {
            return false;
        }
        k += 1;
    }
    true
}

/// The keys never go down along the sequence.
pub open spec fn sorted_by_key(indices: Seq<usize>, aabbs: Seq<AABB>, axis: Axis) -> bool {
    forall|i: int, j: int|
        0 <= i <= j < indices.len() ==> key(aabbs, axis, #[trigger] indices[i]) <= key(
            aabbs,
            axis,
            #[trigger] indices[j],
        )
}

/// Two sorted runs merged into one; of two equal keys the one of `a` goes first.
pub open spec fn spec_merge(a: Seq<usize>, b: Seq<usize>, aabbs: Seq<AABB>, axis: Axis) -> Seq<
    usize,
>
    decreases a.len() + b.len(),
{
    if a.len() == 0 {
        b
    } else if b.len() == 0 {
        a
    } else if key(aabbs, axis, a[0]) <= key(aabbs, axis, b[0]) {
        seq![a[0]] + spec_merge(a.skip(1), b, aabbs, axis)
    } else {
        seq![b[0]] + spec_merge(a, b.skip(1), aabbs, axis)
    }
}

/// The indices in ascending order of key, equal keys in their given order:
/// both halves sorted, then merged.
pub open spec fn spec_sort(indices: Seq<usize>, aabbs: Seq<AABB>, axis: Axis) -> Seq<usize>
    decreases indices.len(),
{
    if indices.len() <= 1 {
        indices
    } else {
        let mid = indices.len() as int / 2;
        spec_merge(
            spec_sort(indices.subrange(0, mid), aabbs, axis),
            spec_sort(indices.subrange(mid, indices.len() as int), aabbs, axis),
            aabbs,
            axis,
        )
    }
}

/// Merging keeps every item, as often as it occurs, and keeps order.
pub proof fn lemma_merge(a: Seq<usize>, b: Seq<usize>, aabbs: Seq<AABB>, axis: Axis)
    ensures
        spec_merge(a, b, aabbs, axis).to_multiset() == a.to_multiset().add(b.to_multiset()),
        spec_merge(a, b, aabbs, axis).len() == a.len() + b.len(),
        sorted_by_key(a, aabbs, axis) && sorted_by_key(b, aabbs, axis) ==> sorted_by_key(
            spec_merge(a, b, aabbs, axis),
            aabbs,
            axis,
        ),
        a.len() + b.len() > 0 ==> (a.len() > 0 && spec_merge(a, b, aabbs, axis)[0] == a[0]) || (b.len()
            > 0 && spec_merge(a, b, aabbs, axis)[0] == b[0]),
    decreases a.len() + b.len(),
{
    let m = spec_merge(a, b, aabbs, axis);
    if a.len() == 0 {
        assert(a =~= Seq::empty());
        a.to_multiset_ensures();
        assert(a.to_multiset() =~= Multiset::empty());
        assert(a.to_multiset().add(b.to_multiset()) =~= b.to_multiset());
    } else if b.len() == 0 {
        assert(b =~= Seq::empty());
        b.to_multiset_ensures();
        assert(b.to_multiset() =~= Multiset::empty());
        assert(a.to_multiset().add(b.to_multiset()) =~= a.to_multiset());
    } else if key(aabbs, axis, a[0]) <= key(aabbs, axis, b[0]) {
        let rest = spec_merge(a.skip(1), b, aabbs, axis);
        lemma_merge(a.skip(1), b, aabbs, axis);
        assert(a =~= seq![a[0]] + a.skip(1));
        lemma_multiset_commutative(seq![a[0]], a.skip(1));
        lemma_multiset_commutative(seq![a[0]], rest);
        assert(m.to_multiset() =~= a.to_multiset().add(b.to_multiset()));
        if sorted_by_key(a, aabbs, axis) && sorted_by_key(b, aabbs, axis) {
            assert(sorted_by_key(a.skip(1), aabbs, axis)) by {
                assert forall|i: int, j: int| 0 <= i <= j < a.skip(1).len() implies key(
                    aabbs,
                    axis,
                    #[trigger] a.skip(1)[i],
                ) <= key(aabbs, axis, #[trigger] a.skip(1)[j]) by {
                    assert(a.skip(1)[i] == a[i + 1] && a.skip(1)[j] == a[j + 1]);
                }
            }
            assert(sorted_by_key(m, aabbs, axis)) by {
                assert forall|i: int, j: int| 0 <= i <= j < m.len() implies key(
                    aabbs,
                    axis,
                    #[trigger] m[i],
                ) <= key(aabbs, axis, #[trigger] m[j]) by {
                    if i > 0 {
                        assert(m[i] == rest[i - 1] && m[j] == rest[j - 1]);
                    } else if j > 0 {
                        assert(m[j] == rest[j - 1]);
                        assert(key(aabbs, axis, rest[0]) <= key(aabbs, axis, rest[j - 1]));
                        if a.len() > 1 && rest[0] == a.skip(1)[0] {
                            assert(a.skip(1)[0] == a[1]);
                            assert(key(aabbs, axis, a[0]) <= key(aabbs, axis, a[1]));
                        }
                    }
                }
            }
        }
    } else {
        let rest = spec_merge(a, b.skip(1), aabbs, axis);
        lemma_merge(a, b.skip(1), aabbs, axis);
        assert(b =~= seq![b[0]] + b.skip(1));
        lemma_multiset_commutative(seq![b[0]], b.skip(1));
        lemma_multiset_commutative(seq![b[0]], rest);
        assert(m.to_multiset() =~= a.to_multiset().add(b.to_multiset()));
        if sorted_by_key(a, aabbs, axis) && sorted_by_key(b, aabbs, axis) {
            assert(sorted_by_key(b.skip(1), aabbs, axis)) by {
                assert forall|i: int, j: int| 0 <= i <= j < b.skip(1).len() implies key(
                    aabbs,
                    axis,
                    #[trigger] b.skip(1)[i],
                ) <= key(aabbs, axis, #[trigger] b.skip(1)[j]) by {
                    assert(b.skip(1)[i] == b[i + 1] && b.skip(1)[j] == b[j + 1]);
                }
            }
            assert(sorted_by_key(m, aabbs, axis)) by {
                assert forall|i: int, j: int| 0 <= i <= j < m.len() implies key(
                    aabbs,
                    axis,
                    #[trigger] m[i],
                ) <= key(aabbs, axis, #[trigger] m[j]) by {
                    if i > 0 {
                        assert(m[i] == rest[i - 1] && m[j] == rest[j - 1]);
                    } else if j > 0 {
                        assert(m[j] == rest[j - 1]);
                        assert(key(aabbs, axis, rest[0]) <= key(aabbs, axis, rest[j - 1]));
                        if b.len() > 1 && rest[0] == b.skip(1)[0] {
                            assert(b.skip(1)[0] == b[1]);
                            assert(key(aabbs, axis, b[0]) <= key(aabbs, axis, b[1]));
                        }
                    }
                }
            }
        }
    }
}

/// The sorted sequence holds the same indices, each as often as before, and
/// its keys never go down.
pub proof fn lemma_sort(indices: Seq<usize>, aabbs: Seq<AABB>, axis: Axis)
    ensures
        spec_sort(indices, aabbs, axis).to_multiset() == indices.to_multiset(),
        spec_sort(indices, aabbs, axis).len() == indices.len(),
        sorted_by_key(spec_sort(indices, aabbs, axis), aabbs, axis),
    decreases indices.len(),
{
    if indices.len() > 1 {
        let mid = indices.len() as int / 2;
        let left = indices.subrange(0, mid);
        let right = indices.subrange(mid, indices.len() as int);
        lemma_sort(left, aabbs, axis);
        lemma_sort(right, aabbs, axis);
        lemma_merge(spec_sort(left, aabbs, axis), spec_sort(right, aabbs, axis), aabbs, axis);
        assert(indices =~= left + right);
        lemma_multiset_commutative(left, right);
    }
}

/// Sorting neither adds nor drops an index.
pub proof fn lemma_sort_contains(indices: Seq<usize>, aabbs: Seq<AABB>, axis: Axis, x: usize)
    ensures
        spec_sort(indices, aabbs, axis).contains(x) <==> indices.contains(x),
{
    let sorted = spec_sort(indices, aabbs, axis);
    lemma_sort(indices, aabbs, axis);
    sorted.to_multiset_ensures();
    indices.to_multiset_ensures();
    assert(sorted.contains(x) <==> sorted.to_multiset().count(x) > 0);
    assert(indices.contains(x) <==> indices.to_multiset().count(x) > 0);
}

fn merge(a: &Vec<usize>, b: &Vec<usize>, aabbs: &Vec<AABB>, axis: Axis) -> (out: Vec<usize>)
    requires
        indices_in_range(a@, aabbs@.len()),
        indices_in_range(b@, aabbs@.len()),
    ensures
        out@ == spec_merge(a@, b@, aabbs@, axis),
{
    let mut out: Vec<usize> = Vec::new();
    let mut i: usize = 0;
    let mut j: usize = 0;
    assert(a@.skip(0) =~= a@ && b@.skip(0) =~= b@);
    assert(out@ + spec_merge(a@, b@, aabbs@, axis) =~= spec_merge(a@, b@, aabbs@, axis));
    while i < a.len() || j < b.len()
        invariant
            i <= a.len(),
            j <= b.len(),
            indices_in_range(a@, aabbs@.len()),
            indices_in_range(b@, aabbs@.len()),
            out@ + spec_merge(a@.skip(i as int), b@.skip(j as int), aabbs@, axis) == spec_merge(
                a@,
                b@,
                aabbs@,
                axis,
            ),
        decreases a.len() - i + b.len() - j,
    {
        let ghost ra = a@.skip(i as int);
        let ghost rb = b@.skip(j as int);
        let take_a = if i == a.len() {
            false
        } else if j == b.len() {
            true
        } else {
            aabbs[a[i]].center.get(axis) <= aabbs[b[j]].center.get(axis)
        };
        if take_a {
            assert(ra[0] == a@[i as int]);
            assert(ra.skip(1) =~= a@.skip(i as int + 1));
            assert(spec_merge(ra, rb, aabbs@, axis) =~= seq![a@[i as int]] + spec_merge(
                ra.skip(1),
                rb,
                aabbs@,
                axis,
            )) by {
                if rb.len() == 0 {
                    assert(ra =~= seq![ra[0]] + ra.skip(1));
                    lemma_merge_empty_right(ra.skip(1), rb, aabbs@, axis);
                } else {
                    assert(rb[0] == b@[j as int]);
                }
            }
            out.push(a[i]);
            i += 1;
        } else {
            assert(rb[0] == b@[j as int]);
            assert(rb.skip(1) =~= b@.skip(j as int + 1));
            assert(spec_merge(ra, rb, aabbs@, axis) =~= seq![b@[j as int]] + spec_merge(
                ra,
                rb.skip(1),
                aabbs@,
                axis,
            )) by {
                if ra.len() == 0 {
                    assert(rb =~= seq![rb[0]] + rb.skip(1));
                } else {
                    assert(ra[0] == a@[i as int]);
                }
            }
            out.push(b[j]);
            j += 1;
        }
    }
    assert(a@.skip(i as int).len() == 0);
    assert(out@ =~= out@ + spec_merge(a@.skip(i as int), b@.skip(j as int), aabbs@, axis));
    out
}

proof fn lemma_merge_empty_right(a: Seq<usize>, b: Seq<usize>, aabbs: Seq<AABB>, axis: Axis)
    requires
        b.len() == 0,
    ensures
        spec_merge(a, b, aabbs, axis) =~= a,
{
}

fn sort_range(v: &Vec<usize>, lo: usize, hi: usize, aabbs: &Vec<AABB>, axis: Axis) -> (out: Vec<
    usize,
>)
    requires
        lo <= hi <= v.len(),
        indices_in_range(v@, aabbs@.len()),
    ensures
        out@ == spec_sort(v@.subrange(lo as int, hi as int), aabbs@, axis),
        indices_in_range(out@, aabbs@.len()),
    decreases hi - lo,
{
    let ghost part = v@.subrange(lo as int, hi as int);
    let out = if hi - lo <= 1 {
        let mut one: Vec<usize> = Vec::new();
        if hi - lo == 1 {
            one.push(v[lo]);
        }
        assert(one@ =~= part);
        one
    } else {
        let mid = lo + (hi - lo) / 2;
        let left = sort_range(v, lo, mid, aabbs, axis);
        let right = sort_range(v, mid, hi, aabbs, axis);
        assert(part.subrange(0, part.len() as int / 2) =~= v@.subrange(lo as int, mid as int));
        assert(part.subrange(part.len() as int / 2, part.len() as int) =~= v@.subrange(
            mid as int,
            hi as int,
        ));
        merge(&left, &right, aabbs, axis)
    };
    proof {
        assert forall|k: int| 0 <= k < out@.len() implies #[trigger] out@[k] < aabbs@.len() by {
            lemma_sort_contains(part, aabbs@, axis, out@[k]);
            assert(out@.contains(out@[k]));
            let w = choose|w: int| 0 <= w < part.len() && part[w] == out@[k];
            assert(part[w] == v@[lo + w]);
        }
    }
    out
}

/// Sorts brick indices by the centre of their boxes on `axis`, keeping the
/// given order among equal centres.
pub fn sort_by_center(indices: &Vec<usize>, aabbs: &Vec<AABB>, axis: Axis) -> (out: Vec<usize>)
    requires
        indices_in_range(indices@, aabbs@.len()),
    ensures
        out@ == spec_sort(indices@, aabbs@, axis),
        out@.to_multiset() == indices@.to_multiset(),
        out@.len() == indices@.len(),
        sorted_by_key(out@, aabbs@, axis),
        indices_in_range(out@, aabbs@.len()),
        forall|a: usize, b: usize|
            key(aabbs@, axis, a) == key(aabbs@, axis, b) && #[trigger] precedes(out@, a, b)
                ==> precedes(indices@, a, b),
{
    proof {
        assert forall|a: usize, b: usize|
            key(aabbs@, axis, a) == key(aabbs@, axis, b) && #[trigger] precedes(
                spec_sort(indices@, aabbs@, axis),
                a,
                b,
            ) implies precedes(indices@, a, b) by {
            lemma_sort_stable(indices@, aabbs@, axis, a, b);
        }
        lemma_sort(indices@, aabbs@, axis);
        assert(indices@.subrange(0, indices@.len() as int) =~= indices@);
    }
    sort_range(indices, 0, indices.len(), aabbs, axis)
}


/// `a` stands before `b` in the sequence.
pub open spec fn precedes(s: Seq<usize>, a: usize, b: usize) -> bool {
    exists|i: int, j: int| 0 <= i < j < s.len() && #[trigger] s[i] == a && #[trigger] s[j] == b
}

/// What is in a merged run was in one of the two runs.
pub proof fn lemma_merge_contains(a: Seq<usize>, b: Seq<usize>, aabbs: Seq<AABB>, axis: Axis, e: usize)
    ensures
        spec_merge(a, b, aabbs, axis).contains(e) <==> a.contains(e) || b.contains(e),
{
    let m = spec_merge(a, b, aabbs, axis);
    lemma_merge(a, b, aabbs, axis);
    m.to_multiset_ensures();
    a.to_multiset_ensures();
    b.to_multiset_ensures();
    assert(m.contains(e) <==> m.to_multiset().count(e) > 0);
    assert(a.contains(e) <==> a.to_multiset().count(e) > 0);
    assert(b.contains(e) <==> b.to_multiset().count(e) > 0);
}

/// Merging is stable: of two items with equal keys the one that stands first
/// in the merged run stood first in one of the two runs, or came from the
/// first run and the other from the second.
pub proof fn lemma_merge_stable(
    x: Seq<usize>,
    y: Seq<usize>,
    aabbs: Seq<AABB>,
    axis: Axis,
    a: usize,
    b: usize,
)
    requires
        sorted_by_key(x, aabbs, axis),
        sorted_by_key(y, aabbs, axis),
        key(aabbs, axis, a) == key(aabbs, axis, b),
        precedes(spec_merge(x, y, aabbs, axis), a, b),
    ensures
        precedes(x, a, b) || precedes(y, a, b) || (x.contains(a) && y.contains(b)),
    decreases x.len() + y.len(),
{
    let m = spec_merge(x, y, aabbs, axis);
    let (i, j) = choose|i: int, j: int| 0 <= i < j < m.len() && #[trigger] m[i] == a && #[trigger] m[j] == b;
    if x.len() == 0 || y.len() == 0 {
    } else if key(aabbs, axis, x[0]) <= key(aabbs, axis, y[0]) {
        let tail = x.skip(1);
        let rest = spec_merge(tail, y, aabbs, axis);
        assert(m[j] == rest[j - 1]);
        assert(sorted_by_key(tail, aabbs, axis)) by {
            assert forall|p: int, q: int| 0 <= p <= q < tail.len() implies key(
                aabbs,
                axis,
                #[trigger] tail[p],
            ) <= key(aabbs, axis, #[trigger] tail[q]) by {
                assert(tail[p] == x[p + 1] && tail[q] == x[q + 1]);
            }
        }
        if i > 0 {
            assert(m[i] == rest[i - 1]);
            assert(precedes(rest, a, b));
            lemma_merge_stable(tail, y, aabbs, axis, a, b);
            if precedes(tail, a, b) {
                let (p, q) = choose|p: int, q: int|
                    0 <= p < q < tail.len() && #[trigger] tail[p] == a && #[trigger] tail[q] == b;
                assert(x[p + 1] == a && x[q + 1] == b);
            } else if tail.contains(a) {
                let p = choose|p: int| 0 <= p < tail.len() && tail[p] == a;
                assert(x[p + 1] == a);
            }
        } else {
            assert(x[0] == a);
            assert(rest.contains(b));
            lemma_merge_contains(tail, y, aabbs, axis, b);
            if tail.contains(b) {
                let q = choose|q: int| 0 <= q < tail.len() && tail[q] == b;
                assert(x[q + 1] == b);
            }
        }
    } else {
        let tail = y.skip(1);
        let rest = spec_merge(x, tail, aabbs, axis);
        assert(m[j] == rest[j - 1]);
        assert(sorted_by_key(tail, aabbs, axis)) by {
            assert forall|p: int, q: int| 0 <= p <= q < tail.len() implies key(
                aabbs,
                axis,
                #[trigger] tail[p],
            ) <= key(aabbs, axis, #[trigger] tail[q]) by {
                assert(tail[p] == y[p + 1] && tail[q] == y[q + 1]);
            }
        }
        if i > 0 {
            assert(m[i] == rest[i - 1]);
            assert(precedes(rest, a, b));
            lemma_merge_stable(x, tail, aabbs, axis, a, b);
            if precedes(tail, a, b) {
                let (p, q) = choose|p: int, q: int|
                    0 <= p < q < tail.len() && #[trigger] tail[p] == a && #[trigger] tail[q] == b;
                assert(y[p + 1] == a && y[q + 1] == b);
            } else if tail.contains(b) {
                let q = choose|q: int| 0 <= q < tail.len() && tail[q] == b;
                assert(y[q + 1] == b);
            }
        } else {
            assert(y[0] == a);
            assert(rest.contains(b));
            lemma_merge_contains(x, tail, aabbs, axis, b);
            if tail.contains(b) {
                let q = choose|q: int| 0 <= q < tail.len() && tail[q] == b;
                assert(y[q + 1] == b);
            } else {
                let q = choose|q: int| 0 <= q < x.len() && x[q] == b;
                assert(key(aabbs, axis, x[0]) <= key(aabbs, axis, x[q]));
            }
        }
    }
}

/// Sorting is stable: of two indices with equal keys the one that stands
/// first after sorting stood first before.
pub proof fn lemma_sort_stable(indices: Seq<usize>, aabbs: Seq<AABB>, axis: Axis, a: usize, b: usize)
    requires
        key(aabbs, axis, a) == key(aabbs, axis, b),
        precedes(spec_sort(indices, aabbs, axis), a, b),
    ensures
        precedes(indices, a, b),
    decreases indices.len(),
{
    if indices.len() > 1 {
        let mid = indices.len() as int / 2;
        let left = indices.subrange(0, mid);
        let right = indices.subrange(mid, indices.len() as int);
        let sl = spec_sort(left, aabbs, axis);
        let sr = spec_sort(right, aabbs, axis);
        lemma_sort(left, aabbs, axis);
        lemma_sort(right, aabbs, axis);
        lemma_merge_stable(sl, sr, aabbs, axis, a, b);
        if precedes(sl, a, b) {
            lemma_sort_stable(left, aabbs, axis, a, b);
            let (p, q) = choose|p: int, q: int|
                0 <= p < q < left.len() && #[trigger] left[p] == a && #[trigger] left[q] == b;
            assert(indices[p] == a && indices[q] == b);
        } else if precedes(sr, a, b) {
            lemma_sort_stable(right, aabbs, axis, a, b);
            let (p, q) = choose|p: int, q: int|
                0 <= p < q < right.len() && #[trigger] right[p] == a && #[trigger] right[q] == b;
            assert(indices[mid + p] == a && indices[mid + q] == b);
        } else {
            lemma_sort_contains(left, aabbs, axis, a);
            lemma_sort_contains(right, aabbs, axis, b);
            let p = choose|p: int| 0 <= p < left.len() && left[p] == a;
            let q = choose|q: int| 0 <= q < right.len() && right[q] == b;
            assert(indices[p] == a && indices[mid + q] == b);
        }
    }
}

} // verus!
