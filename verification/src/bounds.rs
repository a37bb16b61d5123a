//! The box around a set of boxes, and the axis to split the set on.

use vstd::prelude::*;
use crate::aabb::{div_toward_zero, AABB, NODE_LIMIT, WORLD_LIMIT};
use crate::sort::indices_in_range;
use crate::vec3::{Axis, IVec3};

verus! {

/// Every box of the list is well formed.
pub open spec fn all_wf(aabbs: Seq<AABB>) -> bool {
    forall|i: int| 0 <= i < aabbs.len() ==> (#[trigger] aabbs[i]).wf()
}

/// Tests `all_wf`.
pub fn aabbs_valid(aabbs: &Vec<AABB>) -> (r: bool)
    ensures
        r == all_wf(aabbs@),
{
    let mut i: usize = 0;
    while i < aabbs.len()
        invariant
            i <= aabbs.len(),
            forall|k: int| 0 <= k < i ==> (#[trigger] aabbs@[k]).wf(),
        decreases aabbs.len() - i,
    {
        if !aabbs[i].is_valid() {
            return false;
        }
        i += 1;
    }
    true
}

/// The lowest coordinate on `axis` that any of the boxes `indices` reaches.
pub open spec fn min_lo(aabbs: Seq<AABB>, indices: Seq<usize>, axis: Axis) -> int
    decreases indices.len(),
{
    if indices.len() == 0 {
        0
    } else if indices.len() == 1 {
        aabbs[indices[0] as int].lo(axis)
    } else {
        let rest = min_lo(aabbs, indices.drop_last(), axis);
        let last = aabbs[indices.last() as int].lo(axis);
        if last < rest {
            last
        } else {
            rest
        }
    }
}

/// The highest coordinate on `axis` that any of the boxes `indices` reaches.
pub open spec fn max_hi(aabbs: Seq<AABB>, indices: Seq<usize>, axis: Axis) -> int
    decreases indices.len(),
{
    if indices.len() == 0 {
        0
    } else if indices.len() == 1 {
        aabbs[indices[0] as int].hi(axis)
    } else {
        let rest = max_hi(aabbs, indices.drop_last(), axis);
        let last = aabbs[indices.last() as int].hi(axis);
        if last > rest {
            last
        } else {
            rest
        }
    }
}

/// The upper end of the combined span: the highest coordinate, one more where
/// the span would else have an even length.
pub open spec fn odd_hi(lo: int, hi: int) -> int {
    if (hi - lo) % 2 == 0 {
        hi + 1
    } else {
        hi
    }
}

/// Centre of the combined box on one axis: the middle of `lo ..= odd_hi`,
/// rounded toward zero.
pub open spec fn combined_center(lo: int, hi: int) -> int {
    div_toward_zero(lo + odd_hi(lo, hi), 2)
}

/// Half-width of the combined box on one axis: half the odd span, rounded up,
/// so that the box reaches both ends of the span wherever its centre falls.
pub open spec fn combined_halfwidth(lo: int, hi: int) -> int {
    (odd_hi(lo, hi) - lo + 1) / 2
}

/// The combined box of the boxes `indices`.
pub open spec fn spec_bounding_box(aabbs: Seq<AABB>, indices: Seq<usize>) -> AABB {
    let lx = min_lo(aabbs, indices, Axis::X);
    let ly = min_lo(aabbs, indices, Axis::Y);
    let lz = min_lo(aabbs, indices, Axis::Z);
    let hx = max_hi(aabbs, indices, Axis::X);
    let hy = max_hi(aabbs, indices, Axis::Y);
    let hz = max_hi(aabbs, indices, Axis::Z);
    AABB {
        center: IVec3 {
            x: combined_center(lx, hx) as i32,
            y: combined_center(ly, hy) as i32,
            z: combined_center(lz, hz) as i32,
        },
        halfwidths: IVec3 {
            x: combined_halfwidth(lx, hx) as i32,
            y: combined_halfwidth(ly, hy) as i32,
            z: combined_halfwidth(lz, hz) as i32,
        },
    }
}

/// The axis that a box is longest on. Of equally long axes Z goes before X,
/// and X before Y.
pub open spec fn spec_split_axis(b: AABB) -> Axis {
    if b.halfwidths.z >= b.halfwidths.x && b.halfwidths.z >= b.halfwidths.y {
        Axis::Z
    } else if b.halfwidths.x >= b.halfwidths.y {
        Axis::X
    } else {
        Axis::Y
    }
}

/// The lowest and highest coordinates lie inside the world and the lowest is
/// not above the highest; each member lies between them.
pub proof fn lemma_extremes(aabbs: Seq<AABB>, indices: Seq<usize>, axis: Axis)
    requires
        indices.len() >= 1,
        indices_in_range(indices, aabbs.len()),
        all_wf(aabbs),
    ensures
        -WORLD_LIMIT <= min_lo(aabbs, indices, axis) <= max_hi(aabbs, indices, axis) <= WORLD_LIMIT,
        forall|k: int|
            0 <= k < indices.len() ==> min_lo(aabbs, indices, axis) <= (#[trigger] aabbs[indices[k] as int]).lo(
                axis,
            ) && aabbs[indices[k] as int].hi(axis) <= max_hi(aabbs, indices, axis),
    decreases indices.len(),
{
    let last = aabbs[indices.last() as int];
    assert(last.wf());
    assert(0 <= last.halfwidths.at(axis));
    if indices.len() > 1 {
        let rest = indices.drop_last();
        lemma_extremes(aabbs, rest, axis);
        assert forall|k: int| 0 <= k < indices.len() implies min_lo(aabbs, indices, axis) <= (
        #[trigger] aabbs[indices[k] as int]).lo(axis) && aabbs[indices[k] as int].hi(axis) <= max_hi(
            aabbs,
            indices,
            axis,
        ) by {
            if k < rest.len() {
                assert(rest[k] == indices[k]);
            }
        }
    }
}

/// On one axis the combined box is the span `lo ..= odd_hi` and one unit
/// more: below it where the ends add up to more than zero, else above it.
pub proof fn lemma_combined_span(lo: int, hi: int)
    requires
        lo <= hi,
    ensures
        ({
            let c = combined_center(lo, hi);
            let h = combined_halfwidth(lo, hi);
            let top = odd_hi(lo, hi);
            &&& h >= 1
            &&& lo + top > 0 ==> c - h == lo - 1 && c + h == top
            &&& lo + top < 0 ==> c - h == lo && c + h == top + 1
            &&& lo + top != 0
            &&& c - h <= lo && hi <= c + h
        }),
{
}

/// On `axis`, `b` has the centre and half-width of the combined span.
pub open spec fn is_combined_on(b: AABB, aabbs: Seq<AABB>, indices: Seq<usize>, axis: Axis) -> bool {
    &&& b.center.at(axis) == combined_center(
        min_lo(aabbs, indices, axis),
        max_hi(aabbs, indices, axis),
    )
    &&& b.halfwidths.at(axis) == combined_halfwidth(
        min_lo(aabbs, indices, axis),
        max_hi(aabbs, indices, axis),
    )
}

/// The combined box stays within `NODE_LIMIT`.
pub proof fn lemma_bounding_box_wf(aabbs: Seq<AABB>, indices: Seq<usize>)
    requires
        indices.len() >= 1,
        indices_in_range(indices, aabbs.len()),
        all_wf(aabbs),
    ensures
        spec_bounding_box(aabbs, indices).bounded(),
        forall|axis: Axis| #[trigger] is_combined_on(spec_bounding_box(aabbs, indices), aabbs, indices, axis),
{
    let b = spec_bounding_box(aabbs, indices);
    lemma_extremes(aabbs, indices, Axis::X);
    lemma_extremes(aabbs, indices, Axis::Y);
    lemma_extremes(aabbs, indices, Axis::Z);
    lemma_combined_span(min_lo(aabbs, indices, Axis::X), max_hi(aabbs, indices, Axis::X));
    lemma_combined_span(min_lo(aabbs, indices, Axis::Y), max_hi(aabbs, indices, Axis::Y));
    lemma_combined_span(min_lo(aabbs, indices, Axis::Z), max_hi(aabbs, indices, Axis::Z));
    assert forall|axis: Axis| #[trigger] is_combined_on(b, aabbs, indices, axis) by {
        match axis {
            Axis::X => {},
            Axis::Y => {},
            Axis::Z => {},
        }
    }
    assert forall|axis: Axis|
        0 <= #[trigger] b.halfwidths.at(axis) && -NODE_LIMIT <= b.lo(axis) && b.hi(axis)
            <= NODE_LIMIT by {
        assert(is_combined_on(b, aabbs, indices, axis));
    }
}

/// Containment: the combined box covers the whole extent of each member on
/// every axis.
pub proof fn lemma_bounding_box_contains(aabbs: Seq<AABB>, indices: Seq<usize>, k: int)
    requires
        indices_in_range(indices, aabbs.len()),
        all_wf(aabbs),
        0 <= k < indices.len(),
    ensures
        spec_bounding_box(aabbs, indices).contains(aabbs[indices[k] as int]),
{
    let b = spec_bounding_box(aabbs, indices);
    let m = aabbs[indices[k] as int];
    lemma_bounding_box_wf(aabbs, indices);
    assert forall|axis: Axis| b.lo(axis) <= #[trigger] m.lo(axis) && m.hi(axis) <= b.hi(axis) by {
        lemma_extremes(aabbs, indices, axis);
        lemma_combined_span(min_lo(aabbs, indices, axis), max_hi(aabbs, indices, axis));
        assert(is_combined_on(b, aabbs, indices, axis));
    }
}

/// The combined box covers every member.
pub open spec fn covers_members(b: AABB, aabbs: Seq<AABB>, indices: Seq<usize>) -> bool {
    forall|k: int| 0 <= k < indices.len() ==> b.contains(#[trigger] aabbs[indices[k] as int])
}

fn combine_axis(lo: i64, hi: i64) -> (r: (i32, i32))
    requires
        -WORLD_LIMIT <= lo <= hi <= WORLD_LIMIT,
    ensures
        r.0 == combined_center(lo as int, hi as int),
        r.1 == combined_halfwidth(lo as int, hi as int),
{
    let top: i64 = if (hi - lo) % 2 == 0 {
        hi + 1
    } else {
        hi
    };
    let center: i64 = (lo + top) / 2;
    let half: i64 = (top - lo + 1) / 2;
    (center as i32, half as i32)
}

/// The combined box of the boxes `indices`: on each axis from the lowest to
/// the highest coordinate that any of them reaches, the upper end raised by
/// one where that span has an even length; the centre is the middle of that
/// span rounded toward zero and the half-width half of it rounded up. It
/// covers every one of the boxes.
pub fn bounding_box(indices: &Vec<usize>, aabbs: &Vec<AABB>) -> (b: AABB)
    requires
        indices.len() >= 1,
        indices_in_range(indices@, aabbs@.len()),
        all_wf(aabbs@),
    ensures
        b == spec_bounding_box(aabbs@, indices@),
        b.bounded(),
        covers_members(b, aabbs@, indices@),
{
    let first = aabbs[indices[0]];
    assert(first.wf());
    assert(0 <= first.halfwidths.at(Axis::X) && 0 <= first.halfwidths.at(Axis::Y) && 0
        <= first.halfwidths.at(Axis::Z));
    let mut lx: i64 = first.center.x as i64 - first.halfwidths.x as i64;
    let mut ly: i64 = first.center.y as i64 - first.halfwidths.y as i64;
    let mut lz: i64 = first.center.z as i64 - first.halfwidths.z as i64;
    let mut hx: i64 = first.center.x as i64 + first.halfwidths.x as i64;
    let mut hy: i64 = first.center.y as i64 + first.halfwidths.y as i64;
    let mut hz: i64 = first.center.z as i64 + first.halfwidths.z as i64;
    let mut k: usize = 1;
    assert(indices@.take(1).len() == 1 && indices@.take(1)[0] == indices@[0]);
    while k < indices.len()
        invariant
            1 <= k <= indices.len(),
            indices_in_range(indices@, aabbs@.len()),
            lx == min_lo(aabbs@, indices@.take(k as int), Axis::X),
            ly == min_lo(aabbs@, indices@.take(k as int), Axis::Y),
            lz == min_lo(aabbs@, indices@.take(k as int), Axis::Z),
            hx == max_hi(aabbs@, indices@.take(k as int), Axis::X),
            hy == max_hi(aabbs@, indices@.take(k as int), Axis::Y),
            hz == max_hi(aabbs@, indices@.take(k as int), Axis::Z),
        decreases indices.len() - k,
    {
        let b = &aabbs[indices[k]];
        proof {
            let next = indices@.take(k as int + 1);
            assert(next.drop_last() =~= indices@.take(k as int));
            assert(next.last() == indices@[k as int]);
        }
        let blx: i64 = b.center.x as i64 - b.halfwidths.x as i64;
        let bly: i64 = b.center.y as i64 - b.halfwidths.y as i64;
        let blz: i64 = b.center.z as i64 - b.halfwidths.z as i64;
        let bhx: i64 = b.center.x as i64 + b.halfwidths.x as i64;
        let bhy: i64 = b.center.y as i64 + b.halfwidths.y as i64;
        let bhz: i64 = b.center.z as i64 + b.halfwidths.z as i64;
        if blx < lx {
            lx = blx;
        }
        if bly < ly {
            ly = bly;
        }
        if blz < lz {
            lz = blz;
        }
        if bhx > hx {
            hx = bhx;
        }
        if bhy > hy {
            hy = bhy;
        }
        if bhz > hz {
            hz = bhz;
        }
        k += 1;
    }
    proof {
        assert(indices@.take(k as int) =~= indices@);
        lemma_extremes(aabbs@, indices@, Axis::X);
        lemma_extremes(aabbs@, indices@, Axis::Y);
        lemma_extremes(aabbs@, indices@, Axis::Z);
        lemma_bounding_box_wf(aabbs@, indices@);
        assert forall|j: int| 0 <= j < indices@.len() implies spec_bounding_box(
            aabbs@,
            indices@,
        ).contains(#[trigger] aabbs@[indices@[j] as int]) by {
            lemma_bounding_box_contains(aabbs@, indices@, j);
        }
    }
    let (cx, wx) = combine_axis(lx, hx);
    let (cy, wy) = combine_axis(ly, hy);
    let (cz, wz) = combine_axis(lz, hz);
    AABB { center: IVec3 { x: cx, y: cy, z: cz }, halfwidths: IVec3 { x: wx, y: wy, z: wz } }
}

/// The axis to split a set on: the one that its combined box is longest on.
pub fn split_axis(b: &AABB) -> (axis: Axis)
    ensures
        axis == spec_split_axis(*b),
{
    if b.halfwidths.z >= b.halfwidths.x && b.halfwidths.z >= b.halfwidths.y {
        Axis::Z
    } else if b.halfwidths.x >= b.halfwidths.y {
        Axis::X
    } else {
        Axis::Y
    }
}

} // verus!
