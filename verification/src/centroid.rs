//! The centre of mass of a set of boxes, each weighed by its volume.

use vstd::prelude::*;
use crate::aabb::{div_toward_zero, AABB, WORLD_LIMIT};
use crate::bounds::all_wf;
use crate::error::GeometryError;
use crate::vec3::{Axis, IVec3};

verus! {

/// The volumes of the first `count` boxes added up.
pub open spec fn volume_sum(aabbs: Seq<AABB>, count: nat) -> int
    decreases count,
{
    if count == 0 {
        0
    } else {
        volume_sum(aabbs, (count - 1) as nat) + aabbs[count - 1].spec_volume()
    }
}

/// The centres of the first `count` boxes on `axis`, each times the volume of
/// its box, added up.
pub open spec fn weighted_sum(aabbs: Seq<AABB>, axis: Axis, count: nat) -> int
    decreases count,
{
    if count == 0 {
        0
    } else {
        weighted_sum(aabbs, axis, (count - 1) as nat) + aabbs[count - 1].center.at(axis) * aabbs[count
            - 1].spec_volume()
    }
}

/// The number fits in 128 bits.
pub open spec fn fits_i128(v: int) -> bool {
    i128::MIN <= v <= i128::MAX
}

/// Adding up the first `count` boxes never leaves 128 bits, neither the
/// volumes nor the weighted centres on any axis.
pub open spec fn sums_fit(aabbs: Seq<AABB>, count: nat) -> bool
    decreases count,
{
    if count == 0 {
        true
    } else {
        &&& sums_fit(aabbs, (count - 1) as nat)
        &&& fits_i128(volume_sum(aabbs, count))
        &&& fits_i128(weighted_sum(aabbs, Axis::X, count))
        &&& fits_i128(weighted_sum(aabbs, Axis::Y, count))
        &&& fits_i128(weighted_sum(aabbs, Axis::Z, count))
    }
}

/// The sums that a centre of mass is the quotient of.
#[derive(Debug, Clone, Copy, PartialEq, Eq, Structural)]
pub struct Centroid {
    /// The centres times the volumes, added up, on X.
    pub sum_x: i128,
    /// The same on Y.
    pub sum_y: i128,
    /// The same on Z.
    pub sum_z: i128,
    /// The volumes added up.
    pub volume: i128,
}

impl Centroid {
    /// There is volume, and no weighted sum is larger than the volume times
    /// the furthest that a centre can lie from the origin.
    pub open spec fn wf(self) -> bool {
        &&& self.volume > 0
        &&& -WORLD_LIMIT * self.volume <= self.sum_x <= WORLD_LIMIT * self.volume
        &&& -WORLD_LIMIT * self.volume <= self.sum_y <= WORLD_LIMIT * self.volume
        &&& -WORLD_LIMIT * self.volume <= self.sum_z <= WORLD_LIMIT * self.volume
    }

    /// Tests `wf`.
    pub fn is_valid(&self) -> (r: bool)
        ensures
            r == self.wf(),
    {
        if self.volume <= 0 {
            return false;
        }
        match (WORLD_LIMIT as i128).checked_mul(self.volume) {
            Some(reach) => -reach <= self.sum_x && self.sum_x <= reach && -reach <= self.sum_y
                && self.sum_y <= reach && -reach <= self.sum_z && self.sum_z <= reach,
            None => {
                assert(WORLD_LIMIT * self.volume > i128::MAX) by (nonlinear_arith)
                    requires
                        self.volume > 0,
                        WORLD_LIMIT > 0,
                        WORLD_LIMIT * self.volume < i128::MIN || WORLD_LIMIT * self.volume
                            > i128::MAX,
                ;
                true
            },
        }
    }

    /// The centre of mass with each coordinate rounded toward zero.
    pub open spec fn spec_rounded(self) -> IVec3 {
        IVec3 {
            x: div_toward_zero(self.sum_x as int, self.volume as int) as i32,
            y: div_toward_zero(self.sum_y as int, self.volume as int) as i32,
            z: div_toward_zero(self.sum_z as int, self.volume as int) as i32,
        }
    }

    /// The centre of mass with each coordinate rounded toward zero.
    pub fn rounded(&self) -> (c: IVec3)
        requires
            self.wf(),
        ensures
            c == self.spec_rounded(),
            -WORLD_LIMIT <= c.x <= WORLD_LIMIT,
            -WORLD_LIMIT <= c.y <= WORLD_LIMIT,
            -WORLD_LIMIT <= c.z <= WORLD_LIMIT,
    {
        IVec3 {
            x: quotient(self.sum_x, self.volume),
            y: quotient(self.sum_y, self.volume),
            z: quotient(self.sum_z, self.volume),
        }
    }
}

fn quotient(sum: i128, volume: i128) -> (q: i32)
    requires
        volume > 0,
        -WORLD_LIMIT * volume <= sum <= WORLD_LIMIT * volume,
    ensures
        q == div_toward_zero(sum as int, volume as int),
        -WORLD_LIMIT <= q <= WORLD_LIMIT,
{
    proof {
        lemma_quotient_bound(sum as int, volume as int, WORLD_LIMIT as int);
    }
    (sum / volume) as i32
}

/// A quotient is no larger than the bound that the dividend keeps to in
/// multiples of the divisor.
pub proof fn lemma_quotient_bound(sum: int, volume: int, bound: int)
    by (nonlinear_arith)
    requires
        volume > 0,
        bound >= 0,
        -bound * volume <= sum <= bound * volume,
    ensures
        -bound <= div_toward_zero(sum, volume) <= bound,
        sum >= 0 ==> div_toward_zero(sum, volume) == sum / volume,
{
    if sum >= 0 {
        let q = sum / volume;
        assert(q * volume <= sum);
        assert(q <= bound) by {
            if q > bound {
                assert(q * volume >= (bound + 1) * volume);
            }
        }
    } else {
        let q = (-sum) / volume;
        assert(q * volume <= -sum);
        assert(q <= bound) by {
            if q > bound {
                assert(q * volume >= (bound + 1) * volume);
            }
        }
    }
}

/// The volume of a well-formed box is not negative and has a bound, and so
/// has its centre times its volume.
pub proof fn lemma_term_bounds(b: AABB)
    requires
        b.wf(),
    ensures
        0 <= b.spec_volume() <= 8 * (WORLD_LIMIT * WORLD_LIMIT * WORLD_LIMIT),
        forall|axis: Axis|
            -WORLD_LIMIT * b.spec_volume() <= #[trigger] b.center.at(axis) * b.spec_volume()
                <= WORLD_LIMIT * b.spec_volume(),
{
    let hx = b.halfwidths.x as int;
    let hy = b.halfwidths.y as int;
    let hz = b.halfwidths.z as int;
    let l = WORLD_LIMIT as int;
    assert(0 <= b.halfwidths.at(Axis::X) && 0 <= b.halfwidths.at(Axis::Y) && 0 <= b.halfwidths.at(
        Axis::Z,
    ));
    assert(b.lo(Axis::X) >= -l && b.hi(Axis::X) <= l);
    assert(b.lo(Axis::Y) >= -l && b.hi(Axis::Y) <= l);
    assert(b.lo(Axis::Z) >= -l && b.hi(Axis::Z) <= l);
    let v = b.spec_volume();
    assert(0 <= (2 * hx) * (2 * hy) <= 4 * (l * l)) by (nonlinear_arith)
        requires
            0 <= hx <= l,
            0 <= hy <= l,
    ;
    assert(0 <= v <= 8 * (l * l * l)) by (nonlinear_arith)
        requires
            v == ((2 * hx) * (2 * hy)) * (2 * hz),
            0 <= (2 * hx) * (2 * hy) <= 4 * (l * l),
            0 <= hz <= l,
            l >= 0,
    ;
    assert forall|axis: Axis| -l * v <= #[trigger] b.center.at(axis) * v <= l * v by {
        let c = b.center.at(axis);
        assert(-l <= c <= l) by {
            assert(0 <= b.halfwidths.at(axis));
            assert(b.lo(axis) >= -l && b.hi(axis) <= l);
        }
        assert(-l * v <= c * v <= l * v) by (nonlinear_arith)
            requires
                -l <= c <= l,
                v >= 0,
        ;
    }
}

/// The sums of well-formed boxes: no volume sum is negative, and no weighted
/// sum is larger than the volume sum times the furthest that a centre can lie
/// from the origin.
pub proof fn lemma_sum_bounds(aabbs: Seq<AABB>, count: nat)
    requires
        count <= aabbs.len(),
        all_wf(aabbs),
    ensures
        0 <= volume_sum(aabbs, count),
        forall|axis: Axis|
            -WORLD_LIMIT * volume_sum(aabbs, count) <= #[trigger] weighted_sum(aabbs, axis, count)
                <= WORLD_LIMIT * volume_sum(aabbs, count),
    decreases count,
{
    if count > 0 {
        lemma_sum_bounds(aabbs, (count - 1) as nat);
        let b = aabbs[count - 1];
        lemma_term_bounds(b);
        let l = WORLD_LIMIT as int;
        let v0 = volume_sum(aabbs, (count - 1) as nat);
        let v = b.spec_volume();
        assert forall|axis: Axis|
            -l * volume_sum(aabbs, count) <= #[trigger] weighted_sum(aabbs, axis, count) <= l
                * volume_sum(aabbs, count) by {
            let w0 = weighted_sum(aabbs, axis, (count - 1) as nat);
            let t = b.center.at(axis) * v;
            assert(-l * v0 <= w0 <= l * v0);
            assert(-l * v <= t <= l * v);
            assert(l * (v0 + v) == l * v0 + l * v) by (nonlinear_arith);
        }
    }
}

/// Sums that fit up to some box fit up to every box before it.
pub proof fn lemma_sums_fit_prefix(aabbs: Seq<AABB>, k: nat, count: nat)
    requires
        k <= count,
        sums_fit(aabbs, count),
    ensures
        sums_fit(aabbs, k),
    decreases count,
{
    if k < count {
        lemma_sums_fit_prefix(aabbs, k, (count - 1) as nat);
    }
}

/// The sums for the centre of mass of the boxes: each centre times the volume
/// of its box, and the volumes, added up in 128 bits.
///
/// A sum that leaves 128 bits on the way is reported as `NumericOverflow`,
/// and boxes without any volume as `ZeroVolume`.
pub fn center_of_mass(aabbs: &Vec<AABB>) -> (r: Result<Centroid, GeometryError>)
    requires
        all_wf(aabbs@),
    ensures
        match r {
            Ok(c) => {
                &&& sums_fit(aabbs@, aabbs@.len())
                &&& c.wf()
                &&& c.volume == volume_sum(aabbs@, aabbs@.len())
                &&& c.sum_x == weighted_sum(aabbs@, Axis::X, aabbs@.len())
                &&& c.sum_y == weighted_sum(aabbs@, Axis::Y, aabbs@.len())
                &&& c.sum_z == weighted_sum(aabbs@, Axis::Z, aabbs@.len())
            },
            Err(GeometryError::NumericOverflow) => !sums_fit(aabbs@, aabbs@.len()),
            Err(GeometryError::ZeroVolume) => sums_fit(aabbs@, aabbs@.len()) && volume_sum(
                aabbs@,
                aabbs@.len(),
            ) == 0,
        },
{
    let mut volume: i128 = 0;
    let mut sum_x: i128 = 0;
    let mut sum_y: i128 = 0;
    let mut sum_z: i128 = 0;
    let mut i: usize = 0;
    while i < aabbs.len()
        invariant
            i <= aabbs.len(),
            all_wf(aabbs@),
            sums_fit(aabbs@, i as nat),
            volume == volume_sum(aabbs@, i as nat),
            sum_x == weighted_sum(aabbs@, Axis::X, i as nat),
            sum_y == weighted_sum(aabbs@, Axis::Y, i as nat),
            sum_z == weighted_sum(aabbs@, Axis::Z, i as nat),
        decreases aabbs.len() - i,
    {
        let b = &aabbs[i];
        let v = b.volume();
        proof {
            lemma_term_bounds(*b);
            let l = WORLD_LIMIT as int;
            assert(b.center.at(Axis::X) * v == b.center.x * v);
            assert(b.center.at(Axis::Y) * v == b.center.y * v);
            assert(b.center.at(Axis::Z) * v == b.center.z * v);
            assert(l * v <= l * (8 * (l * l * l))) by (nonlinear_arith)
                requires
                    0 <= v <= 8 * (l * l * l),
                    l >= 0,
            ;
            assert(l * (8 * (l * l * l)) == 0x8000_0000_0000_0000_0000_0000_0000) by (nonlinear_arith)
                requires
                    l == 0x0800_0000,
            ;
        }
        let tx: i128 = (b.center.x as i128) * v;
        let ty: i128 = (b.center.y as i128) * v;
        let tz: i128 = (b.center.z as i128) * v;
        let next = (
            volume.checked_add(v),
            sum_x.checked_add(tx),
            sum_y.checked_add(ty),
            sum_z.checked_add(tz),
        );
        match next {
            (Some(nv), Some(nx), Some(ny), Some(nz)) => {
                volume = nv;
                sum_x = nx;
                sum_y = ny;
                sum_z = nz;
            },
            _ => {
                proof {
                    assert(!sums_fit(aabbs@, (i + 1) as nat));
                    if sums_fit(aabbs@, aabbs@.len()) {
                        lemma_sums_fit_prefix(aabbs@, (i + 1) as nat, aabbs@.len());
                    }
                }
                return Err(GeometryError::NumericOverflow);
            },
        }
        i += 1;
    }
    if volume == 0 {
        return Err(GeometryError::ZeroVolume);
    }
    proof {
        lemma_sum_bounds(aabbs@, aabbs@.len());
    }
    Ok(Centroid { sum_x, sum_y, sum_z, volume })
}

} // verus!
