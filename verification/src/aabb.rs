//! Axis-aligned bounding boxes, stored as centre and half-widths.

use vstd::prelude::*;
use crate::brick::{Brick, SaveData};
use crate::brickadia_specs::{axis_size, spec_axis_size};
use crate::error::GeometryError;
use crate::vec3::{Axis, IVec3};

verus! {

/// No brick's box reaches further than this from the origin on any axis.
pub const WORLD_LIMIT: i32 = 0x0800_0000;

/// No combined box reaches further than this: one unit beyond the bricks.
pub const NODE_LIMIT: i32 = 0x0800_0001;

/// Integer division that rounds toward zero.
pub open spec fn div_toward_zero(a: int, b: int) -> int
    recommends
        b > 0,
{
    if a >= 0 {
        a / b
    } else {
        -((-a) / b)
    }
}

/// An axis-aligned box that spans `center - halfwidths ..= center + halfwidths`.
#[derive(Debug, Clone, Copy, PartialEq, Eq, Structural)]
pub struct AABB {
    pub center: IVec3,
    pub halfwidths: IVec3,
}

impl AABB {
    /// The lowest coordinate that the box reaches on `axis`.
    pub open spec fn lo(self, axis: Axis) -> int {
        self.center.at(axis) - self.halfwidths.at(axis)
    }

    /// The highest coordinate that the box reaches on `axis`.
    pub open spec fn hi(self, axis: Axis) -> int {
        self.center.at(axis) + self.halfwidths.at(axis)
    }

    /// Half-widths are not negative and the box stays inside the world.
    pub open spec fn wf(self) -> bool {
        forall|axis: Axis|
            0 <= #[trigger] self.halfwidths.at(axis) && -WORLD_LIMIT <= self.lo(axis) && self.hi(
                axis,
            ) <= WORLD_LIMIT
    }

    /// Half-widths are not negative and the box stays within `NODE_LIMIT`,
    /// as every combined box of well-formed boxes does.
    pub open spec fn bounded(self) -> bool {
        forall|axis: Axis|
            0 <= #[trigger] self.halfwidths.at(axis) && -NODE_LIMIT <= self.lo(axis) && self.hi(
                axis,
            ) <= NODE_LIMIT
    }

    /// The two boxes are not separated on `axis`.
    pub open spec fn overlaps_on(self, other: AABB, axis: Axis) -> bool {
        let d = self.center.at(axis) - other.center.at(axis);
        (if d < 0 {
            -d
        } else {
            d
        }) <= self.halfwidths.at(axis) + other.halfwidths.at(axis)
    }

    /// No axis separates the two boxes.
    pub open spec fn spec_neighbors(self, other: AABB) -> bool {
        &&& self.overlaps_on(other, Axis::X)
        &&& self.overlaps_on(other, Axis::Y)
        &&& self.overlaps_on(other, Axis::Z)
    }

    /// `self` covers the whole extent of `other` on every axis.
    pub open spec fn contains(self, other: AABB) -> bool {
        forall|axis: Axis| self.lo(axis) <= #[trigger] other.lo(axis) && other.hi(axis) <= self.hi(axis)
    }

    /// The volume `2·hx · 2·hy · 2·hz`.
    pub open spec fn spec_volume(self) -> int {
        (2 * self.halfwidths.x) * (2 * self.halfwidths.y) * (2 * self.halfwidths.z)
    }

    /// The box of a brick before any range check: the position with the two
    /// horizontal axes of the save swapped into world order, and the brick's
    /// half-extents along the world axes.
    pub open spec fn spec_from_brick(brick: Brick, save_data: SaveData) -> (IVec3, (u32, u32, u32)) {
        (
            IVec3 { x: brick.position.0, y: brick.position.2, z: brick.position.1 },
            (
                spec_axis_size(brick, save_data.brick_assets@, 0),
                spec_axis_size(brick, save_data.brick_assets@, 2),
                spec_axis_size(brick, save_data.brick_assets@, 1),
            ),
        )
    }

    /// A centre coordinate and a half-extent that stay inside the world.
    pub open spec fn fits(c: i32, h: u32) -> bool {
        -WORLD_LIMIT <= c - h && c + h <= WORLD_LIMIT
    }

    /// The bounding box of a brick. A brick that reaches outside the world is
    /// reported, never wrapped.
    pub fn from_brick(brick: &Brick, save_data: &SaveData) -> (r: Result<AABB, GeometryError>)
        requires
            brick.wf(),
        ensures
            ({
                let (c, h) = Self::spec_from_brick(*brick, *save_data);
                let fits = Self::fits(c.x, h.0) && Self::fits(c.y, h.1) && Self::fits(c.z, h.2);
                match r {
                    Ok(b) => fits && b.wf() && b.center == c && b.halfwidths.x == h.0
                        && b.halfwidths.y == h.1 && b.halfwidths.z == h.2,
                    Err(e) => !fits && e == GeometryError::NumericOverflow,
                }
            }),
    {
        let w = axis_size(brick, &save_data.brick_assets, 0);
        let h = axis_size(brick, &save_data.brick_assets, 2);
        let l = axis_size(brick, &save_data.brick_assets, 1);
        let x = brick.position.0;
        let y = brick.position.2;
        let z = brick.position.1;
        if Self::check_fits(x, w) && Self::check_fits(y, h) && Self::check_fits(z, l) {
            let b = AABB {
                center: IVec3 { x, y, z },
                halfwidths: IVec3 { x: w as i32, y: h as i32, z: l as i32 },
            };
            assert(b.wf()) by {
                assert forall|axis: Axis|
                    0 <= #[trigger] b.halfwidths.at(axis) && -WORLD_LIMIT <= b.lo(axis) && b.hi(axis)
                        <= WORLD_LIMIT by {
                    match axis {
                        Axis::X => {},
                        Axis::Y => {},
                        Axis::Z => {},
                    }
                }
            }
            Ok(b)
        } else {
            Err(GeometryError::NumericOverflow)
        }
    }

    /// Tests `wf`.
    pub fn is_valid(&self) -> (r: bool)
        ensures
            r == self.wf(),
    {
        let r = Self::axis_valid(self.center.x, self.halfwidths.x) && Self::axis_valid(
            self.center.y,
            self.halfwidths.y,
        ) && Self::axis_valid(self.center.z, self.halfwidths.z);
        proof {
            if r {
                assert forall|axis: Axis|
                    0 <= #[trigger] self.halfwidths.at(axis) && -WORLD_LIMIT <= self.lo(axis)
                        && self.hi(axis) <= WORLD_LIMIT by {
                    match axis {
                        Axis::X => {},
                        Axis::Y => {},
                        Axis::Z => {},
                    }
                }
            } else {
                if !Self::spec_axis_valid(self.center.x, self.halfwidths.x) {
                    assert(self.halfwidths.at(Axis::X) == self.halfwidths.x);
                } else if !Self::spec_axis_valid(self.center.y, self.halfwidths.y) {
                    assert(self.halfwidths.at(Axis::Y) == self.halfwidths.y);
                } else {
                    assert(self.halfwidths.at(Axis::Z) == self.halfwidths.z);
                }
            }
        }
        r
    }

    /// Tests `bounded`.
    pub fn is_bounded(&self) -> (r: bool)
        ensures
            r == self.bounded(),
    {
        let r = Self::axis_within(self.center.x, self.halfwidths.x, NODE_LIMIT) && Self::axis_within(
            self.center.y,
            self.halfwidths.y,
            NODE_LIMIT,
        ) && Self::axis_within(self.center.z, self.halfwidths.z, NODE_LIMIT);
        proof {
            if r {
                assert forall|axis: Axis|
                    0 <= #[trigger] self.halfwidths.at(axis) && -NODE_LIMIT <= self.lo(axis)
                        && self.hi(axis) <= NODE_LIMIT by {
                    match axis {
                        Axis::X => {},
                        Axis::Y => {},
                        Axis::Z => {},
                    }
                }
            } else {
                if !Self::spec_axis_within(self.center.x, self.halfwidths.x, NODE_LIMIT) {
                    assert(self.halfwidths.at(Axis::X) == self.halfwidths.x);
                } else if !Self::spec_axis_within(self.center.y, self.halfwidths.y, NODE_LIMIT) {
                    assert(self.halfwidths.at(Axis::Y) == self.halfwidths.y);
                } else {
                    assert(self.halfwidths.at(Axis::Z) == self.halfwidths.z);
                }
            }
        }
        r
    }

    /// On one axis: the half-width is not negative and the box stays within
    /// `limit`.
    pub open spec fn spec_axis_within(c: i32, h: i32, limit: i32) -> bool {
        0 <= h && -limit <= c - h && c + h <= limit
    }

    /// On one axis: the half-width is not negative and the box stays inside
    /// the world.
    pub open spec fn spec_axis_valid(c: i32, h: i32) -> bool {
        Self::spec_axis_within(c, h, WORLD_LIMIT)
    }

    fn axis_within(c: i32, h: i32, limit: i32) -> (r: bool)
        requires
            0 <= limit,
        ensures
            r == Self::spec_axis_within(c, h, limit),
    {
        0 <= h && -(limit as i64) <= c as i64 - h as i64 && c as i64 + h as i64 <= limit as i64
    }

    fn axis_valid(c: i32, h: i32) -> (r: bool)
        ensures
            r == Self::spec_axis_valid(c, h),
    {
        Self::axis_within(c, h, WORLD_LIMIT)
    }

    fn check_fits(c: i32, h: u32) -> (r: bool)
        ensures
            r == Self::fits(c, h),
            r ==> h <= 2 * WORLD_LIMIT,
    {
        let lo: i64 = c as i64 - h as i64;
        let hi: i64 = c as i64 + h as i64;
        -(WORLD_LIMIT as i64) <= lo && hi <= WORLD_LIMIT as i64
    }

    /// Whether the boxes touch or overlap: on every axis the centres are no
    /// further apart than the half-widths added up.
    pub fn neighbors(&self, other: &AABB) -> (r: bool)
        ensures
            r == self.spec_neighbors(*other),
    {
        let dx: i64 = self.center.x as i64 - other.center.x as i64;
        let dy: i64 = self.center.y as i64 - other.center.y as i64;
        let dz: i64 = self.center.z as i64 - other.center.z as i64;
        let ax: i64 = if dx < 0 { -dx } else { dx };
        let ay: i64 = if dy < 0 { -dy } else { dy };
        let az: i64 = if dz < 0 { -dz } else { dz };
        if ax > self.halfwidths.x as i64 + other.halfwidths.x as i64 {
            return false;
        }
        if ay > self.halfwidths.y as i64 + other.halfwidths.y as i64 {
            return false;
        }
        if az > self.halfwidths.z as i64 + other.halfwidths.z as i64 {
            return false;
        }
        true
    }

    /// The volume of the box, in a type wide enough for every box.
    pub fn volume(&self) -> (v: i128)
        ensures
            v == self.spec_volume(),
    {
        let sx: i128 = 2 * (self.halfwidths.x as i128);
        let sy: i128 = 2 * (self.halfwidths.y as i128);
        let sz: i128 = 2 * (self.halfwidths.z as i128);
        assert(-0x1_0000_0000_0000_0000 <= sx * sy <= 0x1_0000_0000_0000_0000) by (nonlinear_arith)
            requires
                -0x1_0000_0000 <= sx <= 0x1_0000_0000,
                -0x1_0000_0000 <= sy <= 0x1_0000_0000,
        ;
        let sxy: i128 = sx * sy;
        assert(-0x1_0000_0000_0000_0000_0000_0000 <= sxy * sz
            <= 0x1_0000_0000_0000_0000_0000_0000) by (nonlinear_arith)
            requires
                -0x1_0000_0000_0000_0000 <= sxy <= 0x1_0000_0000_0000_0000,
                -0x1_0000_0000 <= sz <= 0x1_0000_0000,
        ;
        sxy * sz
    }
}

/// Boxes overlap each other or not, whichever is asked first.
pub proof fn lemma_neighbors_symmetric(a: AABB, b: AABB)
    ensures
        a.spec_neighbors(b) == b.spec_neighbors(a),
{
}

} // verus!
