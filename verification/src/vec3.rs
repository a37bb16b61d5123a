//! Integer 3-vectors: 32-bit for box centres and half-widths, 64-bit for
//! polygon vertices and normals.

use vstd::prelude::*;

verus! {

/// One of the three coordinate axes.
#[derive(Debug, Clone, Copy, PartialEq, Eq, Structural)]
pub enum Axis {
    X,
    Y,
    Z,
}

/// A vector of three 32-bit integers.
#[derive(Debug, Clone, Copy, PartialEq, Eq, Structural)]
pub struct IVec3 {
    pub x: i32,
    pub y: i32,
    pub z: i32,
}

impl IVec3 {
    /// The component on `axis`.
    pub open spec fn at(self, axis: Axis) -> int {
        match axis {
            Axis::X => self.x as int,
            Axis::Y => self.y as int,
            Axis::Z => self.z as int,
        }
    }

    pub fn new(x: i32, y: i32, z: i32) -> (v: IVec3)
        ensures
            v == (IVec3 { x, y, z }),
    {
        IVec3 { x, y, z }
    }

    /// The component on `axis`.
    pub fn get(&self, axis: Axis) -> (c: i32)
        ensures
            c == self.at(axis),
    {
        match axis {
            Axis::X => self.x,
            Axis::Y => self.y,
            Axis::Z => self.z,
        }
    }
}

/// A vector of three unsigned 32-bit integers, for half-extents.
#[derive(Debug, Clone, Copy, PartialEq, Eq, Structural)]
pub struct UVec3 {
    pub x: u32,
    pub y: u32,
    pub z: u32,
}

impl UVec3 {
    pub fn new(x: u32, y: u32, z: u32) -> (v: UVec3)
        ensures
            v == (UVec3 { x, y, z }),
    {
        UVec3 { x, y, z }
    }
}

/// A vector of three 64-bit integers.
#[derive(Debug, Clone, Copy, PartialEq, Eq, Structural)]
pub struct I64Vec3 {
    pub x: i64,
    pub y: i64,
    pub z: i64,
}

impl I64Vec3 {
    /// The component on `axis`.
    pub open spec fn at(self, axis: Axis) -> int {
        match axis {
            Axis::X => self.x as int,
            Axis::Y => self.y as int,
            Axis::Z => self.z as int,
        }
    }

    /// Every component lies in `-bound ..= bound`.
    pub open spec fn within(self, bound: int) -> bool {
        &&& -bound <= self.x <= bound
        &&& -bound <= self.y <= bound
        &&& -bound <= self.z <= bound
    }

    pub fn new(x: i64, y: i64, z: i64) -> (v: I64Vec3)
        ensures
            v == (I64Vec3 { x, y, z }),
    {
        I64Vec3 { x, y, z }
    }

    /// The component on `axis`.
    pub fn get(&self, axis: Axis) -> (c: i64)
        ensures
            c == self.at(axis),
    {
        match axis {
            Axis::X => self.x,
            Axis::Y => self.y,
            Axis::Z => self.z,
        }
    }
}

} // verus!
