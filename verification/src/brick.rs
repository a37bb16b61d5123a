//! Brick records as the geometry pipeline reads them.

use vstd::prelude::*;

verus! {

/// Whether two names are the same: the same characters in the same order.
pub fn str_eq(a: &str, b: &str) -> (r: bool)
    ensures
        r == (a@ == b@),
{
    a.to_owned() == b.to_owned()
}

/// A colour in red, green, blue and alpha.
#[derive(Debug, Clone, Copy, PartialEq, Eq, Structural)]
pub struct Color {
    pub r: u8,
    pub g: u8,
    pub b: u8,
    pub a: u8,
}

/// A brick's colour: an entry of the save's palette, or a colour of its own.
#[derive(Debug, Clone, Copy, PartialEq, Eq, Structural)]
pub enum BrickColor {
    Index(u32),
    Unique(Color),
}

/// A brick's stored size: none for a static-mesh brick, whose size comes from
/// its asset name, or the half-extents of a procedural brick.
#[derive(Debug, Clone, Copy, PartialEq, Eq, Structural)]
pub enum Size {
    Empty,
    Procedural(u32, u32, u32),
}

/// One brick of a save.
#[derive(Debug, Clone, Copy)]
pub struct Brick {
    /// Index into the save's asset names.
    pub asset_name_index: u32,
    pub size: Size,
    /// Position in the save's axis order, which has the vertical axis last.
    pub position: (i32, i32, i32),
    /// 0 to 5: X+, X-, Y+, Y-, Z+, Z-.
    pub direction: u8,
    /// 0 to 3: quarter turns about the brick's own axis.
    pub rotation: u8,
    pub visibility: bool,
    /// Index into the save's material names.
    pub material_index: u32,
    pub color: BrickColor,
    pub owner_index: u32,
}

impl Brick {
    /// Direction and rotation name one of the 24 orientations.
    pub open spec fn wf(self) -> bool {
        self.direction < 6 && self.rotation < 4
    }
}

/// The part of a save that geometry is built from.
#[derive(Debug, Clone)]
pub struct SaveData {
    pub brick_assets: Vec<String>,
    pub colors: Vec<Color>,
    pub materials: Vec<String>,
    pub bricks: Vec<Brick>,
}

impl SaveData {
    /// Brick `i` is well formed and its indices point into the save's tables.
    pub open spec fn brick_ok(self, i: int) -> bool {
        let brick = self.bricks[i];
        &&& brick.wf()
        &&& brick.asset_name_index < self.brick_assets.len()
        &&& brick.material_index < self.materials.len()
        &&& brick.color matches BrickColor::Index(c) ==> c < self.colors.len()
    }

    /// Every brick is well formed and points into the save's tables.
    pub open spec fn wf(self) -> bool {
        forall|i: int| 0 <= i < self.bricks.len() ==> #[trigger] self.brick_ok(i)
    }

    /// Tests `wf`.
    pub fn is_valid(&self) -> (r: bool)
        ensures
            r == self.wf(),
    {
        let mut i: usize = 0;
        while i < self.bricks.len()
            invariant
                i <= self.bricks.len(),
                forall|k: int| 0 <= k < i ==> #[trigger] self.brick_ok(k),
            decreases self.bricks.len() - i,
        {
            let brick = &self.bricks[i];
            let color_ok = match brick.color {
                BrickColor::Index(c) => (c as usize) < self.colors.len(),
                BrickColor::Unique(_) => true,
            };
            if !(brick.direction < 6 && brick.rotation < 4 && (brick.asset_name_index as usize)
                < self.brick_assets.len() && (brick.material_index as usize) < self.materials.len()
                && color_ok) {
                assert(!self.brick_ok(i as int));
                return false;
            }
            i += 1;
        }
        true
    }
}

} // verus!
