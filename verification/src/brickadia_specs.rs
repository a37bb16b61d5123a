//! What this library takes for granted about the `brickadia` crate's brick
//! utilities.

use vstd::prelude::*;
use crate::brick::{Brick, Size};

verus! {

/// The entry of `brickadia::util::BRICK_SIZE_MAP` for an asset name: the
/// half-extents of a static-mesh brick, or `None` for a name the table lacks.
pub uninterp spec fn brick_size_map(name: Seq<char>) -> Option<(u32, u32, u32)>;

/// The size triple that `brickadia` works with for a brick: its own when it is
/// procedural, else the table's entry for its asset name, else all zero.
pub open spec fn spec_brick_size(brick: Brick, assets: Seq<String>) -> (u32, u32, u32) {
    match brick.size {
        Size::Procedural(x, y, z) => (x, y, z),
        Size::Empty => if brick.asset_name_index < assets.len() {
            match brick_size_map(assets[brick.asset_name_index as int]@) {
                Some(size) => size,
                None => (0, 0, 0),
            }
        } else {
            (0, 0, 0)
        },
    }
}

/// Which entry of a brick's size triple lies along world `axis` once the brick
/// is turned: directions 0 to 3 lay the brick on its side, and a quarter or
/// three-quarter turn swaps the first two entries.
pub open spec fn spec_scale_axis(direction: u8, rotation: u8, axis: u8) -> u8 {
    let turned: u8 = if direction == 0 || direction == 1 {
        if axis == 0 {
            2
        } else if axis == 2 {
            0
        } else {
            axis
        }
    } else if direction == 2 || direction == 3 {
        if axis == 0 {
            1
        } else if axis == 1 {
            2
        } else if axis == 2 {
            0
        } else {
            axis
        }
    } else {
        axis
    };
    if rotation == 1 || rotation == 3 {
        if turned == 0 {
            1
        } else if turned == 1 {
            0
        } else {
            turned
        }
    } else {
        turned
    }
}

/// A brick's half-extent along world `axis`.
pub open spec fn spec_axis_size(brick: Brick, assets: Seq<String>, axis: u8) -> u32 {
    let size = spec_brick_size(brick, assets);
    let entry = spec_scale_axis(brick.direction, brick.rotation, axis);
    if entry == 0 {
        size.0
    } else if entry == 1 {
        size.1
    } else {
        size.2
    }
}

/// Looks an asset name up in `brickadia::util::BRICK_SIZE_MAP`. The table is a
/// constant of that crate, so the answer depends on the name alone.
#[verifier::external_body]
pub(crate) fn default_size(name: &str) -> (r: Option<(u32, u32, u32)>)
    ensures
        r == brick_size_map(name@),
{
    brickadia::util::BRICK_SIZE_MAP.get(name).copied()
}

/// Calls `brickadia::util::get_axis_size` on the brick's size, asset index,
/// direction and rotation. That function picks the size triple as
/// `spec_brick_size` says and the entry as `spec_scale_axis` says. It panics on
/// an axis above 2, and the brick cannot be handed over with a direction above
/// 5 or a rotation above 3: `requires` leaves all of these out.
#[verifier::external_body]
pub(crate) fn axis_size(brick: &Brick, assets: &Vec<String>, axis: u8) -> (r: u32)
    requires
        brick.wf(),
        axis < 3,
    ensures
        r == spec_axis_size(*brick, assets@, axis),
{
    let outside = brickadia::save::Brick {
        asset_name_index: brick.asset_name_index,
        size: match brick.size {
            Size::Empty => brickadia::save::Size::Empty,
            Size::Procedural(x, y, z) => brickadia::save::Size::Procedural(x, y, z),
        },
        direction: brickadia::save::Direction::try_from(brick.direction).unwrap(),
        rotation: brickadia::save::Rotation::try_from(brick.rotation).unwrap(),
        ..Default::default()
    };
    brickadia::util::get_axis_size(&outside, assets, axis)
}

/// `brickadia::util::rotation::d2o` packs a direction and a rotation into one
/// orientation number, the direction shifted left by two bits.
pub assume_specification[ brickadia::util::rotation::d2o ](direction: u8, rotation: u8) -> (o: u8)
    ensures
        o == (direction << 2u8) | rotation,
;

} // verus!
