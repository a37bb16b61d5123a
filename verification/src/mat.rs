//! The rendering materials that bricks are sorted into.

use vstd::prelude::*;
use vstd::std_specs::convert::FromSpecImpl;
use crate::brick::str_eq;

verus! {

/// The number of material slots that meshes are sorted into.
pub const MATERIAL_SLOTS: usize = 4;

/// A rendering material.
#[derive(Debug, Clone, Copy, PartialEq, Eq, Structural)]
pub enum BrickMaterial {
    Plastic,
    Glow,
    Glass,
    Metallic,
    /// No material of a save; no name stands for it.
    Unknown,
}

/// The material that a save's material name stands for: one of plastic,
/// glow, glass and metal, and plastic for every other name.
pub open spec fn spec_material(name: Seq<char>) -> BrickMaterial {
    if name == "BMC_Plastic"@ {
        BrickMaterial::Plastic
    } else if name == "BMC_Glow"@ {
        BrickMaterial::Glow
    } else if name == "BMC_Glass"@ {
        BrickMaterial::Glass
    } else if name == "BMC_Metallic"@ {
        BrickMaterial::Metallic
    } else {
        BrickMaterial::Plastic
    }
}

impl<'a> From<&'a str> for BrickMaterial {
    fn from(s: &'a str) -> (material: Self) {
        if str_eq(s, "BMC_Plastic") {
            BrickMaterial::Plastic
        } else if str_eq(s, "BMC_Glow") {
            BrickMaterial::Glow
        } else if str_eq(s, "BMC_Glass") {
            BrickMaterial::Glass
        } else if str_eq(s, "BMC_Metallic") {
            BrickMaterial::Metallic
        } else {
            BrickMaterial::Plastic
        }
    }
}

impl<'a> FromSpecImpl<&'a str> for BrickMaterial {
    open spec fn obeys_from_spec() -> bool {
        true
    }

    open spec fn from_spec(s: &'a str) -> Self {
        spec_material(s@)
    }
}

impl BrickMaterial {
    /// The slot of the material: plastic, glow, glass, metal, in that order.
    /// A material that is not known is rendered as plastic.
    pub open spec fn spec_slot(self) -> usize {
        match self {
            BrickMaterial::Plastic => 0,
            BrickMaterial::Glow => 1,
            BrickMaterial::Glass => 2,
            BrickMaterial::Metallic => 3,
            BrickMaterial::Unknown => 0,
        }
    }

    /// The slot of the material, below `MATERIAL_SLOTS`.
    pub fn slot(&self) -> (s: usize)
        ensures
            s == self.spec_slot(),
            s < MATERIAL_SLOTS,
    {
        match self {
            BrickMaterial::Plastic => 0,
            BrickMaterial::Glow => 1,
            BrickMaterial::Glass => 2,
            BrickMaterial::Metallic => 3,
            BrickMaterial::Unknown => 0,
        }
    }
}

/// The slot of a material name.
pub fn material_slot(name: &str) -> (s: usize)
    ensures
        s == spec_material(name@).spec_slot(),
        s < MATERIAL_SLOTS,
{
    let material = BrickMaterial::from(name);
    material.slot()
}

} // verus!
