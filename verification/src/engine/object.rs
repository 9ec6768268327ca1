//! Objects, the leaves of a scene: a shape with its material, its modifier
//! stack and its placement, and the packed record of all four.
use crate::engine::math::Vec3;
use crate::engine::modifier::{mod_range, SdModStack, SdModStackUniform};
use crate::engine::pack::{pack_bytes, word_of_bytes};
use crate::engine::shape::{SdShape, SdShapeUniform};
use vstd::prelude::*;

verus! {

/// The packed record of an object.
#[derive(Clone, Copy, Debug, PartialEq, Eq, Structural)]
pub struct SdObjectUniform {
    pub shape: SdShapeUniform,
    pub material: SdMaterialUniform,
    pub modifier_stack: SdModStackUniform,
    pub transform: SdTransformUniform,
}

/// A leaf of the scene.
#[derive(Clone, Debug, PartialEq, Eq)]
pub struct SdObject {
    pub shape: SdShape,
    pub material: SdMaterial,
    pub modifier_stack: SdModStack,
    pub transform: SdTransform,
}

impl SdObject {
    /// The record of this object when its modifiers start at
    /// `start_mod_index` in the modifier array and its shape parameters at
    /// `start_shape_index` in the payload buffer.
    pub open spec fn packed(self, start_mod_index: nat, start_shape_index: nat) -> SdObjectUniform {
        SdObjectUniform {
            shape: SdShapeUniform {
                type_id_index_len: self.shape.packed(start_shape_index) as u32,
            },
            material: self.material.packed(),
            modifier_stack: SdModStackUniform {
                data_index_and_lenght: SdModStack::range_word(
                    self.modifier_stack@.len(),
                    start_mod_index,
                ) as u32,
            },
            transform: SdTransformUniform { pos: self.transform.pos, rot: self.transform.rot },
        }
    }

    /// Packs the object into its record.
    pub fn uniform(&self, start_mod_index: usize, start_shape_index: usize) -> (record:
        SdObjectUniform)
        ensures
            record == self.packed(start_mod_index as nat, start_shape_index as nat),
            record.shape.type_id() == self.shape.kind(),
            record.shape.payload_index() == start_shape_index % 0x1_0000,
            record.shape.field_count() == self.shape.fields().len(),
            record.modifier_stack.start() == start_mod_index % 0x1_0000,
            record.modifier_stack.count() == self.modifier_stack@.len() % 0x1_0000,
    {
        SdObjectUniform {
            shape: self.shape.uniform(start_shape_index),
            material: self.material.uniform(),
            modifier_stack: mod_range(self.modifier_stack.modifiers.len(), start_mod_index),
            transform: self.transform.uniform(),
        }
    }
}

/// A colour with opacity, eight bits to the channel.
#[derive(Clone, Copy, Debug, PartialEq, Eq, Structural)]
pub struct Rgba8 {
    pub r: u8,
    pub g: u8,
    pub b: u8,
    pub a: u8,
}

/// A colour, eight bits to the channel.
#[derive(Clone, Copy, Debug, PartialEq, Eq, Structural)]
pub struct Rgb8 {
    pub r: u8,
    pub g: u8,
    pub b: u8,
}

/// The packed record of a material: three words of four channels each.
#[derive(Clone, Copy, Debug, PartialEq, Eq, Structural)]
pub struct SdMaterialUniform {
    pub color: u32,
    pub rough_fres_metal: u32,
    pub sss_strength_radius: u32,
}

/// The surface of an object. Every channel is held as it is packed:
/// quantized to eight bits, so that 255 stands for one.
#[derive(Clone, Copy, Debug, PartialEq, Eq, Structural)]
pub struct SdMaterial {
    pub color: Rgba8,
    pub roughness: u8,
    pub fresnel: u8,
    pub metallic: u8,
    pub sss_strength: u8,
    pub sss_radius: Rgb8,
}

impl Default for SdMaterial {
    /// A transparent black surface of middling roughness, with no
    /// subsurface scattering.
    fn default() -> (material: Self)
        ensures
            material == (SdMaterial {
                color: Rgba8 { r: 0, g: 0, b: 0, a: 0 },
                roughness: 0x80,
                fresnel: 0,
                metallic: 0,
                sss_strength: 0,
                sss_radius: Rgb8 { r: 0, g: 0, b: 0 },
            }),
    {
        SdMaterial {
            color: Rgba8 { r: 0, g: 0, b: 0, a: 0 },
            roughness: 0x80,
            fresnel: 0,
            metallic: 0,
            sss_strength: 0,
            sss_radius: Rgb8 { r: 0, g: 0, b: 0 },
        }
    }
}

impl SdMaterial {
    /// The record of this material. Each word holds its channels from the
    /// lowest byte up, in the order given here: the scattering radius takes
    /// the three low bytes of the last word and the strength the byte above
    /// them.
    pub open spec fn packed(self) -> SdMaterialUniform {
        SdMaterialUniform {
            color: word_of_bytes(self.color.r, self.color.g, self.color.b, self.color.a) as u32,
            rough_fres_metal: word_of_bytes(self.roughness, self.fresnel, self.metallic, 0) as u32,
            sss_strength_radius: word_of_bytes(
                self.sss_radius.r,
                self.sss_radius.g,
                self.sss_radius.b,
                self.sss_strength,
            ) as u32,
        }
    }

    /// Packs the material into its record.
    pub fn uniform(self) -> (record: SdMaterialUniform)
        ensures
            record == self.packed(),
    {
        SdMaterialUniform {
            color: pack_bytes(self.color.r, self.color.g, self.color.b, self.color.a),
            rough_fres_metal: pack_bytes(self.roughness, self.fresnel, self.metallic, 0),
            sss_strength_radius: pack_bytes(
                self.sss_radius.r,
                self.sss_radius.g,
                self.sss_radius.b,
                self.sss_strength,
            ),
        }
    }
}

/// Where an object stands: its position and its rotation as Euler angles.
#[derive(Clone, Copy, Debug, PartialEq, Eq, Structural)]
pub struct SdTransform {
    pub pos: Vec3,
    pub rot: Vec3,
}

/// The packed record of a placement: the six words unchanged.
#[derive(Clone, Copy, Debug, PartialEq, Eq, Structural)]
pub struct SdTransformUniform {
    pub pos: Vec3,
    pub rot: Vec3,
}

impl SdTransform {
    /// Packs the placement into its record.
    pub fn uniform(self) -> (record: SdTransformUniform)
        ensures
            record.pos == self.pos,
            record.rot == self.rot,
    {
        SdTransformUniform { pos: self.pos, rot: self.rot }
    }
}

} // verus!
