//! Primitive shapes and their packed record.
//!
//! A shape packs into one word: the kind in the lowest byte, the position of
//! its first parameter in the shared payload buffer in the two bytes above
//! it, and the number of parameter words in the highest byte. The parameters
//! themselves go to the payload buffer, component by component, in the order
//! in which the variant declares them.
use crate::engine::math::{gpu_words, Scalar, Vec2, Vec3, SCALAR_BITS, VEC2_BITS, VEC3_BITS};
use crate::engine::pack::{byte_at, lemma_bytes_round_trip, pack_bytes};
use vstd::prelude::*;

verus! {

/// Number of shape kinds.
pub const SHAPE_KINDS: u8 = 34;

/// The largest number of parameter words that any shape carries.
pub const MAX_SHAPE_FIELDS: usize = 9;

/// A primitive shape with its parameters.
#[allow(inconsistent_fields)]
#[derive(Clone, Copy, Debug, PartialEq, Eq, Structural)]
pub enum SdShape {
    Sphere { radius: Scalar },
    Ellipsoid { radius: Vec3 },
    Box { bounds: Vec3 },
    RoundBox { bounds: Vec3, radius: Scalar },
    BoxFrame { bounds: Vec3, edge: Scalar },
    Gyroid { height: Scalar },
    Torus { major_radius: Scalar, minor_radius: Scalar },
    CappedTorus { major_radius: Scalar, minor_radius: Scalar, sincos: Vec2 },
    Link { major_radius: Scalar, minor_radius: Scalar, length: Scalar },
    VerticalCapsule { height: Scalar, radius: Scalar },
    Capsule { a: Vec3, b: Vec3, radius: Scalar },
    Cylinder { a: Vec3, b: Vec3, radius: Scalar },
    VerticalCylinder { height: Scalar, radius: Scalar },
    RoundedCylinder { height: Scalar, radius: Scalar, edge_radius: Scalar },
    InfiniteCylinder { center: Vec3 },
    Cone { height: Scalar, sincos: Vec2 },
    ConeBound { height: Scalar, sincos: Vec2 },
    InfiniteCone { sincos: Vec2 },
    CappedVerticalCone { height: Scalar, r1: Scalar, r2: Scalar },
    CappedCone { a: Vec3, b: Vec3, ra: Scalar, rb: Scalar },
    RoundVerticalCone { height: Scalar, r1: Scalar, r2: Scalar },
    RoundCone { a: Vec3, b: Vec3, r1: Scalar, r2: Scalar },
    SolidAngle { sincos: Vec2, radius: Scalar },
    Plane { normal: Vec3, height: Scalar },
    Octahedron { size: Scalar },
    OctahedronBound { size: Scalar },
    Pyramid { height: Scalar },
    HexPrism { bound: Vec2 },
    TriPrism { bound: Vec2 },
    Triangle { a: Vec3, b: Vec3, c: Vec3 },
    Bunny { s: Scalar },
    MandelBulb { scale: Scalar, iter: Scalar, expo: Scalar, b_offset: Scalar },
    JuliaQuaternion { scale: Scalar, iter: Scalar },
    MengerSponge { scale: Scalar, iter: Scalar },
}

/// The packed word of a shape: kind, payload position and parameter count.
#[derive(Clone, Copy, Debug, PartialEq, Eq, Structural)]
pub struct SdShapeUniform {
    pub type_id_index_len: u32,
}

impl SdShapeUniform {
    /// The kind of the shape, as `SdShape::kind` numbers it.
    pub open spec fn type_id(self) -> int {
        byte_at(self.type_id_index_len, 0)
    }

    /// Where the shape's parameters start in the payload buffer.
    pub open spec fn payload_index(self) -> int {
        byte_at(self.type_id_index_len, 1) + 0x100 * byte_at(self.type_id_index_len, 2)
    }

    /// How many parameter words the shape has.
    pub open spec fn field_count(self) -> int {
        byte_at(self.type_id_index_len, 3)
    }
}

impl SdShape {
    /// The number of the variant, counting from zero in declaration order.
    pub open spec fn kind(self) -> u8 {
        match self {
            SdShape::Sphere { .. } => 0,
            SdShape::Ellipsoid { .. } => 1,
            SdShape::Box { .. } => 2,
            SdShape::RoundBox { .. } => 3,
            SdShape::BoxFrame { .. } => 4,
            SdShape::Gyroid { .. } => 5,
            SdShape::Torus { .. } => 6,
            SdShape::CappedTorus { .. } => 7,
            SdShape::Link { .. } => 8,
            SdShape::VerticalCapsule { .. } => 9,
            SdShape::Capsule { .. } => 10,
            SdShape::Cylinder { .. } => 11,
            SdShape::VerticalCylinder { .. } => 12,
            SdShape::RoundedCylinder { .. } => 13,
            SdShape::InfiniteCylinder { .. } => 14,
            SdShape::Cone { .. } => 15,
            SdShape::ConeBound { .. } => 16,
            SdShape::InfiniteCone { .. } => 17,
            SdShape::CappedVerticalCone { .. } => 18,
            SdShape::CappedCone { .. } => 19,
            SdShape::RoundVerticalCone { .. } => 20,
            SdShape::RoundCone { .. } => 21,
            SdShape::SolidAngle { .. } => 22,
            SdShape::Plane { .. } => 23,
            SdShape::Octahedron { .. } => 24,
            SdShape::OctahedronBound { .. } => 25,
            SdShape::Pyramid { .. } => 26,
            SdShape::HexPrism { .. } => 27,
            SdShape::TriPrism { .. } => 28,
            SdShape::Triangle { .. } => 29,
            SdShape::Bunny { .. } => 30,
            SdShape::MandelBulb { .. } => 31,
            SdShape::JuliaQuaternion { .. } => 32,
            SdShape::MengerSponge { .. } => 33,
        }
    }

    /// The parameter words, each field in declaration order and each vector
    /// component by component.
    pub open spec fn fields(self) -> Seq<Scalar> {
        match self {
            SdShape::Sphere { radius } => seq![radius],
            SdShape::Ellipsoid { radius } => seq![radius.x, radius.y, radius.z],
            SdShape::Box { bounds } => seq![bounds.x, bounds.y, bounds.z],
            SdShape::RoundBox { bounds, radius } => seq![bounds.x, bounds.y, bounds.z, radius],
            SdShape::BoxFrame { bounds, edge } => seq![bounds.x, bounds.y, bounds.z, edge],
            SdShape::Gyroid { height } => seq![height],
            SdShape::Torus { major_radius, minor_radius } => seq![major_radius, minor_radius],
            SdShape::CappedTorus { major_radius, minor_radius, sincos } => seq![major_radius, minor_radius, sincos.x, sincos.y],
            SdShape::Link { major_radius, minor_radius, length } => seq![major_radius, minor_radius, length],
            SdShape::VerticalCapsule { height, radius } => seq![height, radius],
            SdShape::Capsule { a, b, radius } => seq![a.x, a.y, a.z, b.x, b.y, b.z, radius],
            SdShape::Cylinder { a, b, radius } => seq![a.x, a.y, a.z, b.x, b.y, b.z, radius],
            SdShape::VerticalCylinder { height, radius } => seq![height, radius],
            SdShape::RoundedCylinder { height, radius, edge_radius } => seq![height, radius, edge_radius],
            SdShape::InfiniteCylinder { center } => seq![center.x, center.y, center.z],
            SdShape::Cone { height, sincos } => seq![height, sincos.x, sincos.y],
            SdShape::ConeBound { height, sincos } => seq![height, sincos.x, sincos.y],
            SdShape::InfiniteCone { sincos } => seq![sincos.x, sincos.y],
            SdShape::CappedVerticalCone { height, r1, r2 } => seq![height, r1, r2],
            SdShape::CappedCone { a, b, ra, rb } => seq![a.x, a.y, a.z, b.x, b.y, b.z, ra, rb],
            SdShape::RoundVerticalCone { height, r1, r2 } => seq![height, r1, r2],
            SdShape::RoundCone { a, b, r1, r2 } => seq![a.x, a.y, a.z, b.x, b.y, b.z, r1, r2],
            SdShape::SolidAngle { sincos, radius } => seq![sincos.x, sincos.y, radius],
            SdShape::Plane { normal, height } => seq![normal.x, normal.y, normal.z, height],
            SdShape::Octahedron { size } => seq![size],
            SdShape::OctahedronBound { size } => seq![size],
            SdShape::Pyramid { height } => seq![height],
            SdShape::HexPrism { bound } => seq![bound.x, bound.y],
            SdShape::TriPrism { bound } => seq![bound.x, bound.y],
            SdShape::Triangle { a, b, c } => seq![a.x, a.y, a.z, b.x, b.y, b.z, c.x, c.y, c.z],
            SdShape::Bunny { s } => seq![s],
            SdShape::MandelBulb { scale, iter, expo, b_offset } => seq![scale, iter, expo, b_offset],
            SdShape::JuliaQuaternion { scale, iter } => seq![scale, iter],
            SdShape::MengerSponge { scale, iter } => seq![scale, iter],
        }
    }

    /// The packed word of this shape when its parameters start at `index`
    /// in the payload buffer. Only the low 16 bits of `index` fit.
    pub open spec fn packed(self, index: nat) -> int {
        self.kind() as int + 0x100 * (index % 0x1_0000) + 0x100_0000 * self.fields().len()
    }

    /// The number of the variant.
    pub fn type_id(&self) -> (id: u8)
        ensures
            id == self.kind(),
            id < SHAPE_KINDS,
    {
        match self {
            SdShape::Sphere { .. } => 0x00,
            SdShape::Ellipsoid { .. } => 0x01,
            SdShape::Box { .. } => 0x02,
            SdShape::RoundBox { .. } => 0x03,
            SdShape::BoxFrame { .. } => 0x04,
            SdShape::Gyroid { .. } => 0x05,
            SdShape::Torus { .. } => 0x06,
            SdShape::CappedTorus { .. } => 0x07,
            SdShape::Link { .. } => 0x08,
            SdShape::VerticalCapsule { .. } => 0x09,
            SdShape::Capsule { .. } => 0x0a,
            SdShape::Cylinder { .. } => 0x0b,
            SdShape::VerticalCylinder { .. } => 0x0c,
            SdShape::RoundedCylinder { .. } => 0x0d,
            SdShape::InfiniteCylinder { .. } => 0x0e,
            SdShape::Cone { .. } => 0x0f,
            SdShape::ConeBound { .. } => 0x10,
            SdShape::InfiniteCone { .. } => 0x11,
            SdShape::CappedVerticalCone { .. } => 0x12,
            SdShape::CappedCone { .. } => 0x13,
            SdShape::RoundVerticalCone { .. } => 0x14,
            SdShape::RoundCone { .. } => 0x15,
            SdShape::SolidAngle { .. } => 0x16,
            SdShape::Plane { .. } => 0x17,
            SdShape::Octahedron { .. } => 0x18,
            SdShape::OctahedronBound { .. } => 0x19,
            SdShape::Pyramid { .. } => 0x1a,
            SdShape::HexPrism { .. } => 0x1b,
            SdShape::TriPrism { .. } => 0x1c,
            SdShape::Triangle { .. } => 0x1d,
            SdShape::Bunny { .. } => 0x1e,
            SdShape::MandelBulb { .. } => 0x1f,
            SdShape::JuliaQuaternion { .. } => 0x20,
            SdShape::MengerSponge { .. } => 0x21,
        }
    }

    /// The number of 32-bit words that the parameters take: one for each
    /// scalar, two for each two-component vector and three for each
    /// three-component vector.
    pub fn gpu_field_count(&self) -> (count: usize)
        ensures
            count == self.fields().len(),
            count <= MAX_SHAPE_FIELDS,
    {
        match self {
            SdShape::Sphere { .. } => gpu_words(SCALAR_BITS),
            SdShape::Ellipsoid { .. } => gpu_words(VEC3_BITS),
            SdShape::Box { .. } => gpu_words(VEC3_BITS),
            SdShape::RoundBox { .. } => gpu_words(VEC3_BITS) + gpu_words(SCALAR_BITS),
            SdShape::BoxFrame { .. } => gpu_words(VEC3_BITS) + gpu_words(SCALAR_BITS),
            SdShape::Gyroid { .. } => gpu_words(SCALAR_BITS),
            SdShape::Torus { .. } => gpu_words(SCALAR_BITS) + gpu_words(SCALAR_BITS),
            SdShape::CappedTorus { .. } => gpu_words(SCALAR_BITS) + gpu_words(SCALAR_BITS) + gpu_words(VEC2_BITS),
            SdShape::Link { .. } => gpu_words(SCALAR_BITS) + gpu_words(SCALAR_BITS) + gpu_words(SCALAR_BITS),
            SdShape::VerticalCapsule { .. } => gpu_words(SCALAR_BITS) + gpu_words(SCALAR_BITS),
            SdShape::Capsule { .. } => gpu_words(VEC3_BITS) + gpu_words(VEC3_BITS) + gpu_words(SCALAR_BITS),
            SdShape::Cylinder { .. } => gpu_words(VEC3_BITS) + gpu_words(VEC3_BITS) + gpu_words(SCALAR_BITS),
            SdShape::VerticalCylinder { .. } => gpu_words(SCALAR_BITS) + gpu_words(SCALAR_BITS),
            SdShape::RoundedCylinder { .. } => gpu_words(SCALAR_BITS) + gpu_words(SCALAR_BITS) + gpu_words(SCALAR_BITS),
            SdShape::InfiniteCylinder { .. } => gpu_words(VEC3_BITS),
            SdShape::Cone { .. } => gpu_words(SCALAR_BITS) + gpu_words(VEC2_BITS),
            SdShape::ConeBound { .. } => gpu_words(SCALAR_BITS) + gpu_words(VEC2_BITS),
            SdShape::InfiniteCone { .. } => gpu_words(VEC2_BITS),
            SdShape::CappedVerticalCone { .. } => gpu_words(SCALAR_BITS) + gpu_words(SCALAR_BITS) + gpu_words(SCALAR_BITS),
            SdShape::CappedCone { .. } => gpu_words(VEC3_BITS) + gpu_words(VEC3_BITS) + gpu_words(SCALAR_BITS) + gpu_words(SCALAR_BITS),
            SdShape::RoundVerticalCone { .. } => gpu_words(SCALAR_BITS) + gpu_words(SCALAR_BITS) + gpu_words(SCALAR_BITS),
            SdShape::RoundCone { .. } => gpu_words(VEC3_BITS) + gpu_words(VEC3_BITS) + gpu_words(SCALAR_BITS) + gpu_words(SCALAR_BITS),
            SdShape::SolidAngle { .. } => gpu_words(VEC2_BITS) + gpu_words(SCALAR_BITS),
            SdShape::Plane { .. } => gpu_words(VEC3_BITS) + gpu_words(SCALAR_BITS),
            SdShape::Octahedron { .. } => gpu_words(SCALAR_BITS),
            SdShape::OctahedronBound { .. } => gpu_words(SCALAR_BITS),
            SdShape::Pyramid { .. } => gpu_words(SCALAR_BITS),
            SdShape::HexPrism { .. } => gpu_words(VEC2_BITS),
            SdShape::TriPrism { .. } => gpu_words(VEC2_BITS),
            SdShape::Triangle { .. } => gpu_words(VEC3_BITS) + gpu_words(VEC3_BITS) + gpu_words(VEC3_BITS),
            SdShape::Bunny { .. } => gpu_words(SCALAR_BITS),
            SdShape::MandelBulb { .. } => gpu_words(SCALAR_BITS) + gpu_words(SCALAR_BITS) + gpu_words(SCALAR_BITS) + gpu_words(SCALAR_BITS),
            SdShape::JuliaQuaternion { .. } => gpu_words(SCALAR_BITS) + gpu_words(SCALAR_BITS),
            SdShape::MengerSponge { .. } => gpu_words(SCALAR_BITS) + gpu_words(SCALAR_BITS),
        }
    }

    /// The parameters as a flat list of words.
    pub fn flatten_fields(&self) -> (words: Vec<Scalar>)
        ensures
            words@ == self.fields(),
    {
        match *self {
            SdShape::Sphere { radius } => vec![radius],
            SdShape::Ellipsoid { radius } => vec![radius.x, radius.y, radius.z],
            SdShape::Box { bounds } => vec![bounds.x, bounds.y, bounds.z],
            SdShape::RoundBox { bounds, radius } => vec![bounds.x, bounds.y, bounds.z, radius],
            SdShape::BoxFrame { bounds, edge } => vec![bounds.x, bounds.y, bounds.z, edge],
            SdShape::Gyroid { height } => vec![height],
            SdShape::Torus { major_radius, minor_radius } => vec![major_radius, minor_radius],
            SdShape::CappedTorus { major_radius, minor_radius, sincos } => vec![major_radius, minor_radius, sincos.x, sincos.y],
            SdShape::Link { major_radius, minor_radius, length } => vec![major_radius, minor_radius, length],
            SdShape::VerticalCapsule { height, radius } => vec![height, radius],
            SdShape::Capsule { a, b, radius } => vec![a.x, a.y, a.z, b.x, b.y, b.z, radius],
            SdShape::Cylinder { a, b, radius } => vec![a.x, a.y, a.z, b.x, b.y, b.z, radius],
            SdShape::VerticalCylinder { height, radius } => vec![height, radius],
            SdShape::RoundedCylinder { height, radius, edge_radius } => vec![height, radius, edge_radius],
            SdShape::InfiniteCylinder { center } => vec![center.x, center.y, center.z],
            SdShape::Cone { height, sincos } => vec![height, sincos.x, sincos.y],
            SdShape::ConeBound { height, sincos } => vec![height, sincos.x, sincos.y],
            SdShape::InfiniteCone { sincos } => vec![sincos.x, sincos.y],
            SdShape::CappedVerticalCone { height, r1, r2 } => vec![height, r1, r2],
            SdShape::CappedCone { a, b, ra, rb } => vec![a.x, a.y, a.z, b.x, b.y, b.z, ra, rb],
            SdShape::RoundVerticalCone { height, r1, r2 } => vec![height, r1, r2],
            SdShape::RoundCone { a, b, r1, r2 } => vec![a.x, a.y, a.z, b.x, b.y, b.z, r1, r2],
            SdShape::SolidAngle { sincos, radius } => vec![sincos.x, sincos.y, radius],
            SdShape::Plane { normal, height } => vec![normal.x, normal.y, normal.z, height],
            SdShape::Octahedron { size } => vec![size],
            SdShape::OctahedronBound { size } => vec![size],
            SdShape::Pyramid { height } => vec![height],
            SdShape::HexPrism { bound } => vec![bound.x, bound.y],
            SdShape::TriPrism { bound } => vec![bound.x, bound.y],
            SdShape::Triangle { a, b, c } => vec![a.x, a.y, a.z, b.x, b.y, b.z, c.x, c.y, c.z],
            SdShape::Bunny { s } => vec![s],
            SdShape::MandelBulb { scale, iter, expo, b_offset } => vec![scale, iter, expo, b_offset],
            SdShape::JuliaQuaternion { scale, iter } => vec![scale, iter],
            SdShape::MengerSponge { scale, iter } => vec![scale, iter],
        }
    }

    /// Packs the shape into its record, given where its parameters start in
    /// the payload buffer.
    pub fn uniform(self, index: usize) -> (record: SdShapeUniform)
        ensures
            record.type_id_index_len == self.packed(index as nat),
            record.type_id() == self.kind(),
            record.payload_index() == index % 0x1_0000,
            record.field_count() == self.fields().len(),
    {
        let count: usize = self.gpu_field_count();
        let word: u32 = shape_word(self.type_id(), index, count as u8);
        SdShapeUniform { type_id_index_len: word }
    }
}

/// No shape has more than `MAX_SHAPE_FIELDS` parameter words, and every
/// kind is below `SHAPE_KINDS`.
pub proof fn lemma_field_count_fits(shape: SdShape)
    ensures
        shape.fields().len() <= MAX_SHAPE_FIELDS,
        shape.kind() < SHAPE_KINDS,
{
}

/// The shape word for a kind, a payload position and a parameter count.
fn shape_word(kind: u8, index: usize, count: u8) -> (word: u32)
    ensures
        word == kind as int + 0x100 * (index % 0x1_0000) + 0x100_0000 * (count as int),
        byte_at(word, 0) == kind,
        byte_at(word, 1) + 0x100 * byte_at(word, 2) == index % 0x1_0000,
        byte_at(word, 3) == count,
{
    let low: usize = index % 0x100;
    let high: usize = (index / 0x100) % 0x100;
    assert(index % 0x1_0000 == low + 0x100 * high);
    proof {
        lemma_bytes_round_trip(kind, low as u8, high as u8, count);
    }
    pack_bytes(kind, low as u8, high as u8, count)
}

} // verus!
