use bevy_sdf_klown::engine::math::{gpu_words, Scalar, Vec2, Vec3, Vec4};
use bevy_sdf_klown::engine::modifier::{SdMod, SdModStack, SdModUniform};
use bevy_sdf_klown::engine::object::{
    Rgb8, Rgba8, SdMaterial, SdObject, SdTransform,
};
use bevy_sdf_klown::engine::op::{SdBlend, SdIndex, SdOperator};
use bevy_sdf_klown::engine::pack::{pack_bytes, pack_halves};
use bevy_sdf_klown::engine::shape::SdShape;

fn s(x: f32) -> Scalar {
    Scalar::from_bits(x.to_bits())
}

fn v2(x: f32, y: f32) -> Vec2 {
    Vec2 { x: s(x), y: s(y) }
}

fn v3(x: f32, y: f32, z: f32) -> Vec3 {
    Vec3 { x: s(x), y: s(y), z: s(z) }
}

fn zero() -> Scalar {
    Scalar::from_bits(0)
}

#[test]
fn bytes_pack_lowest_first() {
    assert_eq!(pack_bytes(0x11, 0x22, 0x33, 0x44), 0x4433_2211);
    assert_eq!(pack_bytes(0, 0, 0, 0), 0);
    assert_eq!(pack_bytes(0xff, 0xff, 0xff, 0xff), 0xffff_ffff);
    assert_eq!(pack_bytes(0xff, 0, 0, 0), u32::from_le_bytes([0xff, 0, 0, 0]));
}

#[test]
fn halves_pack_low_first() {
    assert_eq!(pack_halves(0x1234, 0xabcd), 0xabcd_1234);
    assert_eq!(pack_halves(0xffff, 0), 0x0000_ffff);
    assert_eq!(pack_halves(0, 0xffff), 0xffff_0000);
}

#[test]
fn words_round_bits_up() {
    assert_eq!(gpu_words(0), 0);
    assert_eq!(gpu_words(1), 1);
    assert_eq!(gpu_words(32), 1);
    assert_eq!(gpu_words(33), 2);
    assert_eq!(gpu_words(64), 2);
    assert_eq!(gpu_words(96), 3);
    assert_eq!(gpu_words(128), 4);
}

#[test]
fn words_round_the_widest_width_up_too() {
    assert_eq!(gpu_words(usize::MAX), usize::MAX / 32 + 1);
    assert_eq!(gpu_words(usize::MAX - 31), usize::MAX / 32);
}

#[test]
fn scalar_keeps_its_bits() {
    assert_eq!(s(1.0).to_bits(), 0x3f80_0000);
    assert_eq!(f32::from_bits(s(-2.5).to_bits()), -2.5);
}

#[test]
fn sphere_word_holds_kind_index_and_count() {
    let sphere = SdShape::Sphere { radius: s(1.0) };
    assert_eq!(sphere.type_id(), 0);
    assert_eq!(sphere.gpu_field_count(), 1);
    assert_eq!(sphere.flatten_fields(), vec![s(1.0)]);
    assert_eq!(sphere.uniform(5).type_id_index_len, 0x0100_0500);
}

#[test]
fn shape_index_takes_two_bytes() {
    let shape = SdShape::Box { bounds: v3(1.0, 1.0, 1.0) };
    assert_eq!(shape.uniform(0x1234).type_id_index_len, 0x0312_3402);
    assert_eq!(shape.uniform(0xffff).type_id_index_len, 0x03ff_ff02);
}

#[test]
fn shape_index_keeps_its_low_sixteen_bits() {
    let shape = SdShape::Box { bounds: v3(1.0, 1.0, 1.0) };
    assert_eq!(shape.uniform(0x1_0000).type_id_index_len, 0x0300_0002);
    assert_eq!(shape.uniform(0x5_1234).type_id_index_len, 0x0312_3402);
}

#[test]
fn shape_fields_flatten_in_declaration_order() {
    let round_box = SdShape::RoundBox { bounds: v3(1.0, 2.0, 3.0), radius: s(0.25) };
    assert_eq!(round_box.gpu_field_count(), 4);
    assert_eq!(round_box.flatten_fields(), vec![s(1.0), s(2.0), s(3.0), s(0.25)]);

    let capped = SdShape::CappedTorus {
        major_radius: s(2.0),
        minor_radius: s(0.5),
        sincos: v2(0.6, 0.8),
    };
    assert_eq!(capped.gpu_field_count(), 4);
    assert_eq!(capped.flatten_fields(), vec![s(2.0), s(0.5), s(0.6), s(0.8)]);

    let solid = SdShape::SolidAngle { sincos: v2(0.6, 0.8), radius: s(3.0) };
    assert_eq!(solid.flatten_fields(), vec![s(0.6), s(0.8), s(3.0)]);
}

#[test]
fn triangle_has_the_most_fields() {
    let triangle = SdShape::Triangle {
        a: v3(1.0, 2.0, 3.0),
        b: v3(4.0, 5.0, 6.0),
        c: v3(7.0, 8.0, 9.0),
    };
    assert_eq!(triangle.type_id(), 29);
    assert_eq!(triangle.gpu_field_count(), 9);
    assert_eq!(
        triangle.flatten_fields(),
        vec![s(1.0), s(2.0), s(3.0), s(4.0), s(5.0), s(6.0), s(7.0), s(8.0), s(9.0)]
    );
    assert_eq!(triangle.uniform(7).type_id_index_len, 0x0900_071d);
}

#[test]
fn shape_kinds_count_in_declaration_order() {
    let one = s(1.0);
    let v = v3(1.0, 1.0, 1.0);
    let w = v2(1.0, 1.0);
    let shapes = vec![
        (SdShape::Sphere { radius: one }, 1),
        (SdShape::Ellipsoid { radius: v }, 3),
        (SdShape::Box { bounds: v }, 3),
        (SdShape::RoundBox { bounds: v, radius: one }, 4),
        (SdShape::BoxFrame { bounds: v, edge: one }, 4),
        (SdShape::Gyroid { height: one }, 1),
        (SdShape::Torus { major_radius: one, minor_radius: one }, 2),
        (SdShape::CappedTorus { major_radius: one, minor_radius: one, sincos: w }, 4),
        (SdShape::Link { major_radius: one, minor_radius: one, length: one }, 3),
        (SdShape::VerticalCapsule { height: one, radius: one }, 2),
        (SdShape::Capsule { a: v, b: v, radius: one }, 7),
        (SdShape::Cylinder { a: v, b: v, radius: one }, 7),
        (SdShape::VerticalCylinder { height: one, radius: one }, 2),
        (SdShape::RoundedCylinder { height: one, radius: one, edge_radius: one }, 3),
        (SdShape::InfiniteCylinder { center: v }, 3),
        (SdShape::Cone { height: one, sincos: w }, 3),
        (SdShape::ConeBound { height: one, sincos: w }, 3),
        (SdShape::InfiniteCone { sincos: w }, 2),
        (SdShape::CappedVerticalCone { height: one, r1: one, r2: one }, 3),
        (SdShape::CappedCone { a: v, b: v, ra: one, rb: one }, 8),
        (SdShape::RoundVerticalCone { height: one, r1: one, r2: one }, 3),
        (SdShape::RoundCone { a: v, b: v, r1: one, r2: one }, 8),
        (SdShape::SolidAngle { sincos: w, radius: one }, 3),
        (SdShape::Plane { normal: v, height: one }, 4),
        (SdShape::Octahedron { size: one }, 1),
        (SdShape::OctahedronBound { size: one }, 1),
        (SdShape::Pyramid { height: one }, 1),
        (SdShape::HexPrism { bound: w }, 2),
        (SdShape::TriPrism { bound: w }, 2),
        (SdShape::Triangle { a: v, b: v, c: v }, 9),
        (SdShape::Bunny { s: one }, 1),
        (SdShape::MandelBulb { scale: one, iter: one, expo: one, b_offset: one }, 4),
        (SdShape::JuliaQuaternion { scale: one, iter: one }, 2),
        (SdShape::MengerSponge { scale: one, iter: one }, 2),
    ];
    assert_eq!(shapes.len(), 34);
    for (kind, (shape, count)) in shapes.iter().enumerate() {
        assert_eq!(shape.type_id() as usize, kind);
        assert_eq!(shape.gpu_field_count(), *count);
        assert_eq!(shape.flatten_fields().len(), *count);
        let word = shape.uniform(0).type_id_index_len;
        assert_eq!(word & 0xff, kind as u32);
        assert_eq!(word >> 24, *count as u32);
    }
}

#[test]
fn modifier_record_holds_kind_and_padded_payload() {
    let translate = SdMod::Translate { t: v3(1.0, 2.0, 3.0) };
    assert_eq!(
        translate.uniform(),
        SdModUniform { type_id: 0, data: Vec4 { x: s(1.0), y: s(2.0), z: s(3.0), w: zero() } }
    );
    let twist = SdMod::Twist { k: s(0.5) };
    assert_eq!(
        twist.uniform(),
        SdModUniform { type_id: 8, data: Vec4 { x: s(0.5), y: zero(), z: zero(), w: zero() } }
    );
    let mirror = SdMod::SymetryY;
    assert_eq!(
        mirror.uniform(),
        SdModUniform { type_id: 11, data: Vec4 { x: zero(), y: zero(), z: zero(), w: zero() } }
    );
    let array = SdMod::LimArray { c: s(2.0), lim: v3(1.0, 0.0, 4.0) };
    assert_eq!(
        array.uniform(),
        SdModUniform { type_id: 14, data: Vec4 { x: s(2.0), y: s(1.0), z: s(0.0), w: s(4.0) } }
    );
}

#[test]
fn modifier_kinds_count_in_declaration_order() {
    let a = s(1.0);
    let v = v3(1.0, 1.0, 1.0);
    let mods = vec![
        SdMod::Translate { t: v },
        SdMod::OrthogonalRotateX,
        SdMod::OrthogonalRotateY,
        SdMod::OrthogonalRotateZ,
        SdMod::RotateX { a },
        SdMod::RotateY { a },
        SdMod::RotateZ { a },
        SdMod::RotateEuleur { a: v },
        SdMod::Twist { k: a },
        SdMod::CheapBend { k: a },
        SdMod::SymetryX,
        SdMod::SymetryY,
        SdMod::SymetryZ,
        SdMod::InfArray { c: v },
        SdMod::LimArray { c: a, lim: v },
        SdMod::Elongate { h: v },
    ];
    for (kind, m) in mods.iter().enumerate() {
        assert_eq!(m.uniform().type_id as usize, kind);
    }
}

#[test]
fn default_modifier_is_a_translation_by_nothing() {
    assert_eq!(SdMod::default(), SdMod::Translate { t: v3(0.0, 0.0, 0.0) });
    assert_eq!(SdMod::default().uniform(), SdModUniform::default());
}

#[test]
fn modifier_range_has_start_above_count() {
    let stack = SdModStack {
        modifiers: vec![SdMod::SymetryX, SdMod::SymetryY, SdMod::Twist { k: s(1.0) }],
    };
    assert_eq!(stack.uniform(5).data_index_and_lenght, 0x0005_0003);
    assert_eq!(SdModStack::default().uniform(0).data_index_and_lenght, 0);
    assert_eq!(SdModStack::default().uniform(0x1_0002).data_index_and_lenght, 0x0002_0000);
}

#[test]
fn material_packs_four_channels_to_the_word() {
    let material = SdMaterial {
        color: Rgba8 { r: 0x11, g: 0x22, b: 0x33, a: 0x44 },
        roughness: 0x80,
        fresnel: 0x10,
        metallic: 0xff,
        sss_strength: 0x55,
        sss_radius: Rgb8 { r: 0x66, g: 0x77, b: 0x88 },
    };
    let record = material.uniform();
    assert_eq!(record.color, 0x4433_2211);
    assert_eq!(record.rough_fres_metal, 0x00ff_1080);
    assert_eq!(record.sss_strength_radius, 0x5588_7766);
    assert_eq!(record.color, u32::from_le_bytes([0x11, 0x22, 0x33, 0x44]));
}

#[test]
fn default_material_is_black_and_half_rough() {
    let record = SdMaterial::default().uniform();
    assert_eq!(record.color, 0);
    assert_eq!(record.rough_fres_metal, 0x80);
    assert_eq!(record.sss_strength_radius, 0);
}

#[test]
fn transform_record_is_the_transform() {
    let transform = SdTransform { pos: v3(1.0, 2.0, 3.0), rot: v3(0.1, 0.2, 0.3) };
    let record = transform.uniform();
    assert_eq!(record.pos, transform.pos);
    assert_eq!(record.rot, transform.rot);
}

#[test]
fn blend_word_holds_kind_flag_and_parameter() {
    assert_eq!(SdBlend::Union.uniform().type_id_data, 0);
    assert_eq!(SdBlend::Subtract { rev: false }.uniform().type_id_data, 1);
    assert_eq!(SdBlend::Subtract { rev: true }.uniform().type_id_data, 0x0101);
    assert_eq!(SdBlend::Intersect.uniform().type_id_data, 2);
    assert_eq!(SdBlend::ChamferUnion { radius: 51 }.uniform().type_id_data, 0x0033_0003);
    assert_eq!(
        SdBlend::ChamferSubtract { rev: true, radius: 0xffff }.uniform().type_id_data,
        0xffff_0104
    );
    assert_eq!(SdBlend::ChamferIntersect { radius: 1 }.uniform().type_id_data, 0x0001_0005);
    assert_eq!(SdBlend::SmoothUnion { k: 255 }.uniform().type_id_data, 0x00ff_0006);
    assert_eq!(SdBlend::SmoothSubtract { rev: false, k: 2 }.uniform().type_id_data, 0x0002_0007);
    assert_eq!(SdBlend::SmoothIntersect { k: 3 }.uniform().type_id_data, 0x0003_0008);
    assert_eq!(SdBlend::Displace { rev: true, strength: 4 }.uniform().type_id_data, 0x0004_0109);
}

#[test]
fn smooth_blend_without_parameter_differs_from_hard_blend_only_in_kind() {
    let smooth = SdBlend::SmoothUnion { k: 0 }.uniform().type_id_data;
    let hard = SdBlend::Union.uniform().type_id_data;
    assert_eq!(smooth >> 8, hard >> 8);
    let smooth = SdBlend::SmoothIntersect { k: 0 }.uniform().type_id_data;
    let hard = SdBlend::Intersect.uniform().type_id_data;
    assert_eq!(smooth >> 8, hard >> 8);
}

#[test]
fn default_blend_is_union() {
    assert_eq!(SdBlend::default(), SdBlend::Union);
    assert_eq!(SdIndex::default(), SdIndex(0));
}

#[test]
fn operator_record_has_left_operand_low() {
    let operator = SdOperator { op: SdBlend::Subtract { rev: true }, lhs: 3, rhs: 0x1234 };
    let record = operator.uniform();
    assert_eq!(record.op.type_id_data, 0x0101);
    assert_eq!(record.lhs_rhs, 0x1234_0003);
    let wide = SdOperator { op: SdBlend::Union, lhs: 0xffff, rhs: 0xffff };
    assert_eq!(wide.uniform().lhs_rhs, 0xffff_ffff);
}

#[test]
fn object_record_joins_its_four_parts() {
    let object = SdObject {
        shape: SdShape::Torus { major_radius: s(2.0), minor_radius: s(0.5) },
        material: SdMaterial::default(),
        modifier_stack: SdModStack { modifiers: vec![SdMod::SymetryZ, SdMod::CheapBend { k: s(1.0) }] },
        transform: SdTransform { pos: v3(0.0, 1.0, 0.0), rot: v3(0.0, 0.0, 0.0) },
    };
    let record = object.uniform(7, 9);
    assert_eq!(record.shape, object.shape.uniform(9));
    assert_eq!(record.shape.type_id_index_len, 0x0200_0906);
    assert_eq!(record.material, object.material.uniform());
    assert_eq!(record.modifier_stack.data_index_and_lenght, 0x0007_0002);
    assert_eq!(record.transform, object.transform.uniform());
}
