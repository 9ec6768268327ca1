use bevy_sdf_klown::engine::hierarchy::{
    SdBranch, SdLeaf, SdNode, SdNodeKind, SdOperatedBy, SdOperatingOn, SdScene,
};
use bevy_sdf_klown::engine::math::{Scalar, Vec3};
use bevy_sdf_klown::engine::modifier::{SdMod, SdModStack};
use bevy_sdf_klown::engine::object::{SdMaterial, SdTransform};
use bevy_sdf_klown::engine::op::{SdBlend, SdIndex};
use bevy_sdf_klown::engine::prepare::{
    prepare_raymarch_buffer, SdCompileError, SdCompiled, SdMissingData, MAX_NODES,
};
use bevy_sdf_klown::engine::shape::SdShape;
use bevy_sdf_klown::engine::traversal::traversal;

fn s(x: f32) -> Scalar {
    Scalar::from_bits(x.to_bits())
}

fn v3(x: f32, y: f32, z: f32) -> Vec3 {
    Vec3 { x: s(x), y: s(y), z: s(z) }
}

fn leaf(shape: SdShape, mods: Vec<SdMod>, material: bool, parent: Option<usize>) -> SdNode {
    SdNode {
        kind: SdNodeKind::Object(SdLeaf {
            shape,
            modifier_stack: SdModStack { modifiers: mods },
            transform: SdTransform { pos: v3(0.0, 0.0, 0.0), rot: v3(0.0, 0.0, 0.0) },
            material: if material { Some(SdMaterial::default()) } else { None },
        }),
        operated_by: parent.map(SdOperatedBy),
    }
}

fn sphere(parent: Option<usize>) -> SdNode {
    leaf(SdShape::Sphere { radius: s(1.0) }, vec![], true, parent)
}

fn op(blend: SdBlend, parent: Option<usize>, depth: u32, first: usize, second: usize) -> SdNode {
    SdNode {
        kind: SdNodeKind::Operator(SdBranch {
            blend,
            index: SdIndex(depth),
            operating_on: SdOperatingOn(first, second),
        }),
        operated_by: parent.map(SdOperatedBy),
    }
}

fn compile(scene: &SdScene) -> SdCompiled {
    prepare_raymarch_buffer(scene, SdMissingData::AbortCompile).unwrap()
}

fn operands(done: &SdCompiled) -> Vec<(u32, u32)> {
    done.buffer.operator.iter().map(|r| (r.lhs_rhs & 0xffff, r.lhs_rhs >> 16)).collect()
}

/// SmoothUnion(0) over [BoxFrame(1), ChamferIntersect(2) over [RoundedCylinder(3), Gyroid(4)]]
fn garden() -> SdScene {
    SdScene {
        nodes: vec![
            op(SdBlend::SmoothUnion { k: 255 }, None, 0, 1, 2),
            leaf(SdShape::BoxFrame { bounds: v3(3.0, 3.0, 3.0), edge: s(0.5) }, vec![], true, Some(0)),
            op(SdBlend::ChamferIntersect { radius: 51 }, Some(0), 1, 3, 4),
            leaf(
                SdShape::RoundedCylinder { height: s(2.0), radius: s(2.0), edge_radius: s(1.0) },
                vec![
                    SdMod::Elongate { h: v3(3.0, 0.0, 3.0) },
                    SdMod::InfArray { c: v3(5.0, 10000.0, 5.0) },
                ],
                true,
                Some(2),
            ),
            leaf(SdShape::Gyroid { height: s(2.5) }, vec![], true, Some(2)),
        ],
    }
}

#[test]
fn empty_scene_compiles_to_nothing() {
    let done = compile(&SdScene::new());
    assert_eq!(done, SdCompiled::default());
}

#[test]
fn lone_leaf_is_never_compiled() {
    let done = compile(&SdScene { nodes: vec![sphere(None)] });
    assert_eq!(done, SdCompiled::default());
}

#[test]
fn garden_compiles_deepest_operator_first() {
    let done = compile(&garden());
    assert_eq!(done.skipped, Vec::<usize>::new());
    assert_eq!(done.buffer.object.len(), 3);
    assert_eq!(done.buffer.operator.len(), 2);
    assert_eq!(done.buffer.operator[0].op.type_id_data, 0x0033_0005);
    assert_eq!(done.buffer.operator[0].lhs_rhs, 0x0001_0000);
    assert_eq!(done.buffer.operator[1].op.type_id_data, 0x00ff_0006);
    assert_eq!(done.buffer.operator[1].lhs_rhs, 0x0002_0003);
}

#[test]
fn garden_objects_stand_in_the_order_met() {
    let done = compile(&garden());
    let words: Vec<u32> = done.buffer.object.iter().map(|o| o.shape.type_id_index_len).collect();
    assert_eq!(words, vec![0x0100_0005, 0x0300_010d, 0x0400_0404]);
    let ranges: Vec<u32> =
        done.buffer.object.iter().map(|o| o.modifier_stack.data_index_and_lenght).collect();
    assert_eq!(ranges, vec![0x0000_0000, 0x0000_0002, 0x0002_0000]);
    assert_eq!(
        done.buffer.field_data,
        vec![s(2.5), s(2.0), s(2.0), s(1.0), s(3.0), s(3.0), s(3.0), s(0.5)]
    );
    for o in &done.buffer.object {
        assert_eq!(o.material, SdMaterial::default().uniform());
    }
}

#[test]
fn modifiers_stand_last_declared_first() {
    let done = compile(&garden());
    assert_eq!(
        done.buffer.modifier,
        vec![
            SdMod::InfArray { c: v3(5.0, 10000.0, 5.0) }.uniform(),
            SdMod::Elongate { h: v3(3.0, 0.0, 3.0) }.uniform(),
        ]
    );
}

#[test]
fn three_modifiers_are_reversed_within_their_range() {
    let a = SdMod::Twist { k: s(1.0) };
    let b = SdMod::SymetryX;
    let c = SdMod::Translate { t: v3(1.0, 2.0, 3.0) };
    let scene = SdScene {
        nodes: vec![
            op(SdBlend::Union, None, 0, 1, 2),
            leaf(SdShape::Sphere { radius: s(1.0) }, vec![a, b, c], true, Some(0)),
            leaf(SdShape::Sphere { radius: s(2.0) }, vec![b, a], true, Some(0)),
        ],
    };
    let done = compile(&scene);
    assert_eq!(
        done.buffer.modifier,
        vec![a.uniform(), b.uniform(), c.uniform(), b.uniform(), a.uniform()]
    );
    assert_eq!(done.buffer.object[0].modifier_stack.data_index_and_lenght, 0x0000_0002);
    assert_eq!(done.buffer.object[1].modifier_stack.data_index_and_lenght, 0x0002_0003);
    let start = (done.buffer.object[1].modifier_stack.data_index_and_lenght >> 16) as usize;
    assert_eq!(done.buffer.modifier[start], c.uniform());
    assert_eq!(done.buffer.modifier[start + 1], b.uniform());
    assert_eq!(done.buffer.modifier[start + 2], a.uniform());
}

#[test]
fn second_operand_is_resolved_first_and_stands_left() {
    let scene = SdScene {
        nodes: vec![
            op(SdBlend::Subtract { rev: false }, None, 0, 1, 2),
            leaf(SdShape::Box { bounds: v3(1.0, 1.0, 1.0) }, vec![], true, Some(0)),
            leaf(SdShape::Sphere { radius: s(0.5) }, vec![], true, Some(0)),
        ],
    };
    let done = compile(&scene);
    assert_eq!(operands(&done), vec![(0, 1)]);
    assert_eq!(done.buffer.object[0].shape.type_id_index_len & 0xff, 0);
    assert_eq!(done.buffer.object[1].shape.type_id_index_len & 0xff, 2);
    assert_eq!(done.buffer.field_data, vec![s(0.5), s(1.0), s(1.0), s(1.0)]);
}

#[test]
fn operators_are_visited_by_depth_whatever_their_place() {
    // The deepest operator stands first in the arena, the root last.
    let scene = SdScene {
        nodes: vec![
            op(SdBlend::Intersect, Some(3), 2, 1, 2),
            sphere(Some(0)),
            sphere(Some(0)),
            op(SdBlend::Subtract { rev: true }, Some(5), 1, 0, 4),
            sphere(Some(3)),
            op(SdBlend::Union, None, 0, 3, 6),
            sphere(Some(5)),
        ],
    };
    assert_eq!(traversal(&scene), vec![0, 3, 5]);
    let done = compile(&scene);
    let kinds: Vec<u32> = done.buffer.operator.iter().map(|r| r.op.type_id_data).collect();
    assert_eq!(kinds, vec![2, 0x0101, 0]);
    assert_eq!(operands(&done), vec![(0, 1), (2, 4), (3, 5)]);
}

#[test]
fn operators_of_one_depth_are_visited_greater_handle_first() {
    let scene = SdScene {
        nodes: vec![
            op(SdBlend::Union, None, 0, 1, 4),
            op(SdBlend::Intersect, Some(0), 1, 2, 3),
            sphere(Some(1)),
            sphere(Some(1)),
            op(SdBlend::Subtract { rev: false }, Some(0), 1, 5, 6),
            sphere(Some(4)),
            sphere(Some(4)),
        ],
    };
    assert_eq!(traversal(&scene), vec![4, 1, 0]);
    let done = compile(&scene);
    let kinds: Vec<u32> = done.buffer.operator.iter().map(|r| r.op.type_id_data).collect();
    assert_eq!(kinds, vec![1, 2, 0]);
    assert_eq!(operands(&done), vec![(0, 1), (2, 3), (4, 5)]);
}

#[test]
fn counts_are_those_of_the_operands_and_the_roots() {
    let scene = SdScene {
        nodes: vec![
            op(SdBlend::Union, None, 0, 1, 4),
            op(SdBlend::Intersect, Some(0), 1, 2, 3),
            sphere(Some(1)),
            sphere(Some(1)),
            op(SdBlend::Union, Some(0), 1, 5, 6),
            sphere(Some(4)),
            sphere(Some(4)),
            sphere(None),
            op(SdBlend::Union, None, 0, 9, 10),
            sphere(Some(8)),
            sphere(Some(8)),
        ],
    };
    let done = compile(&scene);
    let operands = scene.nodes.iter().filter(|n| n.operated_by.is_some()).count();
    let roots = scene
        .nodes
        .iter()
        .filter(|n| matches!(n.kind, SdNodeKind::Operator(_)) && n.operated_by.is_none())
        .count();
    assert_eq!(done.buffer.object.len(), 6);
    assert_eq!(done.buffer.operator.len(), 4);
    assert_eq!(done.buffer.object.len() + done.buffer.operator.len(), operands + roots);
}

#[test]
fn every_index_is_in_range() {
    let scene = SdScene {
        nodes: vec![
            op(SdBlend::Union, None, 0, 1, 4),
            op(SdBlend::Intersect, Some(0), 1, 2, 3),
            sphere(Some(1)),
            sphere(Some(1)),
            op(SdBlend::Union, Some(0), 1, 5, 6),
            sphere(Some(4)),
            op(SdBlend::Union, Some(4), 2, 7, 8),
            sphere(Some(6)),
            sphere(Some(6)),
        ],
    };
    let done = compile(&scene);
    let objects = done.buffer.object.len() as u32;
    let operators = done.buffer.operator.len() as u32;
    assert_eq!((objects, operators), (5, 4));
    for (lhs, rhs) in operands(&done) {
        assert!(lhs < objects + operators);
        assert!(rhs < objects + operators);
    }
    let nested = operands(&done).iter().flat_map(|p| [p.0, p.1]).filter(|i| *i >= objects).count();
    assert_eq!(nested, 3);
}

#[test]
fn leaf_without_material_aborts_the_compilation() {
    let mut scene = garden();
    scene.nodes[4] = leaf(SdShape::Gyroid { height: s(2.5) }, vec![], false, Some(2));
    assert_eq!(
        prepare_raymarch_buffer(&scene, SdMissingData::AbortCompile),
        Err(SdCompileError::MissingData { entity: 4 })
    );
}

#[test]
fn first_leaf_without_material_is_the_one_reported() {
    let mut scene = garden();
    scene.nodes[1] =
        leaf(SdShape::BoxFrame { bounds: v3(3.0, 3.0, 3.0), edge: s(0.5) }, vec![], false, Some(0));
    scene.nodes[3] = leaf(SdShape::Sphere { radius: s(1.0) }, vec![], false, Some(2));
    assert_eq!(
        prepare_raymarch_buffer(&scene, SdMissingData::AbortCompile),
        Err(SdCompileError::MissingData { entity: 3 })
    );
}

#[test]
fn leaf_without_material_can_be_left_out() {
    let mut scene = garden();
    scene.nodes[4] = leaf(SdShape::Gyroid { height: s(2.5) }, vec![], false, Some(2));
    let done = prepare_raymarch_buffer(&scene, SdMissingData::SkipObject).unwrap();
    assert_eq!(done.skipped, vec![4]);
    assert_eq!(done.buffer.object.len(), 2);
    assert_eq!(done.buffer.operator.len(), 2);
    // The leaf that was left out stands as index zero; operator indices
    // still start at the number of leaves that some operator combines.
    assert_eq!(operands(&done), vec![(0, 0), (3, 1)]);
    assert_eq!(done.buffer.field_data, vec![s(2.0), s(2.0), s(1.0), s(3.0), s(3.0), s(3.0), s(0.5)]);
}

#[test]
fn skipping_changes_nothing_when_no_material_is_missing() {
    let skip = prepare_raymarch_buffer(&garden(), SdMissingData::SkipObject).unwrap();
    assert_eq!(skip, compile(&garden()));
}

#[test]
fn malformed_tree_is_refused() {
    let mut scene = garden();
    scene.nodes[3].operated_by = None;
    assert_eq!(
        prepare_raymarch_buffer(&scene, SdMissingData::SkipObject),
        Err(SdCompileError::MalformedTree)
    );
    let mut scene = garden();
    scene.nodes[2] = op(SdBlend::ChamferIntersect { radius: 51 }, Some(0), 0, 3, 4);
    assert_eq!(
        prepare_raymarch_buffer(&scene, SdMissingData::AbortCompile),
        Err(SdCompileError::MalformedTree)
    );
}

#[test]
fn scene_beyond_the_index_space_is_refused() {
    let mut scene = SdScene::new();
    for _ in 0..(MAX_NODES + 1) {
        scene.nodes.push(sphere(None));
    }
    assert_eq!(
        prepare_raymarch_buffer(&scene, SdMissingData::SkipObject),
        Err(SdCompileError::TooManyNodes)
    );
    scene.nodes.pop();
    assert_eq!(compile(&scene), SdCompiled::default());
}

#[test]
fn compilation_is_repeatable() {
    assert_eq!(compile(&garden()), compile(&garden()));
}
