use bevy_sdf_klown::engine::hierarchy::{
    detect_op, InitSkeinSdRelationShip, SdBranch, SdContainer, SdLeaf, SdNode, SdNodeKind,
    SdOperatedBy, SdOperatingOn, SdScene,
};
use bevy_sdf_klown::engine::math::{Scalar, Vec3};
use bevy_sdf_klown::engine::modifier::SdModStack;
use bevy_sdf_klown::engine::object::{SdMaterial, SdTransform};
use bevy_sdf_klown::engine::op::{SdBlend, SdIndex};
use bevy_sdf_klown::engine::shape::SdShape;

fn sphere(parent: Option<usize>) -> SdNode {
    let zero = Scalar::from_bits(0);
    SdNode {
        kind: SdNodeKind::Object(SdLeaf {
            shape: SdShape::Sphere { radius: Scalar::from_bits(1.0f32.to_bits()) },
            modifier_stack: SdModStack::default(),
            transform: SdTransform {
                pos: Vec3 { x: zero, y: zero, z: zero },
                rot: Vec3 { x: zero, y: zero, z: zero },
            },
            material: Some(SdMaterial::default()),
        }),
        operated_by: parent.map(SdOperatedBy),
    }
}

fn union(parent: Option<usize>, depth: u32, first: usize, second: usize) -> SdNode {
    SdNode {
        kind: SdNodeKind::Operator(SdBranch {
            blend: SdBlend::Union,
            index: SdIndex(depth),
            operating_on: SdOperatingOn(first, second),
        }),
        operated_by: parent.map(SdOperatedBy),
    }
}

fn depth_of(scene: &SdScene, h: usize) -> u32 {
    match &scene.nodes[h].kind {
        SdNodeKind::Operator(b) => b.index.0,
        SdNodeKind::Object(_) => panic!("no depth on a leaf"),
    }
}

/// root(0) over [op(1) over [leaf 2, leaf 3], op(4) over [leaf 5, op(6) over [leaf 7, leaf 8]]]
fn three_levels() -> SdScene {
    SdScene {
        nodes: vec![
            union(None, 0, 1, 4),
            union(Some(0), 1, 2, 3),
            sphere(Some(1)),
            sphere(Some(1)),
            union(Some(0), 1, 5, 6),
            sphere(Some(4)),
            union(Some(4), 2, 7, 8),
            sphere(Some(6)),
            sphere(Some(6)),
        ],
    }
}

#[test]
fn operands_come_back_in_the_order_given() {
    assert_eq!(SdOperatingOn(3, 9).get_sd_argunments(), (3, 9));
    assert_eq!(SdOperatingOn(9, 3).get_sd_argunments(), (9, 3));
}

#[test]
fn operator_is_the_parent_if_that_is_one() {
    let parent = Some(SdContainer { entity: 4, is_operator: true });
    let grand = Some(SdContainer { entity: 9, is_operator: true });
    assert_eq!(detect_op(parent, grand), Some(SdOperatedBy(4)));
    assert_eq!(detect_op(parent, None), Some(SdOperatedBy(4)));
}

#[test]
fn operator_is_the_grand_parent_if_the_parent_is_none() {
    let parent = Some(SdContainer { entity: 4, is_operator: false });
    let grand = Some(SdContainer { entity: 9, is_operator: true });
    assert_eq!(detect_op(parent, grand), Some(SdOperatedBy(9)));
}

#[test]
fn no_operator_without_one_two_levels_up() {
    let parent = Some(SdContainer { entity: 4, is_operator: false });
    let grand = Some(SdContainer { entity: 9, is_operator: false });
    assert_eq!(detect_op(parent, grand), None);
    assert_eq!(detect_op(parent, None), None);
    assert_eq!(detect_op(None, None), None);
    assert_eq!(detect_op(None, Some(SdContainer { entity: 9, is_operator: true })), None);
}

#[test]
fn marker_is_a_plain_value() {
    assert_eq!(InitSkeinSdRelationShip, InitSkeinSdRelationShip);
}

#[test]
fn empty_scene_is_well_formed() {
    assert!(SdScene::new().is_well_formed());
    assert_eq!(SdScene::new().nodes.len(), 0);
}

#[test]
fn forest_with_depths_is_well_formed() {
    assert!(three_levels().is_well_formed());
}

#[test]
fn lone_leaf_is_well_formed() {
    let scene = SdScene { nodes: vec![sphere(None)] };
    assert!(scene.is_well_formed());
}

#[test]
fn two_trees_are_well_formed() {
    let scene = SdScene {
        nodes: vec![
            union(None, 0, 1, 2),
            sphere(Some(0)),
            sphere(Some(0)),
            union(None, 0, 4, 5),
            sphere(Some(3)),
            sphere(Some(3)),
        ],
    };
    assert!(scene.is_well_formed());
}

#[test]
fn operand_that_does_not_name_its_operator_is_refused() {
    let mut scene = three_levels();
    scene.nodes[2] = sphere(None);
    assert!(!scene.is_well_formed());
    let mut scene = three_levels();
    scene.nodes[2] = sphere(Some(4));
    assert!(!scene.is_well_formed());
}

#[test]
fn third_operand_is_refused() {
    let mut scene = three_levels();
    scene.nodes.push(sphere(Some(1)));
    assert!(!scene.is_well_formed());
}

#[test]
fn operator_with_one_node_as_both_operands_is_refused() {
    let scene = SdScene { nodes: vec![union(None, 0, 1, 1), sphere(Some(0))] };
    assert!(!scene.is_well_formed());
}

#[test]
fn operand_outside_the_scene_is_refused() {
    let scene = SdScene { nodes: vec![union(None, 0, 1, 7), sphere(Some(0))] };
    assert!(!scene.is_well_formed());
}

#[test]
fn leaf_as_operator_is_refused() {
    let scene = SdScene { nodes: vec![sphere(None), sphere(Some(0))] };
    assert!(!scene.is_well_formed());
}

#[test]
fn wrong_depth_is_refused() {
    let mut scene = three_levels();
    scene.nodes[6] = union(Some(4), 1, 7, 8);
    assert!(!scene.is_well_formed());
    let mut scene = three_levels();
    scene.nodes[0] = union(None, 1, 1, 4);
    assert!(!scene.is_well_formed());
}

#[test]
fn cycle_is_refused() {
    let scene = SdScene {
        nodes: vec![union(Some(1), 1, 1, 2), union(Some(0), 0, 0, 3), sphere(Some(0)), sphere(Some(1))],
    };
    assert!(!scene.is_well_formed());
}

#[test]
fn depth_is_the_number_of_operators_above() {
    let mut scene = three_levels();
    for h in [0usize, 1, 4, 6] {
        scene.set_index(h, 99);
    }
    assert_eq!(scene.update_sd_index(0), Some(0));
    assert_eq!(scene.update_sd_index(1), Some(1));
    assert_eq!(scene.update_sd_index(4), Some(1));
    assert_eq!(scene.update_sd_index(6), Some(2));
    assert_eq!(depth_of(&scene, 0), 0);
    assert_eq!(depth_of(&scene, 1), 1);
    assert_eq!(depth_of(&scene, 4), 1);
    assert_eq!(depth_of(&scene, 6), 2);
    assert!(scene.is_well_formed());
}

#[test]
fn depth_of_a_child_is_one_more_than_of_its_parent() {
    let mut scene = three_levels();
    for h in 0..scene.nodes.len() {
        let depth = scene.update_sd_index(h).unwrap();
        match scene.parent_of(h) {
            Some(p) => assert_eq!(depth, scene.update_sd_index(p).unwrap() + 1),
            None => assert_eq!(depth, 0),
        }
    }
}

#[test]
fn depth_of_a_leaf_is_counted_but_not_recorded() {
    let mut scene = three_levels();
    let before = scene.clone();
    assert_eq!(scene.update_sd_index(8), Some(3));
    assert_eq!(scene.update_sd_index(2), Some(2));
    assert_eq!(scene, before);
}

#[test]
fn depth_of_a_node_outside_the_scene_is_zero() {
    let mut scene = three_levels();
    let before = scene.clone();
    assert_eq!(scene.update_sd_index(100), Some(0));
    assert_eq!(scene, before);
}

#[test]
fn no_depth_on_a_cycle() {
    let mut scene = SdScene {
        nodes: vec![union(Some(1), 7, 1, 2), union(Some(0), 7, 0, 3), sphere(Some(0)), sphere(Some(1))],
    };
    let before = scene.clone();
    assert_eq!(scene.update_sd_index(0), None);
    assert_eq!(scene.update_sd_index(2), None);
    assert_eq!(scene, before);
}

#[test]
fn set_index_changes_one_operator_only() {
    let mut scene = three_levels();
    scene.set_index(4, 5);
    assert_eq!(depth_of(&scene, 4), 5);
    let mut expected = three_levels();
    expected.nodes[4] = union(Some(0), 5, 5, 6);
    assert_eq!(scene, expected);
}

#[test]
fn set_index_leaves_a_leaf_alone() {
    let mut scene = three_levels();
    scene.set_index(2, 5);
    scene.set_index(100, 5);
    assert_eq!(scene, three_levels());
}

#[test]
fn all_depths_can_be_recorded_at_once() {
    let mut scene = three_levels();
    for h in [0usize, 1, 4, 6] {
        scene.set_index(h, 99);
    }
    assert!(!scene.is_well_formed());
    assert!(scene.update_indices());
    assert_eq!(scene, three_levels());
    assert!(scene.is_well_formed());
}

#[test]
fn depths_are_not_recorded_past_a_cycle() {
    let mut scene = SdScene {
        nodes: vec![
            union(None, 9, 1, 2),
            sphere(Some(0)),
            sphere(Some(0)),
            union(Some(4), 9, 4, 5),
            union(Some(3), 9, 3, 6),
            sphere(Some(3)),
            sphere(Some(4)),
        ],
    };
    assert!(!scene.update_indices());
    assert_eq!(depth_of(&scene, 0), 0);
    assert_eq!(depth_of(&scene, 3), 9);
    assert_eq!(depth_of(&scene, 4), 9);
}

#[test]
fn parent_and_kind_can_be_asked() {
    let scene = three_levels();
    assert_eq!(scene.parent_of(0), None);
    assert_eq!(scene.parent_of(6), Some(4));
    assert_eq!(scene.parent_of(100), None);
    assert!(scene.is_op(0));
    assert!(!scene.is_op(2));
    assert!(!scene.is_op(100));
}
