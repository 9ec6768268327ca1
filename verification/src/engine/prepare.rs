//! The scene compiler: from the forest of operators and leaves to the flat
//! arrays that the evaluator reads.
//!
//! The operators are visited deepest first. At each operator its second
//! operand is resolved, then its first. A leaf is appended to the object
//! array and takes the next object index; an operator takes the next index
//! above the object indices. The operator's record holds the two indices.
use crate::engine::buffer::{RayMarchBuffer, RayMarchBufferView};
use crate::engine::counts::{lemma_compiled_indices, lemma_compiled_sizes};
use crate::engine::hierarchy::{
    branch, is_object, is_operand_object, is_operator, leaf, well_formed, SdNode, SdNodeKind,
    SdScene,
};
use crate::engine::math::Scalar;
use crate::engine::modifier::{mod_range, SdMod, SdModUniform};
use crate::engine::object::SdObjectUniform;
use crate::engine::op::{SdBlend, SdOperator, SdOperatorUniform};
use crate::engine::traversal::{
    comes_before, handles, is_traversal_order, traversal, traversal_order,
};
use vstd::prelude::*;

verus! {

/// The most nodes that a scene may have for its indices to fit their
/// sixteen bits.
pub const MAX_NODES: usize = 0xffff;

/// What to do about a leaf that has no material.
#[derive(Clone, Copy, Debug, PartialEq, Eq, Structural)]
pub enum SdMissingData {
    /// Leave the leaf out, report it, and go on.
    SkipObject,
    /// Give the whole compilation up.
    AbortCompile,
}

/// Why a scene was not compiled.
#[derive(Clone, Copy, Debug, PartialEq, Eq, Structural)]
pub enum SdCompileError {
    /// The scene has more nodes than sixteen bits can index.
    TooManyNodes,
    /// The scene is not a forest of binary trees with every depth recorded.
    MalformedTree,
    /// The leaf `entity` has no material, and leaving it out was not allowed.
    MissingData { entity: usize },
}

/// A compiled scene, with the leaves that were left out for want of a
/// material, in the order in which they were met.
#[derive(Clone, Debug, PartialEq, Eq, Default)]
pub struct SdCompiled {
    pub buffer: RayMarchBuffer,
    pub skipped: Vec<usize>,
}

/// The state of a compilation: the arrays so far, how many operands were
/// operators, and which leaves were left out.
pub struct SdFlat {
    pub object: Seq<SdObjectUniform>,
    pub operator: Seq<SdOperatorUniform>,
    pub modifier: Seq<SdModUniform>,
    pub field_data: Seq<Scalar>,
    pub nested: nat,
    pub skipped: Seq<usize>,
}

impl SdFlat {
    /// The state before anything is compiled.
    pub open spec fn empty() -> SdFlat {
        SdFlat {
            object: Seq::empty(),
            operator: Seq::empty(),
            modifier: Seq::empty(),
            field_data: Seq::empty(),
            nested: 0,
            skipped: Seq::empty(),
        }
    }

    /// The arrays of this state.
    pub open spec fn buffer(self) -> RayMarchBufferView {
        RayMarchBufferView {
            object: self.object,
            operator: self.operator,
            modifier: self.modifier,
            field_data: self.field_data,
        }
    }
}

/// The set of the leaves that some operator combines.
pub open spec fn operand_objects(nodes: Seq<SdNode>) -> Set<int> {
    Set::new(|h: int| is_operand_object(nodes, h))
}

/// The set of the operators.
pub open spec fn operators(nodes: Seq<SdNode>) -> Set<int> {
    Set::new(|h: int| is_operator(nodes, h))
}

/// The number of leaves that some operator combines. Operator indices start
/// here.
pub open spec fn object_count(nodes: Seq<SdNode>) -> nat {
    operand_objects(nodes).len()
}

/// The number of operators.
pub open spec fn operator_count(nodes: Seq<SdNode>) -> nat {
    operators(nodes).len()
}

/// The records of a modifier stack as they stand in the modifier array: the
/// modifier that was declared last comes first.
pub open spec fn packed_modifiers(stack: Seq<SdMod>) -> Seq<SdModUniform> {
    Seq::new(stack.len(), |i: int| stack[stack.len() - 1 - i].packed())
}

/// Whether the operand `h` is a leaf that can be compiled.
pub open spec fn is_compilable(nodes: Seq<SdNode>, h: int) -> bool {
    is_object(nodes, h) && leaf(nodes, h).material is Some
}

/// The state after the leaf `h` is appended to the arrays of `flat`.
pub open spec fn with_object(nodes: Seq<SdNode>, flat: SdFlat, h: int) -> SdFlat
    recommends
        is_compilable(nodes, h),
{
    let l = leaf(nodes, h);
    SdFlat {
        object: flat.object.push(l.object().packed(flat.modifier.len(), flat.field_data.len())),
        modifier: flat.modifier + packed_modifiers(l.modifier_stack@),
        field_data: flat.field_data + l.shape.fields(),
        ..flat
    }
}

/// Resolves one operand: the state afterwards, and the index that stands
/// for the operand in the operator's record. An operator takes the next
/// index from `base` up. A leaf with a material is appended and takes the
/// next object index. Anything else is left out and stands as index zero.
pub open spec fn resolve(nodes: Seq<SdNode>, base: nat, flat: SdFlat, operand: usize) -> (
    SdFlat,
    u16,
) {
    if is_operator(nodes, operand as int) {
        (SdFlat { nested: flat.nested + 1, ..flat }, ((base + flat.nested) % 0x1_0000) as u16)
    } else if is_compilable(nodes, operand as int) {
        (with_object(nodes, flat, operand as int), (flat.object.len() % 0x1_0000) as u16)
    } else {
        (SdFlat { skipped: flat.skipped.push(operand), ..flat }, 0u16)
    }
}

/// The state after the operator `h` is compiled: its second operand is
/// resolved, then its first, and its record is appended with the second
/// operand on the left.
pub open spec fn emit(nodes: Seq<SdNode>, base: nat, flat: SdFlat, h: int) -> SdFlat
    recommends
        is_operator(nodes, h),
{
    let b = branch(nodes, h);
    let (after_lhs, lhs) = resolve(nodes, base, flat, b.operating_on.1);
    let (after_rhs, rhs) = resolve(nodes, base, after_lhs, b.operating_on.0);
    SdFlat {
        operator: after_rhs.operator.push((SdOperator { op: b.blend, lhs, rhs }).packed()),
        ..after_rhs
    }
}

/// The state after the operators of `order` are compiled one after
/// another.
pub open spec fn flatten(nodes: Seq<SdNode>, base: nat, order: Seq<int>) -> SdFlat
    decreases order.len(),
{
    if order.len() == 0 {
        SdFlat::empty()
    } else {
        emit(nodes, base, flatten(nodes, base, order.drop_last()), order.last())
    }
}

/// What a scene compiles to.
pub open spec fn compiled(nodes: Seq<SdNode>) -> SdFlat {
    flatten(nodes, object_count(nodes), traversal_order(nodes))
}

/// The compiler's working state.
struct Work {
    buffer: RayMarchBuffer,
    current_op_index: usize,
    skipped: Vec<usize>,
}

impl View for Work {
    type V = SdFlat;

    closed spec fn view(&self) -> SdFlat {
        SdFlat {
            object: self.buffer.object@,
            operator: self.buffer.operator@,
            modifier: self.buffer.modifier@,
            field_data: self.buffer.field_data@,
            nested: self.current_op_index as nat,
            skipped: self.skipped@,
        }
    }
}

/// The leaves that some operator combines, among the handles below `bound`.
spec fn operand_objects_below(nodes: Seq<SdNode>, bound: int) -> Set<int> {
    Set::new(|h: int| h < bound && is_operand_object(nodes, h))
}

/// Counts the leaves that some operator combines.
fn count_operand_objects(scene: &SdScene) -> (count: usize)
    ensures
        count == object_count(scene@),
        count <= scene@.len(),
{
    let mut count: usize = 0;
    let mut h: usize = 0;
    proof {
        assert(operand_objects_below(scene@, 0) =~= Set::<int>::empty());
    }
    while h < scene.nodes.len()
        invariant
            h <= scene@.len(),
            count <= h,
            operand_objects_below(scene@, h as int).finite(),
            count == operand_objects_below(scene@, h as int).len(),
        decreases scene@.len() - h,
    {
        let counts: bool = match &scene.nodes[h].kind {
            SdNodeKind::Object(_) => scene.nodes[h].operated_by.is_some(),
            SdNodeKind::Operator(_) => false,
        };
        proof {
            let before = operand_objects_below(scene@, h as int);
            let after = operand_objects_below(scene@, h + 1);
            if counts {
                assert(after =~= before.insert(h as int));
            } else {
                assert(after =~= before);
            }
        }
        if counts {
            count += 1;
        }
        h += 1;
    }
    proof {
        assert(operand_objects_below(scene@, scene@.len() as int) =~= operand_objects(scene@));
    }
    count
}

/// Appends the records of a modifier stack to the modifier array, the
/// modifier that was declared last first.
fn push_modifiers(modifier: &mut Vec<SdModUniform>, stack: &Vec<SdMod>)
    ensures
        final(modifier)@ == old(modifier)@ + packed_modifiers(stack@),
{
    let n: usize = stack.len();
    let mut i: usize = 0;
    while i < n
        invariant
            i <= n,
            n == stack@.len(),
            modifier@ == old(modifier)@ + packed_modifiers(stack@).take(i as int),
        decreases n - i,
    {
        modifier.push(stack[n - 1 - i].uniform());
        proof {
            assert(packed_modifiers(stack@).take(i + 1) =~= packed_modifiers(stack@).take(
                i as int,
            ).push(packed_modifiers(stack@)[i as int]));
        }
        i += 1;
    }
    proof {
        assert(packed_modifiers(stack@).take(n as int) =~= packed_modifiers(stack@));
    }
}

/// Appends words to the payload buffer.
fn push_fields(field_data: &mut Vec<Scalar>, words: &Vec<Scalar>)
    ensures
        final(field_data)@ == old(field_data)@ + words@,
{
    let n: usize = words.len();
    let mut i: usize = 0;
    while i < n
        invariant
            i <= n,
            n == words@.len(),
            field_data@ == old(field_data)@ + words@.take(i as int),
        decreases n - i,
    {
        field_data.push(words[i]);
        proof {
            assert(words@.take(i + 1) =~= words@.take(i as int).push(words@[i as int]));
        }
        i += 1;
    }
    proof {
        assert(words@.take(n as int) =~= words@);
    }
}

/// Appends a leaf that has a material to the arrays.
fn push_object(scene: &SdScene, work: &mut Work, entity: usize)
    requires
        is_compilable(scene@, entity as int),
    ensures
        final(work)@ == with_object(scene@, old(work)@, entity as int),
{
    match &scene.nodes[entity].kind {
        SdNodeKind::Object(l) => {
            match l.material {
                Some(material) => {
                    let start_mod_index: usize = work.buffer.modifier.len();
                    let start_shape_index: usize = work.buffer.field_data.len();
                    push_modifiers(&mut work.buffer.modifier, &l.modifier_stack.modifiers);
                    let words: Vec<Scalar> = l.shape.flatten_fields();
                    push_fields(&mut work.buffer.field_data, &words);
                    work.buffer.object.push(
                        SdObjectUniform {
                            shape: l.shape.uniform(start_shape_index),
                            material: material.uniform(),
                            modifier_stack: mod_range(
                                l.modifier_stack.modifiers.len(),
                                start_mod_index,
                            ),
                            transform: l.transform.uniform(),
                        },
                    );
                },
                None => {},
            }
        },
        SdNodeKind::Operator(_) => {},
    }
}

/// Resolves one operand of an operator to its index.
fn compute_index(scene: &SdScene, nb_shapes: usize, work: &mut Work, patient: usize) -> (index:
    u16)
    requires
        nb_shapes <= MAX_NODES,
        old(work)@.nested < 2 * MAX_NODES,
    ensures
        (final(work)@, index) == resolve(scene@, nb_shapes as nat, old(work)@, patient),
        final(work)@.nested <= old(work)@.nested + 1,
{
    if scene.is_op(patient) {
        let index: usize = (nb_shapes + work.current_op_index) % 0x1_0000;
        work.current_op_index += 1;
        index as u16
    } else if has_material(scene, patient) {
        let index: usize = work.buffer.object.len() % 0x1_0000;
        push_object(scene, work, patient);
        index as u16
    } else {
        work.skipped.push(patient);
        0
    }
}

/// Whether `h` is a leaf with a material.
fn has_material(scene: &SdScene, h: usize) -> (r: bool)
    ensures
        r == is_compilable(scene@, h as int),
{
    if h < scene.nodes.len() {
        match &scene.nodes[h].kind {
            SdNodeKind::Object(l) => l.material.is_some(),
            SdNodeKind::Operator(_) => false,
        }
    } else {
        false
    }
}

/// Compiles a scene into the arrays that the evaluator reads.
///
/// A scene with more than `MAX_NODES` nodes, or one that is not well formed,
/// is refused. A leaf without a material is left out and reported, or, where
/// `policy` does not allow that, the first such leaf in the order of the
/// traversal is the error.
pub fn prepare_raymarch_buffer(scene: &SdScene, policy: SdMissingData) -> (result: Result<
    SdCompiled,
    SdCompileError,
>)
    ensures
        match result {
            Ok(done) => {
                &&& scene@.len() <= MAX_NODES
                &&& well_formed(scene@)
                &&& done.buffer@ == compiled(scene@).buffer()
                &&& done.skipped@ == compiled(scene@).skipped
                &&& policy == SdMissingData::AbortCompile ==> done.skipped@.len() == 0
                &&& done.buffer.operator@.len() == operator_count(scene@)
                &&& done.buffer.object@.len() + done.skipped@.len() == object_count(scene@)
                &&& forall|k: int|
                    0 <= k < done.buffer.operator@.len() ==> {
                        &&& 0 <= (#[trigger] done.buffer.operator@[k]).lhs() < object_count(scene@)
                            + operator_count(scene@)
                        &&& 0 <= done.buffer.operator@[k].rhs() < object_count(scene@)
                            + operator_count(scene@)
                    }
            },
            Err(SdCompileError::TooManyNodes) => scene@.len() > MAX_NODES,
            Err(SdCompileError::MalformedTree) => scene@.len() <= MAX_NODES && !well_formed(
                scene@,
            ),
            Err(SdCompileError::MissingData { entity }) => {
                &&& scene@.len() <= MAX_NODES
                &&& well_formed(scene@)
                &&& policy == SdMissingData::AbortCompile
                &&& compiled(scene@).skipped.len() > 0
                &&& entity == compiled(scene@).skipped[0]
            },
        },
{
    if scene.nodes.len() > MAX_NODES {
        return Err(SdCompileError::TooManyNodes);
    }
    if !scene.is_well_formed() {
        return Err(SdCompileError::MalformedTree);
    }
    let nb_shapes: usize = count_operand_objects(scene);
    let order: Vec<usize> = traversal(scene);
    let mut work: Work = Work {
        buffer: RayMarchBuffer {
            object: Vec::new(),
            operator: Vec::new(),
            modifier: Vec::new(),
            field_data: Vec::new(),
        },
        current_op_index: 0,
        skipped: Vec::new(),
    };
    let ghost full = handles(order@);
    proof {
        assert(full.len() <= scene@.len()) by {
            lemma_order_fits(scene@, full);
        }
        assert(full.take(0) =~= Seq::<int>::empty());
    }
    let mut i: usize = 0;
    while i < order.len()
        invariant
            i <= order@.len(),
            full == handles(order@),
            order@.len() <= MAX_NODES,
            nb_shapes <= MAX_NODES,
            forall|k: int| 0 <= k < full.len() ==> is_operator(scene@, #[trigger] full[k]),
            work@.nested <= 2 * i,
            work@ == flatten(scene@, nb_shapes as nat, full.take(i as int)),
        decreases order@.len() - i,
    {
        let h: usize = order[i];
        assert(full[i as int] == h);
        assert(is_operator(scene@, h as int));
        let found: Option<(usize, usize, SdBlend)> = match &scene.nodes[h].kind {
            SdNodeKind::Operator(b) => {
                let args: (usize, usize) = b.operating_on.get_sd_argunments();
                Some((args.0, args.1, b.blend))
            },
            SdNodeKind::Object(_) => None,
        };
        match found {
            Some((first, second, op)) => {
                let lhs: u16 = compute_index(scene, nb_shapes, &mut work, second);
                let rhs: u16 = compute_index(scene, nb_shapes, &mut work, first);
                work.buffer.operator.push((SdOperator { op, lhs, rhs }).uniform());
            },
            None => {},
        }
        proof {
            assert(full.take(i + 1).drop_last() =~= full.take(i as int));
            assert(full.take(i + 1).last() == h);
        }
        i += 1;
    }
    proof {
        assert(full.take(order@.len() as int) =~= full);
    }
    proof {
        lemma_compiled_sizes(scene@);
        assert forall|k: int| 0 <= k < work.buffer.operator@.len() implies {
            &&& 0 <= (#[trigger] work.buffer.operator@[k]).lhs() < object_count(scene@)
                + operator_count(scene@)
            &&& 0 <= work.buffer.operator@[k].rhs() < object_count(scene@) + operator_count(
                scene@,
            )
        } by {
            lemma_compiled_indices(scene@, k);
        }
    }
    if work.skipped.len() > 0 {
        match policy {
            SdMissingData::AbortCompile => {
                return Err(SdCompileError::MissingData { entity: work.skipped[0] });
            },
            SdMissingData::SkipObject => {},
        }
    }
    Ok(SdCompiled { buffer: work.buffer, skipped: work.skipped })
}

/// A list of different handles of nodes is no longer than the scene.
proof fn lemma_order_fits(nodes: Seq<SdNode>, order: Seq<int>)
    requires
        is_traversal_order(nodes, order),
    ensures
        order.len() <= nodes.len(),
{
    assert(order.no_duplicates()) by {
        assert forall|i: int, j: int|
            0 <= i < order.len() && 0 <= j < order.len() && i != j implies order[i]
            != order[j] by {
            if i < j {
                assert(comes_before(nodes, order[i], order[j]));
            } else {
                assert(comes_before(nodes, order[j], order[i]));
            }
        }
    }
    let range = vstd::set_lib::set_int_range(0, nodes.len() as int);
    assert forall|x: int| order.to_set().contains(x) implies range.contains(x) by {
        let i = choose|i: int| 0 <= i < order.len() && order[i] == x;
        assert(is_operator(nodes, order[i]));
    }
    order.unique_seq_to_set();
    vstd::set_lib::lemma_int_range(0, nodes.len() as int);
    vstd::set_lib::lemma_len_subset(order.to_set(), range);
}

} // verus!
