//! Where the records of each leaf stand in the compiled arrays.
//!
//! The object array, the modifier array and the payload buffer depend only
//! on which leaves are compiled and in which order. The records of one leaf
//! stand together, those of a leaf that is compiled later after them.
use crate::engine::hierarchy::{branch, is_operator, leaf, SdNode};
use crate::engine::math::Scalar;
use crate::engine::modifier::SdModUniform;
use crate::engine::object::SdObjectUniform;
use crate::engine::pack::{lemma_bytes_round_trip, lemma_halves_round_trip};
use crate::engine::prepare::{
    compiled, flatten, is_compilable, object_count, packed_modifiers, resolve, SdFlat,
};
use crate::engine::traversal::traversal_order;
use vstd::prelude::*;

verus! {

/// The list `leaves` with the operand `c` appended if `c` is compiled as a
/// leaf.
pub open spec fn with_compiled(nodes: Seq<SdNode>, leaves: Seq<int>, c: int) -> Seq<int> {
    if !is_operator(nodes, c) && is_compilable(nodes, c) {
        leaves.push(c)
    } else {
        leaves
    }
}

/// The leaves that are compiled along `order`, in the order in which they
/// are met: at each operator its second operand, then its first.
pub open spec fn compiled_leaves(nodes: Seq<SdNode>, order: Seq<int>) -> Seq<int>
    decreases order.len(),
{
    if order.len() == 0 {
        Seq::empty()
    } else {
        let b = branch(nodes, order.last());
        with_compiled(
            nodes,
            with_compiled(
                nodes,
                compiled_leaves(nodes, order.drop_last()),
                b.operating_on.1 as int,
            ),
            b.operating_on.0 as int,
        )
    }
}

/// The modifier array for `leaves`: the reversed stack of each, one after
/// another.
pub open spec fn modifiers_of(nodes: Seq<SdNode>, leaves: Seq<int>) -> Seq<SdModUniform>
    decreases leaves.len(),
{
    if leaves.len() == 0 {
        Seq::empty()
    } else {
        modifiers_of(nodes, leaves.drop_last()) + packed_modifiers(
            leaf(nodes, leaves.last()).modifier_stack@,
        )
    }
}

/// The payload buffer for `leaves`: the shape parameters of each, one after
/// another.
pub open spec fn fields_of(nodes: Seq<SdNode>, leaves: Seq<int>) -> Seq<Scalar>
    decreases leaves.len(),
{
    if leaves.len() == 0 {
        Seq::empty()
    } else {
        fields_of(nodes, leaves.drop_last()) + leaf(nodes, leaves.last()).shape.fields()
    }
}

/// The object array for `leaves`: the record of each, with its modifiers
/// and its shape parameters placed after those of the leaves before it.
pub open spec fn objects_of(nodes: Seq<SdNode>, leaves: Seq<int>) -> Seq<SdObjectUniform>
    decreases leaves.len(),
{
    if leaves.len() == 0 {
        Seq::empty()
    } else {
        objects_of(nodes, leaves.drop_last()).push(
            leaf(nodes, leaves.last()).object().packed(
                modifiers_of(nodes, leaves.drop_last()).len(),
                fields_of(nodes, leaves.drop_last()).len(),
            ),
        )
    }
}

/// Whether the three arrays of `flat` are those for `leaves`.
pub open spec fn holds_leaves(nodes: Seq<SdNode>, flat: SdFlat, leaves: Seq<int>) -> bool {
    &&& flat.object == objects_of(nodes, leaves)
    &&& flat.modifier == modifiers_of(nodes, leaves)
    &&& flat.field_data == fields_of(nodes, leaves)
}

/// Resolving an operand appends its records if it is compiled as a leaf,
/// and leaves the three arrays alone if it is not.
proof fn lemma_resolve_holds(
    nodes: Seq<SdNode>,
    base: nat,
    flat: SdFlat,
    operand: usize,
    leaves: Seq<int>,
)
    requires
        holds_leaves(nodes, flat, leaves),
    ensures
        holds_leaves(
            nodes,
            resolve(nodes, base, flat, operand).0,
            with_compiled(nodes, leaves, operand as int),
        ),
{
    let c = operand as int;
    if !is_operator(nodes, c) && is_compilable(nodes, c) {
        assert(leaves.push(c).drop_last() =~= leaves);
    }
}

/// The object array, the modifier array and the payload buffer of a
/// compilation are those for the leaves compiled along the way.
pub proof fn lemma_flatten_holds_leaves(nodes: Seq<SdNode>, base: nat, order: Seq<int>)
    ensures
        holds_leaves(nodes, flatten(nodes, base, order), compiled_leaves(nodes, order)),
    decreases order.len(),
{
    if order.len() > 0 {
        let rest = order.drop_last();
        let b = branch(nodes, order.last());
        lemma_flatten_holds_leaves(nodes, base, rest);
        let before = flatten(nodes, base, rest);
        let l0 = compiled_leaves(nodes, rest);
        lemma_resolve_holds(nodes, base, before, b.operating_on.1, l0);
        let middle = resolve(nodes, base, before, b.operating_on.1).0;
        let l1 = with_compiled(nodes, l0, b.operating_on.1 as int);
        lemma_resolve_holds(nodes, base, middle, b.operating_on.0, l1);
    }
}

/// The arrays for the first `j` leaves are the beginnings of the arrays
/// for all of them.
pub proof fn lemma_arrays_grow(nodes: Seq<SdNode>, leaves: Seq<int>, j: int)
    requires
        0 <= j <= leaves.len(),
    ensures
        objects_of(nodes, leaves).len() == leaves.len(),
        modifiers_of(nodes, leaves.take(j)).len() <= modifiers_of(nodes, leaves).len(),
        fields_of(nodes, leaves.take(j)).len() <= fields_of(nodes, leaves).len(),
        objects_of(nodes, leaves.take(j)) =~= objects_of(nodes, leaves).take(j),
        modifiers_of(nodes, leaves.take(j)) =~= modifiers_of(nodes, leaves).take(
            modifiers_of(nodes, leaves.take(j)).len() as int,
        ),
        fields_of(nodes, leaves.take(j)) =~= fields_of(nodes, leaves).take(
            fields_of(nodes, leaves.take(j)).len() as int,
        ),
    decreases leaves.len(),
{
    if leaves.len() == 0 {
        assert(leaves.take(j) =~= leaves);
    } else if j == leaves.len() {
        assert(leaves.take(j) =~= leaves);
        lemma_arrays_grow(nodes, leaves.drop_last(), j - 1);
    } else {
        lemma_arrays_grow(nodes, leaves.drop_last(), j);
        assert(leaves.drop_last().take(j) =~= leaves.take(j));
    }
}

/// The records of the `j`th compiled leaf. Its object record is that of the
/// leaf, and names the place where its modifiers and its shape parameters
/// start. From there the modifier array holds the records of its modifiers
/// in reverse: first the one that was declared last. And the payload buffer
/// holds its shape parameters in order.
pub proof fn lemma_leaf_records(nodes: Seq<SdNode>, leaves: Seq<int>, j: int)
    requires
        0 <= j < leaves.len(),
    ensures
        ({
            let l = leaf(nodes, leaves[j]);
            let stack = l.modifier_stack@;
            let start = modifiers_of(nodes, leaves.take(j)).len();
            let first = fields_of(nodes, leaves.take(j)).len();
            let record = objects_of(nodes, leaves)[j];
            &&& objects_of(nodes, leaves).len() == leaves.len()
            &&& record == l.object().packed(start, first)
            &&& record.modifier_stack.start() == start % 0x1_0000
            &&& record.modifier_stack.count() == stack.len() % 0x1_0000
            &&& record.shape.payload_index() == first % 0x1_0000
            &&& record.shape.field_count() == l.shape.fields().len()
            &&& start + stack.len() <= modifiers_of(nodes, leaves).len()
            &&& first + l.shape.fields().len() <= fields_of(nodes, leaves).len()
            &&& forall|t: int|
                0 <= t < stack.len() ==> #[trigger] modifiers_of(nodes, leaves)[start + t]
                    == stack[stack.len() - 1 - t].packed()
            &&& forall|t: int|
                0 <= t < l.shape.fields().len() ==> #[trigger] fields_of(nodes, leaves)[first + t]
                    == l.shape.fields()[t]
        }),
{
    let upto = leaves.take(j + 1);
    let l = leaf(nodes, leaves[j]);
    let stack = l.modifier_stack@;
    let start = modifiers_of(nodes, leaves.take(j)).len();
    let first = fields_of(nodes, leaves.take(j)).len();
    assert(upto.drop_last() =~= leaves.take(j));
    assert(upto.last() == leaves[j]);
    lemma_arrays_grow(nodes, leaves, j + 1);
    let record = objects_of(nodes, upto)[j];
    assert(record == objects_of(nodes, leaves)[j]);
    assert(modifiers_of(nodes, upto) == modifiers_of(nodes, leaves.take(j)) + packed_modifiers(
        stack,
    ));
    assert(fields_of(nodes, upto) == fields_of(nodes, leaves.take(j)) + l.shape.fields());
    assert forall|t: int| 0 <= t < stack.len() implies #[trigger] modifiers_of(nodes, leaves)[start
        + t] == stack[stack.len() - 1 - t].packed() by {
        assert(modifiers_of(nodes, upto)[start + t] == packed_modifiers(stack)[t]);
    }
    assert forall|t: int| 0 <= t < l.shape.fields().len() implies #[trigger] fields_of(
        nodes,
        leaves,
    )[first + t] == l.shape.fields()[t] by {
        assert(fields_of(nodes, upto)[first + t] == l.shape.fields()[t]);
    }
    lemma_packed_object_fields(l.object(), start, first);
}

/// What the record of an object says of where its modifiers and its shape
/// parameters stand.
pub proof fn lemma_packed_object_fields(
    object: crate::engine::object::SdObject,
    start_mod_index: nat,
    start_shape_index: nat,
)
    ensures
        ({
            let record = object.packed(start_mod_index, start_shape_index);
            &&& record.modifier_stack.start() == start_mod_index % 0x1_0000
            &&& record.modifier_stack.count() == object.modifier_stack@.len() % 0x1_0000
            &&& record.shape.type_id() == object.shape.kind()
            &&& record.shape.payload_index() == start_shape_index % 0x1_0000
            &&& record.shape.field_count() == object.shape.fields().len()
        }),
{
    let lo = (object.modifier_stack@.len() % 0x1_0000) as u16;
    let hi = (start_mod_index % 0x1_0000) as u16;
    lemma_halves_round_trip(lo, hi);
    let index = start_shape_index % 0x1_0000;
    let b1 = (index % 0x100) as u8;
    let b2 = (index / 0x100) as u8;
    crate::engine::shape::lemma_field_count_fits(object.shape);
    let count = object.shape.fields().len() as u8;
    lemma_bytes_round_trip(object.shape.kind(), b1, b2, count);
    assert(index == b1 + 0x100 * b2);
}

/// The leaves of what a scene compiles to, in the order of their records.
pub open spec fn compiled_objects(nodes: Seq<SdNode>) -> Seq<int> {
    compiled_leaves(nodes, traversal_order(nodes))
}

/// The order of the modifiers in what a scene compiles to. The `j`th object
/// record is that of the `j`th compiled leaf. From the start that it names,
/// the modifier array holds the leaf's modifiers in reverse: the one that
/// was declared last stands first, so an evaluator that walks the range
/// upwards applies it first. The start and the count in the record are those
/// of the range, up to their sixteen bits.
pub proof fn lemma_compiled_modifiers(nodes: Seq<SdNode>, j: int)
    requires
        0 <= j < compiled(nodes).object.len(),
    ensures
        ({
            let leaves = compiled_objects(nodes);
            let stack = leaf(nodes, leaves[j]).modifier_stack@;
            let start = modifiers_of(nodes, leaves.take(j)).len();
            let record = compiled(nodes).object[j];
            &&& leaves.len() == compiled(nodes).object.len()
            &&& record.modifier_stack.start() == start % 0x1_0000
            &&& record.modifier_stack.count() == stack.len() % 0x1_0000
            &&& start + stack.len() <= compiled(nodes).modifier.len()
            &&& forall|t: int|
                0 <= t < stack.len() ==> #[trigger] compiled(nodes).modifier[start + t]
                    == stack[stack.len() - 1 - t].packed()
        }),
{
    let leaves = compiled_objects(nodes);
    lemma_flatten_holds_leaves(nodes, object_count(nodes), traversal_order(nodes));
    lemma_arrays_grow(nodes, leaves, 0);
    lemma_leaf_records(nodes, leaves, j);
}

/// The shape parameters in what a scene compiles to. The `j`th object
/// record names the kind of the `j`th compiled leaf, how many parameter
/// words it has, and where they start in the payload buffer, up to the
/// sixteen bits of the start. From there the buffer holds them in order.
pub proof fn lemma_compiled_fields(nodes: Seq<SdNode>, j: int)
    requires
        0 <= j < compiled(nodes).object.len(),
    ensures
        ({
            let leaves = compiled_objects(nodes);
            let shape = leaf(nodes, leaves[j]).shape;
            let first = fields_of(nodes, leaves.take(j)).len();
            let record = compiled(nodes).object[j];
            &&& leaves.len() == compiled(nodes).object.len()
            &&& record.shape.type_id() == shape.kind()
            &&& record.shape.payload_index() == first % 0x1_0000
            &&& record.shape.field_count() == shape.fields().len()
            &&& record.material == leaf(nodes, leaves[j]).material->0.packed()
            &&& record.transform.pos == leaf(nodes, leaves[j]).transform.pos
            &&& record.transform.rot == leaf(nodes, leaves[j]).transform.rot
            &&& first + shape.fields().len() <= compiled(nodes).field_data.len()
            &&& forall|t: int|
                0 <= t < shape.fields().len() ==> #[trigger] compiled(nodes).field_data[first + t]
                    == shape.fields()[t]
        }),
{
    let leaves = compiled_objects(nodes);
    lemma_flatten_holds_leaves(nodes, object_count(nodes), traversal_order(nodes));
    lemma_arrays_grow(nodes, leaves, 0);
    lemma_leaf_records(nodes, leaves, j);
    lemma_packed_object_fields(
        leaf(nodes, leaves[j]).object(),
        modifiers_of(nodes, leaves.take(j)).len(),
        fields_of(nodes, leaves.take(j)).len(),
    );
}

} // verus!
