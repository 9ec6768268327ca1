//! How many records a compilation makes, and which indices it hands out.
//!
//! In a well-formed scene no node is an operand twice. So the operands met
//! along a traversal are all different, and counting them gives the sizes
//! of the arrays and the range of every index.
use crate::engine::hierarchy::{
    branch, is_node, is_operand_object, is_operand_of, is_operator, node_ok, parent, well_formed,
    SdNode,
};
use crate::engine::op::SdOperatorUniform;
use crate::engine::pack::lemma_halves_round_trip;
use crate::engine::prepare::{
    compiled, flatten, object_count, operand_objects, operator_count, operators, resolve, SdFlat,
    MAX_NODES,
};
use crate::engine::traversal::{
    comes_before, is_traversal_order, lemma_traversal_order_exists, traversal_order,
};
use vstd::prelude::*;

verus! {

/// Whether `order` lists operators of the scene, none of them twice.
pub open spec fn is_visit(nodes: Seq<SdNode>, order: Seq<int>) -> bool {
    &&& forall|i: int| 0 <= i < order.len() ==> is_operator(nodes, #[trigger] order[i])
    &&& order.no_duplicates()
}

/// The set `s` with the operand `c` added if `c` is no operator.
pub open spec fn with_leaf(nodes: Seq<SdNode>, s: Set<int>, c: int) -> Set<int> {
    if is_operator(nodes, c) {
        s
    } else {
        s.insert(c)
    }
}

/// The set `s` with the operand `c` added if `c` is an operator.
pub open spec fn with_nested(nodes: Seq<SdNode>, s: Set<int>, c: int) -> Set<int> {
    if is_operator(nodes, c) {
        s.insert(c)
    } else {
        s
    }
}

/// The operands of the operators of `order` that are no operators.
pub open spec fn leaf_operands(nodes: Seq<SdNode>, order: Seq<int>) -> Set<int>
    decreases order.len(),
{
    if order.len() == 0 {
        Set::empty()
    } else {
        let b = branch(nodes, order.last());
        with_leaf(
            nodes,
            with_leaf(
                nodes,
                leaf_operands(nodes, order.drop_last()),
                b.operating_on.1 as int,
            ),
            b.operating_on.0 as int,
        )
    }
}

/// The operands of the operators of `order` that are operators.
pub open spec fn nested_operands(nodes: Seq<SdNode>, order: Seq<int>) -> Set<int>
    decreases order.len(),
{
    if order.len() == 0 {
        Set::empty()
    } else {
        let b = branch(nodes, order.last());
        with_nested(
            nodes,
            with_nested(
                nodes,
                nested_operands(nodes, order.drop_last()),
                b.operating_on.1 as int,
            ),
            b.operating_on.0 as int,
        )
    }
}

/// The nodes that some operator combines.
pub open spec fn operand_nodes(nodes: Seq<SdNode>) -> Set<int> {
    Set::new(|h: int| is_node(nodes, h) && parent(nodes, h) is Some)
}

/// The operators that no operator combines.
pub open spec fn root_operators(nodes: Seq<SdNode>) -> Set<int> {
    Set::new(|h: int| is_operator(nodes, h) && parent(nodes, h) is None)
}

/// The operators that some operator combines.
pub open spec fn operand_operators(nodes: Seq<SdNode>) -> Set<int> {
    Set::new(|h: int| is_operator(nodes, h) && parent(nodes, h) is Some)
}

/// Whether `index` is in the range that belongs to the operand `c`: above
/// the object indices and below the end of the operator indices for an
/// operator, among the object indices for anything else.
pub open spec fn index_in_range(nodes: Seq<SdNode>, c: int, index: int) -> bool {
    if is_operator(nodes, c) {
        object_count(nodes) <= index < object_count(nodes) + operator_count(nodes)
    } else {
        0 <= index < object_count(nodes)
    }
}

/// Whether `record` is a record of the operator `h` with both indices in
/// range: the second operand on the left, the first on the right.
pub open spec fn record_in_range(nodes: Seq<SdNode>, record: SdOperatorUniform, h: int) -> bool {
    let b = branch(nodes, h);
    &&& record.op == b.blend.packed_record()
    &&& index_in_range(nodes, b.operating_on.1 as int, record.lhs())
    &&& index_in_range(nodes, b.operating_on.0 as int, record.rhs())
}

/// The sets of handles of a scene are finite, and leaves and operators
/// together are no more than the nodes.
pub proof fn lemma_counts_fit(nodes: Seq<SdNode>)
    ensures
        operand_objects(nodes).finite(),
        operators(nodes).finite(),
        operand_operators(nodes).finite(),
        root_operators(nodes).finite(),
        operand_nodes(nodes).finite(),
        object_count(nodes) + operator_count(nodes) <= nodes.len(),
        operand_nodes(nodes).len() == object_count(nodes) + operand_operators(nodes).len(),
        operator_count(nodes) == operand_operators(nodes).len() + root_operators(nodes).len(),
{
    let range = vstd::set_lib::set_int_range(0, nodes.len() as int);
    vstd::set_lib::lemma_int_range(0, nodes.len() as int);
    let objects = operand_objects(nodes);
    let ops = operators(nodes);
    let inner = operand_operators(nodes);
    let roots = root_operators(nodes);
    let fed = operand_nodes(nodes);
    assert(objects.subset_of(range));
    assert(ops.subset_of(range));
    assert(inner.subset_of(range));
    assert(roots.subset_of(range));
    assert(fed.subset_of(range));
    vstd::set_lib::lemma_set_subset_finite(range, objects);
    vstd::set_lib::lemma_set_subset_finite(range, ops);
    vstd::set_lib::lemma_set_subset_finite(range, inner);
    vstd::set_lib::lemma_set_subset_finite(range, roots);
    vstd::set_lib::lemma_set_subset_finite(range, fed);
    assert(objects.disjoint(ops));
    vstd::set_lib::lemma_set_disjoint_lens(objects, ops);
    assert((objects + ops).subset_of(range));
    vstd::set_lib::lemma_len_subset(objects + ops, range);
    assert(objects.disjoint(inner));
    vstd::set_lib::lemma_set_disjoint_lens(objects, inner);
    assert(fed =~= objects + inner);
    assert(inner.disjoint(roots));
    vstd::set_lib::lemma_set_disjoint_lens(inner, roots);
    assert(ops =~= inner + roots);
}

/// Every operand met along a visit names an operator of the visit as the
/// one that combines it.
pub proof fn lemma_operands_met(nodes: Seq<SdNode>, order: Seq<int>)
    requires
        well_formed(nodes),
        is_visit(nodes, order),
    ensures
        leaf_operands(nodes, order).finite(),
        nested_operands(nodes, order).finite(),
        forall|c: int| #[trigger]
            leaf_operands(nodes, order).contains(c) ==> {
                &&& is_operand_object(nodes, c)
                &&& order.contains(parent(nodes, c)->0)
            },
        forall|c: int| #[trigger]
            nested_operands(nodes, order).contains(c) ==> {
                &&& is_operator(nodes, c)
                &&& parent(nodes, c) is Some
                &&& order.contains(parent(nodes, c)->0)
            },
    decreases order.len(),
{
    if order.len() > 0 {
        let h = order.last();
        let rest = order.drop_last();
        assert(is_operator(nodes, h));
        assert(node_ok(nodes, h));
        lemma_visit_rest(nodes, order);
        lemma_operands_met(nodes, rest);
        assert forall|c: int| #[trigger] leaf_operands(nodes, order).contains(c) implies {
            &&& is_operand_object(nodes, c)
            &&& order.contains(parent(nodes, c)->0)
        } by {
            if leaf_operands(nodes, rest).contains(c) {
                let p = parent(nodes, c)->0;
                assert(rest.contains(p));
                let i = choose|i: int| 0 <= i < rest.len() && rest[i] == p;
                assert(order[i] == p);
            } else {
                assert(parent(nodes, c) == Some(h));
                assert(order[order.len() - 1] == h);
            }
        }
        assert forall|c: int| #[trigger] nested_operands(nodes, order).contains(c) implies {
            &&& is_operator(nodes, c)
            &&& parent(nodes, c) is Some
            &&& order.contains(parent(nodes, c)->0)
        } by {
            if nested_operands(nodes, rest).contains(c) {
                let p = parent(nodes, c)->0;
                assert(rest.contains(p));
                let i = choose|i: int| 0 <= i < rest.len() && rest[i] == p;
                assert(order[i] == p);
            } else {
                assert(parent(nodes, c) == Some(h));
                assert(order[order.len() - 1] == h);
            }
        }
    }
}

/// A visit without its last operator is a visit that does not hold that
/// operator.
pub proof fn lemma_visit_rest(nodes: Seq<SdNode>, order: Seq<int>)
    requires
        is_visit(nodes, order),
        order.len() > 0,
    ensures
        is_visit(nodes, order.drop_last()),
        !order.drop_last().contains(order.last()),
{
    let rest = order.drop_last();
    assert forall|i: int| 0 <= i < rest.len() implies is_operator(nodes, #[trigger] rest[i]) by {
        assert(rest[i] == order[i]);
    }
    assert forall|i: int, j: int| 0 <= i < rest.len() && 0 <= j < rest.len() && i != j implies rest[i]
        != rest[j] by {
        assert(rest[i] == order[i] && rest[j] == order[j]);
    }
    if rest.contains(order.last()) {
        let i = choose|i: int| 0 <= i < rest.len() && rest[i] == order.last();
        assert(order[i] == order[order.len() - 1]);
    }
}

/// What resolving one operand that was not met before does to the counts.
proof fn lemma_resolve_counts(
    nodes: Seq<SdNode>,
    base: nat,
    flat: SdFlat,
    operand: usize,
    leaves: Set<int>,
    nested: Set<int>,
)
    requires
        leaves.finite(),
        nested.finite(),
        !leaves.contains(operand as int),
        !nested.contains(operand as int),
        flat.object.len() + flat.skipped.len() == leaves.len(),
        flat.nested == nested.len(),
    ensures
        ({
            let after = resolve(nodes, base, flat, operand).0;
            &&& after.object.len() + after.skipped.len() == with_leaf(
                nodes,
                leaves,
                operand as int,
            ).len()
            &&& after.nested == with_nested(nodes, nested, operand as int).len()
            &&& after.operator == flat.operator
            &&& with_leaf(nodes, leaves, operand as int).finite()
            &&& with_nested(nodes, nested, operand as int).finite()
        }),
{
}

/// Along a visit of a well-formed scene the compiler makes one operator
/// record for each operator, one object record or one report for each
/// operand that is a leaf, and counts one for each operand that is an
/// operator.
pub proof fn lemma_flatten_counts(nodes: Seq<SdNode>, base: nat, order: Seq<int>)
    requires
        well_formed(nodes),
        is_visit(nodes, order),
    ensures
        ({
            let flat = flatten(nodes, base, order);
            &&& flat.operator.len() == order.len()
            &&& flat.object.len() + flat.skipped.len() == leaf_operands(nodes, order).len()
            &&& flat.nested == nested_operands(nodes, order).len()
        }),
    decreases order.len(),
{
    if order.len() > 0 {
        let h = order.last();
        let rest = order.drop_last();
        lemma_visit_rest(nodes, order);
        lemma_flatten_counts(nodes, base, rest);
        lemma_step_counts(nodes, base, order);
    }
}

/// The counts after the last operator of a visit, from those before it.
proof fn lemma_step_counts(nodes: Seq<SdNode>, base: nat, order: Seq<int>)
    requires
        well_formed(nodes),
        is_visit(nodes, order),
        order.len() > 0,
        ({
            let flat = flatten(nodes, base, order.drop_last());
            &&& flat.operator.len() == order.len() - 1
            &&& flat.object.len() + flat.skipped.len() == leaf_operands(
                nodes,
                order.drop_last(),
            ).len()
            &&& flat.nested == nested_operands(nodes, order.drop_last()).len()
        }),
    ensures
        ({
            let flat = flatten(nodes, base, order);
            &&& flat.operator.len() == order.len()
            &&& flat.object.len() + flat.skipped.len() == leaf_operands(nodes, order).len()
            &&& flat.nested == nested_operands(nodes, order).len()
        }),
        ({
            let before = flatten(nodes, base, order.drop_last());
            let b = branch(nodes, order.last());
            let middle = resolve(nodes, base, before, b.operating_on.1).0;
            &&& !leaf_operands(nodes, order.drop_last()).contains(b.operating_on.1 as int)
            &&& !nested_operands(nodes, order.drop_last()).contains(b.operating_on.1 as int)
            &&& !with_leaf(
                nodes,
                leaf_operands(nodes, order.drop_last()),
                b.operating_on.1 as int,
            ).contains(b.operating_on.0 as int)
            &&& !with_nested(
                nodes,
                nested_operands(nodes, order.drop_last()),
                b.operating_on.1 as int,
            ).contains(b.operating_on.0 as int)
            &&& middle.object.len() + middle.skipped.len() == with_leaf(
                nodes,
                leaf_operands(nodes, order.drop_last()),
                b.operating_on.1 as int,
            ).len()
            &&& middle.nested == with_nested(
                nodes,
                nested_operands(nodes, order.drop_last()),
                b.operating_on.1 as int,
            ).len()
        }),
{
    let h = order.last();
    let rest = order.drop_last();
    let before = flatten(nodes, base, rest);
    let b = branch(nodes, h);
    let second = b.operating_on.1;
    let first = b.operating_on.0;
    assert(is_operator(nodes, h));
    assert(node_ok(nodes, h));
    lemma_visit_rest(nodes, order);
    lemma_operands_met(nodes, rest);
    let l0 = leaf_operands(nodes, rest);
    let n0 = nested_operands(nodes, rest);
    assert(parent(nodes, second as int) == Some(h));
    assert(parent(nodes, first as int) == Some(h));
    lemma_resolve_counts(nodes, base, before, second, l0, n0);
    let middle = resolve(nodes, base, before, second).0;
    let l1 = with_leaf(nodes, l0, second as int);
    let n1 = with_nested(nodes, n0, second as int);
    lemma_resolve_counts(nodes, base, middle, first, l1, n1);
}

/// The operands met along a visit are leaves that some operator combines,
/// or operators.
pub proof fn lemma_operands_bounded(nodes: Seq<SdNode>, order: Seq<int>)
    requires
        well_formed(nodes),
        is_visit(nodes, order),
    ensures
        leaf_operands(nodes, order).subset_of(operand_objects(nodes)),
        nested_operands(nodes, order).subset_of(operand_operators(nodes)),
        leaf_operands(nodes, order).len() <= object_count(nodes),
        nested_operands(nodes, order).len() <= operand_operators(nodes).len(),
        nested_operands(nodes, order).len() <= operator_count(nodes),
{
    lemma_operands_met(nodes, order);
    lemma_counts_fit(nodes);
    assert forall|c: int| leaf_operands(nodes, order).contains(c) implies operand_objects(
        nodes,
    ).contains(c) by {}
    assert forall|c: int| nested_operands(nodes, order).contains(c) implies operand_operators(
        nodes,
    ).contains(c) by {}
    vstd::set_lib::lemma_len_subset(leaf_operands(nodes, order), operand_objects(nodes));
    vstd::set_lib::lemma_len_subset(nested_operands(nodes, order), operand_operators(nodes));
}

/// An operand of an operator of a visit is among the operands met.
proof fn lemma_operand_is_met(nodes: Seq<SdNode>, order: Seq<int>, c: int, i: int)
    requires
        0 <= i < order.len(),
        is_operand_of(nodes, c, order[i]),
    ensures
        is_operator(nodes, c) ==> nested_operands(nodes, order).contains(c),
        !is_operator(nodes, c) ==> leaf_operands(nodes, order).contains(c),
    decreases order.len(),
{
    if i < order.len() - 1 {
        assert(order.drop_last()[i] == order[i]);
        lemma_operand_is_met(nodes, order.drop_last(), c, i);
    }
}

/// A visit that holds every operator meets every leaf that some operator
/// combines, and every operator that some operator combines.
pub proof fn lemma_all_operands_met(nodes: Seq<SdNode>, order: Seq<int>)
    requires
        well_formed(nodes),
        is_visit(nodes, order),
        forall|h: int| #[trigger] is_operator(nodes, h) ==> order.contains(h),
    ensures
        leaf_operands(nodes, order) == operand_objects(nodes),
        nested_operands(nodes, order) == operand_operators(nodes),
{
    lemma_operands_bounded(nodes, order);
    assert forall|c: int| operand_objects(nodes).contains(c) implies leaf_operands(
        nodes,
        order,
    ).contains(c) by {
        assert(node_ok(nodes, c));
        let p = parent(nodes, c)->0;
        assert(is_operator(nodes, p));
        assert(order.contains(p));
        let i = choose|i: int| 0 <= i < order.len() && order[i] == p;
        lemma_operand_is_met(nodes, order, c, i);
    }
    assert forall|c: int| operand_operators(nodes).contains(c) implies nested_operands(
        nodes,
        order,
    ).contains(c) by {
        assert(node_ok(nodes, c));
        let p = parent(nodes, c)->0;
        assert(is_operator(nodes, p));
        assert(order.contains(p));
        let i = choose|i: int| 0 <= i < order.len() && order[i] == p;
        lemma_operand_is_met(nodes, order, c, i);
    }
    assert(leaf_operands(nodes, order) =~= operand_objects(nodes));
    assert(nested_operands(nodes, order) =~= operand_operators(nodes));
}

/// The operator records that a visit has made stay as they are when the
/// visit goes on.
pub proof fn lemma_records_stay(nodes: Seq<SdNode>, base: nat, order: Seq<int>, k: int)
    requires
        0 <= k <= order.len(),
    ensures
        flatten(nodes, base, order.take(k)).operator.len() == k,
        flatten(nodes, base, order).operator.len() == order.len(),
        flatten(nodes, base, order.take(k)).operator =~= flatten(nodes, base, order).operator.take(
            k,
        ),
    decreases order.len(),
{
    if order.len() == 0 {
        assert(order.take(k) =~= order);
    } else if k == order.len() {
        assert(order.take(k) =~= order);
        lemma_records_stay(nodes, base, order.drop_last(), k - 1);
        assert(order.drop_last().take(k - 1) =~= order.drop_last());
    } else {
        lemma_records_stay(nodes, base, order.drop_last(), k);
        assert(order.drop_last().take(k) =~= order.take(k));
    }
}

/// The index that an operand takes which was not met before is in range.
proof fn lemma_fresh_index_in_range(
    nodes: Seq<SdNode>,
    flat: SdFlat,
    operand: usize,
    leaves: Set<int>,
    nested: Set<int>,
)
    requires
        nodes.len() <= MAX_NODES,
        is_node(nodes, operand as int),
        parent(nodes, operand as int) is Some,
        leaves.finite(),
        nested.finite(),
        leaves.subset_of(operand_objects(nodes)),
        nested.subset_of(operand_operators(nodes)),
        !leaves.contains(operand as int),
        !nested.contains(operand as int),
        flat.object.len() + flat.skipped.len() == leaves.len(),
        flat.nested == nested.len(),
    ensures
        index_in_range(
            nodes,
            operand as int,
            resolve(nodes, object_count(nodes), flat, operand).1 as int,
        ),
{
    lemma_counts_fit(nodes);
    let c = operand as int;
    if is_operator(nodes, c) {
        let more = nested.insert(c);
        assert(more.subset_of(operators(nodes)));
        vstd::set_lib::lemma_len_subset(more, operators(nodes));
        assert(nested.len() + 1 <= operator_count(nodes));
    } else {
        let more = leaves.insert(c);
        assert(more.subset_of(operand_objects(nodes)));
        vstd::set_lib::lemma_len_subset(more, operand_objects(nodes));
        assert(leaves.len() + 1 <= object_count(nodes));
    }
}

/// The record that the last operator of a visit gets is in range.
proof fn lemma_last_record_in_range(nodes: Seq<SdNode>, order: Seq<int>)
    requires
        well_formed(nodes),
        nodes.len() <= MAX_NODES,
        is_visit(nodes, order),
        order.len() > 0,
    ensures
        flatten(nodes, object_count(nodes), order).operator.len() == order.len(),
        record_in_range(
            nodes,
            flatten(nodes, object_count(nodes), order).operator[order.len() - 1],
            order.last(),
        ),
{
    let base = object_count(nodes);
    let rest = order.drop_last();
    let h = order.last();
    let b = branch(nodes, h);
    let second = b.operating_on.1;
    let first = b.operating_on.0;
    let before = flatten(nodes, base, rest);
    let l0 = leaf_operands(nodes, rest);
    let n0 = nested_operands(nodes, rest);
    let l1 = with_leaf(nodes, l0, second as int);
    let n1 = with_nested(nodes, n0, second as int);
    let (middle, lhs) = resolve(nodes, base, before, second);
    let (after, rhs) = resolve(nodes, base, middle, first);
    lemma_visit_rest(nodes, order);
    lemma_flatten_counts(nodes, base, rest);
    lemma_step_counts(nodes, base, order);
    assert(is_operator(nodes, h));
    assert(node_ok(nodes, h));
    assert(parent(nodes, second as int) == Some(h));
    assert(parent(nodes, first as int) == Some(h));
    assert(l0.finite() && n0.finite() && l0.subset_of(operand_objects(nodes)) && n0.subset_of(
        operand_operators(nodes),
    )) by {
        lemma_operands_met(nodes, rest);
        lemma_operands_bounded(nodes, rest);
    }
    assert(l1.finite() && n1.finite() && l1.subset_of(operand_objects(nodes)) && n1.subset_of(
        operand_operators(nodes),
    )) by {
        lemma_operands_met(nodes, order);
        lemma_operands_bounded(nodes, order);
        assert(l1.subset_of(leaf_operands(nodes, order)));
        assert(n1.subset_of(nested_operands(nodes, order)));
    }
    lemma_fresh_index_in_range(nodes, before, second, l0, n0);
    lemma_fresh_index_in_range(nodes, middle, first, l1, n1);
    lemma_halves_round_trip(lhs, rhs);
    assert(flatten(nodes, base, order).operator == after.operator.push(
        (crate::engine::op::SdOperator { op: b.blend, lhs, rhs }).packed(),
    ));
    assert(after.operator.len() == order.len() - 1);
}

/// In a well-formed scene of at most `MAX_NODES` nodes, every operator
/// record that a visit makes holds the blend of its operator and two indices
/// in range: an index that stands for an operator lies above the object
/// indices and below the end of the operator indices, and any other below
/// the number of leaves that some operator combines.
pub proof fn lemma_records_in_range(nodes: Seq<SdNode>, order: Seq<int>, k: int)
    requires
        well_formed(nodes),
        nodes.len() <= MAX_NODES,
        is_visit(nodes, order),
        0 <= k < order.len(),
    ensures
        flatten(nodes, object_count(nodes), order).operator.len() == order.len(),
        record_in_range(nodes, flatten(nodes, object_count(nodes), order).operator[k], order[k]),
    decreases order.len(),
{
    let base = object_count(nodes);
    let rest = order.drop_last();
    lemma_last_record_in_range(nodes, order);
    if k < order.len() - 1 {
        lemma_visit_rest(nodes, order);
        lemma_records_in_range(nodes, rest, k);
        assert(rest[k] == order[k]);
        lemma_records_stay(nodes, base, order, order.len() - 1);
        assert(order.take(order.len() - 1) =~= rest);
        assert(flatten(nodes, base, rest).operator[k] == flatten(nodes, base, order).operator.take(
            order.len() - 1,
        )[k]);
    }
}

/// A traversal order is a visit that holds every operator, so it is as long
/// as the scene has operators.
pub proof fn lemma_traversal_is_visit(nodes: Seq<SdNode>, order: Seq<int>)
    requires
        is_traversal_order(nodes, order),
    ensures
        is_visit(nodes, order),
        order.len() == operator_count(nodes),
{
    assert(order.no_duplicates()) by {
        assert forall|i: int, j: int|
            0 <= i < order.len() && 0 <= j < order.len() && i != j implies order[i]
            != order[j] by {
            if i < j {
                assert(comes_before(nodes, order[i], order[j]));
            } else {
                assert(comes_before(nodes, order[j], order[i]));
            }
        }
    }
    assert(order.to_set() =~= operators(nodes)) by {
        assert forall|h: int| order.to_set().contains(h) implies operators(nodes).contains(h) by {
            let i = choose|i: int| 0 <= i < order.len() && order[i] == h;
            assert(is_operator(nodes, order[i]));
        }
        assert forall|h: int| operators(nodes).contains(h) implies order.to_set().contains(h) by {
            assert(is_operator(nodes, h));
            assert(order.contains(h));
        }
    }
    order.unique_seq_to_set();
}

/// The sizes of what a well-formed scene compiles to. There is one operator
/// record for each operator. Each leaf that some operator combines has its
/// object record or is reported as left out, and no other node has either.
/// So records and reports together are as many as the nodes that some
/// operator combines and the operators that none combines.
pub proof fn lemma_compiled_sizes(nodes: Seq<SdNode>)
    requires
        well_formed(nodes),
    ensures
        compiled(nodes).operator.len() == operator_count(nodes),
        compiled(nodes).object.len() + compiled(nodes).skipped.len() == object_count(nodes),
        compiled(nodes).nested == operand_operators(nodes).len(),
        compiled(nodes).object.len() + compiled(nodes).skipped.len() + compiled(
            nodes,
        ).operator.len() == operand_nodes(nodes).len() + root_operators(nodes).len(),
{
    let order = traversal_order(nodes);
    lemma_traversal_order_exists(nodes);
    lemma_traversal_is_visit(nodes, order);
    lemma_flatten_counts(nodes, object_count(nodes), order);
    lemma_all_operands_met(nodes, order);
    lemma_counts_fit(nodes);
}

/// The indices in what a well-formed scene of at most `MAX_NODES` nodes
/// compiles to. The `k`th operator record is that of the `k`th operator of
/// the traversal. Each of its two indices stands for a leaf and lies below
/// the number of leaves that some operator combines, or stands for an
/// operator and lies at or above that number and below the sum of it and the
/// number of operators. So no index is out of range.
pub proof fn lemma_compiled_indices(nodes: Seq<SdNode>, k: int)
    requires
        well_formed(nodes),
        nodes.len() <= MAX_NODES,
        0 <= k < operator_count(nodes),
    ensures
        compiled(nodes).operator.len() == operator_count(nodes),
        is_operator(nodes, traversal_order(nodes)[k]),
        record_in_range(nodes, compiled(nodes).operator[k], traversal_order(nodes)[k]),
        0 <= compiled(nodes).operator[k].lhs() < object_count(nodes) + operator_count(nodes),
        0 <= compiled(nodes).operator[k].rhs() < object_count(nodes) + operator_count(nodes),
{
    let order = traversal_order(nodes);
    lemma_traversal_order_exists(nodes);
    lemma_traversal_is_visit(nodes, order);
    lemma_records_in_range(nodes, order, k);
}

} // verus!
