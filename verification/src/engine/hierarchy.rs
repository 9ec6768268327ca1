//! The operand relation: which node is combined by which operator.
//!
//! A scene is an arena of nodes. A node is named by its handle, its position
//! in the arena. An operator names its two operands, and each operand names
//! the operator that combines it; a node that names none is a root.
use crate::engine::modifier::SdModStack;
use crate::engine::object::{SdMaterial, SdObject, SdTransform};
use crate::engine::op::{SdBlend, SdIndex};
use crate::engine::shape::SdShape;
use vstd::prelude::*;

verus! {

/// On an operand: the handle of the operator that combines it.
#[derive(Clone, Copy, Debug, PartialEq, Eq, Structural)]
pub struct SdOperatedBy(pub usize);

/// On an operator: the handles of its two operands. There are always
/// exactly two.
#[derive(Clone, Copy, Debug, PartialEq, Eq, Structural)]
pub struct SdOperatingOn(pub usize, pub usize);

impl SdOperatingOn {
    /// The two operands, in the order in which they were given.
    #[inline]
    pub fn get_sd_argunments(self) -> (args: (usize, usize))
        ensures
            args == (self.0, self.1),
    {
        (self.0, self.1)
    }
}

/// Marks a node of an imported scene whose operator has yet to be found
/// among the nodes that contain it.
#[derive(Clone, Copy, Debug, PartialEq, Eq, Structural)]
pub struct InitSkeinSdRelationShip;

/// A node that contains another, and whether it is a blend operator.
#[derive(Clone, Copy, Debug, PartialEq, Eq, Structural)]
pub struct SdContainer {
    pub entity: usize,
    pub is_operator: bool,
}

/// Which operator combines a node of an imported scene.
pub open spec fn detected_op(parent: Option<SdContainer>, grand_parent: Option<SdContainer>)
    -> Option<SdOperatedBy> {
    match parent {
        None => None,
        Some(p) => if p.is_operator {
            Some(SdOperatedBy(p.entity))
        } else {
            match grand_parent {
                None => None,
                Some(g) => if g.is_operator {
                    Some(SdOperatedBy(g.entity))
                } else {
                    None
                },
            }
        },
    }
}

/// Finds the operator of a node of an imported scene: the node that
/// contains it, if that is an operator; else the node that contains that
/// one, if that is an operator; else none. A node that nothing contains has
/// no operator, whatever is given for `grand_parent`.
pub fn detect_op(parent: Option<SdContainer>, grand_parent: Option<SdContainer>) -> (found: Option<
    SdOperatedBy,
>)
    ensures
        found == detected_op(parent, grand_parent),
{
    let p: SdContainer = match parent {
        Some(p) => p,
        None => { return None; },
    };
    if p.is_operator {
        return Some(SdOperatedBy(p.entity));
    }
    let g: SdContainer = match grand_parent {
        Some(g) => g,
        None => { return None; },
    };
    if g.is_operator {
        Some(SdOperatedBy(g.entity))
    } else {
        None
    }
}

/// The parts of a leaf. The material is absent when the node has none of
/// its own and none to inherit.
#[derive(Clone, Debug, PartialEq, Eq)]
pub struct SdLeaf {
    pub shape: SdShape,
    pub modifier_stack: SdModStack,
    pub transform: SdTransform,
    pub material: Option<SdMaterial>,
}

impl SdLeaf {
    /// The object that this leaf is when it has a material.
    pub open spec fn object(self) -> SdObject
        recommends
            self.material is Some,
    {
        SdObject {
            shape: self.shape,
            material: self.material->0,
            modifier_stack: self.modifier_stack,
            transform: self.transform,
        }
    }
}

/// The parts of an operator.
#[derive(Clone, Copy, Debug, PartialEq, Eq, Structural)]
pub struct SdBranch {
    pub blend: SdBlend,
    pub index: SdIndex,
    pub operating_on: SdOperatingOn,
}

/// What a node is.
#[derive(Clone, Debug, PartialEq, Eq)]
pub enum SdNodeKind {
    Object(SdLeaf),
    Operator(SdBranch),
}

/// A node of the scene.
#[derive(Clone, Debug, PartialEq, Eq)]
pub struct SdNode {
    pub kind: SdNodeKind,
    pub operated_by: Option<SdOperatedBy>,
}

/// A scene: the arena of its nodes.
#[derive(Clone, Debug, PartialEq, Eq, Default)]
pub struct SdScene {
    pub nodes: Vec<SdNode>,
}

impl View for SdScene {
    type V = Seq<SdNode>;

    open spec fn view(&self) -> Seq<SdNode> {
        self.nodes@
    }
}

/// Whether `h` is the handle of a node.
pub open spec fn is_node(nodes: Seq<SdNode>, h: int) -> bool {
    0 <= h < nodes.len()
}

/// Whether `h` is the handle of an operator.
pub open spec fn is_operator(nodes: Seq<SdNode>, h: int) -> bool {
    is_node(nodes, h) && nodes[h].kind is Operator
}

/// Whether `h` is the handle of a leaf.
pub open spec fn is_object(nodes: Seq<SdNode>, h: int) -> bool {
    is_node(nodes, h) && nodes[h].kind is Object
}

/// Whether `h` is the handle of a leaf that some operator combines.
pub open spec fn is_operand_object(nodes: Seq<SdNode>, h: int) -> bool {
    is_object(nodes, h) && nodes[h].operated_by is Some
}

/// The parts of the operator `h`.
pub open spec fn branch(nodes: Seq<SdNode>, h: int) -> SdBranch
    recommends
        is_operator(nodes, h),
{
    nodes[h].kind->Operator_0
}

/// The parts of the leaf `h`.
pub open spec fn leaf(nodes: Seq<SdNode>, h: int) -> SdLeaf
    recommends
        is_object(nodes, h),
{
    nodes[h].kind->Object_0
}

/// The operator that combines `h`, if `h` is a node and names one.
pub open spec fn parent(nodes: Seq<SdNode>, h: int) -> Option<int> {
    if is_node(nodes, h) {
        match nodes[h].operated_by {
            Some(p) => Some(p.0 as int),
            None => None,
        }
    } else {
        None
    }
}

/// Whether `h` is one of the two operands of the operator `p`.
pub open spec fn is_operand_of(nodes: Seq<SdNode>, h: int, p: int) -> bool {
    is_operator(nodes, p) && (branch(nodes, p).operating_on.0 == h || branch(
        nodes,
        p,
    ).operating_on.1 == h)
}

/// Whether `h` lies `d` operators below a root: a root lies zero below
/// itself, and any other node one more than the operator that combines it.
pub open spec fn has_depth(nodes: Seq<SdNode>, h: int, d: nat) -> bool
    decreases d,
{
    match parent(nodes, h) {
        None => d == 0,
        Some(p) => d > 0 && has_depth(nodes, p, (d - 1) as nat),
    }
}

/// Whether going up from `h` ends at a root.
pub open spec fn is_rooted(nodes: Seq<SdNode>, h: int) -> bool {
    exists|d: nat| has_depth(nodes, h, d)
}

/// The number of operators above `h`, when going up from `h` ends at a root.
pub open spec fn depth(nodes: Seq<SdNode>, h: int) -> nat
    recommends
        is_rooted(nodes, h),
{
    choose|d: nat| has_depth(nodes, h, d)
}

/// The depth that the operator `h` should record: one more than the operator
/// that combines it records, or zero at a root.
pub open spec fn index_due(nodes: Seq<SdNode>, h: int) -> int {
    match parent(nodes, h) {
        Some(p) => branch(nodes, p).index.0 + 1,
        None => 0,
    }
}

/// What must hold at the node `h` for the scene to be a forest of binary
/// trees: the operator that it names is an operator and names it back; if it
/// is an operator, its operands are two different nodes and each names it
/// back; and the depth that it records is the depth that is due.
pub open spec fn node_ok(nodes: Seq<SdNode>, h: int) -> bool {
    &&& match parent(nodes, h) {
        Some(p) => is_operand_of(nodes, h, p),
        None => true,
    }
    &&& is_operator(nodes, h) ==> {
        let b = branch(nodes, h);
        &&& b.operating_on.0 != b.operating_on.1
        &&& parent(nodes, b.operating_on.0 as int) == Some(h)
        &&& parent(nodes, b.operating_on.1 as int) == Some(h)
        &&& b.index.0 == index_due(nodes, h)
    }
}

/// Whether the scene is a forest of binary trees with every depth recorded.
pub open spec fn well_formed(nodes: Seq<SdNode>) -> bool {
    forall|h: int| is_node(nodes, h) ==> #[trigger] node_ok(nodes, h)
}

/// A node has at most one depth.
pub proof fn lemma_depth_unique(nodes: Seq<SdNode>, h: int, d1: nat, d2: nat)
    requires
        has_depth(nodes, h, d1),
        has_depth(nodes, h, d2),
    ensures
        d1 == d2,
    decreases d1,
{
    match parent(nodes, h) {
        None => {},
        Some(p) => {
            lemma_depth_unique(nodes, p, (d1 - 1) as nat, (d2 - 1) as nat);
        },
    }
}

/// The node reached from `h` by going up `k` times, or the last one on the
/// way if going up ends before.
pub open spec fn ancestor(nodes: Seq<SdNode>, h: int, k: nat) -> int
    decreases k,
{
    if k == 0 {
        h
    } else {
        match parent(nodes, h) {
            Some(p) => ancestor(nodes, p, (k - 1) as nat),
            None => h,
        }
    }
}

/// Going up `k` times from a node of depth `d` reaches a node of depth
/// `d - k`, and every node passed on the way is a node of the scene.
proof fn lemma_ancestor_depth(nodes: Seq<SdNode>, h: int, d: nat, k: nat)
    requires
        has_depth(nodes, h, d),
        k <= d,
    ensures
        has_depth(nodes, ancestor(nodes, h, k), (d - k) as nat),
        k < d ==> is_node(nodes, ancestor(nodes, h, k)),
    decreases k,
{
    if k > 0 {
        match parent(nodes, h) {
            Some(p) => {
                lemma_ancestor_depth(nodes, p, (d - 1) as nat, (k - 1) as nat);
            },
            None => {},
        }
    }
}

/// No node lies deeper than the scene has nodes: the nodes above it are all
/// different.
pub proof fn lemma_depth_bounded(nodes: Seq<SdNode>, h: int, d: nat)
    requires
        has_depth(nodes, h, d),
    ensures
        d <= nodes.len(),
{
    let chain = Seq::new(d, |k: int| ancestor(nodes, h, k as nat));
    assert forall|i: int, j: int| 0 <= i < chain.len() && 0 <= j < chain.len() && i != j implies chain[i]
        != chain[j] by {
        lemma_ancestor_depth(nodes, h, d, i as nat);
        lemma_ancestor_depth(nodes, h, d, j as nat);
        if chain[i] == chain[j] {
            lemma_depth_unique(nodes, chain[i], (d - i) as nat, (d - j) as nat);
        }
    }
    let range = vstd::set_lib::set_int_range(0, nodes.len() as int);
    assert forall|x: int| chain.to_set().contains(x) implies range.contains(x) by {
        let i = choose|i: int| 0 <= i < chain.len() && chain[i] == x;
        lemma_ancestor_depth(nodes, h, d, i as nat);
    }
    chain.unique_seq_to_set();
    vstd::set_lib::lemma_int_range(0, nodes.len() as int);
    vstd::set_lib::lemma_len_subset(chain.to_set(), range);
}

/// The depth of a root is zero, and the depth of any other node is one more
/// than the depth of the operator that combines it.
pub proof fn lemma_depth_step(nodes: Seq<SdNode>, h: int)
    requires
        is_rooted(nodes, h),
    ensures
        has_depth(nodes, h, depth(nodes, h)),
        parent(nodes, h) is None ==> depth(nodes, h) == 0,
        parent(nodes, h) matches Some(p) ==> is_rooted(nodes, p) && depth(nodes, h) == 1 + depth(
            nodes,
            p,
        ),
{
    let d = depth(nodes, h);
    match parent(nodes, h) {
        None => {},
        Some(p) => {
            assert(has_depth(nodes, p, (d - 1) as nat));
            lemma_depth_unique(nodes, p, (d - 1) as nat, depth(nodes, p));
        },
    }
}

/// In a well-formed scene every operator is rooted, and the depth that it
/// records is its depth.
pub proof fn lemma_index_is_depth(nodes: Seq<SdNode>, h: int)
    requires
        well_formed(nodes),
        is_operator(nodes, h),
    ensures
        is_rooted(nodes, h),
        depth(nodes, h) == branch(nodes, h).index.0,
    decreases branch(nodes, h).index.0,
{
    let d = branch(nodes, h).index.0 as nat;
    assert(node_ok(nodes, h));
    match parent(nodes, h) {
        None => {
            assert(has_depth(nodes, h, 0));
        },
        Some(p) => {
            assert(is_operand_of(nodes, h, p));
            lemma_index_is_depth(nodes, p);
            lemma_depth_step(nodes, p);
            assert(has_depth(nodes, h, d));
        },
    }
    lemma_depth_unique(nodes, h, d, depth(nodes, h));
}

impl SdScene {
    /// The scene with no nodes.
    pub fn new() -> (scene: Self)
        ensures
            scene@.len() == 0,
            well_formed(scene@),
    {
        SdScene { nodes: Vec::new() }
    }

    /// Whether `h` is the handle of an operator.
    pub fn is_op(&self, h: usize) -> (r: bool)
        ensures
            r == is_operator(self@, h as int),
    {
        if h < self.nodes.len() {
            match &self.nodes[h].kind {
                SdNodeKind::Operator(_) => true,
                SdNodeKind::Object(_) => false,
            }
        } else {
            false
        }
    }

    /// The handle of the operator that combines `h`, if `h` is a node and
    /// names one.
    pub fn parent_of(&self, h: usize) -> (p: Option<usize>)
        ensures
            match p {
                Some(p) => parent(self@, h as int) == Some(p as int),
                None => parent(self@, h as int) is None,
            },
    {
        if h < self.nodes.len() {
            match self.nodes[h].operated_by {
                Some(p) => Some(p.0),
                None => None,
            }
        } else {
            None
        }
    }

    /// Whether the operator `p` has `h` among its two operands.
    fn has_operand(&self, h: usize, p: usize) -> (r: bool)
        ensures
            r == is_operand_of(self@, h as int, p as int),
    {
        if p < self.nodes.len() {
            match &self.nodes[p].kind {
                SdNodeKind::Operator(b) => b.operating_on.0 == h || b.operating_on.1 == h,
                SdNodeKind::Object(_) => false,
            }
        } else {
            false
        }
    }

    /// Whether the node `h` names `p` as the operator that combines it.
    fn names_parent(&self, h: usize, p: usize) -> (r: bool)
        ensures
            r == (parent(self@, h as int) == Some(p as int)),
    {
        match self.parent_of(h) {
            Some(q) => q == p,
            None => false,
        }
    }

    /// Checks what must hold at the node `h`.
    fn check_node(&self, h: usize) -> (r: bool)
        requires
            h < self@.len(),
        ensures
            r == node_ok(self@, h as int),
    {
        let up: Option<usize> = self.parent_of(h);
        let up_ok: bool = match up {
            Some(p) => self.has_operand(h, p),
            None => true,
        };
        if !up_ok {
            return false;
        }
        match &self.nodes[h].kind {
            SdNodeKind::Object(_) => true,
            SdNodeKind::Operator(b) => {
                let (first, second): (usize, usize) = b.operating_on.get_sd_argunments();
                if first == second || !self.names_parent(first, h) || !self.names_parent(
                    second,
                    h,
                ) {
                    return false;
                }
                match up {
                    None => b.index.0 == 0,
                    Some(p) => {
                        match &self.nodes[p].kind {
                            SdNodeKind::Operator(pb) => pb.index.0 < u32::MAX && b.index.0
                                == pb.index.0 + 1,
                            SdNodeKind::Object(_) => false,
                        }
                    },
                }
            },
        }
    }

    /// Checks that the scene is a forest of binary trees with every depth
    /// recorded.
    pub fn is_well_formed(&self) -> (r: bool)
        ensures
            r == well_formed(self@),
    {
        let mut h: usize = 0;
        while h < self.nodes.len()
            invariant
                h <= self@.len(),
                forall|k: int| 0 <= k < h ==> #[trigger] node_ok(self@, k),
            decreases self@.len() - h,
        {
            if !self.check_node(h) {
                return false;
            }
            h += 1;
        }
        true
    }

    /// Records `index` as the depth of `entity` if `entity` is an operator,
    /// and changes nothing if it is not.
    pub fn set_index(&mut self, entity: usize, index: u32)
        ensures
            final(self)@.len() == old(self)@.len(),
            forall|h: int| is_node(old(self)@, h) && h != entity ==> final(self)@[h] == old(self)@[h],
            is_operator(old(self)@, entity as int) ==> final(self)@[entity as int] == (SdNode {
                kind: SdNodeKind::Operator(
                    SdBranch { index: SdIndex(index), ..branch(old(self)@, entity as int) },
                ),
                operated_by: old(self)@[entity as int].operated_by,
            }),
            !is_operator(old(self)@, entity as int) ==> final(self)@ == old(self)@,
    {
        if entity < self.nodes.len() {
            let up: Option<SdOperatedBy> = self.nodes[entity].operated_by;
            let changed: Option<SdBranch> = match &self.nodes[entity].kind {
                SdNodeKind::Operator(b) => Some(
                    SdBranch {
                        blend: b.blend,
                        index: SdIndex(index),
                        operating_on: b.operating_on,
                    },
                ),
                SdNodeKind::Object(_) => None,
            };
            match changed {
                Some(b) => {
                    self.nodes.set(entity, SdNode { kind: SdNodeKind::Operator(b), operated_by: up });
                },
                None => {},
            }
        }
    }

    /// Counts the operators above `entity` by going up from it, and records
    /// the count as the depth of `entity` if `entity` is an operator. Gives
    /// up, recording nothing, when going up never ends at a root, or ends
    /// beyond what a depth can count.
    pub fn update_sd_index(&mut self, entity: usize) -> (found: Option<u32>)
        ensures
            final(self)@.len() == old(self)@.len(),
            forall|h: int| is_node(old(self)@, h) && h != entity ==> final(self)@[h] == old(self)@[h],
            match found {
                Some(d) => {
                    &&& has_depth(old(self)@, entity as int, d as nat)
                    &&& is_operator(old(self)@, entity as int) ==> final(self)@[entity as int]
                        == (SdNode {
                        kind: SdNodeKind::Operator(
                            SdBranch { index: SdIndex(d), ..branch(old(self)@, entity as int) },
                        ),
                        operated_by: old(self)@[entity as int].operated_by,
                    })
                    &&& !is_operator(old(self)@, entity as int) ==> final(self)@ == old(self)@
                },
                None => {
                    &&& final(self)@ == old(self)@
                    &&& forall|d: nat| has_depth(old(self)@, entity as int, d) ==> d > u32::MAX
                },
            },
    {
        let mut depth: u32 = 0;
        let mut current: usize = entity;
        let mut steps: usize = 0;
        let len: usize = self.nodes.len();
        loop
            invariant
                self@ == old(self)@,
                len == self@.len(),
                steps == depth,
                steps <= len,
                forall|d: nat|
                    has_depth(self@, entity as int, d) <==> d >= depth && has_depth(
                        self@,
                        current as int,
                        (d - depth) as nat,
                    ),
            decreases len - steps,
        {
            match self.parent_of(current) {
                None => {
                    assert(has_depth(self@, current as int, 0));
                    self.set_index(entity, depth);
                    return Some(depth);
                },
                Some(p) => {
                    if steps >= len || depth == u32::MAX {
                        assert forall|d: nat| has_depth(self@, entity as int, d) implies d
                            > u32::MAX by {
                            assert(has_depth(self@, current as int, (d - depth) as nat));
                            lemma_depth_bounded(self@, entity as int, d);
                        }
                        return None;
                    }
                    assert forall|d: nat|
                        has_depth(self@, entity as int, d) <==> d >= depth + 1 && has_depth(
                            self@,
                            p as int,
                            (d - (depth + 1)) as nat,
                        ) by {
                        if d >= depth {
                            let e = (d - depth) as nat;
                            assert(has_depth(self@, current as int, e) <==> e > 0 && has_depth(
                                self@,
                                p as int,
                                (e - 1) as nat,
                            ));
                        }
                    }
                    current = p;
                    depth = depth + 1;
                    steps = steps + 1;
                },
            }
        }
    }

    /// Records the depth of every operator, each counted by going up from
    /// it. Stops at the first operator from which going up never ends at a
    /// root, or ends beyond what a depth can count; the depths recorded
    /// until then stay.
    pub fn update_indices(&mut self) -> (done: bool)
        ensures
            same_links(old(self)@, final(self)@),
            done ==> forall|h: int|
                is_operator(final(self)@, h) ==> has_depth(
                    final(self)@,
                    h,
                    (#[trigger] branch(final(self)@, h)).index.0 as nat,
                ),
            !done ==> exists|h: int|
                is_operator(old(self)@, h) && forall|d: nat| #[trigger]
                    has_depth(old(self)@, h, d) ==> d > u32::MAX,
    {
        let len: usize = self.nodes.len();
        let mut h: usize = 0;
        while h < len
            invariant
                h <= len,
                len == self@.len(),
                same_links(old(self)@, self@),
                forall|g: int|
                    0 <= g < h && is_operator(self@, g) ==> has_depth(
                        self@,
                        g,
                        (#[trigger] branch(self@, g)).index.0 as nat,
                    ),
            decreases len - h,
        {
            if self.is_op(h) {
                let ghost before = self@;
                let found: Option<u32> = self.update_sd_index(h);
                proof {
                    lemma_same_links_same_depths(old(self)@, before);
                }
                match found {
                    None => {
                        proof {
                            let at = h as int;
                            assert(is_operator(old(self)@, at));
                            assert forall|d: nat| #[trigger]
                                has_depth(old(self)@, at, d) implies d > u32::MAX by {
                                assert(has_depth(before, at, d));
                            }
                        }
                        return false;
                    },
                    Some(d) => {
                        proof {
                            assert(same_links(before, self@)) by {
                                assert forall|g: int| is_node(before, g) implies same_link(
                                    #[trigger] before[g],
                                    self@[g],
                                ) by {
                                    if g != h {
                                        assert(self@[g] == before[g]);
                                    }
                                }
                            }
                            lemma_same_links_same_depths(before, self@);
                            assert forall|g: int| 0 <= g < h + 1 && is_operator(self@, g) implies has_depth(
                                self@,
                                g,
                                (#[trigger] branch(self@, g)).index.0 as nat,
                            ) by {
                                if g < h {
                                    assert(self@[g] == before[g]);
                                    assert(is_operator(before, g));
                                    assert(has_depth(before, g, branch(before, g).index.0 as nat));
                                } else {
                                    assert(has_depth(before, g, d as nat));
                                }
                            }
                            assert(same_links(old(self)@, self@)) by {
                                assert forall|g: int| is_node(old(self)@, g) implies same_link(
                                    #[trigger] old(self)@[g],
                                    self@[g],
                                ) by {
                                    assert(same_link(old(self)@[g], before[g]));
                                    assert(same_link(before[g], self@[g]));
                                }
                            }
                        }
                    },
                }
            }
            h += 1;
        }
        true
    }
}

/// Whether two nodes are the same but for the depth recorded.
pub open spec fn same_link(a: SdNode, b: SdNode) -> bool {
    &&& a.operated_by == b.operated_by
    &&& match (a.kind, b.kind) {
        (SdNodeKind::Operator(x), SdNodeKind::Operator(y)) => x.blend == y.blend && x.operating_on
            == y.operating_on,
        (SdNodeKind::Object(_), SdNodeKind::Object(_)) => a == b,
        _ => false,
    }
}

/// Whether two scenes are the same but for the depths recorded.
pub open spec fn same_links(a: Seq<SdNode>, b: Seq<SdNode>) -> bool {
    &&& a.len() == b.len()
    &&& forall|h: int| is_node(a, h) ==> same_link(#[trigger] a[h], b[h])
}

/// The depth of a node does not hang on the depths recorded.
pub proof fn lemma_same_links_same_depths(a: Seq<SdNode>, b: Seq<SdNode>)
    requires
        same_links(a, b),
    ensures
        forall|h: int, d: nat| has_depth(a, h, d) == #[trigger] has_depth(b, h, d),
        forall|h: int| is_operator(a, h) == #[trigger] is_operator(b, h),
{
    assert forall|h: int, d: nat| has_depth(a, h, d) == #[trigger] has_depth(b, h, d) by {
        lemma_same_link_same_depth(a, b, h, d);
    }
    assert forall|h: int| is_operator(a, h) == #[trigger] is_operator(b, h) by {
        if is_node(a, h) {
            assert(same_link(a[h], b[h]));
        }
    }
}

/// Whether `h` lies `d` below a root is the same in two scenes that are the
/// same but for the depths recorded.
proof fn lemma_same_link_same_depth(a: Seq<SdNode>, b: Seq<SdNode>, h: int, d: nat)
    requires
        same_links(a, b),
    ensures
        has_depth(a, h, d) == has_depth(b, h, d),
    decreases d,
{
    if is_node(a, h) {
        assert(same_link(a[h], b[h]));
    }
    assert(parent(a, h) == parent(b, h));
    match parent(a, h) {
        Some(p) => {
            if d > 0 {
                lemma_same_link_same_depth(a, b, p, (d - 1) as nat);
            }
        },
        None => {},
    }
}

} // verus!
