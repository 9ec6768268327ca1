//! The order in which the compiler visits the operators: deepest first, and
//! among operators of one depth the one with the greater handle first.
use crate::engine::hierarchy::{branch, is_operator, SdNode, SdNodeKind, SdScene};
use vstd::prelude::*;

verus! {

/// Whether the operator `a` is visited before the operator `b`.
pub open spec fn comes_before(nodes: Seq<SdNode>, a: int, b: int) -> bool {
    let da = branch(nodes, a).index.0;
    let db = branch(nodes, b).index.0;
    da > db || (da == db && a > b)
}

/// Whether `order` lists every operator of the scene once, each before all
/// those that are visited after it.
pub open spec fn is_traversal_order(nodes: Seq<SdNode>, order: Seq<int>) -> bool {
    &&& forall|i: int| 0 <= i < order.len() ==> is_operator(nodes, #[trigger] order[i])
    &&& forall|h: int| #[trigger] is_operator(nodes, h) ==> order.contains(h)
    &&& forall|i: int, j: int|
        0 <= i < j < order.len() ==> comes_before(nodes, #[trigger] order[i], #[trigger] order[j])
}

/// The order in which the operators of the scene are visited.
pub open spec fn traversal_order(nodes: Seq<SdNode>) -> Seq<int> {
    choose|order: Seq<int>| is_traversal_order(nodes, order)
}

/// A scene has one traversal order only.
pub proof fn lemma_traversal_order_unique(nodes: Seq<SdNode>, a: Seq<int>, b: Seq<int>)
    requires
        is_traversal_order(nodes, a),
        is_traversal_order(nodes, b),
    ensures
        a == b,
{
    lemma_same_length(nodes, a, b);
    lemma_same_length(nodes, b, a);
    assert forall|i: int| 0 <= i < a.len() implies a[i] == b[i] by {
        lemma_same_at(nodes, a, b, i);
    }
    assert(a =~= b);
}

/// Two traversal orders of one scene agree up to and at position `i`.
proof fn lemma_same_at(nodes: Seq<SdNode>, a: Seq<int>, b: Seq<int>, i: int)
    requires
        is_traversal_order(nodes, a),
        is_traversal_order(nodes, b),
        0 <= i < a.len(),
        a.len() == b.len(),
    ensures
        a[i] == b[i],
    decreases i,
{
    if i > 0 {
        lemma_same_at(nodes, a, b, i - 1);
    }
    assert forall|k: int| 0 <= k < i implies a[k] == b[k] by {
        lemma_same_at(nodes, a, b, k);
    }
    // a[i] stands somewhere in b and b[i] somewhere in a, neither among the
    // first i, which agree; so each comes no later than the other.
    assert(is_operator(nodes, a[i]));
    assert(is_operator(nodes, b[i]));
    assert(b.contains(a[i]));
    assert(a.contains(b[i]));
    let j = choose|j: int| 0 <= j < b.len() && b[j] == a[i];
    let k = choose|k: int| 0 <= k < a.len() && a[k] == b[i];
    if j < i {
        assert(a[j] == b[j]);
        assert(comes_before(nodes, a[j], a[i]));
    }
    if k < i {
        assert(a[k] == b[k]);
        assert(comes_before(nodes, b[k], b[i]));
    }
    if j > i {
        assert(comes_before(nodes, b[i], b[j]));
    }
    if k > i {
        assert(comes_before(nodes, a[i], a[k]));
    }
}

/// A traversal order is no longer than another of the same scene.
proof fn lemma_same_length(nodes: Seq<SdNode>, a: Seq<int>, b: Seq<int>)
    requires
        is_traversal_order(nodes, a),
        is_traversal_order(nodes, b),
    ensures
        a.len() <= b.len(),
{
    assert(a.no_duplicates()) by {
        assert forall|i: int, j: int| 0 <= i < a.len() && 0 <= j < a.len() && i != j implies a[i]
            != a[j] by {
            if i < j {
                assert(comes_before(nodes, a[i], a[j]));
            } else {
                assert(comes_before(nodes, a[j], a[i]));
            }
        }
    }
    assert forall|x: int| a.to_set().contains(x) implies b.to_set().contains(x) by {
        let i = choose|i: int| 0 <= i < a.len() && a[i] == x;
        assert(is_operator(nodes, a[i]));
        assert(b.contains(x));
    }
    a.unique_seq_to_set();
    b.lemma_cardinality_of_set();
    vstd::set_lib::lemma_len_subset(a.to_set(), b.to_set());
}

/// Whether `order` lists every operator with a handle below `bound` once,
/// each before all those that are visited after it.
spec fn is_order_below(nodes: Seq<SdNode>, order: Seq<int>, bound: int) -> bool {
    &&& forall|i: int|
        0 <= i < order.len() ==> is_operator(nodes, #[trigger] order[i]) && order[i] < bound
    &&& forall|h: int| h < bound && #[trigger] is_operator(nodes, h) ==> order.contains(h)
    &&& forall|i: int, j: int|
        0 <= i < j < order.len() ==> comes_before(nodes, #[trigger] order[i], #[trigger] order[j])
}

/// Where an operator that is not in `order` goes: after all that are
/// visited before it, and before all that are visited after it.
proof fn lemma_place(nodes: Seq<SdNode>, order: Seq<int>, h: int) -> (p: int)
    requires
        forall|i: int, j: int|
            0 <= i < j < order.len() ==> comes_before(
                nodes,
                #[trigger] order[i],
                #[trigger] order[j],
            ),
        forall|i: int| 0 <= i < order.len() ==> #[trigger] order[i] != h,
    ensures
        0 <= p <= order.len(),
        forall|i: int| 0 <= i < p ==> comes_before(nodes, #[trigger] order[i], h),
        forall|i: int| p <= i < order.len() ==> comes_before(nodes, h, #[trigger] order[i]),
    decreases order.len(),
{
    if order.len() == 0 {
        0
    } else if comes_before(nodes, order.last(), h) {
        assert forall|i: int| 0 <= i < order.len() implies comes_before(
            nodes,
            #[trigger] order[i],
            h,
        ) by {
            if i < order.len() - 1 {
                assert(comes_before(nodes, order[i], order[order.len() - 1]));
            }
        }
        order.len() as int
    } else {
        let rest = order.drop_last();
        assert forall|i: int, j: int| 0 <= i < j < rest.len() implies comes_before(
            nodes,
            #[trigger] rest[i],
            #[trigger] rest[j],
        ) by {
            assert(rest[i] == order[i] && rest[j] == order[j]);
        }
        assert forall|i: int| 0 <= i < rest.len() implies #[trigger] rest[i] != h by {
            assert(rest[i] == order[i]);
        }
        let p = lemma_place(nodes, rest, h);
        assert(order[order.len() - 1] != h);
        assert forall|i: int| 0 <= i < p implies comes_before(nodes, #[trigger] order[i], h) by {
            assert(rest[i] == order[i]);
        }
        assert forall|i: int| p <= i < order.len() implies comes_before(
            nodes,
            h,
            #[trigger] order[i],
        ) by {
            if i < order.len() - 1 {
                assert(rest[i] == order[i]);
            }
        }
        p
    }
}

/// The operators with a handle below `bound` can be put in order.
proof fn lemma_order_below(nodes: Seq<SdNode>, bound: nat) -> (order: Seq<int>)
    ensures
        is_order_below(nodes, order, bound as int),
    decreases bound,
{
    if bound == 0 {
        Seq::empty()
    } else {
        let h = bound - 1;
        let rest = lemma_order_below(nodes, (bound - 1) as nat);
        if is_operator(nodes, h) {
            let p = lemma_place(nodes, rest, h);
            let order = rest.insert(p, h);
            assert forall|i: int| 0 <= i < order.len() implies is_operator(
                nodes,
                #[trigger] order[i],
            ) && order[i] < bound by {
                if i < p {
                    assert(order[i] == rest[i]);
                } else if i > p {
                    assert(order[i] == rest[i - 1]);
                }
            }
            assert forall|g: int| g < bound && #[trigger] is_operator(nodes, g) implies order.contains(
                g,
            ) by {
                if g == h {
                    assert(order[p] == h);
                } else {
                    assert(rest.contains(g));
                    let i = choose|i: int| 0 <= i < rest.len() && rest[i] == g;
                    if i < p {
                        assert(order[i] == g);
                    } else {
                        assert(order[i + 1] == g);
                    }
                }
            }
            assert forall|i: int, j: int| 0 <= i < j < order.len() implies comes_before(
                nodes,
                #[trigger] order[i],
                #[trigger] order[j],
            ) by {
                let a = if i < p {
                    i
                } else {
                    i - 1
                };
                let b = if j < p {
                    j
                } else {
                    j - 1
                };
                if i != p {
                    assert(order[i] == rest[a]);
                }
                if j != p {
                    assert(order[j] == rest[b]);
                }
                if i != p && j != p {
                    assert(comes_before(nodes, rest[a], rest[b]));
                }
            }
            order
        } else {
            assert forall|g: int| g < bound && #[trigger] is_operator(nodes, g) implies rest.contains(
                g,
            ) by {
                assert(g < bound - 1);
            }
            rest
        }
    }
}

/// Every scene has a traversal order.
pub proof fn lemma_traversal_order_exists(nodes: Seq<SdNode>)
    ensures
        is_traversal_order(nodes, traversal_order(nodes)),
{
    let order = lemma_order_below(nodes, nodes.len());
    assert(is_traversal_order(nodes, order));
}

/// Whether the key `a` sorts at or before the key `b`: by depth, then by
/// handle.
pub open spec fn key_le(a: (u32, usize), b: (u32, usize)) -> bool {
    a.0 < b.0 || (a.0 == b.0 && a.1 <= b.1)
}

/// Sorts the keys in ascending order with `sort_unstable` of the standard
/// library. Taken on trust: the keys afterwards are those before, each as
/// often as before, and no key stands before a smaller one. Pairs of
/// integers are ordered by their first parts, then by their second.
#[verifier::external_body]
fn sort_keys(keys: &mut Vec<(u32, usize)>)
    ensures
        final(keys)@.to_multiset() == old(keys)@.to_multiset(),
        forall|i: int, j: int|
            0 <= i < j < final(keys)@.len() ==> key_le(
                #[trigger] final(keys)@[i],
                #[trigger] final(keys)@[j],
            ),
{
    keys.sort_unstable();
}

/// Whether `keys` holds the key of every operator below `bound`, in
/// ascending order of handle, and nothing else.
spec fn keys_of_operators_below(nodes: Seq<SdNode>, keys: Seq<(u32, usize)>, bound: int) -> bool {
    &&& forall|k: int|
        0 <= k < keys.len() ==> {
            &&& is_operator(nodes, (#[trigger] keys[k]).1 as int)
            &&& keys[k].1 < bound
            &&& keys[k].0 == branch(nodes, keys[k].1 as int).index.0
        }
    &&& forall|k: int, m: int| 0 <= k < m < keys.len() ==> (#[trigger] keys[k]).1 < (#[trigger] keys[m]).1
    &&& forall|h: int|
        0 <= h < bound && #[trigger] is_operator(nodes, h) ==> exists|k: int|
            0 <= k < keys.len() && (#[trigger] keys[k]).1 == h
}

/// The key of every operator, in ascending order of handle.
fn operator_keys(scene: &SdScene) -> (keys: Vec<(u32, usize)>)
    ensures
        keys_of_operators_below(scene@, keys@, scene@.len() as int),
{
    let mut keys: Vec<(u32, usize)> = Vec::new();
    let mut h: usize = 0;
    while h < scene.nodes.len()
        invariant
            h <= scene@.len(),
            keys_of_operators_below(scene@, keys@, h as int),
        decreases scene@.len() - h,
    {
        let ghost before = keys@;
        match &scene.nodes[h].kind {
            SdNodeKind::Operator(b) => {
                keys.push((b.index.0, h));
                assert forall|g: int| 0 <= g < h + 1 && #[trigger] is_operator(scene@, g) implies exists|
                    k: int,
                | 0 <= k < keys@.len() && (#[trigger] keys@[k]).1 == g by {
                    if g < h {
                        let k = choose|k: int| 0 <= k < before.len() && (#[trigger] before[k]).1 == g;
                        assert(keys@[k].1 == g);
                    } else {
                        assert(keys@[before.len() as int].1 == g);
                    }
                }
            },
            SdNodeKind::Object(_) => {
                assert forall|g: int| 0 <= g < h + 1 && #[trigger] is_operator(scene@, g) implies exists|
                    k: int,
                | 0 <= k < keys@.len() && (#[trigger] keys@[k]).1 == g by {
                    let k = choose|k: int| 0 <= k < before.len() && (#[trigger] before[k]).1 == g;
                    assert(keys@[k].1 == g);
                }
            },
        }
        h += 1;
    }
    keys
}

/// The handles of a sequence, as integers.
pub open spec fn handles(order: Seq<usize>) -> Seq<int> {
    order.map_values(|h: usize| h as int)
}

/// The operators of the scene in the order in which the compiler visits
/// them.
pub fn traversal(scene: &SdScene) -> (order: Vec<usize>)
    ensures
        is_traversal_order(scene@, handles(order@)),
        handles(order@) == traversal_order(scene@),
{
    let mut keys: Vec<(u32, usize)> = operator_keys(scene);
    let ghost built = keys@;
    sort_keys(&mut keys);
    let ghost sorted = keys@;
    proof {
        broadcast use vstd::seq_lib::group_to_multiset_ensures;

        assert(built.no_duplicates()) by {
            assert forall|i: int, j: int|
                0 <= i < built.len() && 0 <= j < built.len() && i != j implies built[i]
                != built[j] by {
                if i < j {
                    assert(built[i].1 < built[j].1);
                } else {
                    assert(built[j].1 < built[i].1);
                }
            }
        }
        built.lemma_multiset_has_no_duplicates();
        sorted.lemma_multiset_has_no_duplicates_conv();
        vstd::seq_lib::to_multiset_len(sorted);
        vstd::seq_lib::to_multiset_len(built);
        assert(sorted.len() == built.len());
        assert forall|k: int| 0 <= k < sorted.len() implies built.contains(#[trigger] sorted[k]) by {
            assert(sorted.contains(sorted[k]));
            assert(sorted.to_multiset().count(sorted[k]) > 0);
        }
        assert forall|k: int| 0 <= k < built.len() implies sorted.contains(#[trigger] built[k]) by {
            assert(built.contains(built[k]));
            assert(built.to_multiset().count(built[k]) > 0);
        }
    }
    let n: usize = keys.len();
    let mut order: Vec<usize> = Vec::new();
    let mut i: usize = 0;
    while i < n
        invariant
            i <= n,
            n == keys@.len(),
            keys@ == sorted,
            order@.len() == i,
            forall|k: int| 0 <= k < i ==> #[trigger] order@[k] == sorted[n - 1 - k].1,
        decreases n - i,
    {
        order.push(keys[n - 1 - i].1);
        i += 1;
    }
    proof {
        let o = handles(order@);
        assert forall|k: int| 0 <= k < o.len() implies is_operator(scene@, #[trigger] o[k]) by {
            let key = sorted[n - 1 - k];
            assert(built.contains(key));
            let m = choose|m: int| 0 <= m < built.len() && built[m] == key;
            assert(is_operator(scene@, built[m].1 as int));
        }
        assert forall|h: int| #[trigger] is_operator(scene@, h) implies o.contains(h) by {
            let m = choose|m: int| 0 <= m < built.len() && (#[trigger] built[m]).1 == h;
            assert(sorted.contains(built[m]));
            let s = choose|s: int| 0 <= s < sorted.len() && sorted[s] == built[m];
            assert(o[n - 1 - s] == h);
        }
        assert forall|a: int, b: int| 0 <= a < b < o.len() implies comes_before(
            scene@,
            #[trigger] o[a],
            #[trigger] o[b],
        ) by {
            let ka = sorted[n - 1 - a];
            let kb = sorted[n - 1 - b];
            assert(key_le(kb, ka));
            assert(ka != kb);
            assert(built.contains(ka));
            assert(built.contains(kb));
            let ma = choose|m: int| 0 <= m < built.len() && built[m] == ka;
            let mb = choose|m: int| 0 <= m < built.len() && built[m] == kb;
            assert(built[ma].0 == branch(scene@, built[ma].1 as int).index.0);
            assert(built[mb].0 == branch(scene@, built[mb].1 as int).index.0);
        }
        assert(is_traversal_order(scene@, o));
        lemma_traversal_order_unique(scene@, o, traversal_order(scene@));
    }
    order
}

} // verus!
