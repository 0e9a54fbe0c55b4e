//! Properties that hold across the operations of the library.
use vstd::prelude::*;
use crate::geometry::scale;
use crate::model::{
    adopt, contains, count, flatten, is_paint_order, lemma_flatten, lemma_place_all_index,
    lemma_place_steps, missed, paint_order, place, steps, topmost, with_id, Shape,
};
use crate::state::reaches;

verus! {

/// Composition folds each edge of the tree exactly once: in
/// `root → a → b`, the grandchild's box is its own box folded through `a`'s
/// box and then through `root`'s, and its depth is two below the root's.
pub proof fn lemma_fold_composes(root: Shape, a: Shape, b: Shape)
    ensures
        ({
            let inner = adopt(root, adopt(a, b)).children.last().children.last();
            &&& inner.position == (
                root.position.0 + scale(a.position.0 + scale(b.position.0, a.size.0), root.size.0),
                root.position.1 + scale(a.position.1 + scale(b.position.1, a.size.1), root.size.1),
            )
            &&& inner.size == (
                scale(scale(b.size.0, a.size.0), root.size.0),
                scale(scale(b.size.1, a.size.1), root.size.1),
            )
            &&& inner.depth == root.depth - 2
        }),
{
    let a2 = adopt(a, b);
    let r2 = adopt(root, a2);
    let placed_a = r2.children.last();
    lemma_place_all_index(a2.children, root.depth - 2, root.position, root.size);
    assert(placed_a.children.last() == place(a2.children.last(), root.depth - 2, root.position, root.size));
}

/// Composition keeps depth dropping by exactly one along every edge: the
/// new child sits one below its parent, and every edge of its subtree steps
/// by one whatever its depths were before.
pub proof fn lemma_adopt_steps(parent: Shape, child: Shape)
    requires
        steps(parent),
    ensures
        steps(adopt(parent, child)),
        adopt(parent, child).children.last().depth == parent.depth - 1,
{
    let a = adopt(parent, child);
    let n = parent.children.len();
    lemma_place_steps(child, parent.depth - 1, parent.position, parent.size);
    assert forall|i: int| 0 <= i < a.children.len() implies {
        &&& (#[trigger] a.children[i]).depth == a.depth - 1
        &&& steps(a.children[i])
    } by {
        if i < n {
            assert(a.children[i] == parent.children[i]);
        }
    }
}

/// Entry `k` of `reg` is node `p[k]` of `flat`, no two entries come from the
/// same node, and node `j` is entry `q[j]`.
pub open spec fn each_once(flat: Seq<Shape>, reg: Seq<Shape>, p: Seq<int>, q: Seq<int>) -> bool {
    &&& p.len() == reg.len()
    &&& forall|k: int| 0 <= k < reg.len() ==> 0 <= #[trigger] p[k] < flat.len() && reg[k] == with_id(flat[p[k]], k)
    &&& forall|a: int, b: int| 0 <= a < b < reg.len() ==> #[trigger] p[a] != #[trigger] p[b]
    &&& forall|j: int| 0 <= j < flat.len() ==> 0 <= #[trigger] q[j] < reg.len() && p[q[j]] == j
}

/// A registry built from a tree of `count(root)` nodes has that many
/// entries, and each node of the tree stands in exactly one of them.
pub proof fn lemma_registry_complete(root: Shape, reg: Seq<Shape>)
    requires
        paint_order(flatten(root), reg),
    ensures
        reg.len() == count(root),
        exists|p: Seq<int>, q: Seq<int>| #[trigger] each_once(flatten(root), reg, p, q),
{
    let flat = flatten(root);
    lemma_flatten(root);
    let (p, q) = choose|p: Seq<int>, q: Seq<int>| is_paint_order(flat, reg, p, q);
    assert forall|a: int, b: int| 0 <= a < b < reg.len() implies #[trigger] p[a] != #[trigger] p[b] by {
        assert(q[p[a]] == a && q[p[b]] == b);
    }
    assert(each_once(flat, reg, p, q));
}

/// Nodes of equal depth keep, in paint order, the order they had in the
/// flattening.
pub proof fn lemma_ties_keep_order(flat: Seq<Shape>, reg: Seq<Shape>, a: int, b: int)
    requires
        paint_order(flat, reg),
        0 <= a < b < flat.len(),
        flat[a].depth == flat[b].depth,
    ensures
        exists|ka: int, kb: int|
            0 <= ka < kb < reg.len() && reg[ka] == with_id(flat[a], ka) && reg[kb] == with_id(flat[b], kb),
{
    let (p, q) = choose|p: Seq<int>, q: Seq<int>| is_paint_order(flat, reg, p, q);
    let ka = q[a];
    let kb = q[b];
    assert(p[ka] == a && p[kb] == b);
    if kb < ka {
        assert(reg[kb].depth == reg[ka].depth);
        assert(p[kb] < p[ka]);
    }
    assert(ka != kb);
    assert(reg[ka] == with_id(flat[a], ka) && reg[kb] == with_id(flat[b], kb));
}

/// The identities of a registry are exactly `0` to `N - 1`.
pub proof fn lemma_identities_dense(flat: Seq<Shape>, reg: Seq<Shape>)
    requires
        paint_order(flat, reg),
    ensures
        reg.map_values(|s: Shape| s.id).to_set() =~= Set::new(|i: int| 0 <= i < reg.len()),
{
    let (p, q) = choose|p: Seq<int>, q: Seq<int>| is_paint_order(flat, reg, p, q);
    let ids = reg.map_values(|s: Shape| s.id);
    assert forall|i: int| #[trigger] ids.to_set().contains(i) <==> 0 <= i < reg.len() by {
        if 0 <= i < reg.len() {
            assert(reg[i] == with_id(flat[p[i]], i));
            assert(ids[i] == i);
        }
        if ids.to_set().contains(i) {
            let k = choose|k: int| 0 <= k < ids.len() && ids[k] == i;
            assert(reg[k] == with_id(flat[p[k]], k));
        }
    }
}

/// Of the entries under a point, hit testing picks one nearest the viewer:
/// no entry under the point has a smaller depth.
pub proof fn lemma_topmost_is_nearest(flat: Seq<Shape>, reg: Seq<Shape>, pt: (int, int), k: int)
    requires
        paint_order(flat, reg),
        topmost(reg, pt, k),
    ensures
        forall|j: int| 0 <= j < reg.len() && contains(#[trigger] reg[j], pt) ==> reg[k].depth <= reg[j].depth,
{
    let (p, q) = choose|p: Seq<int>, q: Seq<int>| is_paint_order(flat, reg, p, q);
    assert forall|j: int| 0 <= j < reg.len() && contains(#[trigger] reg[j], pt) implies reg[k].depth <= reg[j].depth by {
        if j < k {
            assert(reg[j].depth >= reg[k].depth);
        }
    }
}

/// A click where no entry lies under the pointer reaches no entry.
pub proof fn lemma_miss_reaches_nothing(nodes: Seq<Shape>, pt: (int, int))
    requires
        missed(nodes, pt),
    ensures
        forall|k: int| !reaches(nodes, Some(pt), k),
{
    assert forall|k: int| !reaches(nodes, Some(pt), k) by {
        if 0 <= k < nodes.len() {
            assert(!contains(nodes[k], pt));
        }
    }
}

} // verus!
