//! The mathematical model of a node tree, and the rules of composition,
//! flattening, paint order and hit testing stated over it.
use vstd::prelude::*;
use crate::geometry::{covers, fold_extent, fold_point, pair_in_range};
use crate::context::Handler;

verus! {

/// What distinguishes one kind of node from another; the engine never
/// changes it.
pub enum Kind {
    Rect { color: (u8, u8, u8, u8), radius: int },
    Img { radius: int, texture: Seq<u8> },
    Text { content: Seq<char>, color: (u8, u8, u8, u8), bound: (i32, i32), on_click: Option<Handler> },
    Empty,
}

/// A node and, below it, the nodes it owns.
pub struct Shape {
    pub kind: Kind,
    pub position: (int, int),
    pub size: (int, int),
    pub depth: int,
    pub id: int,
    pub children: Seq<Shape>,
}

/// The click handler a node carries.
pub open spec fn handler_of(s: Shape) -> Option<Handler> {
    match s.kind {
        Kind::Text { on_click, .. } => on_click,
        _ => None,
    }
}

/// Moves a subtree under a parent whose box is at `pos` with extent `size`:
/// the subtree's root takes `depth`, each level below it one less, and every
/// box in it is folded through the parent's box once.
pub open spec fn place(s: Shape, depth: int, pos: (int, int), size: (int, int)) -> Shape
    decreases s, 0int,
{
    Shape {
        position: fold_point(s.position, pos, size),
        size: fold_extent(s.size, size),
        depth: depth,
        children: place_all(s.children, depth - 1, pos, size),
        ..s
    }
}

/// `place` on each of a sequence of siblings.
pub open spec fn place_all(kids: Seq<Shape>, depth: int, pos: (int, int), size: (int, int)) -> Seq<Shape>
    decreases kids, kids.len(),
{
    if kids.len() == 0 {
        seq![]
    } else {
        place_all(kids.drop_last(), depth, pos, size).push(place(kids.last(), depth, pos, size))
    }
}

/// `place_all` places each sibling on its own.
pub proof fn lemma_place_all_index(kids: Seq<Shape>, depth: int, pos: (int, int), size: (int, int))
    ensures
        place_all(kids, depth, pos, size).len() == kids.len(),
        forall|i: int|
            0 <= i < kids.len() ==> #[trigger] place_all(kids, depth, pos, size)[i] == place(kids[i], depth, pos, size),
    decreases kids.len(),
{
    if kids.len() > 0 {
        lemma_place_all_index(kids.drop_last(), depth, pos, size);
    }
}

/// After placement, along every edge of the subtree depth drops by exactly
/// one, whatever the depths were before.
pub proof fn lemma_place_steps(s: Shape, depth: int, pos: (int, int), size: (int, int))
    ensures
        steps(place(s, depth, pos, size)),
        place(s, depth, pos, size).depth == depth,
    decreases s, 0int,
{
    lemma_place_all_index(s.children, depth - 1, pos, size);
    lemma_place_all_steps(s.children, depth - 1, pos, size);
    let p = place(s, depth, pos, size);
    assert forall|i: int| 0 <= i < p.children.len() implies {
        &&& (#[trigger] p.children[i]).depth == p.depth - 1
        &&& steps(p.children[i])
    } by {
        assert(p.children[i] == place(s.children[i], depth - 1, pos, size));
    }
}

/// `lemma_place_steps` for each of a sequence of siblings.
pub proof fn lemma_place_all_steps(kids: Seq<Shape>, depth: int, pos: (int, int), size: (int, int))
    ensures
        forall|i: int| 0 <= i < kids.len() ==> steps(#[trigger] place(kids[i], depth, pos, size)),
        forall|i: int| 0 <= i < kids.len() ==> (#[trigger] place(kids[i], depth, pos, size)).depth == depth,
    decreases kids, kids.len(),
{
    if kids.len() > 0 {
        let init = kids.drop_last();
        lemma_place_all_steps(init, depth, pos, size);
        lemma_place_steps(kids.last(), depth, pos, size);
        assert forall|i: int| 0 <= i < kids.len() implies steps(#[trigger] place(kids[i], depth, pos, size)) by {
            if i < init.len() {
                assert(init[i] == kids[i]);
            }
        }
    }
}

/// The children of a placed tree that fits are placed trees that fit.
pub proof fn lemma_place_kids(s: Shape, depth: int, pos: (int, int), size: (int, int))
    requires
        fits(place(s, depth, pos, size)),
    ensures
        forall|i: int|
            0 <= i < s.children.len() ==> fits(#[trigger] place(s.children[i], depth - 1, pos, size)),
{
    lemma_place_all_index(s.children, depth - 1, pos, size);
    let p = place(s, depth, pos, size);
    assert forall|i: int| 0 <= i < s.children.len() implies fits(#[trigger] place(s.children[i], depth - 1, pos, size)) by {
        assert(p.children[i] == place(s.children[i], depth - 1, pos, size));
    }
}

/// The tree `parent` becomes when `child` is appended to its children:
/// the child is placed one level below the parent, inside the parent's box.
pub open spec fn adopt(parent: Shape, child: Shape) -> Shape {
    Shape {
        children: parent.children.push(place(child, parent.depth - 1, parent.position, parent.size)),
        ..parent
    }
}

/// Every stored value of every node of the tree fits its machine type.
pub open spec fn fits(s: Shape) -> bool
    decreases s,
{
    &&& pair_in_range(s.position)
    &&& pair_in_range(s.size)
    &&& i32::MIN <= s.depth <= i32::MAX
    &&& forall|i: int| 0 <= i < s.children.len() ==> fits(#[trigger] s.children[i])
}

/// Along every edge of the tree, depth drops by exactly one.
pub open spec fn steps(s: Shape) -> bool
    decreases s,
{
    forall|i: int|
        0 <= i < s.children.len() ==> {
            &&& (#[trigger] s.children[i]).depth == s.depth - 1
            &&& steps(s.children[i])
        }
}

/// A tree that the library's operations accept and produce.
pub open spec fn well_formed(s: Shape) -> bool {
    fits(s) && steps(s)
}

/// The node alone, its children taken away.
pub open spec fn strip(s: Shape) -> Shape {
    Shape { children: seq![], ..s }
}

/// The node with identity `id`.
pub open spec fn with_id(s: Shape, id: int) -> Shape {
    Shape { id: id, ..s }
}

/// Every node of the tree, childless, in initialization order: a node
/// before its descendants, siblings in the order they were added.
pub open spec fn flatten(s: Shape) -> Seq<Shape>
    decreases s, 0int,
{
    seq![strip(s)] + flatten_all(s.children)
}

/// `flatten` on each of a sequence of siblings, concatenated.
pub open spec fn flatten_all(kids: Seq<Shape>) -> Seq<Shape>
    decreases kids, kids.len(),
{
    if kids.len() == 0 {
        seq![]
    } else {
        flatten_all(kids.drop_last()) + flatten(kids.last())
    }
}

/// The number of nodes of the tree.
pub open spec fn count(s: Shape) -> nat
    decreases s, 0int,
{
    1 + count_all(s.children)
}

/// The number of nodes of a sequence of sibling trees.
pub open spec fn count_all(kids: Seq<Shape>) -> nat
    decreases kids, kids.len(),
{
    if kids.len() == 0 {
        0
    } else {
        count_all(kids.drop_last()) + count(kids.last())
    }
}

/// `sorted` is `flat` reordered: `p` maps each entry of `sorted` to the
/// entry of `flat` it came from and `q` is its inverse; depth descends along
/// `sorted`, and entries of equal depth keep the order they had in `flat`.
pub open spec fn is_depth_order(flat: Seq<Shape>, sorted: Seq<Shape>, p: Seq<int>, q: Seq<int>) -> bool {
    &&& sorted.len() == flat.len()
    &&& p.len() == flat.len()
    &&& q.len() == flat.len()
    &&& forall|k: int|
        0 <= k < sorted.len() ==> {
            &&& 0 <= #[trigger] p[k] < sorted.len()
            &&& q[p[k]] == k
            &&& sorted[k] == flat[p[k]]
        }
    &&& forall|j: int| 0 <= j < sorted.len() ==> 0 <= #[trigger] q[j] < sorted.len() && p[q[j]] == j
    &&& forall|a: int, b: int|
        0 <= a < b < sorted.len() ==> {
            ||| (#[trigger] sorted[a]).depth > (#[trigger] sorted[b]).depth
            ||| (sorted[a].depth == sorted[b].depth && p[a] < p[b])
        }
}

/// Inserting `x` where the entries of greater or equal depth end keeps a
/// depth order, with `x` taken as the last entry of the source.
pub proof fn lemma_insert_in_depth_order(
    flat: Seq<Shape>,
    sorted: Seq<Shape>,
    p: Seq<int>,
    q: Seq<int>,
    x: Shape,
    k: int,
)
    requires
        is_depth_order(flat, sorted, p, q),
        0 <= k <= sorted.len(),
        forall|j: int| 0 <= j < k ==> (#[trigger] sorted[j]).depth >= x.depth,
        forall|j: int| k <= j < sorted.len() ==> (#[trigger] sorted[j]).depth < x.depth,
    ensures
        is_depth_order(
            flat.push(x),
            sorted.insert(k, x),
            p.insert(k, flat.len() as int),
            shift_from(q, k).push(k),
        ),
{
    let n = flat.len() as int;
    let f_next = flat.push(x);
    let s_next = sorted.insert(k, x);
    let p_next = p.insert(k, n);
    let q_next = shift_from(q, k).push(k);
    assert forall|a: int| 0 <= a < s_next.len() implies {
        &&& 0 <= #[trigger] p_next[a] < s_next.len()
        &&& q_next[p_next[a]] == a
        &&& s_next[a] == f_next[p_next[a]]
    } by {
        if a < k {
            assert(p_next[a] == p[a]);
            assert(q_next[p[a]] == q[p[a]]);
        } else if a > k {
            assert(p_next[a] == p[a - 1]);
            assert(q_next[p[a - 1]] == q[p[a - 1]] + 1);
        }
    }
    assert forall|j: int| 0 <= j < s_next.len() implies 0 <= #[trigger] q_next[j] < s_next.len() && p_next[q_next[j]] == j by {
        if j < n {
            if q[j] >= k {
                assert(p_next[q[j] + 1] == p[q[j]]);
            } else {
                assert(p_next[q[j]] == p[q[j]]);
            }
        }
    }
    assert forall|a: int, b: int| 0 <= a < b < s_next.len() implies {
        ||| (#[trigger] s_next[a]).depth > (#[trigger] s_next[b]).depth
        ||| (s_next[a].depth == s_next[b].depth && p_next[a] < p_next[b])
    } by {
        if b < k {
            assert(s_next[a] == sorted[a] && s_next[b] == sorted[b]);
        } else if b == k {
            assert(s_next[a] == sorted[a]);
        } else if a < k {
            assert(s_next[a] == sorted[a] && s_next[b] == sorted[b - 1]);
        } else if a == k {
            assert(s_next[b] == sorted[b - 1]);
        } else {
            assert(s_next[a] == sorted[a - 1] && s_next[b] == sorted[b - 1]);
        }
    }
}

/// Each position at or after `k` moved one place up.
pub open spec fn shift_from(q: Seq<int>, k: int) -> Seq<int> {
    Seq::new(q.len(), |j: int| if q[j] >= k { q[j] + 1 } else { q[j] })
}

/// `reg` is `flat` in paint order, entry `k` of it carrying identity `k`:
/// `p` maps each entry of `reg` to the entry of `flat` it came from and `q`
/// is its inverse; depth descends along `reg`, and entries of equal depth
/// keep the order they had in `flat`.
pub open spec fn is_paint_order(flat: Seq<Shape>, reg: Seq<Shape>, p: Seq<int>, q: Seq<int>) -> bool {
    &&& reg.len() == flat.len()
    &&& p.len() == flat.len()
    &&& q.len() == flat.len()
    &&& forall|k: int|
        0 <= k < reg.len() ==> {
            &&& 0 <= #[trigger] p[k] < reg.len()
            &&& q[p[k]] == k
            &&& reg[k] == with_id(flat[p[k]], k)
        }
    &&& forall|j: int| 0 <= j < reg.len() ==> 0 <= #[trigger] q[j] < reg.len() && p[q[j]] == j
    &&& forall|a: int, b: int|
        0 <= a < b < reg.len() ==> {
            ||| (#[trigger] reg[a]).depth > (#[trigger] reg[b]).depth
            ||| (reg[a].depth == reg[b].depth && p[a] < p[b])
        }
}

/// Numbering the entries of a depth order gives a paint order.
pub proof fn lemma_numbered_paint_order(flat: Seq<Shape>, sorted: Seq<Shape>, reg: Seq<Shape>, p: Seq<int>, q: Seq<int>)
    requires
        is_depth_order(flat, sorted, p, q),
        reg.len() == sorted.len(),
        forall|k: int| 0 <= k < reg.len() ==> #[trigger] reg[k] == with_id(sorted[k], k),
    ensures
        is_paint_order(flat, reg, p, q),
{
    assert forall|a: int, b: int| 0 <= a < b < reg.len() implies {
        ||| (#[trigger] reg[a]).depth > (#[trigger] reg[b]).depth
        ||| (reg[a].depth == reg[b].depth && p[a] < p[b])
    } by {
        assert(reg[a].depth == sorted[a].depth && reg[b].depth == sorted[b].depth);
    }
}

/// A tree has `count` nodes in its flattening, and where the tree fits so
/// does each of them.
pub proof fn lemma_flatten(s: Shape)
    ensures
        flatten(s).len() == count(s),
        fits(s) ==> forall|k: int| 0 <= k < flatten(s).len() ==> fits(#[trigger] flatten(s)[k]),
    decreases s, 0int,
{
    lemma_flatten_all(s.children);
    let f = flatten(s);
    if fits(s) {
        assert forall|k: int| 0 <= k < f.len() implies fits(#[trigger] f[k]) by {
            if k == 0 {
                assert(f[0] == strip(s));
            } else {
                assert(f[k] == flatten_all(s.children)[k - 1]);
                assert forall|i: int| 0 <= i < s.children.len() implies fits(#[trigger] s.children[i]) by {}
            }
        }
    }
}

/// `lemma_flatten` for a sequence of sibling trees.
pub proof fn lemma_flatten_all(kids: Seq<Shape>)
    ensures
        flatten_all(kids).len() == count_all(kids),
        (forall|i: int| 0 <= i < kids.len() ==> fits(#[trigger] kids[i])) ==> forall|k: int|
            0 <= k < flatten_all(kids).len() ==> fits(#[trigger] flatten_all(kids)[k]),
    decreases kids, kids.len(),
{
    if kids.len() > 0 {
        let init = kids.drop_last();
        lemma_flatten_all(init);
        lemma_flatten(kids.last());
        if forall|i: int| 0 <= i < kids.len() ==> fits(#[trigger] kids[i]) {
            assert forall|i: int| 0 <= i < init.len() implies fits(#[trigger] init[i]) by {
                assert(init[i] == kids[i]);
            }
            assert(fits(kids[kids.len() - 1]));
            let f = flatten_all(kids);
            let a = flatten_all(init);
            assert forall|k: int| 0 <= k < f.len() implies fits(#[trigger] f[k]) by {
                if k < a.len() {
                    assert(f[k] == a[k]);
                } else {
                    assert(f[k] == flatten(kids.last())[k - a.len()]);
                }
            }
        }
    }
}

/// `reg` holds the nodes of `flat` in paint order.
pub open spec fn paint_order(flat: Seq<Shape>, reg: Seq<Shape>) -> bool {
    exists|p: Seq<int>, q: Seq<int>| is_paint_order(flat, reg, p, q)
}

/// The corners of the box of `s`: bottom left, bottom right, top right,
/// top left.
pub open spec fn quad_of(s: Shape) -> Seq<(int, int)> {
    let (x, y) = s.position;
    let (w, h) = s.size;
    seq![(x, y + h), (x + w, y + h), (x + w, y), (x, y)]
}

/// The box of `s` contains the point `pt`.
pub open spec fn contains(s: Shape, pt: (int, int)) -> bool {
    covers(s.position, s.size, pt)
}

/// Entry `k` is the last entry of `reg` whose box contains `pt`.
pub open spec fn topmost(reg: Seq<Shape>, pt: (int, int), k: int) -> bool {
    &&& 0 <= k < reg.len()
    &&& contains(reg[k], pt)
    &&& forall|j: int| k < j < reg.len() ==> !contains(#[trigger] reg[j], pt)
}

/// No entry of `reg` contains `pt`.
pub open spec fn missed(reg: Seq<Shape>, pt: (int, int)) -> bool {
    forall|j: int| 0 <= j < reg.len() ==> !contains(#[trigger] reg[j], pt)
}

} // verus!
