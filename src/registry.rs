//! Paint order, identities and hit testing over the flattened node list.
use vstd::prelude::*;
use crate::geometry::{as_ints, covers_exec};
use crate::model::{
    contains, fits, is_depth_order, lemma_insert_in_depth_order, missed, shift_from, topmost,
    with_id,
};
use crate::node::{lemma_shapes_of, shape_of, shapes_of, Comp};

verus! {

/// Reorders `flat` by descending depth, keeping the order of entries of
/// equal depth.
pub fn sort_by_depth(flat: Vec<Comp>) -> (r: Vec<Comp>)
    ensures
        r.len() == flat.len(),
        exists|p: Seq<int>, q: Seq<int>| is_depth_order(shapes_of(flat@), shapes_of(r@), p, q),
{
    let ghost orig = flat@;
    let ghost src = shapes_of(flat@);
    let n = flat.len();
    let mut rest = flat;
    let mut out: Vec<Comp> = Vec::new();
    let ghost mut p: Seq<int> = seq![];
    let ghost mut q: Seq<int> = seq![];
    let mut i: usize = 0;
    proof {
        lemma_shapes_of(orig);
        lemma_shapes_of(out@);
        assert(src.take(0) =~= seq![]);
        assert(shapes_of(out@) =~= seq![]);
    }
    while rest.len() > 0
        invariant
            0 <= i <= orig.len(),
            orig.len() == n,
            src == shapes_of(orig),
            src.len() == orig.len(),
            forall|j: int| 0 <= j < orig.len() ==> #[trigger] src[j] == shape_of(orig[j]),
            rest@ == orig.subrange(i as int, orig.len() as int),
            is_depth_order(src.take(i as int), shapes_of(out@), p, q),
        decreases rest.len(),
    {
        assert(rest@.len() == orig.len() - i);
        let c = rest.remove(0);
        assert(c == orig[i as int]);
        let d = c.depth();
        let ghost sorted = shapes_of(out@);
        proof {
            lemma_shapes_of(out@);
        }
        let mut k: usize = 0;
        while k < out.len() && out[k].depth() >= d
            invariant
                0 <= k <= out.len(),
                sorted == shapes_of(out@),
                sorted.len() == out.len(),
                forall|j: int| 0 <= j < out.len() ==> #[trigger] sorted[j] == shape_of(out@[j]),
                forall|j: int| 0 <= j < k ==> (#[trigger] sorted[j]).depth >= d,
            decreases out.len() - k,
        {
            k = k + 1;
        }
        proof {
            let x = src[i as int];
            assert(x == shape_of(c));
            assert forall|j: int| k <= j < sorted.len() implies (#[trigger] sorted[j]).depth < x.depth by {
                if j > k {
                    assert(sorted[k as int].depth >= sorted[j].depth);
                }
            }
            lemma_insert_in_depth_order(src.take(i as int), sorted, p, q, x, k as int);
            assert(src.take(i as int).push(x) =~= src.take(i as int + 1));
        }
        out.insert(k, c);
        proof {
            p = p.insert(k as int, i as int);
            q = shift_from(q, k as int).push(k as int);
            lemma_shapes_of(out@);
            assert(shapes_of(out@) =~= sorted.insert(k as int, src[i as int]));
            assert(rest@ =~= orig.subrange(i as int + 1, orig.len() as int));
        }
        i = i + 1;
    }
    proof {
        assert(src.take(orig.len() as int) =~= src);
        lemma_shapes_of(out@);
    }
    out
}

/// Gives each entry its index as identity.
pub fn number(list: Vec<Comp>) -> (r: Vec<Comp>)
    requires
        list.len() <= isize::MAX,
    ensures
        r.len() == list.len(),
        forall|k: int| 0 <= k < r.len() ==> #[trigger] shapes_of(r@)[k] == with_id(shapes_of(list@)[k], k),
{
    let ghost orig = list@;
    let n = list.len();
    let mut rest = list;
    let mut out: Vec<Comp> = Vec::new();
    let mut i: usize = 0;
    proof {
        lemma_shapes_of(orig);
    }
    while rest.len() > 0
        invariant
            0 <= i <= orig.len(),
            orig.len() == n,
            n <= isize::MAX,
            out.len() == i,
            rest@ == orig.subrange(i as int, orig.len() as int),
            forall|k: int| 0 <= k < i ==> shape_of(#[trigger] out@[k]) == with_id(shape_of(orig[k]), k),
        decreases rest.len(),
    {
        assert(rest@.len() == orig.len() - i);
        let mut c = rest.remove(0);
        assert(c == orig[i as int]);
        c.set_id(i as isize);
        out.push(c);
        proof {
            assert(rest@ =~= orig.subrange(i as int + 1, orig.len() as int));
        }
        i = i + 1;
    }
    proof {
        lemma_shapes_of(out@);
    }
    out
}

/// The last entry of `reg` whose box contains `pt`, if any.
pub fn find_topmost(reg: &Vec<Comp>, pt: (i64, i64)) -> (r: Option<usize>)
    requires
        forall|k: int| 0 <= k < reg.len() ==> fits(#[trigger] shapes_of(reg@)[k]),
    ensures
        r matches Some(k) ==> topmost(shapes_of(reg@), as_ints(pt), k as int),
        r is None ==> missed(shapes_of(reg@), as_ints(pt)),
{
    let ghost nodes = shapes_of(reg@);
    proof {
        lemma_shapes_of(reg@);
    }
    let mut i: usize = reg.len();
    while i > 0
        invariant
            0 <= i <= reg.len(),
            nodes == shapes_of(reg@),
            nodes.len() == reg.len(),
            forall|k: int| 0 <= k < reg.len() ==> fits(#[trigger] nodes[k]),
            forall|k: int| 0 <= k < reg.len() ==> #[trigger] nodes[k] == shape_of(reg@[k]),
            forall|j: int| i <= j < reg.len() ==> !contains(#[trigger] nodes[j], as_ints(pt)),
        decreases i,
    {
        let k = i - 1;
        let c = &reg[k];
        assert(fits(nodes[k as int]));
        if covers_exec(c.get_position(), c.get_size(), pt) {
            return Some(k);
        }
        i = k;
    }
    None
}

} // verus!
