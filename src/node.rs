//! The node kinds, the tagged union over them, and their model.
use vstd::prelude::*;
use crate::context::Handler;
use crate::geometry::{
    as_ints, centered, centered_exec, fold_extent_exec, fold_point_exec, in_range,
    floor_div, lemma_scale_unit, pair_in_range, to_pixel, LIMIT, UNIT,
};
use crate::model::{
    adopt, fits, flatten, flatten_all, handler_of, lemma_place_all_index, lemma_place_kids,
    lemma_place_steps, place, place_all, quad_of, steps, strip, well_formed, with_id, Kind,
    Shape,
};

verus! {

/// A filled, optionally rounded rectangle that may hold children.
pub struct Rect {
    position: (i64, i64),
    size: (i64, i64),
    color: (u8, u8, u8, u8),
    radius: i64,
    depth: i32,
    id: isize,
    children: Vec<Comp>,
}

/// A picture drawn from encoded image bytes.
pub struct Img {
    position: (i64, i64),
    size: (i64, i64),
    radius: i64,
    depth: i32,
    id: isize,
    texture: Vec<u8>,
}

/// A run of text; the only kind that can carry a click handler.
pub struct Text {
    position: (i64, i64),
    size: (i64, i64),
    color: (u8, u8, u8, u8),
    bound: (i32, i32),
    content: String,
    depth: i32,
    id: isize,
    on_click: Option<Handler>,
}

/// An invisible container.
pub struct Empty {
    position: (i64, i64),
    size: (i64, i64),
    depth: i32,
    id: isize,
    children: Vec<Comp>,
}

/// A node of any kind.
pub enum Comp {
    Rect(Rect),
    Img(Img),
    Text(Text),
    Empty(Empty),
}

/// A value that can stand as a node of the tree.
pub trait IntoComponent: Sized {
    /// The node the value stands for.
    spec fn shape(&self) -> Shape;

    /// The value as a node.
    fn into_comp(self) -> (r: Comp)
        ensures
            r@ == self.shape(),
    ;
}

/// The model of a node and its subtree.
pub closed spec fn shape_of(c: Comp) -> Shape
    decreases c, 0int,
{
    match c {
        Comp::Rect(r) => Shape {
            kind: Kind::Rect { color: r.color, radius: r.radius as int },
            position: as_ints(r.position),
            size: as_ints(r.size),
            depth: r.depth as int,
            id: r.id as int,
            children: shapes_of(r.children@),
        },
        Comp::Img(m) => Shape {
            kind: Kind::Img { radius: m.radius as int, texture: m.texture@ },
            position: as_ints(m.position),
            size: as_ints(m.size),
            depth: m.depth as int,
            id: m.id as int,
            children: seq![],
        },
        Comp::Text(t) => Shape {
            kind: Kind::Text { content: t.content@, color: t.color, bound: t.bound, on_click: t.on_click },
            position: as_ints(t.position),
            size: as_ints(t.size),
            depth: t.depth as int,
            id: t.id as int,
            children: seq![],
        },
        Comp::Empty(e) => Shape {
            kind: Kind::Empty,
            position: as_ints(e.position),
            size: as_ints(e.size),
            depth: e.depth as int,
            id: e.id as int,
            children: shapes_of(e.children@),
        },
    }
}

/// The models of a sequence of nodes.
pub closed spec fn shapes_of(s: Seq<Comp>) -> Seq<Shape>
    decreases s, s.len(),
{
    if s.len() == 0 {
        seq![]
    } else {
        shapes_of(s.drop_last()).push(shape_of(s.last()))
    }
}

pub(crate) proof fn lemma_shapes_of(s: Seq<Comp>)
    ensures
        shapes_of(s).len() == s.len(),
        forall|i: int| 0 <= i < s.len() ==> #[trigger] shapes_of(s)[i] == shape_of(s[i]),
    decreases s.len(),
{
    if s.len() > 0 {
        lemma_shapes_of(s.drop_last());
    }
}

impl View for Comp {
    type V = Shape;

    open spec fn view(&self) -> Shape {
        shape_of(*self)
    }
}

impl View for Rect {
    type V = Shape;

    open spec fn view(&self) -> Shape {
        shape_of(Comp::Rect(*self))
    }
}

impl View for Img {
    type V = Shape;

    open spec fn view(&self) -> Shape {
        shape_of(Comp::Img(*self))
    }
}

impl View for Text {
    type V = Shape;

    open spec fn view(&self) -> Shape {
        shape_of(Comp::Text(*self))
    }
}

impl View for Empty {
    type V = Shape;

    open spec fn view(&self) -> Shape {
        shape_of(Comp::Empty(*self))
    }
}

/// Places each of `kids` as `place_all` says.
fn place_each(kids: Vec<Comp>, depth: i64, pos: (i64, i64), size: (i64, i64)) -> (r: Vec<Comp>)
    requires
        pair_in_range(as_ints(pos)),
        pair_in_range(as_ints(size)),
        forall|i: int| 0 <= i < kids.len() ==> {
            &&& fits(#[trigger] shape_of(kids@[i]))
            &&& fits(place(shape_of(kids@[i]), depth as int, as_ints(pos), as_ints(size)))
        },
    ensures
        shapes_of(r@) == place_all(shapes_of(kids@), depth as int, as_ints(pos), as_ints(size)),
    decreases kids, 1int,
{
    let ghost orig = kids@;
    let n = kids.len();
    let mut rest = kids;
    let mut out: Vec<Comp> = Vec::new();
    let mut i: usize = 0;
    proof {
        lemma_shapes_of(orig);
        assert(orig.take(0) =~= seq![]);
    }
    while rest.len() > 0
        invariant
            0 <= i <= orig.len(),
            orig.len() == n,
            rest@ == orig.subrange(i as int, orig.len() as int),
            pair_in_range(as_ints(pos)),
            pair_in_range(as_ints(size)),
            forall|j: int| 0 <= j < orig.len() ==> {
                &&& fits(#[trigger] shape_of(orig[j]))
                &&& fits(place(shape_of(orig[j]), depth as int, as_ints(pos), as_ints(size)))
            },
            shapes_of(out@) == place_all(shapes_of(orig.take(i as int)), depth as int, as_ints(pos), as_ints(size)),
            orig == kids@,
        decreases rest.len(),
    {
        assert(rest@.len() == orig.len() - i);
        let c = rest.remove(0);
        proof {
            assert(c == orig[i as int]);
            assert(decreases_to!(kids => kids@));
            assert(decreases_to!(kids@ => kids@[i as int]));
        }
        let d = depth as i32;
        let placed = c.place(d, pos, size);
        let ghost prev = out@;
        out.push(placed);
        proof {
            let t = orig.take(i as int + 1);
            assert(t.drop_last() =~= orig.take(i as int));
            assert(t.last() == orig[i as int]);
            assert(out@.drop_last() =~= prev);
            assert(shapes_of(t).drop_last() =~= shapes_of(orig.take(i as int)));
            assert(rest@ =~= orig.subrange(i as int + 1, orig.len() as int));
        }
        i = i + 1;
    }
    proof {
        assert(orig.take(orig.len() as int) =~= orig);
    }
    out
}

/// The nodes of a subtree, childless, root first, as `flatten` says.
fn flatten_comp(c: Comp) -> (r: Vec<Comp>)
    ensures
        shapes_of(r@) == flatten(c@),
    decreases c, 0int,
{
    let ghost whole = c@;
    let (node, mut rest) = match c {
        Comp::Rect(r) => {
            let Rect { position, size, color, radius, depth, id, children } = r;
            let node = Comp::Rect(Rect { position, size, color, radius, depth, id, children: Vec::new() });
            (node, flatten_each(children))
        },
        Comp::Empty(e) => {
            let Empty { position, size, depth, id, children } = e;
            let node = Comp::Empty(Empty { position, size, depth, id, children: Vec::new() });
            (node, flatten_each(children))
        },
        other => (other, Vec::new()),
    };
    proof {
        assert(node@ == strip(whole));
        assert(shapes_of(rest@) == flatten_all(whole.children));
    }
    let mut out: Vec<Comp> = Vec::new();
    out.push(node);
    let ghost head = out@;
    let ghost tail = rest@;
    out.append(&mut rest);
    proof {
        lemma_shapes_of(head);
        lemma_shapes_of(tail);
        lemma_shapes_of(out@);
        assert(shapes_of(out@) =~= shapes_of(head) + shapes_of(tail));
    }
    out
}

/// The nodes of a sequence of sibling subtrees, as `flatten_all` says.
fn flatten_each(kids: Vec<Comp>) -> (r: Vec<Comp>)
    ensures
        shapes_of(r@) == flatten_all(shapes_of(kids@)),
    decreases kids, 1int,
{
    let ghost orig = kids@;
    let n = kids.len();
    let mut rest = kids;
    let mut out: Vec<Comp> = Vec::new();
    let mut i: usize = 0;
    proof {
        lemma_shapes_of(orig);
        assert(orig.take(0) =~= seq![]);
    }
    while rest.len() > 0
        invariant
            0 <= i <= orig.len(),
            orig.len() == n,
            rest@ == orig.subrange(i as int, orig.len() as int),
            shapes_of(out@) == flatten_all(shapes_of(orig.take(i as int))),
            orig == kids@,
        decreases rest.len(),
    {
        assert(rest@.len() == orig.len() - i);
        let c = rest.remove(0);
        proof {
            assert(c == orig[i as int]);
            assert(decreases_to!(kids => kids@));
            assert(decreases_to!(kids@ => kids@[i as int]));
        }
        let mut sub = flatten_comp(c);
        let ghost prev = out@;
        let ghost added = sub@;
        out.append(&mut sub);
        proof {
            let t = orig.take(i as int + 1);
            assert(t.drop_last() =~= orig.take(i as int));
            assert(t.last() == orig[i as int]);
            assert(shapes_of(t).drop_last() =~= shapes_of(orig.take(i as int)));
            lemma_shapes_of(prev);
            lemma_shapes_of(added);
            lemma_shapes_of(out@);
            assert(shapes_of(out@) =~= shapes_of(prev) + shapes_of(added));
            assert(rest@ =~= orig.subrange(i as int + 1, orig.len() as int));
        }
        i = i + 1;
    }
    proof {
        assert(orig.take(orig.len() as int) =~= orig);
    }
    out
}

/// Whether each of `kids`, placed as `place` says, fits.
fn all_placed_fit(kids: &Vec<Comp>, depth: i64, pos: (i64, i64), size: (i64, i64)) -> (r: bool)
    requires
        forall|i: int| 0 <= i < kids.len() ==> fits(#[trigger] shape_of(kids@[i])),
        pair_in_range(as_ints(pos)),
        pair_in_range(as_ints(size)),
        i32::MIN as i64 - 1 <= depth <= i32::MAX,
    ensures
        r == forall|i: int|
            0 <= i < kids.len() ==> fits(#[trigger] place(shape_of(kids@[i]), depth as int, as_ints(pos), as_ints(size))),
    decreases kids, 1int,
{
    let mut i: usize = 0;
    while i < kids.len()
        invariant
            0 <= i <= kids.len(),
            forall|j: int| 0 <= j < kids.len() ==> fits(#[trigger] shape_of(kids@[j])),
            pair_in_range(as_ints(pos)),
            pair_in_range(as_ints(size)),
            i32::MIN as i64 - 1 <= depth <= i32::MAX,
            forall|j: int|
                0 <= j < i ==> fits(#[trigger] place(shape_of(kids@[j]), depth as int, as_ints(pos), as_ints(size))),
        decreases kids.len() - i,
    {
        proof {
            assert(decreases_to!(kids => kids@));
            assert(decreases_to!(kids@ => kids@[i as int]));
        }
        assert(fits(shape_of(kids@[i as int])));
        if !kids[i].placed_fits(depth, pos, size) {
            return false;
        }
        i = i + 1;
    }
    true
}

impl Comp {
    /// Whether every value of the subtree still fits its machine type once
    /// the subtree is placed as `place` says.
    pub(crate) fn placed_fits(&self, depth: i64, pos: (i64, i64), size: (i64, i64)) -> (r: bool)
        requires
            fits(self@),
            pair_in_range(as_ints(pos)),
            pair_in_range(as_ints(size)),
            i32::MIN as i64 - 1 <= depth <= i32::MAX,
        ensures
            r == fits(place(self@, depth as int, as_ints(pos), as_ints(size))),
        decreases self, 0int,
    {
        let ghost pl = place(self@, depth as int, as_ints(pos), as_ints(size));
        if depth < i32::MIN as i64 {
            assert(!fits(pl));
            return false;
        }
        let p = fold_point_exec(self.get_position(), pos, size);
        let e = fold_extent_exec(self.get_size(), size);
        if !(-LIMIT <= p.0 && p.0 <= LIMIT && -LIMIT <= p.1 && p.1 <= LIMIT && -LIMIT <= e.0 && e.0 <= LIMIT
            && -LIMIT <= e.1 && e.1 <= LIMIT) {
            assert(!pair_in_range(pl.position) || !pair_in_range(pl.size));
            return false;
        }
        proof {
            lemma_place_all_index(self@.children, depth - 1, as_ints(pos), as_ints(size));
        }
        match self {
            Comp::Rect(r) => {
                proof {
                    lemma_shapes_of(r.children@);
                    assert forall|i: int| 0 <= i < r.children.len() implies fits(#[trigger] shape_of(r.children@[i])) by {
                        assert(self@.children[i] == shape_of(r.children@[i]));
                        assert(fits(self@.children[i]));
                    }
                }
                let ok = all_placed_fit(&r.children, depth - 1, pos, size);
                proof {
                    assert forall|i: int| 0 <= i < r.children.len() implies #[trigger] pl.children[i] == place(shape_of(r.children@[i]), depth - 1, as_ints(pos), as_ints(size)) by {
                        assert(self@.children[i] == shape_of(r.children@[i]));
                    }
                    if ok {
                        assert forall|i: int| 0 <= i < pl.children.len() implies fits(#[trigger] pl.children[i]) by {
                            assert(pl.children[i] == place(shape_of(r.children@[i]), depth - 1, as_ints(pos), as_ints(size)));
                        }
                    } else {
                        let i = choose|i: int| 0 <= i < r.children.len() && !fits(#[trigger] place(shape_of(r.children@[i]), depth - 1, as_ints(pos), as_ints(size)));
                        assert(!fits(pl.children[i]));
                    }
                }
                ok
            },
            Comp::Empty(e) => {
                proof {
                    lemma_shapes_of(e.children@);
                    assert forall|i: int| 0 <= i < e.children.len() implies fits(#[trigger] shape_of(e.children@[i])) by {
                        assert(self@.children[i] == shape_of(e.children@[i]));
                        assert(fits(self@.children[i]));
                    }
                }
                let ok = all_placed_fit(&e.children, depth - 1, pos, size);
                proof {
                    assert forall|i: int| 0 <= i < e.children.len() implies #[trigger] pl.children[i] == place(shape_of(e.children@[i]), depth - 1, as_ints(pos), as_ints(size)) by {
                        assert(self@.children[i] == shape_of(e.children@[i]));
                    }
                    if ok {
                        assert forall|i: int| 0 <= i < pl.children.len() implies fits(#[trigger] pl.children[i]) by {
                            assert(pl.children[i] == place(shape_of(e.children@[i]), depth - 1, as_ints(pos), as_ints(size)));
                        }
                    } else {
                        let i = choose|i: int| 0 <= i < e.children.len() && !fits(#[trigger] place(shape_of(e.children@[i]), depth - 1, as_ints(pos), as_ints(size)));
                        assert(!fits(pl.children[i]));
                    }
                }
                ok
            },
            _ => {
                assert(pl.children.len() == 0);
                true
            },
        }
    }

    /// The corners of the node's box, in drawing order: bottom left,
    /// bottom right, top right, top left.
    pub fn quad(&self) -> (r: Vec<(i64, i64)>)
        requires
            fits(self@),
        ensures
            r@.map_values(|c: (i64, i64)| as_ints(c)) == quad_of(self@),
    {
        let (x, y) = self.get_position();
        let (w, h) = self.get_size();
        let mut r: Vec<(i64, i64)> = Vec::new();
        r.push((x, y + h));
        r.push((x + w, y + h));
        r.push((x + w, y));
        r.push((x, y));
        proof {
            assert(r@.map_values(|c: (i64, i64)| as_ints(c)) =~= quad_of(self@));
        }
        r
    }

    /// The pixel of a window of `width` by `height` pixels at which the
    /// node's box starts.
    pub fn pixel_origin(&self, width: u32, height: u32) -> (r: (i64, i64))
        requires
            fits(self@),
        ensures
            as_ints(r) == (to_pixel(self@.position.0, width as int), to_pixel(self@.position.1, height as int)),
    {
        let (x, y) = self.get_position();
        assert(-0x4000_0000_0000_0000 <= x * width as i64 <= 0x4000_0000_0000_0000) by (nonlinear_arith)
            requires -LIMIT <= x <= LIMIT, 0 <= width <= u32::MAX;
        assert(-0x4000_0000_0000_0000 <= y * height as i64 <= 0x4000_0000_0000_0000) by (nonlinear_arith)
            requires -LIMIT <= y <= LIMIT, 0 <= height <= u32::MAX;
        (floor_div(x * width as i64, UNIT), floor_div(y * height as i64, UNIT))
    }

    /// Takes the children out of the node and returns every descendant,
    /// childless, in initialization order; the node is left childless.
    pub fn collect(&mut self) -> (r: Vec<Comp>)
        ensures
            shapes_of(r@) == flatten_all(old(self)@.children),
            final(self)@ == strip(old(self)@),
    {
        let mut kids: Vec<Comp> = Vec::new();
        match self {
            Comp::Rect(r) => std::mem::swap(&mut kids, &mut r.children),
            Comp::Empty(e) => std::mem::swap(&mut kids, &mut e.children),
            _ => {},
        }
        proof {
            assert(final(self)@ == strip(old(self)@));
        }
        flatten_each(kids)
    }

    /// The depth of the node.
    pub fn depth(&self) -> (r: i32)
        ensures
            r == self@.depth,
    {
        match self {
            Comp::Rect(r) => r.depth,
            Comp::Img(m) => m.depth,
            Comp::Text(t) => t.depth,
            Comp::Empty(e) => e.depth,
        }
    }

    /// The position of the node's box.
    pub fn get_position(&self) -> (r: (i64, i64))
        ensures
            as_ints(r) == self@.position,
    {
        match self {
            Comp::Rect(r) => r.position,
            Comp::Img(m) => m.position,
            Comp::Text(t) => t.position,
            Comp::Empty(e) => e.position,
        }
    }

    /// The extent of the node's box.
    pub fn get_size(&self) -> (r: (i64, i64))
        ensures
            as_ints(r) == self@.size,
    {
        match self {
            Comp::Rect(r) => r.size,
            Comp::Img(m) => m.size,
            Comp::Text(t) => t.size,
            Comp::Empty(e) => e.size,
        }
    }

    /// The identity of the node: its place in paint order once the tree is
    /// registered, -1 before.
    pub fn get_id(&self) -> (r: isize)
        ensures
            r == self@.id,
    {
        match self {
            Comp::Rect(r) => r.id,
            Comp::Img(m) => m.id,
            Comp::Text(t) => t.id,
            Comp::Empty(e) => e.id,
        }
    }

    /// Gives the node identity `id`.
    pub fn set_id(&mut self, id: isize)
        ensures
            final(self)@ == with_id(old(self)@, id as int),
    {
        match self {
            Comp::Rect(r) => r.id = id,
            Comp::Img(m) => m.id = id,
            Comp::Text(t) => t.id = id,
            Comp::Empty(e) => e.id = id,
        }
    }

    /// The function to run when the node is clicked, if it has one.
    pub fn click_handler(&self) -> (r: Option<&Handler>)
        ensures
            r.is_some() == handler_of(self@).is_some(),
            r matches Some(h) ==> handler_of(self@) == Some(*h),
    {
        match self {
            Comp::Text(t) => t.on_click.as_ref(),
            _ => None,
        }
    }

    /// Moves the subtree under a parent box at `pos` with extent `size`,
    /// with `depth` for its root.
    pub(crate) fn place(self, depth: i32, pos: (i64, i64), size: (i64, i64)) -> (r: Comp)
        requires
            fits(self@),
            pair_in_range(as_ints(pos)),
            pair_in_range(as_ints(size)),
            fits(place(self@, depth as int, as_ints(pos), as_ints(size))),
        ensures
            r@ == place(self@, depth as int, as_ints(pos), as_ints(size)),
        decreases self, 0int,
    {
        match self {
            Comp::Rect(r) => {
                let Rect { position, size: extent, color, radius, depth: _, id, children } = r;
                proof {
                    let whole = shape_of(Comp::Rect(r));
                    lemma_place_kids(whole, depth as int, as_ints(pos), as_ints(size));
                    lemma_shapes_of(children@);
                    assert forall|i: int| 0 <= i < children.len() implies {
                        &&& fits(#[trigger] shape_of(children@[i]))
                        &&& fits(place(shape_of(children@[i]), depth - 1, as_ints(pos), as_ints(size)))
                    } by {
                        assert(whole.children[i] == shape_of(children@[i]));
                        assert(fits(whole.children[i]));
                    }
                }
                let children = place_each(children, depth as i64 - 1, pos, size);
                Comp::Rect(Rect {
                    position: fold_point_exec(position, pos, size),
                    size: fold_extent_exec(extent, size),
                    color,
                    radius,
                    depth,
                    id,
                    children,
                })
            },
            Comp::Img(m) => {
                let Img { position, size: extent, radius, depth: _, id, texture } = m;
                Comp::Img(Img {
                    position: fold_point_exec(position, pos, size),
                    size: fold_extent_exec(extent, size),
                    radius,
                    depth,
                    id,
                    texture,
                })
            },
            Comp::Text(t) => {
                let Text { position, size: extent, color, bound, content, depth: _, id, on_click } = t;
                Comp::Text(Text {
                    position: fold_point_exec(position, pos, size),
                    size: fold_extent_exec(extent, size),
                    color,
                    bound,
                    content,
                    depth,
                    id,
                    on_click,
                })
            },
            Comp::Empty(e) => {
                let Empty { position, size: extent, depth: _, id, children } = e;
                proof {
                    let whole = shape_of(Comp::Empty(e));
                    lemma_place_kids(whole, depth as int, as_ints(pos), as_ints(size));
                    lemma_shapes_of(children@);
                    assert forall|i: int| 0 <= i < children.len() implies {
                        &&& fits(#[trigger] shape_of(children@[i]))
                        &&& fits(place(shape_of(children@[i]), depth - 1, as_ints(pos), as_ints(size)))
                    } by {
                        assert(whole.children[i] == shape_of(children@[i]));
                        assert(fits(whole.children[i]));
                    }
                }
                let children = place_each(children, depth as i64 - 1, pos, size);
                Comp::Empty(Empty {
                    position: fold_point_exec(position, pos, size),
                    size: fold_extent_exec(extent, size),
                    depth,
                    id,
                    children,
                })
            },
        }
    }
}

impl Rect {
    /// A blue rectangle a quarter of its parent in area, its top left corner at the parent's center.
    pub fn new() -> (r: Rect)
        ensures
            r@ == (Shape { kind: Kind::Rect { color: (0, 0, 255, 255), radius: 0 }, position: (UNIT / 2, UNIT / 2), size: (UNIT / 2, UNIT / 2), depth: 0, id: -1, children: seq![] }),
            well_formed(r@),
    {
        let r = Rect { position: (UNIT / 2, UNIT / 2), size: (UNIT / 2, UNIT / 2), color: (0, 0, 255, 255), radius: 0, depth: 0, id: -1, children: Vec::new() };
        proof {
            assert(r@.children =~= seq![]);
        }
        r
    }

    /// Sets the extent, as fractions of the parent's box.
    pub fn size(self, width: i64, height: i64) -> (r: Rect)
        requires
            in_range(width as int),
            in_range(height as int),
        ensures
            r@ == (Shape { size: (width as int, height as int), ..self@ }),
            well_formed(self@) ==> well_formed(r@),
    {
        let mut r = self;
        r.size = (width, height);
        r
    }

    /// Sets the top left corner, as fractions of the parent's box.
    pub fn position(self, x: i64, y: i64) -> (r: Rect)
        requires
            in_range(x as int),
            in_range(y as int),
        ensures
            r@ == (Shape { position: (x as int, y as int), ..self@ }),
            well_formed(self@) ==> well_formed(r@),
    {
        let mut r = self;
        r.position = (x, y);
        r
    }

    /// Centers the box in its parent along both axes. Meant to be called
    /// before the node is composed into a parent.
    pub fn center(self) -> (r: Rect)
        requires
            pair_in_range(self@.size),
        ensures
            r@ == (Shape { position: (centered(self@.size.0), centered(self@.size.1)), ..self@ }),
            well_formed(self@) ==> well_formed(r@),
    {
        let mut r = self;
        r.position = (centered_exec(r.size.0), centered_exec(r.size.1));
        r
    }

    /// Centers the box in its parent horizontally.
    pub fn center_x(self) -> (r: Rect)
        requires
            pair_in_range(self@.size),
        ensures
            r@ == (Shape { position: (centered(self@.size.0), self@.position.1), ..self@ }),
            well_formed(self@) ==> well_formed(r@),
    {
        let mut r = self;
        r.position = (centered_exec(r.size.0), r.position.1);
        r
    }

    /// Centers the box in its parent vertically.
    pub fn center_y(self) -> (r: Rect)
        requires
            pair_in_range(self@.size),
        ensures
            r@ == (Shape { position: (self@.position.0, centered(self@.size.1)), ..self@ }),
            well_formed(self@) ==> well_formed(r@),
    {
        let mut r = self;
        r.position = (r.position.0, centered_exec(r.size.1));
        r
    }

    /// Sets the depth; each level of the subtree below takes one less.
    pub fn depth(self, depth: i32) -> (r: Rect)
        requires
            fits(self@),
            fits(place(self@, depth as int, (0, 0), (UNIT as int, UNIT as int))),
        ensures
            r@ == place(self@, depth as int, (0, 0), (UNIT as int, UNIT as int)),
            r@.position == self@.position,
            r@.size == self@.size,
            r@.depth == depth,
            well_formed(r@),
    {
        let ghost whole = self@;
        let mut r = self;
        let mut kids: Vec<Comp> = Vec::new();
        std::mem::swap(&mut kids, &mut r.children);
        proof {
            lemma_place_kids(whole, depth as int, (0, 0), (UNIT as int, UNIT as int));
            lemma_shapes_of(kids@);
            assert forall|i: int| 0 <= i < kids.len() implies {
                &&& fits(#[trigger] shape_of(kids@[i]))
                &&& fits(place(shape_of(kids@[i]), depth - 1, (0, 0), (UNIT as int, UNIT as int)))
            } by {
                assert(whole.children[i] == shape_of(kids@[i]));
                assert(fits(whole.children[i]));
            }
            lemma_scale_unit(whole.position.0);
            lemma_scale_unit(whole.position.1);
            lemma_scale_unit(whole.size.0);
            lemma_scale_unit(whole.size.1);
            lemma_place_steps(whole, depth as int, (0, 0), (UNIT as int, UNIT as int));
        }
        r.children = place_each(kids, depth as i64 - 1, (0, 0), (UNIT, UNIT));
        r.depth = depth;
        r
    }

    /// Appends `child` to the children: the child's subtree is folded into
    /// this node's box and restamped one level below it.
    pub fn with_child<C: IntoComponent>(self, child: C) -> (r: Rect)
        requires
            well_formed(self@),
            well_formed(child.shape()),
            fits(place(child.shape(), self@.depth - 1, self@.position, self@.size)),
        ensures
            r@ == adopt(self@, child.shape()),
            well_formed(r@),
    {
        let ghost whole = self@;
        let c = child.into_comp();
        let mut r = self;
        proof {
            lemma_place_steps(c@, whole.depth - 1, whole.position, whole.size);
        }
        let placed = c.place((r.depth as i64 - 1) as i32, r.position, r.size);
        let ghost before = r.children@;
        r.children.push(placed);
        proof {
            lemma_shapes_of(before);
            lemma_shapes_of(r.children@);
            assert(r.children@.drop_last() =~= before);
            assert(r@.children =~= whole.children.push(placed@));
            let a = adopt(whole, c@);
            assert forall|i: int| 0 <= i < a.children.len() implies fits(#[trigger] a.children[i]) by {
                if i < whole.children.len() {
                    assert(a.children[i] == whole.children[i]);
                }
            }
            assert forall|i: int| 0 <= i < a.children.len() implies {
                &&& (#[trigger] a.children[i]).depth == a.depth - 1
                &&& steps(a.children[i])
            } by {
                if i < whole.children.len() {
                    assert(a.children[i] == whole.children[i]);
                }
            }
        }
        r
    }

    /// Whether `child` can be appended: every value of its subtree, once
    /// folded into this node's box, still fits its machine type.
    pub fn can_hold(&self, child: &Comp) -> (r: bool)
        requires
            fits(self@),
            fits(child@),
        ensures
            r == fits(place(child@, self@.depth - 1, self@.position, self@.size)),
    {
        child.placed_fits(self.depth as i64 - 1, self.position, self.size)
    }
}

impl IntoComponent for Rect {
    open spec fn shape(&self) -> Shape {
        self@
    }

    fn into_comp(self) -> (r: Comp) {
        Comp::Rect(self)
    }
}

impl Img {
    /// An empty picture a quarter of its parent in area, its top left corner at the parent's center.
    pub fn new() -> (r: Img)
        ensures
            r@ == (Shape { kind: Kind::Img { radius: 0, texture: seq![] }, position: (UNIT / 2, UNIT / 2), size: (UNIT / 2, UNIT / 2), depth: 0, id: -1, children: seq![] }),
            well_formed(r@),
    {
        let r = Img { position: (UNIT / 2, UNIT / 2), size: (UNIT / 2, UNIT / 2), radius: 0, depth: 0, id: -1, texture: Vec::new() };
        proof {
            assert(r@.children =~= seq![]);
        }
        r
    }

    /// Sets the extent, as fractions of the parent's box.
    pub fn size(self, width: i64, height: i64) -> (r: Img)
        requires
            in_range(width as int),
            in_range(height as int),
        ensures
            r@ == (Shape { size: (width as int, height as int), ..self@ }),
            well_formed(self@) ==> well_formed(r@),
    {
        let mut r = self;
        r.size = (width, height);
        r
    }

    /// Sets the top left corner, as fractions of the parent's box.
    pub fn position(self, x: i64, y: i64) -> (r: Img)
        requires
            in_range(x as int),
            in_range(y as int),
        ensures
            r@ == (Shape { position: (x as int, y as int), ..self@ }),
            well_formed(self@) ==> well_formed(r@),
    {
        let mut r = self;
        r.position = (x, y);
        r
    }

    /// Centers the box in its parent along both axes. Meant to be called
    /// before the node is composed into a parent.
    pub fn center(self) -> (r: Img)
        requires
            pair_in_range(self@.size),
        ensures
            r@ == (Shape { position: (centered(self@.size.0), centered(self@.size.1)), ..self@ }),
            well_formed(self@) ==> well_formed(r@),
    {
        let mut r = self;
        r.position = (centered_exec(r.size.0), centered_exec(r.size.1));
        r
    }

    /// Centers the box in its parent horizontally.
    pub fn center_x(self) -> (r: Img)
        requires
            pair_in_range(self@.size),
        ensures
            r@ == (Shape { position: (centered(self@.size.0), self@.position.1), ..self@ }),
            well_formed(self@) ==> well_formed(r@),
    {
        let mut r = self;
        r.position = (centered_exec(r.size.0), r.position.1);
        r
    }

    /// Centers the box in its parent vertically.
    pub fn center_y(self) -> (r: Img)
        requires
            pair_in_range(self@.size),
        ensures
            r@ == (Shape { position: (self@.position.0, centered(self@.size.1)), ..self@ }),
            well_formed(self@) ==> well_formed(r@),
    {
        let mut r = self;
        r.position = (r.position.0, centered_exec(r.size.1));
        r
    }

    /// Sets the depth.
    pub fn depth(self, depth: i32) -> (r: Img)
        ensures
            r@ == (Shape { depth: depth as int, ..self@ }),
            well_formed(self@) ==> well_formed(r@),
    {
        let mut r = self;
        r.depth = depth;
        r
    }
}

impl IntoComponent for Img {
    open spec fn shape(&self) -> Shape {
        self@
    }

    fn into_comp(self) -> (r: Comp) {
        Comp::Img(self)
    }
}

impl Text {
    /// Empty white text over the whole of its parent, without a click handler.
    pub fn new() -> (r: Text)
        ensures
            r@ == (Shape { kind: Kind::Text { content: seq![], color: (255, 255, 255, 255), bound: (i32::MAX, i32::MAX), on_click: None }, position: (0, 0), size: (UNIT as int, UNIT as int), depth: 0, id: -1, children: seq![] }),
            well_formed(r@),
    {
        let r = Text { position: (0, 0), size: (UNIT, UNIT), color: (255, 255, 255, 255), bound: (i32::MAX, i32::MAX), content: String::new(), depth: 0, id: -1, on_click: None };
        proof {
            assert(r@.children =~= seq![]);
        }
        r
    }

    /// Sets the extent, as fractions of the parent's box.
    pub fn size(self, width: i64, height: i64) -> (r: Text)
        requires
            in_range(width as int),
            in_range(height as int),
        ensures
            r@ == (Shape { size: (width as int, height as int), ..self@ }),
            well_formed(self@) ==> well_formed(r@),
    {
        let mut r = self;
        r.size = (width, height);
        r
    }

    /// Sets the top left corner, as fractions of the parent's box.
    pub fn position(self, x: i64, y: i64) -> (r: Text)
        requires
            in_range(x as int),
            in_range(y as int),
        ensures
            r@ == (Shape { position: (x as int, y as int), ..self@ }),
            well_formed(self@) ==> well_formed(r@),
    {
        let mut r = self;
        r.position = (x, y);
        r
    }

    /// Centers the box in its parent along both axes. Meant to be called
    /// before the node is composed into a parent.
    pub fn center(self) -> (r: Text)
        requires
            pair_in_range(self@.size),
        ensures
            r@ == (Shape { position: (centered(self@.size.0), centered(self@.size.1)), ..self@ }),
            well_formed(self@) ==> well_formed(r@),
    {
        let mut r = self;
        r.position = (centered_exec(r.size.0), centered_exec(r.size.1));
        r
    }

    /// Centers the box in its parent horizontally.
    pub fn center_x(self) -> (r: Text)
        requires
            pair_in_range(self@.size),
        ensures
            r@ == (Shape { position: (centered(self@.size.0), self@.position.1), ..self@ }),
            well_formed(self@) ==> well_formed(r@),
    {
        let mut r = self;
        r.position = (centered_exec(r.size.0), r.position.1);
        r
    }

    /// Centers the box in its parent vertically.
    pub fn center_y(self) -> (r: Text)
        requires
            pair_in_range(self@.size),
        ensures
            r@ == (Shape { position: (self@.position.0, centered(self@.size.1)), ..self@ }),
            well_formed(self@) ==> well_formed(r@),
    {
        let mut r = self;
        r.position = (r.position.0, centered_exec(r.size.1));
        r
    }

    /// Sets the depth.
    pub fn depth(self, depth: i32) -> (r: Text)
        ensures
            r@ == (Shape { depth: depth as int, ..self@ }),
            well_formed(self@) ==> well_formed(r@),
    {
        let mut r = self;
        r.depth = depth;
        r
    }
}

impl IntoComponent for Text {
    open spec fn shape(&self) -> Shape {
        self@
    }

    fn into_comp(self) -> (r: Comp) {
        Comp::Text(self)
    }
}

impl Empty {
    /// A container with an empty box at the parent's origin.
    pub fn new() -> (r: Empty)
        ensures
            r@ == (Shape { kind: Kind::Empty, position: (0, 0), size: (0, 0), depth: 0, id: -1, children: seq![] }),
            well_formed(r@),
    {
        let r = Empty { position: (0, 0), size: (0, 0), depth: 0, id: -1, children: Vec::new() };
        proof {
            assert(r@.children =~= seq![]);
        }
        r
    }

    /// Sets the extent, as fractions of the parent's box.
    pub fn size(self, width: i64, height: i64) -> (r: Empty)
        requires
            in_range(width as int),
            in_range(height as int),
        ensures
            r@ == (Shape { size: (width as int, height as int), ..self@ }),
            well_formed(self@) ==> well_formed(r@),
    {
        let mut r = self;
        r.size = (width, height);
        r
    }

    /// Sets the top left corner, as fractions of the parent's box.
    pub fn position(self, x: i64, y: i64) -> (r: Empty)
        requires
            in_range(x as int),
            in_range(y as int),
        ensures
            r@ == (Shape { position: (x as int, y as int), ..self@ }),
            well_formed(self@) ==> well_formed(r@),
    {
        let mut r = self;
        r.position = (x, y);
        r
    }

    /// Centers the box in its parent along both axes. Meant to be called
    /// before the node is composed into a parent.
    pub fn center(self) -> (r: Empty)
        requires
            pair_in_range(self@.size),
        ensures
            r@ == (Shape { position: (centered(self@.size.0), centered(self@.size.1)), ..self@ }),
            well_formed(self@) ==> well_formed(r@),
    {
        let mut r = self;
        r.position = (centered_exec(r.size.0), centered_exec(r.size.1));
        r
    }

    /// Centers the box in its parent horizontally.
    pub fn center_x(self) -> (r: Empty)
        requires
            pair_in_range(self@.size),
        ensures
            r@ == (Shape { position: (centered(self@.size.0), self@.position.1), ..self@ }),
            well_formed(self@) ==> well_formed(r@),
    {
        let mut r = self;
        r.position = (centered_exec(r.size.0), r.position.1);
        r
    }

    /// Centers the box in its parent vertically.
    pub fn center_y(self) -> (r: Empty)
        requires
            pair_in_range(self@.size),
        ensures
            r@ == (Shape { position: (self@.position.0, centered(self@.size.1)), ..self@ }),
            well_formed(self@) ==> well_formed(r@),
    {
        let mut r = self;
        r.position = (r.position.0, centered_exec(r.size.1));
        r
    }

    /// Sets the depth; each level of the subtree below takes one less.
    pub fn depth(self, depth: i32) -> (r: Empty)
        requires
            fits(self@),
            fits(place(self@, depth as int, (0, 0), (UNIT as int, UNIT as int))),
        ensures
            r@ == place(self@, depth as int, (0, 0), (UNIT as int, UNIT as int)),
            r@.position == self@.position,
            r@.size == self@.size,
            r@.depth == depth,
            well_formed(r@),
    {
        let ghost whole = self@;
        let mut r = self;
        let mut kids: Vec<Comp> = Vec::new();
        std::mem::swap(&mut kids, &mut r.children);
        proof {
            lemma_place_kids(whole, depth as int, (0, 0), (UNIT as int, UNIT as int));
            lemma_shapes_of(kids@);
            assert forall|i: int| 0 <= i < kids.len() implies {
                &&& fits(#[trigger] shape_of(kids@[i]))
                &&& fits(place(shape_of(kids@[i]), depth - 1, (0, 0), (UNIT as int, UNIT as int)))
            } by {
                assert(whole.children[i] == shape_of(kids@[i]));
                assert(fits(whole.children[i]));
            }
            lemma_scale_unit(whole.position.0);
            lemma_scale_unit(whole.position.1);
            lemma_scale_unit(whole.size.0);
            lemma_scale_unit(whole.size.1);
            lemma_place_steps(whole, depth as int, (0, 0), (UNIT as int, UNIT as int));
        }
        r.children = place_each(kids, depth as i64 - 1, (0, 0), (UNIT, UNIT));
        r.depth = depth;
        r
    }

    /// Appends `child` to the children: the child's subtree is folded into
    /// this node's box and restamped one level below it.
    pub fn with_child<C: IntoComponent>(self, child: C) -> (r: Empty)
        requires
            well_formed(self@),
            well_formed(child.shape()),
            fits(place(child.shape(), self@.depth - 1, self@.position, self@.size)),
        ensures
            r@ == adopt(self@, child.shape()),
            well_formed(r@),
    {
        let ghost whole = self@;
        let c = child.into_comp();
        let mut r = self;
        proof {
            lemma_place_steps(c@, whole.depth - 1, whole.position, whole.size);
        }
        let placed = c.place((r.depth as i64 - 1) as i32, r.position, r.size);
        let ghost before = r.children@;
        r.children.push(placed);
        proof {
            lemma_shapes_of(before);
            lemma_shapes_of(r.children@);
            assert(r.children@.drop_last() =~= before);
            assert(r@.children =~= whole.children.push(placed@));
            let a = adopt(whole, c@);
            assert forall|i: int| 0 <= i < a.children.len() implies fits(#[trigger] a.children[i]) by {
                if i < whole.children.len() {
                    assert(a.children[i] == whole.children[i]);
                }
            }
            assert forall|i: int| 0 <= i < a.children.len() implies {
                &&& (#[trigger] a.children[i]).depth == a.depth - 1
                &&& steps(a.children[i])
            } by {
                if i < whole.children.len() {
                    assert(a.children[i] == whole.children[i]);
                }
            }
        }
        r
    }

    /// Whether `child` can be appended: every value of its subtree, once
    /// folded into this node's box, still fits its machine type.
    pub fn can_hold(&self, child: &Comp) -> (r: bool)
        requires
            fits(self@),
            fits(child@),
        ensures
            r == fits(place(child@, self@.depth - 1, self@.position, self@.size)),
    {
        child.placed_fits(self.depth as i64 - 1, self.position, self.size)
    }
}

impl IntoComponent for Empty {
    open spec fn shape(&self) -> Shape {
        self@
    }

    fn into_comp(self) -> (r: Comp) {
        Comp::Empty(self)
    }
}

impl Rect {
    /// Sets the fill color.
    pub fn color(self, red: u8, green: u8, blue: u8, alpha: u8) -> (r: Rect)
        ensures
            r@ == (Shape { kind: Kind::Rect { color: (red, green, blue, alpha), radius: self@.kind->Rect_radius }, ..self@ }),
            well_formed(self@) ==> well_formed(r@),
    {
        let mut r = self;
        r.color = (red, green, blue, alpha);
        r
    }

    /// Sets the corner radius, in fixed-point units of the window.
    pub fn radius(self, radius: i64) -> (r: Rect)
        ensures
            r@ == (Shape { kind: Kind::Rect { color: self@.kind->Rect_color, radius: radius as int }, ..self@ }),
            well_formed(self@) ==> well_formed(r@),
    {
        let mut r = self;
        r.radius = radius;
        r
    }
}

impl Rect {
    /// The fill color.
    pub fn get_color(&self) -> (r: (u8, u8, u8, u8))
        ensures
            r == self@.kind->Rect_color,
    {
        self.color
    }

    /// The corner radius.
    pub fn get_radius(&self) -> (r: i64)
        ensures
            r == self@.kind->Rect_radius,
    {
        self.radius
    }
}

impl Img {
    /// The corner radius.
    pub fn get_radius(&self) -> (r: i64)
        ensures
            r == self@.kind->Img_radius,
    {
        self.radius
    }

    /// Sets the encoded image to draw.
    pub fn content(self, texture: Vec<u8>) -> (r: Img)
        ensures
            r@ == (Shape { kind: Kind::Img { radius: self@.kind->Img_radius, texture: texture@ }, ..self@ }),
            well_formed(self@) ==> well_formed(r@),
    {
        let mut r = self;
        r.texture = texture;
        r
    }

    /// Sets the corner radius, in fixed-point units of the window.
    pub fn radius(self, radius: i64) -> (r: Img)
        ensures
            r@ == (Shape { kind: Kind::Img { radius: radius as int, texture: self@.kind->Img_texture }, ..self@ }),
            well_formed(self@) ==> well_formed(r@),
    {
        let mut r = self;
        r.radius = radius;
        r
    }

    /// The encoded image to draw.
    pub fn texture(&self) -> (r: &Vec<u8>)
        ensures
            r@ == self@.kind->Img_texture,
    {
        &self.texture
    }
}

impl Text {
    /// Sets the text color.
    pub fn color(self, red: u8, green: u8, blue: u8, alpha: u8) -> (r: Text)
        ensures
            r@ == (Shape {
                kind: Kind::Text {
                    content: self@.kind->Text_content,
                    color: (red, green, blue, alpha),
                    bound: self@.kind->Text_bound,
                    on_click: self@.kind->Text_on_click,
                },
                ..self@
            }),
            well_formed(self@) ==> well_formed(r@),
    {
        let mut r = self;
        r.color = (red, green, blue, alpha);
        r
    }

    /// Sets the text to show.
    pub fn content(self, content: &str) -> (r: Text)
        ensures
            r@ == (Shape {
                kind: Kind::Text {
                    content: content@,
                    color: self@.kind->Text_color,
                    bound: self@.kind->Text_bound,
                    on_click: self@.kind->Text_on_click,
                },
                ..self@
            }),
            well_formed(self@) ==> well_formed(r@),
    {
        let mut r = self;
        r.content = content.to_owned();
        r
    }

    /// Sets the right and bottom pixel bounds the text is clipped to.
    pub fn bound(self, x: i32, y: i32) -> (r: Text)
        ensures
            r@ == (Shape {
                kind: Kind::Text {
                    content: self@.kind->Text_content,
                    color: self@.kind->Text_color,
                    bound: (x, y),
                    on_click: self@.kind->Text_on_click,
                },
                ..self@
            }),
            well_formed(self@) ==> well_formed(r@),
    {
        let mut r = self;
        r.bound = (x, y);
        r
    }

    /// Sets the function to run when the text is clicked.
    pub fn on_click(self, f: Handler) -> (r: Text)
        ensures
            r@ == (Shape {
                kind: Kind::Text {
                    content: self@.kind->Text_content,
                    color: self@.kind->Text_color,
                    bound: self@.kind->Text_bound,
                    on_click: Some(f),
                },
                ..self@
            }),
            well_formed(self@) ==> well_formed(r@),
    {
        let mut r = self;
        r.on_click = Some(f);
        r
    }

    /// The text color.
    pub fn get_color(&self) -> (r: (u8, u8, u8, u8))
        ensures
            r == self@.kind->Text_color,
    {
        self.color
    }

    /// The right and bottom pixel bounds the text is clipped to.
    pub fn get_bound(&self) -> (r: (i32, i32))
        ensures
            r == self@.kind->Text_bound,
    {
        self.bound
    }

    /// The text to show.
    pub fn text(&self) -> (r: &str)
        ensures
            r@ == self@.kind->Text_content,
    {
        self.content.as_str()
    }
}

impl IntoComponent for Comp {
    open spec fn shape(&self) -> Shape {
        self@
    }

    fn into_comp(self) -> (r: Comp) {
        self
    }
}

} // verus!
