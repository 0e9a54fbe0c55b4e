//! The retained registry of a run: every node in paint order, the last
//! known pointer position, and what each window event leads to.
use vstd::prelude::*;
use crate::context::Handler;
use crate::geometry::{as_ints, floor_div, UNIT};
use crate::model::{
    contains, count, fits, flatten, handler_of, is_depth_order, is_paint_order, lemma_flatten,
    lemma_numbered_paint_order, missed, paint_order, topmost, with_id, Shape,
};
use crate::node::{lemma_shapes_of, shapes_of, Comp};
use crate::registry::{find_topmost, number, sort_by_depth};

verus! {

/// Whether a button went down or up.
pub enum ElementState {
    Pressed,
    Released,
}

/// A pointer button.
pub enum MouseButton {
    Left,
    Right,
    Middle,
    Other,
}

/// A window event, as far as the registry is concerned.
pub enum Event {
    /// The pointer moved to pixel (`x`, `y`) of the window.
    CursorMoved { x: i32, y: i32 },
    /// A pointer button changed state.
    MouseInput { state: ElementState, button: MouseButton },
    /// Anything else.
    Other,
}

/// Pixel `px` of a window `extent` pixels wide, in fixed-point units of the
/// window.
pub open spec fn to_unit(px: int, extent: int) -> int {
    px * UNIT / extent
}

/// Where the pointer is after it moved to pixel (`x`, `y`) of a window of
/// `window` pixels; unknown while the window has no area.
pub open spec fn pointer_at(window: (int, int), x: int, y: int) -> Option<(int, int)> {
    if window.0 > 0 && window.1 > 0 {
        Some((to_unit(x, window.0), to_unit(y, window.1)))
    } else {
        None
    }
}

/// A click at `cursor` on the registry `nodes` reaches entry `k`: the
/// topmost entry under the pointer, which carries a handler.
pub open spec fn reaches(nodes: Seq<Shape>, cursor: Option<(int, int)>, k: int) -> bool {
    &&& cursor matches Some(pt)
    &&& topmost(nodes, pt, k)
    &&& handler_of(nodes[k]).is_some()
}

/// Why the surface could not give a frame.
pub enum SurfaceError {
    Lost,
    Outdated,
    OutOfMemory,
    Timeout,
}

/// What the frame loop does after a failed frame.
pub enum Recovery {
    /// Configure the surface again and go on.
    Reconfigure,
    /// End the run.
    Exit,
    /// Drop this frame and go on.
    SkipFrame,
}

/// A lost or outdated surface is configured again, running out of memory
/// ends the run, and a timeout only drops the frame.
pub fn recovery_for(e: SurfaceError) -> (r: Recovery)
    ensures
        (e is Lost || e is Outdated) <==> r is Reconfigure,
        e is OutOfMemory <==> r is Exit,
        e is Timeout <==> r is SkipFrame,
{
    match e {
        SurfaceError::Lost | SurfaceError::Outdated => Recovery::Reconfigure,
        SurfaceError::OutOfMemory => Recovery::Exit,
        SurfaceError::Timeout => Recovery::SkipFrame,
    }
}

/// The registry of a run.
pub struct State {
    components: Vec<Comp>,
    cursor_pos: Option<(i64, i64)>,
    size: (u32, u32),
}

impl State {
    /// The registered nodes, in paint order.
    pub closed spec fn nodes(&self) -> Seq<Shape> {
        shapes_of(self.components@)
    }

    /// The last known pointer position.
    pub closed spec fn cursor(&self) -> Option<(int, int)> {
        match self.cursor_pos {
            Some(p) => Some(as_ints(p)),
            None => None,
        }
    }

    /// The window's extent in pixels.
    pub closed spec fn window(&self) -> (int, int) {
        (self.size.0 as int, self.size.1 as int)
    }

    /// Every entry fits its machine types and carries its index as identity.
    pub closed spec fn inv(&self) -> bool {
        &&& self.components.len() == self.nodes().len()
        &&& forall|k: int| 0 <= k < self.nodes().len() ==> fits(#[trigger] self.nodes()[k])
        &&& forall|k: int| 0 <= k < self.nodes().len() ==> (#[trigger] self.nodes()[k]).id == k
    }

    /// Registers the tree under `root` for a window of `width` by `height`
    /// pixels: every node, childless, in paint order, each with its index
    /// as identity; the pointer starts at the window's center.
    pub fn new(root: Comp, width: u32, height: u32) -> (r: State)
        requires
            fits(root@),
            count(root@) <= isize::MAX,
        ensures
            r.inv(),
            paint_order(flatten(root@), r.nodes()),
            r.nodes().len() == count(root@),
            forall|k: int| 0 <= k < r.nodes().len() ==> (#[trigger] r.nodes()[k]).id == k,
            r.cursor() == Some((UNIT / 2, UNIT / 2)),
            r.window() == (width as int, height as int),
    {
        let ghost whole = root@;
        let mut root = root;
        let mut rest = root.collect();
        let mut flat: Vec<Comp> = Vec::new();
        flat.push(root);
        let ghost head = flat@;
        let ghost tail = rest@;
        flat.append(&mut rest);
        proof {
            lemma_shapes_of(head);
            lemma_shapes_of(tail);
            lemma_shapes_of(flat@);
            assert(shapes_of(flat@) =~= flatten(whole));
            lemma_flatten(whole);
        }
        let sorted = sort_by_depth(flat);
        let components = number(sorted);
        let r = State { components, cursor_pos: Some((UNIT / 2, UNIT / 2)), size: (width, height) };
        proof {
            let flat_s = flatten(whole);
            let (p, q) = choose|p: Seq<int>, q: Seq<int>| is_depth_order(flat_s, shapes_of(sorted@), p, q);
            lemma_shapes_of(sorted@);
            lemma_shapes_of(components@);
            lemma_numbered_paint_order(flat_s, shapes_of(sorted@), r.nodes(), p, q);
            assert(is_paint_order(flat_s, r.nodes(), p, q));
            assert forall|k: int| 0 <= k < r.nodes().len() implies fits(#[trigger] r.nodes()[k]) by {
                assert(r.nodes()[k] == with_id(flat_s[p[k]], k));
                assert(fits(flat_s[p[k]]));
            }
        }
        r
    }

    /// The registered nodes, in paint order.
    pub fn components(&self) -> (r: &Vec<Comp>)
        ensures
            shapes_of(r@) == self.nodes(),
    {
        &self.components
    }

    /// The window's extent in pixels.
    pub fn size(&self) -> (r: (u32, u32))
        ensures
            (r.0 as int, r.1 as int) == self.window(),
    {
        self.size
    }

    /// The last known pointer position.
    pub fn cursor_pos(&self) -> (r: Option<(i64, i64)>)
        ensures
            r matches Some(p) ==> self.cursor() == Some(as_ints(p)),
            r is None ==> self.cursor() is None,
    {
        self.cursor_pos
    }

    /// The topmost registered node under the pointer, if any.
    pub fn get_element_by_pos(&self) -> (r: Option<usize>)
        requires
            self.inv(),
        ensures
            r matches Some(k) ==> (self.cursor() matches Some(pt) && topmost(self.nodes(), pt, k as int)),
            r is None ==> (self.cursor() matches Some(pt) ==> missed(self.nodes(), pt)),
    {
        match self.cursor_pos {
            Some(pt) => {
                proof {
                    lemma_shapes_of(self.components@);
                }
                find_topmost(&self.components, pt)
            },
            None => None,
        }
    }

    /// The click handler of entry `id`, if it has one.
    pub fn click_handler(&self, id: usize) -> (r: Option<&Handler>)
        requires
            self.inv(),
            id < self.nodes().len(),
        ensures
            r.is_some() == handler_of(self.nodes()[id as int]).is_some(),
            r matches Some(h) ==> handler_of(self.nodes()[id as int]) == Some(*h),
    {
        proof {
            lemma_shapes_of(self.components@);
        }
        self.components[id].click_handler()
    }

    /// Handles a window event. A pointer move records the new position; a
    /// press of the left button returns the identity of the topmost node
    /// under the pointer when that node has a click handler, for the caller
    /// to run it. The registry itself never changes.
    pub fn input(&mut self, event: &Event) -> (r: Option<usize>)
        requires
            old(self).inv(),
        ensures
            final(self).inv(),
            final(self).nodes() == old(self).nodes(),
            final(self).window() == old(self).window(),
            match *event {
                Event::CursorMoved { x, y } => {
                    &&& final(self).cursor() == pointer_at(old(self).window(), x as int, y as int)
                    &&& r is None
                },
                Event::MouseInput { state: ElementState::Pressed, button: MouseButton::Left } => {
                    &&& final(self).cursor() == old(self).cursor()
                    &&& r matches Some(k) ==> reaches(old(self).nodes(), old(self).cursor(), k as int)
                    &&& r is None ==> forall|k: int| !reaches(old(self).nodes(), old(self).cursor(), k)
                },
                _ => final(self).cursor() == old(self).cursor() && r is None,
            },
    {
        match event {
            Event::CursorMoved { x, y } => {
                if self.size.0 > 0 && self.size.1 > 0 {
                    assert(-0x4000_0000_0000_0000 <= *x as i64 * UNIT <= 0x4000_0000_0000_0000) by (nonlinear_arith)
                        requires i32::MIN <= *x <= i32::MAX, UNIT == 10000;
                    assert(-0x4000_0000_0000_0000 <= *y as i64 * UNIT <= 0x4000_0000_0000_0000) by (nonlinear_arith)
                        requires i32::MIN <= *y <= i32::MAX, UNIT == 10000;
                    let cx = floor_div(*x as i64 * UNIT, self.size.0 as i64);
                    let cy = floor_div(*y as i64 * UNIT, self.size.1 as i64);
                    self.cursor_pos = Some((cx, cy));
                } else {
                    self.cursor_pos = None;
                }
                None
            },
            Event::MouseInput { state: ElementState::Pressed, button: MouseButton::Left } => {
                match self.get_element_by_pos() {
                    Some(k) => {
                        proof {
                            lemma_shapes_of(self.components@);
                        }
                        if self.components[k].click_handler().is_some() {
                            Some(k)
                        } else {
                            proof {
                                assert forall|j: int| !reaches(self.nodes(), self.cursor(), j) by {
                                    if reaches(self.nodes(), self.cursor(), j) && j < k {
                                        assert(contains(self.nodes()[k as int], self.cursor()->0));
                                    }
                                }
                            }
                            None
                        }
                    },
                    None => None,
                }
            },
            _ => None,
        }
    }

    /// Records a new window extent. Returns whether the surface is to be
    /// reconfigured: only an extent with area is taken.
    pub fn resize(&mut self, width: u32, height: u32) -> (r: bool)
        ensures
            r == (width > 0 && height > 0),
            final(self).window() == (if r { (width as int, height as int) } else { old(self).window() }),
            final(self).nodes() == old(self).nodes(),
            final(self).cursor() == old(self).cursor(),
            old(self).inv() ==> final(self).inv(),
    {
        if width > 0 && height > 0 {
            self.size = (width, height);
            true
        } else {
            false
        }
    }
}

} // verus!
