//! A retained-mode 2D scene graph: nodes composed into a tree, folded into
//! absolute coordinates, flattened into a depth-ordered registry, and hit
//! tested against a pointer.
use vstd::prelude::*;

pub mod context;
pub mod geometry;
pub mod laws;
pub mod model;
pub mod node;
pub mod registry;
pub mod state;

pub use context::{Context, Handler};
pub use geometry::UNIT;
pub use node::{Comp, Empty, Img, IntoComponent, Rect, Text};
pub use state::{recovery_for, ElementState, Event, MouseButton, Recovery, State, SurfaceError};

verus! {

} // verus!
