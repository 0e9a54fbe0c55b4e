//! What a click handler may touch: the window state, never the registry.
use vstd::prelude::*;

verus! {

/// The state of the window that a click handler may change. The caller
/// builds it from the window before running a handler and applies what the
/// handler left in it afterwards.
pub struct Context {
    fullscreen: bool,
}

impl Context {
    /// Whether the window is to be fullscreen.
    pub closed spec fn wants_fullscreen(&self) -> bool {
        self.fullscreen
    }

    /// The context of a window that is fullscreen or not.
    pub fn new(fullscreen: bool) -> (r: Context)
        ensures
            r.wants_fullscreen() == fullscreen,
    {
        Context { fullscreen }
    }

    /// Whether the window is to be fullscreen.
    pub fn is_fullscreen(&self) -> (r: bool)
        ensures
            r == self.wants_fullscreen(),
    {
        self.fullscreen
    }

    /// Makes the window fullscreen, or not.
    pub fn set_fullscreen(&mut self, fullscreen: bool)
        ensures
            final(self).wants_fullscreen() == fullscreen,
    {
        self.fullscreen = fullscreen;
    }

    /// Switches the window between fullscreen and not.
    pub fn toggle_fullscreen(&mut self)
        ensures
            final(self).wants_fullscreen() == !old(self).wants_fullscreen(),
    {
        self.fullscreen = !self.fullscreen;
    }
}

/// A function run when its node is clicked. Verus cannot reason about
/// function pointers, so the library only carries the value through and
/// hands it back to the caller, who runs it.
#[verifier::external_body]
pub struct Handler(pub fn(&mut Context));

} // verus!
