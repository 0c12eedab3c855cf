//! What the windowing layer reports between frames.
use vstd::prelude::*;

verus! {

/// The windowing layer's pending notifications. A resize noted at any time is
/// read, and cleared, exactly once by the next frame that asks.
pub struct Glfw {
    framebuffer_resized: bool,
}

impl View for Glfw {
    /// Whether a resize is pending.
    type V = bool;

    closed spec fn view(&self) -> bool {
        self.framebuffer_resized
    }
}

impl Glfw {
    /// Starts with a resize pending, so that the first frame reads the real size.
    pub fn new() -> (r: Glfw)
        ensures
            r@,
    {
        Glfw { framebuffer_resized: true }
    }

    /// Notes that the framebuffer changed size.
    pub fn framebuffer_resized(&mut self)
        ensures
            final(self)@,
    {
        self.framebuffer_resized = true;
    }

    /// Whether the framebuffer changed size since the last time this was asked.
    pub fn framebuffer_size_dirty(&mut self) -> (r: bool)
        ensures
            r == old(self)@,
            !final(self)@,
    {
        let r = self.framebuffer_resized;
        self.framebuffer_resized = false;
        r
    }
}

} // verus!
