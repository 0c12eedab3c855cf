//! What a scene asks of the frame loop.
use vstd::prelude::*;

verus! {

/// What the frame loop does after a scene has run for one frame.
#[derive(Clone, Copy, Debug, PartialEq, Eq, Structural)]
pub enum Action {
    /// Present the frame and run the same scene again.
    Continue,
}

} // verus!
