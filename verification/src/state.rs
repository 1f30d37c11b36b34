use vstd::prelude::*;

verus! {

/// Whether a scan is still running.
#[derive(Clone, Copy, Debug, PartialEq, Eq, Structural)]
pub enum State {
    /// The cursor stands on a character of the input.
    Go,
    /// The cursor has moved past the end of the input.
    Stop,
}

} // verus!
