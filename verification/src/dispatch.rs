//! The one place where a matcher decides which implementation runs.

use vstd::prelude::*;

verus! {

/// What is known of the block comparison on the machine that runs a search.
///
/// A gate only picks an implementation. Both return the same answer, so
/// the choice is one of speed and never of result.
#[derive(Clone, Copy, Debug, PartialEq, Eq, Structural)]
pub enum Gate {
    /// The target guarantees it: every search takes the block path.
    Guaranteed,
    /// The target cannot have it: every search takes the fallback path.
    Absent,
    /// The target leaves it open, and the machine was asked once. The flag
    /// holds the answer, which is all the state there is.
    Probed(bool),
}

impl Gate {
    /// Whether a search behind this gate takes the block path.
    pub open spec fn accelerated(self) -> bool {
        match self {
            Gate::Guaranteed => true,
            Gate::Absent => false,
            Gate::Probed(supported) => supported,
        }
    }

    /// The branch point: `true` for the block path, `false` for the fallback.
    pub fn use_block_path(&self) -> (accelerated: bool)
        ensures
            accelerated == self.accelerated(),
    {
        match self {
            Gate::Guaranteed => true,
            Gate::Absent => false,
            Gate::Probed(supported) => *supported,
        }
    }
}

impl Default for Gate {
    /// The block comparison of this library is ordinary code that runs on
    /// every target, so support is guaranteed unless a caller says otherwise.
    fn default() -> (gate: Gate)
        ensures
            gate == Gate::Guaranteed,
    {
        Gate::Guaranteed
    }
}

} // verus!
