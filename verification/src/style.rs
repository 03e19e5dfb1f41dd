//! Resolved style values that box generation reads.

use vstd::prelude::*;

verus! {

/// The resolved `display` property of a node.
#[derive(Clone, Copy, Debug, PartialEq, Eq, Structural)]
pub enum Display {
    /// `display: block`.
    Block,
    /// `display: inline`.
    Inline,
    /// `display: none`: the node and its whole subtree generate no box.
    NoBox,
}

/// The cascade-resolved property set of one node.
#[derive(Clone, Copy, Debug, PartialEq, Eq, Structural)]
pub struct ComputedValues {
    pub display: Display,
}

impl Display {
    /// Whether a node with this value generates a box at all.
    pub open spec fn generates_box(self) -> bool {
        self != Display::NoBox
    }

    pub fn is_no_box(&self) -> (r: bool)
        ensures
            r == (*self == Display::NoBox),
    {
        match self {
            Display::NoBox => true,
            _ => false,
        }
    }
}

} // verus!
