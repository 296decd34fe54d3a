//! The water surface's simulation definitions and lift depths.
use vstd::prelude::*;

verus! {

/// The water simulation's resolution.
#[derive(Clone, Copy, Debug, PartialEq, Eq, Structural)]
pub enum Definition {
    Sd,
    Hd,
}

impl Default for Definition {
    fn default() -> (r: Definition)
        ensures
            r == Definition::Sd,
    {
        Definition::Sd
    }
}

impl Definition {
    /// The slot a definition's resources occupy: its position in declaration order.
    pub fn slot(self) -> (r: usize)
        ensures
            r == (if self == Definition::Sd { 0usize } else { 1usize }),
    {
        match self {
            Definition::Sd => 0,
            Definition::Hd => 1,
        }
    }

    pub fn label(self) -> (r: &'static str)
        ensures
            r@ == (if self == Definition::Sd { "sd"@ } else { "hd"@ }),
    {
        match self {
            Definition::Sd => "sd",
            Definition::Hd => "hd",
        }
    }
}

/// How deep a lifted element sits in the water.
#[derive(Clone, Copy, Debug, PartialEq, Eq, Structural)]
pub enum LiftDepth {
    Surface,
    Shallow,
}

} // verus!
