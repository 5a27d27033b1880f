//! Inspection of an element's scale: the widget's data half, without the
//! drawing half that belongs to the host GUI.

use vstd::prelude::*;

verus! {

/// A three-axis scale factor in thousandths.
#[derive(Clone, Copy, Debug, PartialEq, Eq, Structural)]
pub struct Scale {
    pub x: i64,
    pub y: i64,
    pub z: i64,
}

/// An inspector over one element's scale.
#[derive(Clone, Copy, Debug, PartialEq, Eq, Structural)]
pub struct InspectScale {
    pub scale: Scale,
}

impl InspectScale {
    /// An inspector showing the given scale.
    pub fn new(scale: &Scale) -> (r: Self)
        ensures
            r.scale == *scale,
    {
        InspectScale { scale: *scale }
    }
}

} // verus!
