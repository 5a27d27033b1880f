//! Whether the host is advancing the simulation.

use vstd::prelude::*;

verus! {

/// The pause flag of the simulation; a fresh editor starts paused.
pub struct SimulationState {
    pub paused: bool,
}

impl Default for SimulationState {
    /// A fresh state is paused.
    fn default() -> (r: Self)
        ensures
            r.paused,
    {
        SimulationState { paused: true }
    }
}

} // verus!
