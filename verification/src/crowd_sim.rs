//! Crowd simulation configuration as stored in editor documents: desired
//! paths between indexed waypoints with arrival-rate parameters.

use vstd::prelude::*;

verus! {

/// A configured agent source: the waypoint it sits at and its arrival
/// rates, in millionths per second.
#[derive(Clone, Copy, Debug, PartialEq, Eq, Structural)]
pub struct Source {
    pub index: usize,
    pub rate: i64,
    pub lambda: i64,
}

/// A configured agent sink: the waypoint it sits at and its capture
/// radius in milli-units.
#[derive(Clone, Copy, Debug, PartialEq, Eq, Structural)]
pub struct Sink {
    pub index: usize,
    pub r: i64,
}

/// A configured source/sink pair.
#[derive(Clone, Copy, Debug, PartialEq, Eq, Structural)]
pub struct SourceSink {
    pub source: Source,
    pub sink: Sink,
    pub repeat: bool,
}

/// The crowd section of an editor document.
#[derive(Clone, Debug)]
pub struct CrowdSim {
    pub desire_paths: Vec<SourceSink>,
}

impl Default for CrowdSim {
    /// No desired paths.
    fn default() -> (r: Self)
        ensures
            r.desire_paths@.len() == 0,
    {
        CrowdSim { desire_paths: Vec::new() }
    }
}

} // verus!
