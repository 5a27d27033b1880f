//! Crowd motion-planning and simulation core.
//!
//! A sparse 2D occupancy grid records wall segments rasterized with a
//! discrete line-drawing algorithm; the grid doubles as an 8-connected
//! graph over which a best-first search plans timed trajectories; a
//! per-target velocity cache turns trajectories into desired velocities;
//! and a stepped multi-agent simulation spawns agents from Poisson-style
//! sources, moves them along the planned field and captures them at sinks.
//!
//! All continuous quantities (positions, radii, speeds) are fixed-point
//! integers in milli-units: one distance unit is 1000, one second is
//! 1000 time units. A host that works in floating point converts at the
//! boundary.

pub mod geometry;
pub mod raster;
pub mod occupancy;
pub mod graph;
pub mod planner;
pub mod highlevel;
pub mod spatial;
pub mod sim;
pub mod crowd_sim;
pub mod simulation_state;
pub mod outline;
pub mod inspect_scale;
pub mod actors;
