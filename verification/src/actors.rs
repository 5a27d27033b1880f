//! Crowd actor descriptions from legacy building files: behavior trees
//! and actor groups, keyed by name.

use vstd::prelude::*;

verus! {

/// One node of a behavior tree: its type, name, and named parameters.
#[derive(Clone, Debug)]
pub struct BehaviorNode {
    pub type_: String,
    pub name: String,
    pub params: Vec<(String, String)>,
}

/// A behavior: a list of behavior nodes.
#[derive(Clone, Debug)]
pub struct Behavior {
    pub nodes: Vec<BehaviorNode>,
}

/// A group of actors sharing a behavior.
#[derive(Clone, Debug)]
pub struct ActorGroup {
    pub size: i32,
    pub behavior: String,
}

/// All actor definitions of a level: behaviors and groups by name.
#[derive(Clone, Debug)]
pub struct Actors {
    pub behaviors: Vec<(String, Behavior)>,
    pub groups: Vec<(String, ActorGroup)>,
}

impl Default for Actors {
    /// No behaviors and no groups.
    fn default() -> (r: Self)
        ensures
            r.behaviors@.len() == 0,
            r.groups@.len() == 0,
    {
        Actors { behaviors: Vec::new(), groups: Vec::new() }
    }
}

} // verus!
