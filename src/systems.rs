//! The ordered list of systems that a server runs each tick.
use vstd::prelude::*;
use vstd::view::View as ModelOf;

verus! {

/// The systems of this crate.
#[derive(Clone, Copy, Debug, PartialEq, Eq, Structural)]
pub enum SystemId {
    UpdatePlayerViews,
    UpdateViewOnJoin,
    SendEntityMovement,
    SendEntitySneakMetadata,
    SendEntitySprintMetadata,
}

/// Holds the systems to run each tick, in the order they were added.
pub struct SystemExecutor {
    systems: Vec<SystemId>,
}

impl SystemExecutor {
    pub closed spec fn spec_systems(self) -> Seq<SystemId> {
        self.systems@
    }

    pub fn new() -> (r: SystemExecutor)
        ensures
            r.spec_systems() == Seq::<SystemId>::empty(),
    {
        SystemExecutor { systems: Vec::new() }
    }

    /// Appends a system to run after those already added.
    pub fn add_system(&mut self, system: SystemId)
        ensures
            final(self).spec_systems() == old(self).spec_systems().push(system),
    {
        self.systems.push(system);
    }

    /// The systems in the order they run.
    pub fn systems(&self) -> (r: &Vec<SystemId>)
        ensures
            r@ == self.spec_systems(),
    {
        &self.systems
    }
}

} // verus!
