//! The ECS world and schedule that the simulation drives.

use bevy_ecs::entity::Entity;
use bevy_ecs::schedule::Schedule;
use bevy_ecs::world::World;
use vstd::prelude::*;

verus! {

/// An ECS entity handle; the library only carries it through.
#[verifier::external_type_specification]
#[verifier::external_body]
pub struct ExEntity(Entity);

/// The ECS world holding every simulated entity's components.
#[verifier::external_type_specification]
#[verifier::external_body]
pub struct ExWorld(World);

/// The ordered set of systems run on the world once per tick.
#[verifier::external_type_specification]
#[verifier::external_body]
pub struct ExSchedule(Schedule);

/// An empty world. Calls `World::new`; nothing is claimed of the result.
#[verifier::external_body]
pub(crate) fn new_world() -> World {
    World::new()
}

/// The number of systems that `schedule` holds: what `Schedule::systems_len`
/// reports for it.
pub uninterp spec fn schedule_system_count(schedule: Schedule) -> nat;

/// A schedule under the default label, holding no systems. Calls
/// `Schedule::default`, which builds `Schedule::new(DefaultSchedule)`: an
/// empty system graph.
#[verifier::external_body]
fn default_schedule() -> (schedule: Schedule)
    ensures
        schedule_system_count(schedule) == 0,
{
    Schedule::default()
}

/// The schedule that runs the simulation's systems, with a tally, kept for
/// proofs only, of how many times it has run.
pub struct TickSchedule {
    schedule: Schedule,
    runs: Ghost<nat>,
}

impl TickSchedule {
    /// How many times the schedule has been run on a world.
    pub closed spec fn runs(self) -> nat {
        self.runs@
    }

    /// The schedule holds no systems.
    pub closed spec fn is_empty(self) -> bool {
        schedule_system_count(self.schedule) == 0
    }

    /// A schedule under the default label that holds no systems and has
    /// never run.
    pub fn new() -> (s: TickSchedule)
        ensures
            s.is_empty(),
            s.runs() == 0,
    {
        TickSchedule { schedule: default_schedule(), runs: Ghost(0) }
    }
}

/// Runs every system of `s` once on `world`, by `Schedule::run`, and counts
/// that run in the tally. `Schedule::run` panics only where the schedule's
/// systems cannot be initialized against the world: an empty schedule has
/// none, so it is required, and running adds no system. Nothing is claimed
/// of the world afterwards.
#[verifier::external_body]
pub(crate) fn run_schedule(s: &mut TickSchedule, world: &mut World)
    requires
        old(s).is_empty(),
    ensures
        final(s).is_empty(),
        final(s).runs() == old(s).runs() + 1,
{
    s.schedule.run(world)
}

} // verus!
