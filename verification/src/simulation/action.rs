//! What an action on the simulated world answers.

use bevy_ecs::entity::Entity;
use vstd::prelude::*;
use crate::simulation::ecs::movement::{Movement, MovementIntent};
use crate::simulation::ecs::velocity::{source_items, zero3, Source, Velocity};
use crate::common::fixed::Vec3F;

verus! {

/// Why an action was refused.
#[derive(Debug)]
pub enum ActionError {
    /// The action names an entity that the world does not hold.
    EntityNotFound,
}

/// What an action answers; which variant to expect depends on the action.
pub enum ActionResponse {
    Null,
    Entity(Entity),
}

pub type ActionResult = Result<ActionResponse, ActionError>;

/// What setting an entity's movement intent does to its movement: carried
/// out (`mutate`), the intent is replaced and the rest kept; only validated,
/// nothing changes. Either way the action answers `Null`.
pub fn apply_intent(mvmt: &mut Movement, intent: MovementIntent, mutate: bool) -> (r: ActionResult)
    ensures
        r matches Ok(ActionResponse::Null),
        mutate ==> final(mvmt).intent == intent && final(mvmt).phys_src == old(mvmt).phys_src,
        !mutate ==> *final(mvmt) == *old(mvmt),
{
    if mutate {
        mvmt.intent = intent;
    }
    Ok(ActionResponse::Null)
}

/// The components a new ship starts with: no movement intent and no
/// movement source yet, and a velocity with no sources, at rest.
pub fn new_ship() -> (p: (Movement, Velocity))
    ensures
        p.0.intent.flags() == 0,
        p.0.phys_src is None,
        p.1.cached == zero3(),
        !p.1.dirty,
        p.1.next_src_id == 0,
        source_items(p.1.sources) == Seq::<Source<Vec3F>>::empty(),
{
    (Movement { intent: MovementIntent::empty(), phys_src: None }, Velocity::new())
}

} // verus!
