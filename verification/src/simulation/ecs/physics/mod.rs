//! Physics state attached to entities.
//!
//! The physics system has two layers. Constraints are engine-level
//! orchestrators of modifiers, such as a rope between two entities that owns
//! a force updated every tick from the simulation's state. Modifiers are the
//! base primitives: constant contributions of velocity or force.
//!
//! Both kinds live in list arenas, so that entities own no heap allocations:
//! everything physics-related stays packed in two contiguous buffers, and an
//! entity holds only the heads of its two lists.

use vstd::prelude::*;
use crate::common::dense_arena::ArenaKey;
use crate::common::fixed::{Fixed, Vec2F, Vec3F};
use crate::common::list_arena::{ListArena, other_than};
use crate::simulation::ecs::velocity::{
    Source, SourceID, SourceList, changes_value, find_destroyed, find_live, placed, set_value,
    source_items, sum_sources, sums_fit, zero3, component, component_sum, source_total,
    has_destroyed, first_destroyed, first_destroyed_at,
};

pub mod forces;
pub mod velocity;

verus! {

/// What a physics modifier acts on.
pub enum ModifierKind {
    Velocity,
    AngularVelocity,
    Force,
    AngularForce,
}

pub type ModifierID = ArenaKey;

pub type ConstraintID = ArenaKey;

/// The vector with linear part `vec` and no angular part.
pub fn from_linear(vec: Vec2F) -> (v: Vec3F)
    ensures
        v.x == vec.x && v.y == vec.y && v.z.bits == 0,
{
    Vec3F::new(vec.x, vec.y, Fixed::zero())
}

/// The linear part of `vec`.
pub fn to_linear(vec: Vec3F) -> (v: Vec2F)
    ensures
        v.x == vec.x && v.y == vec.y,
{
    Vec2F::new(vec.x, vec.y)
}

/// Contributions to a physical quantity, each owned by whatever contributes
/// it and found again by its id.
#[derive(Debug)]
pub struct PhysicsSources {
    pub sources: SourceList,
    pub next_src_id: SourceID,
}

impl Clone for PhysicsSources {
    fn clone(&self) -> (s: Self)
        ensures
            source_items(s.sources) == source_items(self.sources),
            s.next_src_id == self.next_src_id,
    {
        PhysicsSources { sources: self.sources.clone(), next_src_id: self.next_src_id }
    }
}

impl PhysicsSources {
    pub fn new() -> (s: Self)
        ensures
            source_items(s.sources) == Seq::<Source<Vec3F>>::empty(),
            s.next_src_id == 0,
    {
        PhysicsSources { sources: SourceList::new(), next_src_id: 0 }
    }

    /// The total of all contributions.
    pub fn get(&self) -> (v: Vec3F)
        requires
            sums_fit(source_items(self.sources)),
        ensures
            v == source_total(source_items(self.sources)),
    {
        let v = sum_sources(&self.sources);
        proof {
            assert(component(v, 0) == component_sum(source_items(self.sources), 0));
            assert(component(v, 1) == component_sum(source_items(self.sources), 1));
            assert(component(v, 2) == component_sum(source_items(self.sources), 2));
        }
        v
    }

    /// Adds a contribution of zero under a new id, reusing the slot of the
    /// first destroyed one if there is one.
    pub fn new_source(&mut self) -> (id: SourceID)
        requires
            old(self).next_src_id < u32::MAX,
        ensures
            id == old(self).next_src_id,
            final(self).next_src_id == old(self).next_src_id + 1,
            source_items(final(self).sources) == placed(
                source_items(old(self).sources),
                Source { meta: id, val: zero3() },
            ),
            // the new source starts at zero, in the first destroyed slot or
            // after every other source, which all stay as they were
            ({
                let s = source_items(old(self).sources);
                let f = source_items(final(self).sources);
                let pos = if has_destroyed(s) {
                    first_destroyed(s)
                } else {
                    s.len() as int
                };
                &&& has_destroyed(s) ==> first_destroyed_at(s, pos)
                &&& f.len() == (if has_destroyed(s) {
                    s.len() as int
                } else {
                    s.len() + 1int
                })
                &&& f[pos].meta == id
                &&& f[pos].val.x.bits == 0 && f[pos].val.y.bits == 0 && f[pos].val.z.bits == 0
                &&& forall|j: int| 0 <= j < s.len() && j != pos ==> #[trigger] f[j] == s[j]
            }),
    {
        let id = self.next_src_id;
        let src = Source::new(id, Vec3F::zero());
        match find_destroyed(&self.sources) {
            Some(idx) => {
                let slot = self.sources.get_mut(idx);
                *slot = src;
            },
            None => {
                self.sources.push(src);
            },
        }
        self.next_src_id += 1;
        id
    }

    /// Sets the contribution with id `src` to `val`; returns whether there
    /// is one.
    pub fn set_source(&mut self, src: SourceID, val: Vec3F) -> (found: bool)
        ensures
            final(self).next_src_id == old(self).next_src_id,
            found == crate::simulation::ecs::velocity::has_match(source_items(old(self).sources), src),
            source_items(final(self).sources) == set_value(source_items(old(self).sources), src, val),
    {
        match find_live(&self.sources, src) {
            Some(i) => {
                let slot = self.sources.get_mut(i);
                slot.val = val;
                true
            },
            None => false,
        }
    }
}

/// An entity's physics: its kinematic state (of type `D`) and the heads of
/// its modifier and constraint lists.
pub struct Physics<D> {
    pub kinematic_data: D,
    first_modifier: Option<ModifierID>,
    first_constraint: Option<ConstraintID>,
}

impl<D> Physics<D> {
    /// The entity's kinematic state.
    pub closed spec fn kinematics(self) -> D {
        self.kinematic_data
    }

    /// The head of this entity's modifier list.
    pub closed spec fn modifiers_head(self) -> Option<ModifierID> {
        self.first_modifier
    }

    /// The head of this entity's constraint list.
    pub closed spec fn constraints_head(self) -> Option<ConstraintID> {
        self.first_constraint
    }

    /// The head of this entity's modifier list.
    pub fn first_modifier(&self) -> (h: Option<ModifierID>)
        ensures
            h == self.modifiers_head(),
    {
        self.first_modifier
    }

    /// The head of this entity's constraint list.
    pub fn first_constraint(&self) -> (h: Option<ConstraintID>)
        ensures
            h == self.constraints_head(),
    {
        self.first_constraint
    }

    /// Physics with the given kinematic state and no modifiers or
    /// constraints.
    pub fn new(kinematic_data: D) -> (p: Self)
        ensures
            p.kinematics() == kinematic_data,
            p.modifiers_head() is None,
            p.constraints_head() is None,
    {
        Physics { kinematic_data, first_modifier: None, first_constraint: None }
    }

    /// Puts `modifier` at the front of this entity's modifier list.
    pub fn add_mod<M>(&mut self, mod_arena: &mut ListArena<M>, modifier: M) -> (id: ModifierID)
        requires
            old(mod_arena).wf(),
            old(mod_arena).is_head(old(self).modifiers_head()),
        ensures
            final(mod_arena).wf(),
            final(self).modifiers_head() == Some(id),
            final(mod_arena).is_head(final(self).modifiers_head()),
            !old(mod_arena).issued(id),
            !old(mod_arena).contains(id),
            final(mod_arena).contains(id),
            forall|j: ArenaKey| j != id ==> #[trigger] final(mod_arena).contains(j) == old(mod_arena).contains(j),
            final(mod_arena).data(id) == modifier,
            final(mod_arena).chain(Some(id)) == seq![id] + old(mod_arena).chain(
                old(self).modifiers_head(),
            ),
            forall|s: Option<ArenaKey>|
                s != Some(id) ==> #[trigger] final(mod_arena).chain(s) == old(mod_arena).chain(s),
            forall|j: ArenaKey|
                old(mod_arena).contains(j) ==> #[trigger] final(mod_arena).data(j)
                    == old(mod_arena).data(j),
            final(self).constraints_head() == old(self).constraints_head(),
            final(self).kinematics() == old(self).kinematics(),
    {
        mod_arena.add(&mut self.first_modifier, modifier)
    }

    /// Takes the modifier `mod_id` out of the arena, returning it if it was
    /// there; this entity's list head moves on if it named that modifier.
    pub fn remove_mod<M>(&mut self, mod_arena: &mut ListArena<M>, mod_id: ModifierID) -> (r: Option<M>)
        requires
            old(mod_arena).wf(),
        ensures
            final(mod_arena).wf(),
            r matches Some(m) ==> old(mod_arena).contains(mod_id) && m == old(mod_arena).data(mod_id),
            r is None <==> !old(mod_arena).contains(mod_id),
            !final(mod_arena).contains(mod_id),
            final(self).modifiers_head() == (if old(self).modifiers_head() == Some(mod_id) && old(mod_arena).contains(mod_id) {
                old(mod_arena).next(mod_id)
            } else {
                old(self).modifiers_head()
            }),
            forall|j: ArenaKey| j != mod_id ==> #[trigger] final(mod_arena).contains(j) == old(mod_arena).contains(j),
            final(mod_arena).chain(final(self).modifiers_head()) == old(mod_arena).chain(
                old(self).modifiers_head(),
            ).filter(other_than(mod_id)),
            forall|s: Option<ArenaKey>|
                s != Some(mod_id) ==> #[trigger] final(mod_arena).chain(s)
                    == old(mod_arena).chain(s).filter(other_than(mod_id)),
            forall|j: ArenaKey|
                j != mod_id && old(mod_arena).contains(j) ==> #[trigger] final(mod_arena).data(j)
                    == old(mod_arena).data(j),
            old(mod_arena).is_head(old(self).modifiers_head()) ==> final(mod_arena).is_head(
                final(self).modifiers_head(),
            ),
            final(self).constraints_head() == old(self).constraints_head(),
            final(self).kinematics() == old(self).kinematics(),
    {
        mod_arena.remove(&mut self.first_modifier, mod_id)
    }

    /// Puts `constraint` at the front of this entity's constraint list.
    pub fn add_constraint<C>(&mut self, constraint_arena: &mut ListArena<C>, constraint: C) -> (id: ConstraintID)
        requires
            old(constraint_arena).wf(),
            old(constraint_arena).is_head(old(self).constraints_head()),
        ensures
            final(constraint_arena).wf(),
            final(self).constraints_head() == Some(id),
            final(constraint_arena).is_head(final(self).constraints_head()),
            !old(constraint_arena).issued(id),
            !old(constraint_arena).contains(id),
            final(constraint_arena).contains(id),
            forall|j: ArenaKey| j != id ==> #[trigger] final(constraint_arena).contains(j) == old(constraint_arena).contains(j),
            final(constraint_arena).data(id) == constraint,
            final(constraint_arena).chain(Some(id)) == seq![id] + old(constraint_arena).chain(
                old(self).constraints_head(),
            ),
            forall|s: Option<ArenaKey>|
                s != Some(id) ==> #[trigger] final(constraint_arena).chain(s)
                    == old(constraint_arena).chain(s),
            forall|j: ArenaKey|
                old(constraint_arena).contains(j) ==> #[trigger] final(constraint_arena).data(j)
                    == old(constraint_arena).data(j),
            final(self).modifiers_head() == old(self).modifiers_head(),
            final(self).kinematics() == old(self).kinematics(),
    {
        constraint_arena.add(&mut self.first_constraint, constraint)
    }

    /// Takes the constraint `constraint_id` out of the arena, returning it if
    /// it was there; this entity's list head moves on if it named it.
    pub fn remove_constraint<C>(
        &mut self,
        constraint_arena: &mut ListArena<C>,
        constraint_id: ConstraintID,
    ) -> (r: Option<C>)
        requires
            old(constraint_arena).wf(),
        ensures
            final(constraint_arena).wf(),
            r matches Some(c) ==> old(constraint_arena).contains(constraint_id) && c == old(
                constraint_arena,
            ).data(constraint_id),
            r is None <==> !old(constraint_arena).contains(constraint_id),
            !final(constraint_arena).contains(constraint_id),
            final(self).constraints_head() == (if old(self).constraints_head() == Some(constraint_id) && old(
                constraint_arena,
            ).contains(constraint_id) {
                old(constraint_arena).next(constraint_id)
            } else {
                old(self).constraints_head()
            }),
            forall|j: ArenaKey|
                j != constraint_id ==> #[trigger] final(constraint_arena).contains(j) == old(
                    constraint_arena,
                ).contains(j),
            final(constraint_arena).chain(final(self).constraints_head())
                == old(constraint_arena).chain(old(self).constraints_head()).filter(
                other_than(constraint_id),
            ),
            forall|s: Option<ArenaKey>|
                s != Some(constraint_id) ==> #[trigger] final(constraint_arena).chain(s)
                    == old(constraint_arena).chain(s).filter(other_than(constraint_id)),
            forall|j: ArenaKey|
                j != constraint_id && old(constraint_arena).contains(j)
                    ==> #[trigger] final(constraint_arena).data(j) == old(constraint_arena).data(j),
            final(self).modifiers_head() == old(self).modifiers_head(),
            final(self).kinematics() == old(self).kinematics(),
    {
        constraint_arena.remove(&mut self.first_constraint, constraint_id)
    }
}

impl<D: Default> Default for Physics<D> {
    fn default() -> (p: Self)
        ensures
            p.modifiers_head() is None,
            p.constraints_head() is None,
    {
        Physics { kinematic_data: D::default(), first_modifier: None, first_constraint: None }
    }
}

/// Collision detection; nothing is detected yet.
pub fn collision_detection() {
}

} // verus!
