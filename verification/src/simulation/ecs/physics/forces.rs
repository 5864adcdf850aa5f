use vstd::prelude::*;
use crate::common::fixed::{Fixed, Vec2F, Vec3F, fits_i64, mul_bits};
use crate::common::time::Time;
use crate::simulation::ecs::physics::PhysicsSources;
use crate::simulation::ecs::physics::velocity::Velocity;
use crate::simulation::ecs::velocity::{Source, component_sum, source_items, source_total, sums_fit, sec_bits};

verus! {

/// The forces acting on an entity, one source per contributor.
#[derive(Debug)]
pub struct Forces {
    pub sources: PhysicsSources,
}

impl Clone for Forces {
    fn clone(&self) -> (f: Self)
        ensures
            source_items(f.sources.sources) == source_items(self.sources.sources),
            f.sources.next_src_id == self.sources.next_src_id,
    {
        Forces { sources: self.sources.clone() }
    }
}

impl Forces {
    /// The total force.
    pub fn get(&self) -> (f: Vec3F)
        requires
            sums_fit(source_items(self.sources.sources)),
        ensures
            f == source_total(source_items(self.sources.sources)),
    {
        self.sources.get()
    }

    pub fn new() -> (f: Self)
        ensures
            source_items(f.sources.sources) == Seq::<Source<Vec3F>>::empty(),
            f.sources.next_src_id == 0,
    {
        Forces { sources: PhysicsSources::new() }
    }

    /// The force with linear part `vec` and no torque.
    pub fn from_linear(vec: Vec2F) -> (v: Vec3F)
        ensures
            v.x == vec.x && v.y == vec.y && v.z.bits == 0,
    {
        Vec3F::new(vec.x, vec.y, Fixed::zero())
    }
}

/// The base velocity after the force `f` acts for a time whose length in
/// seconds has raw bits `step`, component by component.
pub open spec fn accelerated(base: Vec3F, f: Vec3F, step: int) -> (int, int, int) {
    (
        base.x.bits + mul_bits(f.x.bits as int, step),
        base.y.bits + mul_bits(f.y.bits as int, step),
        base.z.bits + mul_bits(f.z.bits as int, step),
    )
}

/// Accelerating stays within the range of fixed-point numbers.
pub open spec fn acceleration_fits(base: Vec3F, f: Vec3F, step: int) -> bool {
    let (x, y, z) = accelerated(base, f, step);
    &&& fits_i64(mul_bits(f.x.bits as int, step))
    &&& fits_i64(mul_bits(f.y.bits as int, step))
    &&& fits_i64(mul_bits(f.z.bits as int, step))
    &&& fits_i64(x) && fits_i64(y) && fits_i64(z)
}

/// One entity's step of the force system: the total force acts on the base
/// velocity for `dt`.
pub fn apply_forces_to(force: &Forces, vel: &mut Velocity, dt: Time)
    requires
        sums_fit(source_items(force.sources.sources)),
        dt.nanos() < 0x8000_0000,
        acceleration_fits(old(vel).base, source_total(source_items(force.sources.sources)), sec_bits(dt)),
    ensures
        ({
            let (x, y, z) = accelerated(
                old(vel).base,
                source_total(source_items(force.sources.sources)),
                sec_bits(dt),
            );
            final(vel).base.x.bits == x && final(vel).base.y.bits == y && final(vel).base.z.bits == z
        }),
        source_items(final(vel).sources.sources) == source_items(old(vel).sources.sources),
        final(vel).sources.next_src_id == old(vel).sources.next_src_id,
        final(vel).base.x.bits == old(vel).base.x.bits + mul_bits(
            component_sum(source_items(force.sources.sources), 0),
            sec_bits(dt),
        ),
        final(vel).base.y.bits == old(vel).base.y.bits + mul_bits(
            component_sum(source_items(force.sources.sources), 1),
            sec_bits(dt),
        ),
        final(vel).base.z.bits == old(vel).base.z.bits + mul_bits(
            component_sum(source_items(force.sources.sources), 2),
            sec_bits(dt),
        ),
{
    let f = force.get();
    proof {
        let items = source_items(force.sources.sources);
        assert(items.take(items.len() as int) =~= items);
        assert(fits_i64(component_sum(items.take(items.len() as int), 0)));
        assert(fits_i64(component_sum(items.take(items.len() as int), 1)));
        assert(fits_i64(component_sum(items.take(items.len() as int), 2)));
    }
    let step = dt.sec();
    let dx = f.x.mul(step);
    let dy = f.y.mul(step);
    let dz = f.z.mul(step);
    vel.base = Vec3F::new(vel.base.x.add(dx), vel.base.y.add(dy), vel.base.z.add(dz));
}

} // verus!
