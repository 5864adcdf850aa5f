use vstd::prelude::*;
use crate::common::fixed::{Fixed, Vec2F, Vec3F, fits_i64, mul_bits};
use crate::common::time::Time;
use crate::simulation::ecs::physics::{PhysicsSources, to_linear};
use crate::simulation::ecs::velocity::{Source, source_items, source_total, sums_fit, sec_bits};

verus! {

/// A velocity: a base that forces accumulate into, plus contributions from
/// sources.
#[derive(Debug)]
pub struct Velocity {
    pub base: Vec3F,
    pub sources: PhysicsSources,
}

impl Clone for Velocity {
    fn clone(&self) -> (v: Self)
        ensures
            v.base == self.base,
            source_items(v.sources.sources) == source_items(self.sources.sources),
            v.sources.next_src_id == self.sources.next_src_id,
    {
        Velocity { base: self.base, sources: self.sources.clone() }
    }
}

/// The sum of the base and the sources' total, component by component.
pub open spec fn velocity_total(base: Vec3F, sources: Seq<Source<Vec3F>>) -> (int, int, int) {
    let t = source_total(sources);
    (base.x.bits + t.x.bits, base.y.bits + t.y.bits, base.z.bits + t.z.bits)
}

/// The velocity's total stays within the range of fixed-point numbers.
pub open spec fn velocity_fits(base: Vec3F, sources: Seq<Source<Vec3F>>) -> bool {
    let (x, y, z) = velocity_total(base, sources);
    &&& sums_fit(sources)
    &&& fits_i64(x) && fits_i64(y) && fits_i64(z)
}

impl Velocity {
    /// The base plus the total of the sources.
    pub fn get(&self) -> (v: Vec3F)
        requires
            velocity_fits(self.base, source_items(self.sources.sources)),
        ensures
            ({
                let (x, y, z) = velocity_total(self.base, source_items(self.sources.sources));
                v.x.bits == x && v.y.bits == y && v.z.bits == z
            }),
    {
        let s = self.sources.get();
        Vec3F::new(self.base.x.add(s.x), self.base.y.add(s.y), self.base.z.add(s.z))
    }

    pub fn new() -> (v: Self)
        ensures
            v.base.x.bits == 0 && v.base.y.bits == 0 && v.base.z.bits == 0,
            source_items(v.sources.sources) == Seq::<Source<Vec3F>>::empty(),
            v.sources.next_src_id == 0,
    {
        Velocity {
            sources: PhysicsSources::new(),
            base: Vec3F::new(Fixed::zero(), Fixed::zero(), Fixed::zero()),
        }
    }
}

/// One entity's step of the velocity system: how far it moves in `dt`.
pub fn apply_velocity_to(vel: &Velocity, dt: Time) -> (d: Vec2F)
    requires
        velocity_fits(vel.base, source_items(vel.sources.sources)),
        dt.nanos() < 0x8000_0000,
        ({
            let (x, y, z) = velocity_total(vel.base, source_items(vel.sources.sources));
            fits_i64(mul_bits(x, sec_bits(dt))) && fits_i64(mul_bits(y, sec_bits(dt)))
        }),
    ensures
        ({
            let (x, y, z) = velocity_total(vel.base, source_items(vel.sources.sources));
            d.x.bits == mul_bits(x, sec_bits(dt)) && d.y.bits == mul_bits(y, sec_bits(dt))
        }),
{
    let lin = to_linear(vel.get());
    let step = dt.sec();
    Vec2F::new(lin.x.mul(step), lin.y.mul(step))
}

} // verus!
