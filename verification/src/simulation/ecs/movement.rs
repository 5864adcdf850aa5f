//! Player-controlled movement: a set of held directions turned into a force.

use vstd::prelude::*;
use crate::common::fixed::{
    Fixed, ONE_BITS, Vec2F, Vec3F, div_bits, is_sqrt_bits, lemma_sqrt_bits_unique, mul_bits,
    sqrt_bits,
};
use crate::simulation::ecs::physics::forces::Forces;
use crate::simulation::ecs::physics::from_linear;
use crate::simulation::ecs::velocity::{Source, SourceID, placed, set_value, source_items, zero3};

verus! {

/// A direction of movement.
#[derive(Clone, Copy, Debug, PartialEq, Eq, Structural)]
pub enum MovementDir {
    Left,
    Right,
    Up,
    Down,
}

/// The flag that stands for `d` in a [`MovementIntent`].
pub open spec fn dir_bit(d: MovementDir) -> u8 {
    match d {
        MovementDir::Left => 1,
        MovementDir::Right => 2,
        MovementDir::Up => 4,
        MovementDir::Down => 8,
    }
}

impl MovementDir {
    /// The flag that stands for this direction.
    pub fn bit(self) -> (b: u8)
        ensures
            b == dir_bit(self),
    {
        match self {
            MovementDir::Left => 1,
            MovementDir::Right => 2,
            MovementDir::Up => 4,
            MovementDir::Down => 8,
        }
    }
}

/// The set of directions a player is holding, one flag per direction.
#[derive(Clone, Copy, Debug, PartialEq, Eq, Structural)]
pub struct MovementIntent {
    bits: u8,
}

impl MovementIntent {
    /// `d` is in the set.
    pub open spec fn has(self, d: MovementDir) -> bool {
        (self.flags() & dir_bit(d)) != 0
    }

    /// The flags of the set.
    pub closed spec fn flags(self) -> u8 {
        self.bits
    }

    /// The empty set.
    pub fn empty() -> (i: Self)
        ensures
            i.flags() == 0,
    {
        MovementIntent { bits: 0 }
    }

    /// The set whose flags are those of `bits` that stand for a direction.
    pub fn from_bits_truncate(bits: u8) -> (i: Self)
        ensures
            i.flags() == bits & 0xf,
    {
        MovementIntent { bits: bits & 0xf }
    }

    /// The flags of the set.
    pub fn bits(self) -> (b: u8)
        ensures
            b == self.flags(),
    {
        self.bits
    }

    pub fn contains(self, d: MovementDir) -> (b: bool)
        ensures
            b == self.has(d),
    {
        (self.bits & d.bit()) != 0
    }

    /// Adds `d` to the set.
    pub fn insert(&mut self, d: MovementDir)
        ensures
            final(self).flags() == old(self).flags() | dir_bit(d),
    {
        self.bits = self.bits | d.bit();
    }
}

/// An entity's movement intent and the force source it drives.
pub struct Movement {
    pub intent: MovementIntent,
    pub phys_src: Option<SourceID>,
}

/// The raw bits of the acceleration that full movement intent produces: 100.
pub const MOVE_ACCEL_BITS: i64 = 100 * 0x1_0000_0000;

/// One axis of the direction: plus one for `pos`, minus one for `neg`, as
/// raw bits.
pub open spec fn axis(neg: bool, pos: bool) -> int {
    (if pos {
        ONE_BITS as int
    } else {
        0
    }) - (if neg {
        ONE_BITS as int
    } else {
        0
    })
}

/// The force that `intent` asks for, as raw bits: the held directions summed
/// into a vector (left and up negative), normalized to unit length unless it
/// is zero, and scaled by the movement acceleration, each step rounded as
/// the fixed-point arithmetic rounds it.
pub open spec fn intent_force(intent: MovementIntent) -> (int, int) {
    let x = axis(intent.has(MovementDir::Left), intent.has(MovementDir::Right));
    let y = axis(intent.has(MovementDir::Up), intent.has(MovementDir::Down));
    let mag = sqrt_bits(mul_bits(x, x) + mul_bits(y, y));
    let (nx, ny) = if mag != 0 {
        (div_bits(x, mag), div_bits(y, mag))
    } else {
        (x, y)
    };
    (mul_bits(nx, MOVE_ACCEL_BITS as int), mul_bits(ny, MOVE_ACCEL_BITS as int))
}

/// The force vector with the components `f`.
pub open spec fn force_vec(f: (int, int)) -> Vec3F {
    Vec3F { x: Fixed { bits: f.0 as i64 }, y: Fixed { bits: f.1 as i64 }, z: Fixed { bits: 0 } }
}

proof fn lemma_axis_products(x: int, y: int)
    requires
        x == -ONE_BITS || x == 0 || x == ONE_BITS,
        y == -ONE_BITS || y == 0 || y == ONE_BITS,
    ensures
        mul_bits(x, x) == (if x == 0 { 0 } else { ONE_BITS as int }),
        mul_bits(y, y) == (if y == 0 { 0 } else { ONE_BITS as int }),
{
}

proof fn lemma_unit_sqrt()
    ensures
        sqrt_bits(0) == 0,
        sqrt_bits(ONE_BITS as int) == ONE_BITS,
        sqrt_bits(2 * ONE_BITS) == 6074000999,
{
    assert(is_sqrt_bits(0, 0));
    lemma_sqrt_bits_unique(0, 0);
    assert(is_sqrt_bits(ONE_BITS as int, ONE_BITS as int));
    lemma_sqrt_bits_unique(ONE_BITS as int, ONE_BITS as int);
    assert(is_sqrt_bits(2 * ONE_BITS, 6074000999));
    lemma_sqrt_bits_unique(2 * ONE_BITS, 6074000999);
}

/// One axis component, after it is set from the intent.
fn axis_value(neg: bool, pos: bool) -> (v: Fixed)
    ensures
        v.bits == axis(neg, pos),
{
    let one = Fixed::from_int(1);
    let mut v = Fixed::zero();
    if neg {
        v = v.sub(one);
    }
    if pos {
        v = v.add(one);
    }
    v
}

/// One entity's step of the movement system: makes sure the entity owns a
/// force source, then sets that source to the force its intent asks for.
pub fn movement_update(mvmt: &mut Movement, forces: &mut Forces)
    requires
        old(mvmt).phys_src is None ==> old(forces).sources.next_src_id < u32::MAX,
    ensures
        ({
            let id = match old(mvmt).phys_src {
                Some(i) => i,
                None => old(forces).sources.next_src_id,
            };
            let s = source_items(old(forces).sources.sources);
            let base = match old(mvmt).phys_src {
                Some(_) => s,
                None => placed(s, Source { meta: id, val: zero3() }),
            };
            &&& final(mvmt).phys_src == Some(id)
            &&& source_items(final(forces).sources.sources) == set_value(
                base,
                id,
                force_vec(intent_force(old(mvmt).intent)),
            )
        }),
        final(mvmt).intent == old(mvmt).intent,
        final(forces).sources.next_src_id == old(forces).sources.next_src_id + (if old(
            mvmt,
        ).phys_src is None {
            1int
        } else {
            0
        }),
{
    let src = match mvmt.phys_src {
        Some(id) => id,
        None => {
            let id = forces.sources.new_source();
            mvmt.phys_src = Some(id);
            id
        },
    };
    let intent = mvmt.intent;
    let x = axis_value(intent.contains(MovementDir::Left), intent.contains(MovementDir::Right));
    let y = axis_value(intent.contains(MovementDir::Up), intent.contains(MovementDir::Down));
    proof {
        lemma_axis_products(x.bits as int, y.bits as int);
        lemma_unit_sqrt();
    }
    let sum = x.mul(x).add(y.mul(y));
    let magnitude = sum.sqrt();
    proof {
        lemma_sqrt_bits_unique(sum.bits as int, magnitude.bits as int);
    }
    let (nx, ny) = if magnitude.bits != 0 {
        (x.div(magnitude), y.div(magnitude))
    } else {
        (x, y)
    };
    let accel = Fixed::from_bits(MOVE_ACCEL_BITS);
    let fx = nx.mul(accel);
    let fy = ny.mul(accel);
    proof {
        assert(fx.bits == intent_force(intent).0);
        assert(fy.bits == intent_force(intent).1);
    }
    forces.sources.set_source(src, from_linear(Vec2F::new(fx, fy)));
}

/// The force always points along the held directions with the movement
/// acceleration as its length: exactly along an axis, rounded down to
/// 70.71... per component on a diagonal, and nothing when opposite
/// directions cancel out.
pub proof fn lemma_intent_force_values(intent: MovementIntent)
    ensures
        ({
            let x = axis(intent.has(MovementDir::Left), intent.has(MovementDir::Right));
            let y = axis(intent.has(MovementDir::Up), intent.has(MovementDir::Down));
            let f = intent_force(intent);
            let diag: int = 303_700_050_000;
            &&& x == 0 && y == 0 ==> f == (0int, 0int)
            &&& x != 0 && y == 0 ==> f == (if x > 0 { MOVE_ACCEL_BITS as int } else { -MOVE_ACCEL_BITS }, 0int)
            &&& x == 0 && y != 0 ==> f == (0int, if y > 0 { MOVE_ACCEL_BITS as int } else { -MOVE_ACCEL_BITS })
            &&& x != 0 && y != 0 ==> f == (if x > 0 { diag } else { -diag }, if y > 0 { diag } else { -diag })
        }),
{
    let x = axis(intent.has(MovementDir::Left), intent.has(MovementDir::Right));
    let y = axis(intent.has(MovementDir::Up), intent.has(MovementDir::Down));
    lemma_axis_products(x, y);
    lemma_unit_sqrt();
}

} // verus!
