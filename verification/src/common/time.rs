use vstd::prelude::*;
use std::cmp::Ordering;
use vstd::std_specs::cmp::{PartialOrdSpec, PartialOrdSpecImpl};
use vstd::std_specs::ops::{AddSpec, SubSpec};
use crate::common::fixed::{Fixed, ONE_BITS, fits_i64, mul_bits, trunc_div};

verus! {

/// A count of time in fixed-point units (nanoseconds, microseconds, ...).
pub type TimeValue = Fixed;

/// Nanoseconds, the base unit of simulated time.
pub type TimeBase = u128;

/// The raw bits of `ns` nanoseconds as a fixed-point count of nanoseconds.
pub open spec fn nano_bits(ns: nat) -> int {
    ns * (ONE_BITS as int)
}

/// A point or span on the simulation's timeline, counted in nanoseconds.
#[derive(Clone, Copy, Debug, Default, PartialEq, Eq, Structural, Ord, Hash)]
pub struct Time {
    ns: TimeBase,
}

/// The whole part of a non-negative fixed-point number.
fn whole_part(f: Fixed) -> (n: u128)
    requires
        f.bits >= 0,
    ensures
        n == f.bits / ONE_BITS,
{
    (f.bits / ONE_BITS) as u128
}

/// Nanoseconds in `count` units of `unit_nanos` nanoseconds each, the count
/// given in fixed point and the result rounded down.
pub open spec fn scaled_nanos(count: Fixed, unit_nanos: int) -> int {
    mul_bits(count.bits as int, unit_nanos * ONE_BITS) / (ONE_BITS as int)
}

impl Time {
    /// The start of the timeline.
    pub fn zero() -> (t: Time)
        ensures
            t.nanos() == 0,
    {
        Time { ns: 0 }
    }

    /// The number of nanoseconds this time stands for.
    pub closed spec fn nanos(self) -> nat {
        self.ns as nat
    }

    /// Two times are equal exactly when they stand for the same number of
    /// nanoseconds.
    pub proof fn lemma_nanos_determine(self, other: Time)
        ensures
            (self == other) <==> (self.nanos() == other.nanos()),
    {
    }

    pub fn from_nanos(nanos: TimeBase) -> (t: Self)
        ensures
            t.nanos() == nanos,
    {
        Time { ns: nanos }
    }

    fn from_count(count: TimeValue, unit_nanos: i32) -> (t: Self)
        requires
            count.bits >= 0,
            unit_nanos > 0,
            fits_i64(mul_bits(count.bits as int, unit_nanos * ONE_BITS)),
        ensures
            t.nanos() == scaled_nanos(count, unit_nanos as int),
    {
        let unit = Fixed::from_int(unit_nanos);
        let scaled = count.mul(unit);
        proof {
            assert(mul_bits(count.bits as int, unit.bits as int) >= 0) by (nonlinear_arith)
                requires
                    count.bits >= 0,
                    unit.bits >= 0,
            ;
        }
        Self::from_nanos(whole_part(scaled))
    }

    /// `micro` microseconds, rounded down to whole nanoseconds.
    pub fn from_micro(micro: TimeValue) -> (t: Self)
        requires
            micro.bits >= 0,
            fits_i64(mul_bits(micro.bits as int, 1_000 * ONE_BITS)),
        ensures
            t.nanos() == scaled_nanos(micro, 1_000),
    {
        Self::from_count(micro, 1_000)
    }

    /// `ms` milliseconds, rounded down to whole nanoseconds.
    pub fn from_ms(ms: TimeValue) -> (t: Self)
        requires
            ms.bits >= 0,
            fits_i64(mul_bits(ms.bits as int, 1_000_000 * ONE_BITS)),
        ensures
            t.nanos() == scaled_nanos(ms, 1_000_000),
    {
        Self::from_count(ms, 1_000_000)
    }

    /// `sec` seconds, rounded down to whole nanoseconds.
    pub fn from_sec(sec: TimeValue) -> (t: Self)
        requires
            sec.bits >= 0,
            fits_i64(mul_bits(sec.bits as int, 1_000_000_000 * ONE_BITS)),
        ensures
            t.nanos() == scaled_nanos(sec, 1_000_000_000),
    {
        Self::from_count(sec, 1_000_000_000)
    }

    pub fn pure(&self) -> (ns: TimeBase)
        ensures
            ns == self.nanos(),
    {
        self.ns
    }

    /// This time in nanoseconds, as a fixed-point number; it must be below
    /// `2^31` nanoseconds to fit.
    pub fn nano(&self) -> (v: TimeValue)
        requires
            self.nanos() < 0x8000_0000,
        ensures
            v.bits == nano_bits(self.nanos()),
    {
        Fixed::from_bits((self.ns as i64) * ONE_BITS)
    }

    fn in_units(&self, unit_nanos: i64) -> (v: TimeValue)
        requires
            self.nanos() < 0x8000_0000,
            unit_nanos > 0,
        ensures
            v.bits == nano_bits(self.nanos()) / (unit_nanos as int),
    {
        let n = self.nano();
        n.div_int(unit_nanos)
    }

    /// This time in microseconds, rounded toward zero.
    pub fn micro(&self) -> (v: TimeValue)
        requires
            self.nanos() < 0x8000_0000,
        ensures
            v.bits == nano_bits(self.nanos()) / 1_000,
    {
        self.in_units(1_000)
    }

    /// This time in milliseconds, rounded toward zero.
    pub fn ms(&self) -> (v: TimeValue)
        requires
            self.nanos() < 0x8000_0000,
        ensures
            v.bits == nano_bits(self.nanos()) / 1_000_000,
    {
        self.in_units(1_000_000)
    }

    /// This time in seconds, rounded toward zero.
    pub fn sec(&self) -> (v: TimeValue)
        requires
            self.nanos() < 0x8000_0000,
        ensures
            v.bits == nano_bits(self.nanos()) / 1_000_000_000,
    {
        self.in_units(1_000_000_000)
    }
}

impl std::ops::Add for Time {
    type Output = Time;

    fn add(self, rhs: Self) -> (t: Time)
        ensures
            t.nanos() == self.nanos() + rhs.nanos(),
    {
        Time::from_nanos(self.ns + rhs.ns)
    }
}

impl vstd::std_specs::ops::AddSpecImpl for Time {
    open spec fn obeys_add_spec() -> bool {
        true
    }

    open spec fn add_req(self, rhs: Time) -> bool {
        self.nanos() + rhs.nanos() <= u128::MAX
    }

    closed spec fn add_spec(self, rhs: Time) -> Time {
        Time { ns: (self.ns + rhs.ns) as u128 }
    }
}

impl std::ops::Sub for Time {
    type Output = Time;

    fn sub(self, rhs: Self) -> (t: Time)
        ensures
            t.nanos() == self.nanos() - rhs.nanos(),
    {
        Time::from_nanos(self.ns - rhs.ns)
    }
}

impl vstd::std_specs::ops::SubSpecImpl for Time {
    open spec fn obeys_sub_spec() -> bool {
        true
    }

    open spec fn sub_req(self, rhs: Time) -> bool {
        self.nanos() >= rhs.nanos()
    }

    closed spec fn sub_spec(self, rhs: Time) -> Time {
        Time { ns: (self.ns - rhs.ns) as u128 }
    }
}

impl std::ops::AddAssign for Time {
    /// Moves this time on by `rhs`; past the largest count of nanoseconds it
    /// wraps around, as the integer does when overflow checks are off.
    fn add_assign(&mut self, rhs: Self)
        ensures
            final(self).nanos() == (old(self).nanos() + rhs.nanos()) as int % (u128::MAX + 1),
    {
        self.ns = self.ns.wrapping_add(rhs.ns);
    }
}

impl std::ops::SubAssign for Time {
    /// Moves this time back by `rhs`; below zero it wraps around, as the
    /// integer does when overflow checks are off.
    fn sub_assign(&mut self, rhs: Self)
        ensures
            final(self).nanos() == (old(self).nanos() - rhs.nanos()) % (u128::MAX + 1),
    {
        self.ns = self.ns.wrapping_sub(rhs.ns);
    }
}

impl PartialOrd for Time {
    /// Times are ordered by their counts of nanoseconds.
    fn partial_cmp(&self, other: &Time) -> (r: Option<Ordering>) {
        if self.ns < other.ns {
            Some(Ordering::Less)
        } else if self.ns == other.ns {
            Some(Ordering::Equal)
        } else {
            Some(Ordering::Greater)
        }
    }
}

impl PartialOrdSpecImpl for Time {
    open spec fn obeys_partial_cmp_spec() -> bool {
        true
    }

    open spec fn partial_cmp_spec(&self, other: &Time) -> Option<Ordering> {
        if self.nanos() < other.nanos() {
            Some(Ordering::Less)
        } else if self.nanos() == other.nanos() {
            Some(Ordering::Equal)
        } else {
            Some(Ordering::Greater)
        }
    }
}

/// Comparing two times compares their counts of nanoseconds: one is before
/// the other exactly when it has fewer, and they compare equal exactly when
/// they are the same time.
pub proof fn lemma_order_by_nanos(a: Time, b: Time)
    ensures
        (PartialOrdSpec::partial_cmp_spec(&a, &b) == Some(Ordering::Less)) <==> a.nanos() < b.nanos(),
        (PartialOrdSpec::partial_cmp_spec(&a, &b) == Some(Ordering::Greater)) <==> a.nanos() > b.nanos(),
        (PartialOrdSpec::partial_cmp_spec(&a, &b) == Some(Ordering::Equal)) <==> a == b,
{
}

/// Subtracting a time undoes adding it.
pub proof fn lemma_sub_undoes_add(a: Time, b: Time)
    requires
        a.nanos() + b.nanos() <= u128::MAX,
    ensures
        SubSpec::sub_spec(AddSpec::add_spec(a, b), b) == a,
{
}

} // verus!
