//! The simulation: inputs stamped with elapsed time, executed one at a time,
//! each followed by as many fixed-length ticks as that time covers.

use bevy_ecs::entity::Entity;
use bevy_ecs::world::World;
use vstd::prelude::*;

pub mod action;
pub mod ecs;
pub mod view_buffer;
pub mod world;

use crate::simulation::view_buffer::LossyViewBuffer;
use crate::simulation::world::{new_world, run_schedule, TickSchedule};

pub use crate::simulation::view_buffer::TickInt;

verus! {

pub type TimeInt = u64;

/// How long one tick of the simulation lasts, in nanoseconds (120 ticks a
/// second).
pub const TICK_NANOS: u64 = 1_000_000_000 / 120;

#[derive(Debug)]
pub enum SimErr {
    EntityNotFound,
}

/// What an executed input answers; which variant to expect depends on the
/// input.
pub enum SimResponse {
    Null,
    Entity(Entity),
}

pub type SimResult = Result<SimResponse, SimErr>;

/// What an input asks of the simulation. All ticks within the input's `dt`
/// are simulated after it is executed; scaling `dt` dilates time.
#[derive(Clone)]
pub enum InputPayload {
    /// Changes nothing; it only makes the simulation catch up with the time
    /// that has passed, so that there is a fresh state to render.
    Null,
    CreatePlayer,
}

impl InputPayload {
    pub fn exec<P>(&mut self, sim: &mut Simulation<P>) -> (r: SimResult)
        ensures
            r == SimResult::Ok(SimResponse::Null),
            *final(sim) == *old(sim),
            *final(self) == *old(self),
    {
        match self {
            InputPayload::Null => Ok(SimResponse::Null),
            InputPayload::CreatePlayer => Ok(SimResponse::Null),
        }
    }
}

/// An input, stamped with the nanoseconds that passed before it arrived.
#[derive(Clone)]
pub struct SimInput {
    pub payload: InputPayload,
    pub dt: TimeInt,
}

/// Where the tick count and the leftover time stand after `dt` more
/// nanoseconds pass, starting from `tick` ticks with `excess` nanoseconds not
/// yet spent on a tick.
pub open spec fn advance(tick: nat, excess: nat, dt: nat) -> (nat, nat) {
    let total = dt + excess;
    (tick + total / (TICK_NANOS as nat), total % (TICK_NANOS as nat))
}

pub struct Simulation<P> {
    excess: u64,
    tick: u64,
    world: World,
    schedule: TickSchedule,
    // output buffers
    lossy_view_stage: Vec<P>,
    pub lossy_view_buf: LossyViewBuffer<P>,
}

impl<P: Copy> Simulation<P> {
    pub fn new() -> (sim: Self)
        ensures
            sim.wf(),
            sim.tick_count() == 0,
            sim.leftover_nanos() == 0,
            sim.view_queue() == Seq::<view_buffer::ViewData<P>>::empty(),
            sim.staged_views() == Seq::<P>::empty(),
            sim.schedule_runs() == 0,
    {
        let schedule = TickSchedule::new();
        Simulation {
            excess: 0,
            tick: 0,
            world: new_world(),
            lossy_view_stage: Vec::new(),
            lossy_view_buf: LossyViewBuffer::new(4096),
            schedule,
        }
    }
}

impl<P> Simulation<P> {
    /// The number of ticks simulated so far.
    pub closed spec fn tick_count(self) -> nat {
        self.tick as nat
    }

    /// Nanoseconds that have passed but were too few to make up a tick.
    pub closed spec fn leftover_nanos(self) -> nat {
        self.excess as nat
    }

    /// The snapshots queued for rendering.
    pub closed spec fn view_queue(self) -> Seq<view_buffer::ViewData<P>> {
        self.lossy_view_buf.data@
    }

    /// The snapshots staged but not yet queued for rendering.
    pub closed spec fn staged_views(self) -> Seq<P> {
        self.lossy_view_stage@
    }

    /// How many times the systems have been run on the world: once per tick.
    pub closed spec fn schedule_runs(self) -> nat {
        self.schedule.runs()
    }

    /// A well-formed simulation has less than a tick of time left over.
    pub proof fn lemma_leftover_below_tick(self)
        requires
            self.wf(),
        ensures
            self.leftover_nanos() < TICK_NANOS,
    {
    }

    /// The leftover time is always less than a tick, and the schedule holds
    /// no systems.
    pub closed spec fn wf(self) -> bool {
        &&& self.excess < TICK_NANOS
        &&& self.schedule.is_empty()
    }

    /// Executes an input, then simulates every whole tick within the time it
    /// is stamped with, carrying the remainder over to the next input.
    pub fn exec(&mut self, interaction: SimInput) -> (r: SimResult)
        requires
            old(self).wf(),
            interaction.dt + old(self).leftover_nanos() <= u64::MAX,
            advance(old(self).tick_count(), old(self).leftover_nanos(), interaction.dt as nat).0
                <= u64::MAX,
        ensures
            r == SimResult::Ok(SimResponse::Null),
            final(self).wf(),
            final(self).leftover_nanos() < TICK_NANOS,
            (final(self).tick_count(), final(self).leftover_nanos()) == advance(
                old(self).tick_count(),
                old(self).leftover_nanos(),
                interaction.dt as nat,
            ),
            final(self).schedule_runs() == old(self).schedule_runs() + final(self).tick_count()
                - old(self).tick_count(),
            final(self).view_queue() == old(self).view_queue(),
            final(self).staged_views() == old(self).staged_views(),
    {
        let mut interaction = interaction;
        let res = interaction.payload.exec(self);
        self.tick_loop(interaction.dt);
        res
    }

    fn tick_loop(&mut self, total_dt: u64)
        requires
            old(self).wf(),
            total_dt + old(self).leftover_nanos() <= u64::MAX,
            advance(old(self).tick_count(), old(self).leftover_nanos(), total_dt as nat).0
                <= u64::MAX,
        ensures
            final(self).wf(),
            (final(self).tick_count(), final(self).leftover_nanos()) == advance(
                old(self).tick_count(),
                old(self).leftover_nanos(),
                total_dt as nat,
            ),
            final(self).schedule_runs() == old(self).schedule_runs() + final(self).tick_count()
                - old(self).tick_count(),
            final(self).view_queue() == old(self).view_queue(),
            final(self).staged_views() == old(self).staged_views(),
    {
        let ghost tick0 = self.tick as int;
        let ghost total = total_dt + self.excess;
        let mut remaining_time = total_dt + self.excess;
        loop
            invariant
                self.tick >= tick0,
                (self.tick - tick0) * TICK_NANOS + remaining_time == total,
                tick0 + total / (TICK_NANOS as int) <= u64::MAX,
                self.lossy_view_buf.data@ == old(self).lossy_view_buf.data@,
                self.lossy_view_stage@ == old(self).lossy_view_stage@,
                self.schedule.is_empty(),
                self.schedule.runs() == old(self).schedule.runs() + (self.tick - tick0),
            ensures
                self.wf(),
                self.lossy_view_stage@ == old(self).lossy_view_stage@,
                self.schedule.runs() == old(self).schedule.runs() + (self.tick - tick0),
                self.tick == tick0 + total / (TICK_NANOS as int),
                self.excess == total % (TICK_NANOS as int),
                self.lossy_view_buf.data@ == old(self).lossy_view_buf.data@,
            decreases remaining_time,
        {
            let tick_duration = self.get_tick_duration();
            if remaining_time < tick_duration {
                self.excess = remaining_time;
                proof {
                    vstd::arithmetic::div_mod::lemma_fundamental_div_mod_converse(
                        total as int,
                        TICK_NANOS as int,
                        self.tick - tick0,
                        remaining_time as int,
                    );
                }
                break ;
            }
            run_schedule(&mut self.schedule, &mut self.world);

            remaining_time -= tick_duration;
            proof {
                let k = self.tick - tick0;
                assert((k + 1) * TICK_NANOS + remaining_time == total) by (nonlinear_arith)
                    requires
                        k * TICK_NANOS + remaining_time + TICK_NANOS == total,
                ;
                assert(k + 1 <= total / (TICK_NANOS as int)) by (nonlinear_arith)
                    requires
                        (k + 1) * TICK_NANOS + remaining_time == total,
                        remaining_time >= 0,
                        TICK_NANOS > 0,
                ;
            }
            self.tick += 1;
        }
    }

    /// The number of ticks simulated so far.
    pub fn tick(&self) -> (t: TickInt)
        ensures
            t == self.tick_count(),
    {
        self.tick
    }

    /// Nanoseconds that have passed but were too few to make up a tick.
    pub fn excess(&self) -> (e: TimeInt)
        ensures
            e == self.leftover_nanos(),
    {
        self.excess
    }

    fn get_tick_duration(&self) -> (d: u64)
        ensures
            d == TICK_NANOS,
    {
        // not meant to stay a fixed timestep
        1_000_000_000 / 120
    }
}

/// Executing inputs one after another lands on the same tick count and
/// leftover time as a single input stamped with their combined time: the
/// tick loop does not depend on how elapsed time is split across inputs.
pub proof fn lemma_advance_split(tick: nat, excess: nat, dt1: nat, dt2: nat)
    ensures
        ({
            let (t1, e1) = advance(tick, excess, dt1);
            advance(t1, e1, dt2)
        }) == advance(tick, excess, dt1 + dt2),
{
    let d = TICK_NANOS as int;
    let a: int = (dt1 + excess) as int;
    let b: int = dt2 + a % d;
    vstd::arithmetic::div_mod::lemma_fundamental_div_mod(a, d);
    vstd::arithmetic::div_mod::lemma_fundamental_div_mod(b, d);
    let q: int = a / d + b / d;
    let r: int = b % d;
    assert(dt1 + dt2 + excess == q * d + r) by (nonlinear_arith)
        requires
            a == d * (a / d) + a % d,
            b == d * (b / d) + b % d,
            a == dt1 + excess,
            b == dt2 + a % d,
            q == a / d + b / d,
            r == b % d,
    ;
    vstd::arithmetic::div_mod::lemma_fundamental_div_mod_converse(
        (dt1 + dt2 + excess) as int,
        d,
        q,
        r,
    );
}

/// Executing inputs stamped `a` and then `b` nanoseconds leaves a simulation
/// on the same tick, with the same leftover time and the same number of
/// schedule runs, as executing one input stamped `a + b` from the same start.
///
/// `start` is the simulation before, `mid` and `split` the simulation after
/// the inputs `a` and then `b`, and `joined` the one after the single input
/// `a + b`; each is described by what `exec` guarantees.
pub proof fn lemma_exec_split<P>(
    start: Simulation<P>,
    a: nat,
    b: nat,
    mid: Simulation<P>,
    split: Simulation<P>,
    joined: Simulation<P>,
)
    requires
        (mid.tick_count(), mid.leftover_nanos()) == advance(start.tick_count(), start.leftover_nanos(), a),
        mid.schedule_runs() == start.schedule_runs() + mid.tick_count() - start.tick_count(),
        (split.tick_count(), split.leftover_nanos()) == advance(mid.tick_count(), mid.leftover_nanos(), b),
        split.schedule_runs() == mid.schedule_runs() + split.tick_count() - mid.tick_count(),
        (joined.tick_count(), joined.leftover_nanos()) == advance(
            start.tick_count(),
            start.leftover_nanos(),
            a + b,
        ),
        joined.schedule_runs() == start.schedule_runs() + joined.tick_count() - start.tick_count(),
    ensures
        split.tick_count() == joined.tick_count(),
        split.leftover_nanos() == joined.leftover_nanos(),
        split.schedule_runs() == joined.schedule_runs(),
{
    lemma_advance_split(start.tick_count(), start.leftover_nanos(), a, b);
}

/// No time is lost or invented: the ticks simulated, at a tick's length
/// each, plus the leftover add up to the time that passed, and the leftover
/// stays under a tick.
pub proof fn lemma_advance_conserves_time(tick: nat, excess: nat, dt: nat)
    ensures
        ({
            let (t, e) = advance(tick, excess, dt);
            &&& t * TICK_NANOS + e == tick * TICK_NANOS + excess + dt
            &&& e < TICK_NANOS
        }),
{
    let d = TICK_NANOS as int;
    let total = (dt + excess) as int;
    vstd::arithmetic::div_mod::lemma_fundamental_div_mod(total, d);
    let (t, e) = advance(tick, excess, dt);
    assert(t * d == tick * d + (total / d) * d) by (nonlinear_arith)
        requires
            t == tick + total / d,
    ;
}

} // verus!
