pub mod dense_arena;
pub mod fixed;
pub mod list_arena;
pub mod time;

use vstd::prelude::*;

verus! {

pub type Tick = u64;

/// How many ticks pass between two snapshots meant for rendering.
pub const TICKS_PER_VIEW: Tick = 50;

} // verus!
