use combat_demo::simulation::view_buffer::{LossyViewBuffer, ViewData};
use combat_demo::simulation::{InputPayload, SimInput, SimResponse, Simulation, TICK_NANOS};

fn snap(tick: u64) -> ViewData<u32> {
    ViewData { payload: tick as u32 * 10, tick }
}

fn ticks_of(buf: &LossyViewBuffer<u32>) -> Vec<u64> {
    buf.data.iter().map(|d| d.tick).collect()
}

#[test]
fn tick_length_is_a_hundred_and_twentieth_of_a_second() {
    assert_eq!(TICK_NANOS, 8_333_333);
}

#[test]
fn exec_runs_every_whole_tick_and_keeps_the_rest() {
    let mut sim: Simulation<u32> = Simulation::new();
    assert_eq!(sim.tick(), 0);
    assert_eq!(sim.excess(), 0);

    let res = sim.exec(SimInput { payload: InputPayload::Null, dt: 20_000_000 });
    assert!(matches!(res, Ok(SimResponse::Null)));
    assert_eq!(sim.tick(), 2);
    assert_eq!(sim.excess(), 20_000_000 - 2 * 8_333_333);

    // the leftover carries over into the next input's time
    sim.exec(SimInput { payload: InputPayload::CreatePlayer, dt: 5_000_000 });
    assert_eq!(sim.tick(), 3);
    assert_eq!(sim.excess(), 25_000_000 - 3 * 8_333_333);
}

#[test]
fn splitting_time_across_inputs_does_not_change_the_outcome() {
    let mut whole: Simulation<u32> = Simulation::new();
    whole.exec(SimInput { payload: InputPayload::Null, dt: 123_456_789 });

    let mut split: Simulation<u32> = Simulation::new();
    for dt in [1u64, 23_456_788, 0, 50_000_000, 50_000_000] {
        split.exec(SimInput { payload: InputPayload::Null, dt });
    }
    assert_eq!(whole.tick(), split.tick());
    assert_eq!(whole.excess(), split.excess());
    assert_eq!(whole.tick() * TICK_NANOS + whole.excess(), 123_456_789);
}

#[test]
fn payload_exec_answers_null() {
    let mut sim: Simulation<u32> = Simulation::new();
    let mut p = InputPayload::CreatePlayer;
    assert!(matches!(p.exec(&mut sim), Ok(SimResponse::Null)));
    assert_eq!(sim.tick(), 0);
}

#[test]
fn new_buffer_is_empty() {
    let buf: LossyViewBuffer<u32> = LossyViewBuffer::new(16);
    assert!(buf.data.is_empty());
    let sim: Simulation<u32> = Simulation::new();
    assert!(sim.lossy_view_buf.data.is_empty());
}

#[test]
fn compact_keeps_even_positions() {
    let mut buf: LossyViewBuffer<u32> = LossyViewBuffer::new(8);
    let mut batch: Vec<_> = (0..7).map(snap).collect();
    buf.append(&mut batch);
    buf.compact();
    assert_eq!(ticks_of(&buf), vec![0, 2, 4, 6]);
    buf.compact();
    assert_eq!(ticks_of(&buf), vec![0, 4]);
    assert_eq!(buf.data[1].payload, 40);
}

#[test]
fn compact_of_empty_and_single() {
    let mut buf: LossyViewBuffer<u32> = LossyViewBuffer::new(0);
    buf.compact();
    assert!(buf.data.is_empty());
    let mut batch = vec![snap(9)];
    buf.append(&mut batch);
    buf.compact();
    assert_eq!(ticks_of(&buf), vec![9]);
}

#[test]
fn discard_to_drops_shown_snapshots() {
    let mut buf: LossyViewBuffer<u32> = LossyViewBuffer::new(8);
    let mut batch: Vec<_> = [1u64, 2, 2, 3, 5, 8].iter().map(|t| snap(*t)).collect();
    buf.append(&mut batch);
    buf.discard_to(2);
    assert_eq!(ticks_of(&buf), vec![3, 5, 8]);
    buf.discard_to(0);
    assert_eq!(ticks_of(&buf), vec![3, 5, 8]);
    buf.discard_to(100);
    assert!(buf.data.is_empty());
}

#[test]
fn append_keeps_batch_and_leaves_it_untouched() {
    let mut buf: LossyViewBuffer<u32> = LossyViewBuffer::new(4);
    let mut first: Vec<_> = (0..3).map(snap).collect();
    buf.append(&mut first);
    assert_eq!(ticks_of(&buf), vec![0, 1, 2]);
    assert_eq!(first.len(), 3);

    let mut second: Vec<_> = (3..5).map(snap).collect();
    buf.append(&mut second);
    assert_eq!(second.len(), 2);
    let ticks = ticks_of(&buf);
    // either nothing was dropped, or the queued part was compacted
    assert!(ticks == vec![0, 1, 2, 3, 4] || ticks == vec![0, 2, 3, 4]);
    assert_eq!(&ticks[ticks.len() - 2..], &[3, 4]);
}

#[test]
fn append_compacts_when_storage_overflows() {
    // fill the storage exactly, then append more than the room left
    let mut buf: LossyViewBuffer<u32> = LossyViewBuffer::new(0);
    let mut batch: Vec<_> = (0..4).map(snap).collect();
    buf.append(&mut batch);
    let cap = buf.data.capacity();
    while buf.data.len() < cap {
        let t = buf.data.len() as u64;
        buf.data.push_back(snap(t));
    }
    let full = buf.data.len();
    let mut more: Vec<_> = (1000..1002).map(snap).collect();
    buf.append(&mut more);
    // the queued snapshots were halved, the batch kept whole
    assert_eq!(buf.data.len(), (full + 1) / 2 + 2);
    let ticks = ticks_of(&buf);
    assert_eq!(ticks[0], 0);
    assert_eq!(ticks[1], 2);
    assert_eq!(&ticks[ticks.len() - 2..], &[1000, 1001]);
}

#[test]
fn append_within_keeps_everything_when_it_fits() {
    let mut buf: LossyViewBuffer<u32> = LossyViewBuffer::new(16);
    let mut first: Vec<_> = (0..3).map(snap).collect();
    buf.append_within(&mut first, 16);
    let mut second: Vec<_> = (3..5).map(snap).collect();
    buf.append_within(&mut second, 16);
    assert_eq!(ticks_of(&buf), vec![0, 1, 2, 3, 4]);
    assert_eq!(second.len(), 2);
}

#[test]
fn append_within_compacts_past_the_capacity() {
    let mut buf: LossyViewBuffer<u32> = LossyViewBuffer::new(8);
    let mut first: Vec<_> = (0..5).map(snap).collect();
    buf.append_within(&mut first, 8);
    let mut second: Vec<_> = (10..14).map(snap).collect();
    buf.append_within(&mut second, 5);
    assert_eq!(ticks_of(&buf), vec![0, 2, 4, 10, 11, 12, 13]);
}

#[test]
fn discarding_twice_is_discarding_to_the_later_tick() {
    let ticks = [1u64, 2, 4, 4, 7, 9];
    let mut a: LossyViewBuffer<u32> = LossyViewBuffer::new(8);
    let mut batch: Vec<_> = ticks.iter().map(|t| snap(*t)).collect();
    a.append(&mut batch);
    let mut b = a.clone();
    a.discard_to(4);
    a.discard_to(2);
    b.discard_to(4);
    assert_eq!(ticks_of(&a), ticks_of(&b));
    assert_eq!(ticks_of(&a), vec![7, 9]);
    b.discard_to(4);
    assert_eq!(ticks_of(&b), vec![7, 9]);
}

#[test]
fn new_simulation_starts_at_tick_zero() {
    let sim: Simulation<u32> = Simulation::new();
    assert_eq!(sim.tick(), 0);
    assert_eq!(sim.excess(), 0);
    assert!(sim.lossy_view_buf.data.is_empty());
}
