use combat_demo::simulation::action::{apply_intent, new_ship, ActionResponse};
use combat_demo::simulation::ecs::movement::MovementIntent;
use combat_demo::common::fixed::{Fixed, Vec2F, Vec3F, ONE_BITS};
use combat_demo::common::time::Time;
use combat_demo::simulation::ecs::velocity::{
    apply_velocity_to, find_destroyed, find_live, sum_sources, Source, SourceList, Velocity,
};

fn v3(x: i32, y: i32, z: i32) -> Vec3F {
    Vec3F::new(Fixed::from_int(x), Fixed::from_int(y), Fixed::from_int(z))
}

#[test]
fn source_meta_bits() {
    let mut s = Source::new(7, 0u8);
    assert!(!s.is_free());
    assert_eq!(s.id(), 7);
    s.set_free();
    assert!(s.is_free());
    assert_eq!(s.id(), 7);
    assert_eq!(s.meta, 7 | (1 << 31));
    s.set_free();
    assert_eq!(s.meta, 7 | (1 << 31));
}

#[test]
fn new_sources_get_increasing_ids() {
    let mut vel = Velocity::new();
    assert_eq!(vel.new_source(), 0);
    assert_eq!(vel.new_source(), 1);
    assert_eq!(vel.next_src_id, 2);
    assert_eq!(vel.sources.len(), 2);
    assert!(!vel.dirty);
}

#[test]
fn set_source_marks_dirty_only_on_change() {
    let mut vel = Velocity::new();
    let id = vel.new_source();
    let lin = Vec2F::new(Fixed::from_int(1), Fixed::from_int(2));
    assert!(vel.set_source(id, lin, Fixed::zero()));
    assert!(vel.dirty);
    vel.dirty = false;
    assert!(vel.set_source(id, lin, Fixed::zero()));
    assert!(!vel.dirty);
    assert!(!vel.set_source(99, lin, Fixed::zero()));
    assert_eq!(vel.get_source_mut(id).unwrap().val, v3(1, 2, 0));
    assert!(vel.get_source_mut(99).is_none());
}

#[test]
fn destroyed_slot_is_reused() {
    let mut vel = Velocity::new();
    let a = vel.new_source();
    let b = vel.new_source();
    vel.get_source_mut(a).unwrap().set_free();
    // a destroyed source is no longer found by id
    assert!(vel.get_source_mut(a).is_none());
    assert_eq!(find_destroyed(&vel.sources), Some(0));
    let c = vel.new_source();
    assert_eq!(c, 2);
    assert_eq!(vel.sources.len(), 2);
    assert_eq!(find_live(&vel.sources, c), Some(0));
    assert_eq!(find_live(&vel.sources, b), Some(1));
    assert_eq!(find_destroyed(&vel.sources), None);
}

#[test]
fn apply_velocity_recomputes_when_dirty() {
    let mut vel = Velocity::new();
    let a = vel.new_source();
    let b = vel.new_source();
    vel.set_source(a, Vec2F::new(Fixed::from_int(3), Fixed::from_int(-1)), Fixed::from_int(1));
    vel.set_source(b, Vec2F::new(Fixed::from_int(1), Fixed::from_int(4)), Fixed::from_int(2));
    let d = apply_velocity_to(&mut vel, Time::from_nanos(500_000_000));
    assert!(!vel.dirty);
    assert_eq!(vel.cached, v3(4, 3, 3));
    assert_eq!(vel.linear(), Vec2F::new(Fixed::from_int(4), Fixed::from_int(3)));
    assert_eq!(vel.angular(), Fixed::from_int(3));
    // half a second at (4, 3), up to the rounding of 0.5 s
    let half = (500_000_000i64 * ONE_BITS) / 1_000_000_000;
    assert_eq!(d.x.to_bits(), (4 * ONE_BITS as i128 * half as i128 / ONE_BITS as i128) as i64);
    assert_eq!(d.y.to_bits(), (3 * ONE_BITS as i128 * half as i128 / ONE_BITS as i128) as i64);
}

#[test]
fn clean_velocity_keeps_its_cache() {
    let mut vel = Velocity::new();
    let a = vel.new_source();
    vel.set_source(a, Vec2F::new(Fixed::from_int(5), Fixed::zero()), Fixed::zero());
    vel.dirty = false;
    let d = apply_velocity_to(&mut vel, Time::from_nanos(1_000_000_000));
    assert_eq!(vel.cached, v3(0, 0, 0));
    assert_eq!(d.x.to_bits(), 0);
}

#[test]
fn source_list_operations() {
    let mut list = SourceList::new();
    assert_eq!(list.len(), 0);
    list.push(Source::new(1, v3(1, 1, 1)));
    list.push(Source::new(2, v3(2, 0, -1)));
    assert_eq!(list.len(), 2);
    assert_eq!(list.get(1).meta, 2);
    list.get_mut(0).val = v3(5, 5, 5);
    assert_eq!(list.get(0).val, v3(5, 5, 5));
    let copy = list.clone();
    assert_eq!(copy.get(0).val, v3(5, 5, 5));
    assert_eq!(sum_sources(&list), v3(7, 5, 4));
}

#[test]
fn zero_time_step_moves_nothing() {
    let mut vel = Velocity::new();
    let a = vel.new_source();
    vel.set_source(a, Vec2F::new(Fixed::from_int(7), Fixed::from_int(-2)), Fixed::from_int(1));
    let d = apply_velocity_to(&mut vel, Time::from_nanos(0));
    assert_eq!(d.x.to_bits(), 0);
    assert_eq!(d.y.to_bits(), 0);
    assert_eq!(vel.cached, v3(7, -2, 1));
    assert!(!vel.dirty);
}

#[test]
fn action_error_names_the_missing_entity() {
    let e = combat_demo::simulation::action::ActionError::EntityNotFound;
    assert!(matches!(e, combat_demo::simulation::action::ActionError::EntityNotFound));
    assert_eq!(format!("{:?}", e), "EntityNotFound");
}

#[test]
fn checked_sum_of_sources() {
    let mut vel = Velocity::new();
    let a = vel.new_source();
    let b = vel.new_source();
    vel.set_source(a, Vec2F::new(Fixed::from_int(3), Fixed::from_int(-1)), Fixed::from_int(1));
    vel.set_source(b, Vec2F::new(Fixed::from_int(1), Fixed::from_int(4)), Fixed::from_int(2));
    assert_eq!(combat_demo::simulation::ecs::velocity::checked_sum_sources(&vel.sources), Some(v3(4, 3, 3)));
    let mut big = SourceList::new();
    big.push(Source::new(0, Vec3F::new(Fixed::from_bits(i64::MAX), Fixed::zero(), Fixed::zero())));
    big.push(Source::new(1, Vec3F::new(Fixed::from_bits(1), Fixed::zero(), Fixed::zero())));
    assert_eq!(combat_demo::simulation::ecs::velocity::checked_sum_sources(&big), None);
}

#[test]
fn intent_and_new_ship() {
    let (mut m, v) = new_ship();
    assert_eq!(m.intent.bits(), 0);
    assert!(m.phys_src.is_none());
    assert_eq!(v.next_src_id, 0);
    assert!(!v.dirty);
    assert_eq!(v.sources.len(), 0);
    let want = MovementIntent::from_bits_truncate(3);
    assert!(matches!(apply_intent(&mut m, want, false), Ok(ActionResponse::Null)));
    assert_eq!(m.intent.bits(), 0);
    assert!(matches!(apply_intent(&mut m, want, true), Ok(ActionResponse::Null)));
    assert_eq!(m.intent.bits(), 3);
}
