use combat_demo::common::fixed::{Fixed, Vec2F, Vec3F, ONE_BITS};
use combat_demo::common::list_arena::ListArena;
use combat_demo::common::time::Time;
use combat_demo::simulation::ecs::movement::{
    movement_update, Movement, MovementDir, MovementIntent, MOVE_ACCEL_BITS,
};
use combat_demo::simulation::ecs::physics::forces::{apply_forces_to, Forces};
use combat_demo::simulation::ecs::physics::velocity::{self as pvel, Velocity};
use combat_demo::simulation::ecs::physics::{
    collision_detection, from_linear, to_linear, ModifierKind, Physics, PhysicsSources,
};
use combat_demo::simulation::ecs::velocity::find_live;

fn force_for(dirs: &[MovementDir]) -> (i64, i64) {
    let mut intent = MovementIntent::empty();
    for d in dirs {
        intent.insert(*d);
    }
    let mut mvmt = Movement { intent, phys_src: None };
    let mut forces = Forces::new();
    movement_update(&mut mvmt, &mut forces);
    let id = mvmt.phys_src.unwrap();
    let f = forces.get();
    assert_eq!(find_live(&forces.sources.sources, id), Some(0));
    assert_eq!(f.z.to_bits(), 0);
    (f.x.to_bits(), f.y.to_bits())
}

#[test]
fn intent_flags() {
    let mut i = MovementIntent::empty();
    assert!(!i.contains(MovementDir::Left));
    i.insert(MovementDir::Left);
    i.insert(MovementDir::Down);
    assert!(i.contains(MovementDir::Left));
    assert!(i.contains(MovementDir::Down));
    assert!(!i.contains(MovementDir::Up));
    assert_eq!(i.bits(), 0b1001);
    assert_eq!(MovementIntent::from_bits_truncate(0xf6).bits(), 0b0110);
    assert_eq!(MovementDir::Up.bit(), 4);
}

#[test]
fn single_directions_give_full_acceleration() {
    assert_eq!(force_for(&[MovementDir::Left]), (-MOVE_ACCEL_BITS, 0));
    assert_eq!(force_for(&[MovementDir::Right]), (MOVE_ACCEL_BITS, 0));
    assert_eq!(force_for(&[MovementDir::Up]), (0, -MOVE_ACCEL_BITS));
    assert_eq!(force_for(&[MovementDir::Down]), (0, MOVE_ACCEL_BITS));
    assert_eq!(MOVE_ACCEL_BITS, 100 * ONE_BITS);
}

#[test]
fn diagonals_are_normalized() {
    assert_eq!(force_for(&[MovementDir::Right, MovementDir::Down]), (303_700_050_000, 303_700_050_000));
    assert_eq!(force_for(&[MovementDir::Left, MovementDir::Up]), (-303_700_050_000, -303_700_050_000));
    assert_eq!(force_for(&[MovementDir::Left, MovementDir::Down]), (-303_700_050_000, 303_700_050_000));
}

#[test]
fn opposite_directions_cancel() {
    assert_eq!(force_for(&[]), (0, 0));
    assert_eq!(force_for(&[MovementDir::Left, MovementDir::Right]), (0, 0));
    assert_eq!(
        force_for(&[MovementDir::Left, MovementDir::Right, MovementDir::Up]),
        (0, -MOVE_ACCEL_BITS)
    );
}

#[test]
fn movement_reuses_its_source() {
    let mut mvmt = Movement { intent: MovementIntent::from_bits_truncate(2), phys_src: None };
    let mut forces = Forces::new();
    movement_update(&mut mvmt, &mut forces);
    let id = mvmt.phys_src;
    mvmt.intent = MovementIntent::from_bits_truncate(4);
    movement_update(&mut mvmt, &mut forces);
    assert_eq!(mvmt.phys_src, id);
    assert_eq!(forces.sources.next_src_id, 1);
    assert_eq!(forces.sources.sources.len(), 1);
    let f = forces.get();
    assert_eq!((f.x.to_bits(), f.y.to_bits()), (0, -MOVE_ACCEL_BITS));
}

#[test]
fn physics_sources() {
    let mut s = PhysicsSources::new();
    let a = s.new_source();
    let b = s.new_source();
    assert!(s.set_source(a, Vec3F::new(Fixed::from_int(1), Fixed::from_int(2), Fixed::from_int(3))));
    assert!(s.set_source(b, Vec3F::new(Fixed::from_int(10), Fixed::zero(), Fixed::zero())));
    assert!(!s.set_source(7, Vec3F::zero()));
    assert_eq!(s.get(), Vec3F::new(Fixed::from_int(11), Fixed::from_int(2), Fixed::from_int(3)));
}

#[test]
fn forces_accelerate_the_base_velocity() {
    let mut forces = Forces::new();
    let id = forces.sources.new_source();
    forces.sources.set_source(id, Forces::from_linear(Vec2F::new(Fixed::from_int(2), Fixed::from_int(-4))));
    let mut vel = Velocity::new();
    apply_forces_to(&forces, &mut vel, Time::from_nanos(1_000_000_000));
    assert_eq!(vel.base, Vec3F::new(Fixed::from_int(2), Fixed::from_int(-4), Fixed::zero()));
    apply_forces_to(&forces, &mut vel, Time::from_nanos(500_000_000));
    assert_eq!(vel.base.x.to_bits(), 3 * ONE_BITS);
    assert_eq!(vel.base.y.to_bits(), -6 * ONE_BITS);
    // the total velocity adds the velocity's own sources to its base
    let s = vel.sources.new_source();
    vel.sources.set_source(s, Vec3F::new(Fixed::from_int(1), Fixed::from_int(1), Fixed::zero()));
    assert_eq!(vel.get(), Vec3F::new(Fixed::from_int(4), Fixed::from_int(-5), Fixed::zero()));
    let d = pvel::apply_velocity_to(&vel, Time::from_nanos(1_000_000_000));
    assert_eq!(d, Vec2F::new(Fixed::from_int(4), Fixed::from_int(-5)));
}

#[test]
fn linear_conversions() {
    let v = Vec2F::new(Fixed::from_int(3), Fixed::from_int(-2));
    let w = from_linear(v);
    assert_eq!(w, Vec3F::new(Fixed::from_int(3), Fixed::from_int(-2), Fixed::zero()));
    assert_eq!(to_linear(w), v);
    assert_eq!(Forces::from_linear(v), w);
}

#[test]
fn physics_lists_of_modifiers_and_constraints() {
    let mut mods: ListArena<ModifierKind> = ListArena::new();
    let mut constraints: ListArena<u8> = ListArena::new();
    let mut phys = Physics::new(0u32);
    let m1 = phys.add_mod(&mut mods, ModifierKind::Velocity);
    let m2 = phys.add_mod(&mut mods, ModifierKind::Force);
    let c1 = phys.add_constraint(&mut constraints, 5);
    assert!(matches!(phys.remove_mod(&mut mods, m1), Some(ModifierKind::Velocity)));
    assert!(phys.remove_mod(&mut mods, m1).is_none());
    assert!(matches!(mods.get(m2), Some(ModifierKind::Force)));
    assert_eq!(phys.remove_constraint(&mut constraints, c1), Some(5));
    assert_eq!(constraints.get(c1), None);
    assert_eq!(phys.kinematic_data, 0);
    collision_detection();
}
