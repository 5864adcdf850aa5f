use combat_demo::common::dense_arena::DenseArena;

#[test]
fn insert_get_remove_round_trip() {
    let mut arena: DenseArena<u32> = DenseArena::new();
    let a = arena.insert(1);
    let b = arena.insert(2);
    assert_eq!(arena.len(), 2);
    assert_eq!(arena.get(a), Some(&1));
    assert_eq!(arena.get(b), Some(&2));
    assert!(arena.contains_key(a));

    assert_eq!(arena.remove(a), Some(1));
    assert_eq!(arena.len(), 1);
    assert!(!arena.contains_key(a));
    assert_eq!(arena.get(a), None);
    assert_eq!(arena.get(b), Some(&2));
    assert_eq!(arena.remove(a), None);
}

#[test]
fn keys_are_fresh_after_slot_reuse() {
    let mut arena: DenseArena<u32> = DenseArena::new();
    let mut seen = Vec::new();
    for round in 0..5u32 {
        let k = arena.insert(round);
        assert!(!seen.contains(&k));
        seen.push(k);
        assert_eq!(arena.remove(k), Some(round));
    }
    for k in &seen {
        assert_eq!(arena.get(*k), None);
    }
}

#[test]
fn get_mut_changes_only_its_value() {
    let mut arena: DenseArena<u32> = DenseArena::new();
    let a = arena.insert(1);
    let b = arena.insert(2);
    *arena.get_mut(b).unwrap() += 40;
    assert_eq!(arena.get(a), Some(&1));
    assert_eq!(arena.get(b), Some(&42));
}

#[test]
fn values_stay_reachable_after_packing_moves() {
    let mut arena: DenseArena<u32> = DenseArena::new();
    let keys: Vec<_> = (0..6u32).map(|v| arena.insert(v)).collect();
    // removing from the front moves the last value into the hole
    assert_eq!(arena.remove(keys[0]), Some(0));
    assert_eq!(arena.remove(keys[2]), Some(2));
    for (i, k) in keys.iter().enumerate() {
        let expected = if i == 0 || i == 2 { None } else { Some(i as u32) };
        assert_eq!(arena.get(*k).copied(), expected);
    }
    assert_eq!(arena.len(), 4);
}
