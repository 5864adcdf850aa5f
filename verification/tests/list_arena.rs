use combat_demo::common::dense_arena::ArenaKey;
use combat_demo::common::list_arena::ListArena;

fn collect_values(arena: &mut ListArena<i32>, head: Option<ArenaKey>) -> Vec<i32> {
    let mut out = Vec::new();
    if let Some(head) = head {
        arena.for_each_mut(head, |v| out.push(*v));
    }
    out
}

#[test]
fn add_sets_head_and_next_sibling() {
    let mut arena: ListArena<i32> = ListArena::new();
    let mut head = None;

    let a = arena.add(&mut head, 10);
    let b = arena.add(&mut head, 20);
    let c = arena.add(&mut head, 30);

    assert_eq!(head, Some(c));
    assert_eq!(collect_values(&mut arena, head), vec![30, 20, 10]);
    assert_eq!(arena.get(a), Some(&10));
    assert_eq!(arena.get(b), Some(&20));
    assert_eq!(arena.get(c), Some(&30));
}

#[test]
fn get_mut_allows_modification() {
    let mut arena: ListArena<i32> = ListArena::new();
    let mut head = None;
    let key = arena.add(&mut head, 5);

    *arena.get_mut(key).unwrap() = 99;
    assert_eq!(arena.get(key), Some(&99));
}

#[test]
fn get_and_get_mut_return_none_for_unknown_key() {
    let mut arena: ListArena<i32> = ListArena::new();
    let mut head = None;
    let key = arena.add(&mut head, 1);

    let removed = arena.remove(&mut head, key);
    assert_eq!(removed, Some(1));
    assert_eq!(arena.get(key), None);
    assert_eq!(arena.get_mut(key), None);
}

#[test]
fn remove_updates_head_when_removing_head() {
    let mut arena: ListArena<i32> = ListArena::new();
    let mut head = None;
    let first = arena.add(&mut head, 10);
    arena.add(&mut head, 20);

    let old_head = head.unwrap();
    let removed = arena.remove(&mut head, old_head);
    assert_eq!(removed, Some(20));
    assert_eq!(head, Some(first));
    assert_eq!(collect_values(&mut arena, head), vec![10]);
}

#[test]
fn remove_middle_preserves_remaining_order() {
    let mut arena: ListArena<i32> = ListArena::new();
    let mut head = None;
    let a = arena.add(&mut head, 10);
    let b = arena.add(&mut head, 20);
    let c = arena.add(&mut head, 30);
    // list order: c -> b -> a

    let removed = arena.remove(&mut head, b);
    assert_eq!(removed, Some(20));
    assert_eq!(collect_values(&mut arena, head), vec![30, 10]);
    assert_eq!(arena.get(a), Some(&10));
    assert_eq!(arena.get(c), Some(&30));
    assert_eq!(arena.get(b), None);
}

#[test]
fn remove_tail_preserves_remaining_order() {
    let mut arena: ListArena<i32> = ListArena::new();
    let mut head = None;
    let a = arena.add(&mut head, 10);
    let b = arena.add(&mut head, 20);
    let c = arena.add(&mut head, 30);
    // list order: c -> b -> a

    let removed = arena.remove(&mut head, a);
    assert_eq!(removed, Some(10));
    assert_eq!(collect_values(&mut arena, head), vec![30, 20]);
    assert_eq!(arena.get(b), Some(&20));
    assert_eq!(arena.get(c), Some(&30));
}

#[test]
fn remove_unknown_key_returns_none_and_leaves_list() {
    let mut arena: ListArena<i32> = ListArena::new();
    let mut head = None;
    let a = arena.add(&mut head, 10);
    let b = arena.add(&mut head, 20);
    arena.remove(&mut head, a);

    let removed = arena.remove(&mut head, a);
    assert_eq!(removed, None);
    assert_eq!(collect_values(&mut arena, head), vec![20]);
    assert_eq!(arena.get(b), Some(&20));
}

#[test]
fn remove_last_item_clears_head() {
    let mut arena: ListArena<i32> = ListArena::new();
    let mut head = None;
    let key = arena.add(&mut head, 42);

    let removed = arena.remove(&mut head, key);
    assert_eq!(removed, Some(42));
    assert_eq!(head, None);
}

#[test]
fn for_each_mut_modifies_all_items() {
    let mut arena: ListArena<i32> = ListArena::new();
    let mut head = None;
    arena.add(&mut head, 1);
    arena.add(&mut head, 2);
    arena.add(&mut head, 3);

    arena.for_each_mut(head.unwrap(), |v| *v *= 10);
    assert_eq!(collect_values(&mut arena, head), vec![30, 20, 10]);
}

#[test]
fn for_each_can_track_processed_count() {
    let mut arena: ListArena<i32> = ListArena::new();
    let mut head = None;
    arena.add(&mut head, 1);
    arena.add(&mut head, 2);
    arena.add(&mut head, 3);

    let mut count = 0;
    arena.for_each_mut(head.unwrap(), |_| count += 1);
    assert_eq!(count, 3);
}

#[test]
fn for_each_on_removed_start_does_nothing() {
    let mut arena: ListArena<i32> = ListArena::new();
    let mut head = None;
    let key = arena.add(&mut head, 1);
    arena.remove(&mut head, key);

    arena.for_each(key, |_| panic!("should not be called"));
}

#[test]
fn for_each_visits_in_list_order() {
    let mut arena: ListArena<i32> = ListArena::new();
    let mut head = None;
    arena.add(&mut head, 1);
    let middle = arena.add(&mut head, 2);
    arena.add(&mut head, 3);

    let seen = std::cell::RefCell::new(Vec::new());
    arena.for_each(head.unwrap(), |v| seen.borrow_mut().push(*v));
    assert_eq!(seen.into_inner(), vec![3, 2, 1]);

    // starting in the middle visits the rest of the list only
    let seen = std::cell::RefCell::new(Vec::new());
    arena.for_each(middle, |v| seen.borrow_mut().push(*v));
    assert_eq!(seen.into_inner(), vec![2, 1]);
}

#[test]
fn lists_in_one_arena_stay_apart() {
    let mut arena: ListArena<i32> = ListArena::new();
    let mut first = None;
    let mut second = None;
    arena.add(&mut first, 1);
    let shared_slot = arena.add(&mut second, 100);
    arena.add(&mut first, 2);
    arena.add(&mut second, 200);

    assert_eq!(collect_values(&mut arena, first), vec![2, 1]);
    assert_eq!(collect_values(&mut arena, second), vec![200, 100]);

    // removing from one list leaves the other untouched
    assert_eq!(arena.remove(&mut second, shared_slot), Some(100));
    assert_eq!(collect_values(&mut arena, first), vec![2, 1]);
    assert_eq!(collect_values(&mut arena, second), vec![200]);
}

#[test]
fn add_then_remove_restores_list() {
    let mut arena: ListArena<i32> = ListArena::new();
    let mut head = None;
    arena.add(&mut head, 1);
    arena.add(&mut head, 2);
    let before = head;

    let k = arena.add(&mut head, 3);
    assert_eq!(arena.remove(&mut head, k), Some(3));
    assert_eq!(head, before);
    assert_eq!(collect_values(&mut arena, head), vec![2, 1]);
}

#[test]
fn removed_key_is_never_reused() {
    let mut arena: ListArena<i32> = ListArena::new();
    let mut head = None;
    let old = arena.add(&mut head, 7);
    assert_eq!(arena.remove(&mut head, old), Some(7));

    // the freed slot is reused under a new key; the old one stays dead
    let new = arena.add(&mut head, 8);
    assert_ne!(new, old);
    assert_eq!(arena.get(old), None);
    assert_eq!(arena.get(new), Some(&8));
    assert_eq!(arena.remove(&mut head, old), None);
    assert_eq!(collect_values(&mut arena, head), vec![8]);
}

#[test]
fn default_arena_is_empty() {
    let mut arena: ListArena<i32> = ListArena::default();
    let mut head = None;
    let k = arena.add(&mut head, 3);
    assert_eq!(arena.get(k), Some(&3));
}
