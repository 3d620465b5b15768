use wargamezr::save::{sort_u32, Save};

#[test]
fn intro_and_first_level_are_open() {
    let s = Save::default();
    assert!(s.is_unlocked(0));
    assert!(s.is_unlocked(1));
    assert!(!s.is_unlocked(2));
}

#[test]
fn solving_a_level_unlocks_the_next() {
    let mut s = Save::default();
    s.mark_solved(4, "pw4".to_string());
    assert!(s.is_solved(4));
    assert!(s.is_unlocked(4));
    assert!(s.is_unlocked(5));
    assert!(!s.is_unlocked(6));
    assert!(!s.is_unlocked(3));
    assert_eq!(s.treasure.get(&4), Some(&"pw4".to_string()));
}

#[test]
fn mark_solved_keeps_list_sorted_without_duplicates() {
    let mut s = Save::default();
    s.mark_solved(3, "c".to_string());
    s.mark_solved(1, "a".to_string());
    s.mark_solved(2, "b".to_string());
    s.mark_solved(1, "a2".to_string());
    assert_eq!(s.solved, vec![1, 2, 3]);
    assert_eq!(s.treasure.get(&1), Some(&"a2".to_string()));
    assert_eq!(s.treasure.len(), 3);
}

#[test]
fn mark_solved_sorts_a_loaded_unsorted_list() {
    let mut s = Save { solved: vec![5, 2, 9], ..Save::default() };
    s.mark_solved(4, "x".to_string());
    assert_eq!(s.solved, vec![2, 4, 5, 9]);
    let mut t = Save { solved: vec![5, 2], ..Save::default() };
    t.mark_solved(5, "y".to_string());
    assert_eq!(t.solved, vec![5, 2]);
}

#[test]
fn hints_are_revealed_up_to_the_maximum() {
    let mut s = Save::default();
    assert_eq!(s.hints_used(7), 0);
    s.reveal_hint(7, 2);
    assert_eq!(s.hints_used(7), 1);
    s.reveal_hint(7, 2);
    s.reveal_hint(7, 2);
    assert_eq!(s.hints_used(7), 2);
    assert_eq!(s.hints_used(8), 0);
    s.reveal_hint(8, 0);
    assert_eq!(s.hints_used.get(&8), Some(&0));
}

#[test]
fn sort_u32_orders_values() {
    let mut v = vec![3, 1, 2, 1, 0];
    sort_u32(&mut v);
    assert_eq!(v, vec![0, 1, 1, 2, 3]);
}

#[test]
fn marking_twice_changes_nothing_more() {
    let mut s = Save { solved: vec![4, 1], ..Save::default() };
    s.mark_solved(2, "b".to_string());
    let once = s.solved.clone();
    s.mark_solved(2, "b".to_string());
    assert_eq!(s.solved, once);
    assert_eq!(once, vec![1, 2, 4]);
}

#[test]
fn marking_twice_equals_marking_once() {
    let mut s1 = Save { solved: vec![7, 3], ..Save::default() };
    let mut s2 = Save { solved: vec![7, 3], ..Save::default() };
    s1.mark_solved(5, "p".to_string());
    s1.mark_solved(5, "p".to_string());
    s2.mark_solved(5, "p".to_string());
    assert_eq!(s1.solved, s2.solved);
    assert_eq!(s1.treasure, s2.treasure);
    assert_eq!(s1.hints_used, s2.hints_used);
}
