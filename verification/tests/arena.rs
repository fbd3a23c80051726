use n64_gpt::memory_manager::{
    align_up, init, new_for_test, BumpArena, MemoryManager, HEAP_SIZE, HEAP_START,
};

#[test]
fn fresh_arena_is_empty() {
    let mm = MemoryManager::new();
    assert_eq!(mm.used_memory(), 0);
    assert_eq!(mm.total_memory(), HEAP_SIZE);
    assert_eq!(mm.available_memory(), HEAP_SIZE);
    assert_eq!(mm.checkpoint_depth(), 0);
    let mm = init();
    assert_eq!(mm.used_memory(), 0);
}

#[test]
fn allocate_rounds_the_cursor_up() {
    let mut mm = MemoryManager::with_range(0x1000, 0x100).unwrap();
    assert_eq!(mm.allocate(3, 1), Some(0x1000));
    assert_eq!(mm.used_memory(), 3);
    assert_eq!(mm.allocate(4, 16), Some(0x1010));
    assert_eq!(mm.used_memory(), 0x14);
    assert_eq!(mm.allocate(1, 64), Some(0x1040));
    // 0x1041 is a multiple of 3 already
    assert_eq!(mm.allocate(0, 3), Some(0x1041));
    assert_eq!(mm.allocate(2, 5), Some(0x1045));
    assert_eq!(mm.available_memory(), 0x100 - 0x47);
}

#[test]
fn align_up_values() {
    assert_eq!(align_up(0, 8), Some(0));
    assert_eq!(align_up(1, 8), Some(8));
    assert_eq!(align_up(8, 8), Some(8));
    assert_eq!(align_up(9, 8), Some(16));
    assert_eq!(align_up(10, 3), Some(12));
    assert_eq!(align_up(5, 0), None);
    assert_eq!(align_up(usize::MAX, 2), None);
    assert_eq!(align_up(usize::MAX, 1), Some(usize::MAX));
}

#[test]
fn exhaustion_leaves_the_cursor_unchanged() {
    let mut mm = MemoryManager::with_range(0x2000, 64).unwrap();
    assert_eq!(mm.allocate(40, 8), Some(0x2000));
    let used = mm.used_memory();
    assert_eq!(mm.allocate(25, 1), None);
    assert_eq!(mm.used_memory(), used);
    assert_eq!(mm.allocate(25, 1), None);
    assert_eq!(mm.used_memory(), used);
    // alignment padding counts towards the request
    assert_eq!(mm.allocate(1, 64), None);
    assert_eq!(mm.used_memory(), used);
    assert_eq!(mm.allocate(usize::MAX, 1), None);
    assert_eq!(mm.allocate(8, 0), None);
    assert_eq!(mm.used_memory(), used);
    // what is left can still be had
    assert_eq!(mm.allocate(24, 1), Some(0x2000 + 40));
    assert_eq!(mm.available_memory(), 0);
    assert_eq!(mm.allocate(0, 1), Some(0x2000 + 64));
    assert_eq!(mm.allocate(1, 1), None);
}

#[test]
fn checkpoint_and_restore_are_lifo() {
    let mut mm = new_for_test();
    mm.allocate(100, 4).unwrap();
    let before = mm.used_memory();
    let outer = mm.checkpoint();
    assert_eq!(outer, 0);
    mm.allocate(1000, 64).unwrap();
    let mid = mm.used_memory();
    let inner = mm.checkpoint();
    assert_eq!(inner, 1);
    mm.allocate(5000, 8).unwrap();
    mm.allocate(HEAP_SIZE, 1).is_none();

    // the outer token is not on top: nothing happens
    assert!(!mm.restore_to(outer));
    assert_eq!(mm.checkpoint_depth(), 2);

    assert!(mm.restore_to(inner));
    assert_eq!(mm.used_memory(), mid);
    // a second restore to the same token is refused
    assert!(!mm.restore_to(inner));
    assert_eq!(mm.used_memory(), mid);

    assert!(mm.restore_to(outer));
    assert_eq!(mm.used_memory(), before);
    assert_eq!(mm.checkpoint_depth(), 0);
    assert!(!mm.restore_to(outer));
    assert!(!mm.pop_checkpoint());
}

#[test]
fn checkpoint_stack_saturates_at_eight() {
    let mut arena = BumpArena::new();
    for expected in 0..8 {
        assert_eq!(arena.checkpoint(), expected);
        arena.allocate(16, 16).unwrap();
    }
    assert_eq!(arena.checkpoint_depth(), 8);
    let used = arena.used_memory();
    // full: the deepest token comes back and nothing is pushed
    assert_eq!(arena.checkpoint(), 7);
    assert_eq!(arena.checkpoint(), 7);
    assert_eq!(arena.checkpoint_depth(), 8);
    assert_eq!(arena.used_memory(), used);
    // restoring to it rolls back to the eighth saved cursor
    assert!(arena.restore_to(7));
    assert_eq!(arena.used_memory(), 7 * 16);
    assert_eq!(arena.checkpoint_depth(), 7);
}

#[test]
fn pop_checkpoint_restores_the_newest() {
    let mut mm = MemoryManager::new();
    mm.checkpoint();
    mm.allocate(12, 4).unwrap();
    mm.checkpoint();
    mm.allocate(12, 4).unwrap();
    assert!(mm.pop_checkpoint());
    assert_eq!(mm.used_memory(), 12);
    assert!(mm.pop_checkpoint());
    assert_eq!(mm.used_memory(), 0);
    assert!(!mm.pop_checkpoint());
}

#[test]
fn reset_forgets_everything() {
    let mut mm = MemoryManager::new();
    mm.allocate(64, 64).unwrap();
    mm.checkpoint();
    mm.allocate(64, 64).unwrap();
    mm.reset();
    assert_eq!(mm.used_memory(), 0);
    assert_eq!(mm.checkpoint_depth(), 0);
    assert_eq!(mm.allocate(1, 1), Some(HEAP_START));
}

#[test]
fn range_that_wraps_is_refused() {
    assert!(MemoryManager::with_range(usize::MAX, 1).is_none());
    assert!(MemoryManager::with_range(usize::MAX, 0).is_some());
}
