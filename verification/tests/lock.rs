use simpledb::block_id::BlockId;
use simpledb::concurrency_manager::ConcurrencyManager;
use simpledb::lock_table::LockAbortError;
use simpledb::lock_table::LockTable;

#[test]
fn test_shared_locks_coexist() {
    // several s_lock requests on one block all succeed in turn
    let mut lt = LockTable::new();
    let blk = BlockId::new("t", 5);
    assert!(lt.s_lock(&blk).is_ok());
    assert!(lt.s_lock(&blk).is_ok());
    assert!(lt.s_lock(&blk).is_ok());
    assert_eq!(lt.get_lock_value(&blk), 3);
    // with other sharers present an x_lock request is refused
    assert_eq!(lt.x_lock(&blk), Err(LockAbortError::General));
    // it keeps being refused until all sharers release
    lt.unlock(&blk);
    lt.unlock(&blk);
    assert_eq!(lt.get_lock_value(&blk), 1);
    // the sole remaining sharer escalates
    assert!(lt.x_lock(&blk).is_ok());
    assert_eq!(lt.get_lock_value(&blk), -1);
}

#[test]
fn test_exclusive_excludes() {
    let mut lt = LockTable::new();
    let blk = BlockId::new("t", 1);
    assert!(lt.x_lock(&blk).is_ok());
    // a second exclusive request is refused until the holder unlocks
    assert_eq!(lt.x_lock(&blk), Err(LockAbortError::General));
    // so is a shared request
    assert_eq!(lt.s_lock(&blk), Err(LockAbortError::General));
    lt.unlock(&blk);
    assert_eq!(lt.get_lock_value(&blk), 0);
    // then the waiting exclusive request succeeds
    assert!(lt.x_lock(&blk).is_ok());
    lt.unlock(&blk);
}

#[test]
fn test_locks_are_per_block() {
    let mut lt = LockTable::new();
    let a = BlockId::new("t", 1);
    let b = BlockId::new("t", 2);
    let c = BlockId::new("u", 1);
    assert!(lt.x_lock(&a).is_ok());
    // other blocks, and the same number in another file, are unaffected
    assert!(lt.s_lock(&b).is_ok());
    assert!(lt.x_lock(&c).is_ok());
    assert_eq!(lt.get_lock_value(&a), -1);
    assert_eq!(lt.get_lock_value(&b), 1);
    assert_eq!(lt.get_lock_value(&c), -1);
    lt.unlock(&a);
    assert_eq!(lt.get_lock_value(&a), 0);
    assert_eq!(lt.get_lock_value(&b), 1);
}

#[test]
fn test_unlock_shared_decrements() {
    let mut lt = LockTable::new();
    let blk = BlockId::new("t", 9);
    assert!(lt.s_lock(&blk).is_ok());
    assert!(lt.s_lock(&blk).is_ok());
    lt.unlock(&blk);
    assert_eq!(lt.get_lock_value(&blk), 1);
    lt.unlock(&blk);
    assert_eq!(lt.get_lock_value(&blk), 0);
    // unlocking an unlocked block is harmless
    lt.unlock(&blk);
    assert_eq!(lt.get_lock_value(&blk), 0);
}

#[test]
fn test_lock_predicates_and_timeout() {
    let mut lt = LockTable::new();
    let blk = BlockId::new("t", 3);
    assert!(!lt.has_x_lock(&blk));
    assert!(!lt.has_other_s_lock(&blk));
    lt.s_lock(&blk).unwrap();
    lt.s_lock(&blk).unwrap();
    assert!(lt.has_other_s_lock(&blk));
    assert!(!lt.has_x_lock(&blk));
    // the default wait bound is 10 seconds
    assert!(!lt.waiting_too_long(1_000, 11_000));
    assert!(lt.waiting_too_long(1_000, 11_001));
}

#[test]
fn test_concurrency_manager_starts_empty() {
    let cm = ConcurrencyManager::new();
    // a fresh manager exists to be handed to the transaction layer; the
    // lock state it wraps starts empty
    let _ = cm;
    let mut lt = LockTable::new();
    assert_eq!(lt.get_lock_value(&BlockId::new("t", 0)), 0);
    assert!(lt.s_lock(&BlockId::new("t", 0)).is_ok());
}
