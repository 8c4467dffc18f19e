use simpledb::block_id::BlockId;
use simpledb::buffer_manager::BufferManager;
use simpledb::file_manager::FileManager;
use simpledb::log_manager::LogManager;

#[test]
fn test_buffer() {
    let mut fm = FileManager::new(400);
    let mut lm = LogManager::new(&mut fm, "simpledb.log");
    let mut bm = BufferManager::new(&fm, &lm, 3);

    let file_name = "test_buffer";

    let idx_1 = bm.pin(&mut fm, &mut lm, &BlockId::new(file_name, 1)).unwrap();
    let buffer_1 = bm.get_buffer(idx_1);
    let p1 = buffer_1.contents();
    let n = p1.get_int(80);
    p1.set_int(80, n + 1);
    assert_eq!(1, n + 1);
    assert!(buffer_1.modifing_tx_num().is_none());
    buffer_1.set_modified(1, 0);
    assert_eq!(buffer_1.modifing_tx_num().unwrap(), 1);
    bm.unpin(idx_1);

    // one of the following pins should flush buffer_1
    let mut idx_2 = bm.pin(&mut fm, &mut lm, &BlockId::new(file_name, 2)).unwrap();
    bm.pin(&mut fm, &mut lm, &BlockId::new(file_name, 3)).unwrap();
    bm.pin(&mut fm, &mut lm, &BlockId::new(file_name, 4)).unwrap();

    bm.unpin(idx_2);
    idx_2 = bm.pin(&mut fm, &mut lm, &BlockId::new(file_name, 1)).unwrap();
    let buffer_2 = bm.get_buffer(idx_2);
    let p2 = buffer_2.contents();
    p2.set_int(80, 9999);
    buffer_2.set_modified(1, 0);
    bm.unpin(idx_2);

    // block 1 was flushed when its slot was reassigned, so the first
    // increment is durable in the file store
    let mut check = simpledb::page::Page::new(400);
    fm.read(&BlockId::new(file_name, 1), &mut check);
    assert_eq!(check.get_int(80), 1);
}

#[test]
fn test_buffer_manager() {
    let mut fm = FileManager::new(400);
    let mut lm = LogManager::new(&mut fm, "simpledb.log");
    let mut bm = BufferManager::new(&fm, &lm, 3);
    let mut buffs_idx = Vec::with_capacity(6);

    bm.set_max_time(10);

    buffs_idx.push(bm.pin(&mut fm, &mut lm, &BlockId::new("testfile", 0)).unwrap());
    buffs_idx.push(bm.pin(&mut fm, &mut lm, &BlockId::new("testfile", 1)).unwrap());
    buffs_idx.push(bm.pin(&mut fm, &mut lm, &BlockId::new("testfile", 2)).unwrap());
    assert_eq!(bm.available(), 0);
    bm.unpin(buffs_idx[1]);
    buffs_idx[1] = 999;

    assert_eq!(bm.available(), 1);
    buffs_idx.push(bm.pin(&mut fm, &mut lm, &BlockId::new("testfile", 0)).unwrap());
    assert_eq!(bm.available(), 1);
    buffs_idx.push(bm.pin(&mut fm, &mut lm, &BlockId::new("testfile", 1)).unwrap());
    assert_eq!(bm.available(), 0);

    assert!(bm.pin(&mut fm, &mut lm, &BlockId::new("testfile", 3)).is_err());

    bm.unpin(buffs_idx[2]);
    buffs_idx[2] = 999;
    assert_eq!(bm.available(), 1);
    buffs_idx.push(bm.pin(&mut fm, &mut lm, &BlockId::new("testfile", 3)).unwrap());

    let expected = vec![
        (0, BlockId::new("testfile", 0)),
        (3, BlockId::new("testfile", 0)),
        (4, BlockId::new("testfile", 1)),
        (5, BlockId::new("testfile", 3)),
    ];

    for (idx, block_id) in expected.iter() {
        let buffer = bm.get_buffer(buffs_idx[*idx]);
        assert_eq!(buffer.block().unwrap(), block_id);
    }
}

#[test]
fn test_pool_capacity() {
    // with pool size 3, pinning 3 distinct blocks leaves no slot available
    let mut fm = FileManager::new(400);
    let mut lm = LogManager::new(&mut fm, "simpledb.log");
    let mut bm = BufferManager::new(&fm, &lm, 3);
    assert_eq!(bm.available(), 3);
    let i0 = bm.pin(&mut fm, &mut lm, &BlockId::new("t", 0)).unwrap();
    let _i1 = bm.pin(&mut fm, &mut lm, &BlockId::new("t", 1)).unwrap();
    let _i2 = bm.pin(&mut fm, &mut lm, &BlockId::new("t", 2)).unwrap();
    assert_eq!(bm.available(), 0);
    // a fourth distinct block aborts while no slot is unpinned
    assert!(bm.pin(&mut fm, &mut lm, &BlockId::new("t", 3)).is_err());
    // after an unpin the same request succeeds, reusing the freed slot
    bm.unpin(i0);
    assert_eq!(bm.available(), 1);
    let i3 = bm.pin(&mut fm, &mut lm, &BlockId::new("t", 3)).unwrap();
    assert_eq!(i3, i0);
    assert_eq!(bm.available(), 0);
    // pinning an already-resident block needs no free slot
    let again = bm.pin(&mut fm, &mut lm, &BlockId::new("t", 1)).unwrap();
    assert_eq!(again, _i1);
}

#[test]
fn test_flush_ahead() {
    // a buffer modified under LSN L is not written until the WAL holds L
    let mut fm = FileManager::new(400);
    let mut lm = LogManager::new(&mut fm, "simpledb.log");
    let mut bm = BufferManager::new(&fm, &lm, 3);
    // three log records stand in memory only
    let lsn1 = lm.append(&mut fm, &vec![1, 1, 1, 1]);
    let lsn2 = lm.append(&mut fm, &vec![2, 2, 2, 2]);
    let lsn3 = lm.append(&mut fm, &vec![3, 3, 3, 3]);
    assert_eq!((lsn1, lsn2, lsn3), (1, 2, 3));
    assert_eq!(lm.getLastSavedLSN(), 0);

    let blk = BlockId::new("t", 0);
    let idx = bm.pin(&mut fm, &mut lm, &blk).unwrap();
    let buffer = bm.get_buffer(idx);
    buffer.contents().set_int(0, 42);
    buffer.set_modified(9, lsn2);
    bm.unpin(idx);
    // flush_all writes the page, and the WAL first, through lsn2 at least
    bm.flush_all(&mut fm, &mut lm, 9);
    assert!(lm.getLastSavedLSN() >= lsn2);
    let mut check = simpledb::page::Page::new(400);
    fm.read(&blk, &mut check);
    assert_eq!(check.get_int(0), 42);
}

#[test]
fn test_flush_all_only_touches_matching_transaction() {
    let mut fm = FileManager::new(400);
    let mut lm = LogManager::new(&mut fm, "simpledb.log");
    let mut bm = BufferManager::new(&fm, &lm, 2);
    let b0 = BlockId::new("t", 0);
    let b1 = BlockId::new("t", 1);
    let i0 = bm.pin(&mut fm, &mut lm, &b0).unwrap();
    let i1 = bm.pin(&mut fm, &mut lm, &b1).unwrap();
    bm.get_buffer(i0).contents().set_int(0, 10);
    bm.get_buffer(i0).set_modified(1, 0);
    bm.get_buffer(i1).contents().set_int(0, 20);
    bm.get_buffer(i1).set_modified(2, 0);
    bm.flush_all(&mut fm, &mut lm, 1);
    assert!(bm.get_buffer(i0).modifing_tx_num().is_none());
    assert_eq!(bm.get_buffer(i1).modifing_tx_num(), Some(2));
    let mut check = simpledb::page::Page::new(400);
    fm.read(&b0, &mut check);
    assert_eq!(check.get_int(0), 10);
    // transaction 2's block was not written
    assert_eq!(fm.length("t"), 1);
    bm.unpin(i0);
    bm.unpin(i1);
}
