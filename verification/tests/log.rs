use simpledb::file_manager::FileManager;
use simpledb::log_manager::check_log_file;
use simpledb::log_manager::LogManager;
use simpledb::page::Page;

fn create_log_records(rec_string: &str, n: u32) -> Vec<u8> {
    let n_pos = Page::max_length(rec_string.len());
    let b = vec![0_u8; n_pos + 4];
    let mut page = Page::from_bytes(&b);
    page.set_string(0, rec_string);
    page.set_int(n_pos, n);
    page.contents().to_vec()
}

fn create_records(lm: &mut LogManager, fm: &mut FileManager, start: u32, end: u32) {
    for i in start..=end {
        let rec_string = format!("record: {}", i);
        let rec = create_log_records(&rec_string, i + 100);
        let lsn = lm.append(fm, &rec);

        assert_eq!(lsn, i)
    }
}

fn assert_log_records(lm: &mut LogManager, fm: &mut FileManager, expected: Vec<u32>) {
    let mut itr = lm.iterator(fm);
    let mut count = 0;
    for exp in expected {
        let rec = itr.next(fm).unwrap();
        let page = Page::from_bytes(&rec);
        let s = page.get_string(0).unwrap();
        let n = Page::max_length(s.len());
        let val = page.get_int(n);

        assert_eq!(s, format!("record: {}", exp));
        assert_eq!(val, exp + 100);
        count += 1;
    }
    assert!(itr.next(fm).is_none());
    assert!(count > 0);
}

#[test]
fn test_log() {
    let mut fm = FileManager::new(400);
    let mut lm = LogManager::new(&mut fm, "simpledb.log");
    const NUM: u32 = 350;
    create_records(&mut lm, &mut fm, 1, NUM);
    assert_log_records(&mut lm, &mut fm, (1..=NUM).rev().collect());

    create_records(&mut lm, &mut fm, NUM + 1, NUM * 2);
    lm.flush(&mut fm, NUM - 10);
    assert_log_records(&mut lm, &mut fm, (1..=NUM * 2).rev().collect());
}

#[test]
fn test_flush_advances_saved_lsn() {
    let mut fm = FileManager::new(400);
    let mut lm = LogManager::new(&mut fm, "wal");
    assert_eq!(lm.getLastSavedLSN(), 0);
    // ten short records fit in one block, so no flush happens on the way
    create_records(&mut lm, &mut fm, 1, 10);
    // nothing forced durable yet by append alone
    assert_eq!(lm.getLastSavedLSN(), 0);
    lm.flush(&mut fm, 7);
    // flushing LSN 7 persists the whole tail page: everything so far
    assert!(lm.getLastSavedLSN() >= 7);
    assert_eq!(lm.getLastSavedLSN(), 10);
    let saved = lm.getLastSavedLSN();
    // a flush of an already-durable LSN changes nothing
    lm.flush(&mut fm, 3);
    assert_eq!(lm.getLastSavedLSN(), saved);
}

#[test]
fn test_iterator_reverse_order_single_block() {
    let mut fm = FileManager::new(400);
    let mut lm = LogManager::new(&mut fm, "wal");
    for i in 1..=3u32 {
        let rec = create_log_records(&format!("r{}", i), i);
        lm.append(&mut fm, &rec);
    }
    let mut itr = lm.iterator(&mut fm);
    for expect in [3u32, 2, 1] {
        let rec = itr.next(&fm).unwrap();
        let page = Page::from_bytes(&rec);
        assert_eq!(page.get_string(0).unwrap(), format!("r{}", expect));
    }
    assert!(!itr.has_next(&fm));
    assert!(itr.next(&fm).is_none());
}

#[test]
fn test_empty_log_iterates_nothing() {
    let mut fm = FileManager::new(400);
    let mut lm = LogManager::new(&mut fm, "wal");
    let mut itr = lm.iterator(&mut fm);
    assert!(!itr.has_next(&fm));
    assert!(itr.next(&fm).is_none());
}

#[test]
fn test_check_log_file() {
    let mut fm = FileManager::new(400);
    // an absent log file is trivially well formed
    assert!(check_log_file(&fm, "wal"));
    let mut lm = LogManager::new(&mut fm, "wal");
    create_records(&mut lm, &mut fm, 1, 30);
    lm.flush(&mut fm, 30);
    assert!(check_log_file(&fm, "wal"));
    // a block whose boundary word is out of range is rejected
    let mut bad = Page::new(400);
    bad.set_int(0, 401);
    fm.write(&simpledb::block_id::BlockId::new("broken", 0), &bad);
    assert!(!check_log_file(&fm, "broken"));
    // a record whose length runs past the block end is rejected
    let mut bad = Page::new(400);
    bad.set_int(0, 100);
    bad.set_int(100, 9999);
    fm.write(&simpledb::block_id::BlockId::new("broken2", 0), &bad);
    assert!(!check_log_file(&fm, "broken2"));
}
