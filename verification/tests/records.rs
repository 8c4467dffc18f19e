use simpledb::block_id::BlockId;
use simpledb::file_manager::FileManager;
use simpledb::log_manager::LogManager;
use simpledb::log_record::create_log_record;
use simpledb::log_record::LogRecord;
use simpledb::log_record::Op;
use simpledb::log_record::TransactionError;
use simpledb::page::Page;
use simpledb::setstring_record::SetStringRecord;

#[test]
fn test_op_try_from() {
    assert!(matches!(Op::try_from(0), Ok(Op::CheckPoint)));
    assert!(matches!(Op::try_from(1), Ok(Op::Start)));
    assert!(matches!(Op::try_from(2), Ok(Op::Commit)));
    assert!(matches!(Op::try_from(3), Ok(Op::Rollback)));
    assert!(matches!(Op::try_from(4), Ok(Op::SetInt)));
    assert!(matches!(Op::try_from(5), Ok(Op::SetString)));
    assert!(Op::try_from(6).is_err());
}

#[test]
fn test_setstring_record_round_trip() {
    // write a string-update record to the log, read it back through the
    // iterator, and decode it with the shared decoder
    let mut fm = FileManager::new(400);
    let mut lm = LogManager::new(&mut fm, "wal");
    let blk = BlockId::new("users.tbl", 3);
    let lsn = SetStringRecord::write_to_log(&mut lm, &mut fm, 17, &blk, 40, "alice");
    assert_eq!(lsn, 1);

    let mut itr = lm.iterator(&mut fm);
    let bytes = itr.next(&fm).unwrap();
    let page = Page::from_bytes(&bytes);
    assert_eq!(page.get_int(0), 5);
    let rec = SetStringRecord::new(page).unwrap();
    assert_eq!(rec.tx_number(), Some(17));
    assert_eq!(rec.op(), Op::SetString);

    match create_log_record(bytes).unwrap() {
        LogRecord::SetString(r) => {
            assert_eq!(r.tx_number(), Some(17));
        },
        _ => panic!("decoded the wrong record kind"),
    }
}

#[test]
fn test_create_log_record_kinds() {
    // a start marker: tag 1 then the transaction number
    let mut page = Page::new(16);
    page.set_int(0, 1);
    page.set_int(4, 33);
    match create_log_record(page.contents().to_vec()).unwrap() {
        LogRecord::Start(r) => assert_eq!(r.tx_number(), Some(33)),
        _ => panic!("expected a start record"),
    }
    // a rollback marker: tag 3
    let mut page = Page::new(16);
    page.set_int(0, 3);
    page.set_int(4, 7);
    match create_log_record(page.contents().to_vec()).unwrap() {
        LogRecord::Rollback(r) => assert_eq!(r.tx_number(), Some(7)),
        _ => panic!("expected a rollback record"),
    }
    // a checkpoint: tag 0, no fields
    let mut page = Page::new(16);
    page.set_int(0, 0);
    match create_log_record(page.contents().to_vec()).unwrap() {
        LogRecord::CheckPoint(r) => assert!(r.tx_number().is_none()),
        _ => panic!("expected a checkpoint record"),
    }
}

#[test]
fn test_create_log_record_unknown_tag() {
    let mut page = Page::new(16);
    page.set_int(0, 6);
    assert!(matches!(
        create_log_record(page.contents().to_vec()),
        Err(TransactionError::General)
    ));
}

#[test]
fn test_create_log_record_bad_string() {
    // tag 5 with a file name field that is not UTF-8
    let mut page = Page::new(64);
    page.set_int(0, 5);
    page.set_int(4, 1);
    page.set_bytes(8, &[0xff, 0xfe]);
    // block number, offset, then an empty value string
    page.set_int(14, 0);
    page.set_int(18, 0);
    page.set_int(22, 0);
    assert!(matches!(
        create_log_record(page.contents().to_vec()),
        Err(TransactionError::Decode)
    ));
}
