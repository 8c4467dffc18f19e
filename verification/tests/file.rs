use simpledb::block_id::BlockId;
use simpledb::file_manager::FileManager;
use simpledb::page::Page;

#[test]
fn test_file() {
    let mut fm = FileManager::new(400);
    assert_eq!(fm.block_size(), 400);
    let block_id = BlockId::new("test_file", 2);
    let mut p1 = Page::new(fm.block_size());
    let pos1 = 88;
    let content = String::from("abcdefghijklm");
    p1.set_string(pos1, &content);
    assert_eq!(p1.get_string(pos1).unwrap(), content);
    let size = Page::max_length(content.len());
    let pos2 = pos1 + size;

    p1.set_int(pos2, 345);

    fm.write(&block_id, &p1);

    let mut p2 = Page::new(fm.block_size());
    fm.read(&block_id, &mut p2);

    assert_eq!(p2.get_string(pos1).unwrap(), content);
    assert_eq!(p2.get_int(pos2), 345);
}

#[test]
fn test_write_extends_with_zero_blocks() {
    let mut fm = FileManager::new(64);
    let mut page = Page::new(64);
    page.set_int(0, 77);
    // writing block 2 of a fresh file creates zero-filled blocks 0 and 1
    fm.write(&BlockId::new("data", 2), &page);
    assert_eq!(fm.length("data"), 3);
    let mut readback = Page::new(64);
    fm.read(&BlockId::new("data", 0), &mut readback);
    assert!(readback.contents().iter().all(|b| *b == 0));
    fm.read(&BlockId::new("data", 2), &mut readback);
    assert_eq!(readback.get_int(0), 77);
}

#[test]
fn test_short_read_leaves_page_untouched() {
    let fm = FileManager::new(64);
    let mut page = Page::from_bytes(&[42u8; 64]);
    // the file does not exist: the destination keeps its bytes
    fm.read(&BlockId::new("absent", 0), &mut page);
    assert!(page.contents().iter().all(|b| *b == 42));
    assert_eq!(fm.length("absent"), 0);
}

#[test]
fn test_append_returns_next_block() {
    let mut fm = FileManager::new(32);
    let b0 = fm.append("grow");
    let b1 = fm.append("grow");
    assert_eq!(b0.number(), 0);
    assert_eq!(b1.number(), 1);
    assert_eq!(b0.filename(), "grow");
    assert_eq!(fm.length("grow"), 2);
    // files are independent
    assert_eq!(fm.length("other"), 0);
}
