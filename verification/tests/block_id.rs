use simpledb::block_id::BlockId;

#[test]
fn test_block_id() {
    let block_id = BlockId::new("test", 1);
    assert_eq!(block_id.filename(), "test");
    assert_eq!(block_id.number(), 1);
    assert_eq!(block_id.display_string(), "[file_name]: test, [block]: 1");

    let block_id2 = BlockId::new("test", 1);
    assert!(block_id == block_id2);

    let block_id3 = BlockId::new("test", 2);
    assert!(block_id != block_id3);

    let block_id4 = BlockId::new("test2", 1);
    assert!(block_id != block_id4);

    let block_id5 = BlockId::new("test2", 2);
    assert!(block_id != block_id5);
}

#[test]
fn test_block_id_hash_and_null() {
    let a = BlockId::new("users.tbl", 7);
    let b = BlockId::new("users.tbl", 7);
    assert_eq!(a.hash_code(), b.hash_code());
    assert!(!a.is_null());
    assert!(BlockId::new("", 0).is_null());

    // equal fields give equal hashes; these particular ones also differ
    let c = BlockId::new("users.tbl", 8);
    let d = BlockId::new("orders.tbl", 7);
    assert_ne!(a.hash_code(), c.hash_code());
    assert_ne!(a.hash_code(), d.hash_code());
}

#[test]
fn test_display_string_large_number() {
    let blk = BlockId::new("f", 1234567890123456789);
    assert_eq!(blk.display_string(), "[file_name]: f, [block]: 1234567890123456789");
    let zero = BlockId::new("f", 0);
    assert_eq!(zero.display_string(), "[file_name]: f, [block]: 0");
}

#[test]
fn test_hash_code_is_fnv1a_of_both_fields() {
    // fold the file name's bytes, then the number's little-endian bytes
    let blk = BlockId::new("ab", 1);
    let mut h: u64 = 0xcbf29ce484222325;
    for b in "ab".bytes().chain(1u64.to_le_bytes()) {
        h = (h ^ b as u64).wrapping_mul(0x100000001b3);
    }
    assert_eq!(blk.hash_code(), h);
}
