use simpledb::page::DecodeError;
use simpledb::page::Page;

#[test]
fn test_set_get_string() {
    // Test that we can set and get a string
    let mut page = Page::new(4096);
    let s = "Hello, world!";
    page.set_string(0, s);
    assert_eq!(page.get_string(0).unwrap(), s);

    // Test with larger string
    page.set_string(
        100,
        "Hello, world! This is a longer string.Hello, world! This is a longer string.Hello, world! This is a longer string",
    );
    assert_eq!(
        page.get_string(100).unwrap(),
        "Hello, world! This is a longer string.Hello, world! This is a longer string.Hello, world! This is a longer string"
    );
}

#[test]
fn test_set_get_int() {
    let mut page = Page::new(400);
    page.set_int(80, 0);
    assert_eq!(page.get_int(80), 0);
    page.set_int(80, 12345);
    assert_eq!(page.get_int(80), 12345);
    page.set_int(396, u32::MAX);
    assert_eq!(page.get_int(396), u32::MAX);
    // little-endian layout of the stored word
    page.set_int(0, 0x0403_0201);
    assert_eq!(page.contents()[0..4], [1, 2, 3, 4]);
}

#[test]
fn test_set_get_bytes() {
    let mut page = Page::new(128);
    let payload = vec![9u8, 8, 7, 6, 5];
    page.set_bytes(10, &payload);
    assert_eq!(page.get_bytes(10), payload);
    assert_eq!(page.get_int(10), 5);
    // an empty blob round-trips too
    page.set_bytes(40, &[]);
    assert_eq!(page.get_bytes(40), Vec::<u8>::new());
}

#[test]
fn test_adjacent_fields_do_not_overlap() {
    let mut page = Page::new(400);
    let pos1 = 88;
    let content = "abcdefghijklm";
    page.set_string(pos1, content);
    let pos2 = pos1 + Page::max_length(content.len());
    page.set_int(pos2, 345);
    assert_eq!(page.get_string(pos1).unwrap(), content);
    assert_eq!(page.get_int(pos2), 345);
}

#[test]
fn test_get_string_invalid_utf8() {
    let mut page = Page::new(64);
    // a length-prefixed field holding bytes that are not UTF-8
    page.set_bytes(0, &[0xff, 0xfe, 0x41]);
    assert_eq!(page.get_string(0), Err(DecodeError::InvalidUtf8));
    // multibyte text survives the round trip
    page.set_string(16, "héllo wörld ✓");
    assert_eq!(page.get_string(16).unwrap(), "héllo wörld ✓");
}

#[test]
fn test_new_is_zero_filled_and_from_bytes_wraps() {
    let page = Page::new(32);
    assert_eq!(page.len(), 32);
    assert!(page.contents().iter().all(|b| *b == 0));
    let wrapped = Page::from_bytes(&[1, 2, 3, 4, 5, 0, 0, 0]);
    assert_eq!(wrapped.len(), 8);
    assert_eq!(wrapped.get_int(0), 0x04030201);
    assert_eq!(wrapped.get_int(4), 5);
}

#[test]
fn test_max_length() {
    assert_eq!(Page::max_length(0), 4);
    assert_eq!(Page::max_length(13), 17);
}
