use jetscii::{AsciiChars, ByteSubstring, Bytes, Substring};

fn set16(items: &[u8]) -> [u8; 16] {
    let mut array = [0u8; 16];
    array[..items.len()].copy_from_slice(items);
    array
}

#[test]
fn ascii_set_finds_first_delimiter() {
    let matcher = AsciiChars::new(set16(b"-:"), 2, |b| b == b'-' || b == b':');
    assert_eq!(matcher.find("86-J52:rev1"), Some(2));
}

#[test]
fn byte_set_finds_first_member() {
    let raw_data = [0x00, 0x01, 0x10, 0xFF, 0x42];
    let matcher = Bytes::new(set16(&[0x01, 0x10]), 2, |b| b == 0x01 || b == 0x10);
    assert_eq!(matcher.find(&raw_data), Some(1));
}

#[test]
fn substring_finds_separator() {
    let colors = "red, blue, green";
    assert_eq!(Substring::new(", ").find(colors), Some(3));
}

#[test]
fn byte_substring_finds_subslice() {
    let raw_data = [0x00, 0x01, 0x10, 0xFF, 0x42];
    assert_eq!(ByteSubstring::new(&[0x10, 0xFF]).find(&raw_data), Some(2));
}

#[test]
fn empty_substring_matches_at_start() {
    assert_eq!(Substring::new("").find("abc"), Some(0));
}

#[test]
fn absent_byte_in_long_haystack() {
    let haystack = "a".repeat(1_000_000);
    let matcher = AsciiChars::new(set16(b"x"), 1, |b| b == b'x');
    assert_eq!(matcher.find(&haystack), None);
}
