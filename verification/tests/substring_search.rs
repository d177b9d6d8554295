use jetscii::block;
use jetscii::fallback;
use jetscii::window::equal_at;
use jetscii::{ByteSubstring, ByteView, Gate, Substring};

fn find_both(needle: &[u8], haystack: &[u8]) -> Option<usize> {
    let by_block = ByteSubstring::new(needle).find(haystack);
    let by_fallback = ByteSubstring::new(needle).with_gate(Gate::Absent).find(haystack);
    assert_eq!(by_block, by_fallback, "needle {:?} in {:?}", needle, haystack);
    assert_eq!(block::find_substring(needle, haystack), by_block);
    assert_eq!(fallback::find_substring(needle, haystack), by_block);
    by_block
}

#[test]
fn empty_needle_matches_at_start_of_any_haystack() {
    assert_eq!(find_both(b"", b""), Some(0));
    assert_eq!(find_both(b"", b"abc"), Some(0));
    assert_eq!(find_both(b"", &[0u8; 100]), Some(0));
    assert_eq!(Substring::new("").find(""), Some(0));
    assert_eq!(Substring::new_owned(String::new()).find("abc"), Some(0));
}

#[test]
fn needle_longer_than_haystack_never_matches() {
    assert_eq!(find_both(b"abcd", b"abc"), None);
    assert_eq!(find_both(b"a", b""), None);
    assert_eq!(find_both(&[b'a'; 40], &[b'a'; 39]), None);
}

#[test]
fn needle_equal_to_haystack_matches_at_start() {
    assert_eq!(find_both(b"abc", b"abc"), Some(0));
    assert_eq!(find_both(&[7u8; 33], &[7u8; 33]), Some(0));
}

#[test]
fn needle_only_at_the_very_end_is_found() {
    for len in [5usize, 15, 16, 17, 20, 31, 32, 33, 36, 1000] {
        let mut haystack = vec![b'a'; len];
        haystack[len - 5..].copy_from_slice(b"xyzzy");
        assert_eq!(find_both(b"xyzzy", &haystack), Some(len - 5), "length {}", len);
    }
}

#[test]
fn needle_across_a_block_boundary_is_found() {
    for at in 10..=20usize {
        let mut haystack = vec![b'a'; 40];
        haystack[at..at + 5].copy_from_slice(b"xyzzy");
        assert_eq!(find_both(b"xyzzy", &haystack), Some(at), "position {}", at);
    }
}

#[test]
fn search_resumes_one_byte_after_a_false_start() {
    assert_eq!(find_both(b"aab", b"aaab"), Some(1));
    assert_eq!(find_both(b"abab!", b"abababab!"), Some(4));
    assert_eq!(find_both(b"xy", b"xxxxxxxxxxxxxxxxxxxxxxy"), Some(21));
    assert_eq!(find_both(b"xy", b"xxxxxxxxxxxxxxxxxxxxxxx"), None);
}

#[test]
fn first_of_several_occurrences_wins() {
    assert_eq!(find_both(b", ", b"red, blue, green"), Some(3));
    assert_eq!(find_both(b"ab", b"abab"), Some(0));
}

#[test]
fn first_byte_near_the_end_without_room_for_the_needle() {
    assert_eq!(find_both(b"xyz", b"aaaaaaxy"), None);
    assert_eq!(find_both(b"xyz", b"aaaaaaax"), None);
}

#[test]
fn single_byte_needle() {
    assert_eq!(find_both(b"z", b"abcz"), Some(3));
    assert_eq!(find_both(&[0], &[1, 2, 0]), Some(2));
    assert_eq!(find_both(b"z", b"abc"), None);
}

#[test]
fn needle_longer_than_a_block() {
    let needle: Vec<u8> = (0u8..40).collect();
    let mut haystack = vec![0u8; 100];
    haystack[50..90].copy_from_slice(&needle);
    assert_eq!(find_both(&needle, &haystack), Some(50));
    haystack[89] = 0;
    assert_eq!(find_both(&needle, &haystack), None);
}

#[test]
fn owned_and_borrowed_needles_search_alike() {
    let colors = "red, blue, green";
    let borrowed = Substring::new("blue");
    let owned = Substring::new_owned(String::from("blue"));
    assert_eq!(borrowed.find(colors), Some(5));
    assert_eq!(owned.find(colors), Some(5));
    assert_eq!(owned.with_gate(Gate::Absent).find(colors), Some(5));
    assert_eq!(borrowed.with_gate(Gate::Probed(false)).find(colors), Some(5));
}

#[test]
fn owned_needle_holds_the_bytes_of_the_string() {
    let needle = String::from("\u{e9}t\u{e9}");
    let matcher = Substring::new_owned(needle.clone());
    assert_eq!(matcher.needle_len(), needle.len());
    assert_eq!(matcher.needle_len(), 5);
    let text = "l'\u{e9}t\u{e9} indien";
    assert_eq!(matcher.find(text), text.find(needle.as_str()));
    assert_eq!(matcher.find(text), Some(2));
}

#[test]
fn needle_len_counts_bytes() {
    assert_eq!(ByteSubstring::new(&[0x10, 0xFF]).needle_len(), 2);
    assert_eq!(ByteSubstring::new(vec![1u8, 2, 3]).needle_len(), 3);
    assert_eq!(ByteSubstring::new(&b""[..]).needle_len(), 0);
    assert_eq!(Substring::new(", ").needle_len(), 2);
    assert_eq!(Substring::new("\u{4e16}\u{754c}").needle_len(), 6);
    assert_eq!(Substring::new("").needle_len(), 0);
}

#[test]
fn string_search_lands_on_character_boundaries() {
    let text = "na\u{ef}ve caf\u{e9} \u{4e16}\u{754c} caf\u{e9}";
    for needle in ["caf\u{e9}", "\u{e9}", "\u{754c}", " ", "", "\u{4e16}\u{754c} c"] {
        let found = Substring::new(needle).find(text);
        assert_eq!(found, text.find(needle), "needle {:?}", needle);
        assert!(text.is_char_boundary(found.unwrap()));
    }
    assert_eq!(Substring::new("\u{e8}").find(text), None);
}

#[test]
fn repeated_substring_search_gives_the_same_answer() {
    let matcher = Substring::new(", ");
    let first = matcher.find("red, blue, green");
    for _ in 0..10 {
        assert_eq!(matcher.find("red, blue, green"), first);
    }
}

#[test]
fn byte_views_of_owned_and_borrowed_needles() {
    let array = [1u8, 2, 3];
    let vector = vec![1u8, 2, 3];
    let slice: &[u8] = &array;
    assert_eq!((&array).as_byte_slice(), &[1, 2, 3]);
    assert_eq!(vector.as_byte_slice(), &[1, 2, 3]);
    assert_eq!(slice.as_byte_slice(), &[1, 2, 3]);
    assert_eq!(ByteSubstring::new(vector).find(&[0, 1, 2, 3]), Some(1));
}

#[test]
fn comparison_of_a_stretch_with_a_needle() {
    assert!(equal_at(b"hello world", 6, b"world"));
    assert!(!equal_at(b"hello world", 5, b"world"));
    assert!(equal_at(b"hello", 5, b""));
    assert!(equal_at(b"", 0, b""));
    assert!(!equal_at(b"hello", 0, b"hellp"));
    assert!(!equal_at(b"hello", 3, b"lo!"));
    assert!(!equal_at(b"hello", 6, b""));
    assert!(!equal_at(b"hello", usize::MAX, b"h"));
}
