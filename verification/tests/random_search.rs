use jetscii::{ByteSubstring, Bytes, Gate};
use proptest::arbitrary::any;
use proptest::collection;
use proptest::test_runner::{Config, RngAlgorithm, TestCaseError, TestRng, TestRunner};

fn runner() -> TestRunner {
    let config = Config { cases: 512, failure_persistence: None, ..Config::default() };
    TestRunner::new_with_rng(config, TestRng::deterministic_rng(RngAlgorithm::ChaCha))
}

fn padded(items: &[u8]) -> [u8; 16] {
    let mut array = [0u8; 16];
    array[..items.len()].copy_from_slice(items);
    array
}

fn check(holds: bool, what: &str) -> Result<(), TestCaseError> {
    if holds {
        Ok(())
    } else {
        Err(TestCaseError::fail(what.to_string()))
    }
}

#[test]
fn set_paths_agree_on_random_input() {
    let input = (collection::vec(any::<u8>(), 1..=16), collection::vec(any::<u8>(), 0..200));
    let outcome = runner().run(&input, |(set, haystack)| {
        let accepts = set.clone();
        let by_block = Bytes::new(padded(&set), set.len() as i32, |b| set.contains(&b));
        let by_fallback = Bytes::new(padded(&accepts), accepts.len() as i32, |b| accepts.contains(&b))
            .with_gate(Gate::Absent);
        let expected = haystack.iter().position(|b| set.contains(b));
        check(by_block.find(&haystack) == expected, "block path")?;
        check(by_fallback.find(&haystack) == expected, "fallback path")
    });
    assert!(outcome.is_ok(), "{:?}", outcome);
}

#[test]
fn set_paths_agree_on_random_sparse_input() {
    let input = (collection::vec(0u8..8, 1..=16), collection::vec(4u8..64, 0..200));
    let outcome = runner().run(&input, |(set, haystack)| {
        let accepts = set.clone();
        let by_block = Bytes::new(padded(&set), set.len() as i32, |b| set.contains(&b));
        let by_fallback = Bytes::new(padded(&accepts), accepts.len() as i32, |b| accepts.contains(&b))
            .with_gate(Gate::Absent);
        let expected = haystack.iter().position(|b| set.contains(b));
        check(by_block.find(&haystack) == expected, "block path")?;
        check(by_fallback.find(&haystack) == expected, "fallback path")
    });
    assert!(outcome.is_ok(), "{:?}", outcome);
}

#[test]
fn substring_paths_agree_on_random_input() {
    let input = (collection::vec(0u8..3, 0..6), collection::vec(0u8..3, 0..120));
    let outcome = runner().run(&input, |(needle, haystack)| {
        let expected = if needle.is_empty() {
            Some(0)
        } else {
            haystack.windows(needle.len()).position(|window| window == &needle[..])
        };
        let by_block = ByteSubstring::new(needle.clone()).find(&haystack);
        let by_fallback = ByteSubstring::new(needle.clone()).with_gate(Gate::Absent).find(&haystack);
        check(by_block == expected, "block path")?;
        check(by_fallback == expected, "fallback path")
    });
    assert!(outcome.is_ok(), "{:?}", outcome);
}

#[test]
fn substring_is_found_where_it_was_put() {
    let input = (collection::vec(any::<u8>(), 1..40), collection::vec(any::<u8>(), 0..100), collection::vec(any::<u8>(), 0..100));
    let outcome = runner().run(&input, |(needle, before, after)| {
        let mut haystack = before.clone();
        haystack.extend_from_slice(&needle);
        haystack.extend_from_slice(&after);
        let by_block = ByteSubstring::new(&needle[..]).find(&haystack);
        let by_fallback = ByteSubstring::new(&needle[..]).with_gate(Gate::Absent).find(&haystack);
        check(by_block == by_fallback, "paths differ")?;
        match by_block {
            Some(at) => {
                check(at <= before.len(), "found too late")?;
                check(&haystack[at..at + needle.len()] == &needle[..], "not an occurrence")
            }
            None => check(false, "not found"),
        }
    });
    assert!(outcome.is_ok(), "{:?}", outcome);
}
