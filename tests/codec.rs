use micro_url::codec::{from_short_code, to_short_code};
use micro_url::counter::{Counter, CounterError, COUNTER_BASE};

#[test]
fn value_63_is_last_symbol() {
    assert_eq!(to_short_code(63), "_");
}

#[test]
fn value_64_is_one_zero() {
    assert_eq!(to_short_code(64), "10");
}

#[test]
fn value_62_is_dash() {
    assert_eq!(to_short_code(62), "-");
}

#[test]
fn single_digits_follow_the_alphabet() {
    assert_eq!(to_short_code(1), "1");
    assert_eq!(to_short_code(10), "A");
    assert_eq!(to_short_code(35), "Z");
    assert_eq!(to_short_code(36), "a");
    assert_eq!(to_short_code(61), "z");
}

#[test]
fn zero_is_the_empty_code() {
    assert_eq!(to_short_code(0), "");
}

#[test]
fn largest_value_round_trips() {
    let code = to_short_code(u64::MAX);
    assert_eq!(code, "F__________");
    assert_eq!(from_short_code(&code), Some(u64::MAX));
}

#[test]
fn decoding_reverses_encoding() {
    for n in [1u64, 63, 64, 65, 4095, 4096, 100000000001, 987654321987] {
        assert_eq!(from_short_code(&to_short_code(n)), Some(n));
    }
}

#[test]
fn decoding_refuses_foreign_characters() {
    assert_eq!(from_short_code("ab!"), None);
    assert_eq!(from_short_code("a b"), None);
}

#[test]
fn decoding_refuses_values_beyond_u64() {
    assert_eq!(from_short_code("G__________"), None);
    assert_eq!(from_short_code("100000000000"), None);
}

#[test]
fn counter_codes_are_distinct_and_increasing() {
    let mut counter = Counter::seeded(5).unwrap();
    assert_eq!(counter.value(), COUNTER_BASE + 5);
    let mut last: Option<u64> = None;
    let mut seen: Vec<String> = Vec::new();
    for _ in 0..200 {
        let code = counter.increment().unwrap();
        assert!(!seen.contains(&code));
        let value = from_short_code(&code).unwrap();
        if let Some(prev) = last {
            assert!(value > prev);
            assert!(code.len() >= to_short_code(prev).len());
        }
        last = Some(value);
        seen.push(code);
    }
    assert_eq!(counter.value(), COUNTER_BASE + 205);
    assert_eq!(last, Some(COUNTER_BASE + 205));
}

#[test]
fn counter_starts_after_its_seed() {
    let mut counter = Counter::new(63);
    assert_eq!(counter.increment(), Ok("10".to_string()));
    assert_eq!(counter.value(), 64);
}

#[test]
fn counter_stops_at_the_largest_value() {
    let mut counter = Counter::new(u64::MAX - 1);
    assert_eq!(counter.increment(), Ok("F__________".to_string()));
    assert_eq!(counter.increment(), Err(CounterError::Exhausted));
    assert_eq!(counter.value(), u64::MAX);
}

#[test]
fn seeding_past_the_largest_value_fails() {
    assert!(matches!(Counter::seeded(u64::MAX), Err(CounterError::Exhausted)));
    assert_eq!(Counter::seeded(0).unwrap().value(), COUNTER_BASE);
}

#[test]
fn seeded_counter_never_hands_out_the_empty_code() {
    let mut counter = Counter::seeded(0).unwrap();
    let code = counter.increment().unwrap();
    assert!(!code.is_empty());
    assert_eq!(from_short_code(&code), Some(COUNTER_BASE + 1));
}
