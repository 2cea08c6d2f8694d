use perpetuo::text::{push_decimal, push_joined, push_millis, push_signed};

fn decimal(n: u64) -> String {
    let mut out = String::new();
    push_decimal(&mut out, n);
    out
}

fn signed(n: i32) -> String {
    let mut out = String::new();
    push_signed(&mut out, n);
    out
}

fn millis(nanos: u64) -> String {
    let mut out = String::new();
    push_millis(&mut out, nanos);
    out
}

fn joined(words: &[&str], separator: &str) -> String {
    let mut out = String::new();
    let words: Vec<String> = words.iter().map(|word| word.to_string()).collect();
    push_joined(&mut out, &words, separator);
    out
}

#[test]
fn decimals_have_no_leading_zeros() {
    assert_eq!(decimal(0), "0");
    assert_eq!(decimal(7), "7");
    assert_eq!(decimal(10), "10");
    assert_eq!(decimal(1234567890), "1234567890");
    assert_eq!(decimal(u64::MAX), "18446744073709551615");
}

#[test]
fn decimals_agree_with_the_standard_library() {
    for n in [0u64, 9, 99, 100, 101, 4096, 999_999, 1_000_000, u64::MAX / 3] {
        assert_eq!(decimal(n), n.to_string());
    }
}

#[test]
fn decimals_are_appended() {
    let mut out = "line ".to_string();
    push_decimal(&mut out, 42);
    assert_eq!(out, "line 42");
}

#[test]
fn negative_numbers_carry_a_sign() {
    assert_eq!(signed(0), "0");
    assert_eq!(signed(17), "17");
    assert_eq!(signed(-1), "-1");
    assert_eq!(signed(-4096), "-4096");
    assert_eq!(signed(i32::MAX), "2147483647");
    assert_eq!(signed(i32::MIN), "-2147483648");
}

#[test]
fn whole_milliseconds_have_no_point() {
    assert_eq!(millis(0), "0");
    assert_eq!(millis(1_000_000), "1");
    assert_eq!(millis(250_000_000), "250");
    assert_eq!(millis(90_000_000_000), "90000");
}

#[test]
fn fractions_of_milliseconds_lose_their_trailing_zeros() {
    assert_eq!(millis(250_500_000), "250.5");
    assert_eq!(millis(1), "0.000001");
    assert_eq!(millis(1_000), "0.001");
    assert_eq!(millis(999_999), "0.999999");
    assert_eq!(millis(200_010_000), "200.01");
    assert_eq!(millis(1_234_567_890), "1234.56789");
    assert_eq!(millis(u64::MAX), "18446744073709.551615");
}

#[test]
fn milliseconds_read_like_the_floating_point_number() {
    for nanos in [0u64, 1, 250_000_000, 250_500_000, 200_010_000, 1_234_567_890, 30_000_000_001] {
        assert_eq!(millis(nanos), format!("{}", nanos as f64 / 1_000_000.0));
    }
}

#[test]
fn words_are_joined_by_the_separator() {
    assert_eq!(joined(&[], " "), "");
    assert_eq!(joined(&["python"], " "), "python");
    assert_eq!(joined(&["python", "-m", "app"], " "), "python -m app");
    assert_eq!(joined(&["a", "", "b"], ", "), "a, , b");
    assert_eq!(joined(&["a", "b"], ""), "ab");
}
