use smvr::component::order::{bytes_less, components_equal, components_less};
use smvr::decimal::{push_decimal, read_number};
use smvr::text::{every_digit, is_alphanumeric, is_digit};
use smvr::PrereleaseComponent;

#[test]
fn digits_are_read_as_a_number() {
    assert_eq!(read_number(b"0"), 0);
    assert_eq!(read_number(b"7"), 7);
    assert_eq!(read_number(b"1234"), 1234);
    assert_eq!(read_number(b"000120"), 120);
    assert_eq!(read_number(b"4294967295"), 4294967295);
}

#[test]
fn no_digits_are_read_as_zero() {
    assert_eq!(read_number(b""), 0);
}

#[test]
fn the_largest_number_is_read_and_the_next_gives_zero() {
    let largest = usize::MAX.to_string();

    assert_eq!(read_number(largest.as_bytes()), usize::MAX);

    let mut next = largest.into_bytes();
    let last = next.len() - 1;
    next[last] += 1;

    assert_eq!(read_number(&next), 0);
    assert_eq!(read_number(b"99999999999999999999999999999999999999999"), 0);
}

#[test]
fn numbers_are_written_in_decimal() {
    let mut out = String::from("v");

    push_decimal(&mut out, 0);
    push_decimal(&mut out, 10);
    push_decimal(&mut out, 907);

    assert_eq!(out, "v010907");

    let mut largest = String::new();

    push_decimal(&mut largest, usize::MAX);

    assert_eq!(largest, usize::MAX.to_string());
}

#[test]
fn bytes_are_classed() {
    for byte in 0..=255u8 {
        assert_eq!(is_digit(byte), byte.is_ascii_digit());
        assert_eq!(is_alphanumeric(byte), byte.is_ascii_alphanumeric());
    }

    assert!(every_digit(b"0123456789"));
    assert!(every_digit(b""));
    assert!(!every_digit(b"12a"));
    assert!(!every_digit(b"-1"));
}

#[test]
fn bytes_are_ordered_lexicographically() {
    assert!(bytes_less(b"", b"a"));
    assert!(bytes_less(b"a", b"ab"));
    assert!(bytes_less(b"ab", b"b"));
    assert!(bytes_less(b"10", b"2"));
    assert!(!bytes_less(b"a", b"a"));
    assert!(!bytes_less(b"b", b"ab"));
    assert!(!bytes_less(b"", b""));
}

#[test]
fn component_lists_are_compared_from_the_left() {
    let a = vec![
        PrereleaseComponent::String("beta".to_string()),
        PrereleaseComponent::Number(2),
    ];
    let b = vec![
        PrereleaseComponent::String("beta".to_string()),
        PrereleaseComponent::Number(10),
    ];

    assert!(components_less(&a, &b));
    assert!(!components_less(&b, &a));
    assert!(!components_less(&a, &a));
    assert!(components_equal(&a, &a));
    assert!(!components_equal(&a, &b));
}
