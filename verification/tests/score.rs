use mail_relay::score::parse_score;

fn gt(a: &str, b: &str) -> bool {
    parse_score(a).exceeds(&parse_score(b))
}

#[test]
fn integer_length_decides() {
    assert!(gt("10", "9"));
    assert!(!gt("9", "10"));
}

#[test]
fn equal_integers_compare_fractions() {
    assert!(gt("0.1", "0.05"));
    assert!(!gt("0.05", "0.1"));
    assert!(gt("5.25", "5.2"));
}

#[test]
fn equal_values_do_not_exceed() {
    assert!(!gt("5.0", "5"));
    assert!(!gt("5", "5.0"));
    assert!(!gt("0", "-0"));
}

#[test]
fn signs_order_correctly() {
    assert!(gt("0", "-3"));
    assert!(gt("-2", "-3"));
    assert!(!gt("-3", "-2"));
    assert!(!gt("-1", "1"));
}

#[test]
fn leading_and_trailing_zeros_ignored() {
    assert!(!gt("007.50", "7.5"));
    assert!(!gt("7.5", "007.50"));
}

#[test]
fn unparsable_counts_as_zero() {
    assert!(!gt("abc", "0"));
    assert!(!gt("0", "abc"));
    assert!(gt("1e3", "-1"));
    assert!(!gt("1e3", "0"));
}
