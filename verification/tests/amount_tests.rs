use oredash::amount::parse_amount;

#[test]
fn whole_number() {
    assert_eq!(parse_amount("12"), 12_000_000_000);
}

#[test]
fn decimal_number() {
    assert_eq!(parse_amount("12.5"), 12_500_000_000);
}

#[test]
fn leading_dot() {
    assert_eq!(parse_amount(".5"), 500_000_000);
}

#[test]
fn trailing_dot() {
    assert_eq!(parse_amount("1."), 1_000_000_000);
}

#[test]
fn noise_is_stripped() {
    assert_eq!(parse_amount("  34,567.25 ORE"), 34_567_250_000_000);
}

#[test]
fn no_digits_gives_zero() {
    assert_eq!(parse_amount("no digits here!"), 0);
    assert_eq!(parse_amount(""), 0);
    assert_eq!(parse_amount("ORE"), 0);
}

#[test]
fn lone_dot_gives_zero() {
    assert_eq!(parse_amount("."), 0);
    assert_eq!(parse_amount("..."), 0);
}

#[test]
fn two_dots_give_zero() {
    assert_eq!(parse_amount("1.2.3"), 0);
}

#[test]
fn nine_fraction_digits_exact() {
    assert_eq!(parse_amount("1.000000009"), 1_000_000_009);
}

#[test]
fn fraction_digits_beyond_nine_dropped() {
    assert_eq!(parse_amount("0.0000000019"), 1);
}

#[test]
fn huge_value_saturates() {
    assert_eq!(parse_amount("99999999999999999999999999"), u64::MAX);
}
