use token_holders::amount::Amount;

fn amt(s: &str) -> Amount {
    Amount::parse(s).unwrap()
}

#[test]
fn parse_and_print_round_trip() {
    assert_eq!(amt("0").to_text(), "0");
    assert_eq!(amt("100").to_text(), "100");
    assert_eq!(amt("-30").to_text(), "-30");
    assert_eq!(amt("007").to_text(), "7");
    assert_eq!(amt("-0").to_text(), "0");
}

#[test]
fn parse_refuses_non_decimal_text() {
    assert!(Amount::parse("").is_none());
    assert!(Amount::parse("-").is_none());
    assert!(Amount::parse("12a").is_none());
    assert!(Amount::parse("+5").is_none());
    assert!(Amount::parse("1 000").is_none());
    assert!(Amount::parse("٣").is_none());
}

#[test]
fn add_and_sub_are_exact_past_128_bits() {
    let big = amt("115792089237316195423570985008687907853269984665640564039457584007913129639935");
    let one = amt("1");
    assert_eq!(
        big.add(&one).to_text(),
        "115792089237316195423570985008687907853269984665640564039457584007913129639936"
    );
    assert_eq!(Amount::zero().sub(&big).sub(&one).to_text(),
        "-115792089237316195423570985008687907853269984665640564039457584007913129639936");
}

#[test]
fn mixed_signs() {
    assert_eq!(amt("50").sub(&amt("80")).to_text(), "-30");
    assert_eq!(amt("-50").add(&amt("80")).to_text(), "30");
    assert_eq!(amt("-50").add(&amt("50")).to_text(), "0");
    assert_eq!(amt("-50").sub(&amt("-20")).to_text(), "-30");
    assert_eq!(amt("999").add(&amt("1")).to_text(), "1000");
    assert_eq!(amt("1000").sub(&amt("1")).to_text(), "999");
    assert_eq!(amt("12").neg().to_text(), "-12");
    assert!(amt("-1").is_negative());
    assert!(amt("-0").is_zero());
}
