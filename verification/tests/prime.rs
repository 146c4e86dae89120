use protohackers::prime::{can_test, classify, is_prime, Kind};

#[test]
fn small_primes() {
    for number in ["2", "3", "5", "7", "11", "13", "97", "7919", "104729"] {
        assert!(is_prime(number));
    }
}

#[test]
fn small_composites() {
    for number in ["0", "1", "4", "6", "8", "9", "15", "91", "7917", "104730", "1000000"] {
        assert!(!is_prime(number));
    }
}

#[test]
fn numbers_up_to_a_thousand() {
    for n in 0u32..1000 {
        let expected = n >= 2 && (2..n).all(|d| n % d != 0);
        assert_eq!(is_prime(&n.to_string()), expected);
    }
}

#[test]
fn numbers_near_the_top_of_64_bits() {
    // the largest prime below 2^64
    assert!(is_prime("18446744073709551557"));
    assert!(!is_prime("18446744073709551615"));
    assert!(!is_prime("18446744073709551556"));
    // a product of two primes near 2^32
    assert!(!is_prime("18446744030759878681"));
    // strong pseudoprime to bases 2, 3, 5 and 7
    assert!(!is_prime("3215031751"));
}

#[test]
fn leading_zeros_do_not_matter() {
    assert!(is_prime("007"));
    assert!(!is_prime("0009"));
    assert!(is_prime("000000000000000000000000000000000000013"));
}

#[test]
fn large_even_numbers_are_not_prime() {
    assert!(!is_prime("340282366920938463463374607431768211456"));
    assert!(!is_prime("100000000000000000000000000000000000000000000000000"));
}

#[test]
fn negative_numbers_are_not_prime() {
    assert!(!is_prime("-7"));
    assert!(!is_prime("-2"));
    assert!(!is_prime("-0"));
    assert!(!is_prime("-7.0"));
    assert!(!is_prime("-1e5"));
}

#[test]
fn fractions_are_not_prime() {
    assert!(!is_prime("7.5"));
    assert!(!is_prime("7.01"));
    assert!(!is_prime("2.0000001"));
    assert!(!is_prime("7.0e1"));
    assert!(!is_prime("x.1"));
}

#[test]
fn zero_fractions_are_ignored() {
    assert!(is_prime("7.0"));
    assert!(is_prime("13.000"));
    assert!(is_prime("13."));
    assert!(!is_prime("8.0"));
}

#[test]
fn texts_are_taken_apart() {
    assert!(matches!(classify("17"), Kind::Natural("17")));
    assert!(matches!(classify("17.00"), Kind::Natural("17")));
    assert!(matches!(classify("0"), Kind::Natural("0")));
    assert!(matches!(classify("-17"), Kind::NotNatural));
    assert!(matches!(classify("17.5"), Kind::NotNatural));
    assert!(matches!(classify("17.0.0"), Kind::NotNatural));
    assert!(matches!(classify("1e5"), Kind::Unreadable));
    assert!(matches!(classify(""), Kind::Unreadable));
    assert!(matches!(classify(".0"), Kind::Unreadable));
    assert!(matches!(classify("+5"), Kind::Unreadable));
    assert!(matches!(classify("1_000"), Kind::Unreadable));
    assert!(matches!(classify("\u{663}"), Kind::Unreadable));
    assert!(matches!(classify("12a"), Kind::Unreadable));
}

#[test]
fn testable_texts() {
    for number in ["0", "17", "-17", "17.5", "17.0", "-x", "x.5", "123456789012345678901234567890"] {
        assert!(can_test(number));
    }
    for number in ["", "1e5", ".0", "x", "1 ", "+5", "0x10"] {
        assert!(!can_test(number));
    }
}

#[test]
fn only_natural_numbers_that_pass_the_test_are_prime() {
    assert!(Kind::Natural("7").verdict(true));
    assert!(!Kind::Natural("7").verdict(false));
    assert!(!Kind::NotNatural.verdict(true));
    assert!(!Kind::NotNatural.verdict(false));
    assert!(!Kind::Unreadable.verdict(true));
    assert!(!Kind::Unreadable.verdict(false));
    // the verdict goes by what the test said, not by the digits
    assert!(Kind::Natural("8").verdict(true));
}
