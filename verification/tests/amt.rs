use payment_engine::{parse_amt, Amt};

#[test]
fn amt_test_invalid_amt_strings() {
    assert!(parse_amt("1.23456").is_err());
    assert!(parse_amt("1a1.23456").is_err());
    assert!(parse_amt("1.2a34").is_err());
    assert!(parse_amt("1.").is_err());
    assert!(parse_amt("a").is_err());
    assert!(parse_amt("").is_err());
    assert!(
        parse_amt(
            "9999999999999999999999999999999999999999999999999999999999999999999999999999999"
        )
        .is_err()
    );
    assert!(parse_amt("--1.2345").is_err());
    assert!(parse_amt("++1.2345").is_err());
    assert!(parse_amt("+-1.2345").is_err());
    assert!(parse_amt("-+1.2345").is_err());
}

#[test]
fn amt_test_valid_amt_strings() {
    assert_eq!(parse_amt("1.2345").unwrap(), Amt(12345));
    assert_eq!(parse_amt("-1.2345").unwrap(), Amt(-12345));
    assert_eq!(parse_amt("+1.2345").unwrap(), Amt(12345));
    assert_eq!(
        parse_amt("19053420985320985.2345").unwrap(),
        Amt(190534209853209852345)
    );
    assert_eq!(parse_amt("1").unwrap(), Amt(10000));
    assert_eq!(parse_amt("1.2").unwrap(), Amt(12000));
    assert_eq!(parse_amt("1.23").unwrap(), Amt(12300));
    assert_eq!(parse_amt("1.234").unwrap(), Amt(12340));
}

#[test]
fn amt_test_valid_amt_string_serialize_into_deserialze() {
    let test_strings = [
        "1.234",
        "1.23",
        "1.2",
        "19053420985320985.2345",
        "-1.2345",
        "1.2345",
        "0.0",
    ];
    let non_normalized_values = [
        ("1.00", "1.0"),
        ("-1", "-1.0"),
        ("+1", "1.0"),
        ("1", "1.0"),
        ("-0", "0.0"),
        ("+0", "0.0"),
        ("0", "0.0"),
        ("+1.2345", "1.2345"),
    ];

    for test_string in test_strings {
        let amt: Amt = parse_amt(test_string).unwrap();
        assert_eq!(amt.to_string(), test_string, "failed for '{test_string}'");
    }
    for (test_string_non_normalized, expected_normalization_string) in non_normalized_values {
        let amt: Amt = parse_amt(test_string_non_normalized).unwrap();
        assert_eq!(
            amt.to_string(),
            expected_normalization_string,
            "failed for '{test_string_non_normalized}'"
        );
    }
}

