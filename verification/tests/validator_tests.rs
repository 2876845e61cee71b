use pointctl::validator::{is_float, is_integer, is_usize, parse_i32, parse_usize};

#[test]
fn integers_are_accepted() {
    assert_eq!(is_integer("12".to_string()), Ok(()));
    assert_eq!(is_integer("-2147483648".to_string()), Ok(()));
    assert_eq!(is_integer("+2147483647".to_string()), Ok(()));
    assert_eq!(is_integer("007".to_string()), Ok(()));
}

#[test]
fn non_integers_are_rejected_with_message() {
    assert_eq!(
        is_integer("2147483648".to_string()),
        Err("`2147483648` is not an integer".to_string())
    );
    assert_eq!(is_integer("".to_string()), Err("`` is not an integer".to_string()));
    assert_eq!(is_integer("-".to_string()), Err("`-` is not an integer".to_string()));
    assert_eq!(is_integer("1.0".to_string()), Err("`1.0` is not an integer".to_string()));
    assert_eq!(is_integer(" 1".to_string()), Err("` 1` is not an integer".to_string()));
    assert_eq!(is_integer("-2147483649".to_string()), Err("`-2147483649` is not an integer".to_string()));
}

#[test]
fn usize_validation() {
    assert_eq!(is_usize("0".to_string()), Err("`0` is not an positive integer".to_string()));
    assert_eq!(is_usize("000".to_string()), Err("`000` is not an positive integer".to_string()));
    assert_eq!(is_usize("-1".to_string()), Err("`-1` is not an positive integer".to_string()));
    assert_eq!(is_usize("1".to_string()), Ok(()));
    assert_eq!(is_usize("+3".to_string()), Ok(()));
    assert_eq!(is_usize(usize::MAX.to_string()), Ok(()));
    assert_eq!(
        is_usize("-0".to_string()),
        Err("`-0` is not an positive integer".to_string())
    );
    assert_eq!(
        is_usize("18446744073709551616".to_string()),
        Err("`18446744073709551616` is not an positive integer".to_string())
    );
    assert_eq!(is_usize("12a".to_string()), Err("`12a` is not an positive integer".to_string()));
}

#[test]
fn parsed_values_match_std() {
    let samples = [
        "0", "1", "-1", "+1", "42", "-2147483648", "2147483647", "2147483648", "-2147483649",
        "", "+", "-", "--1", "+-1", "1_000", "١", "9999999999999999999999", "00000000000000000000123",
        " 5", "5 ", "0x10",
    ];
    for s in samples.iter() {
        assert_eq!(parse_i32(s), s.parse::<i32>().ok(), "i32 of {:?}", s);
        assert_eq!(parse_usize(s), s.parse::<usize>().ok(), "usize of {:?}", s);
    }
    assert_eq!(parse_i32("-17"), Some(-17));
    assert_eq!(parse_usize("+17"), Some(17));
}

#[test]
fn floats_follow_the_std_grammar() {
    let samples = [
        "0", "0.0", "1.", ".5", ".", "-.5", "+1.5e10", "1e", "1e+", "1e-7", "1E7", "e7", "inf",
        "-inf", "+infinity", "Infinity", "INF", "NaN", "nan", "-nan", "infin", "1.2.3", " 1.0",
        "1.0 ", "", "+", "-", "1,5", "0.5f", "12345678901234567890.12345678901234567890",
        "1e999", "-0", "١", "+.e1", "1.e5", ".1e-5",
    ];
    for s in samples.iter() {
        assert_eq!(
            is_float(s.to_string()).is_ok(),
            s.parse::<f32>().is_ok(),
            "float grammar of {:?}",
            s
        );
    }
}

#[test]
fn float_rejection_message() {
    assert_eq!(is_float("abc".to_string()), Err("`abc` is not a float".to_string()));
    assert_eq!(is_float("0.25".to_string()), Ok(()));
}
