use darklua_core::number::{
    DecimalNumber, HexNumber, NumberExpression, NumberParsingError,
};

// ---------------------------------------------------------------------------
// Marker-case updates
// ---------------------------------------------------------------------------

#[test]
fn can_set_uppercase_to_number_without_exponent() {
    let mut number = DecimalNumber::new("1.0");
    number.set_uppercase(true);
    number.set_uppercase(false);

    assert_eq!(number.is_uppercase(), None);
}

#[test]
fn number_set_uppercase_change() {
    let initial_case = true;
    let modified_case = !initial_case;
    let mut number = DecimalNumber::new("1.0").with_exponent(2, initial_case);

    number.set_uppercase(modified_case);

    assert_eq!(number.is_uppercase(), Some(modified_case));
}

#[test]
fn set_uppercase_change() {
    let initial_case = true;
    let modified_case = !initial_case;
    let mut number = HexNumber::new(1, initial_case);

    number.set_uppercase(modified_case);

    assert_eq!(number.is_x_uppercase(), modified_case);
}

#[test]
fn set_uppercase_changes_hex_exponent_marker_too() {
    let mut number = HexNumber::new(1, false).with_exponent(3, false);
    number.set_uppercase(true);
    assert!(number.is_x_uppercase());
    assert_eq!(number.is_exponent_uppercase(), Some(true));
    assert_eq!(number.get_raw_integer(), 1);
    assert_eq!(number.get_exponent(), Some(3));
}

#[test]
fn set_uppercase_through_number_expression() {
    let mut number: NumberExpression = DecimalNumber::new("2.5").with_exponent(7, false).into();
    number.set_uppercase(true);
    match number {
        NumberExpression::Decimal(d) => {
            assert_eq!(d.is_uppercase(), Some(true));
            assert_eq!(d.get_exponent(), Some(7));
            assert_eq!(d.get_raw_mantissa(), "2.5");
        }
        NumberExpression::Hex(_) => panic!("expected a decimal literal"),
    }
}

// ---------------------------------------------------------------------------
// Parsing: the exact structures the grammar gives
// ---------------------------------------------------------------------------

#[test]
fn parse_zero() {
    let result = NumberExpression::from_str("0").expect("should be a valid number");
    let expect: NumberExpression = DecimalNumber::new("0").into();
    assert_eq!(result, expect);
}

#[test]
fn parse_float_with_trailing_dot() {
    let result = NumberExpression::from_str("123.").expect("should be a valid number");
    let expect: NumberExpression = DecimalNumber::new("123.").into();
    assert_eq!(result, expect);
}

#[test]
fn parse_starting_with_dot() {
    let result = NumberExpression::from_str(".123").expect("should be a valid number");
    let expect: NumberExpression = DecimalNumber::new(".123").into();
    assert_eq!(result, expect);
}

#[test]
fn parse_number_with_exponent_and_plus_symbol() {
    let result = NumberExpression::from_str("123e+456").expect("should be a valid number");
    let expect: NumberExpression = DecimalNumber::new("123").with_exponent(456, false).into();
    assert_eq!(result, expect);
}

#[test]
fn parse_number_with_upper_negative_exponent() {
    let result = NumberExpression::from_str("123E-456").expect("should be a valid number");
    let expect: NumberExpression = DecimalNumber::new("123").with_exponent(-456, true).into();
    assert_eq!(result, expect);
}

#[test]
fn parse_hex_number() {
    let result = NumberExpression::from_str("0x12").expect("should be a valid number");
    let expect: NumberExpression = HexNumber::new(18, false).into();
    assert_eq!(result, expect);
}

#[test]
fn parse_uppercase_hex_number() {
    let result = NumberExpression::from_str("0X12").expect("should be a valid number");
    let expect: NumberExpression = HexNumber::new(18, true).into();
    assert_eq!(result, expect);
}

#[test]
fn parse_hex_number_with_mixed_case() {
    let result = NumberExpression::from_str("0x1bF2A").expect("should be a valid number");
    let expect: NumberExpression = HexNumber::new(114_474, false).into();
    assert_eq!(result, expect);
}

#[test]
fn parse_hex_with_exponent() {
    let result = NumberExpression::from_str("0x12p4").expect("should be a valid number");
    let expect: NumberExpression = HexNumber::new(18, false).with_exponent(4, false).into();
    assert_eq!(result, expect);
}

#[test]
fn parse_hex_with_exponent_uppercase() {
    let result = NumberExpression::from_str("0xABP3").expect("should be a valid number");
    let expect: NumberExpression = HexNumber::new(171, false).with_exponent(3, true).into();
    assert_eq!(result, expect);
}

// ---------------------------------------------------------------------------
// Parsing: the exact error for each invalid input
// ---------------------------------------------------------------------------

#[test]
fn parse_empty_string() {
    let result = NumberExpression::from_str("").expect_err("should be an invalid number");
    assert_eq!(result, NumberParsingError::InvalidDecimalNumber);
}

#[test]
fn missing_exponent_value() {
    let result = NumberExpression::from_str("1e").expect_err("should be an invalid number");
    assert_eq!(result, NumberParsingError::InvalidDecimalExponent);
}

#[test]
fn missing_negative_exponent_value() {
    let result = NumberExpression::from_str("1e-").expect_err("should be an invalid number");
    assert_eq!(result, NumberParsingError::InvalidDecimalExponent);
}

#[test]
fn missing_hex_exponent_value() {
    let result = NumberExpression::from_str("0x1p").expect_err("should be an invalid number");
    assert_eq!(result, NumberParsingError::InvalidHexadecimalExponent);
}

#[test]
fn negative_hex_exponent_value() {
    let result = NumberExpression::from_str("0x1p-3").expect_err("should be an invalid number");
    assert_eq!(result, NumberParsingError::InvalidHexadecimalExponent);
}

#[test]
fn positive_hex_exponent_value() {
    let result = NumberExpression::from_str("0x1p+3").expect_err("should be an invalid number");
    assert_eq!(result, NumberParsingError::InvalidHexadecimalExponent);
}

#[test]
fn double_dot_is_invalid_decimal() {
    let result = NumberExpression::from_str("1..2").expect_err("should be an invalid number");
    assert_eq!(result, NumberParsingError::InvalidDecimalNumber);
}

#[test]
fn stray_letter_is_invalid_hexadecimal() {
    let result = NumberExpression::from_str("0x1g").expect_err("should be an invalid number");
    assert_eq!(result, NumberParsingError::InvalidHexadecimalNumber);
}

#[test]
fn oversized_hex_mantissa_is_invalid() {
    let result = NumberExpression::from_str("0xFFFFFFFFFFFFFFFFF")
        .expect_err("should be an invalid number");
    assert_eq!(result, NumberParsingError::InvalidHexadecimalNumber);
}

#[test]
fn oversized_hex_exponent_is_invalid() {
    let result = NumberExpression::from_str("0x1p4294967296")
        .expect_err("should be an invalid number");
    assert_eq!(result, NumberParsingError::InvalidHexadecimalExponent);
}

#[test]
fn error_messages_match_the_error_kinds() {
    assert_eq!(
        NumberParsingError::InvalidHexadecimalNumber.message(),
        "could not parse hexadecimal number"
    );
    assert_eq!(
        NumberParsingError::InvalidHexadecimalExponent.message(),
        "could not parse hexadecimal exponent"
    );
    assert_eq!(
        NumberParsingError::InvalidDecimalNumber.message(),
        "could not parse decimal number"
    );
    assert_eq!(
        NumberParsingError::InvalidDecimalExponent.message(),
        "could not parse decimal exponent"
    );
}

// ---------------------------------------------------------------------------
// Round trips through text
// ---------------------------------------------------------------------------

#[test]
fn round_trip_decimal_literals() {
    for input in ["0", "123.", ".5", "10.12", "1e10", "123e+456", "123E-456", "10.e8"] {
        let first = NumberExpression::from_str(input).expect("should be a valid number");
        let rendered = first.to_literal();
        let second = NumberExpression::from_str(&rendered).expect("rendering stays valid");
        assert_eq!(first, second);
    }
}

#[test]
fn round_trip_hex_literals() {
    for input in ["0x12", "0X12", "0x1bF2A", "0x12p4", "0xABP3", "0XFFp0"] {
        let first = NumberExpression::from_str(input).expect("should be a valid number");
        let rendered = first.to_literal();
        let second = NumberExpression::from_str(&rendered).expect("rendering stays valid");
        assert_eq!(first, second);
    }
}

#[test]
fn rendered_hex_literal_keeps_marker_case() {
    let number = NumberExpression::from_str("0XABP3").expect("should be a valid number");
    assert_eq!(number.to_literal(), "0XabP3");
}

#[test]
fn rendered_decimal_literal_keeps_mantissa_text() {
    let number = NumberExpression::from_str("10.e8").expect("should be a valid number");
    assert_eq!(number.to_literal(), "10.e8");
}

// ---------------------------------------------------------------------------
// Values
// ---------------------------------------------------------------------------

#[test]
fn hex_with_exponent_value() {
    let number = NumberExpression::from_str("0x12p4").expect("should be a valid number");
    match number {
        NumberExpression::Hex(h) => {
            let scaled = h.compute_integer_value().expect("fits in 64 bits");
            assert_eq!(scaled, 288);
            assert_eq!(scaled as f64, 288.0);
        }
        NumberExpression::Decimal(_) => panic!("expected a hexadecimal literal"),
    }
}

#[test]
fn decimal_with_negative_exponent_value() {
    let number = NumberExpression::from_str("123e-4").expect("should be a valid number");
    match number {
        NumberExpression::Decimal(d) => {
            let mantissa: f64 = d.get_raw_mantissa().parse().expect("mantissa parses");
            let exponent = d.get_exponent().expect("exponent present");
            let value = mantissa * 10_f64.powf(exponent as f64);
            assert_eq!(value, 0.0123);
        }
        NumberExpression::Hex(_) => panic!("expected a decimal literal"),
    }
}

#[test]
fn hex_value_overflow_is_reported() {
    let number = HexNumber::new(u64::MAX, false).with_exponent(1, false);
    assert_eq!(number.compute_integer_value(), None);

    let top_bit = HexNumber::new(1, false).with_exponent(63, false);
    assert_eq!(top_bit.compute_integer_value(), Some(1u64 << 63));

    let zero = HexNumber::new(0, false).with_exponent(200, false);
    assert_eq!(zero.compute_integer_value(), Some(0));

    let plain = HexNumber::new(77, true);
    assert_eq!(plain.compute_integer_value(), Some(77));
}
