use nconv::convert_base;
use nconv::ConversionError;
use nconv::NumSystem;

#[test]
fn convert_base_handles_valid_prefixes_correctly() -> Result<(), ConversionError> {
    assert_eq!(convert_base("0xFF", NumSystem::Hex, NumSystem::Dec)?, "255");
    assert_eq!(convert_base("0b1010", NumSystem::Bin, NumSystem::Dec)?, "10");
    assert_eq!(convert_base("0o77", NumSystem::Oct, NumSystem::Dec)?, "63");
    Ok(())
}

#[test]
fn convert_base_returns_invalid_base_error_when_given_incorrect_src_prefix() {
    // Test hex prefix with binary base
    match convert_base("0xFF", NumSystem::Bin, NumSystem::Dec) {
        Err(ConversionError::InvalidBase) => (),
        _ => panic!("Expected InvalidBase error for hex prefix with binary base"),
    }

    // Test binary prefix with hex base
    match convert_base("0b10", NumSystem::Hex, NumSystem::Dec) {
        Err(ConversionError::InvalidBase) => (),
        _ => panic!("Expected InvalidBase error for binary prefix with hex base"),
    }

    // Test octal prefix with binary base
    match convert_base("0o77", NumSystem::Bin, NumSystem::Dec) {
        Err(ConversionError::InvalidBase) => (),
        _ => panic!("Expected InvalidBase error for octal prefix with binary base"),
    }
}

#[test]
fn convert_base_successfully_converts_when_prefix_is_excluded() -> Result<(), ConversionError> {
    // Non-prefixed numbers should work
    assert_eq!(convert_base("FF", NumSystem::Hex, NumSystem::Dec)?, "255");
    assert_eq!(convert_base("1010", NumSystem::Bin, NumSystem::Dec)?, "10");
    assert_eq!(convert_base("77", NumSystem::Oct, NumSystem::Dec)?, "63");
    Ok(())
}

#[test]
fn convert_base_returns_invalid_digit_error_on_invalid_digits() {
    assert!(matches!(
        convert_base("0xGG", NumSystem::Hex, NumSystem::Dec),
        Err(ConversionError::InvalidDigit(_))
    ));
    assert!(matches!(
        convert_base("0b12", NumSystem::Bin, NumSystem::Dec),
        Err(ConversionError::InvalidDigit(_))
    ));
    assert!(matches!(
        convert_base("0o89", NumSystem::Oct, NumSystem::Dec),
        Err(ConversionError::InvalidDigit(_))
    ));
}

#[test]
fn convert_base_returns_number_overflow_when_given_greater_than_128_bit_number() {
    // Test with even larger numbers that will definitely overflow
    let large_hex = format!("0x{}", "F".repeat(256)); // Much larger hex number
    let large_bin = format!("0b{}", "1".repeat(1024)); // Much larger binary number
    assert!(matches!(
        convert_base(&large_hex, NumSystem::Hex, NumSystem::Dec),
        Err(ConversionError::NumberOverflow)
    ));
    assert!(matches!(
        convert_base(&large_bin, NumSystem::Bin, NumSystem::Dec),
        Err(ConversionError::NumberOverflow)
    ));
}

#[test]
fn convert_base_successfull_converts_0_to_all_bases() -> Result<(), ConversionError> {
    assert_eq!(convert_base("0x0", NumSystem::Hex, NumSystem::Dec)?, "0");
    assert_eq!(convert_base("0b0", NumSystem::Bin, NumSystem::Dec)?, "0");
    assert_eq!(convert_base("0o0", NumSystem::Oct, NumSystem::Dec)?, "0");
    Ok(())
}

#[test]
fn convert_base_reports_the_first_illegal_character() {
    assert!(matches!(
        convert_base("0b12", NumSystem::Bin, NumSystem::Dec),
        Err(ConversionError::InvalidDigit('2'))
    ));
    assert!(matches!(
        convert_base("0o89", NumSystem::Oct, NumSystem::Dec),
        Err(ConversionError::InvalidDigit('8'))
    ));
    assert!(matches!(
        convert_base("G1", NumSystem::Hex, NumSystem::Dec),
        Err(ConversionError::InvalidDigit('G'))
    ));
    // A character that is no digit at all is reported as it stands.
    assert!(matches!(
        convert_base("1!0", NumSystem::Dec, NumSystem::Dec),
        Err(ConversionError::InvalidDigit('!'))
    ));
}

#[test]
fn convert_base_accepts_the_largest_128_bit_value() -> Result<(), ConversionError> {
    let max_hex = "F".repeat(32);
    assert_eq!(
        convert_base(&max_hex, NumSystem::Hex, NumSystem::Dec)?,
        "340282366920938463463374607431768211455"
    );
    let just_past = format!("1{}", "0".repeat(32));
    assert!(matches!(
        convert_base(&just_past, NumSystem::Hex, NumSystem::Dec),
        Err(ConversionError::NumberOverflow)
    ));
    Ok(())
}

#[test]
fn convert_base_round_trips_between_radices() -> Result<(), ConversionError> {
    let rendered = convert_base("48879", NumSystem::Dec, NumSystem::Hex)?;
    assert_eq!(rendered, "BEEF");
    let forth = convert_base(&rendered, NumSystem::Hex, NumSystem::Oct)?;
    let back = convert_base(&forth, NumSystem::Oct, NumSystem::Hex)?;
    assert_eq!(back, rendered);
    assert_eq!(convert_base(&forth, NumSystem::Oct, NumSystem::Dec)?, "48879");
    Ok(())
}

#[test]
fn convert_base_accepts_lower_case_digits_and_prefixes() -> Result<(), ConversionError> {
    assert_eq!(convert_base("0Xff", NumSystem::Hex, NumSystem::Dec)?, "255");
    assert_eq!(convert_base("0B101", NumSystem::Bin, NumSystem::Dec)?, "5");
    assert_eq!(convert_base("beef", NumSystem::Hex, NumSystem::Hex)?, "BEEF");
    Ok(())
}

#[test]
fn convert_base_parses_a_bare_empty_string_as_zero() -> Result<(), ConversionError> {
    assert_eq!(convert_base("", NumSystem::Dec, NumSystem::Hex)?, "0");
    Ok(())
}

#[test]
fn convert_base_rejects_a_prefix_only_string() {
    assert!(matches!(
        convert_base("0x", NumSystem::Hex, NumSystem::Dec),
        Err(ConversionError::InvalidBase)
    ));
    assert!(matches!(
        convert_base("0O", NumSystem::Oct, NumSystem::Dec),
        Err(ConversionError::InvalidBase)
    ));
    assert!(matches!(
        convert_base("0b", NumSystem::Bin, NumSystem::Hex),
        Err(ConversionError::InvalidBase)
    ));
}
