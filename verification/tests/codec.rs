use fortress::experience_code::{DecodeError, ExperienceCode, InvalidCodeError, NonPositiveError};

#[test]
fn encode_zero_is_pad_only() {
    let code = ExperienceCode::from_usize(0);
    assert_eq!(code.as_str(), "AA");
}

#[test]
fn encode_small_ids() {
    assert_eq!(ExperienceCode::from_usize(1).as_str(), "AAB");
    assert_eq!(ExperienceCode::from_usize(5).as_str(), "AAF");
    assert_eq!(ExperienceCode::from_usize(25).as_str(), "AAZ");
    assert_eq!(ExperienceCode::from_usize(26).as_str(), "AA1");
    assert_eq!(ExperienceCode::from_usize(34).as_str(), "AA9");
    assert_eq!(ExperienceCode::from_usize(35).as_str(), "AABA");
}

#[test]
fn round_trip_many_ids() {
    for id in [0usize, 1, 2, 34, 35, 36, 1224, 1225, 42_424, 1_000_000, 4_294_967_295] {
        let code = ExperienceCode::from_usize(id);
        assert_eq!(code.to_usize(), Ok(id));
    }
}

#[test]
fn round_trip_u32_and_i32() {
    let code = ExperienceCode::from_u32(7);
    assert_eq!(code.to_usize(), Ok(7));
    let code = ExperienceCode::from_i32(123_456).unwrap();
    assert_eq!(code.to_usize(), Ok(123_456));
}

#[test]
fn from_i32_rejects_non_positive() {
    assert_eq!(
        ExperienceCode::from_i32(0).unwrap_err(),
        NonPositiveError { value: 0 }
    );
    assert_eq!(
        ExperienceCode::from_i32(-5).unwrap_err(),
        NonPositiveError { value: -5 }
    );
}

#[test]
fn alphabet_start_decodes_densely() {
    assert_eq!(ExperienceCode::from_code_str("AAA").to_usize(), Ok(0));
    assert_eq!(ExperienceCode::from_code_str("AAB").to_usize(), Ok(1));
}

#[test]
fn decode_strips_all_leading_pads() {
    assert_eq!(ExperienceCode::from_code_str("A").to_usize(), Ok(0));
    assert_eq!(ExperienceCode::from_code_str("").to_usize(), Ok(0));
    assert_eq!(ExperienceCode::from_code_str("AAAAB").to_usize(), Ok(1));
    assert_eq!(ExperienceCode::from_code_str("BA").to_usize(), Ok(35));
}

#[test]
fn decode_reports_symbol_and_position() {
    assert_eq!(
        ExperienceCode::from_code_str("AB!").to_usize(),
        Err(DecodeError::UnknownSymbol { symbol: '!', position: 1 })
    );
    assert_eq!(
        ExperienceCode::from_code_str("AAa").to_usize(),
        Err(DecodeError::UnknownSymbol { symbol: 'a', position: 0 })
    );
    assert_eq!(
        ExperienceCode::from_code_str("B0B").to_usize(),
        Err(DecodeError::UnknownSymbol { symbol: '0', position: 1 })
    );
}

#[test]
fn decode_overflows_on_huge_codes() {
    let huge = format!("AA{}", "9".repeat(13));
    assert_eq!(
        ExperienceCode::from_code_str(&huge).to_usize(),
        Err(DecodeError::ValueOverflow)
    );
    let large_but_fits = format!("AA{}", "9".repeat(12));
    let expected: usize = 35usize.pow(12) - 1;
    assert_eq!(
        ExperienceCode::from_code_str(&large_but_fits).to_usize(),
        Ok(expected)
    );
}

#[test]
fn validation_needs_three_characters() {
    assert_eq!(
        ExperienceCode::from_code_str("AB").is_valid(),
        Err(InvalidCodeError::TooShort { length: 2 })
    );
    assert_eq!(
        ExperienceCode::from_code_str("!?").is_valid(),
        Err(InvalidCodeError::TooShort { length: 2 })
    );
    assert_eq!(
        ExperienceCode::from_code_str("").is_valid(),
        Err(InvalidCodeError::TooShort { length: 0 })
    );
}

#[test]
fn validation_checks_the_alphabet() {
    assert_eq!(ExperienceCode::from_code_str("AAB").is_valid(), Ok(true));
    assert_eq!(ExperienceCode::from_code_str("ZZ99").is_valid(), Ok(true));
    assert_eq!(
        ExperienceCode::from_code_str("AB!").is_valid(),
        Err(InvalidCodeError::BadSymbol { symbol: '!', position: 2 })
    );
    assert_eq!(
        ExperienceCode::from_code_str("A0B").is_valid(),
        Err(InvalidCodeError::BadSymbol { symbol: '0', position: 1 })
    );
}

#[test]
fn from_string_normalizes_to_uppercase() {
    let code = ExperienceCode::from_string("aab".to_string());
    assert_eq!(code.as_str(), "AAB");
    assert_eq!(code.to_usize(), Ok(1));
}

#[test]
fn into_string_and_duplicate_keep_the_code() {
    let code = ExperienceCode::from_usize(42);
    let copy = code.duplicate();
    assert_eq!(code.into_string(), copy.as_str().to_string());
}
