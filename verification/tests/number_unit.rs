use mirae_tts_engine::number::apply_number_conversion;
#[test]
fn test_short_native_numbers() {
    assert_eq!(apply_number_conversion("1", false), "한");
    assert_eq!(apply_number_conversion("12", false), "열두");
    assert_eq!(apply_number_conversion("20", false), "스무");
}

#[test]
fn test_short_forced_sino_numbers() {
    assert_eq!(apply_number_conversion("1", true), "일");
    assert_eq!(apply_number_conversion("12", true), "십이");
}

#[test]
fn test_long_sino_numbers() {
    assert_eq!(apply_number_conversion("123", false), "백이십삼");
    assert_eq!(apply_number_conversion("1004", false), "천사");
}

#[test]
fn test_decimal_and_colon() {
    assert_eq!(apply_number_conversion("2.5", true), "이쩜오");
    assert_eq!(apply_number_conversion("12:30", true), "십이대삼십");
}
