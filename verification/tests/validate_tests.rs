use numstat::validate::{
    parse_i32, validate, validate_chars, InputType, ValidateInput, ValidationError,
};

#[test]
fn chars_can_be_validated_directly() {
    let chars: Vec<char> = "abc".chars().collect();
    assert_eq!(validate_chars(&chars, InputType::Lowercase), Ok(()));
    let empty: Vec<char> = Vec::new();
    assert_eq!(validate_chars(&empty, InputType::Integer), Err(ValidationError::EmptyInput));
}

#[test]
fn lowercase_ok() {
    assert_eq!(validate("abc", InputType::Lowercase), Ok(()));
}

#[test]
fn lowercase_reports_offender() {
    match validate("abC", InputType::Lowercase) {
        Err(ValidationError::CharacterClassViolation { offenders }) => {
            assert_eq!(offenders, vec!['C']);
        }
        other => panic!("{:?}", other),
    }
}

#[test]
fn lowercase_keeps_every_offender() {
    match validate("a1b1", InputType::Lowercase) {
        Err(ValidationError::CharacterClassViolation { offenders }) => {
            assert_eq!(offenders, vec!['1', '1']);
        }
        other => panic!("{:?}", other),
    }
}

#[test]
fn empty_input_is_its_own_error() {
    assert_eq!(validate("", InputType::Uppercase), Err(ValidationError::EmptyInput));
}

#[test]
fn uppercase_ok_and_offenders() {
    assert_eq!(validate("HELLO", InputType::Uppercase), Ok(()));
    match validate("HeLLo", InputType::Uppercase) {
        Err(ValidationError::CharacterClassViolation { offenders }) => {
            assert_eq!(offenders, vec!['e', 'o']);
        }
        other => panic!("{:?}", other),
    }
}

#[test]
fn letters_accepts_both_cases() {
    assert_eq!(validate("AbCdE", InputType::Letters), Ok(()));
    match validate("Ab3!", InputType::Letters) {
        Err(ValidationError::CharacterClassViolation { offenders }) => {
            assert_eq!(offenders, vec!['3', '!']);
        }
        other => panic!("{:?}", other),
    }
}

#[test]
fn integer_ok() {
    assert_eq!(validate("123", InputType::Integer), Ok(()));
}

#[test]
fn integer_bad_character() {
    match validate("12a", InputType::Integer) {
        Err(ValidationError::ParseFailure { offenders }) => {
            assert_eq!(offenders, vec!['a']);
        }
        other => panic!("{:?}", other),
    }
}

#[test]
fn integer_sign_parses_despite_digit_scan() {
    assert_eq!(validate("-5", InputType::Integer), Ok(()));
    assert_eq!(validate("+7", InputType::Integer), Ok(()));
}

#[test]
fn integer_overflow_fails_with_no_digit_offenders() {
    match validate("2147483648", InputType::Integer) {
        Err(ValidationError::ParseFailure { offenders }) => {
            assert_eq!(offenders, Vec::<char>::new());
        }
        other => panic!("{:?}", other),
    }
}

#[test]
fn integer_range_bounds() {
    assert_eq!(validate("2147483647", InputType::Integer), Ok(()));
    assert_eq!(validate("-2147483648", InputType::Integer), Ok(()));
}

#[test]
fn parse_i32_values() {
    let digits: Vec<char> = "123".chars().collect();
    assert_eq!(parse_i32(&digits), Some(123));
    let plus: Vec<char> = "+42".chars().collect();
    assert_eq!(parse_i32(&plus), Some(42));
    let minus_zero: Vec<char> = "-0".chars().collect();
    assert_eq!(parse_i32(&minus_zero), Some(0));
    let least: Vec<char> = "-2147483648".chars().collect();
    assert_eq!(parse_i32(&least), Some(i32::MIN));
    let greatest: Vec<char> = "2147483647".chars().collect();
    assert_eq!(parse_i32(&greatest), Some(i32::MAX));
}

#[test]
fn parse_i32_rejections() {
    let empty: Vec<char> = Vec::new();
    assert_eq!(parse_i32(&empty), None);
    let bare_sign: Vec<char> = "+".chars().collect();
    assert_eq!(parse_i32(&bare_sign), None);
    let spaced: Vec<char> = "4 2".chars().collect();
    assert_eq!(parse_i32(&spaced), None);
    let too_big: Vec<char> = "2147483648".chars().collect();
    assert_eq!(parse_i32(&too_big), None);
    let too_small: Vec<char> = "-2147483649".chars().collect();
    assert_eq!(parse_i32(&too_small), None);
}

#[test]
fn string_validation_through_trait() {
    let s = String::from("HELLO");
    assert_eq!(s.h_validate_input(InputType::Uppercase), Ok(()));
    let t = String::from("hello!");
    match t.h_validate_input(InputType::Lowercase) {
        Err(ValidationError::CharacterClassViolation { offenders }) => {
            assert_eq!(offenders, vec!['!']);
        }
        other => panic!("{:?}", other),
    }
}
