use mrc_workout_creator::workout_data::positive_float::InvalidPositiveFloatError;
use mrc_workout_creator::workout_data::positive_float::PositiveFloat;
use mrc_workout_creator::workout_data::ToMRC;

#[test]
fn positive_float_create_valid_positive_float() {
    assert_eq!(PositiveFloat::new(1000).unwrap().to_hundredths(), 1000);
}

#[test]
fn positive_float_cannot_create_invalid_positive_from_zero() {
    assert_eq!(PositiveFloat::new(0).unwrap().to_hundredths(), 0);
}

#[test]
fn positive_float_cannot_create_invalid_positive_from_negative_number() {
    assert_eq!(
        PositiveFloat::new(-100),
        Err(InvalidPositiveFloatError::ProvidedNonPositiveNumber { number: -100 })
    );
}

#[test]
fn crm_format() {
    assert_eq!(PositiveFloat::new(1000).unwrap().to_crm(), "10.00");
}

#[test]
fn add() {
    let one = PositiveFloat::new(100).unwrap();
    let two = PositiveFloat::new(200).unwrap();
    assert_eq!(one.plus(&two).unwrap().to_hundredths(), 300);
}

#[test]
fn valid_conversion_from_string() {
    assert_eq!(
        PositiveFloat::try_from(String::from("1.0")).unwrap().to_hundredths(),
        100
    );
}

#[test]
fn valid_conversion_from_string_with_int() {
    assert_eq!(
        PositiveFloat::try_from(String::from("3")).unwrap().to_hundredths(),
        300
    );
}

#[test]
fn valid_conversion_from_string_with_spaces() {
    assert_eq!(
        PositiveFloat::try_from(String::from(" 90.0 ")).unwrap().to_hundredths(),
        9000
    );
}

#[test]
fn invalid_conversion_from_string_no_float() {
    assert_eq!(
        PositiveFloat::try_from(String::from("abcd")),
        Err(InvalidPositiveFloatError::InvalidStringToParse {
            message: String::from("invalid float literal")
        })
    );
}

#[test]
fn invalid_conversion_from_string_no_valid_positive_string() {
    assert_eq!(
        PositiveFloat::try_from(String::from("-1.0")),
        Err(InvalidPositiveFloatError::ProvidedNonPositiveNumber { number: -100 })
    );
}

#[test]
fn single_digit_is_printed_with_two_digits() {
    assert_eq!(PositiveFloat::new(0).unwrap().to_mrc(), "0.00");
}

#[test]
fn two_digits_are_printed_with_two_digits() {
    assert_eq!(PositiveFloat::try_from(String::from("0.12")).unwrap().to_mrc(), "0.12");
}

#[test]
fn three_digits_are_printed_with_two_digits() {
    assert_eq!(PositiveFloat::try_from(String::from("0.123")).unwrap().to_mrc(), "0.12");
}

#[test]
fn out_of_range_number_is_refused() {
    assert_eq!(
        PositiveFloat::try_from(String::from("999999999.0")),
        Err(InvalidPositiveFloatError::InvalidStringToParse {
            message: String::from("number out of range")
        })
    );
}

#[test]
fn parse_rounds_half_to_even() {
    assert_eq!(PositiveFloat::try_from(String::from("0.125")).unwrap().to_hundredths(), 12);
    assert_eq!(PositiveFloat::try_from(String::from("0.135")).unwrap().to_hundredths(), 14);
    assert_eq!(PositiveFloat::try_from(String::from("0.1251")).unwrap().to_hundredths(), 13);
}
