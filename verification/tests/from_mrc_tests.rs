use mrc_workout_creator::workout_data::effort::Effort;
use mrc_workout_creator::workout_data::from_mrc::extract_description;
use mrc_workout_creator::workout_data::from_mrc::extract_effort_from_string;
use mrc_workout_creator::workout_data::from_mrc::extract_efforts;
use mrc_workout_creator::workout_data::from_mrc::extract_efforts_string;
use mrc_workout_creator::workout_data::from_mrc::split_by_every_other_newline;
use mrc_workout_creator::workout_data::from_mrc::EffortUnvalidError;
use mrc_workout_creator::workout_data::from_mrc::ExtractDescriptionError;
use mrc_workout_creator::workout_data::from_mrc::ExtractEffortError;
use mrc_workout_creator::workout_data::positive_float::PositiveFloat;

fn pf(hundredths: i64) -> PositiveFloat {
    PositiveFloat::new(hundredths).unwrap()
}

#[test]
fn actual_description() {
    assert_eq!(
        extract_description(
            "[COURSE HEADER]\n\
DESCRIPTION = A very good workout.\n\
MINUTES WATTS\n\
[END COURSE HEADER]\n\
[COURSE DATA]\n\
0.00\t80.00\n\
10.00\t150.00\n\
10.00\t300.00\n\
15.00\t300.00\n\
15.00\t150.00\n\
19.00\t150.00\n\
19.00\t300.00\n\
26.00\t300.00\n\
[END COURSE DATA]"
        ),
        Ok(String::from("A very good workout."))
    );
}

#[test]
fn no_value_for_description() {
    assert_eq!(
        extract_description(
            "[COURSE HEADER]\n\
DESCRIPTION = no description\n\
MINUTES WATTS\n\
[END COURSE HEADER]\n\
[COURSE DATA]\n\
0.00\t80.00\n\
10.00\t150.00\n\
[END COURSE DATA]"
        ),
        Ok(String::from(""))
    );
}

#[test]
fn no_description_given() {
    assert_eq!(
        extract_description(
            "[COURSE HEADER]\n\
MINUTES WATTS\n\
[END COURSE HEADER]\n\
[COURSE DATA]\n\
0.00\t80.00\n\
10.00\t150.00\n\
[END COURSE DATA]"
        ),
        Err(ExtractDescriptionError::NoDescription)
    );
}

#[test]
fn extract_first_effort_in_workout() {
    assert_eq!(
        extract_effort_from_string(String::from(
            "0.00\t80.00
10.00\t150.00"
        )),
        Ok(Effort::new(pf(1000), pf(8000), Some(pf(15000))))
    );
}

#[test]
fn extract_second_effort_in_workout() {
    assert_eq!(
        extract_effort_from_string(String::from(
            "10.00\t300.00
15.00\t300.00"
        )),
        Ok(Effort::new(pf(500), pf(30000), Some(pf(30000))))
    );
}

#[test]
fn effort_missing_ending_wattage() {
    assert_eq!(
        extract_effort_from_string(String::from(
            "10.00\t300.00
15.00"
        )),
        Err(EffortUnvalidError::SyntaxDoesNotMatch(String::from(
            "10.00\t300.00
15.00"
        )))
    );
}

#[test]
fn effort_is_not_valid_number() {
    assert_eq!(
        extract_effort_from_string(String::from(
            "10.00\t30.0.00
15.00\t300.00"
        )),
        Err(EffortUnvalidError::SyntaxDoesNotMatch(String::from(
            "10.00\t30.0.00
15.00\t300.00"
        )))
    );
}

#[test]
fn effort_with_empty_number_field() {
    assert_eq!(
        extract_effort_from_string(String::from(
            ".\t80.00
10.00\t150.00"
        )),
        Err(EffortUnvalidError::NumberInvalid(
            0,
            String::from("invalid float literal"),
            String::from(
                ".\t80.00
10.00\t150.00"
            )
        ))
    );
}

#[test]
fn effort_running_backwards_in_time() {
    assert_eq!(
        extract_effort_from_string(String::from(
            "10.00\t80.00
5.00\t80.00"
        )),
        Err(EffortUnvalidError::NumberInvalid(
            2,
            String::from("negative duration"),
            String::from(
                "10.00\t80.00
5.00\t80.00"
            )
        ))
    );
}

#[test]
fn test_split_by_every_other_newline() {
    assert_eq!(
        split_by_every_other_newline(
            "0.00\t80.00
10.00\t150.00
10.00\t300.00
15.00\t300.00
15.00\t150.00
19.00\t150.00
19.00\t300.00
26.00\t300.00"
        ),
        vec![
            String::from(
                "0.00\t80.00
10.00\t150.00"
            ),
            String::from(
                "10.00\t300.00
15.00\t300.00"
            ),
            String::from(
                "15.00\t150.00
19.00\t150.00"
            ),
            String::from(
                "19.00\t300.00
26.00\t300.00"
            ),
        ]
    );
}

#[test]
fn extract_effort_strings() {
    assert_eq!(
        extract_efforts_string(
            "[COURSE HEADER]
DESCRIPTION = no description
MINUTES WATTS
[END COURSE HEADER]
[COURSE DATA]
0.00\t80.00
10.00\t150.00
10.00\t300.00
15.00\t300.00
15.00\t150.00
19.00\t150.00
19.00\t300.00
26.00\t300.00
[END COURSE DATA]"
        ),
        Ok(String::from(
            "0.00\t80.00
10.00\t150.00
10.00\t300.00
15.00\t300.00
15.00\t150.00
19.00\t150.00
19.00\t300.00
26.00\t300.00
"
        ))
    );
}

#[test]
fn simple_workout() {
    assert_eq!(
        extract_efforts(
            "[COURSE HEADER]
DESCRIPTION = no description
MINUTES WATTS
[END COURSE HEADER]
[COURSE DATA]
0.00\t80.00
10.00\t150.00
10.00\t300.00
15.00\t300.00
15.00\t150.00
19.00\t150.00
19.00\t300.00
26.00\t300.00
[END COURSE DATA]"
        ),
        Ok(vec![
            Effort::new(pf(1000), pf(8000), Some(pf(15000))),
            Effort::new(pf(500), pf(30000), None),
            Effort::new(pf(400), pf(15000), None),
            Effort::new(pf(700), pf(30000), None),
        ])
    );
}

#[test]
fn no_data_block_means_no_efforts() {
    assert_eq!(
        extract_efforts("[COURSE HEADER]\nDESCRIPTION = x\n[END COURSE HEADER]"),
        Err(ExtractEffortError::NoEffortsGiven)
    );
}

#[test]
fn bad_record_is_reported() {
    let text = "[COURSE DATA]
0.00\t80.00
garbage
[END COURSE DATA]";
    assert_eq!(
        extract_efforts(text),
        Err(ExtractEffortError::EffortNotValid(EffortUnvalidError::SyntaxDoesNotMatch(
            String::from(
                "0.00\t80.00
garbage"
            )
        )))
    );
}
