use mrc_workout_creator::workout_data::effort::Effort;
use mrc_workout_creator::workout_data::from_plan_format::extract_effort_from_string;
use mrc_workout_creator::workout_data::from_plan_format::extract_workout;
use mrc_workout_creator::workout_data::from_plan_format::split_efforts;
use mrc_workout_creator::workout_data::from_plan_format::split_header_and_intervals;
use mrc_workout_creator::workout_data::from_plan_format::ExtractPlanFormatError;
use mrc_workout_creator::workout_data::positive_float::PositiveFloat;
use mrc_workout_creator::workout_data::workout::Workout;

fn pf(hundredths: i64) -> PositiveFloat {
    PositiveFloat::new(hundredths).unwrap()
}

#[test]
fn split_header_and_interval_simple_case() {
    let workout_in_plan_format = "=HEADER=
NAME=20 Minute FTP Test
WORKOUT_TYPE=0
=STREAM=
=INTERVAL=
PWR_LO=50
PWR_HI=50
MESG_DURATION_SEC>=30?EXIT
=INTERVAL=
PWR_LO=100
PWR_HI=100
MESG_DURATION_SEC>=30?EXIT
=INTERVAL=
PWR_LO=150
PWR_HI=150
MESG_DURATION_SEC>=30?EXIT
=INTERVAL=
PWR_LO=200
PWR_HI=200
MESG_DURATION_SEC>=30?EXIT";
    assert_eq!(
        split_header_and_intervals(workout_in_plan_format),
        Ok((
            String::from("20 Minute FTP Test"),
            String::from(
                "=INTERVAL=
PWR_LO=50
PWR_HI=50
MESG_DURATION_SEC>=30?EXIT
=INTERVAL=
PWR_LO=100
PWR_HI=100
MESG_DURATION_SEC>=30?EXIT
=INTERVAL=
PWR_LO=150
PWR_HI=150
MESG_DURATION_SEC>=30?EXIT
=INTERVAL=
PWR_LO=200
PWR_HI=200
MESG_DURATION_SEC>=30?EXIT"
            )
        ))
    );
}

#[test]
fn split_intervals_simple_case() {
    let intervals_in_plan_format = "=INTERVAL=
PWR_LO=50
PWR_HI=50
MESG_DURATION_SEC>=30?EXIT
=INTERVAL=
PWR_LO=100
PWR_HI=100
MESG_DURATION_SEC>=30?EXIT
=INTERVAL=
PWR_LO=150
PWR_HI=150
MESG_DURATION_SEC>=30?EXIT
=INTERVAL=
PWR_LO=200
PWR_HI=200
MESG_DURATION_SEC>=30?EXIT";
    assert_eq!(
        split_efforts(intervals_in_plan_format),
        vec![
            String::from(
                "PWR_LO=50
PWR_HI=50
MESG_DURATION_SEC>=30?EXIT"
            ),
            String::from(
                "PWR_LO=100
PWR_HI=100
MESG_DURATION_SEC>=30?EXIT"
            ),
            String::from(
                "PWR_LO=150
PWR_HI=150
MESG_DURATION_SEC>=30?EXIT"
            ),
            String::from(
                "PWR_LO=200
PWR_HI=200
MESG_DURATION_SEC>=30?EXIT"
            )
        ]
    );
}

#[test]
fn extract_effort_from_string_simple_case() {
    let interval_in_plan_format = "PWR_LO=50
PWR_HI=50
MESG_DURATION_SEC>=30?EXIT";
    assert_eq!(
        extract_effort_from_string(interval_in_plan_format),
        Ok(Effort::new(pf(50), pf(5000), None))
    );
}

#[test]
fn extract_workout_simple_case() {
    let workout_in_plan_format = "=HEADER=
NAME=20 Minute FTP Test
WORKOUT_TYPE=0
=STREAM=
=INTERVAL=
PWR_LO=50
PWR_HI=50
MESG_DURATION_SEC>=30?EXIT
=INTERVAL=
PWR_LO=100
PWR_HI=100
MESG_DURATION_SEC>=60?EXIT
=INTERVAL=
PWR_LO=150
PWR_HI=150
MESG_DURATION_SEC>=30?EXIT
=INTERVAL=
PWR_LO=200
PWR_HI=200
MESG_DURATION_SEC>=90?EXIT";

    assert_eq!(
        extract_workout(workout_in_plan_format),
        Ok(Workout::new(
            "20 Minute FTP Test",
            "",
            vec![
                Effort::new(pf(50), pf(5000), None),
                Effort::new(pf(100), pf(10000), None),
                Effort::new(pf(50), pf(15000), None),
                Effort::new(pf(150), pf(20000), None)
            ]
        ))
    );
}

#[test]
fn to_plan_format_from_plan_format() {
    let workout = Workout::new(
        "Morning Ride",
        "",
        vec![
            Effort::new(pf(50), pf(5000), None),
            Effort::new(pf(100), pf(10000), None),
            Effort::new(pf(150), pf(20000), None),
        ],
    );
    let reread = extract_workout(&workout.to_plan_format()).expect("plan text should read back");
    assert_eq!(workout, reread);
}

#[test]
fn interval_with_power_range_averages_it() {
    let interval_in_plan_format = "PWR_LO=100
PWR_HI=151
MESG_DURATION_SEC>=60?EXIT";
    assert_eq!(
        extract_effort_from_string(interval_in_plan_format),
        Ok(Effort::new(pf(100), pf(12550), None))
    );
}

#[test]
fn plan_without_stream_marker_is_refused() {
    assert_eq!(
        extract_workout("=HEADER=\nNAME=Test"),
        Err(ExtractPlanFormatError::InvalidFormat)
    );
}

#[test]
fn interval_with_broken_line_is_refused() {
    assert_eq!(
        extract_effort_from_string("PWR_LO=50\nPWR_HI=oops\nMESG_DURATION_SEC>=30?EXIT"),
        Err(ExtractPlanFormatError::InvalidFormat)
    );
}

#[test]
fn interval_with_huge_power_is_refused() {
    assert_eq!(
        extract_effort_from_string(
            "PWR_LO=99999999\nPWR_HI=99999999\nMESG_DURATION_SEC>=30?EXIT"
        ),
        Err(ExtractPlanFormatError::InvalidValue)
    );
}
