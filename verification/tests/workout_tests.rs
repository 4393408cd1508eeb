use mrc_workout_creator::workout_data::effort::Effort;
use mrc_workout_creator::workout_data::positive_float::PositiveFloat;
use mrc_workout_creator::workout_data::workout::Workout;
use mrc_workout_creator::workout_data::from_mrc::ExtractEffortError;
use mrc_workout_creator::workout_data::workout::ExtractWorkoutError;
use mrc_workout_creator::workout_data::workout::WorkoutType;

fn pf(hundredths: i64) -> PositiveFloat {
    PositiveFloat::new(hundredths).unwrap()
}

#[test]
fn workout_construct_workout() {
    let _ = Workout::new(
        "test_workout",
        "Workout for testing",
        vec![
            Effort::new(pf(30000), pf(10000), None),
            Effort::new(pf(30000), pf(10000), None),
            Effort::new(pf(6000), pf(15000), None),
        ],
    );
}

#[test]
fn create_watt_workout() {
    let new_workout = Workout::new(
        "test_workout",
        "Workout for testing",
        vec![
            Effort::new(pf(30000), pf(10000), None),
            Effort::new(pf(30000), pf(10000), None),
            Effort::new(pf(6000), pf(15000), None),
        ],
    );
    assert_eq!(new_workout.workout_type, WorkoutType::Watts);
}

#[test]
fn create_mrc_header_watts() {
    let workout: Workout = Workout::new("test_workout", "Workout for testing", vec![]);
    assert_eq!(
        workout.mrc_head(),
        "[COURSE HEADER]\n\
        DESCRIPTION = Workout for testing\n\
        MINUTES WATTS\n\
        [END COURSE HEADER]"
    );
}

#[test]
fn create_mrc_header_percentage() {
    let mut workout: Workout = Workout::new("test_workout", "Workout for testing", vec![]);
    workout.workout_type = WorkoutType::PercentOfFTP;
    assert_eq!(
        workout.mrc_head(),
        "[COURSE HEADER]\n\
        DESCRIPTION = Workout for testing\n\
        MINUTES PERCENTAGE\n\
        [END COURSE HEADER]"
    );
}

#[test]
fn workout_to_mrc() {
    assert_eq!(
        Workout::new(
            "test_workout",
            "test-1",
            vec![Effort::new(pf(500), pf(8000), None), Effort::new(pf(1000), pf(10000), None),],
        )
        .to_mrc(),
        "[COURSE HEADER]\n\
        DESCRIPTION = test-1\n\
        MINUTES WATTS\n\
        [END COURSE HEADER]\n\
        [COURSE DATA]\n\
        0.00\t80.00\n\
        5.00\t80.00\n\
        5.00\t100.00\n\
        15.00\t100.00\n\
        [END COURSE DATA]"
    );
}

#[test]
fn simple_watt_workout_to_mrc() {
    assert_eq!(
        Workout::new(
            "test_workout",
            "test-1",
            vec![Effort::new(pf(500), pf(8000), None), Effort::new(pf(500), pf(10000), None),],
        )
        .to_mrc(),
        "[COURSE HEADER]\n\
        DESCRIPTION = test-1\n\
        MINUTES WATTS\n\
        [END COURSE HEADER]\n\
        [COURSE DATA]\n\
        0.00\t80.00\n\
        5.00\t80.00\n\
        5.00\t100.00\n\
        10.00\t100.00\n\
        [END COURSE DATA]"
    );
}

#[test]
fn test_add_effort() {
    let mut workout_to_add_effort =
        Workout::new("test_workout", "test-1", vec![Effort::new(pf(500), pf(8000), None)]);

    workout_to_add_effort.add_effort(Effort::new(pf(1000), pf(8000), None));

    assert_eq!(
        workout_to_add_effort.efforts,
        vec![Effort::new(pf(500), pf(8000), None), Effort::new(pf(1000), pf(8000), None),],
    );
}

#[test]
fn test_total_time_of_workout() {
    let workout_to_count = Workout::new(
        "test_workout",
        "test-1",
        vec![Effort::new(pf(500), pf(8000), None), Effort::new(pf(1500), pf(20000), None)],
    );
    assert_eq!(workout_to_count.total_time_of_workout(), 2000);
}

#[test]
fn workout_duration() {
    let workout = Workout::new(
        "test_workout",
        "test-1",
        vec![
            Effort::new(pf(500), pf(8000), None),
            Effort::new(pf(1500), pf(20000), None),
            Effort::new(pf(200), pf(20000), None),
        ],
    );
    assert_eq!(workout.workout_duration(), 2200);
}

#[test]
fn average_intensity() {
    let workout = Workout::new(
        "test_workout",
        "test-1",
        vec![
            Effort::new(pf(500), pf(10000), None),
            Effort::new(pf(1500), pf(20000), None),
            Effort::new(pf(500), pf(30000), None),
        ],
    );
    assert_eq!(workout.average_intensity(), 20000);
}

#[test]
fn complete_workout() {
    let workout_as_mrc = "[COURSE HEADER]
DESCRIPTION = no description
MINUTES WATTS
[END COURSE HEADER]
[COURSE DATA]
0.00\t80.00
10.00\t150.00
10.00\t300.00
15.00\t300.00
15.00\t150.00
19.00\t150.00
19.00\t300.00
26.00\t300.00
[END COURSE DATA]";
    let workout = Workout::from_mrc(workout_as_mrc);

    assert_eq!(
        workout,
        Ok(Workout::new(
            "",
            "",
            vec![
                Effort::new(pf(1000), pf(8000), Some(pf(15000))),
                Effort::new(pf(500), pf(30000), None),
                Effort::new(pf(400), pf(15000), None),
                Effort::new(pf(700), pf(30000), None),
            ],
        ))
    );
}

#[test]
fn workout_without_description() {
    let workout_as_mrc = "[COURSE HEADER]
DESCRIPTION =
MINUTES WATTS
[END COURSE HEADER]
[COURSE DATA]
0.00\t80.00
10.00\t150.00
10.00\t300.00
15.00\t300.00
15.00\t150.00
19.00\t150.00
19.00\t300.00
26.00\t300.00
[END COURSE DATA]";
    let workout = Workout::from_mrc(workout_as_mrc);

    assert_eq!(
        workout,
        Ok(Workout::new(
            "",
            "",
            vec![
                Effort::new(pf(1000), pf(8000), Some(pf(15000))),
                Effort::new(pf(500), pf(30000), None),
                Effort::new(pf(400), pf(15000), None),
                Effort::new(pf(700), pf(30000), None),
            ],
        ))
    );
}

#[test]
fn to_mrc_from_mrc() {
    let workout = Workout::new(
        "",
        "Workout for testing",
        vec![
            Effort::new(pf(30000), pf(10000), None),
            Effort::new(pf(30000), pf(10000), None),
            Effort::new(pf(6000), pf(15000), None),
        ],
    );

    let reserialized_workout =
        Workout::from_mrc(&workout.to_mrc()).expect("Simple workout should be loadable");
    assert_eq!(workout, reserialized_workout);
}

#[test]
fn to_mrc_from_mrc_no_description() {
    let workout = Workout::new(
        "",
        "",
        vec![
            Effort::new(pf(30000), pf(10000), None),
            Effort::new(pf(30000), pf(10000), None),
            Effort::new(pf(6000), pf(15000), None),
        ],
    );

    let reserialized_workout =
        Workout::from_mrc(&workout.to_mrc()).expect("Simple workout should be loadable");
    assert_eq!(workout, reserialized_workout);
}

#[test]
fn from_mrc_without_data_block_is_refused() {
    assert_eq!(
        Workout::from_mrc("[COURSE HEADER]\nDESCRIPTION = x\n[END COURSE HEADER]"),
        Err(ExtractWorkoutError::Efforts(ExtractEffortError::NoEffortsGiven))
    );
}

#[test]
fn from_plan_format_without_header_is_refused() {
    assert_eq!(
        Workout::from_plan_format("just some text"),
        Err(ExtractWorkoutError::FromPlanFormatError)
    );
}

#[test]
fn from_plan_format_reads_a_workout() {
    let plan = "=HEADER=\nNAME=Morning Ride\nWORKOUT_TYPE=0\n=STREAM=\n=INTERVAL=\nPWR_LO=100\nPWR_HI=100\nMESG_DURATION_SEC>=60?EXIT";
    assert_eq!(
        Workout::from_plan_format(plan),
        Ok(Workout::new("Morning Ride", "", vec![Effort::new(pf(100), pf(10000), None)]))
    );
}

#[test]
fn to_header() {
    assert_eq!(
        Workout::new("Test Workout", "Test Workout Creation", vec![]).plan_format_head(),
        "=HEADER=
NAME=Test Workout
WORKOUT_TYPE=0"
    );
}

#[test]
fn to_body() {
    assert_eq!(
        Workout::new(
            "Test Workout",
            "Test Workout Creation",
            vec![
                Effort::new(pf(50), pf(5000), None),
                Effort::new(pf(100), pf(10000), None),
                Effort::new(pf(150), pf(15000), None),
                Effort::new(pf(50), pf(20000), None)
            ]
        )
        .plan_format_body(),
        "=STREAM=
=INTERVAL=
PWR_LO=50
PWR_HI=50
MESG_DURATION_SEC>=30?EXIT
=INTERVAL=
PWR_LO=100
PWR_HI=100
MESG_DURATION_SEC>=60?EXIT
=INTERVAL=
PWR_LO=150
PWR_HI=150
MESG_DURATION_SEC>=90?EXIT
=INTERVAL=
PWR_LO=200
PWR_HI=200
MESG_DURATION_SEC>=30?EXIT"
    );
}

#[test]
fn to_plan_format() {
    assert_eq!(
        Workout::new(
            "Test Workout",
            "Test Workout Creation",
            vec![
                Effort::new(pf(50), pf(5000), None),
                Effort::new(pf(100), pf(10000), None),
                Effort::new(pf(150), pf(15000), None),
                Effort::new(pf(50), pf(20000), None)
            ]
        )
        .to_plan_format(),
        "=HEADER=
NAME=Test Workout
WORKOUT_TYPE=0
=STREAM=
=INTERVAL=
PWR_LO=50
PWR_HI=50
MESG_DURATION_SEC>=30?EXIT
=INTERVAL=
PWR_LO=100
PWR_HI=100
MESG_DURATION_SEC>=60?EXIT
=INTERVAL=
PWR_LO=150
PWR_HI=150
MESG_DURATION_SEC>=90?EXIT
=INTERVAL=
PWR_LO=200
PWR_HI=200
MESG_DURATION_SEC>=30?EXIT"
    );
}
