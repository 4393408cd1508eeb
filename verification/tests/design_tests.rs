use mrc_workout_creator::workout_data::effort::Effort;
use mrc_workout_creator::workout_data::effort::EffortState;
use mrc_workout_creator::workout_data::positive_float::PositiveFloat;
use mrc_workout_creator::workout_data::workout::Workout;
use mrc_workout_creator::workout_data::workout::WorkoutType;
use mrc_workout_creator::workout_definition::WorkoutDefiner;
use mrc_workout_creator::workout_definition::WorkoutDefinerMessage;
use mrc_workout_creator::workout_design::handle_effort_message;
use mrc_workout_creator::workout_design::EffortMessage;
use mrc_workout_creator::workout_design::EffortUnitInput;

fn pf(hundredths: i64) -> PositiveFloat {
    PositiveFloat::new(hundredths).unwrap()
}

#[test]
fn definer_records_the_selected_type() {
    let mut definer = WorkoutDefiner::new();
    assert_eq!(definer.get_selected_workout_type(), None);
    definer.update(WorkoutDefinerMessage::TypeSelected(WorkoutType::PercentOfFTP));
    assert_eq!(definer.get_selected_workout_type(), Some(WorkoutType::PercentOfFTP));
    definer.update(WorkoutDefinerMessage::GenerateWorkoutClicked);
    assert_eq!(definer.get_selected_workout_type(), Some(WorkoutType::PercentOfFTP));
    assert_eq!(definer.get_workout_name(), "");
    assert_eq!(definer.get_workout_description(), "");
}

#[test]
fn input_row_collects_and_clears() {
    let mut input = EffortUnitInput::new();
    assert!(input.is_empty());
    input.set_duration(String::from("5.0"));
    assert!(input.is_empty());
    input.set_starting_value(String::from("100"));
    assert!(!input.is_empty());
    input.set_ending_value(String::from("150"));
    assert_eq!(input.current_duration(), "5.0");
    assert_eq!(input.starting_value(), "100");
    assert_eq!(input.ending_value(), "150");
    input.clear();
    assert!(input.is_empty());
}

#[test]
fn input_row_turns_into_an_effort() {
    let mut input = EffortUnitInput::new();
    input.set_duration(String::from("5.0"));
    input.set_starting_value(String::from("100"));
    let effort = Effort::try_from(&input).unwrap();
    assert_eq!(effort, Effort::new(pf(500), pf(10000), None));

    input.set_ending_value(String::from("150"));
    let ramp = Effort::try_from(&input).unwrap();
    assert_eq!(ramp, Effort::new(pf(500), pf(10000), Some(pf(15000))));

    input.set_duration(String::from("five"));
    assert!(Effort::try_from(&input).is_err());
}

#[test]
fn effort_messages_drive_the_workout() {
    let mut workout = Workout::new(
        "w",
        "d",
        vec![Effort::new(pf(500), pf(10000), None), Effort::new(pf(300), pf(20000), None)],
    );
    handle_effort_message(&mut workout, 0, EffortMessage::Edit);
    assert!(matches!(workout.efforts[0].gui_state, EffortState::Editing { .. }));
    handle_effort_message(
        &mut workout,
        0,
        EffortMessage::UpdateDurationInMinutes(String::from("6.00")),
    );
    handle_effort_message(&mut workout, 0, EffortMessage::ModificationDone);
    assert_eq!(workout.efforts[0].duration_in_minutes.to_hundredths(), 600);
    assert_eq!(workout.efforts[0].gui_state, EffortState::Idle);

    handle_effort_message(&mut workout, 1, EffortMessage::Delete);
    assert_eq!(workout.efforts.len(), 1);
}

#[test]
fn workout_remove_keeps_the_others() {
    let mut workout = Workout::new(
        "w",
        "",
        vec![
            Effort::new(pf(100), pf(1000), None),
            Effort::new(pf(200), pf(2000), None),
            Effort::new(pf(300), pf(3000), None),
        ],
    );
    workout.remove(1);
    assert_eq!(
        workout.efforts,
        vec![Effort::new(pf(100), pf(1000), None), Effort::new(pf(300), pf(3000), None)]
    );
}
