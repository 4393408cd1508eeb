use mrc_workout_creator::workout_data::effort::effort_can_be_split;
use mrc_workout_creator::workout_data::effort::is_ramp_effort;
use mrc_workout_creator::workout_data::effort::Effort;
use mrc_workout_creator::workout_data::positive_float::PositiveFloat;
use mrc_workout_creator::workout_data::workout::efforts_to_mrc;
use mrc_workout_creator::workout_data::workout::extract_initial_starting_minutes;
use mrc_workout_creator::workout_data::ToMRC;

fn pf(hundredths: i64) -> PositiveFloat {
    PositiveFloat::new(hundredths).unwrap()
}

#[test]
fn construct() {
    let _ = Effort::new(pf(6000), pf(15000), None);
}

#[test]
fn effort_mrc() {
    assert_eq!(Effort::new(pf(6000), pf(10000), None).starting_value.to_mrc(), "100.00");
}

#[test]
fn to_mrc() {
    assert_eq!(
        Effort::new(pf(500), pf(10000), None).to_mrc(500),
        (
            String::from(
                "5.00\t100.00\n\
                10.00\t100.00"
            ),
            1000
        )
    );
}

#[test]
fn test_extract_starting_minutes_from_efforts() {
    assert_eq!(
        extract_initial_starting_minutes(
            &vec![Effort::new(pf(700), pf(10000), None), Effort::new(pf(900), pf(10000), None)],
            500
        ),
        vec![500, 1200]
    );
}

#[test]
fn test_efforts_to_mrc() {
    assert_eq!(
        efforts_to_mrc(
            &vec![
                Effort::new(pf(500), pf(10000), None),
                Effort::new(pf(1000), pf(15000), None),
                Effort::new(pf(1500), pf(20000), None),
                Effort::new(pf(500), pf(12000), None),
            ],
            500
        ),
        (
            String::from(
                "5.00\t100.00\n\
                10.00\t100.00\n\
                10.00\t150.00\n\
                20.00\t150.00\n\
                20.00\t200.00\n\
                35.00\t200.00\n\
                35.00\t120.00\n\
                40.00\t120.00"
            ),
            4000
        )
    );
}

#[test]
fn ramp_efforts_to_mrc() {
    assert_eq!(
        efforts_to_mrc(
            &vec![
                Effort::new(pf(500), pf(10000), None),
                Effort::new(pf(100), pf(10000), Some(pf(15000)))
            ],
            500
        ),
        (
            String::from(
                "5.00\t100.00\n\
                10.00\t100.00\n\
                10.00\t105.00\n\
                10.20\t105.00\n\
                10.20\t115.00\n\
                10.40\t115.00\n\
                10.40\t125.00\n\
                10.60\t125.00\n\
                10.60\t135.00\n\
                10.80\t135.00\n\
                10.80\t145.00\n\
                11.00\t145.00"
            ),
            1100
        )
    );
}

#[test]
fn no_ramp_effort() {
    assert!(!is_ramp_effort(&Effort::new(pf(500), pf(10000), None)));
}

#[test]
fn no_ramp_effort_explicit() {
    assert!(!is_ramp_effort(&Effort::new(pf(500), pf(10000), Some(pf(10000)))));
}

#[test]
fn ramp_effort() {
    assert!(is_ramp_effort(&Effort::new(pf(500), pf(10000), Some(pf(15000)))));
}

#[test]
fn effort_that_cannot_be_split() {
    assert!(!effort_can_be_split(&Effort::new(pf(10), pf(10000), None)));
}

#[test]
fn effort_that_can_be_split() {
    assert!(effort_can_be_split(&Effort::new(pf(500), pf(10000), Some(pf(15000)))));
}

#[test]
fn split_effort_into_five_constant_pieces() {
    assert_eq!(
        Effort::new(pf(100), pf(10000), Some(pf(15000))).split_ramp_effort_into_constant_chunks(),
        vec![
            Effort::new(pf(20), pf(10500), Some(pf(10500))),
            Effort::new(pf(20), pf(11500), Some(pf(11500))),
            Effort::new(pf(20), pf(12500), Some(pf(12500))),
            Effort::new(pf(20), pf(13500), Some(pf(13500))),
            Effort::new(pf(20), pf(14500), Some(pf(14500)))
        ]
    );
}

#[test]
fn ramp_duration_conserved_when_divisible() {
    let chunks = Effort::new(pf(100), pf(10000), Some(pf(15000)))
        .split_ramp_effort_into_constant_chunks();
    let total: u64 = chunks.iter().map(|c| c.duration_in_minutes.to_hundredths()).sum();
    assert_eq!(total, 100);
}

#[test]
fn ramp_duration_conserved_when_not_divisible() {
    let chunks = Effort::new(pf(50), pf(10000), Some(pf(15000)))
        .split_ramp_effort_into_constant_chunks();
    assert_eq!(
        chunks,
        vec![
            Effort::new(pf(20), pf(10833), Some(pf(10833))),
            Effort::new(pf(20), pf(12500), Some(pf(12500))),
            Effort::new(pf(10), pf(14167), Some(pf(14167))),
        ]
    );
    let total: u64 = chunks.iter().map(|c| c.duration_in_minutes.to_hundredths()).sum();
    assert_eq!(total, 50);
}

#[test]
fn ramp_with_odd_duration_ends_at_its_own_end() {
    assert_eq!(
        Effort::new(pf(50), pf(10000), Some(pf(15000))).to_mrc(0),
        (
            String::from(
                "0.00\t108.33\n\
                0.20\t108.33\n\
                0.20\t125.00\n\
                0.40\t125.00\n\
                0.40\t141.67\n\
                0.50\t141.67"
            ),
            50
        )
    );
}

#[test]
fn descending_ramp_splits_with_falling_midpoints() {
    let chunks = Effort::new(pf(40), pf(20000), Some(pf(10000)))
        .split_ramp_effort_into_constant_chunks();
    assert_eq!(
        chunks,
        vec![
            Effort::new(pf(20), pf(17500), Some(pf(17500))),
            Effort::new(pf(20), pf(12500), Some(pf(12500))),
        ]
    );
}

#[test]
fn edit_cycle_commits_new_values() {
    let mut effort = Effort::new(pf(500), pf(10000), Some(pf(12000)));
    effort.to_edit();
    effort.update_duration_of_effort(String::from("7.50"));
    effort.update_starting_value(String::from("110.00"));
    effort.update_ending_value(String::from(""));
    let committed = effort.to_idle().unwrap();
    assert_eq!(committed.duration_in_minutes.to_hundredths(), 750);
    assert_eq!(committed.starting_value.to_hundredths(), 11000);
    assert_eq!(committed.ending_value.to_hundredths(), 11000);
}

#[test]
fn edit_cycle_keeps_bad_input_uncommitted() {
    let mut effort = Effort::new(pf(500), pf(10000), None);
    effort.to_edit();
    effort.update_duration_of_effort(String::from("not a number"));
    assert_eq!(effort.to_idle(), None);
}
