//! The state of the workout-definition page: a chosen unit type, a name
//! and a description, waiting to be turned into a workout.
use crate::workout_data::workout::WorkoutType;
use vstd::prelude::*;
use vstd::string::StringExecFns;

verus! {

/// Holding the state of the workout-definition page.
#[derive(Debug, Clone, PartialEq)]
pub struct WorkoutDefiner {
    selected_workout_type: Option<WorkoutType>,
    workout_name: String,
    workout_description: String,
}

/// What the definition page can be told.
#[derive(Debug, Clone, PartialEq)]
pub enum WorkoutDefinerMessage {
    TypeSelected(WorkoutType),
    GenerateWorkoutClicked,
    LoadWorkoutClicked,
}

impl WorkoutDefiner {
    /// A fresh page: nothing chosen, nothing typed.
    pub fn new() -> (r: Self)
        ensures
            r.spec_selected_workout_type() is None,
            r.spec_workout_name().len() == 0,
            r.spec_workout_description().len() == 0,
    {
        proof {
            reveal_strlit("");
        }
        Self {
            selected_workout_type: None,
            workout_name: String::from_str(""),
            workout_description: String::from_str(""),
        }
    }

    /// The chosen unit type, if any.
    pub closed spec fn spec_selected_workout_type(&self) -> Option<WorkoutType> {
        self.selected_workout_type
    }

    /// The typed name.
    pub closed spec fn spec_workout_name(&self) -> Seq<char> {
        self.workout_name@
    }

    /// The typed description.
    pub closed spec fn spec_workout_description(&self) -> Seq<char> {
        self.workout_description@
    }

    /// Drive the page with one message: choosing a type records it, the
    /// two button messages are handled by the surrounding shell and change
    /// nothing here.
    pub fn update(&mut self, message: WorkoutDefinerMessage)
        ensures
            final(self).spec_workout_name() == old(self).spec_workout_name(),
            final(self).spec_workout_description() == old(self).spec_workout_description(),
            match message {
                WorkoutDefinerMessage::TypeSelected(workout_type) => final(self).spec_selected_workout_type() == Some(workout_type),
                _ => final(self).spec_selected_workout_type() == old(self).spec_selected_workout_type(),
            },
    {
        match message {
            WorkoutDefinerMessage::TypeSelected(workout_type) => {
                self.selected_workout_type = Some(workout_type);
            },
            WorkoutDefinerMessage::GenerateWorkoutClicked => {},
            WorkoutDefinerMessage::LoadWorkoutClicked => {},
        }
    }

    /// The typed name.
    pub fn get_workout_name(&self) -> (r: &str)
        ensures
            r@ == self.spec_workout_name(),
    {
        self.workout_name.as_str()
    }

    /// The typed description.
    pub fn get_workout_description(&self) -> (r: &str)
        ensures
            r@ == self.spec_workout_description(),
    {
        self.workout_description.as_str()
    }

    /// The chosen unit type, if any.
    pub fn get_selected_workout_type(&self) -> (r: Option<WorkoutType>)
        ensures
            r == self.spec_selected_workout_type(),
    {
        self.selected_workout_type
    }
}

} // verus!
