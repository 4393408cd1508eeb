//! The state of the workout-design page: the three text inputs a new
//! effort is typed into, and the messages that edit an existing effort.
use crate::workout_data::effort::text_value;
use crate::workout_data::effort::Effort;
use crate::workout_data::effort::EffortState;
use crate::workout_data::positive_float::InvalidPositiveFloatError;
use crate::workout_data::positive_float::PositiveFloat;
use crate::workout_data::workout::Workout;
use vstd::prelude::*;
use vstd::string::StringExecFns;

verus! {

/// What one effort row can be told while the workout is being designed.
#[derive(Debug, Clone, PartialEq)]
pub enum EffortMessage {
    Edit,
    ModificationDone,
    UpdateStartingValue(String),
    UpdateEndingValue(String),
    UpdateDurationInMinutes(String),
    Delete,
}

/// The two value inputs of the new-effort row.
#[derive(Debug, Clone, PartialEq)]
pub struct EffortInput {
    pub starting_value: String,
    pub ending_value: String,
}

/// The duration input of the new-effort row.
#[derive(Debug, Clone, PartialEq)]
pub struct DurationInput {
    pub value: String,
}

/// The new-effort input row: a duration and two values as raw text.
#[derive(Debug, Clone, PartialEq)]
pub struct EffortUnitInput {
    pub effort: EffortInput,
    pub duration: DurationInput,
}

impl EffortUnitInput {
    /// An empty input row.
    pub fn new() -> (r: Self)
        ensures
            r.effort.starting_value@.len() == 0,
            r.effort.ending_value@.len() == 0,
            r.duration.value@.len() == 0,
    {
        Self {
            effort: EffortInput { starting_value: String::new(), ending_value: String::new() },
            duration: DurationInput { value: String::new() },
        }
    }

    /// The typed starting value.
    pub fn starting_value(&self) -> (r: &str)
        ensures
            r@ == self.effort.starting_value@,
    {
        self.effort.starting_value.as_str()
    }

    /// The typed ending value.
    pub fn ending_value(&self) -> (r: &str)
        ensures
            r@ == self.effort.ending_value@,
    {
        self.effort.ending_value.as_str()
    }

    /// The typed duration.
    pub fn current_duration(&self) -> (r: &str)
        ensures
            r@ == self.duration.value@,
    {
        self.duration.value.as_str()
    }

    /// Overwrite the typed starting value.
    pub fn set_starting_value(&mut self, starting_value: String)
        ensures
            final(self).effort.starting_value == starting_value,
            final(self).effort.ending_value == old(self).effort.ending_value,
            final(self).duration == old(self).duration,
    {
        self.effort.starting_value = starting_value;
    }

    /// Overwrite the typed ending value.
    pub fn set_ending_value(&mut self, ending_value: String)
        ensures
            final(self).effort.ending_value == ending_value,
            final(self).effort.starting_value == old(self).effort.starting_value,
            final(self).duration == old(self).duration,
    {
        self.effort.ending_value = ending_value;
    }

    /// Overwrite the typed duration.
    pub fn set_duration(&mut self, effort: String)
        ensures
            final(self).duration.value == effort,
            final(self).effort == old(self).effort,
    {
        self.duration.value = effort;
    }

    /// Is a required field still empty?
    pub fn is_empty(&self) -> (r: bool)
        ensures
            r == (self.effort.starting_value@.len() == 0 || self.duration.value@.len() == 0),
    {
        self.effort.starting_value.as_str().is_empty() || self.duration.value.as_str().is_empty()
    }

    /// Empty all three fields.
    pub fn clear(&mut self)
        ensures
            final(self).effort.starting_value@.len() == 0,
            final(self).effort.ending_value@.len() == 0,
            final(self).duration.value@.len() == 0,
    {
        self.effort.starting_value = String::new();
        self.effort.ending_value = String::new();
        self.duration.value = String::new();
    }
}

impl Effort {
    /// The effort the input row denotes: its duration and starting value
    /// must parse, an empty ending value means a constant effort.
    pub fn try_from(effort_unit_input: &EffortUnitInput) -> (r: Result<
        Effort,
        InvalidPositiveFloatError,
    >)
        ensures
            match r {
                Ok(e) => {
                    &&& text_value(effort_unit_input.duration.value@) == Some(e.duration())
                    &&& text_value(effort_unit_input.effort.starting_value@) == Some(e.start())
                    &&& if effort_unit_input.effort.ending_value@.len() == 0 {
                        e.end() == e.start()
                    } else {
                        text_value(effort_unit_input.effort.ending_value@) == Some(e.end())
                    }
                    &&& e.gui_state == EffortState::Idle
                },
                Err(_) => text_value(effort_unit_input.duration.value@) is None || text_value(
                    effort_unit_input.effort.starting_value@,
                ) is None || (effort_unit_input.effort.ending_value@.len() != 0 && text_value(
                    effort_unit_input.effort.ending_value@,
                ) is None),
            },
    {
        let duration = match PositiveFloat::from_text(effort_unit_input.duration.value.as_str()) {
            Some(d) => d,
            None => {
                return Err(
                    InvalidPositiveFloatError::InvalidStringToParse {
                        message: String::from_str("invalid float literal"),
                    },
                );
            },
        };
        let starting = match PositiveFloat::from_text(
            effort_unit_input.effort.starting_value.as_str(),
        ) {
            Some(s) => s,
            None => {
                return Err(
                    InvalidPositiveFloatError::InvalidStringToParse {
                        message: String::from_str("invalid float literal"),
                    },
                );
            },
        };
        let ending: Option<PositiveFloat> = if effort_unit_input.effort.ending_value.as_str().is_empty() {
            None
        } else {
            match PositiveFloat::from_text(effort_unit_input.effort.ending_value.as_str()) {
                Some(e) => Some(e),
                None => {
                    return Err(
                        InvalidPositiveFloatError::InvalidStringToParse {
                            message: String::from_str("invalid float literal"),
                        },
                    );
                },
            }
        };
        Ok(Effort::new(duration, starting, ending))
    }
}

/// Drive one effort row of a workout with a message: deleting removes it,
/// editing and committing move it between its idle and editing states, and
/// the three update messages overwrite one pending text.
pub fn handle_effort_message(workout: &mut Workout, index: usize, effort_message: EffortMessage)
    requires
        index < old(workout).efforts@.len(),
    ensures
        final(workout).spec_name() == old(workout).spec_name(),
        final(workout).spec_description() == old(workout).spec_description(),
        final(workout).workout_type == old(workout).workout_type,
        match effort_message {
            EffortMessage::Delete => final(workout).efforts@ == old(workout).efforts@.remove(
                index as int,
            ),
            _ => final(workout).efforts@.len() == old(workout).efforts@.len() && forall|j: int|
                0 <= j < old(workout).efforts@.len() && j != index ==> final(workout).efforts@[j]
                    == old(workout).efforts@[j],
        },
        ({
            let before = old(workout).efforts@[index as int];
            match effort_message {
                EffortMessage::Delete => true,
                EffortMessage::Edit => {
                    let after = final(workout).efforts@[index as int];
                    &&& after.duration_in_minutes == before.duration_in_minutes
                    &&& after.starting_value == before.starting_value
                    &&& after.ending_value == before.ending_value
                    &&& after.gui_state matches EffortState::Editing {
                        starting_value,
                        ending_value,
                        duration_in_minutes,
                    } && starting_value@ == crate::workout_data::positive_float::render_hundredths(
                        before.start(),
                    ) && ending_value@ == crate::workout_data::positive_float::render_hundredths(
                        before.end(),
                    ) && duration_in_minutes@
                        == crate::workout_data::positive_float::render_hundredths(
                        before.duration(),
                    )
                },
                EffortMessage::ModificationDone => match before.commit_spec() {
                    Some(committed) => {
                        let after = final(workout).efforts@[index as int];
                        &&& after.duration() == committed.0
                        &&& after.start() == committed.1
                        &&& after.end() == committed.2
                        &&& after.gui_state == EffortState::Idle
                    },
                    None => final(workout).efforts@[index as int] == before,
                },
                EffortMessage::UpdateDurationInMinutes(updated) => {
                    let after = final(workout).efforts@[index as int];
                    &&& after.duration_in_minutes == before.duration_in_minutes
                    &&& after.starting_value == before.starting_value
                    &&& after.ending_value == before.ending_value
                    &&& match before.gui_state {
                        EffortState::Idle => after.gui_state == before.gui_state,
                        EffortState::Editing { starting_value: sv, ending_value: ev, duration_in_minutes: _ } => after.gui_state
                            == (EffortState::Editing {
                            starting_value: sv,
                            ending_value: ev,
                            duration_in_minutes: updated,
                        }),
                    }
                },
                EffortMessage::UpdateStartingValue(updated) => {
                    let after = final(workout).efforts@[index as int];
                    &&& after.duration_in_minutes == before.duration_in_minutes
                    &&& after.starting_value == before.starting_value
                    &&& after.ending_value == before.ending_value
                    &&& match before.gui_state {
                        EffortState::Idle => after.gui_state == before.gui_state,
                        EffortState::Editing { starting_value: _, ending_value: ev, duration_in_minutes: dv } => after.gui_state
                            == (EffortState::Editing {
                            starting_value: updated,
                            ending_value: ev,
                            duration_in_minutes: dv,
                        }),
                    }
                },
                EffortMessage::UpdateEndingValue(updated) => {
                    let after = final(workout).efforts@[index as int];
                    &&& after.duration_in_minutes == before.duration_in_minutes
                    &&& after.starting_value == before.starting_value
                    &&& after.ending_value == before.ending_value
                    &&& match before.gui_state {
                        EffortState::Idle => after.gui_state == before.gui_state,
                        EffortState::Editing { starting_value: sv, ending_value: _, duration_in_minutes: dv } => after.gui_state
                            == (EffortState::Editing {
                            starting_value: sv,
                            ending_value: updated,
                            duration_in_minutes: dv,
                        }),
                    }
                },
            }
        }),
{
    match effort_message {
        EffortMessage::Delete => {
            workout.remove(index);
        },
        EffortMessage::Edit => {
            workout.to_edit(index);
        },
        EffortMessage::ModificationDone => {
            workout.to_idle(index);
        },
        EffortMessage::UpdateDurationInMinutes(updated_duration_in_minutes) => {
            workout.update_duration_of_effort(index, updated_duration_in_minutes);
        },
        EffortMessage::UpdateStartingValue(updated_value) => {
            workout.efforts[index].update_starting_value(updated_value);
        },
        EffortMessage::UpdateEndingValue(updated_value) => {
            workout.efforts[index].update_ending_value(updated_value);
        },
    }
}

} // verus!
