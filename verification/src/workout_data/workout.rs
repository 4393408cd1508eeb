//! A planned workout: an ordered list of efforts with a name, a description
//! and a unit type, together with its course-file emission.
use crate::workout_data::effort::effort_mrc_spec;
use crate::workout_data::effort::Effort;
use crate::workout_data::effort::EffortState;
use crate::workout_data::effort::total_duration;
use crate::workout_data::positive_float::render_hundredths;
use vstd::prelude::*;
use vstd::string::StringExecFns;
use crate::MAX_HUNDREDTHS;

verus! {

/// Largest number of efforts a workout may hold, so that duration sums stay
/// well within machine bounds.
pub const MAX_EFFORTS: usize = 10_000;

/// Largest starting minute accepted when emitting a whole effort list; room
/// is left above it for the longest possible workout.
pub const MAX_LIST_MINUTE: u64 = 0x1000_0000_0000_0000;

/// Whether effort values are absolute watts or a percentage of the rider's
/// functional threshold power; it selects the course header's unit line.
#[derive(Debug, Clone, Copy, PartialEq, Eq, Structural)]
pub enum WorkoutType {
    Watts,
    PercentOfFTP,
}

/// The unit line the course header carries for a workout type.
pub open spec fn unit_line_spec(workout_type: WorkoutType) -> Seq<char> {
    match workout_type {
        WorkoutType::Watts => "MINUTES WATTS"@,
        WorkoutType::PercentOfFTP => "MINUTES PERCENTAGE"@,
    }
}

/// A planned workout.
#[derive(Debug, Clone, PartialEq)]
pub struct Workout {
    /// Name of the workout; the full name of the file will be `<name>.mrc`.
    pub name: String,
    /// Description of the workout, written into the `.mrc` file.
    pub description: String,
    /// The individual efforts of the workout, in execution order.
    pub efforts: Vec<Effort>,
    /// Unit the effort values are expressed in.
    pub workout_type: WorkoutType,
}

/// Sum over all efforts of `duration * (starting + ending)`, the quantity
/// the workout's average intensity is computed from.
pub open spec fn weighted_sum(efforts: Seq<Effort>) -> nat
    decreases efforts.len(),
{
    if efforts.len() == 0 {
        0
    } else {
        efforts[0].duration() * (efforts[0].start() + efforts[0].end()) + weighted_sum(
            efforts.skip(1),
        )
    }
}

/// The course data lines of an effort list starting at minute `t`, joined
/// by newlines.
pub open spec fn efforts_mrc_spec(efforts: Seq<Effort>, t: nat) -> Seq<char>
    decreases efforts.len(),
{
    if efforts.len() == 0 {
        Seq::empty()
    } else if efforts.len() == 1 {
        effort_mrc_spec(efforts[0].duration(), efforts[0].start(), efforts[0].end(), t)
    } else {
        effort_mrc_spec(efforts[0].duration(), efforts[0].start(), efforts[0].end(), t) + seq![
            '\n',
        ] + efforts_mrc_spec(efforts.skip(1), t + efforts[0].duration())
    }
}

/// The description line's content: an empty description is written as the
/// literal words `no description`.
pub open spec fn desc_or_default(desc: Seq<char>) -> Seq<char> {
    if desc.len() == 0 {
        "no description"@
    } else {
        desc
    }
}

/// The whole course header block.
pub open spec fn mrc_head_spec(desc: Seq<char>, workout_type: WorkoutType) -> Seq<char> {
    "[COURSE HEADER]\nDESCRIPTION = "@ + desc_or_default(desc) + seq!['\n'] + unit_line_spec(
        workout_type,
    ) + "\n[END COURSE HEADER]"@
}

/// The whole course data block.
pub open spec fn mrc_body_spec(efforts: Seq<Effort>) -> Seq<char> {
    "[COURSE DATA]\n"@ + efforts_mrc_spec(efforts, 0) + "\n[END COURSE DATA]"@
}

/// The complete course file of a workout.
pub open spec fn workout_mrc_spec(
    desc: Seq<char>,
    workout_type: WorkoutType,
    efforts: Seq<Effort>,
) -> Seq<char> {
    mrc_head_spec(desc, workout_type) + seq!['\n'] + mrc_body_spec(efforts)
}

/// Splitting off the first effort moves the sum of a prefix one step.
pub proof fn lemma_total_duration_take_step(efforts: Seq<Effort>, i: int)
    requires
        0 <= i < efforts.len(),
    ensures
        total_duration(efforts.take(i + 1)) == total_duration(efforts.take(i))
            + efforts[i].duration(),
    decreases i,
{
    if i == 0 {
        assert(efforts.take(0) =~= Seq::<Effort>::empty());
        assert(efforts.take(1) =~= seq![efforts[0]]);
        assert(efforts.take(1).skip(1) =~= Seq::<Effort>::empty());
    } else {
        lemma_total_duration_take_step(efforts.skip(1), i - 1);
        assert(efforts.take(i + 1).skip(1) =~= efforts.skip(1).take(i));
        assert(efforts.take(i).skip(1) =~= efforts.skip(1).take(i - 1));
        assert(efforts.take(i + 1)[0] == efforts[0]);
        assert(efforts.take(i)[0] == efforts[0]);
        assert(efforts.skip(1)[i - 1] == efforts[i]);
    }
}

/// A whole sequence is the prefix of its own length.
pub proof fn lemma_total_duration_take_all(efforts: Seq<Effort>)
    ensures
        total_duration(efforts.take(efforts.len() as int)) == total_duration(efforts),
{
    assert(efforts.take(efforts.len() as int) =~= efforts);
}

/// The plan-format block of one effort: its starting and ending values as
/// whole units and its duration in whole seconds.
pub open spec fn effort_plan_spec(e: Effort) -> Seq<char> {
    "=INTERVAL=\nPWR_LO="@ + crate::workout_data::positive_float::dec_digits(e.start() / 100)
        + "\nPWR_HI="@ + crate::workout_data::positive_float::dec_digits(e.end() / 100)
        + "\nMESG_DURATION_SEC>="@ + crate::workout_data::positive_float::dec_digits(
        e.duration() * 60 / 100,
    ) + "?EXIT"@
}

/// The plan-format blocks of an effort list, joined by newlines.
pub open spec fn efforts_plan_spec(efforts: Seq<Effort>) -> Seq<char>
    decreases efforts.len(),
{
    if efforts.len() == 0 {
        Seq::empty()
    } else if efforts.len() == 1 {
        effort_plan_spec(efforts[0])
    } else {
        effort_plan_spec(efforts[0]) + seq!['\n'] + efforts_plan_spec(efforts.skip(1))
    }
}

/// The complete plan-format text of a workout.
pub open spec fn workout_plan_spec(name: Seq<char>, efforts: Seq<Effort>) -> Seq<char> {
    "=HEADER=\nNAME="@ + name + "\nWORKOUT_TYPE=0\n=STREAM=\n"@ + efforts_plan_spec(efforts)
}

impl Workout {
    /// The workout's name.
    pub open spec fn spec_name(&self) -> Seq<char> {
        self.name@
    }

    /// The workout's description.
    pub open spec fn spec_description(&self) -> Seq<char> {
        self.description@
    }

    /// A workout small enough for every aggregate to fit its machine type.
    pub open spec fn wf(&self) -> bool {
        self.efforts@.len() <= MAX_EFFORTS
    }

    /// Create a new workout, expressed in watts.
    pub fn new(name: &str, description: &str, efforts: Vec<Effort>) -> (r: Self)
        ensures
            r.spec_name() == name@,
            r.spec_description() == description@,
            r.efforts@ == efforts@,
            r.workout_type == WorkoutType::Watts,
    {
        Self {
            name: String::from_str(name),
            description: String::from_str(description),
            efforts,
            workout_type: WorkoutType::Watts,
        }
    }

    /// Create a new workout without any efforts.
    pub fn empty(name: &str, description: &str) -> (r: Self)
        ensures
            r.spec_name() == name@,
            r.spec_description() == description@,
            r.efforts@.len() == 0,
            r.workout_type == WorkoutType::Watts,
    {
        Self::new(name, description, Vec::new())
    }

    /// The workout's name, as text.
    pub fn name(&self) -> (r: &String)
        ensures
            r@ == self.spec_name(),
    {
        &self.name
    }

    /// The workout's description, as text.
    pub fn description(&self) -> (r: &String)
        ensures
            r@ == self.spec_description(),
    {
        &self.description
    }

    /// The course header block of this workout.
    pub fn mrc_head(&self) -> (r: String)
        ensures
            r@ == mrc_head_spec(self.spec_description(), self.workout_type),
    {
        let mut s = String::from_str("[COURSE HEADER]\nDESCRIPTION = ");
        if self.description.as_str().is_empty() {
            s.append("no description");
        } else {
            s.append(self.description.as_str());
        }
        s.append("\n");
        match self.workout_type {
            WorkoutType::Watts => s.append("MINUTES WATTS"),
            WorkoutType::PercentOfFTP => s.append("MINUTES PERCENTAGE"),
        }
        s.append("\n[END COURSE HEADER]");
        proof {
            reveal_strlit("\n");
            assert("\n"@ =~= seq!['\n']);
            assert(s@ =~= mrc_head_spec(self.spec_description(), self.workout_type));
        }
        s
    }

    /// The course data block of this workout.
    pub fn mrc_body(&self) -> (r: String)
        requires
            self.wf(),
        ensures
            r@ == mrc_body_spec(self.efforts@),
    {
        let (data, _final_minute) = efforts_to_mrc(&self.efforts, 0);
        let mut s = String::from_str("[COURSE DATA]\n");
        s.append(data.as_str());
        s.append("\n[END COURSE DATA]");
        proof {
            assert(s@ =~= mrc_body_spec(self.efforts@));
        }
        s
    }

    /// Generate the complete course-file text of this workout.
    pub fn to_mrc(&self) -> (r: String)
        requires
            self.wf(),
        ensures
            r@ == workout_mrc_spec(self.spec_description(), self.workout_type, self.efforts@),
    {
        let mut s = self.mrc_head();
        let body = self.mrc_body();
        s.append("\n");
        s.append(body.as_str());
        proof {
            reveal_strlit("\n");
            assert("\n"@ =~= seq!['\n']);
            assert(s@ =~= workout_mrc_spec(
                self.spec_description(),
                self.workout_type,
                self.efforts@,
            ));
        }
        s
    }

    /// The plan-format header block of this workout.
    pub fn plan_format_head(&self) -> (r: String)
        ensures
            r@ == "=HEADER=\nNAME="@ + self.spec_name() + "\nWORKOUT_TYPE=0"@,
    {
        let mut s = String::from_str("=HEADER=\nNAME=");
        s.append(self.name.as_str());
        s.append("\nWORKOUT_TYPE=0");
        s
    }

    /// The plan-format body block of this workout.
    pub fn plan_format_body(&self) -> (r: String)
        requires
            self.wf(),
        ensures
            r@ == "=STREAM=\n"@ + efforts_plan_spec(self.efforts@),
    {
        let mut s = String::from_str("=STREAM=\n");
        let body = self.efforts_in_plan_format();
        s.append(body.as_str());
        s
    }

    /// The plan-format blocks of this workout's efforts, joined by
    /// newlines.
    pub fn efforts_in_plan_format(&self) -> (r: String)
        requires
            self.wf(),
        ensures
            r@ == efforts_plan_spec(self.efforts@),
    {
        let n = self.efforts.len();
        let mut i: usize = 0;
        let mut body = String::new();
        proof {
            assert(self.efforts@.skip(0) =~= self.efforts@);
        }
        while i < n
            invariant
                n == self.efforts@.len(),
                i <= n,
                efforts_plan_spec(self.efforts@) == body@ + (if i == 0 {
                    efforts_plan_spec(self.efforts@)
                } else if i < n {
                    seq!['\n'] + efforts_plan_spec(self.efforts@.skip(i as int))
                } else {
                    Seq::<char>::empty()
                }),
                i == 0 ==> body@ =~= Seq::<char>::empty(),
            decreases n - i,
        {
            let current_effort = &self.efforts[i];
            proof {
                use_type_invariant(&current_effort.duration_in_minutes);
                use_type_invariant(&current_effort.starting_value);
                use_type_invariant(&current_effort.ending_value);
            }
            let block = effort_to_plan_format(current_effort);
            if i == 0 {
                body = block;
            } else {
                body.append("\n");
                body.append(block.as_str());
            }
            proof {
                reveal_strlit("\n");
                assert("\n"@ =~= seq!['\n']);
                let rest = self.efforts@.skip(i as int);
                assert(rest[0] == self.efforts@[i as int]);
                assert(rest.skip(1) =~= self.efforts@.skip(i as int + 1));
                if i + 1 < n {
                    assert(efforts_plan_spec(rest) == effort_plan_spec(rest[0]) + seq!['\n']
                        + efforts_plan_spec(rest.skip(1)));
                }
            }
            i = i + 1;
        }
        proof {
            if n == 0 {
                assert(body@ =~= efforts_plan_spec(self.efforts@));
            }
        }
        body
    }

    /// The plan-format text of this workout.
    pub fn to_plan_format(&self) -> (r: String)
        requires
            self.wf(),
        ensures
            r@ == workout_plan_spec(self.spec_name(), self.efforts@),
    {
        let mut s = self.plan_format_head();
        let body = self.plan_format_body();
        s.append("\n");
        s.append(body.as_str());
        proof {
            reveal_strlit("\n");
            reveal_strlit("=HEADER=\nNAME=");
            reveal_strlit("\nWORKOUT_TYPE=0");
            reveal_strlit("=STREAM=\n");
            reveal_strlit("\nWORKOUT_TYPE=0\n=STREAM=\n");
            assert("\n"@ =~= seq!['\n']);
            assert(s@ =~= workout_plan_spec(self.spec_name(), self.efforts@));
        }
        s
    }

    /// Add a new effort to the workout.
    pub fn add_effort(&mut self, effort: Effort)
        requires
            old(self).efforts@.len() < MAX_EFFORTS,
        ensures
            final(self).efforts@ == old(self).efforts@.push(effort),
            final(self).spec_name() == old(self).spec_name(),
            final(self).spec_description() == old(self).spec_description(),
            final(self).workout_type == old(self).workout_type,
    {
        self.efforts.push(effort);
    }

    /// Remove an effort from the workout.
    pub fn remove(&mut self, index: usize)
        requires
            index < old(self).efforts@.len(),
        ensures
            final(self).efforts@ == old(self).efforts@.remove(index as int),
            final(self).spec_name() == old(self).spec_name(),
            final(self).spec_description() == old(self).spec_description(),
            final(self).workout_type == old(self).workout_type,
    {
        self.efforts.remove(index);
    }

    /// Make an effort editable.
    pub fn to_edit(&mut self, index: usize)
        requires
            index < old(self).efforts@.len(),
        ensures
            final(self).efforts@.len() == old(self).efforts@.len(),
            final(self).spec_name() == old(self).spec_name(),
            final(self).spec_description() == old(self).spec_description(),
            final(self).workout_type == old(self).workout_type,
            forall|j: int|
                0 <= j < old(self).efforts@.len() && j != index ==> final(self).efforts@[j] == old(
                    self,
                ).efforts@[j],
            ({
                let before = old(self).efforts@[index as int];
                let after = final(self).efforts@[index as int];
                &&& after.duration_in_minutes == before.duration_in_minutes
                &&& after.starting_value == before.starting_value
                &&& after.ending_value == before.ending_value
                &&& after.gui_state matches EffortState::Editing {
                    starting_value,
                    ending_value,
                    duration_in_minutes,
                } && starting_value@ == render_hundredths(before.start()) && ending_value@
                    == render_hundredths(before.end()) && duration_in_minutes@
                    == render_hundredths(before.duration())
            }),
    {
        self.efforts[index].to_edit()
    }

    /// Commit an effort's pending edit, keeping the edit in place when it
    /// does not parse.
    pub fn to_idle(&mut self, index: usize)
        requires
            index < old(self).efforts@.len(),
        ensures
            final(self).efforts@.len() == old(self).efforts@.len(),
            final(self).spec_name() == old(self).spec_name(),
            final(self).spec_description() == old(self).spec_description(),
            final(self).workout_type == old(self).workout_type,
            forall|j: int|
                0 <= j < old(self).efforts@.len() && j != index ==> final(self).efforts@[j] == old(
                    self,
                ).efforts@[j],
            match old(self).efforts@[index as int].commit_spec() {
                Some(committed) => {
                    let after = final(self).efforts@[index as int];
                    &&& after.duration() == committed.0
                    &&& after.start() == committed.1
                    &&& after.end() == committed.2
                    &&& after.gui_state == EffortState::Idle
                },
                None => final(self).efforts@[index as int] == old(self).efforts@[index as int],
            },
    {
        if let Some(new_effort) = self.efforts[index].to_idle() {
            self.efforts[index] = new_effort;
        }
    }

    /// While an effort is being edited, overwrite its pending duration text.
    pub fn update_duration_of_effort(&mut self, index: usize, updated_duration_in_minutes: String)
        requires
            index < old(self).efforts@.len(),
        ensures
            final(self).efforts@.len() == old(self).efforts@.len(),
            final(self).spec_name() == old(self).spec_name(),
            final(self).spec_description() == old(self).spec_description(),
            final(self).workout_type == old(self).workout_type,
            forall|j: int|
                0 <= j < old(self).efforts@.len() && j != index ==> final(self).efforts@[j] == old(
                    self,
                ).efforts@[j],
            ({
                let before = old(self).efforts@[index as int];
                let after = final(self).efforts@[index as int];
                &&& after.duration_in_minutes == before.duration_in_minutes
                &&& after.starting_value == before.starting_value
                &&& after.ending_value == before.ending_value
                &&& match before.gui_state {
                    EffortState::Idle => after.gui_state == before.gui_state,
                    EffortState::Editing { starting_value: sv, ending_value: ev, duration_in_minutes: _ } => after.gui_state
                        == (EffortState::Editing {
                        starting_value: sv,
                        ending_value: ev,
                        duration_in_minutes: updated_duration_in_minutes,
                    }),
                }
            }),
    {
        self.efforts[index].update_duration_of_effort(updated_duration_in_minutes);
    }

    /// Total duration of the workout, in hundredths of a minute.
    pub fn total_time_of_workout(&self) -> (r: u64)
        requires
            self.wf(),
        ensures
            r == total_duration(self.efforts@),
            r <= self.efforts@.len() * (MAX_HUNDREDTHS as int),
    {
        let n = self.efforts.len();
        let mut total: u64 = 0;
        let mut i: usize = 0;
        proof {
            assert(self.efforts@.take(0) =~= Seq::<Effort>::empty());
        }
        while i < n
            invariant
                n == self.efforts@.len(),
                n <= MAX_EFFORTS,
                i <= n,
                total == total_duration(self.efforts@.take(i as int)),
                total <= i * (MAX_HUNDREDTHS as int),
            decreases n - i,
        {
            let current_effort = &self.efforts[i];
            proof {
                use_type_invariant(&current_effort.duration_in_minutes);
                lemma_total_duration_take_step(self.efforts@, i as int);
            }
            total = total + current_effort.duration_in_minutes.to_hundredths();
            i = i + 1;
        }
        proof {
            lemma_total_duration_take_all(self.efforts@);
        }
        total
    }

    /// Total duration of the workout, in hundredths of a minute.
    pub fn workout_duration(&self) -> (r: u64)
        requires
            self.wf(),
        ensures
            r == total_duration(self.efforts@),
    {
        self.total_time_of_workout()
    }

    /// Average intensity over the whole workout: each effort's mean value,
    /// weighted by its share of the total duration.
    pub fn average_intensity(&self) -> (r: u64)
        requires
            self.wf(),
            total_duration(self.efforts@) > 0,
        ensures
            r == weighted_sum(self.efforts@) / (2 * total_duration(self.efforts@)),
    {
        let duration = self.total_time_of_workout();
        let n = self.efforts.len();
        let mut acc: u64 = 0;
        let mut i: usize = 0;
        proof {
            assert(self.efforts@.take(0) =~= Seq::<Effort>::empty());
        }
        while i < n
            invariant
                n == self.efforts@.len(),
                n <= MAX_EFFORTS,
                i <= n,
                acc == weighted_sum(self.efforts@.take(i as int)),
                acc <= i * 200_000_000_000_000,
            decreases n - i,
        {
            let current_effort = &self.efforts[i];
            proof {
                use_type_invariant(&current_effort.duration_in_minutes);
                use_type_invariant(&current_effort.starting_value);
                use_type_invariant(&current_effort.ending_value);
                lemma_weighted_sum_take_step(self.efforts@, i as int);
                assert(current_effort.duration() * (current_effort.start() + current_effort.end())
                    <= 200_000_000_000_000) by (nonlinear_arith)
                    requires
                        current_effort.duration() <= MAX_HUNDREDTHS,
                        current_effort.start() <= MAX_HUNDREDTHS,
                        current_effort.end() <= MAX_HUNDREDTHS,
                        MAX_HUNDREDTHS == 10_000_000,
                ;
            }
            let d = current_effort.duration_in_minutes.to_hundredths();
            let sv = current_effort.starting_value.to_hundredths();
            let ev = current_effort.ending_value.to_hundredths();
            acc = acc + d * (sv + ev);
            i = i + 1;
        }
        proof {
            lemma_weighted_sum_take_all(self.efforts@);
        }
        acc / (2 * duration)
    }
}

/// Why a workout could not be read from text.
#[derive(PartialEq, Debug)]
pub enum ExtractWorkoutError {
    Description(crate::workout_data::from_mrc::ExtractDescriptionError),
    Efforts(crate::workout_data::from_mrc::ExtractEffortError),
    FromPlanFormatError,
}

impl Workout {
    /// Read a workout back from course-file text: the description falls
    /// back to empty, the data block must parse.
    pub fn from_mrc(mrc: &str) -> (r: Result<Workout, ExtractWorkoutError>)
        ensures
            match r {
                Ok(w) => {
                    &&& w.spec_name().len() == 0
                    &&& w.spec_description() == (match crate::workout_data::from_mrc::extract_description_spec(
                        mrc@,
                    ) {
                        Some(d) => d,
                        None => Seq::<char>::empty(),
                    })
                    &&& w.workout_type == WorkoutType::Watts
                    &&& crate::workout_data::from_mrc::decode_pairs_spec(mrc@) matches Some(ps)
                        && crate::workout_data::from_mrc::collect_pairs(ps) matches Some(vals)
                        && w.efforts@.len() == vals.len() && (forall|i: int|
                        0 <= i < vals.len() ==> {
                            &&& (#[trigger] w.efforts@[i]).duration() == vals[i].0
                            &&& w.efforts@[i].start() == vals[i].1
                            &&& w.efforts@[i].end() == vals[i].2
                            &&& w.efforts@[i].gui_state == EffortState::Idle
                        })
                },
                Err(e) => match crate::workout_data::from_mrc::decode_pairs_spec(mrc@) {
                    None => e == ExtractWorkoutError::Efforts(
                        crate::workout_data::from_mrc::ExtractEffortError::NoEffortsGiven,
                    ),
                    Some(ps) => crate::workout_data::from_mrc::collect_pairs(ps) is None && (
                    e matches ExtractWorkoutError::Efforts(inner) && inner matches crate::workout_data::from_mrc::ExtractEffortError::EffortNotValid(bad) && exists|k: int|
                        0 <= k < ps.len() && crate::workout_data::from_mrc::effort_values_of_pair(
                            #[trigger] ps[k],
                        ) is None && (forall|j: int|
                            0 <= j < k ==> crate::workout_data::from_mrc::effort_values_of_pair(
                                #[trigger] ps[j],
                            ) is Some) && crate::workout_data::from_mrc::pair_error_rel(ps[k], bad)),
                },
            },
    {
        let description = match crate::workout_data::from_mrc::extract_description(mrc) {
            Ok(description) => description,
            Err(_) => String::new(),
        };
        let efforts = match crate::workout_data::from_mrc::extract_efforts(mrc) {
            Ok(efforts) => efforts,
            Err(e) => {
                return Err(ExtractWorkoutError::Efforts(e));
            },
        };
        Ok(Self { name: String::new(), description, efforts, workout_type: WorkoutType::Watts })
    }
}

impl Workout {
    /// Read a workout from plan-format text; any plan error is reported as
    /// one workout-level error.
    pub fn from_plan_format(workout_in_plan_format: &str) -> (r: Result<
        Workout,
        ExtractWorkoutError,
    >)
        ensures
            match crate::workout_data::from_plan_format::split_plan_spec(
                workout_in_plan_format@,
            ) {
                None => r matches Err(e) && e == ExtractWorkoutError::FromPlanFormatError,
                Some(parts) => match crate::workout_data::from_plan_format::collect_blocks(
                    crate::workout_data::from_plan_format::blocks_spec(
                        crate::text::lines_spec(parts.1),
                    ),
                ) {
                    Some(vals) => r matches Ok(w) && w.spec_name() == parts.0
                        && w.spec_description().len() == 0 && w.workout_type == WorkoutType::Watts
                        && w.efforts@.len() == vals.len() && (forall|i: int|
                        0 <= i < vals.len() ==> {
                            &&& (#[trigger] w.efforts@[i]).duration() == vals[i].0
                            &&& w.efforts@[i].start() == vals[i].1
                            &&& w.efforts@[i].end() == vals[i].1
                            &&& w.efforts@[i].gui_state == EffortState::Idle
                        }),
                    None => r matches Err(e) && e == ExtractWorkoutError::FromPlanFormatError,
                },
            },
    {
        match crate::workout_data::from_plan_format::extract_workout(workout_in_plan_format) {
            Ok(w) => Ok(w),
            Err(_) => Err(ExtractWorkoutError::FromPlanFormatError),
        }
    }
}

/// The plan-format block of one effort, as a string.
fn effort_to_plan_format(effort: &Effort) -> (r: String)
    ensures
        r@ == effort_plan_spec(*effort),
{
    proof {
        use_type_invariant(&effort.duration_in_minutes);
        use_type_invariant(&effort.starting_value);
        use_type_invariant(&effort.ending_value);
    }
    let mut s = String::from_str("=INTERVAL=\nPWR_LO=");
    let lo = crate::workout_data::positive_float::render_u64_int(
        effort.starting_value.to_hundredths() / 100,
    );
    let hi = crate::workout_data::positive_float::render_u64_int(
        effort.ending_value.to_hundredths() / 100,
    );
    let secs = crate::workout_data::positive_float::render_u64_int(
        effort.duration_in_minutes.to_hundredths() * 60 / 100,
    );
    s.append(lo.as_str());
    s.append("\nPWR_HI=");
    s.append(hi.as_str());
    s.append("\nMESG_DURATION_SEC>=");
    s.append(secs.as_str());
    s.append("?EXIT");
    proof {
        assert(s@ =~= effort_plan_spec(*effort));
    }
    s
}

/// Splitting off the first effort moves the weighted sum of a prefix one
/// step.
pub proof fn lemma_weighted_sum_take_step(efforts: Seq<Effort>, i: int)
    requires
        0 <= i < efforts.len(),
    ensures
        weighted_sum(efforts.take(i + 1)) == weighted_sum(efforts.take(i)) + efforts[i].duration()
            * (efforts[i].start() + efforts[i].end()),
    decreases i,
{
    if i == 0 {
        assert(efforts.take(0) =~= Seq::<Effort>::empty());
        assert(efforts.take(1) =~= seq![efforts[0]]);
        assert(efforts.take(1).skip(1) =~= Seq::<Effort>::empty());
    } else {
        lemma_weighted_sum_take_step(efforts.skip(1), i - 1);
        assert(efforts.take(i + 1).skip(1) =~= efforts.skip(1).take(i));
        assert(efforts.take(i).skip(1) =~= efforts.skip(1).take(i - 1));
        assert(efforts.take(i + 1)[0] == efforts[0]);
        assert(efforts.take(i)[0] == efforts[0]);
        assert(efforts.skip(1)[i - 1] == efforts[i]);
    }
}

/// A whole sequence is the prefix of its own length.
pub proof fn lemma_weighted_sum_take_all(efforts: Seq<Effort>)
    ensures
        weighted_sum(efforts.take(efforts.len() as int)) == weighted_sum(efforts),
{
    assert(efforts.take(efforts.len() as int) =~= efforts);
}

/// The starting minute of each effort in a list that begins at
/// `starting_minute`: the running sum of the durations before it.
pub fn extract_initial_starting_minutes(efforts: &Vec<Effort>, starting_minute: u64) -> (r: Vec<
    u64,
>)
    requires
        starting_minute <= MAX_LIST_MINUTE,
        efforts@.len() <= MAX_EFFORTS,
    ensures
        r@.len() == efforts@.len(),
        forall|i: int|
            0 <= i < r@.len() ==> #[trigger] r@[i] == starting_minute + total_duration(
                efforts@.take(i),
            ),
{
    let mut starting_times: Vec<u64> = Vec::new();
    let mut current_starting_time: u64 = starting_minute;
    let n = efforts.len();
    let mut i: usize = 0;
    proof {
        assert(efforts@.take(0) =~= Seq::<Effort>::empty());
    }
    while i < n
        invariant
            n == efforts@.len(),
            n <= MAX_EFFORTS,
            i <= n,
            starting_minute <= MAX_LIST_MINUTE,
            current_starting_time == starting_minute + total_duration(efforts@.take(i as int)),
            current_starting_time <= starting_minute + i * (MAX_HUNDREDTHS as int),
            starting_times@.len() == i,
            forall|j: int|
                0 <= j < i ==> #[trigger] starting_times@[j] == starting_minute + total_duration(
                    efforts@.take(j),
                ),
        decreases n - i,
    {
        starting_times.push(current_starting_time);
        let current_effort = &efforts[i];
        proof {
            use_type_invariant(&current_effort.duration_in_minutes);
            lemma_total_duration_take_step(efforts@, i as int);
        }
        current_starting_time = current_starting_time
            + current_effort.duration_in_minutes.to_hundredths();
        i = i + 1;
    }
    starting_times
}

/// The course data lines of an effort list and the minute where the list
/// ends: its starting minute plus the sum of all durations.
#[verifier::rlimit(60)]
pub fn efforts_to_mrc(efforts: &Vec<Effort>, starting_minute: u64) -> (r: (String, u64))
    requires
        starting_minute <= MAX_LIST_MINUTE,
        efforts@.len() <= MAX_EFFORTS,
    ensures
        r.0@ == efforts_mrc_spec(efforts@, starting_minute as nat),
        r.1 == starting_minute + total_duration(efforts@),
{
    let n = efforts.len();
    let mut s = String::new();
    let mut minute: u64 = starting_minute;
    let mut i: usize = 0;
    proof {
        assert(efforts@.take(0) =~= Seq::<Effort>::empty());
        assert(efforts@.skip(0) =~= efforts@);
    }
    while i < n
        invariant
            n == efforts@.len(),
            n <= MAX_EFFORTS,
            i <= n,
            starting_minute <= MAX_LIST_MINUTE,
            minute == starting_minute + total_duration(efforts@.take(i as int)),
            minute <= starting_minute + i * (MAX_HUNDREDTHS as int),
            efforts_mrc_spec(efforts@, starting_minute as nat) == s@ + (if i == 0 {
                efforts_mrc_spec(efforts@, starting_minute as nat)
            } else if i < n {
                seq!['\n'] + efforts_mrc_spec(efforts@.skip(i as int), minute as nat)
            } else {
                Seq::<char>::empty()
            }),
            i == 0 ==> s@ =~= Seq::<char>::empty(),
        decreases n - i,
    {
        let current_effort = &efforts[i];
        proof {
            use_type_invariant(&current_effort.duration_in_minutes);
            lemma_total_duration_take_step(efforts@, i as int);
        }
        let (effort_text, next_minute) = current_effort.to_mrc(minute);
        if i == 0 {
            s = effort_text;
        } else {
            s.append("\n");
            s.append(effort_text.as_str());
        }
        proof {
            reveal_strlit("\n");
            assert("\n"@ =~= seq!['\n']);
            let rest = efforts@.skip(i as int);
            assert(rest[0] == efforts@[i as int]);
            assert(rest.skip(1) =~= efforts@.skip(i as int + 1));
            assert(effort_text@ == effort_mrc_spec(
                rest[0].duration(),
                rest[0].start(),
                rest[0].end(),
                minute as nat,
            ));
        }
        minute = next_minute;
        i = i + 1;
    }
    proof {
        lemma_total_duration_take_all(efforts@);
        if n == 0 {
            assert(s@ =~= efforts_mrc_spec(efforts@, starting_minute as nat));
        }
    }
    (s, minute)
}

} // verus!
