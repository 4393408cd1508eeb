//! One interval of a workout: a duration paired with a starting and an
//! ending power value, plus the transient editing state the surrounding
//! shell drives while a row is being changed.
use crate::workout_data::positive_float::render_hundredths;
use crate::workout_data::positive_float::render_u64_hundredths;
use crate::workout_data::positive_float::parse_decimal;
use crate::workout_data::positive_float::PositiveFloat;
use crate::MAX_HUNDREDTHS;
use vstd::prelude::*;
use vstd::string::StringExecFns;

verus! {

/// A ramp shorter than this (0.20 minutes, in hundredths) is emitted as a
/// single segment instead of being subdivided.
pub const SPLITTING_THRESHOLD_HUNDREDTHS: u64 = 20;

/// Largest starting minute (in hundredths) course emission accepts, so that
/// running minute arithmetic stays well within machine bounds.
pub const MAX_STARTING_MINUTE: u64 = 0x2000_0000_0000_0000;

/// Combining a type of effort with a duration for which it should be
/// executed.
#[derive(Debug, Clone, PartialEq)]
pub struct Effort {
    pub duration_in_minutes: PositiveFloat,
    pub starting_value: PositiveFloat,
    pub ending_value: PositiveFloat,
    pub gui_state: EffortState,
}

/// Whether an effort row sits idle or is being edited; while editing, the
/// three fields hold unvalidated text until committed.
#[derive(Debug, Clone, PartialEq)]
pub enum EffortState {
    Idle,
    Editing { starting_value: String, ending_value: String, duration_in_minutes: String },
}

impl Default for EffortState {
    fn default() -> (r: Self)
        ensures
            r == EffortState::Idle,
    {
        EffortState::Idle
    }
}

/// Does the text denote a value a `PositiveFloat` can hold?
pub open spec fn text_value(s: Seq<char>) -> Option<nat> {
    if parse_decimal(s) matches Some(x) && 0 <= x <= MAX_HUNDREDTHS as int {
        Some(parse_decimal(s)->0 as nat)
    } else {
        None
    }
}

impl Effort {
    /// The duration, in hundredths of a minute.
    pub open spec fn duration(&self) -> nat {
        self.duration_in_minutes.value()
    }

    /// The starting value, in hundredths.
    pub open spec fn start(&self) -> nat {
        self.starting_value.value()
    }

    /// The ending value, in hundredths.
    pub open spec fn end(&self) -> nat {
        self.ending_value.value()
    }

    /// A ramp changes its value over the interval.
    pub open spec fn is_ramp_spec(&self) -> bool {
        self.start() != self.end()
    }

    /// Only efforts longer than the splitting threshold are subdivided.
    pub open spec fn can_split_spec(&self) -> bool {
        self.duration() > SPLITTING_THRESHOLD_HUNDREDTHS
    }

    /// Creating a new effort; without an explicit ending value the effort
    /// holds its starting value throughout.
    pub fn new(
        duration_in_minutes: PositiveFloat,
        starting_value: PositiveFloat,
        ending_value: Option<PositiveFloat>,
    ) -> (r: Self)
        ensures
            r.duration_in_minutes == duration_in_minutes,
            r.starting_value == starting_value,
            r.ending_value == match ending_value {
                Some(e) => e,
                None => starting_value,
            },
            r.gui_state == EffortState::Idle,
    {
        Self {
            duration_in_minutes,
            starting_value,
            ending_value: match ending_value {
                Some(e) => e,
                None => starting_value,
            },
            gui_state: EffortState::Idle,
        }
    }
}

/// Does the effort change its value over the interval?
pub fn is_ramp_effort(effort: &Effort) -> (b: bool)
    ensures
        b == effort.is_ramp_spec(),
{
    effort.starting_value.to_hundredths() != effort.ending_value.to_hundredths()
}

/// Is the effort long enough to be subdivided?
pub fn effort_can_be_split(effort: &Effort) -> (b: bool)
    ensures
        b == effort.can_split_spec(),
{
    effort.duration_in_minutes.to_hundredths() > SPLITTING_THRESHOLD_HUNDREDTHS
}

/// Number of constant steps a ramp of duration `dur` splits into: the
/// ceiling of `dur` over the splitting threshold.
pub open spec fn ramp_steps(dur: nat) -> nat {
    (dur + SPLITTING_THRESHOLD_HUNDREDTHS - 1) as nat / (SPLITTING_THRESHOLD_HUNDREDTHS as nat)
}

/// The length of step `i` of a split ramp: every step has the threshold
/// length except the last, which takes whatever remains, so that the step
/// lengths add up to the ramp's duration exactly.
pub open spec fn chunk_duration(dur: nat, i: int) -> nat {
    if i + 1 < ramp_steps(dur) {
        SPLITTING_THRESHOLD_HUNDREDTHS as nat
    } else {
        (dur - (ramp_steps(dur) - 1) * (SPLITTING_THRESHOLD_HUNDREDTHS as nat)) as nat
    }
}

/// The ceiling step count covers the duration: all but the last step fall
/// short of it, and the last step's remainder is positive and at most one
/// threshold.
pub proof fn lemma_ramp_steps_bounds(dur: nat)
    requires
        dur > 0,
    ensures
        ramp_steps(dur) >= 1,
        (ramp_steps(dur) - 1) * (SPLITTING_THRESHOLD_HUNDREDTHS as nat) < dur,
        dur <= ramp_steps(dur) * (SPLITTING_THRESHOLD_HUNDREDTHS as nat),
{
    let t = SPLITTING_THRESHOLD_HUNDREDTHS as nat;
    let q = ramp_steps(dur);
    vstd::arithmetic::div_mod::lemma_fundamental_div_mod((dur + t - 1) as int, t as int);
    let r = (dur + t - 1) as int % (t as int);
    assert((dur + t - 1) as int == t * q + r);
    assert(0 <= r < t) by {
        vstd::arithmetic::div_mod::lemma_mod_bound((dur + t - 1) as int, t as int);
    }
    assert(t * q == dur + t - 1 - r);
    assert(q * t == t * q) by (nonlinear_arith);
    assert((q - 1) * t == q * t - t) by (nonlinear_arith);
}

/// Quotient of `n` over `d`, rounded to the nearest integer with ties going
/// to the even neighbour.
pub open spec fn round_half_even(n: nat, d: nat) -> nat {
    let q = n / d;
    let r = n % d;
    if 2 * r > d {
        q + 1
    } else if 2 * r < d {
        q
    } else if q % 2 == 0 {
        q
    } else {
        q + 1
    }
}

/// The constant value of step `i` when a ramp from `start` to `end` splits
/// into `steps` steps: the ramp's linearly interpolated midpoint over that
/// step, rounded to a whole count of hundredths.
pub open spec fn chunk_value(start: nat, end: nat, steps: nat, i: nat) -> int {
    if end >= start {
        start + round_half_even((2 * i + 1) * ((end - start) as nat), 2 * steps) as int
    } else {
        start - round_half_even((2 * i + 1) * ((start - end) as nat), 2 * steps) as int
    }
}

/// A midpoint never rounds past the values it interpolates between.
pub proof fn lemma_chunk_value_bounds(start: nat, end: nat, steps: nat, i: nat)
    requires
        steps >= 1,
        i < steps,
    ensures
        chunk_value(start, end, steps, i) >= if start <= end {
            start as int
        } else {
            end as int
        },
        chunk_value(start, end, steps, i) <= if start <= end {
            end as int
        } else {
            start as int
        },
{
    let delta: nat = if end >= start {
        (end - start) as nat
    } else {
        (start - end) as nat
    };
    let n: nat = (2 * i + 1) * delta;
    let d: nat = 2 * steps;
    assert(n as int <= (2 * steps - 1) * delta) by (nonlinear_arith)
        requires
            i < steps,
            steps >= 1,
            n == (2 * i + 1) * delta,
    ;
    if delta == 0 {
        assert(n == 0) by (nonlinear_arith)
            requires
                n == (2 * i + 1) * delta,
                delta == 0,
        ;
        assert(round_half_even(n, d) == 0);
    } else {
        assert((2 * steps - 1) * delta == d * delta - delta) by (nonlinear_arith)
            requires
                d == 2 * steps,
                steps >= 1,
        ;
        assert(n as int <= d * delta - 1);
        assert(n as int / d as int <= (d * delta - 1) / (d as int)) by {
            vstd::arithmetic::div_mod::lemma_div_is_ordered(n as int, d * delta - 1, d as int);
        }
        assert((d * delta - 1) / (d as int) == delta - 1) by (nonlinear_arith)
            requires
                d >= 2,
                delta >= 1,
        ;
        assert(round_half_even(n, d) <= n / d + 1);
        assert(round_half_even(n, d) <= delta);
    }
}

/// The two tab-separated course lines of one constant segment: its start
/// minute and value, then its end minute and value.
pub open spec fn pair_block(t0: nat, v0: nat, t1: nat, v1: nat) -> Seq<char> {
    render_hundredths(t0) + seq!['\t'] + render_hundredths(v0) + seq!['\n'] + render_hundredths(t1)
        + seq!['\t'] + render_hundredths(v1)
}

/// The block of step `i` of a split ramp, starting where step `i - 1`
/// ended and lasting that step's own length, so the last block ends exactly
/// at the ramp's end.
pub open spec fn chunk_block(dur: nat, start: nat, end: nat, t: nat, i: nat) -> Seq<char> {
    let v = chunk_value(start, end, ramp_steps(dur), i) as nat;
    let begin = t + (SPLITTING_THRESHOLD_HUNDREDTHS as nat) * i;
    pair_block(begin, v, begin + chunk_duration(dur, i as int), v)
}

/// The first `i` chunk blocks of a split ramp, joined by newlines.
pub open spec fn ramp_prefix_mrc(dur: nat, start: nat, end: nat, t: nat, i: nat) -> Seq<char>
    decreases i,
{
    if i <= 0 {
        Seq::empty()
    } else if i == 1 {
        chunk_block(dur, start, end, t, 0)
    } else {
        ramp_prefix_mrc(dur, start, end, t, (i - 1) as nat) + seq!['\n'] + chunk_block(
            dur,
            start,
            end,
            t,
            (i - 1) as nat,
        )
    }
}

/// The course text an effort starting at minute `t` emits: one block for a
/// constant or short effort, chained chunk blocks for a splittable ramp.
pub open spec fn effort_mrc_spec(dur: nat, start: nat, end: nat, t: nat) -> Seq<char> {
    if start != end && dur > SPLITTING_THRESHOLD_HUNDREDTHS {
        ramp_prefix_mrc(dur, start, end, t, ramp_steps(dur))
    } else {
        pair_block(t, start, t + dur, end)
    }
}

/// Quotient rounded half-to-even, as executable code.
pub(crate) fn round_half_even_exec(n: u64, d: u64) -> (r: u64)
    requires
        0 < d <= 0x4000_0000,
        n <= 0x1000_0000_0000_0000,
    ensures
        r == round_half_even(n as nat, d as nat),
{
    let q = n / d;
    let rem = n % d;
    if 2 * rem > d {
        q + 1
    } else if 2 * rem < d {
        q
    } else if q % 2 == 0 {
        q
    } else {
        q + 1
    }
}

/// An exact copy of an editing state.
fn clone_state(s: &EffortState) -> (r: EffortState)
    ensures
        r == *s,
{
    match s {
        EffortState::Idle => EffortState::Idle,
        EffortState::Editing { starting_value, ending_value, duration_in_minutes } => {
            EffortState::Editing {
                starting_value: starting_value.clone(),
                ending_value: ending_value.clone(),
                duration_in_minutes: duration_in_minutes.clone(),
            }
        },
    }
}

/// The two tab-separated course lines of one constant segment, as a string.
pub(crate) fn pair_block_exec(t0: u64, v0: u64, t1: u64, v1: u64) -> (r: String)
    ensures
        r@ == pair_block(t0 as nat, v0 as nat, t1 as nat, v1 as nat),
{
    let mut s = render_u64_hundredths(t0);
    let rv0 = render_u64_hundredths(v0);
    let rt1 = render_u64_hundredths(t1);
    let rv1 = render_u64_hundredths(v1);
    s.append("\t");
    s.append(rv0.as_str());
    s.append("\n");
    s.append(rt1.as_str());
    s.append("\t");
    s.append(rv1.as_str());
    proof {
        reveal_strlit("\t");
        reveal_strlit("\n");
        assert("\t"@ =~= seq!['\t']);
        assert("\n"@ =~= seq!['\n']);
        assert(s@ =~= pair_block(t0 as nat, v0 as nat, t1 as nat, v1 as nat));
    }
    s
}

impl Effort {
    /// Split a ramp into constant steps, each holding the ramp's
    /// interpolated midpoint value over that step; the last step takes the
    /// remaining length, so the step durations add up to the ramp's own.
    pub fn split_ramp_effort_into_constant_chunks(&self) -> (r: Vec<Effort>)
        requires
            self.duration() > 0,
            self.is_ramp_spec(),
        ensures
            r@.len() == ramp_steps(self.duration()),
            forall|i: int|
                0 <= i < r@.len() ==> {
                    &&& (#[trigger] r@[i]).duration() == chunk_duration(self.duration(), i)
                    &&& r@[i].start() == chunk_value(
                        self.start(),
                        self.end(),
                        ramp_steps(self.duration()),
                        i as nat,
                    )
                    &&& r@[i].end() == r@[i].start()
                    &&& r@[i].gui_state == self.gui_state
                },
    {
        proof {
            use_type_invariant(&self.duration_in_minutes);
            use_type_invariant(&self.starting_value);
            use_type_invariant(&self.ending_value);
        }
        let dur = self.duration_in_minutes.to_hundredths();
        let start = self.starting_value.to_hundredths();
        let end = self.ending_value.to_hundredths();
        let steps: u64 = (dur + SPLITTING_THRESHOLD_HUNDREDTHS - 1) / SPLITTING_THRESHOLD_HUNDREDTHS;
        let ghost steps_spec = ramp_steps(self.duration());
        proof {
            assert(steps as nat == steps_spec);
            assert(steps >= 1);
            assert(steps <= 500_001);
            lemma_ramp_steps_bounds(self.duration());
        }
        let mut result: Vec<Effort> = Vec::new();
        let mut index: u64 = 0;
        while index < steps
            invariant
                1 <= steps <= 500_001,
                steps as nat == steps_spec,
                steps_spec == ramp_steps(self.duration()),
                index <= steps,
                start == self.start(),
                end == self.end(),
                start <= MAX_HUNDREDTHS,
                end <= MAX_HUNDREDTHS,
                dur == self.duration(),
                (steps_spec - 1) * (SPLITTING_THRESHOLD_HUNDREDTHS as nat) < dur,
                dur <= steps_spec * (SPLITTING_THRESHOLD_HUNDREDTHS as nat),
                result@.len() == index,
                forall|i: int|
                    0 <= i < result@.len() ==> {
                        &&& (#[trigger] result@[i]).duration() == chunk_duration(self.duration(), i)
                        &&& result@[i].start() == chunk_value(
                            self.start(),
                            self.end(),
                            steps_spec,
                            i as nat,
                        )
                        &&& result@[i].end() == result@[i].start()
                        &&& result@[i].gui_state == self.gui_state
                    },
            decreases steps - index,
        {
            proof {
                lemma_chunk_value_bounds(self.start(), self.end(), steps_spec, index as nat);
                assert((2 * index + 1) * (if end >= start {
                    end - start
                } else {
                    start - end
                }) <= 1_000_001 * 10_000_000) by (nonlinear_arith)
                    requires
                        index < steps <= 500_001,
                        start <= MAX_HUNDREDTHS,
                        end <= MAX_HUNDREDTHS,
                        MAX_HUNDREDTHS == 10_000_000,
                ;
            }
            let value: u64 = if end >= start {
                start + round_half_even_exec((2 * index + 1) * (end - start), 2 * steps)
            } else {
                start - round_half_even_exec((2 * index + 1) * (start - end), 2 * steps)
            };
            proof {
                assert(value as int == chunk_value(self.start(), self.end(), steps_spec, index as nat));
            }
            let constant = PositiveFloat::from_hundredths(value);
            let step_length: u64 = if index + 1 < steps {
                SPLITTING_THRESHOLD_HUNDREDTHS
            } else {
                dur - (steps - 1) * SPLITTING_THRESHOLD_HUNDREDTHS
            };
            proof {
                assert(step_length == chunk_duration(self.duration(), index as int));
                assert(step_length <= SPLITTING_THRESHOLD_HUNDREDTHS);
            }
            result.push(
                Effort {
                    duration_in_minutes: PositiveFloat::from_hundredths(step_length),
                    starting_value: constant,
                    ending_value: constant,
                    gui_state: clone_state(&self.gui_state),
                },
            );
            index = index + 1;
        }
        result
    }

    /// The chained course blocks of a splittable ramp, one constant block
    /// for each split step; the last block ends exactly at the ramp's end.
    pub fn to_mrc_for_ramp_effort(&self, starting_minute: u64) -> (r: String)
        requires
            starting_minute <= MAX_STARTING_MINUTE,
            self.duration() > 0,
            self.is_ramp_spec(),
        ensures
            r@ == ramp_prefix_mrc(
                self.duration(),
                self.start(),
                self.end(),
                starting_minute as nat,
                ramp_steps(self.duration()),
            ),
    {
        proof {
            use_type_invariant(&self.duration_in_minutes);
            lemma_ramp_steps_bounds(self.duration());
        }
        let chunks = self.split_ramp_effort_into_constant_chunks();
        let ghost steps_spec = ramp_steps(self.duration());
        let ghost t = starting_minute as nat;
        let n = chunks.len();
        let mut s = String::new();
        let mut minute: u64 = starting_minute;
        let mut i: usize = 0;
        while i < n
            invariant
                n == chunks@.len(),
                n == steps_spec,
                n <= 500_001,
                steps_spec == ramp_steps(self.duration()),
                self.duration() <= MAX_HUNDREDTHS,
                (steps_spec - 1) * (SPLITTING_THRESHOLD_HUNDREDTHS as nat) < self.duration(),
                self.duration() <= steps_spec * (SPLITTING_THRESHOLD_HUNDREDTHS as nat),
                t == starting_minute as nat,
                starting_minute <= MAX_STARTING_MINUTE,
                i <= n,
                minute == starting_minute + (SPLITTING_THRESHOLD_HUNDREDTHS as nat) * i || (i == n
                    && minute == starting_minute + self.duration()),
                s@ == ramp_prefix_mrc(self.duration(), self.start(), self.end(), t, i as nat),
                forall|j: int|
                    0 <= j < chunks@.len() ==> {
                        &&& (#[trigger] chunks@[j]).duration() == chunk_duration(
                            self.duration(),
                            j,
                        )
                        &&& chunks@[j].start() == chunk_value(
                            self.start(),
                            self.end(),
                            steps_spec,
                            j as nat,
                        )
                        &&& chunks@[j].end() == chunks@[j].start()
                    },
            decreases n - i,
        {
            proof {
                assert(chunk_duration(self.duration(), i as int) <= SPLITTING_THRESHOLD_HUNDREDTHS);
                assert((SPLITTING_THRESHOLD_HUNDREDTHS as nat) * i <= (
                SPLITTING_THRESHOLD_HUNDREDTHS as nat) * n) by (nonlinear_arith)
                    requires
                        0 <= i <= n,
                ;
                assert(minute == starting_minute + (SPLITTING_THRESHOLD_HUNDREDTHS as nat) * i);
            }
            let chunk = &chunks[i];
            proof {
                use_type_invariant(&chunk.starting_value);
                use_type_invariant(&chunk.duration_in_minutes);
            }
            let value = chunk.starting_value.to_hundredths();
            let step_length = chunk.duration_in_minutes.to_hundredths();
            let block = pair_block_exec(minute, value, minute + step_length, value);
            if i == 0 {
                s = block;
            } else {
                s.append("\n");
                s.append(block.as_str());
            }
            proof {
                reveal_strlit("\n");
                assert("\n"@ =~= seq!['\n']);
                assert(block@ == chunk_block(self.duration(), self.start(), self.end(), t, i as nat));
                assert(s@ =~= ramp_prefix_mrc(
                    self.duration(),
                    self.start(),
                    self.end(),
                    t,
                    (i + 1) as nat,
                ));
                if i + 1 < n {
                    assert(step_length == SPLITTING_THRESHOLD_HUNDREDTHS);
                    assert((SPLITTING_THRESHOLD_HUNDREDTHS as nat) * (i + 1) == (
                    SPLITTING_THRESHOLD_HUNDREDTHS as nat) * i + SPLITTING_THRESHOLD_HUNDREDTHS)
                        by (nonlinear_arith)
                    ;
                } else {
                    assert(step_length == self.duration() - (steps_spec - 1) * (
                    SPLITTING_THRESHOLD_HUNDREDTHS as nat));
                }
            }
            minute = minute + step_length;
            i = i + 1;
        }
        s
    }

    /// The course text of this effort starting at the given minute, and the
    /// minute where the next effort starts.
    pub fn to_mrc(&self, starting_minute: u64) -> (r: (String, u64))
        requires
            starting_minute <= MAX_STARTING_MINUTE,
        ensures
            r.1 == starting_minute + self.duration(),
            r.0@ == effort_mrc_spec(
                self.duration(),
                self.start(),
                self.end(),
                starting_minute as nat,
            ),
    {
        proof {
            use_type_invariant(&self.duration_in_minutes);
        }
        let end_of_effort = starting_minute + self.duration_in_minutes.to_hundredths();
        if is_ramp_effort(self) && effort_can_be_split(self) {
            (self.to_mrc_for_ramp_effort(starting_minute), end_of_effort)
        } else {
            let block = pair_block_exec(
                starting_minute,
                self.starting_value.to_hundredths(),
                end_of_effort,
                self.ending_value.to_hundredths(),
            );
            (block, end_of_effort)
        }
    }

    /// Snapshot the committed values as editable text and switch to editing.
    pub fn to_edit(&mut self)
        ensures
            final(self).duration_in_minutes == old(self).duration_in_minutes,
            final(self).starting_value == old(self).starting_value,
            final(self).ending_value == old(self).ending_value,
            final(self).gui_state matches EffortState::Editing {
                starting_value,
                ending_value,
                duration_in_minutes,
            } && starting_value@ == render_hundredths(old(self).start()) && ending_value@
                == render_hundredths(old(self).end()) && duration_in_minutes@ == render_hundredths(
                old(self).duration(),
            ),
    {
        self.gui_state = EffortState::Editing {
            starting_value: self.starting_value.to_crm(),
            ending_value: self.ending_value.to_crm(),
            duration_in_minutes: self.duration_in_minutes.to_crm(),
        }
    }

    /// What committing the pending edit yields: the duration, starting and
    /// ending counts the pending texts denote, or `None` while idle or when
    /// a field does not parse.
    pub open spec fn commit_spec(&self) -> Option<(nat, nat, nat)> {
        match self.gui_state {
            EffortState::Idle => None,
            EffortState::Editing { starting_value: sv, ending_value: ev, duration_in_minutes: dv } => {
                match (text_value(dv@), text_value(sv@)) {
                    (Some(d), Some(st)) => if ev@.len() == 0 {
                        Some((d, st, st))
                    } else {
                        match text_value(ev@) {
                            Some(en) => Some((d, st, en)),
                            None => None,
                        }
                    },
                    _ => None,
                }
            },
        }
    }

    /// Commit the pending edit: parse the three text fields and return the
    /// effort they denote, or `None` while idle or when a field does not
    /// parse, leaving the edit in place.
    pub fn to_idle(&self) -> (r: Option<Effort>)
        ensures
            match self.commit_spec() {
                Some(committed) => r matches Some(e) && e.duration() == committed.0 && e.start()
                    == committed.1 && e.end() == committed.2 && e.gui_state == EffortState::Idle,
                None => r is None,
            },
    {
        if let EffortState::Editing { starting_value, ending_value, duration_in_minutes } =
            &self.gui_state {
            let new_ending_value: Option<PositiveFloat> = if ending_value.as_str().is_empty() {
                None
            } else {
                match PositiveFloat::from_text(ending_value.as_str()) {
                    Some(e) => Some(e),
                    None => {
                        return None;
                    },
                }
            };
            let duration = match PositiveFloat::from_text(duration_in_minutes.as_str()) {
                Some(d) => d,
                None => {
                    return None;
                },
            };
            let starting = match PositiveFloat::from_text(starting_value.as_str()) {
                Some(s) => s,
                None => {
                    return None;
                },
            };
            return Some(Effort::new(duration, starting, new_ending_value));
        }
        None
    }

    /// While editing, overwrite the pending duration text.
    pub fn update_duration_of_effort(&mut self, updated_duration_of_effort: String)
        ensures
            final(self).duration_in_minutes == old(self).duration_in_minutes,
            final(self).starting_value == old(self).starting_value,
            final(self).ending_value == old(self).ending_value,
            match old(self).gui_state {
                EffortState::Idle => final(self).gui_state == old(self).gui_state,
                EffortState::Editing { starting_value: sv, ending_value: ev, duration_in_minutes: _ } => final(self).gui_state == (EffortState::Editing {
                    starting_value: sv,
                    ending_value: ev,
                    duration_in_minutes: updated_duration_of_effort,
                }),
            },
    {
        if let EffortState::Editing { starting_value: _, ending_value: _, duration_in_minutes } =
            &mut self.gui_state {
            *duration_in_minutes = updated_duration_of_effort;
        }
    }

    /// While editing, overwrite the pending starting-value text.
    pub fn update_starting_value(&mut self, updated_starting_value: String)
        ensures
            final(self).duration_in_minutes == old(self).duration_in_minutes,
            final(self).starting_value == old(self).starting_value,
            final(self).ending_value == old(self).ending_value,
            match old(self).gui_state {
                EffortState::Idle => final(self).gui_state == old(self).gui_state,
                EffortState::Editing { starting_value: _, ending_value: ev, duration_in_minutes: dv } => final(self).gui_state == (EffortState::Editing {
                    starting_value: updated_starting_value,
                    ending_value: ev,
                    duration_in_minutes: dv,
                }),
            },
    {
        if let EffortState::Editing { starting_value, ending_value: _, duration_in_minutes: _ } =
            &mut self.gui_state {
            *starting_value = updated_starting_value;
        }
    }

    /// While editing, overwrite the pending ending-value text.
    pub fn update_ending_value(&mut self, updated_ending_value: String)
        ensures
            final(self).duration_in_minutes == old(self).duration_in_minutes,
            final(self).starting_value == old(self).starting_value,
            final(self).ending_value == old(self).ending_value,
            match old(self).gui_state {
                EffortState::Idle => final(self).gui_state == old(self).gui_state,
                EffortState::Editing { starting_value: sv, ending_value: _, duration_in_minutes: dv } => final(self).gui_state == (EffortState::Editing {
                    starting_value: sv,
                    ending_value: updated_ending_value,
                    duration_in_minutes: dv,
                }),
            },
    {
        if let EffortState::Editing { starting_value: _, ending_value, duration_in_minutes: _ } =
            &mut self.gui_state {
            *ending_value = updated_ending_value;
        }
    }
}

/// Total duration, in hundredths of a minute, of a sequence of efforts.
pub open spec fn total_duration(efforts: Seq<Effort>) -> nat
    decreases efforts.len(),
{
    if efforts.len() == 0 {
        0
    } else {
        efforts[0].duration() + total_duration(efforts.skip(1))
    }
}

/// A sequence of efforts whose durations follow the split-step lengths of
/// a ramp of duration `dur`, from step `i` on, adds up to what the ramp
/// has left after its first `i` steps.
proof fn lemma_chunk_durations_sum(chunks: Seq<Effort>, dur: nat, i: int)
    requires
        dur > 0,
        0 <= i < ramp_steps(dur),
        chunks.len() == ramp_steps(dur) - i,
        forall|j: int|
            0 <= j < chunks.len() ==> (#[trigger] chunks[j]).duration() == chunk_duration(
                dur,
                j + i,
            ),
    ensures
        total_duration(chunks) == dur - i * (SPLITTING_THRESHOLD_HUNDREDTHS as nat),
    decreases chunks.len(),
{
    let t = SPLITTING_THRESHOLD_HUNDREDTHS as nat;
    lemma_ramp_steps_bounds(dur);
    assert(i * t <= (ramp_steps(dur) - 1) * t) by (nonlinear_arith)
        requires
            i <= ramp_steps(dur) - 1,
            t > 0,
    ;
    if chunks.len() == 1 {
        assert(i == ramp_steps(dur) - 1);
        assert(chunks[0].duration() == chunk_duration(dur, i));
        assert(chunk_duration(dur, i) == dur - (ramp_steps(dur) - 1) * t);
        assert(total_duration(chunks.skip(1)) == 0);
    } else {
        assert(chunks[0].duration() == chunk_duration(dur, i));
        assert(i + 1 < ramp_steps(dur));
        assert(chunk_duration(dur, i) == t);
        assert(forall|j: int|
            0 <= j < chunks.skip(1).len() ==> (#[trigger] chunks.skip(1)[j]).duration()
                == chunk_duration(dur, j + i + 1));
        lemma_chunk_durations_sum(chunks.skip(1), dur, i + 1);
        assert((i + 1) * t == i * t + t) by (nonlinear_arith);
    }
}

/// Law: the durations of a ramp's split steps add up to exactly the
/// ramp's own duration, whatever that duration is.
pub proof fn lemma_ramp_duration_conserved(chunks: Seq<Effort>, dur: nat)
    requires
        dur > 0,
        chunks.len() == ramp_steps(dur),
        forall|i: int|
            0 <= i < chunks.len() ==> (#[trigger] chunks[i]).duration() == chunk_duration(dur, i),
    ensures
        total_duration(chunks) == dur,
{
    lemma_ramp_steps_bounds(dur);
    lemma_chunk_durations_sum(chunks, dur, 0);
}

} // verus!
