//! Reading a workout out of the simpler plan format a bike computer
//! exports: a header naming the workout, then interval blocks giving a
//! power range and a duration in seconds.
use crate::text::chars_to_string;
use crate::text::find_line;
use crate::text::find_line_vec;
use crate::text::join_lines;
use crate::text::join_newlines;
use crate::text::lemma_find_line_at;
use crate::text::lemma_find_line_props;
use crate::text::lines_spec;
use crate::text::split_lines;
use crate::text::str_to_chars;
use crate::text::subvec;
use crate::text::trim_chars;
use crate::text::trim_spec;
use crate::workout_data::effort::round_half_even;
use crate::workout_data::effort::round_half_even_exec;
use crate::workout_data::effort::Effort;
use crate::workout_data::effort::EffortState;
use crate::workout_data::positive_float::all_digits;
use crate::workout_data::positive_float::check_all_digits;
use crate::workout_data::positive_float::digits_val;
use crate::workout_data::positive_float::PositiveFloat;
use crate::MAX_HUNDREDTHS;
use vstd::prelude::*;
use vstd::string::StrSliceExecFns;

verus! {

/// Why plan-format text could not be read.
#[derive(PartialEq, Debug)]
pub enum ExtractPlanFormatError {
    InvalidFormat,
    InvalidValue,
}

/// Is `l`, once trimmed, a name line of the plan header?
pub open spec fn is_name_line(l: Seq<char>) -> bool {
    trim_spec(l).len() >= 5 && trim_spec(l).take(5) == "NAME="@
}

/// Index of the first name line.
pub open spec fn find_name_line(ls: Seq<Seq<char>>) -> Option<int>
    decreases ls.len(),
{
    if ls.len() == 0 {
        None
    } else if is_name_line(ls[0]) {
        Some(0)
    } else {
        match find_name_line(ls.skip(1)) {
            None => None,
            Some(i) => Some(i + 1),
        }
    }
}

/// What a `find_name_line` answer means for the lines of `ls`.
pub proof fn lemma_find_name_line_props(ls: Seq<Seq<char>>)
    ensures
        match find_name_line(ls) {
            Some(i) => 0 <= i < ls.len() && is_name_line(ls[i]) && (forall|j: int|
                0 <= j < i ==> !is_name_line(ls[j])),
            None => forall|j: int| 0 <= j < ls.len() ==> !is_name_line(ls[j]),
        },
    decreases ls.len(),
{
    if ls.len() > 0 && !is_name_line(ls[0]) {
        lemma_find_name_line_props(ls.skip(1));
        assert(forall|j: int| 1 <= j < ls.len() ==> #[trigger] ls[j] == ls.skip(1)[j - 1]);
    }
}

/// `find_name_line` answers the first index whose line is a name line.
pub proof fn lemma_find_name_line_at(ls: Seq<Seq<char>>, i: int)
    requires
        0 <= i < ls.len(),
        is_name_line(ls[i]),
        forall|j: int| 0 <= j < i ==> !is_name_line(ls[j]),
    ensures
        find_name_line(ls) == Some(i),
    decreases ls.len(),
{
    if i > 0 {
        lemma_find_name_line_at(ls.skip(1), i - 1);
    }
}

/// The workout name and the raw interval text: the name comes from the
/// first name line before the stream marker, the intervals are everything
/// after it.
pub open spec fn split_plan_spec(s: Seq<char>) -> Option<(Seq<char>, Seq<char>)> {
    let ls = lines_spec(s);
    match find_line(ls, "=STREAM="@) {
        None => None,
        Some(i) => match find_name_line(ls.take(i)) {
            None => None,
            Some(j) => Some(
                (trim_spec(ls.take(i)[j]).skip(5), trim_spec(join_newlines(ls.skip(i + 1)))),
            ),
        },
    }
}

/// The name a line carries, if it is a name line.
fn name_of_line(l: &String) -> (r: Option<String>)
    ensures
        match r {
            Some(nm) => is_name_line(l@) && nm@ == trim_spec(l@).skip(5),
            None => !is_name_line(l@),
        },
{
    proof {
        reveal_strlit("NAME=");
    }
    let chars = str_to_chars(l.as_str());
    let t = trim_chars(&chars);
    if t.len() < 5 {
        return None;
    }
    if t[0] == 'N' && t[1] == 'A' && t[2] == 'M' && t[3] == 'E' && t[4] == '=' {
        proof {
            assert(t@.take(5) =~= "NAME="@);
        }
        let name = subvec(&t, 5, t.len());
        proof {
            assert(name@ =~= trim_spec(l@).skip(5));
        }
        Some(chars_to_string(&name))
    } else {
        proof {
            if trim_spec(l@).take(5) == "NAME="@ {
                assert(trim_spec(l@).take(5)[0] == 'N');
                assert(trim_spec(l@).take(5)[1] == 'A');
                assert(trim_spec(l@).take(5)[2] == 'M');
                assert(trim_spec(l@).take(5)[3] == 'E');
                assert(trim_spec(l@).take(5)[4] == '=');
                assert(false);
            }
        }
        None
    }
}

/// Split plan text into the workout name and the interval text.
pub fn split_header_and_intervals(plan_format: &str) -> (r: Result<
    (String, String),
    ExtractPlanFormatError,
>)
    ensures
        match r {
            Ok(parts) => split_plan_spec(plan_format@) == Some((parts.0@, parts.1@)),
            Err(e) => split_plan_spec(plan_format@) is None && e
                == ExtractPlanFormatError::InvalidFormat,
        },
{
    let lines = split_lines(plan_format);
    let ghost ls = lines_spec(plan_format@);
    proof {
        assert(lines@.map_values(|l: String| l@) =~= ls);
    }
    let stream = match find_line_vec(&lines, "=STREAM=") {
        None => {
            return Err(ExtractPlanFormatError::InvalidFormat);
        },
        Some(i) => i,
    };
    proof {
        lemma_find_line_props(ls, "=STREAM="@);
    }
    let ghost header = ls.take(stream as int);
    let mut j: usize = 0;
    let mut name: Option<String> = None;
    while j < stream
        invariant
            ls == lines_spec(plan_format@),
            ls == lines@.map_values(|l: String| l@),
            forall|k: int| 0 <= k < lines@.len() ==> (#[trigger] lines@[k])@ == ls[k],
            stream <= lines@.len(),
            find_line(ls, "=STREAM="@) == Some(stream as int),
            header == ls.take(stream as int),
            j <= stream,
            name is None,
            forall|k: int| 0 <= k < j ==> !is_name_line(header[k]),
        decreases stream - j,
    {
        match name_of_line(&lines[j]) {
            Some(nm) => {
                proof {
                    assert(header[j as int] == ls[j as int]);
                    lemma_find_name_line_at(header, j as int);
                    lemma_find_line_props(ls, "=STREAM="@);
                    assert((stream as int) < ls.len());
                }
                let n = lines.len();
                let mut content: Vec<String> = Vec::new();
                let mut m: usize = stream + 1;
                while m < n
                    invariant
                        n == lines@.len(),
                        n == ls.len(),
                        stream < n,
                        stream + 1 <= m <= n,
                        ls == lines@.map_values(|l: String| l@),
                        forall|k: int| 0 <= k < lines@.len() ==> (#[trigger] lines@[k])@ == ls[k],
                        content@.len() == m - stream - 1,
                        forall|q: int|
                            0 <= q < content@.len() ==> (#[trigger] content@[q])@ == ls[stream + 1
                                + q],
                    decreases n - m,
                {
                    content.push(lines[m].clone());
                    m = m + 1;
                }
                let joined = join_lines(&content);
                let jc = str_to_chars(joined.as_str());
                let trimmed = trim_chars(&jc);
                proof {
                    assert(content@.map_values(|l: String| l@) =~= ls.skip(stream as int + 1));
                    assert(trimmed@ == trim_spec(join_newlines(ls.skip(stream as int + 1))));
                }
                return Ok((nm, chars_to_string(&trimmed)));
            },
            None => {
                proof {
                    assert(header[j as int] == ls[j as int]);
                }
            },
        }
        j = j + 1;
    }
    proof {
        lemma_find_name_line_props(header);
        if find_name_line(header) is Some {
            assert(false);
        }
    }
    Err(ExtractPlanFormatError::InvalidFormat)
}

/// The trimmed joined text of a run of lines, kept only when non-empty.
pub open spec fn maybe_block(ls: Seq<Seq<char>>) -> Seq<Seq<char>> {
    let b = trim_spec(join_newlines(ls));
    if b.len() == 0 {
        Seq::empty()
    } else {
        seq![b]
    }
}

/// The non-empty interval blocks: the lines between interval markers,
/// joined and trimmed.
pub open spec fn blocks_spec(ls: Seq<Seq<char>>) -> Seq<Seq<char>>
    decreases ls.len(),
        via blocks_spec_decreases
{
    match find_line(ls, "=INTERVAL="@) {
        None => maybe_block(ls),
        Some(i) => maybe_block(ls.take(i)) + blocks_spec(ls.skip(i + 1)),
    }
}

#[via_fn]
proof fn blocks_spec_decreases(ls: Seq<Seq<char>>) {
    lemma_find_line_props(ls, "=INTERVAL="@);
}

/// Split interval text into its non-empty blocks.
pub fn split_efforts(intervals_in_plan_format: &str) -> (r: Vec<String>)
    ensures
        r@.len() == blocks_spec(lines_spec(intervals_in_plan_format@)).len(),
        forall|i: int|
            0 <= i < r@.len() ==> (#[trigger] r@[i])@ == blocks_spec(
                lines_spec(intervals_in_plan_format@),
            )[i],
{
    let lines = split_lines(intervals_in_plan_format);
    let ghost ls = lines_spec(intervals_in_plan_format@);
    proof {
        assert(lines@.map_values(|l: String| l@) =~= ls);
        assert(ls.skip(0) =~= ls);
    }
    let n = lines.len();
    let mut out: Vec<String> = Vec::new();
    let mut pos: usize = 0;
    loop
        invariant_except_break
            pos <= n,
            n == lines@.len(),
            n == ls.len(),
            forall|k: int| 0 <= k < n ==> (#[trigger] lines@[k])@ == ls[k],
            blocks_spec(ls).len() == out@.len() + blocks_spec(ls.skip(pos as int)).len(),
            forall|i: int| 0 <= i < out@.len() ==> (#[trigger] out@[i])@ == blocks_spec(ls)[i],
            forall|i: int|
                0 <= i < blocks_spec(ls.skip(pos as int)).len() ==> #[trigger] blocks_spec(
                    ls.skip(pos as int),
                )[i] == blocks_spec(ls)[out@.len() + i],
        ensures
            out@.len() == blocks_spec(ls).len(),
            forall|i: int| 0 <= i < out@.len() ==> (#[trigger] out@[i])@ == blocks_spec(ls)[i],
        decreases n - pos,
    {
        let ghost suffix = ls.skip(pos as int);
        let ghost old_out = out@;
        // Find the next marker line at or after `pos`.
        let mut k: usize = pos;
        let mut found: bool = false;
        while k < n && !found
            invariant
                pos <= k <= n,
                n == lines@.len(),
                n == ls.len(),
                forall|q: int| 0 <= q < n ==> (#[trigger] lines@[q])@ == ls[q],
                found ==> k < n && ls[k as int] == "=INTERVAL="@ && forall|q: int|
                    pos <= q < k ==> ls[q] != "=INTERVAL="@,
                !found ==> forall|q: int| pos <= q < k ==> ls[q] != "=INTERVAL="@,
            decreases n - k + (if found {
                0int
            } else {
                1int
            }),
        {
            if crate::text::str_eq(lines[k].as_str(), "=INTERVAL=") {
                found = true;
            } else {
                k = k + 1;
            }
        }
        // Collect the block lines before the marker (or to the end).
        let stop = if found {
            k
        } else {
            n
        };
        let mut content: Vec<String> = Vec::new();
        let mut m: usize = pos;
        while m < stop
            invariant
                pos <= m <= stop <= n,
                n == lines@.len(),
                n == ls.len(),
                forall|q: int| 0 <= q < n ==> (#[trigger] lines@[q])@ == ls[q],
                content@.len() == m - pos,
                forall|q: int| 0 <= q < content@.len() ==> (#[trigger] content@[q])@ == ls[pos + q],
            decreases stop - m,
        {
            content.push(lines[m].clone());
            m = m + 1;
        }
        let joined = join_lines(&content);
        let jc = str_to_chars(joined.as_str());
        let trimmed = trim_chars(&jc);
        proof {
            assert(forall|q: int| 0 <= q < suffix.len() ==> #[trigger] suffix[q] == ls[pos + q]);
            if found {
                assert(suffix[k - pos] == "=INTERVAL="@);
                lemma_find_line_at(suffix, "=INTERVAL="@, k - pos as int);
            } else {
                lemma_find_line_props(suffix, "=INTERVAL="@);
                if find_line(suffix, "=INTERVAL="@) is Some {
                    assert(false);
                }
            }
            assert(content@.map_values(|l: String| l@) =~= suffix.take(stop - pos as int));
            assert(trimmed@ == trim_spec(join_newlines(suffix.take(stop - pos as int))));
        }
        let ghost head = maybe_block(suffix.take(stop - pos as int));
        proof {
            if trimmed@.len() == 0 {
                assert(head =~= Seq::<Seq<char>>::empty());
            } else {
                assert(head =~= seq![trimmed@]);
            }
        }
        if trimmed.len() > 0 {
            out.push(chars_to_string(&trimmed));
        }
        if found {
            proof {
                assert(suffix.skip(k - pos + 1) =~= ls.skip(k as int + 1));
                assert(blocks_spec(suffix) == head + blocks_spec(ls.skip(k as int + 1)));
            }
            pos = k + 1;
            proof {
                let tail = blocks_spec(ls.skip(pos as int));
                assert(blocks_spec(suffix) == head + tail);
                assert(out@.len() == old_out.len() + head.len());
                if head.len() > 0 {
                    assert(head[0] == trimmed@);
                    assert(blocks_spec(suffix)[0] == head[0]);
                    assert(blocks_spec(suffix)[0] == blocks_spec(ls)[old_out.len() as int]);
                    assert((out@[old_out.len() as int])@ == blocks_spec(ls)[old_out.len() as int]);
                }
                assert forall|i: int|
                    0 <= i < tail.len() implies #[trigger] tail[i] == blocks_spec(ls)[out@.len()
                    + i] by {
                    assert(blocks_spec(suffix)[head.len() + i] == tail[i]);
                    assert(blocks_spec(suffix)[head.len() + i] == blocks_spec(ls)[old_out.len()
                        + head.len() + i]);
                }
            }
        } else {
            proof {
                assert(suffix.take(stop - pos as int) =~= suffix);
                assert(blocks_spec(suffix) == head);
                assert(out@.len() == old_out.len() + head.len());
                assert(blocks_spec(ls).len() == out@.len());
                if head.len() > 0 {
                    assert(head[0] == trimmed@);
                    assert(blocks_spec(suffix)[0] == blocks_spec(ls)[old_out.len() as int]);
                    assert((out@[old_out.len() as int])@ == blocks_spec(ls)[old_out.len() as int]);
                }
            }
            break ;
        }
    }
    out
}

/// The text after `prefix`, when `l` starts with `prefix`.
pub open spec fn strip_fixed(l: Seq<char>, prefix: Seq<char>) -> Option<Seq<char>> {
    if l.len() >= prefix.len() && l.take(prefix.len() as int) == prefix {
        Some(l.skip(prefix.len() as int))
    } else {
        None
    }
}

/// A non-empty run of digits, as a number.
pub open spec fn digits_of(s: Seq<char>) -> Option<nat> {
    if s.len() > 0 && all_digits(s) {
        Some(digits_val(s))
    } else {
        None
    }
}

/// The three numbers of one interval block: low power, high power, and the
/// duration in seconds, read from its three fixed-shape lines.
pub open spec fn plan_block_fields(b: Seq<char>) -> Option<(nat, nat, nat)> {
    let ls = lines_spec(b);
    if ls.len() != 3 {
        None
    } else {
        let lo_txt = strip_fixed(trim_spec(ls[0]), "PWR_LO="@);
        let hi_txt = strip_fixed(trim_spec(ls[1]), "PWR_HI="@);
        let sec_part = strip_fixed(trim_spec(ls[2]), "MESG_DURATION_SEC>="@);
        match (lo_txt, hi_txt, sec_part) {
            (Some(lo), Some(hi), Some(rest)) => {
                if rest.len() >= 5 && rest.skip(rest.len() - 5) == "?EXIT"@ {
                    let sec = rest.take(rest.len() - 5);
                    match (digits_of(lo), digits_of(hi), digits_of(sec)) {
                        (Some(l), Some(h), Some(sv)) => Some((l, h, sv)),
                        _ => None,
                    }
                } else {
                    None
                }
            },
            _ => None,
        }
    }
}

/// The duration (in hundredths of a minute) and constant value (in
/// hundredths) one interval block denotes: the average of its two powers,
/// over its seconds turned into minutes.
pub open spec fn plan_effort_spec(b: Seq<char>) -> Option<(nat, nat)> {
    match plan_block_fields(b) {
        None => None,
        Some(f) => {
            let avg = (f.0 + f.1) * 50;
            let dur = round_half_even(f.2 * 5, 3);
            if avg <= MAX_HUNDREDTHS && dur <= MAX_HUNDREDTHS {
                Some((dur, avg))
            } else {
                None
            }
        },
    }
}

/// The error a failing interval block is answered with: a shape failure is
/// a format error, a value out of range a value error.
pub open spec fn plan_block_error(b: Seq<char>) -> ExtractPlanFormatError {
    if plan_block_fields(b) is None {
        ExtractPlanFormatError::InvalidFormat
    } else {
        ExtractPlanFormatError::InvalidValue
    }
}

/// Does `v` continue with the text of `s` at `lo`?
fn chars_eq_str(v: &Vec<char>, lo: usize, hi: usize, s: &str) -> (b: bool)
    requires
        lo <= hi <= v@.len(),
    ensures
        b == (v@.subrange(lo as int, hi as int) == s@),
{
    let m = s.unicode_len();
    if hi - lo != m {
        proof {
            assert(v@.subrange(lo as int, hi as int).len() != s@.len());
        }
        return false;
    }
    let mut i: usize = 0;
    while i < m
        invariant
            lo <= hi <= v@.len(),
            m == s@.len(),
            hi - lo == m,
            i <= m,
            forall|q: int| 0 <= q < i ==> v@[lo + q] == s@[q],
        decreases m - i,
    {
        if v[lo + i] != s.get_char(i) {
            proof {
                assert(v@.subrange(lo as int, hi as int)[i as int] != s@[i as int]);
            }
            return false;
        }
        i = i + 1;
    }
    proof {
        assert(v@.subrange(lo as int, hi as int) =~= s@);
    }
    true
}

/// Read one interval block into an effort: a constant effort at the average
/// of the block's two powers, lasting its seconds as minutes.
pub fn extract_effort_from_string(effort_as_string: &str) -> (r: Result<Effort, ExtractPlanFormatError>)
    ensures
        match r {
            Ok(e) => plan_effort_spec(effort_as_string@) matches Some(vals) && e.duration()
                == vals.0 && e.start() == vals.1 && e.end() == vals.1 && e.gui_state
                == EffortState::Idle,
            Err(err) => plan_effort_spec(effort_as_string@) is None && err == plan_block_error(
                effort_as_string@,
            ),
        },
{
    proof {
        reveal_strlit("PWR_LO=");
        reveal_strlit("PWR_HI=");
        reveal_strlit("MESG_DURATION_SEC>=");
        reveal_strlit("?EXIT");
    }
    let lines = split_lines(effort_as_string);
    let ghost ls = lines_spec(effort_as_string@);
    if lines.len() != 3 {
        return Err(ExtractPlanFormatError::InvalidFormat);
    }
    let t0 = trim_chars(&str_to_chars(lines[0].as_str()));
    let t1 = trim_chars(&str_to_chars(lines[1].as_str()));
    let t2 = trim_chars(&str_to_chars(lines[2].as_str()));
    if t0.len() < 7 || !chars_eq_str(&t0, 0, 7, "PWR_LO=") {
        proof {
            if t0@.len() >= 7 {
                assert(t0@.subrange(0, 7) =~= t0@.take(7));
            }
        }
        return Err(ExtractPlanFormatError::InvalidFormat);
    }
    if t1.len() < 7 || !chars_eq_str(&t1, 0, 7, "PWR_HI=") {
        proof {
            if t1@.len() >= 7 {
                assert(t1@.subrange(0, 7) =~= t1@.take(7));
            }
        }
        return Err(ExtractPlanFormatError::InvalidFormat);
    }
    if t2.len() < 19 || !chars_eq_str(&t2, 0, 19, "MESG_DURATION_SEC>=") {
        proof {
            if t2@.len() >= 19 {
                assert(t2@.subrange(0, 19) =~= t2@.take(19));
            }
        }
        return Err(ExtractPlanFormatError::InvalidFormat);
    }
    proof {
        assert(t0@.subrange(0, 7) =~= t0@.take(7));
        assert(t1@.subrange(0, 7) =~= t1@.take(7));
        assert(t2@.subrange(0, 19) =~= t2@.take(19));
    }
    let lo_digits = subvec(&t0, 7, t0.len());
    let hi_digits = subvec(&t1, 7, t1.len());
    let rest = subvec(&t2, 19, t2.len());
    proof {
        assert(lo_digits@ =~= t0@.skip(7));
        assert(hi_digits@ =~= t1@.skip(7));
        assert(rest@ =~= t2@.skip(19));
    }
    if rest.len() < 5 || !chars_eq_str(&rest, rest.len() - 5, rest.len(), "?EXIT") {
        proof {
            if rest@.len() >= 5 {
                assert(rest@.subrange(rest@.len() - 5, rest@.len() as int) =~= rest@.skip(
                    rest@.len() - 5,
                ));
            }
        }
        return Err(ExtractPlanFormatError::InvalidFormat);
    }
    proof {
        assert(rest@.subrange(rest@.len() - 5, rest@.len() as int) =~= rest@.skip(rest@.len() - 5));
    }
    let sec_digits = subvec(&rest, 0, rest.len() - 5);
    proof {
        assert(sec_digits@ =~= rest@.take(rest@.len() - 5));
    }
    if lo_digits.len() == 0 || !check_all_digits(&lo_digits) || hi_digits.len() == 0
        || !check_all_digits(&hi_digits) || sec_digits.len() == 0 || !check_all_digits(
        &sec_digits,
    ) {
        return Err(ExtractPlanFormatError::InvalidFormat);
    }
    let lo = match crate::workout_data::positive_float::digits_value_capped(
        &lo_digits,
        1_000_000_000_000,
    ) {
        Some(x) => x,
        None => {
            return Err(ExtractPlanFormatError::InvalidValue);
        },
    };
    let hi = match crate::workout_data::positive_float::digits_value_capped(
        &hi_digits,
        1_000_000_000_000,
    ) {
        Some(x) => x,
        None => {
            return Err(ExtractPlanFormatError::InvalidValue);
        },
    };
    let sec = match crate::workout_data::positive_float::digits_value_capped(
        &sec_digits,
        1_000_000_000_000,
    ) {
        Some(x) => x,
        None => {
            return Err(ExtractPlanFormatError::InvalidValue);
        },
    };
    let avg = (lo + hi) * 50;
    let dur = round_half_even_exec(sec * 5, 3);
    if avg > MAX_HUNDREDTHS || dur > MAX_HUNDREDTHS {
        return Err(ExtractPlanFormatError::InvalidValue);
    }
    let value = PositiveFloat::from_hundredths(avg);
    Ok(
        Effort {
            duration_in_minutes: PositiveFloat::from_hundredths(dur),
            starting_value: value,
            ending_value: value,
            gui_state: EffortState::Idle,
        },
    )
}

/// The values of every interval block, or `None` when one fails to read.
pub open spec fn collect_blocks(bs: Seq<Seq<char>>) -> Option<Seq<(nat, nat)>>
    decreases bs.len(),
{
    if bs.len() == 0 {
        Some(Seq::empty())
    } else {
        match (plan_effort_spec(bs[0]), collect_blocks(bs.skip(1))) {
            (Some(v), Some(rest)) => Some(seq![v] + rest),
            _ => None,
        }
    }
}

/// When every block reads, collecting them succeeds, block by block.
pub proof fn lemma_collect_blocks_some(bs: Seq<Seq<char>>)
    requires
        forall|j: int| 0 <= j < bs.len() ==> plan_effort_spec(#[trigger] bs[j]) is Some,
    ensures
        collect_blocks(bs) matches Some(vals) && vals.len() == bs.len() && forall|j: int|
            0 <= j < bs.len() ==> #[trigger] vals[j] == plan_effort_spec(bs[j])->0,
    decreases bs.len(),
{
    if bs.len() > 0 {
        assert(forall|j: int| 0 <= j < bs.skip(1).len() ==> #[trigger] bs.skip(1)[j] == bs[j + 1]);
        lemma_collect_blocks_some(bs.skip(1));
    }
}

/// One failing block makes the whole collection fail.
pub proof fn lemma_collect_blocks_none(bs: Seq<Seq<char>>, k: int)
    requires
        0 <= k < bs.len(),
        plan_effort_spec(bs[k]) is None,
    ensures
        collect_blocks(bs) is None,
    decreases k,
{
    if k > 0 {
        lemma_collect_blocks_none(bs.skip(1), k - 1);
    }
}

/// Read a whole plan-format workout: its name and one constant effort per
/// interval block.
pub fn extract_workout(workout_as_plan: &str) -> (r: Result<
    crate::workout_data::workout::Workout,
    ExtractPlanFormatError,
>)
    ensures
        match split_plan_spec(workout_as_plan@) {
            None => r matches Err(e) && e == ExtractPlanFormatError::InvalidFormat,
            Some(parts) => {
                let bs = blocks_spec(lines_spec(parts.1));
                match collect_blocks(bs) {
                    Some(vals) => r matches Ok(w) && w.spec_name() == parts.0
                        && w.spec_description().len() == 0 && w.workout_type
                        == crate::workout_data::workout::WorkoutType::Watts && w.efforts@.len()
                        == vals.len() && (forall|i: int|
                        0 <= i < vals.len() ==> {
                            &&& (#[trigger] w.efforts@[i]).duration() == vals[i].0
                            &&& w.efforts@[i].start() == vals[i].1
                            &&& w.efforts@[i].end() == vals[i].1
                            &&& w.efforts@[i].gui_state == EffortState::Idle
                        }),
                    None => r matches Err(err) && (exists|k: int|
                        0 <= k < bs.len() && plan_effort_spec(#[trigger] bs[k]) is None && (
                        forall|j: int| 0 <= j < k ==> plan_effort_spec(#[trigger] bs[j]) is Some)
                            && err == plan_block_error(bs[k])),
                }
            },
        },
{
    let (workout_name, intervals) = match split_header_and_intervals(workout_as_plan) {
        Err(e) => {
            return Err(e);
        },
        Ok(parts) => parts,
    };
    let blocks = split_efforts(intervals.as_str());
    let ghost bs = blocks_spec(lines_spec(intervals@));
    let n = blocks.len();
    let mut efforts: Vec<Effort> = Vec::new();
    let mut i: usize = 0;
    while i < n
        invariant
            n == blocks@.len(),
            n == bs.len(),
            bs == blocks_spec(lines_spec(intervals@)),
            split_plan_spec(workout_as_plan@) == Some((workout_name@, intervals@)),
            forall|k: int| 0 <= k < n ==> (#[trigger] blocks@[k])@ == bs[k],
            i <= n,
            efforts@.len() == i,
            forall|j: int| 0 <= j < i ==> plan_effort_spec(#[trigger] bs[j]) is Some,
            forall|j: int|
                0 <= j < i ==> {
                    &&& (#[trigger] efforts@[j]).duration() == (plan_effort_spec(bs[j])->0).0
                    &&& efforts@[j].start() == (plan_effort_spec(bs[j])->0).1
                    &&& efforts@[j].end() == (plan_effort_spec(bs[j])->0).1
                    &&& efforts@[j].gui_state == EffortState::Idle
                },
        decreases n - i,
    {
        match extract_effort_from_string(blocks[i].as_str()) {
            Ok(e) => {
                efforts.push(e);
            },
            Err(err) => {
                proof {
                    lemma_collect_blocks_none(bs, i as int);
                }
                return Err(err);
            },
        }
        i = i + 1;
    }
    proof {
        lemma_collect_blocks_some(bs);
        reveal_strlit("");
    }
    Ok(crate::workout_data::workout::Workout::new(workout_name.as_str(), "", efforts))
}

} // verus!
