//! Reading a workout back out of course-file text: the description line,
//! the data block between its markers, and the two-line effort records.
use crate::text::find_char;
use crate::text::find_char_vec;
use crate::text::find_line;
use crate::text::find_line_vec;
use crate::text::join_lines;
use crate::text::join_newlines;
use crate::text::lemma_find_char_props;
use crate::text::lemma_find_line_props;
use crate::text::lemma_find_line_at;
use crate::text::lines_of_chars;
use crate::text::lines_spec;
use crate::text::split_lines;
use crate::text::split_newlines;
use crate::text::str_eq;
use crate::text::str_to_chars;
use crate::text::subvec;
use crate::text::trim_chars;
use crate::text::trim_spec;
use crate::workout_data::effort::Effort;
use crate::workout_data::positive_float::all_digits;
use crate::workout_data::positive_float::check_all_digits;
use crate::workout_data::positive_float::parse_decimal;
use crate::workout_data::positive_float::parse_decimal_chars_capped;
use crate::workout_data::positive_float::unsigned_ok;
use crate::workout_data::positive_float::unsigned_val;
use crate::workout_data::positive_float::ParseOutcome;
use crate::workout_data::positive_float::PositiveFloat;
use crate::MAX_HUNDREDTHS;
use vstd::prelude::*;
use vstd::string::StrSliceExecFns;
use vstd::string::StringExecFns;

verus! {

/// Largest minute mark a course data line may carry.
pub const DECODE_MINUTE_CAP: u64 = 0x38D7EA4C68000;

/// The description line could not be found.
#[derive(PartialEq, Debug)]
pub enum ExtractDescriptionError {
    NoDescription,
}

/// Why the data block of a course file could not be read.
#[derive(PartialEq, Debug)]
pub enum ExtractEffortError {
    NoEffortsGiven,
    EffortNotValid(EffortUnvalidError),
}

/// Why one two-line effort record could not be read.
#[derive(PartialEq, Debug)]
pub enum EffortUnvalidError {
    SyntaxDoesNotMatch(String),
    NumberMissing(usize, String),
    NumberInvalid(usize, String, String),
}

/// The fixed lead of the description line.
pub open spec fn desc_prefix() -> Seq<char> {
    "DESCRIPTION = "@
}

/// Is `l` a description line with some content after the lead?
pub open spec fn is_desc_line(l: Seq<char>) -> bool {
    l.len() > desc_prefix().len() && l.take(desc_prefix().len() as int) == desc_prefix()
}

/// Index of the first description line.
pub open spec fn find_desc_line(ls: Seq<Seq<char>>) -> Option<int>
    decreases ls.len(),
{
    if ls.len() == 0 {
        None
    } else if is_desc_line(ls[0]) {
        Some(0)
    } else {
        match find_desc_line(ls.skip(1)) {
            None => None,
            Some(i) => Some(i + 1),
        }
    }
}

/// What a `find_desc_line` answer means for the lines of `ls`.
pub proof fn lemma_find_desc_line_props(ls: Seq<Seq<char>>)
    ensures
        match find_desc_line(ls) {
            Some(i) => 0 <= i < ls.len() && is_desc_line(ls[i]) && (forall|j: int|
                0 <= j < i ==> !is_desc_line(ls[j])),
            None => forall|j: int| 0 <= j < ls.len() ==> !is_desc_line(ls[j]),
        },
    decreases ls.len(),
{
    if ls.len() > 0 && !is_desc_line(ls[0]) {
        lemma_find_desc_line_props(ls.skip(1));
        assert(forall|j: int| 1 <= j < ls.len() ==> #[trigger] ls[j] == ls.skip(1)[j - 1]);
    }
}

/// `find_desc_line` answers the first index whose line is a description.
pub proof fn lemma_find_desc_line_at(ls: Seq<Seq<char>>, i: int)
    requires
        0 <= i < ls.len(),
        is_desc_line(ls[i]),
        forall|j: int| 0 <= j < i ==> !is_desc_line(ls[j]),
    ensures
        find_desc_line(ls) == Some(i),
    decreases ls.len(),
{
    if i > 0 {
        lemma_find_desc_line_at(ls.skip(1), i - 1);
    }
}

/// The description the header of `s` carries: the text after the lead of the
/// first description line, where the literal words `no description` stand
/// for an empty description.
pub open spec fn extract_description_spec(s: Seq<char>) -> Option<Seq<char>> {
    let ls = lines_spec(s);
    match find_desc_line(ls) {
        None => None,
        Some(i) => {
            let d = ls[i].skip(desc_prefix().len() as int);
            Some(
                if d == "no description"@ {
                    Seq::empty()
                } else {
                    d
                },
            )
        },
    }
}

/// Is `l` a description line with content, as executable code?
fn line_has_desc(l: &String) -> (b: bool)
    ensures
        b == is_desc_line(l@),
{
    proof {
        reveal_strlit("DESCRIPTION = ");
    }
    let n = l.as_str().unicode_len();
    if n <= 14 {
        return false;
    }
    let head = l.as_str().substring_char(0, 14);
    str_eq(head, "DESCRIPTION = ")
}

/// Find the description the course header carries.
pub fn extract_description(mrc: &str) -> (r: Result<String, ExtractDescriptionError>)
    ensures
        match r {
            Ok(d) => extract_description_spec(mrc@) == Some(d@),
            Err(e) => extract_description_spec(mrc@) is None && e
                == ExtractDescriptionError::NoDescription,
        },
{
    proof {
        reveal_strlit("DESCRIPTION = ");
    }
    let lines = split_lines(mrc);
    let ghost ls = lines_spec(mrc@);
    let n = lines.len();
    let mut i: usize = 0;
    while i < n
        invariant
            ls == lines_spec(mrc@),
            n == lines@.len(),
            n == ls.len(),
            forall|k: int| 0 <= k < n ==> (#[trigger] lines@[k])@ == ls[k],
            i <= n,
            forall|j: int| 0 <= j < i ==> !is_desc_line(ls[j]),
        decreases n - i,
    {
        if line_has_desc(&lines[i]) {
            proof {
                reveal_strlit("DESCRIPTION = ");
                lemma_find_desc_line_at(ls, i as int);
            }
            let line = &lines[i];
            let len = line.as_str().unicode_len();
            proof {
                assert(desc_prefix().len() == 14);
                assert(is_desc_line(line@));
                assert(line@.len() > 14);
            }
            let content = line.as_str().substring_char(14, len);
            proof {
                assert(line@.subrange(14, len as int) =~= line@.skip(14));
            }
            if str_eq(content, "no description") {
                proof {
                    assert(content@ == "no description"@);
                }
                return Ok(String::new());
            }
            return Ok(content.to_owned());
        }
        i = i + 1;
    }
    proof {
        lemma_find_desc_line_props(ls);
    }
    Err(ExtractDescriptionError::NoDescription)
}

/// The lines strictly between the first data marker and the end marker that
/// follows it, provided there is at least one.
pub open spec fn course_content_spec(s: Seq<char>) -> Option<Seq<Seq<char>>> {
    let ls = lines_spec(s);
    match find_line(ls, "[COURSE DATA]"@) {
        None => None,
        Some(i) => match find_line(ls.skip(i + 1), "[END COURSE DATA]"@) {
            None => None,
            Some(j) => if j == 0 {
                None
            } else {
                Some(ls.skip(i + 1).take(j))
            },
        },
    }
}

/// The raw text of the data block: its lines joined back with newlines,
/// with the trailing newline that preceded the end marker.
pub open spec fn extract_efforts_string_spec(s: Seq<char>) -> Option<Seq<char>> {
    match course_content_spec(s) {
        None => None,
        Some(content) => Some(join_newlines(content) + seq!['\n']),
    }
}

/// Cut the data block out of a course file.
pub fn extract_efforts_string(mrc: &str) -> (r: Result<String, ExtractEffortError>)
    ensures
        match r {
            Ok(c) => extract_efforts_string_spec(mrc@) == Some(c@),
            Err(e) => extract_efforts_string_spec(mrc@) is None && e
                == ExtractEffortError::NoEffortsGiven,
        },
{
    let lines = split_lines(mrc);
    let ghost ls = lines_spec(mrc@);
    proof {
        assert(lines@.map_values(|l: String| l@) =~= ls);
    }
    let start = match find_line_vec(&lines, "[COURSE DATA]") {
        None => {
            return Err(ExtractEffortError::NoEffortsGiven);
        },
        Some(i) => i,
    };
    proof {
        lemma_find_line_props(ls, "[COURSE DATA]"@);
        assert(ls == lines@.map_values(|l: String| l@));
    }
    let ghost rest = ls.skip(start + 1);
    let n = lines.len();
    let mut k: usize = start + 1;
    while k < n
        invariant
            ls == lines_spec(mrc@),
            n == lines@.len(),
            n == ls.len(),
            ls == lines@.map_values(|l: String| l@),
            forall|m: int| 0 <= m < n ==> (#[trigger] lines@[m])@ == ls[m],
            start < k <= n,
            rest == ls.skip(start + 1),
            find_line(ls, "[COURSE DATA]"@) == Some(start as int),
            forall|j: int| start + 1 <= j < k ==> ls[j] != "[END COURSE DATA]"@,
        decreases n - k,
    {
        if str_eq(lines[k].as_str(), "[END COURSE DATA]") {
            let j = k - start - 1;
            proof {
                assert(forall|m: int| 0 <= m < rest.len() ==> #[trigger] rest[m] == ls[start + 1 + m]);
                lemma_find_line_at(rest, "[END COURSE DATA]"@, j as int);
            }
            if j == 0 {
                return Err(ExtractEffortError::NoEffortsGiven);
            }
            let mut content: Vec<String> = Vec::new();
            let mut m: usize = start + 1;
            while m < k
                invariant
                    start + 1 <= m <= k < n,
                    n == lines@.len(),
                    n == ls.len(),
                    forall|q: int| 0 <= q < n ==> (#[trigger] lines@[q])@ == ls[q],
                    content@.len() == m - start - 1,
                    forall|q: int|
                        0 <= q < content@.len() ==> (#[trigger] content@[q])@ == ls[start + 1 + q],
                decreases k - m,
            {
                content.push(lines[m].clone());
                m = m + 1;
            }
            let mut joined = join_lines(&content);
            joined.append("\n");
            proof {
                reveal_strlit("\n");
                assert("\n"@ =~= seq!['\n']);
                let cl = rest.take(j as int);
                assert(content@.map_values(|l: String| l@) =~= cl);
                assert(joined@ =~= join_newlines(cl) + seq!['\n']);
            }
            return Ok(joined);
        }
        k = k + 1;
    }
    proof {
        assert(forall|m: int| 0 <= m < rest.len() ==> #[trigger] rest[m] == ls[start + 1 + m]);
        lemma_find_line_props(rest, "[END COURSE DATA]"@);
        if find_line(rest, "[END COURSE DATA]"@) is Some {
            assert(false);
        }
    }
    Err(ExtractEffortError::NoEffortsGiven)
}

/// Consecutive line pairs, each joined back into a two-line record; an odd
/// trailing line is dropped.
pub open spec fn pair_lines(ls: Seq<Seq<char>>) -> Seq<Seq<char>>
    decreases ls.len(),
{
    if ls.len() < 2 {
        Seq::empty()
    } else {
        seq![ls[0] + seq!['\n'] + ls[1]] + pair_lines(ls.skip(2))
    }
}

/// Split trimmed text into two-line records, pairing its lines in order.
pub fn split_by_every_other_newline(input: &str) -> (r: Vec<String>)
    ensures
        r@.len() == pair_lines(lines_spec(trim_spec(input@))).len(),
        forall|i: int|
            0 <= i < r@.len() ==> (#[trigger] r@[i])@ == pair_lines(lines_spec(trim_spec(input@)))[i],
{
    let chars = str_to_chars(input);
    let trimmed = trim_chars(&chars);
    let lines = lines_of_chars(&trimmed);
    let ghost ls = lines_spec(trimmed@);
    let ghost all_pairs = pair_lines(ls);
    let n = lines.len();
    let mut out: Vec<String> = Vec::new();
    let mut i: usize = 0;
    proof {
        assert(ls.skip(0) =~= ls);
    }
    while i + 1 < n
        invariant
            n == lines@.len(),
            n == ls.len(),
            forall|k: int| 0 <= k < n ==> (#[trigger] lines@[k])@ == ls[k],
            i <= n,
            i % 2 == 0,
            all_pairs == pair_lines(ls),
            all_pairs.len() == out@.len() + pair_lines(ls.skip(i as int)).len(),
            forall|k: int| 0 <= k < out@.len() ==> (#[trigger] out@[k])@ == all_pairs[k],
            forall|k: int|
                0 <= k < pair_lines(ls.skip(i as int)).len() ==> #[trigger] pair_lines(
                    ls.skip(i as int),
                )[k] == all_pairs[out@.len() + k],
        decreases n - i,
    {
        let mut pair = lines[i].clone();
        pair.append("\n");
        pair.append(lines[i + 1].as_str());
        let ghost old_out = out@;
        out.push(pair);
        proof {
            reveal_strlit("\n");
            assert("\n"@ =~= seq!['\n']);
            let suffix = ls.skip(i as int);
            let tail = pair_lines(ls.skip(i as int + 2));
            assert(suffix.len() >= 2);
            assert(suffix[0] == ls[i as int]);
            assert(suffix[1] == ls[i as int + 1]);
            assert(suffix.skip(2) =~= ls.skip(i as int + 2));
            assert(pair_lines(suffix) == seq![suffix[0] + seq!['\n'] + suffix[1]] + tail);
            assert(pair_lines(suffix)[0] == suffix[0] + seq!['\n'] + suffix[1]);
            assert(pair@ =~= all_pairs[old_out.len() as int]);
            assert forall|k: int|
                0 <= k < tail.len() implies #[trigger] tail[k] == all_pairs[old_out.len() + 1
                + k] by {
                assert(pair_lines(suffix)[k + 1] == tail[k]);
            }
        }
        i = i + 2;
    }
    proof {
        assert(pair_lines(ls.skip(i as int)).len() == 0);
    }
    out
}

/// Split `s` at its only occurrence of `c`; `None` when `c` is missing or
/// occurs more than once.
pub open spec fn split_once_unique(s: Seq<char>, c: char) -> Option<(Seq<char>, Seq<char>)> {
    match find_char(s, c) {
        None => None,
        Some(i) => if find_char(s.skip(i + 1), c) is Some {
            None
        } else {
            Some((s.take(i), s.skip(i + 1)))
        },
    }
}

/// Splitting yields at least one piece.
pub proof fn lemma_split_newlines_len(s: Seq<char>)
    ensures
        split_newlines(s).len() >= 1,
    decreases s.len(),
{
    lemma_find_char_props(s, '\n');
    match find_char(s, '\n') {
        None => {},
        Some(i) => {
            lemma_split_newlines_len(s.skip(i + 1));
        },
    }
}

/// A record splits at a unique newline exactly when it has two raw pieces.
pub proof fn lemma_split_newlines_two(s: Seq<char>)
    ensures
        match split_once_unique(s, '\n') {
            Some(parts) => split_newlines(s) == seq![parts.0, parts.1],
            None => split_newlines(s).len() != 2,
        },
{
    lemma_find_char_props(s, '\n');
    match find_char(s, '\n') {
        None => {
            assert(split_newlines(s).len() == 1);
        },
        Some(i) => {
            let tail = s.skip(i + 1);
            lemma_find_char_props(tail, '\n');
            match find_char(tail, '\n') {
                None => {
                    assert(split_newlines(tail) =~= seq![tail]);
                    assert(split_newlines(s) =~= seq![s.take(i), tail]);
                },
                Some(_) => {
                    lemma_split_newlines_len(tail.skip(find_char(tail, '\n')->0 + 1));
                    assert(split_newlines(tail).len() >= 2);
                    lemma_split_newlines_len(tail);
                    assert(split_newlines(s).len() >= 3);
                },
            }
        },
    }
}

/// Split at the only occurrence of `c`, as executable code.
fn split_once_unique_vec(v: &Vec<char>, c: char) -> (r: Option<(Vec<char>, Vec<char>)>)
    ensures
        match split_once_unique(v@, c) {
            None => r is None,
            Some(parts) => r matches Some(p) && p.0@ == parts.0 && p.1@ == parts.1,
        },
{
    let n = v.len();
    match find_char_vec(v, c) {
        None => None,
        Some(i) => {
            proof {
                lemma_find_char_props(v@, c);
                assert((i as int) < v@.len());
            }
            let second = subvec(v, i + 1, n);
            proof {
                assert(second@ =~= v@.skip(i as int + 1));
            }
            match find_char_vec(&second, c) {
                Some(_) => None,
                None => {
                    let first = subvec(v, 0, i);
                    proof {
                        assert(first@ =~= v@.take(i as int));
                    }
                    Some((first, second))
                },
            }
        },
    }
}

/// Does the field match the course number shape: digits around one dot?
pub open spec fn course_field_ok(f: Seq<char>) -> bool {
    match find_char(f, '.') {
        None => false,
        Some(i) => all_digits(f.take(i)) && all_digits(f.skip(i + 1)),
    }
}

/// Course number shape test, as executable code.
fn check_course_field(v: &Vec<char>) -> (b: bool)
    ensures
        b == course_field_ok(v@),
{
    let n = v.len();
    match find_char_vec(v, '.') {
        None => false,
        Some(i) => {
            proof {
                lemma_find_char_props(v@, '.');
                assert((i as int) < v@.len());
            }
            let int_part = subvec(v, 0, i);
            let frac_part = subvec(v, i + 1, n);
            proof {
                assert(int_part@ =~= v@.take(i as int));
                assert(frac_part@ =~= v@.skip(i as int + 1));
            }
            let ok_int = check_all_digits(&int_part);
            let ok_frac = check_all_digits(&frac_part);
            ok_int && ok_frac
        },
    }
}

/// Why a well-shaped field still has no value: empty of digits, or larger
/// than `cap`.
pub open spec fn field_msg(f: Seq<char>, cap: nat) -> Option<Seq<char>> {
    if !unsigned_ok(f) {
        Some("invalid float literal"@)
    } else if unsigned_val(f) > cap {
        Some("number out of range"@)
    } else {
        None
    }
}

/// Read the value of a well-shaped course field; `Err(true)` marks a value
/// above `cap`, `Err(false)` a field without digits.
fn parse_course_field(v: &Vec<char>, cap: u64) -> (r: Result<u64, bool>)
    requires
        course_field_ok(v@),
        100 <= cap <= DECODE_MINUTE_CAP,
    ensures
        match r {
            Ok(x) => field_msg(v@, cap as nat) is None && x == unsigned_val(v@) && x <= cap,
            Err(big) => if big {
                field_msg(v@, cap as nat) == Some("number out of range"@)
            } else {
                field_msg(v@, cap as nat) == Some("invalid float literal"@)
            },
        },
{
    proof {
        lemma_find_char_props(v@, '.');
        let i = find_char(v@, '.')->0;
        assert(v@.len() > 0);
        if i == 0 {
            assert(v@[0] == '.');
        } else {
            assert(v@.take(i)[0] == v@[0]);
            assert(crate::workout_data::positive_float::is_digit_char(v@[0]));
        }
        assert(v@[0] != '-' && v@[0] != '+');
        assert(parse_decimal(v@) == if unsigned_ok(v@) {
            Some(unsigned_val(v@) as int)
        } else {
            None::<int>
        });
    }
    match parse_decimal_chars_capped(v, cap) {
        ParseOutcome::Val(x) => {
            if x >= 0 {
                Ok(x as u64)
            } else {
                proof {
                    assert(false);
                }
                Err(false)
            }
        },
        ParseOutcome::TooBig => Err(true),
        ParseOutcome::BadSyntax => Err(false),
    }
}

/// The four fields of a two-line record: each line split at one tab, all
/// four fields in course number shape.
pub open spec fn pair_fields(p: Seq<char>) -> Option<(Seq<char>, Seq<char>, Seq<char>, Seq<char>)> {
    match split_once_unique(p, '\n') {
        None => None,
        Some(two) => match (split_once_unique(two.0, '\t'), split_once_unique(two.1, '\t')) {
            (Some(ab), Some(cd)) => if course_field_ok(ab.0) && course_field_ok(ab.1)
                && course_field_ok(cd.0) && course_field_ok(cd.1) {
                Some((ab.0, ab.1, cd.0, cd.1))
            } else {
                None
            },
            _ => None,
        },
    }
}

/// The duration, starting and ending value a two-line record denotes, when
/// every field reads back and the minutes run forward.
pub open spec fn effort_values_of_pair(p: Seq<char>) -> Option<(nat, nat, nat)> {
    match pair_fields(p) {
        None => None,
        Some(f) => {
            if field_msg(f.0, DECODE_MINUTE_CAP as nat) is None && field_msg(
                f.1,
                MAX_HUNDREDTHS as nat,
            ) is None && field_msg(f.2, DECODE_MINUTE_CAP as nat) is None && field_msg(
                f.3,
                MAX_HUNDREDTHS as nat,
            ) is None && unsigned_val(f.2) >= unsigned_val(f.0) && unsigned_val(f.2) - unsigned_val(
                f.0,
            ) <= MAX_HUNDREDTHS as int {
                Some(
                    (
                        (unsigned_val(f.2) - unsigned_val(f.0)) as nat,
                        unsigned_val(f.1),
                        unsigned_val(f.3),
                    ),
                )
            } else {
                None
            }
        },
    }
}

/// Which error a failing two-line record is answered with.
pub open spec fn pair_error_rel(p: Seq<char>, e: EffortUnvalidError) -> bool {
    match pair_fields(p) {
        None => e matches EffortUnvalidError::SyntaxDoesNotMatch(t) && t@ == p,
        Some(f) => {
            if field_msg(f.0, DECODE_MINUTE_CAP as nat) is Some {
                e matches EffortUnvalidError::NumberInvalid(i, m, t) && i == 0 && m@ == field_msg(
                    f.0,
                    DECODE_MINUTE_CAP as nat,
                )->0 && t@ == p
            } else if field_msg(f.1, MAX_HUNDREDTHS as nat) is Some {
                e matches EffortUnvalidError::NumberInvalid(i, m, t) && i == 1 && m@ == field_msg(
                    f.1,
                    MAX_HUNDREDTHS as nat,
                )->0 && t@ == p
            } else if field_msg(f.2, DECODE_MINUTE_CAP as nat) is Some {
                e matches EffortUnvalidError::NumberInvalid(i, m, t) && i == 2 && m@ == field_msg(
                    f.2,
                    DECODE_MINUTE_CAP as nat,
                )->0 && t@ == p
            } else if field_msg(f.3, MAX_HUNDREDTHS as nat) is Some {
                e matches EffortUnvalidError::NumberInvalid(i, m, t) && i == 3 && m@ == field_msg(
                    f.3,
                    MAX_HUNDREDTHS as nat,
                )->0 && t@ == p
            } else if unsigned_val(f.2) < unsigned_val(f.0) {
                e matches EffortUnvalidError::NumberInvalid(i, m, t) && i == 2 && m@
                    == "negative duration"@ && t@ == p
            } else if unsigned_val(f.2) - unsigned_val(f.0) > MAX_HUNDREDTHS as int {
                e matches EffortUnvalidError::NumberInvalid(i, m, t) && i == 2 && m@
                    == "number out of range"@ && t@ == p
            } else {
                false
            }
        },
    }
}

/// Read one two-line record into an effort: start minute and value on the
/// first line, end minute and value on the second; the duration is the
/// difference of the minutes.
pub fn extract_effort_from_string(effort_as_string: String) -> (r: Result<Effort, EffortUnvalidError>)
    ensures
        match effort_values_of_pair(effort_as_string@) {
            Some(vals) => r matches Ok(e) && e.duration() == vals.0 && e.start() == vals.1
                && e.end() == vals.2 && e.gui_state
                == crate::workout_data::effort::EffortState::Idle,
            None => r matches Err(e) && pair_error_rel(effort_as_string@, e),
        },
{
    let chars = str_to_chars(effort_as_string.as_str());
    let two = match split_once_unique_vec(&chars, '\n') {
        None => {
            return Err(EffortUnvalidError::SyntaxDoesNotMatch(effort_as_string));
        },
        Some(two) => two,
    };
    let first_split = match split_once_unique_vec(&two.0, '\t') {
        None => {
            return Err(EffortUnvalidError::SyntaxDoesNotMatch(effort_as_string));
        },
        Some(p) => p,
    };
    let second_split = match split_once_unique_vec(&two.1, '\t') {
        None => {
            return Err(EffortUnvalidError::SyntaxDoesNotMatch(effort_as_string));
        },
        Some(p) => p,
    };
    let ok0 = check_course_field(&first_split.0);
    let ok1 = check_course_field(&first_split.1);
    let ok2 = check_course_field(&second_split.0);
    let ok3 = check_course_field(&second_split.1);
    if !(ok0 && ok1 && ok2 && ok3) {
        return Err(EffortUnvalidError::SyntaxDoesNotMatch(effort_as_string));
    }
    let start_time = match parse_course_field(&first_split.0, DECODE_MINUTE_CAP) {
        Ok(x) => x,
        Err(big) => {
            return Err(
                EffortUnvalidError::NumberInvalid(
                    0,
                    if big {
                        String::from_str("number out of range")
                    } else {
                        String::from_str("invalid float literal")
                    },
                    effort_as_string,
                ),
            );
        },
    };
    let start_value = match parse_course_field(&first_split.1, MAX_HUNDREDTHS) {
        Ok(x) => x,
        Err(big) => {
            return Err(
                EffortUnvalidError::NumberInvalid(
                    1,
                    if big {
                        String::from_str("number out of range")
                    } else {
                        String::from_str("invalid float literal")
                    },
                    effort_as_string,
                ),
            );
        },
    };
    let end_time = match parse_course_field(&second_split.0, DECODE_MINUTE_CAP) {
        Ok(x) => x,
        Err(big) => {
            return Err(
                EffortUnvalidError::NumberInvalid(
                    2,
                    if big {
                        String::from_str("number out of range")
                    } else {
                        String::from_str("invalid float literal")
                    },
                    effort_as_string,
                ),
            );
        },
    };
    let end_value = match parse_course_field(&second_split.1, MAX_HUNDREDTHS) {
        Ok(x) => x,
        Err(big) => {
            return Err(
                EffortUnvalidError::NumberInvalid(
                    3,
                    if big {
                        String::from_str("number out of range")
                    } else {
                        String::from_str("invalid float literal")
                    },
                    effort_as_string,
                ),
            );
        },
    };
    if end_time < start_time {
        return Err(
            EffortUnvalidError::NumberInvalid(
                2,
                String::from_str("negative duration"),
                effort_as_string,
            ),
        );
    }
    let duration = end_time - start_time;
    if duration > MAX_HUNDREDTHS {
        return Err(
            EffortUnvalidError::NumberInvalid(
                2,
                String::from_str("number out of range"),
                effort_as_string,
            ),
        );
    }
    Ok(
        Effort {
            duration_in_minutes: PositiveFloat::from_hundredths(duration),
            starting_value: PositiveFloat::from_hundredths(start_value),
            ending_value: PositiveFloat::from_hundredths(end_value),
            gui_state: crate::workout_data::effort::EffortState::Idle,
        },
    )
}

/// The values of every record of a data block, or `None` when one of them
/// fails to read.
pub open spec fn collect_pairs(ps: Seq<Seq<char>>) -> Option<Seq<(nat, nat, nat)>>
    decreases ps.len(),
{
    if ps.len() == 0 {
        Some(Seq::empty())
    } else {
        match (effort_values_of_pair(ps[0]), collect_pairs(ps.skip(1))) {
            (Some(v), Some(rest)) => Some(seq![v] + rest),
            _ => None,
        }
    }
}

/// When every record reads, collecting them succeeds, record by record.
pub proof fn lemma_collect_pairs_some(ps: Seq<Seq<char>>)
    requires
        forall|j: int| 0 <= j < ps.len() ==> effort_values_of_pair(#[trigger] ps[j]) is Some,
    ensures
        collect_pairs(ps) matches Some(vals) && vals.len() == ps.len() && forall|j: int|
            0 <= j < ps.len() ==> #[trigger] vals[j] == effort_values_of_pair(ps[j])->0,
    decreases ps.len(),
{
    if ps.len() > 0 {
        assert(forall|j: int| 0 <= j < ps.skip(1).len() ==> #[trigger] ps.skip(1)[j] == ps[j + 1]);
        lemma_collect_pairs_some(ps.skip(1));
    }
}

/// One failing record makes the whole collection fail.
pub proof fn lemma_collect_pairs_none(ps: Seq<Seq<char>>, k: int)
    requires
        0 <= k < ps.len(),
        effort_values_of_pair(ps[k]) is None,
    ensures
        collect_pairs(ps) is None,
    decreases k,
{
    if k > 0 {
        lemma_collect_pairs_none(ps.skip(1), k - 1);
    }
}

/// The two-line records of the data block of `s`.
pub open spec fn decode_pairs_spec(s: Seq<char>) -> Option<Seq<Seq<char>>> {
    match extract_efforts_string_spec(s) {
        None => None,
        Some(c) => Some(pair_lines(lines_spec(trim_spec(c)))),
    }
}

/// Read every effort of the data block of a course file, in order.
pub fn extract_efforts(mrc: &str) -> (r: Result<Vec<Effort>, ExtractEffortError>)
    ensures
        match decode_pairs_spec(mrc@) {
            None => r matches Err(e) && e == ExtractEffortError::NoEffortsGiven,
            Some(ps) => match collect_pairs(ps) {
                Some(vals) => r matches Ok(es) && es@.len() == vals.len() && forall|i: int|
                    0 <= i < vals.len() ==> {
                        &&& (#[trigger] es@[i]).duration() == vals[i].0
                        &&& es@[i].start() == vals[i].1
                        &&& es@[i].end() == vals[i].2
                        &&& es@[i].gui_state == crate::workout_data::effort::EffortState::Idle
                    },
                None => r matches Err(err) && err matches ExtractEffortError::EffortNotValid(e)
                    && exists|k: int|
                    0 <= k < ps.len() && effort_values_of_pair(#[trigger] ps[k]) is None && (
                    forall|j: int|
                        0 <= j < k ==> effort_values_of_pair(#[trigger] ps[j]) is Some)
                        && pair_error_rel(ps[k], e),
            },
        },
{
    let efforts_string = match extract_efforts_string(mrc) {
        Err(e) => {
            return Err(e);
        },
        Ok(s) => s,
    };
    let pairs = split_by_every_other_newline(efforts_string.as_str());
    let ghost ps = pair_lines(lines_spec(trim_spec(efforts_string@)));
    let n = pairs.len();
    let mut efforts: Vec<Effort> = Vec::new();
    let mut i: usize = 0;
    while i < n
        invariant
            n == pairs@.len(),
            n == ps.len(),
            ps == pair_lines(lines_spec(trim_spec(efforts_string@))),
            decode_pairs_spec(mrc@) == Some(ps),
            forall|k: int| 0 <= k < n ==> (#[trigger] pairs@[k])@ == ps[k],
            i <= n,
            efforts@.len() == i,
            forall|j: int| 0 <= j < i ==> effort_values_of_pair(#[trigger] ps[j]) is Some,
            forall|j: int|
                0 <= j < i ==> {
                    &&& (#[trigger] efforts@[j]).duration() == (effort_values_of_pair(ps[j])->0).0
                    &&& efforts@[j].start() == (effort_values_of_pair(ps[j])->0).1
                    &&& efforts@[j].end() == (effort_values_of_pair(ps[j])->0).2
                    &&& efforts@[j].gui_state == crate::workout_data::effort::EffortState::Idle
                },
        decreases n - i,
    {
        match extract_effort_from_string(pairs[i].clone()) {
            Ok(e) => {
                efforts.push(e);
            },
            Err(e) => {
                proof {
                    lemma_collect_pairs_none(ps, i as int);
                }
                return Err(ExtractEffortError::EffortNotValid(e));
            },
        }
        i = i + 1;
    }
    proof {
        lemma_collect_pairs_some(ps);
    }
    Ok(efforts)
}

} // verus!
