//! The course codec's round trip: a workout whose efforts are emitted as
//! single segments decodes from its own course text with every duration and
//! value intact.
use crate::text::find_char;
use crate::text::join_newlines;
use crate::text::lemma_find_char_clean_concat;
use crate::text::lemma_find_char_props;
use crate::text::lemma_find_line_at;
use crate::text::lemma_lines_of_join;
use crate::text::lines_spec;
use crate::text::pieces_clean;
use crate::text::pieces_plain;
use crate::text::trim_spec;
use crate::workout_data::effort::effort_mrc_spec;
use crate::workout_data::effort::pair_block;
use crate::workout_data::effort::total_duration;
use crate::workout_data::effort::Effort;
use crate::workout_data::effort::SPLITTING_THRESHOLD_HUNDREDTHS;
use crate::workout_data::from_mrc::collect_pairs;
use crate::workout_data::from_mrc::course_content_spec;
use crate::workout_data::from_mrc::course_field_ok;
use crate::workout_data::from_mrc::decode_pairs_spec;
use crate::workout_data::from_mrc::effort_values_of_pair;
use crate::workout_data::from_mrc::extract_efforts_string_spec;
use crate::workout_data::from_mrc::field_msg;
use crate::workout_data::from_mrc::pair_fields;
use crate::workout_data::from_mrc::pair_lines;
use crate::workout_data::from_mrc::split_once_unique;
use crate::workout_data::from_mrc::DECODE_MINUTE_CAP;
use crate::workout_data::positive_float::dec_digits;
use crate::workout_data::positive_float::is_digit_char;
use crate::workout_data::positive_float::lemma_dec_digits;
use crate::workout_data::positive_float::lemma_digit_char_plain;
use crate::workout_data::positive_float::lemma_parse_render;
use crate::workout_data::positive_float::render_hundredths;
use crate::workout_data::positive_float::unsigned_ok;
use crate::workout_data::positive_float::unsigned_val;
use crate::workout_data::workout::efforts_mrc_spec;
use crate::workout_data::workout::desc_or_default;
use crate::workout_data::workout::unit_line_spec;
use crate::workout_data::workout::workout_mrc_spec;
use crate::workout_data::workout::WorkoutType;
use crate::MAX_HUNDREDTHS;
use vstd::prelude::*;

verus! {

/// One course data line: a minute mark and a value, tab-separated.
pub open spec fn course_line(t: nat, v: nat) -> Seq<char> {
    render_hundredths(t) + seq!['\t'] + render_hundredths(v)
}

/// The data lines a list of single-segment efforts emits, two per effort.
pub open spec fn data_lines(es: Seq<Effort>, t: nat) -> Seq<Seq<char>>
    decreases es.len(),
{
    if es.len() == 0 {
        Seq::empty()
    } else {
        seq![
            course_line(t, es[0].start()),
            course_line(t + es[0].duration(), es[0].end()),
        ] + data_lines(es.skip(1), t + es[0].duration())
    }
}

/// An effort that is emitted as one segment: not a ramp long enough to be
/// split.
pub open spec fn unsplit(e: Effort) -> bool {
    !(e.is_ramp_spec() && e.can_split_spec())
}

/// Every character of a course data line is a digit, a dot or a tab; the
/// line starts with a digit and is never empty.
pub proof fn lemma_course_line_chars(t: nat, v: nat)
    ensures
        course_line(t, v).len() > 0,
        is_digit_char(course_line(t, v)[0]),
        forall|j: int|
            0 <= j < course_line(t, v).len() ==> (is_digit_char(#[trigger] course_line(t, v)[j])
                || course_line(t, v)[j] == '.' || course_line(t, v)[j] == '\t'),
{
    let a = render_hundredths(t);
    let b = render_hundredths(v);
    let l = course_line(t, v);
    lemma_parse_render(t);
    lemma_parse_render(v);
    lemma_dec_digits(t / 100);
    assert(a[0] == dec_digits(t / 100)[0]);
    assert(l[0] == a[0]);
    assert forall|j: int|
        0 <= j < l.len() implies (is_digit_char(#[trigger] l[j]) || l[j] == '.' || l[j]
        == '\t') by {
        if j < a.len() {
            assert(l[j] == a[j]);
        } else if j == a.len() {
            assert(l[j] == '\t');
        } else {
            assert(l[j] == b[j - a.len() - 1]);
        }
    }
}

/// A course data line holds no newline, no carriage return, and does not
/// start with a bracket.
pub proof fn lemma_course_line_clean(t: nat, v: nat)
    ensures
        course_line(t, v).len() > 0,
        course_line(t, v)[0] != '[',
        forall|j: int| 0 <= j < course_line(t, v).len() ==> #[trigger] course_line(t, v)[j] != '\n',
        forall|j: int| 0 <= j < course_line(t, v).len() ==> #[trigger] course_line(t, v)[j] != '\r',
{
    lemma_course_line_chars(t, v);
    let l = course_line(t, v);
    assert forall|j: int| 0 <= j < l.len() implies #[trigger] l[j] != '\n' && l[j] != '\r' by {
        if is_digit_char(l[j]) {
            lemma_digit_char_plain(l[j]);
        }
    }
    assert(is_digit_char(l[0]));
}

/// A single-segment block is its two course lines joined by one newline.
pub proof fn lemma_pair_block_lines(t0: nat, v0: nat, t1: nat, v1: nat)
    ensures
        pair_block(t0, v0, t1, v1) == course_line(t0, v0) + seq!['\n'] + course_line(t1, v1),
{
    assert(pair_block(t0, v0, t1, v1) =~= course_line(t0, v0) + seq!['\n'] + course_line(t1, v1));
}

/// Joining the data lines of single-segment efforts gives exactly the
/// course data text the encoder emits.
pub proof fn lemma_efforts_text_is_joined_lines(es: Seq<Effort>, t: nat)
    requires
        es.len() >= 1,
        forall|i: int| 0 <= i < es.len() ==> unsplit(#[trigger] es[i]),
    ensures
        efforts_mrc_spec(es, t) == join_newlines(data_lines(es, t)),
    decreases es.len(),
{
    let e0 = es[0];
    let la = course_line(t, e0.start());
    let lb = course_line(t + e0.duration(), e0.end());
    let nl = seq!['\n'];
    lemma_pair_block_lines(t, e0.start(), t + e0.duration(), e0.end());
    let block0 = pair_block(t, e0.start(), t + e0.duration(), e0.end());
    assert(unsplit(e0));
    assert(effort_mrc_spec(e0.duration(), e0.start(), e0.end(), t) == block0) by {
        assert(!(e0.start() != e0.end() && e0.duration() > SPLITTING_THRESHOLD_HUNDREDTHS));
    }
    let dl = data_lines(es, t);
    if es.len() == 1 {
        assert(data_lines(es.skip(1), t + e0.duration()) =~= Seq::<Seq<char>>::empty());
        assert(dl =~= seq![la, lb]);
        assert(dl[0] == la);
        assert(dl.skip(1) =~= seq![lb]);
        assert(join_newlines(seq![lb]) == lb);
        assert(join_newlines(dl) == la + nl + lb);
        assert(efforts_mrc_spec(es, t) == block0);
    } else {
        let rest = es.skip(1);
        assert(forall|i: int| 0 <= i < rest.len() ==> unsplit(#[trigger] rest[i]));
        lemma_efforts_text_is_joined_lines(rest, t + e0.duration());
        let big_r = efforts_mrc_spec(rest, t + e0.duration());
        let dl_rest = data_lines(rest, t + e0.duration());
        assert(dl_rest.len() >= 2);
        assert(dl == seq![la, lb] + dl_rest);
        assert(dl[0] == la);
        assert(dl.skip(1) =~= seq![lb] + dl_rest);
        let mid = seq![lb] + dl_rest;
        assert(mid[0] == lb);
        assert(mid.skip(1) =~= dl_rest);
        assert(join_newlines(dl) == la + nl + join_newlines(mid));
        assert(join_newlines(mid) == lb + nl + join_newlines(dl_rest));
        assert(efforts_mrc_spec(es, t) == block0 + nl + big_r);
        let a = la + nl;
        assert(block0 == a + lb);
        vstd::seq_lib::lemma_concat_associative(a, lb, nl);
        vstd::seq_lib::lemma_concat_associative(a, lb + nl, big_r);
        vstd::seq_lib::lemma_concat_associative(lb, nl, big_r);
        assert(block0 + nl + big_r == a + ((lb + nl) + big_r));
        assert(join_newlines(dl) == a + (lb + nl + join_newlines(dl_rest)));
        assert(efforts_mrc_spec(es, t) == join_newlines(data_lines(es, t)));
    }
}

/// A rendered number never holds a tab or a newline.
pub proof fn lemma_render_no_separator(h: nat)
    ensures
        forall|j: int|
            0 <= j < render_hundredths(h).len() ==> #[trigger] render_hundredths(h)[j] != '\t'
                && render_hundredths(h)[j] != '\n',
{
    lemma_parse_render(h);
    let s = render_hundredths(h);
    assert forall|j: int| 0 <= j < s.len() implies #[trigger] s[j] != '\t' && s[j] != '\n' by {
        if is_digit_char(s[j]) {
            lemma_digit_char_plain(s[j]);
        }
    }
}

/// A course line splits at its single tab into its two rendered numbers.
pub proof fn lemma_course_line_tab(t: nat, v: nat)
    ensures
        split_once_unique(course_line(t, v), '\t') == Some(
            (render_hundredths(t), render_hundredths(v)),
        ),
{
    let a = render_hundredths(t);
    let b = render_hundredths(v);
    let tb = seq!['\t'];
    let l = course_line(t, v);
    lemma_render_no_separator(t);
    lemma_render_no_separator(v);
    vstd::seq_lib::lemma_concat_associative(a, tb, b);
    assert(l == a + (tb + b));
    assert((tb + b)[0] == '\t');
    assert(find_char(tb + b, '\t') == Some(0int));
    lemma_find_char_clean_concat(a, tb + b, '\t');
    assert(find_char(l, '\t') == Some(a.len() as int));
    assert(l.take(a.len() as int) =~= a);
    assert(l.skip(a.len() as int + 1) =~= b);
    lemma_find_char_props(b, '\t');
    if find_char(b, '\t') is Some {
        assert(false);
    }
}

/// A rendered number is a well-shaped course field whose value reads back.
pub proof fn lemma_render_field(h: nat, cap: nat)
    requires
        h <= cap,
    ensures
        course_field_ok(render_hundredths(h)),
        field_msg(render_hundredths(h), cap) is None,
        unsigned_val(render_hundredths(h)) == h,
{
    lemma_parse_render(h);
    let s = render_hundredths(h);
    lemma_find_char_props(s, '.');
    assert(unsigned_ok(s));
    let i = find_char(s, '.')->0;
    assert(course_field_ok(s));
}

/// One single-segment block reads back as exactly its duration, starting
/// and ending value.
pub proof fn lemma_pair_round_trip(t: nat, d: nat, v0: nat, v1: nat)
    requires
        d <= MAX_HUNDREDTHS,
        v0 <= MAX_HUNDREDTHS,
        v1 <= MAX_HUNDREDTHS,
        t + d <= DECODE_MINUTE_CAP,
    ensures
        effort_values_of_pair(pair_block(t, v0, t + d, v1)) == Some((d, v0, v1)),
{
    let la = course_line(t, v0);
    let lb = course_line(t + d, v1);
    let nl = seq!['\n'];
    lemma_pair_block_lines(t, v0, t + d, v1);
    let p = pair_block(t, v0, t + d, v1);
    lemma_course_line_clean(t, v0);
    lemma_course_line_clean(t + d, v1);
    vstd::seq_lib::lemma_concat_associative(la, nl, lb);
    assert(p == la + (nl + lb));
    assert((nl + lb)[0] == '\n');
    assert(find_char(nl + lb, '\n') == Some(0int));
    lemma_find_char_clean_concat(la, nl + lb, '\n');
    assert(find_char(p, '\n') == Some(la.len() as int));
    assert(p.take(la.len() as int) =~= la);
    assert(p.skip(la.len() as int + 1) =~= lb);
    lemma_find_char_props(lb, '\n');
    if find_char(lb, '\n') is Some {
        assert(false);
    }
    assert(split_once_unique(p, '\n') == Some((la, lb)));
    lemma_course_line_tab(t, v0);
    lemma_course_line_tab(t + d, v1);
    lemma_render_field(t, DECODE_MINUTE_CAP as nat);
    lemma_render_field(v0, MAX_HUNDREDTHS as nat);
    lemma_render_field(t + d, DECODE_MINUTE_CAP as nat);
    lemma_render_field(v1, MAX_HUNDREDTHS as nat);
    assert(pair_fields(p) == Some(
        (render_hundredths(t), render_hundredths(v0), render_hundredths(t + d), render_hundredths(
            v1,
        )),
    ));
    assert(effort_values_of_pair(p) == Some((d, v0, v1)));
}

/// Do all efforts stay within the value bound?
pub open spec fn efforts_bounded(es: Seq<Effort>) -> bool {
    forall|i: int|
        0 <= i < es.len() ==> (#[trigger] es[i]).duration() <= MAX_HUNDREDTHS && es[i].start()
            <= MAX_HUNDREDTHS && es[i].end() <= MAX_HUNDREDTHS
}

/// Pairing the data lines of single-segment efforts and reading each pair
/// back yields every duration, starting and ending value unchanged.
pub proof fn lemma_pairs_decode(es: Seq<Effort>, t: nat)
    requires
        efforts_bounded(es),
        t + total_duration(es) <= DECODE_MINUTE_CAP,
    ensures
        collect_pairs(pair_lines(data_lines(es, t))) matches Some(vals) && vals.len() == es.len()
            && forall|i: int|
            0 <= i < es.len() ==> #[trigger] vals[i] == ((es[i].duration(), es[i].start(), es[i].end())),
    decreases es.len(),
{
    if es.len() == 0 {
        assert(data_lines(es, t) =~= Seq::<Seq<char>>::empty());
        assert(pair_lines(data_lines(es, t)).len() == 0);
        assert(collect_pairs(pair_lines(data_lines(es, t))) == Some(Seq::<(nat, nat, nat)>::empty()));
    } else {
        let e0 = es[0];
        let d0 = e0.duration();
        let la = course_line(t, e0.start());
        let lb = course_line(t + d0, e0.end());
        let nl = seq!['\n'];
        let rest = es.skip(1);
        let dl = data_lines(es, t);
        let dl_rest = data_lines(rest, t + d0);
        assert(dl == seq![la, lb] + dl_rest);
        assert(total_duration(es) == d0 + total_duration(rest));
        assert(efforts_bounded(rest));
        lemma_pairs_decode(rest, t + d0);
        let rest_pairs = pair_lines(dl_rest);
        assert(dl.len() >= 2);
        assert(dl[0] == la);
        assert(dl[1] == lb);
        assert(dl.skip(2) =~= dl_rest);
        assert(pair_lines(dl) == seq![la + nl + lb] + rest_pairs);
        lemma_pair_block_lines(t, e0.start(), t + d0, e0.end());
        lemma_pair_round_trip(t, d0, e0.start(), e0.end());
        assert(effort_values_of_pair(la + nl + lb) == Some((d0, e0.start(), e0.end())));
        let ps = pair_lines(dl);
        assert(ps[0] == la + nl + lb);
        assert(ps.skip(1) =~= rest_pairs);
        let rest_vals = collect_pairs(rest_pairs)->0;
        assert(collect_pairs(ps) == Some(seq![(d0, e0.start(), e0.end())] + rest_vals));
        let vals = collect_pairs(ps)->0;
        assert forall|i: int|
            0 <= i < es.len() implies #[trigger] vals[i] == ((es[i].duration(), es[i].start(), es[i].end())) by {
            if i > 0 {
                assert(vals[i] == rest_vals[i - 1]);
                assert(rest[i - 1] == es[i]);
            }
        }
    }
}

/// Splitting text that begins with a clean line and a newline yields that
/// line and then the split of the rest.
pub proof fn lemma_split_prepend_line(l: Seq<char>, rest: Seq<char>)
    requires
        forall|j: int| 0 <= j < l.len() ==> #[trigger] l[j] != '\n',
    ensures
        crate::text::split_newlines(l + seq!['\n'] + rest) == seq![l]
            + crate::text::split_newlines(rest),
{
    let nl = seq!['\n'];
    let s = l + nl + rest;
    vstd::seq_lib::lemma_concat_associative(l, nl, rest);
    assert(s == l + (nl + rest));
    assert((nl + rest)[0] == '\n');
    assert(find_char(nl + rest, '\n') == Some(0int));
    lemma_find_char_clean_concat(l, nl + rest, '\n');
    assert(find_char(s, '\n') == Some(l.len() as int));
    assert(s.take(l.len() as int) =~= l);
    assert(s.skip(l.len() as int + 1) =~= rest);
}

/// Appending a final line extends a join by a newline and that line.
pub proof fn lemma_join_snoc(ls: Seq<Seq<char>>, x: Seq<char>)
    requires
        ls.len() >= 1,
    ensures
        join_newlines(ls.push(x)) == join_newlines(ls) + seq!['\n'] + x,
    decreases ls.len(),
{
    let nl = seq!['\n'];
    if ls.len() == 1 {
        let two = ls.push(x);
        assert(two[0] == ls[0]);
        assert(two.skip(1) =~= seq![x]);
        assert(join_newlines(seq![x]) == x);
        assert(join_newlines(two) == ls[0] + nl + x);
        assert(join_newlines(ls) == ls[0]);
    } else {
        lemma_join_snoc(ls.skip(1), x);
        let big = ls.push(x);
        assert(big[0] == ls[0]);
        assert(big.skip(1) =~= ls.skip(1).push(x));
        assert(join_newlines(big) == ls[0] + nl + join_newlines(ls.skip(1).push(x)));
        assert(join_newlines(big) == ls[0] + nl + (join_newlines(ls.skip(1)) + nl + x));
        let a = ls[0] + nl;
        vstd::seq_lib::lemma_concat_associative(a, join_newlines(ls.skip(1)), nl);
        vstd::seq_lib::lemma_concat_associative(a + join_newlines(ls.skip(1)), nl, x);
        vstd::seq_lib::lemma_concat_associative(a, join_newlines(ls.skip(1)) + nl, x);
        assert(ls[0] + nl + (join_newlines(ls.skip(1)) + nl + x) == (a + join_newlines(ls.skip(1)))
            + nl + x);
        assert(join_newlines(ls) == ls[0] + nl + join_newlines(ls.skip(1)));
    }
}

/// The last character of a join is the last character of its last piece.
pub proof fn lemma_join_last(ls: Seq<Seq<char>>)
    requires
        ls.len() >= 1,
        ls.last().len() > 0,
    ensures
        join_newlines(ls).len() > 0,
        join_newlines(ls).last() == ls.last().last(),
    decreases ls.len(),
{
    if ls.len() == 1 {
    } else {
        lemma_join_last(ls.skip(1));
        assert(ls.skip(1).last() == ls.last());
        let nl = seq!['\n'];
        assert(join_newlines(ls) == ls[0] + nl + join_newlines(ls.skip(1)));
    }
}

/// The first character of a join is the first character of its first piece.
pub proof fn lemma_join_first(ls: Seq<Seq<char>>)
    requires
        ls.len() >= 1,
        ls[0].len() > 0,
    ensures
        join_newlines(ls).len() > 0,
        join_newlines(ls)[0] == ls[0][0],
{
    if ls.len() > 1 {
        let nl = seq!['\n'];
        assert(join_newlines(ls) == ls[0] + nl + join_newlines(ls.skip(1)));
    }
}

/// A bounded effort list's total duration is at most one bound per effort.
pub proof fn lemma_total_duration_bound(es: Seq<Effort>)
    requires
        efforts_bounded(es),
    ensures
        total_duration(es) <= es.len() * (MAX_HUNDREDTHS as int),
    decreases es.len(),
{
    if es.len() > 0 {
        assert(efforts_bounded(es.skip(1)));
        lemma_total_duration_bound(es.skip(1));
        assert(es.len() * (MAX_HUNDREDTHS as int) == MAX_HUNDREDTHS + (es.len() - 1) * (
        MAX_HUNDREDTHS as int)) by (nonlinear_arith);
    }
}

/// The document lines of the encoded course file of a workout.
pub open spec fn doc_lines(desc: Seq<char>, workout_type: WorkoutType, es: Seq<Effort>) -> Seq<
    Seq<char>,
> {
    seq![
        "[COURSE HEADER]"@,
        "DESCRIPTION = "@ + desc_or_default(desc),
        unit_line_spec(workout_type),
        "[END COURSE HEADER]"@,
        "[COURSE DATA]"@,
    ] + data_lines(es, 0) + seq!["[END COURSE DATA]"@]
}

/// A description that course text can carry back: no line breaks.
pub open spec fn desc_plain(desc: Seq<char>) -> bool {
    forall|j: int| 0 <= j < desc.len() ==> #[trigger] desc[j] != '\n' && desc[j] != '\r'
}

/// The encoded course file splits into exactly its document lines.
#[verifier::rlimit(100)]
pub proof fn lemma_document_lines(desc: Seq<char>, workout_type: WorkoutType, es: Seq<Effort>)
    requires
        es.len() >= 1,
        forall|i: int| 0 <= i < es.len() ==> unsplit(#[trigger] es[i]),
        desc_plain(desc),
    ensures
        lines_spec(workout_mrc_spec(desc, workout_type, es)) == doc_lines(desc, workout_type, es),
{
    let nl = seq!['\n'];
    let l1 = "[COURSE HEADER]"@;
    let l2 = "DESCRIPTION = "@ + desc_or_default(desc);
    let l3 = unit_line_spec(workout_type);
    let l4 = "[END COURSE HEADER]"@;
    let l5 = "[COURSE DATA]"@;
    let l6 = "[END COURSE DATA]"@;
    let dl = data_lines(es, 0);
    lemma_efforts_text_is_joined_lines(es, 0);
    let ej = join_newlines(dl);
    let full = workout_mrc_spec(desc, workout_type, es);
    reveal_strlit("[COURSE HEADER]");
    reveal_strlit("DESCRIPTION = ");
    reveal_strlit("[COURSE HEADER]\nDESCRIPTION = ");
    reveal_strlit("[END COURSE HEADER]");
    reveal_strlit("\n[END COURSE HEADER]");
    reveal_strlit("[COURSE DATA]");
    reveal_strlit("[COURSE DATA]\n");
    reveal_strlit("[END COURSE DATA]");
    reveal_strlit("\n[END COURSE DATA]");
    reveal_strlit("MINUTES WATTS");
    reveal_strlit("MINUTES PERCENTAGE");
    reveal_strlit("no description");
    reveal_strlit("\n");
    let r5 = ej + nl + l6;
    let r4 = l5 + nl + r5;
    let r3 = l4 + nl + r4;
    let r2 = l3 + nl + r3;
    let r1 = l2 + nl + r2;
    assert(full =~= l1 + nl + r1);
    assert(forall|j: int| 0 <= j < l1.len() ==> #[trigger] l1[j] != '\n');
    assert(forall|j: int| 0 <= j < l4.len() ==> #[trigger] l4[j] != '\n');
    assert(forall|j: int| 0 <= j < l5.len() ==> #[trigger] l5[j] != '\n');
    assert(forall|j: int| 0 <= j < l6.len() ==> #[trigger] l6[j] != '\n');
    assert(forall|j: int| 0 <= j < l3.len() ==> #[trigger] l3[j] != '\n') by {
        match workout_type {
            WorkoutType::Watts => {},
            WorkoutType::PercentOfFTP => {},
        }
    }
    assert(forall|j: int| 0 <= j < l2.len() ==> #[trigger] l2[j] != '\n') by {
        assert(forall|j: int|
            0 <= j < desc_or_default(desc).len() ==> #[trigger] desc_or_default(desc)[j] != '\n');
    }
    lemma_split_prepend_line(l1, r1);
    lemma_split_prepend_line(l2, r2);
    lemma_split_prepend_line(l3, r3);
    lemma_split_prepend_line(l4, r4);
    lemma_split_prepend_line(l5, r5);
    assert forall|i: int| 0 <= i < dl.len() implies (forall|j: int|
        0 <= j < (#[trigger] dl[i]).len() ==> #[trigger] dl[i][j] != '\n' && dl[i][j] != '\r')
        && dl[i].len() > 0 by {
        lemma_data_lines_shape(es, 0, i);
    }
    lemma_join_snoc(dl, l6);
    assert(dl.push(l6) =~= dl + seq![l6]);
    assert(r5 == join_newlines(dl.push(l6)));
    assert(pieces_clean(dl.push(l6)));
    crate::text::lemma_split_join(dl.push(l6));
    assert(crate::text::split_newlines(full) == seq![l1] + (seq![l2] + (seq![l3] + (seq![l4] + (
    seq![l5] + dl.push(l6))))));
    assert(crate::text::split_newlines(full) =~= seq![l1, l2, l3, l4, l5] + dl + seq![l6]);
    let ps = crate::text::split_newlines(full);
    assert(ps.last() == l6);
    assert(l6.len() > 0);
    assert(full.len() > 0);
    assert(lines_spec(full) == ps.map_values(|l: Seq<char>| crate::text::strip_cr(l)));
    assert forall|i: int| 0 <= i < ps.len() implies ps.map_values(
        |l: Seq<char>| crate::text::strip_cr(l),
    )[i] == ps[i] by {
        if 5 <= i < 5 + dl.len() {
            lemma_data_lines_shape(es, 0, i - 5);
            assert(ps[i] == dl[i - 5]);
            assert(ps[i].last() != '\r');
        } else if i == 1 {
            assert(ps[i] == l2);
            assert(l2.last() != '\r') by {
                let dd = desc_or_default(desc);
                assert(l2.last() == dd.last());
            }
        } else if i == 2 {
            match workout_type {
                WorkoutType::Watts => {},
                WorkoutType::PercentOfFTP => {},
            }
        }
        assert(crate::text::strip_cr(ps[i]) == ps[i]);
    }
    assert(lines_spec(full) =~= doc_lines(desc, workout_type, es));
}

/// The document lines of the encoded course file of a workout without
/// efforts: the data block holds one empty line.
pub open spec fn doc_lines_empty(desc: Seq<char>, workout_type: WorkoutType) -> Seq<Seq<char>> {
    seq![
        "[COURSE HEADER]"@,
        "DESCRIPTION = "@ + desc_or_default(desc),
        unit_line_spec(workout_type),
        "[END COURSE HEADER]"@,
        "[COURSE DATA]"@,
        Seq::<char>::empty(),
        "[END COURSE DATA]"@,
    ]
}

/// The encoded course file of a workout without efforts splits into its
/// document lines.
#[verifier::rlimit(100)]
pub proof fn lemma_document_lines_empty(desc: Seq<char>, workout_type: WorkoutType)
    requires
        desc_plain(desc),
    ensures
        lines_spec(workout_mrc_spec(desc, workout_type, Seq::empty())) == doc_lines_empty(
            desc,
            workout_type,
        ),
{
    let nl = seq!['\n'];
    let l1 = "[COURSE HEADER]"@;
    let l2 = "DESCRIPTION = "@ + desc_or_default(desc);
    let l3 = unit_line_spec(workout_type);
    let l4 = "[END COURSE HEADER]"@;
    let l5 = "[COURSE DATA]"@;
    let l6 = "[END COURSE DATA]"@;
    let empty_line = Seq::<char>::empty();
    let full = workout_mrc_spec(desc, workout_type, Seq::empty());
    reveal_strlit("[COURSE HEADER]");
    reveal_strlit("DESCRIPTION = ");
    reveal_strlit("[COURSE HEADER]\nDESCRIPTION = ");
    reveal_strlit("[END COURSE HEADER]");
    reveal_strlit("\n[END COURSE HEADER]");
    reveal_strlit("[COURSE DATA]");
    reveal_strlit("[COURSE DATA]\n");
    reveal_strlit("[END COURSE DATA]");
    reveal_strlit("\n[END COURSE DATA]");
    reveal_strlit("MINUTES WATTS");
    reveal_strlit("MINUTES PERCENTAGE");
    reveal_strlit("no description");
    reveal_strlit("\n");
    assert(efforts_mrc_spec(Seq::empty(), 0).len() == 0);
    let r5 = empty_line + nl + l6;
    let r4 = l5 + nl + r5;
    let r3 = l4 + nl + r4;
    let r2 = l3 + nl + r3;
    let r1 = l2 + nl + r2;
    assert(full =~= l1 + nl + r1);
    assert(forall|j: int| 0 <= j < l1.len() ==> #[trigger] l1[j] != '\n');
    assert(forall|j: int| 0 <= j < l4.len() ==> #[trigger] l4[j] != '\n');
    assert(forall|j: int| 0 <= j < l5.len() ==> #[trigger] l5[j] != '\n');
    assert(forall|j: int| 0 <= j < l6.len() ==> #[trigger] l6[j] != '\n');
    assert(forall|j: int| 0 <= j < l3.len() ==> #[trigger] l3[j] != '\n') by {
        match workout_type {
            WorkoutType::Watts => {},
            WorkoutType::PercentOfFTP => {},
        }
    }
    assert(forall|j: int| 0 <= j < l2.len() ==> #[trigger] l2[j] != '\n') by {
        assert(forall|j: int|
            0 <= j < desc_or_default(desc).len() ==> #[trigger] desc_or_default(desc)[j] != '\n');
    }
    lemma_split_prepend_line(l1, r1);
    lemma_split_prepend_line(l2, r2);
    lemma_split_prepend_line(l3, r3);
    lemma_split_prepend_line(l4, r4);
    lemma_split_prepend_line(l5, r5);
    lemma_split_prepend_line(empty_line, l6);
    lemma_find_char_props(l6, '\n');
    if find_char(l6, '\n') is Some {
        assert(false);
    }
    assert(crate::text::split_newlines(l6) == seq![l6]);
    assert(crate::text::split_newlines(full) =~= seq![l1, l2, l3, l4, l5, empty_line, l6]);
    let ps = crate::text::split_newlines(full);
    assert(ps.last() == l6);
    assert(l6.len() > 0);
    assert(full.len() > 0);
    assert(lines_spec(full) == ps.map_values(|l: Seq<char>| crate::text::strip_cr(l)));
    assert forall|i: int| 0 <= i < ps.len() implies ps.map_values(
        |l: Seq<char>| crate::text::strip_cr(l),
    )[i] == ps[i] by {
        if i == 1 {
            assert(ps[i] == l2);
            assert(l2.last() != '\r') by {
                let dd = desc_or_default(desc);
                assert(l2.last() == dd.last());
            }
        } else if i == 2 {
            match workout_type {
                WorkoutType::Watts => {},
                WorkoutType::PercentOfFTP => {},
            }
        }
        assert(crate::text::strip_cr(ps[i]) == ps[i]);
    }
    assert(lines_spec(full) =~= doc_lines_empty(desc, workout_type));
}

/// Each data line is clean, non-empty, starts with a digit and ends with a
/// digit.
pub proof fn lemma_data_lines_shape(es: Seq<Effort>, t: nat, i: int)
    requires
        0 <= i < data_lines(es, t).len(),
    ensures
        data_lines(es, t)[i].len() > 0,
        is_digit_char(data_lines(es, t)[i][0]),
        is_digit_char(data_lines(es, t)[i].last()),
        forall|j: int|
            0 <= j < data_lines(es, t)[i].len() ==> #[trigger] data_lines(es, t)[i][j] != '\n'
                && data_lines(es, t)[i][j] != '\r',
    decreases es.len(),
{
    if es.len() > 0 {
        let e0 = es[0];
        let la = course_line(t, e0.start());
        let lb = course_line(t + e0.duration(), e0.end());
        if i == 0 {
            lemma_course_line_clean(t, e0.start());
            lemma_course_line_chars(t, e0.start());
            lemma_course_line_last(t, e0.start());
        } else if i == 1 {
            lemma_course_line_clean(t + e0.duration(), e0.end());
            lemma_course_line_chars(t + e0.duration(), e0.end());
            lemma_course_line_last(t + e0.duration(), e0.end());
        } else {
            lemma_data_lines_shape(es.skip(1), t + e0.duration(), i - 2);
            assert(data_lines(es, t)[i] == data_lines(es.skip(1), t + e0.duration())[i - 2]);
        }
    }
}

/// Law: decoding the encoded course text of a workout whose efforts are all
/// emitted as single segments yields back exactly those efforts' durations,
/// starting values and ending values, in order.
#[verifier::rlimit(100)]
pub proof fn lemma_course_round_trip(desc: Seq<char>, workout_type: WorkoutType, es: Seq<Effort>)
    requires
        es.len() <= crate::workout_data::workout::MAX_EFFORTS,
        efforts_bounded(es),
        forall|i: int| 0 <= i < es.len() ==> unsplit(#[trigger] es[i]),
        desc_plain(desc),
    ensures
        decode_pairs_spec(workout_mrc_spec(desc, workout_type, es)) matches Some(ps)
            && collect_pairs(ps) matches Some(vals) && vals.len() == es.len() && forall|i: int|
            0 <= i < es.len() ==> #[trigger] vals[i] == ((es[i].duration(), es[i].start(), es[i].end())),
{
    if es.len() == 0 {
        lemma_course_round_trip_empty(desc, workout_type, es);
        return ;
    }
    let nl = seq!['\n'];
    let full = workout_mrc_spec(desc, workout_type, es);
    let dl = data_lines(es, 0);
    let l5 = "[COURSE DATA]"@;
    let l6 = "[END COURSE DATA]"@;
    lemma_document_lines(desc, workout_type, es);
    let ls = doc_lines(desc, workout_type, es);
    assert(lines_spec(full) == ls);
    reveal_strlit("[COURSE HEADER]");
    reveal_strlit("DESCRIPTION = ");
    reveal_strlit("[END COURSE HEADER]");
    reveal_strlit("[COURSE DATA]");
    reveal_strlit("[END COURSE DATA]");
    reveal_strlit("MINUTES WATTS");
    reveal_strlit("MINUTES PERCENTAGE");
    reveal_strlit("no description");
    assert(ls.len() == 6 + dl.len());
    assert(ls[4] == l5);
    assert(ls[0] != l5) by {
        assert(ls[0].len() == 15);
        assert(l5.len() == 13);
    }
    assert(ls[1] != l5) by {
        assert(ls[1][0] == 'D');
        assert(l5[0] == '[');
        if ls[1] == l5 {
            assert(ls[1][0] == l5[0]);
        }
    }
    assert(ls[2] != l5) by {
        match workout_type {
            WorkoutType::Watts => {
                assert(ls[2][0] == 'M');
            },
            WorkoutType::PercentOfFTP => {
                assert(ls[2][0] == 'M');
            },
        }
        assert(l5[0] == '[');
        if ls[2] == l5 {
            assert(ls[2][0] == l5[0]);
        }
    }
    assert(ls[3] != l5) by {
        assert(ls[3].len() == 19);
    }
    lemma_find_line_at(ls, l5, 4);
    let after = ls.skip(5);
    assert(after =~= dl + seq![l6]);
    assert forall|k: int| 0 <= k < dl.len() implies after[k] != l6 by {
        lemma_data_lines_shape(es, 0, k);
        assert(after[k] == dl[k]);
        lemma_digit_char_plain(dl[k][0]);
        assert(l6[0] == '[');
        if dl[k] == l6 {
            assert(dl[k][0] == l6[0]);
        }
    }
    assert(after[dl.len() as int] == l6);
    lemma_find_line_at(after, l6, dl.len() as int);
    assert(course_content_spec(full) matches Some(content) && content == after.take(
        dl.len() as int,
    )) by {
        assert(dl.len() != 0);
    }
    assert(after.take(dl.len() as int) =~= dl);
    let ej = join_newlines(dl);
    assert(extract_efforts_string_spec(full) == Some(ej + nl));
    // Trimming the raw block text removes exactly the final newline.
    assert forall|i: int| 0 <= i < dl.len() implies (forall|j: int|
        0 <= j < (#[trigger] dl[i]).len() ==> #[trigger] dl[i][j] != '\n') && dl[i].len() > 0 by {
        lemma_data_lines_shape(es, 0, i);
    }
    lemma_join_first(dl);
    lemma_data_lines_shape(es, 0, 0);
    assert(ej[0] == dl[0][0]);
    lemma_digit_char_plain(ej[0]);
    let raw = ej + nl;
    assert(raw[0] == ej[0]);
    assert(crate::text::trim_left_spec(raw) == raw);
    assert(raw.last() == '\n');
    assert(raw.drop_last() =~= ej);
    lemma_join_last(dl);
    assert(ej.last() == dl.last().last());
    lemma_data_lines_shape(es, 0, dl.len() - 1);
    lemma_digit_char_plain(ej.last());
    assert(crate::text::trim_right_spec(raw) == crate::text::trim_right_spec(ej));
    assert(crate::text::trim_right_spec(ej) == ej);
    assert(trim_spec(raw) == ej);
    // The trimmed block's lines are the data lines again.
    assert(pieces_clean(dl));
    assert(pieces_plain(dl)) by {
        assert forall|i: int| 0 <= i < dl.len() implies ((#[trigger] dl[i]).len() == 0
            || dl[i].last() != '\r') by {
            lemma_data_lines_shape(es, 0, i);
            lemma_digit_char_plain(dl[i].last());
        }
        lemma_data_lines_shape(es, 0, dl.len() - 1);
    }
    lemma_lines_of_join(dl);
    assert(lines_spec(ej) == dl);
    assert(decode_pairs_spec(full) == Some(pair_lines(dl)));
    lemma_total_duration_bound(es);
    lemma_pairs_decode(es, 0);
}

/// A workout without efforts also decodes from its own course text: the
/// data block holds one empty line, which trims away to no records at all.
#[verifier::rlimit(100)]
proof fn lemma_course_round_trip_empty(desc: Seq<char>, workout_type: WorkoutType, es: Seq<Effort>)
    requires
        es.len() == 0,
        desc_plain(desc),
    ensures
        decode_pairs_spec(workout_mrc_spec(desc, workout_type, es)) matches Some(ps)
            && collect_pairs(ps) matches Some(vals) && vals.len() == 0,
{
    let nl = seq!['\n'];
    assert(es =~= Seq::<Effort>::empty());
    let full = workout_mrc_spec(desc, workout_type, Seq::empty());
    let l5 = "[COURSE DATA]"@;
    let l6 = "[END COURSE DATA]"@;
    let empty_line = Seq::<char>::empty();
    lemma_document_lines_empty(desc, workout_type);
    let ls = doc_lines_empty(desc, workout_type);
    assert(lines_spec(full) == ls);
    reveal_strlit("[COURSE HEADER]");
    reveal_strlit("DESCRIPTION = ");
    reveal_strlit("[END COURSE HEADER]");
    reveal_strlit("[COURSE DATA]");
    reveal_strlit("[END COURSE DATA]");
    reveal_strlit("MINUTES WATTS");
    reveal_strlit("MINUTES PERCENTAGE");
    reveal_strlit("no description");
    assert(ls.len() == 7);
    assert(ls[4] == l5);
    assert(ls[0] != l5) by {
        assert(ls[0].len() == 15);
        assert(l5.len() == 13);
    }
    assert(ls[1] != l5) by {
        assert(ls[1][0] == 'D');
        assert(l5[0] == '[');
        if ls[1] == l5 {
            assert(ls[1][0] == l5[0]);
        }
    }
    assert(ls[2] != l5) by {
        match workout_type {
            WorkoutType::Watts => {
                assert(ls[2][0] == 'M');
            },
            WorkoutType::PercentOfFTP => {
                assert(ls[2][0] == 'M');
            },
        }
        assert(l5[0] == '[');
        if ls[2] == l5 {
            assert(ls[2][0] == l5[0]);
        }
    }
    assert(ls[3] != l5) by {
        assert(ls[3].len() == 19);
    }
    lemma_find_line_at(ls, l5, 4);
    let after = ls.skip(5);
    assert(after =~= seq![empty_line, l6]);
    assert(after[0] != l6) by {
        assert(l6.len() == 17);
    }
    assert(after[1] == l6);
    lemma_find_line_at(after, l6, 1);
    assert(course_content_spec(full) matches Some(content) && content == after.take(1));
    assert(after.take(1) =~= seq![empty_line]);
    assert(join_newlines(seq![empty_line]) == empty_line);
    assert(extract_efforts_string_spec(full) == Some(empty_line + nl));
    let raw = empty_line + nl;
    assert(raw =~= nl);
    assert(raw[0] == '\n');
    assert(raw.skip(1) =~= Seq::<char>::empty());
    assert(crate::text::trim_left_spec(raw) == crate::text::trim_left_spec(Seq::<char>::empty()));
    assert(trim_spec(raw) =~= Seq::<char>::empty());
    assert(lines_spec(Seq::<char>::empty()).len() == 0);
    assert(pair_lines(lines_spec(trim_spec(raw))).len() == 0);
    assert(decode_pairs_spec(full) matches Some(ps) && ps.len() == 0);
    let ps = decode_pairs_spec(full)->0;
    assert(collect_pairs(ps) == Some(Seq::<(nat, nat, nat)>::empty()));
}

/// Law: the description written into a course file is read back unchanged,
/// except that writing the literal words `no description` (as an empty
/// description is) reads back as the empty description.
pub proof fn lemma_description_round_trip(desc: Seq<char>, workout_type: WorkoutType, es: Seq<Effort>)
    requires
        es.len() >= 1,
        forall|i: int| 0 <= i < es.len() ==> unsplit(#[trigger] es[i]),
        desc_plain(desc),
    ensures
        crate::workout_data::from_mrc::extract_description_spec(
            workout_mrc_spec(desc, workout_type, es),
        ) == Some(
            if desc == "no description"@ {
                Seq::<char>::empty()
            } else {
                desc
            },
        ),
{
    let full = workout_mrc_spec(desc, workout_type, es);
    lemma_document_lines(desc, workout_type, es);
    let ls = doc_lines(desc, workout_type, es);
    reveal_strlit("[COURSE HEADER]");
    reveal_strlit("DESCRIPTION = ");
    reveal_strlit("no description");
    let l1 = "[COURSE HEADER]"@;
    let prefix = crate::workout_data::from_mrc::desc_prefix();
    let dd = desc_or_default(desc);
    let l2 = "DESCRIPTION = "@ + dd;
    assert(ls[0] == l1);
    assert(ls[1] == l2);
    assert(dd.len() > 0);
    assert(l2.len() > prefix.len());
    assert(l2.take(prefix.len() as int) =~= prefix);
    assert(crate::workout_data::from_mrc::is_desc_line(l2));
    assert(!crate::workout_data::from_mrc::is_desc_line(l1)) by {
        if l1.take(prefix.len() as int) == prefix {
            assert(l1.take(prefix.len() as int)[0] == 'D');
            assert(l1[0] == '[');
        }
    }
    crate::workout_data::from_mrc::lemma_find_desc_line_at(ls, 1);
    assert(l2.skip(prefix.len() as int) =~= dd);
    if desc.len() == 0 {
        assert(dd == "no description"@);
        assert(desc != "no description"@);
    } else {
        assert(dd == desc);
    }
}

/// A course line ends with a digit.
pub proof fn lemma_course_line_last(t: nat, v: nat)
    ensures
        course_line(t, v).len() > 0,
        is_digit_char(course_line(t, v).last()),
{
    let b = render_hundredths(v);
    crate::workout_data::positive_float::lemma_digit_char_val(v % 10);
    assert(b.last() == crate::workout_data::positive_float::digit_char(v % 10));
    assert(course_line(t, v).last() == b.last());
}

} // verus!
