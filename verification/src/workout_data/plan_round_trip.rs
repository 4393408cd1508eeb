//! The plan-format codec's round trip: a workout of constant efforts in
//! whole watts and whole seconds decodes from its own plan text with its
//! name, durations and values intact.
use crate::text::is_ascii_space;
use crate::text::join_newlines;
use crate::text::lemma_find_char_props;
use crate::text::lemma_find_line_at;
use crate::text::lemma_find_line_props;
use crate::text::lemma_lines_of_join;
use crate::text::lines_spec;
use crate::text::pieces_clean;
use crate::text::pieces_plain;
use crate::text::trim_left_spec;
use crate::text::trim_right_spec;
use crate::text::trim_spec;
use crate::workout_data::effort::Effort;
use crate::workout_data::from_plan_format::blocks_spec;
use crate::workout_data::from_plan_format::collect_blocks;
use crate::workout_data::from_plan_format::digits_of;
use crate::workout_data::from_plan_format::is_name_line;
use crate::workout_data::from_plan_format::lemma_collect_blocks_some;
use crate::workout_data::from_plan_format::lemma_find_name_line_at;
use crate::workout_data::from_plan_format::maybe_block;
use crate::workout_data::from_plan_format::plan_block_fields;
use crate::workout_data::from_plan_format::plan_effort_spec;
use crate::workout_data::from_plan_format::split_plan_spec;
use crate::workout_data::from_plan_format::strip_fixed;
use crate::workout_data::positive_float::dec_digits;
use crate::workout_data::positive_float::lemma_dec_digits;
use crate::workout_data::positive_float::lemma_digit_char_plain;
use crate::workout_data::workout::effort_plan_spec;
use crate::workout_data::workout::efforts_plan_spec;
use crate::workout_data::workout::workout_plan_spec;
use crate::MAX_HUNDREDTHS;
use vstd::prelude::*;

verus! {

/// Joining two non-empty line lists in sequence joins their joins.
pub proof fn lemma_join_concat(xs: Seq<Seq<char>>, ys: Seq<Seq<char>>)
    requires
        xs.len() >= 1,
        ys.len() >= 1,
    ensures
        join_newlines(xs + ys) == join_newlines(xs) + seq!['\n'] + join_newlines(ys),
    decreases xs.len(),
{
    let nl = seq!['\n'];
    if xs.len() == 1 {
        assert((xs + ys)[0] == xs[0]);
        assert((xs + ys).skip(1) =~= ys);
        assert((xs + ys).len() >= 2);
        assert(join_newlines(xs + ys) == xs[0] + nl + join_newlines(ys));
        assert(join_newlines(xs) == xs[0]);
    } else {
        assert((xs + ys)[0] == xs[0]);
        assert((xs + ys).skip(1) =~= xs.skip(1) + ys);
        lemma_join_concat(xs.skip(1), ys);
        assert(join_newlines(xs + ys) == xs[0] + nl + (join_newlines(xs.skip(1)) + nl
            + join_newlines(ys)));
        assert(join_newlines(xs) == xs[0] + nl + join_newlines(xs.skip(1)));
        let a = xs[0] + nl;
        vstd::seq_lib::lemma_concat_associative(a, join_newlines(xs.skip(1)), nl);
        vstd::seq_lib::lemma_concat_associative(a + join_newlines(xs.skip(1)), nl, join_newlines(ys));
        vstd::seq_lib::lemma_concat_associative(a, join_newlines(xs.skip(1)) + nl, join_newlines(ys));
    }
}

/// Text that neither starts nor ends with whitespace trims to itself.
pub proof fn lemma_trim_identity(l: Seq<char>)
    requires
        l.len() > 0,
        !is_ascii_space(l[0]),
        !is_ascii_space(l.last()),
    ensures
        trim_spec(l) == l,
{
    assert(trim_left_spec(l) == l);
    assert(trim_right_spec(l) == l);
}

/// The line carrying an interval's low power.
pub open spec fn lo_line(e: Effort) -> Seq<char> {
    "PWR_LO="@ + dec_digits(e.start() / 100)
}

/// The line carrying an interval's high power.
pub open spec fn hi_line(e: Effort) -> Seq<char> {
    "PWR_HI="@ + dec_digits(e.end() / 100)
}

/// The line carrying an interval's duration in seconds.
pub open spec fn sec_line(e: Effort) -> Seq<char> {
    "MESG_DURATION_SEC>="@ + dec_digits(e.duration() * 60 / 100) + "?EXIT"@
}

/// The four lines one interval block is written as.
pub open spec fn plan_lines(e: Effort) -> Seq<Seq<char>> {
    seq!["=INTERVAL="@, lo_line(e), hi_line(e), sec_line(e)]
}

/// One interval block is its four lines joined by newlines.
pub proof fn lemma_plan_block_lines(e: Effort)
    ensures
        effort_plan_spec(e) == join_newlines(plan_lines(e)),
{
    reveal_strlit("=INTERVAL=");
    reveal_strlit("=INTERVAL=\nPWR_LO=");
    reveal_strlit("PWR_LO=");
    reveal_strlit("\nPWR_HI=");
    reveal_strlit("PWR_HI=");
    reveal_strlit("\nMESG_DURATION_SEC>=");
    reveal_strlit("MESG_DURATION_SEC>=");
    reveal_strlit("?EXIT");
    let ls = plan_lines(e);
    let nl = seq!['\n'];
    assert(ls.skip(1) =~= seq![lo_line(e), hi_line(e), sec_line(e)]);
    assert(ls.skip(1).skip(1) =~= seq![hi_line(e), sec_line(e)]);
    assert(ls.skip(1).skip(1).skip(1) =~= seq![sec_line(e)]);
    assert(join_newlines(seq![sec_line(e)]) == sec_line(e));
    assert(join_newlines(ls.skip(1).skip(1)) == hi_line(e) + nl + join_newlines(
        ls.skip(1).skip(1).skip(1),
    ));
    assert(join_newlines(ls.skip(1)) == lo_line(e) + nl + join_newlines(ls.skip(1).skip(1)));
    assert(join_newlines(ls) == ls[0] + nl + join_newlines(ls.skip(1)));
    assert(join_newlines(ls) == ls[0] + nl + (lo_line(e) + nl + (hi_line(e) + nl + sec_line(e))));
    assert(effort_plan_spec(e) =~= ls[0] + nl + (lo_line(e) + nl + (hi_line(e) + nl + sec_line(
        e,
    ))));
}

/// Every character of an interval content line is harmless: the lines hold
/// no newline, no carriage return, and no surrounding whitespace.
pub proof fn lemma_plan_lines_shape(e: Effort)
    ensures
        pieces_clean(plan_lines(e)),
        pieces_plain(plan_lines(e)),
        forall|i: int| 0 <= i < plan_lines(e).len() ==> (#[trigger] plan_lines(e)[i]).len() > 0,
        forall|i: int|
            0 <= i < plan_lines(e).len() ==> (forall|j: int|
                0 <= j < (#[trigger] plan_lines(e)[i]).len() ==> #[trigger] plan_lines(e)[i][j]
                    != '\r'),
        lo_line(e)[0] == 'P' && !is_ascii_space(lo_line(e)[0]),
        hi_line(e)[0] == 'P',
        sec_line(e)[0] == 'M',
        !is_ascii_space(lo_line(e).last()) && lo_line(e).last() != '\r',
        !is_ascii_space(hi_line(e).last()),
        !is_ascii_space(sec_line(e).last()),
        lo_line(e) != "=INTERVAL="@,
        hi_line(e) != "=INTERVAL="@,
        sec_line(e) != "=INTERVAL="@,
{
    reveal_strlit("=INTERVAL=");
    reveal_strlit("PWR_LO=");
    reveal_strlit("PWR_HI=");
    reveal_strlit("MESG_DURATION_SEC>=");
    reveal_strlit("?EXIT");
    lemma_dec_digits(e.start() / 100);
    lemma_dec_digits(e.end() / 100);
    lemma_dec_digits(e.duration() * 60 / 100);
    let d1 = dec_digits(e.start() / 100);
    let d2 = dec_digits(e.end() / 100);
    let d3 = dec_digits(e.duration() * 60 / 100);
    assert(lo_line(e).last() == d1.last());
    lemma_digit_char_plain(d1.last());
    assert(hi_line(e).last() == d2.last());
    lemma_digit_char_plain(d2.last());
    assert(sec_line(e).last() == 'T');
    assert forall|j: int| 0 <= j < lo_line(e).len() implies #[trigger] lo_line(e)[j] != '\n'
        && lo_line(e)[j] != '\r' by {
        if j >= 7 {
            assert(lo_line(e)[j] == d1[j - 7]);
            lemma_digit_char_plain(d1[j - 7]);
        }
    }
    assert forall|j: int| 0 <= j < hi_line(e).len() implies #[trigger] hi_line(e)[j] != '\n'
        && hi_line(e)[j] != '\r' by {
        if j >= 7 {
            assert(hi_line(e)[j] == d2[j - 7]);
            lemma_digit_char_plain(d2[j - 7]);
        }
    }
    assert forall|j: int| 0 <= j < sec_line(e).len() implies #[trigger] sec_line(e)[j] != '\n'
        && sec_line(e)[j] != '\r' by {
        if 19 <= j < 19 + d3.len() {
            assert(sec_line(e)[j] == ("MESG_DURATION_SEC>="@ + d3)[j]);
            assert(sec_line(e)[j] == d3[j - 19]);
            lemma_digit_char_plain(d3[j - 19]);
        } else if j >= 19 + d3.len() {
            assert(sec_line(e)[j] == "?EXIT"@[j - 19 - d3.len()]);
        }
    }
    assert(lo_line(e) != "=INTERVAL="@) by {
        if lo_line(e) == "=INTERVAL="@ {
            assert(lo_line(e)[0] == '=');
        }
    }
    assert(hi_line(e) != "=INTERVAL="@) by {
        if hi_line(e) == "=INTERVAL="@ {
            assert(hi_line(e)[0] == '=');
        }
    }
    assert(sec_line(e) != "=INTERVAL="@) by {
        if sec_line(e) == "=INTERVAL="@ {
            assert(sec_line(e)[0] == '=');
        }
    }
    assert forall|i: int| 0 <= i < plan_lines(e).len() implies (forall|j: int|
        0 <= j < (#[trigger] plan_lines(e)[i]).len() ==> #[trigger] plan_lines(e)[i][j]
            != '\n') && (forall|j: int|
        0 <= j < (#[trigger] plan_lines(e)[i]).len() ==> #[trigger] plan_lines(e)[i][j]
            != '\r') by {
        if i == 0 {
            assert(plan_lines(e)[i] == "=INTERVAL="@);
        }
    }
    assert forall|i: int| 0 <= i < plan_lines(e).len() implies ((#[trigger] plan_lines(e)[i]).len()
        == 0 || plan_lines(e)[i].last() != '\r') by {
        if i == 0 {
            assert(plan_lines(e)[i] == "=INTERVAL="@);
        }
    }
}

/// The stream lines of an effort list: four lines per interval.
pub open spec fn stream_lines(es: Seq<Effort>) -> Seq<Seq<char>>
    decreases es.len(),
{
    if es.len() == 0 {
        Seq::empty()
    } else {
        plan_lines(es[0]) + stream_lines(es.skip(1))
    }
}

/// Joining the stream lines gives exactly the interval text the encoder
/// emits.
pub proof fn lemma_plan_text_is_joined_lines(es: Seq<Effort>)
    requires
        es.len() >= 1,
    ensures
        efforts_plan_spec(es) == join_newlines(stream_lines(es)),
    decreases es.len(),
{
    lemma_plan_block_lines(es[0]);
    if es.len() == 1 {
        assert(stream_lines(es.skip(1)) =~= Seq::<Seq<char>>::empty());
        assert(stream_lines(es) =~= plan_lines(es[0]));
        assert(efforts_plan_spec(es) == effort_plan_spec(es[0]));
    } else {
        let rest = es.skip(1);
        lemma_plan_text_is_joined_lines(rest);
        lemma_join_concat(plan_lines(es[0]), stream_lines(rest));
        assert(stream_lines(es) == plan_lines(es[0]) + stream_lines(rest));
        assert(efforts_plan_spec(es) == effort_plan_spec(es[0]) + seq!['\n'] + efforts_plan_spec(
            rest,
        ));
    }
}

/// A stream holds four lines per interval.
pub proof fn lemma_stream_lines_len(es: Seq<Effort>)
    ensures
        stream_lines(es).len() == 4 * es.len(),
    decreases es.len(),
{
    if es.len() > 0 {
        lemma_stream_lines_len(es.skip(1));
    }
}

/// Each stream line is non-empty, clean of line breaks, and is the
/// interval marker exactly when its position is a multiple of four.
pub proof fn lemma_stream_lines_shape(es: Seq<Effort>, i: int)
    requires
        0 <= i < stream_lines(es).len(),
    ensures
        stream_lines(es).len() == 4 * es.len(),
        stream_lines(es)[i].len() > 0,
        forall|j: int|
            0 <= j < stream_lines(es)[i].len() ==> #[trigger] stream_lines(es)[i][j] != '\n'
                && stream_lines(es)[i][j] != '\r',
        stream_lines(es)[i] != "=STREAM="@,
        !is_ascii_space(stream_lines(es)[i][0]),
        !is_ascii_space(stream_lines(es)[i].last()),
    decreases es.len(),
{
    reveal_strlit("=INTERVAL=");
    reveal_strlit("=STREAM=");
    lemma_stream_lines_len(es);
    if es.len() > 0 {
        lemma_plan_lines_shape(es[0]);
        if i < 4 {
            assert(stream_lines(es)[i] == plan_lines(es[0])[i]);
            if i == 0 {
                assert(stream_lines(es)[i] == "=INTERVAL="@);
                assert("=INTERVAL="@.len() == 10);
                assert("=STREAM="@.len() == 8);
            } else {
                assert(stream_lines(es)[i][0] != '=') by {
                    if i == 1 {
                        assert(stream_lines(es)[i][0] == 'P');
                    } else if i == 2 {
                        assert(stream_lines(es)[i][0] == 'P');
                    } else {
                        assert(stream_lines(es)[i][0] == 'M');
                    }
                }
                if stream_lines(es)[i] == "=STREAM="@ {
                    assert(stream_lines(es)[i][0] == '=');
                }
            }
        } else {
            lemma_stream_lines_shape(es.skip(1), i - 4);
            assert(stream_lines(es)[i] == stream_lines(es.skip(1))[i - 4]);
        }
    }
}

/// The text of one interval block, as cut back out of the stream.
pub open spec fn block_text(e: Effort) -> Seq<char> {
    join_newlines(seq![lo_line(e), hi_line(e), sec_line(e)])
}

/// Splitting the stream lines at their interval markers yields one block
/// text per effort.
pub proof fn lemma_blocks_of_stream(es: Seq<Effort>)
    ensures
        blocks_spec(stream_lines(es)).len() == es.len(),
        forall|i: int|
            0 <= i < es.len() ==> #[trigger] blocks_spec(stream_lines(es))[i] == block_text(es[i]),
    decreases es.len(),
{
    reveal_strlit("=INTERVAL=");
    let sl = stream_lines(es);
    if es.len() == 0 {
        assert(sl =~= Seq::<Seq<char>>::empty());
        assert(crate::text::find_line(sl, "=INTERVAL="@) is None);
        assert(join_newlines(sl).len() == 0);
        assert(trim_spec(join_newlines(sl)) =~= Seq::<char>::empty());
        assert(blocks_spec(sl) =~= Seq::<Seq<char>>::empty());
    } else {
        let e0 = es[0];
        lemma_plan_lines_shape(e0);
        let rest = es.skip(1);
        lemma_blocks_of_stream(rest);
        assert(sl == plan_lines(e0) + stream_lines(rest));
        assert(sl[0] == "=INTERVAL="@);
        assert(crate::text::find_line(sl, "=INTERVAL="@) == Some(0int));
        assert(sl.take(0) =~= Seq::<Seq<char>>::empty());
        assert(join_newlines(sl.take(0)).len() == 0);
        assert(trim_spec(join_newlines(sl.take(0))) =~= Seq::<char>::empty());
        assert(maybe_block(sl.take(0)) =~= Seq::<Seq<char>>::empty());
        assert(blocks_spec(sl) =~= blocks_spec(sl.skip(1)));
        let content = seq![lo_line(e0), hi_line(e0), sec_line(e0)];
        let after = sl.skip(1);
        assert(after =~= content + stream_lines(rest));
        let bt = join_newlines(content);
        assert(bt[0] == lo_line(e0)[0]) by {
            assert(content.len() >= 2);
            assert(join_newlines(content) == content[0] + seq!['\n'] + join_newlines(
                content.skip(1),
            ));
        }
        assert(bt.last() == sec_line(e0).last()) by {
            lemma_plan_round_trip_join_last(content);
        }
        assert(bt.len() > 0);
        lemma_trim_identity(bt);
        if rest.len() == 0 {
            assert(after =~= content);
            crate::text::lemma_find_line_props(after, "=INTERVAL="@);
            if crate::text::find_line(after, "=INTERVAL="@) is Some {
                let k = crate::text::find_line(after, "=INTERVAL="@)->0;
                assert(after[k] == "=INTERVAL="@);
                assert(after[k][0] != '=') by {
                    if k == 0 {
                        assert(after[k][0] == 'P');
                    } else if k == 1 {
                        assert(after[k][0] == 'P');
                    } else {
                        assert(after[k][0] == 'M');
                    }
                }
                reveal_strlit("=INTERVAL=");
                assert("=INTERVAL="@[0] == '=');
                assert(false);
            }
            assert(blocks_spec(after) == maybe_block(after));
            assert(join_newlines(after) == bt);
            assert(maybe_block(after) =~= seq![bt]);
            assert(blocks_spec(sl) =~= seq![block_text(e0)]);
        } else {
            assert(stream_lines(rest)[0] == "=INTERVAL="@) by {
                lemma_plan_lines_shape(rest[0]);
                assert(stream_lines(rest) == plan_lines(rest[0]) + stream_lines(rest.skip(1)));
            }
            assert(after[3] == "=INTERVAL="@);
            assert forall|q: int| 0 <= q < 3 implies after[q] != "=INTERVAL="@ by {
                assert(after[q] == content[q]);
                assert(after[q][0] != '=') by {
                    if q == 0 {
                        assert(after[q][0] == 'P');
                    } else if q == 1 {
                        assert(after[q][0] == 'P');
                    } else {
                        assert(after[q][0] == 'M');
                    }
                }
                reveal_strlit("=INTERVAL=");
                assert("=INTERVAL="@[0] == '=');
            }
            lemma_find_line_at(after, "=INTERVAL="@, 3);
            assert(after.take(3) =~= content);
            assert(join_newlines(after.take(3)) == bt);
            assert(maybe_block(after.take(3)) =~= seq![bt]);
            assert(after.skip(4) =~= stream_lines(rest).skip(1));
            assert(blocks_spec(after) == maybe_block(after.take(3)) + blocks_spec(
                stream_lines(rest).skip(1),
            ));
            // The recursive stream's own leading marker contributes nothing.
            assert(crate::text::find_line(stream_lines(rest), "=INTERVAL="@) == Some(0int));
            assert(stream_lines(rest).take(0) =~= Seq::<Seq<char>>::empty());
            assert(join_newlines(stream_lines(rest).take(0)).len() == 0);
            assert(trim_spec(join_newlines(stream_lines(rest).take(0))) =~= Seq::<char>::empty());
            assert(maybe_block(stream_lines(rest).take(0)) =~= Seq::<Seq<char>>::empty());
            assert(blocks_spec(stream_lines(rest)) =~= blocks_spec(stream_lines(rest).skip(1)));
            assert(blocks_spec(sl).len() == 1 + blocks_spec(stream_lines(rest)).len());
            assert forall|i: int|
                0 <= i < es.len() implies #[trigger] blocks_spec(sl)[i] == block_text(es[i]) by {
                if i == 0 {
                    assert(blocks_spec(sl)[0] == bt);
                } else {
                    assert(blocks_spec(sl)[i] == blocks_spec(stream_lines(rest))[i - 1]);
                    assert(rest[i - 1] == es[i]);
                }
            }
        }
    }
}

/// One block of a constant effort in whole watts and whole seconds reads
/// back as exactly its duration and value.
pub proof fn lemma_plan_block_round_trip(e: Effort)
    requires
        e.start() == e.end(),
        e.start() % 100 == 0,
        e.duration() % 5 == 0,
        e.start() <= MAX_HUNDREDTHS,
        e.duration() <= MAX_HUNDREDTHS,
    ensures
        plan_effort_spec(block_text(e)) == Some((e.duration(), e.start())),
{
    reveal_strlit("PWR_LO=");
    reveal_strlit("PWR_HI=");
    reveal_strlit("MESG_DURATION_SEC>=");
    reveal_strlit("?EXIT");
    lemma_plan_lines_shape(e);
    lemma_dec_digits(e.start() / 100);
    lemma_dec_digits(e.end() / 100);
    lemma_dec_digits(e.duration() * 60 / 100);
    let d1 = dec_digits(e.start() / 100);
    let d2 = dec_digits(e.end() / 100);
    let d3 = dec_digits(e.duration() * 60 / 100);
    let content = seq![lo_line(e), hi_line(e), sec_line(e)];
    let bt = block_text(e);
    // The block's text splits back into its three content lines.
    assert(pieces_clean(content)) by {
        assert(forall|i: int| 0 <= i < content.len() ==> #[trigger] content[i] == plan_lines(e)[i
            + 1]);
    }
    assert(pieces_plain(content)) by {
        assert(content.last() == sec_line(e));
        assert(sec_line(e).last() == 'T');
        assert(forall|i: int| 0 <= i < content.len() ==> #[trigger] content[i] == plan_lines(e)[i
            + 1]);
    }
    lemma_lines_of_join(content);
    assert(lines_spec(bt) == content);
    // Each line is already trimmed.
    lemma_trim_identity(lo_line(e));
    lemma_trim_identity(hi_line(e));
    lemma_trim_identity(sec_line(e));
    // The three fixed leads strip away to the digit strings.
    assert(lo_line(e).take(7) =~= "PWR_LO="@);
    assert(lo_line(e).skip(7) =~= d1);
    assert(strip_fixed(trim_spec(lo_line(e)), "PWR_LO="@) == Some(d1));
    assert(hi_line(e).take(7) =~= "PWR_HI="@);
    assert(hi_line(e).skip(7) =~= d2);
    assert(strip_fixed(trim_spec(hi_line(e)), "PWR_HI="@) == Some(d2));
    assert(sec_line(e).take(19) =~= "MESG_DURATION_SEC>="@);
    let rest = sec_line(e).skip(19);
    assert(rest =~= d3 + "?EXIT"@);
    assert(strip_fixed(trim_spec(sec_line(e)), "MESG_DURATION_SEC>="@) == Some(rest));
    assert(rest.len() == d3.len() + 5);
    assert(rest.skip(rest.len() - 5) =~= "?EXIT"@);
    assert(rest.take(rest.len() - 5) =~= d3);
    assert(digits_of(d1) == Some(e.start() / 100));
    assert(digits_of(d2) == Some(e.end() / 100));
    assert(digits_of(d3) == Some(e.duration() * 60 / 100));
    assert(plan_block_fields(bt) == Some(
        (e.start() / 100, e.end() / 100, e.duration() * 60 / 100),
    ));
    // The average of the two equal powers is the value itself.
    let w = e.start() / 100;
    assert(e.start() == 100 * w + e.start() % 100) by {
        vstd::arithmetic::div_mod::lemma_fundamental_div_mod(e.start() as int, 100);
    }
    assert((w + w) * 50 == 100 * w) by (nonlinear_arith);
    // The seconds turn back into the duration exactly.
    let k = e.duration() / 5;
    assert(e.duration() == 5 * k + e.duration() % 5) by {
        vstd::arithmetic::div_mod::lemma_fundamental_div_mod(e.duration() as int, 5);
    }
    assert(e.duration() * 60 == 100 * (3 * k));
    assert(e.duration() * 60 / 100 == 3 * k) by {
        vstd::arithmetic::div_mod::lemma_div_multiples_vanish((3 * k) as int, 100);
    }
    let sec = e.duration() * 60 / 100;
    assert(sec * 5 == 3 * (5 * k)) by (nonlinear_arith)
        requires
            sec == 3 * k,
    ;
    assert(sec * 5 / 3 == 5 * k) by {
        vstd::arithmetic::div_mod::lemma_div_multiples_vanish((5 * k) as int, 3);
    }
    assert(sec * 5 % 3 == 0) by {
        vstd::arithmetic::div_mod::lemma_mod_multiples_basic((5 * k) as int, 3);
        assert(sec * 5 == (5 * k) * 3) by (nonlinear_arith)
            requires
                sec * 5 == 3 * (5 * k),
        ;
    }
    assert(crate::workout_data::effort::round_half_even((sec * 5) as nat, 3) == e.duration());
}

/// The document lines of the plan text of a workout.
pub open spec fn plan_doc_lines(name: Seq<char>, es: Seq<Effort>) -> Seq<Seq<char>> {
    seq!["=HEADER="@, "NAME="@ + name, "WORKOUT_TYPE=0"@, "=STREAM="@] + stream_lines(es)
}

/// A workout name plan text can carry back: no line breaks and no trailing
/// whitespace.
pub open spec fn name_plain(name: Seq<char>) -> bool {
    &&& forall|j: int| 0 <= j < name.len() ==> #[trigger] name[j] != '\n' && name[j] != '\r'
    &&& (name.len() == 0 || !is_ascii_space(name.last()))
}

/// The plan text of a workout with efforts splits into its document lines.
#[verifier::rlimit(100)]
pub proof fn lemma_plan_document_lines(name: Seq<char>, es: Seq<Effort>)
    requires
        name_plain(name),
        es.len() >= 1,
    ensures
        lines_spec(workout_plan_spec(name, es)) == plan_doc_lines(name, es),
{
    let nl = seq!['\n'];
    let l1 = "=HEADER="@;
    let l2 = "NAME="@ + name;
    let l3 = "WORKOUT_TYPE=0"@;
    let l4 = "=STREAM="@;
    reveal_strlit("=HEADER=");
    reveal_strlit("NAME=");
    reveal_strlit("=HEADER=\nNAME=");
    reveal_strlit("WORKOUT_TYPE=0");
    reveal_strlit("=STREAM=");
    reveal_strlit("\nWORKOUT_TYPE=0\n=STREAM=\n");
    reveal_strlit("\n");
    lemma_plan_text_is_joined_lines(es);
    lemma_stream_lines_len(es);
    let sl = stream_lines(es);
    let sj = join_newlines(sl);
    let full = workout_plan_spec(name, es);
    let r3 = l4 + nl + sj;
    let r2 = l3 + nl + r3;
    let r1 = l2 + nl + r2;
    assert(full =~= l1 + nl + r1);
    assert(forall|j: int| 0 <= j < l1.len() ==> #[trigger] l1[j] != '\n');
    assert(forall|j: int| 0 <= j < l3.len() ==> #[trigger] l3[j] != '\n');
    assert(forall|j: int| 0 <= j < l4.len() ==> #[trigger] l4[j] != '\n');
    assert(forall|j: int| 0 <= j < l2.len() ==> #[trigger] l2[j] != '\n');
    lemma_split_prepend_line_local(l1, r1);
    lemma_split_prepend_line_local(l2, r2);
    lemma_split_prepend_line_local(l3, r3);
    lemma_split_prepend_line_local(l4, sj);
    assert(pieces_clean(sl)) by {
        assert forall|i: int| 0 <= i < sl.len() implies (forall|j: int|
            0 <= j < (#[trigger] sl[i]).len() ==> #[trigger] sl[i][j] != '\n') by {
            lemma_stream_lines_shape(es, i);
        }
    }
    crate::text::lemma_split_join(sl);
    assert(crate::text::split_newlines(full) =~= seq![l1, l2, l3, l4] + sl);
    let ps = crate::text::split_newlines(full);
    lemma_stream_lines_shape(es, sl.len() - 1);
    assert(ps.last() == sl.last());
    assert(ps.last().len() > 0);
    assert(full.len() > 0);
    assert(lines_spec(full) == ps.map_values(|l: Seq<char>| crate::text::strip_cr(l)));
    assert forall|i: int| 0 <= i < ps.len() implies ps.map_values(
        |l: Seq<char>| crate::text::strip_cr(l),
    )[i] == ps[i] by {
        if i >= 4 {
            lemma_stream_lines_shape(es, i - 4);
            assert(ps[i] == sl[i - 4]);
        } else if i == 1 {
            assert(ps[i] == l2);
            assert(l2.last() != '\r') by {
                if name.len() > 0 {
                    assert(l2.last() == name.last());
                } else {
                    assert(l2.last() == '=');
                }
            }
        }
        assert(crate::text::strip_cr(ps[i]) == ps[i]);
    }
    assert(lines_spec(full) =~= plan_doc_lines(name, es));
}

/// Splitting text that begins with a clean line and a newline yields that
/// line and then the split of the rest.
proof fn lemma_split_prepend_line_local(l: Seq<char>, rest: Seq<char>)
    requires
        forall|j: int| 0 <= j < l.len() ==> #[trigger] l[j] != '\n',
    ensures
        crate::text::split_newlines(l + seq!['\n'] + rest) == seq![l]
            + crate::text::split_newlines(rest),
{
    crate::workout_data::round_trip::lemma_split_prepend_line(l, rest);
}

/// Law: a workout whose efforts are constant, in whole watts and whole
/// seconds, decodes from its own plan text with its name and every
/// duration and value intact.
#[verifier::rlimit(100)]
pub proof fn lemma_plan_round_trip(name: Seq<char>, es: Seq<Effort>)
    requires
        name_plain(name),
        forall|i: int|
            0 <= i < es.len() ==> {
                &&& (#[trigger] es[i]).start() == es[i].end()
                &&& es[i].start() % 100 == 0
                &&& es[i].duration() % 5 == 0
                &&& es[i].start() <= MAX_HUNDREDTHS
                &&& es[i].duration() <= MAX_HUNDREDTHS
            },
    ensures
        split_plan_spec(workout_plan_spec(name, es)) matches Some(parts) && parts.0 == name && (
        collect_blocks(blocks_spec(lines_spec(parts.1))) matches Some(vals) && vals.len()
            == es.len() && (forall|i: int|
            0 <= i < es.len() ==> #[trigger] vals[i] == ((es[i].duration(), es[i].start())))),
{
    let nl = seq!['\n'];
    let l1 = "=HEADER="@;
    let l2 = "NAME="@ + name;
    let l3 = "WORKOUT_TYPE=0"@;
    let l4 = "=STREAM="@;
    reveal_strlit("=HEADER=");
    reveal_strlit("NAME=");
    reveal_strlit("=HEADER=\nNAME=");
    reveal_strlit("WORKOUT_TYPE=0");
    reveal_strlit("=STREAM=");
    reveal_strlit("\nWORKOUT_TYPE=0\n=STREAM=\n");
    reveal_strlit("\n");
    let full = workout_plan_spec(name, es);
    let ls: Seq<Seq<char>>;
    if es.len() == 0 {
        assert(es =~= Seq::<Effort>::empty());
        assert(stream_lines(es) =~= Seq::<Seq<char>>::empty());
        assert(efforts_plan_spec(es).len() == 0);
        let r2 = l3 + nl + (l4 + nl + Seq::<char>::empty());
        let r1 = l2 + nl + r2;
        assert(full =~= l1 + nl + r1);
        assert(forall|j: int| 0 <= j < l1.len() ==> #[trigger] l1[j] != '\n');
        assert(forall|j: int| 0 <= j < l3.len() ==> #[trigger] l3[j] != '\n');
        assert(forall|j: int| 0 <= j < l4.len() ==> #[trigger] l4[j] != '\n');
        assert(forall|j: int| 0 <= j < l2.len() ==> #[trigger] l2[j] != '\n');
        lemma_split_prepend_line_local(l1, r1);
        lemma_split_prepend_line_local(l2, r2);
        lemma_split_prepend_line_local(l3, l4 + nl + Seq::<char>::empty());
        lemma_split_prepend_line_local(l4, Seq::<char>::empty());
        lemma_find_char_props(Seq::<char>::empty(), '\n');
        assert(crate::text::split_newlines(Seq::<char>::empty()) == seq![Seq::<char>::empty()]);
        assert(crate::text::split_newlines(full) =~= seq![l1, l2, l3, l4, Seq::<char>::empty()]);
        let ps = crate::text::split_newlines(full);
        assert(ps.last().len() == 0);
        assert(full.len() > 0);
        assert(lines_spec(full) == ps.drop_last().map_values(
            |l: Seq<char>| crate::text::strip_cr(l),
        ));
        assert forall|i: int| 0 <= i < ps.drop_last().len() implies ps.drop_last().map_values(
            |l: Seq<char>| crate::text::strip_cr(l),
        )[i] == ps.drop_last()[i] by {
            if i == 1 {
                assert(ps.drop_last()[i] == l2);
                assert(l2.last() != '\r') by {
                    if name.len() > 0 {
                        assert(l2.last() == name.last());
                    } else {
                        assert(l2.last() == '=');
                    }
                }
            }
            assert(crate::text::strip_cr(ps.drop_last()[i]) == ps.drop_last()[i]);
        }
        assert(lines_spec(full) =~= seq![l1, l2, l3, l4]);
        ls = lines_spec(full);
    } else {
        lemma_plan_document_lines(name, es);
        ls = plan_doc_lines(name, es);
        assert(lines_spec(full) == ls);
    }
    // The stream marker stands alone at line three.
    assert(ls[3] == l4);
    assert(ls[0] != l4) by {
        assert(ls[0][1] == 'H');
        assert(l4[1] == 'S');
        if ls[0] == l4 {
            assert(ls[0][1] == l4[1]);
        }
    }
    assert(ls[1] != l4) by {
        assert(ls[1][0] == 'N');
        assert(l4[0] == '=');
        if ls[1] == l4 {
            assert(ls[1][0] == l4[0]);
        }
    }
    assert(ls[2] != l4) by {
        assert(ls[2].len() == 14);
        assert(l4.len() == 8);
    }
    crate::text::lemma_find_line_at(ls, l4, 3);
    // The name line is the first name line of the header.
    let header = ls.take(3);
    assert(header[1] == l2);
    if name.len() > 0 {
        assert(l2.last() == name.last());
    } else {
        assert(l2.last() == '=');
    }
    assert(l2[0] == 'N');
    lemma_trim_identity(l2);
    assert(is_name_line(l2)) by {
        assert(trim_spec(l2).take(5) =~= "NAME="@);
    }
    assert(!is_name_line(header[0])) by {
        assert(header[0] == l1);
        lemma_trim_identity(l1);
        if trim_spec(l1).len() >= 5 && trim_spec(l1).take(5) == "NAME="@ {
            assert(trim_spec(l1).take(5)[0] == 'N');
            assert(l1[0] == '=');
        }
    }
    lemma_find_name_line_at(header, 1);
    assert(trim_spec(header[1]).skip(5) =~= name);
    // The interval text is the joined stream lines, already trimmed.
    let tail = ls.skip(4);
    if es.len() == 0 {
        assert(tail =~= Seq::<Seq<char>>::empty());
        assert(join_newlines(tail).len() == 0);
        assert(trim_spec(join_newlines(tail)) =~= Seq::<char>::empty());
        let parts = split_plan_spec(full)->0;
        assert(parts.0 == name);
        assert(lines_spec(parts.1).len() == 0);
        assert(crate::text::find_line(lines_spec(parts.1), "=INTERVAL="@) is None);
        assert(join_newlines(lines_spec(parts.1)).len() == 0);
        assert(trim_spec(join_newlines(lines_spec(parts.1))) =~= Seq::<char>::empty());
        assert(blocks_spec(lines_spec(parts.1)) =~= Seq::<Seq<char>>::empty());
        assert(collect_blocks(blocks_spec(lines_spec(parts.1))) == Some(
            Seq::<(nat, nat)>::empty(),
        ));
    } else {
        assert(tail =~= stream_lines(es));
        let sj = join_newlines(stream_lines(es));
        lemma_stream_lines_shape(es, 0);
        lemma_stream_lines_shape(es, stream_lines(es).len() - 1);
        assert(sj[0] == stream_lines(es)[0][0]) by {
            if stream_lines(es).len() > 1 {
                assert(sj == stream_lines(es)[0] + nl + join_newlines(stream_lines(es).skip(1)));
            }
        }
        lemma_plan_round_trip_join_last(stream_lines(es));
        assert(sj.last() == stream_lines(es).last().last());
        lemma_trim_identity(sj);
        let parts = split_plan_spec(full)->0;
        assert(parts.0 == name);
        assert(parts.1 == sj);
        // The joined stream splits back into the stream lines.
        assert(pieces_clean(stream_lines(es))) by {
            assert forall|i: int| 0 <= i < stream_lines(es).len() implies (forall|j: int|
                0 <= j < (#[trigger] stream_lines(es)[i]).len() ==> #[trigger] stream_lines(
                    es,
                )[i][j] != '\n') by {
                lemma_stream_lines_shape(es, i);
            }
        }
        assert(pieces_plain(stream_lines(es))) by {
            assert forall|i: int| 0 <= i < stream_lines(es).len() implies ((
            #[trigger] stream_lines(es)[i]).len() == 0 || stream_lines(es)[i].last() != '\r') by {
                lemma_stream_lines_shape(es, i);
            }
        }
        lemma_lines_of_join(stream_lines(es));
        assert(lines_spec(sj) == stream_lines(es));
        lemma_blocks_of_stream(es);
        assert forall|i: int|
            0 <= i < es.len() implies plan_effort_spec(
            #[trigger] blocks_spec(stream_lines(es))[i]) == Some(
            (es[i].duration(), es[i].start()),
        ) by {
            lemma_plan_block_round_trip(es[i]);
        }
        assert(forall|j: int|
            0 <= j < blocks_spec(stream_lines(es)).len() ==> plan_effort_spec(
                #[trigger] blocks_spec(stream_lines(es))[j],
            ) is Some);
        lemma_collect_blocks_some(blocks_spec(stream_lines(es)));
    }
}

/// The last character of a join of non-empty pieces is its last piece's
/// last character.
proof fn lemma_plan_round_trip_join_last(ls: Seq<Seq<char>>)
    requires
        ls.len() >= 1,
        ls.last().len() > 0,
    ensures
        join_newlines(ls).len() > 0,
        join_newlines(ls).last() == ls.last().last(),
    decreases ls.len(),
{
    if ls.len() > 1 {
        lemma_plan_round_trip_join_last(ls.skip(1));
        assert(ls.skip(1).last() == ls.last());
        assert(join_newlines(ls) == ls[0] + seq!['\n'] + join_newlines(ls.skip(1)));
    }
}

} // verus!
