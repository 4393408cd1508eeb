//! The geometric layout of a workout profile: one box per effort, sized in
//! proportion to its duration and value, with a triangle filling the wedge
//! of a ramp.
//!
//! All coordinates count hundredths of a pixel, so the fixed one-unit gap
//! between boxes is the constant `100`.
use crate::workout_data::effort::Effort;
use crate::workout_data::workout::MAX_EFFORTS;
use crate::MAX_HUNDREDTHS;
use vstd::prelude::*;

verus! {

/// Largest frame dimension the layout accepts, in hundredths of a pixel.
pub const MAX_FRAME: u64 = 10_000_000;

/// The fixed gap between neighbouring boxes: one pixel, in hundredths.
pub const OFFSET_BETWEEN_DURATIONS: u64 = 100;

/// Horizontal placement of one box: where it starts and how wide it is.
#[derive(Debug, Clone, Copy, PartialEq, Eq, Structural)]
pub struct RectangleXDimensions {
    pub starting_point: u64,
    pub width: u64,
}

impl RectangleXDimensions {
    pub fn new(starting_point: u64, width: u64) -> (r: Self)
        ensures
            r == (RectangleXDimensions { starting_point, width }),
    {
        Self { starting_point, width }
    }
}

/// Vertical placement of one box: its offset from the bottom and height.
#[derive(Debug, Clone, Copy, PartialEq, Eq, Structural)]
pub struct RectangleYDimensions {
    pub starting_point: u64,
    pub height: u64,
}

impl RectangleYDimensions {
    pub fn new(starting_point: u64, height: u64) -> (r: Self)
        ensures
            r == (RectangleYDimensions { starting_point, height }),
    {
        Self { starting_point, height }
    }
}

/// A drawing surface, in hundredths of a pixel.
#[derive(Debug, Clone, Copy, PartialEq, Eq, Structural)]
pub struct FrameSize {
    pub width: u64,
    pub height: u64,
}

/// A point in frame coordinates, with the origin at the top left.
#[derive(Debug, Clone, Copy, PartialEq, Eq, Structural)]
pub struct DrawPoint {
    pub x: u64,
    pub y: u64,
}

/// A box to fill, given by its top-left corner and size.
#[derive(Debug, Clone, Copy, PartialEq, Eq, Structural)]
pub struct RectangleToDraw {
    pub top_left: DrawPoint,
    pub size: FrameSize,
}

/// A triangle to fill, given by its three corners.
#[derive(Debug, Clone, Copy, PartialEq, Eq, Structural)]
pub struct TriangleToDraw {
    pub point_1: DrawPoint,
    pub point_2: DrawPoint,
    pub point_3: DrawPoint,
}

/// One drawing instruction: the closed set of shapes the profile uses.
#[derive(Debug, Clone, Copy, PartialEq, Eq, Structural)]
pub enum Shape {
    Rectangle(RectangleToDraw),
    Triangle(TriangleToDraw),
}

/// Sum of a list of counts.
pub open spec fn sum_hundredths(s: Seq<u64>) -> nat
    decreases s.len(),
{
    if s.len() == 0 {
        0
    } else {
        s[0] as nat + sum_hundredths(s.skip(1))
    }
}

/// Splitting off one element moves the sum of a prefix one step.
pub proof fn lemma_sum_take_step(s: Seq<u64>, i: int)
    requires
        0 <= i < s.len(),
    ensures
        sum_hundredths(s.take(i + 1)) == sum_hundredths(s.take(i)) + s[i],
    decreases i,
{
    if i == 0 {
        assert(s.take(0) =~= Seq::<u64>::empty());
        assert(s.take(1) =~= seq![s[0]]);
        assert(s.take(1).skip(1) =~= Seq::<u64>::empty());
    } else {
        lemma_sum_take_step(s.skip(1), i - 1);
        assert(s.take(i + 1).skip(1) =~= s.skip(1).take(i));
        assert(s.take(i).skip(1) =~= s.skip(1).take(i - 1));
        assert(s.take(i + 1)[0] == s[0]);
        assert(s.take(i)[0] == s[0]);
        assert(s.skip(1)[i - 1] == s[i]);
    }
}

/// A bounded list's sum is at most one bound per element.
pub proof fn lemma_sum_bound(s: Seq<u64>)
    requires
        forall|i: int| 0 <= i < s.len() ==> #[trigger] s[i] <= MAX_HUNDREDTHS,
    ensures
        sum_hundredths(s) <= s.len() * (MAX_HUNDREDTHS as int),
    decreases s.len(),
{
    if s.len() > 0 {
        lemma_sum_bound(s.skip(1));
        assert(s.len() * (MAX_HUNDREDTHS as int) == MAX_HUNDREDTHS + (s.len() - 1) * (
        MAX_HUNDREDTHS as int)) by (nonlinear_arith);
    }
}

/// The scaled running width before element `i`: the prefix of the durations
/// over the total, applied to the available width.
pub open spec fn scaled_prefix(durations: Seq<u64>, avail: nat, total: nat, i: int) -> nat {
    sum_hundredths(durations.take(i)) * avail / total
}

/// The width of box `i`: the difference of neighbouring scaled prefixes, so
/// that the widths add up to the available width exactly.
pub open spec fn width_spec(durations: Seq<u64>, avail: nat, total: nat, i: int) -> int {
    scaled_prefix(durations, avail, total, i + 1) - scaled_prefix(durations, avail, total, i)
}

/// Where box `i` starts: one gap per box so far, plus the scaled prefix.
pub open spec fn x_start_spec(durations: Seq<u64>, gap: nat, avail: nat, total: nat, i: int) -> int {
    gap * (i + 1) + scaled_prefix(durations, avail, total, i)
}

/// The sum of the first `i` box widths.
pub open spec fn widths_sum(durations: Seq<u64>, avail: nat, total: nat, i: int) -> int
    decreases i,
{
    if i <= 0 {
        0
    } else {
        widths_sum(durations, avail, total, i - 1) + width_spec(durations, avail, total, i - 1)
    }
}

/// Zero divided by anything positive is zero.
proof fn proof_div_zero(total: nat)
    requires
        total > 0,
    ensures
        0 as int / (total as int) == 0,
{
    vstd::arithmetic::div_mod::lemma_div_of0(total as int);
}

/// The first `i` box widths add up to the scaled prefix at `i`.
pub proof fn lemma_widths_telescope(durations: Seq<u64>, avail: nat, total: nat, i: int)
    requires
        0 <= i,
        total > 0,
    ensures
        widths_sum(durations, avail, total, i) == scaled_prefix(durations, avail, total, i),
    decreases i,
{
    if i == 0 {
        assert(durations.take(0) =~= Seq::<u64>::empty());
        assert(sum_hundredths(durations.take(0)) == 0);
        assert(scaled_prefix(durations, avail, total, 0) == 0 * avail / total);
        assert(0 * avail == 0) by (nonlinear_arith);
        proof_div_zero(total);
    } else {
        lemma_widths_telescope(durations, avail, total, i - 1);
        assert(widths_sum(durations, avail, total, i) == widths_sum(durations, avail, total, i - 1)
            + width_spec(durations, avail, total, i - 1));
    }
}

/// Law: the box widths and the gaps fill the frame width exactly: the sum
/// of all widths plus one gap per box equals the whole frame width.
pub proof fn lemma_layout_width_conservation(durations: Seq<u64>, frame_width: nat, gap: nat)
    requires
        sum_hundredths(durations) > 0,
        gap * durations.len() <= frame_width,
    ensures
        widths_sum(
            durations,
            (frame_width - gap * durations.len()) as nat,
            sum_hundredths(durations),
            durations.len() as int,
        ) + gap * durations.len() == frame_width,
{
    let avail = (frame_width - gap * durations.len()) as nat;
    let total = sum_hundredths(durations);
    lemma_widths_telescope(durations, avail, total, durations.len() as int);
    assert(durations.take(durations.len() as int) =~= durations);
    assert(total * avail / total == avail) by {
        vstd::arithmetic::div_mod::lemma_div_multiples_vanish(avail as int, total as int);
    }
}

/// The starting x coordinate of every box (and of the point one past the
/// last), given the frame width and the gap.
pub fn compute_starting_points_of_efforts(
    durations: &Vec<u64>,
    offset_between_durations: u64,
    length_of_frame: u64,
) -> (r: Vec<u64>)
    requires
        durations@.len() <= MAX_EFFORTS,
        forall|i: int| 0 <= i < durations@.len() ==> #[trigger] durations@[i] <= MAX_HUNDREDTHS,
        sum_hundredths(durations@) > 0,
        length_of_frame <= MAX_FRAME,
        offset_between_durations <= MAX_FRAME,
        offset_between_durations * durations@.len() <= length_of_frame,
    ensures
        r@.len() == durations@.len() + 1,
        forall|i: int|
            0 <= i < r@.len() ==> #[trigger] r@[i] == x_start_spec(
                durations@,
                offset_between_durations as nat,
                (length_of_frame - offset_between_durations * durations@.len()) as nat,
                sum_hundredths(durations@),
                i,
            ),
{
    let n = durations.len();
    let gap = offset_between_durations;
    let total = compute_total(durations);
    let avail = length_of_frame - gap * n as u64;
    let mut points: Vec<u64> = Vec::new();
    let mut prefix: u64 = 0;
    let mut i: usize = 0;
    proof {
        assert(durations@.take(0) =~= Seq::<u64>::empty());
    }
    while i <= n
        invariant
            n == durations@.len(),
            n <= MAX_EFFORTS,
            forall|k: int| 0 <= k < n ==> #[trigger] durations@[k] <= MAX_HUNDREDTHS,
            total == sum_hundredths(durations@),
            total > 0,
            gap <= MAX_FRAME,
            avail <= MAX_FRAME,
            gap * n <= gap * n + avail <= MAX_FRAME,
            i <= n + 1,
            prefix == sum_hundredths(durations@.take(if i <= n {
                i as int
            } else {
                n as int
            })),
            prefix <= n * (MAX_HUNDREDTHS as int),
            points@.len() == i,
            forall|k: int|
                0 <= k < i ==> #[trigger] points@[k] == x_start_spec(
                    durations@,
                    gap as nat,
                    avail as nat,
                    total as nat,
                    k,
                ),
        decreases n - i + 1,
    {
        proof {
            assert(prefix * avail <= (MAX_EFFORTS * (MAX_HUNDREDTHS as int)) * MAX_FRAME)
                by (nonlinear_arith)
                requires
                    prefix <= n * (MAX_HUNDREDTHS as int),
                    n <= MAX_EFFORTS,
                    avail <= MAX_FRAME,
                    MAX_EFFORTS == 10_000,
                    MAX_HUNDREDTHS == 10_000_000,
                    MAX_FRAME == 10_000_000,
                    prefix >= 0,
            ;
            assert(gap * (i + 1) <= MAX_FRAME * (MAX_EFFORTS + 1)) by (nonlinear_arith)
                requires
                    gap <= MAX_FRAME,
                    i <= n,
                    n <= MAX_EFFORTS,
                    MAX_EFFORTS == 10_000,
                    MAX_FRAME == 10_000_000,
            ;
        }
        let point = gap * (i as u64 + 1) + prefix * avail / total;
        points.push(point);
        if i < n {
            proof {
                lemma_sum_take_step(durations@, i as int);
                lemma_sum_bound(durations@.take(i + 1));
                assert(forall|k: int|
                    0 <= k < durations@.take(i + 1).len() ==> #[trigger] durations@.take(i + 1)[k]
                        <= MAX_HUNDREDTHS);
                assert((i + 1) * (MAX_HUNDREDTHS as int) <= n * (MAX_HUNDREDTHS as int))
                    by (nonlinear_arith)
                    requires
                        i + 1 <= n,
                        MAX_HUNDREDTHS == 10_000_000,
                ;
            }
            prefix = prefix + durations[i];
        }
        i = i + 1;
    }
    points
}

/// The sum of a list of durations.
pub fn compute_total(durations: &Vec<u64>) -> (r: u64)
    requires
        durations@.len() <= MAX_EFFORTS,
        forall|i: int| 0 <= i < durations@.len() ==> #[trigger] durations@[i] <= MAX_HUNDREDTHS,
    ensures
        r == sum_hundredths(durations@),
        r <= durations@.len() * (MAX_HUNDREDTHS as int),
{
    let n = durations.len();
    let mut total: u64 = 0;
    let mut i: usize = 0;
    proof {
        assert(durations@.take(0) =~= Seq::<u64>::empty());
    }
    while i < n
        invariant
            n == durations@.len(),
            n <= MAX_EFFORTS,
            forall|k: int| 0 <= k < n ==> #[trigger] durations@[k] <= MAX_HUNDREDTHS,
            i <= n,
            total == sum_hundredths(durations@.take(i as int)),
            total <= i * (MAX_HUNDREDTHS as int),
        decreases n - i,
    {
        proof {
            lemma_sum_take_step(durations@, i as int);
        }
        total = total + durations[i];
        i = i + 1;
    }
    proof {
        assert(durations@.take(n as int) =~= durations@);
    }
    total
}

/// Horizontal placement of every box: starts and widths scaled so the boxes
/// and gaps fill the frame exactly.
pub fn compute_starting_dimensions_x(
    length_of_frame: u64,
    durations: Vec<u64>,
    offset_between_durations: u64,
) -> (r: Vec<RectangleXDimensions>)
    requires
        durations@.len() <= MAX_EFFORTS,
        forall|i: int| 0 <= i < durations@.len() ==> #[trigger] durations@[i] <= MAX_HUNDREDTHS,
        sum_hundredths(durations@) > 0,
        length_of_frame <= MAX_FRAME,
        offset_between_durations <= MAX_FRAME,
        offset_between_durations * durations@.len() <= length_of_frame,
    ensures
        r@.len() == durations@.len(),
        forall|i: int|
            0 <= i < r@.len() ==> {
                &&& (#[trigger] r@[i]).starting_point == x_start_spec(
                    durations@,
                    offset_between_durations as nat,
                    (length_of_frame - offset_between_durations * durations@.len()) as nat,
                    sum_hundredths(durations@),
                    i,
                )
                &&& r@[i].width == width_spec(
                    durations@,
                    (length_of_frame - offset_between_durations * durations@.len()) as nat,
                    sum_hundredths(durations@),
                    i,
                )
            },
{
    let points = compute_starting_points_of_efforts(
        &durations,
        offset_between_durations,
        length_of_frame,
    );
    let ghost gap = offset_between_durations as nat;
    let ghost avail = (length_of_frame - offset_between_durations * durations@.len()) as nat;
    let ghost total = sum_hundredths(durations@);
    let n = durations.len();
    let mut r: Vec<RectangleXDimensions> = Vec::new();
    let mut i: usize = 0;
    while i < n
        invariant
            n == durations@.len(),
            gap == offset_between_durations as nat,
            avail == (length_of_frame - offset_between_durations * durations@.len()) as nat,
            total == sum_hundredths(durations@),
            total > 0,
            points@.len() == n + 1,
            forall|k: int|
                0 <= k < points@.len() ==> #[trigger] points@[k] == x_start_spec(
                    durations@,
                    gap,
                    avail,
                    total,
                    k,
                ),
            i <= n,
            r@.len() == i,
            forall|k: int|
                0 <= k < i ==> {
                    &&& (#[trigger] r@[k]).starting_point == x_start_spec(
                        durations@,
                        gap,
                        avail,
                        total,
                        k,
                    )
                    &&& r@[k].width == width_spec(durations@, avail, total, k)
                },
        decreases n - i,
    {
        let start = points[i];
        let next = points[i + 1];
        proof {
            lemma_sum_take_step(durations@, i as int);
            assert(sum_hundredths(durations@.take(i as int)) <= sum_hundredths(
                durations@.take(i + 1),
            ));
            assert(sum_hundredths(durations@.take(i as int)) * avail <= sum_hundredths(
                durations@.take(i + 1),
            ) * avail) by (nonlinear_arith)
                requires
                    sum_hundredths(durations@.take(i as int)) <= sum_hundredths(
                        durations@.take(i + 1),
                    ),
                    avail >= 0,
            ;
            vstd::arithmetic::div_mod::lemma_div_is_ordered(
                (sum_hundredths(durations@.take(i as int)) * avail) as int,
                (sum_hundredths(durations@.take(i + 1)) * avail) as int,
                total as int,
            );
            assert(scaled_prefix(durations@, avail, total, i as int) <= scaled_prefix(
                durations@,
                avail,
                total,
                i + 1,
            ));
            assert(gap * (i + 2) == gap * (i + 1) + gap) by (nonlinear_arith);
            assert(next >= start + offset_between_durations);
        }
        let width = next - start - offset_between_durations;
        r.push(RectangleXDimensions { starting_point: start, width });
        i = i + 1;
    }
    r
}

/// Vertical placement of every value: a fixed offset from the bottom and a
/// height proportional to the value against the global maximum, scaled so
/// the maximum reaches the top margin.
pub fn compute_starting_dimensions_y(
    length_of_frame: u64,
    efforts: Vec<u64>,
    offset_between_efforts: u64,
    max: u64,
) -> (r: Vec<RectangleYDimensions>)
    requires
        max > 0,
        length_of_frame <= MAX_FRAME,
        forall|i: int| 0 <= i < efforts@.len() ==> #[trigger] efforts@[i] <= MAX_HUNDREDTHS,
        offset_between_efforts <= length_of_frame * 9 / 10,
    ensures
        r@.len() == efforts@.len(),
        forall|i: int|
            0 <= i < r@.len() ==> #[trigger] r@[i] == (RectangleYDimensions {
                starting_point: offset_between_efforts,
                height: ((efforts@[i] as nat) * ((length_of_frame * 9 / 10 - offset_between_efforts) as nat)
                    / (max as nat)) as u64,
            }),
{
    let avail = length_of_frame * 9 / 10 - offset_between_efforts;
    let n = efforts.len();
    let mut r: Vec<RectangleYDimensions> = Vec::new();
    let mut i: usize = 0;
    while i < n
        invariant
            n == efforts@.len(),
            forall|k: int| 0 <= k < n ==> #[trigger] efforts@[k] <= MAX_HUNDREDTHS,
            avail == length_of_frame * 9 / 10 - offset_between_efforts,
            avail <= MAX_FRAME,
            max > 0,
            i <= n,
            r@.len() == i,
            forall|k: int|
                0 <= k < i ==> #[trigger] r@[k] == (RectangleYDimensions {
                    starting_point: offset_between_efforts,
                    height: ((efforts@[k] as nat) * (avail as nat) / (max as nat)) as u64,
                }),
        decreases n - i,
    {
        proof {
            assert(efforts@[i as int] * avail <= (MAX_HUNDREDTHS as int) * MAX_FRAME)
                by (nonlinear_arith)
                requires
                    efforts@[i as int] <= MAX_HUNDREDTHS,
                    avail <= MAX_FRAME,
                    MAX_HUNDREDTHS == 10_000_000,
                    MAX_FRAME == 10_000_000,
            ;
        }
        let height = efforts[i] * avail / max;
        r.push(RectangleYDimensions { starting_point: offset_between_efforts, height });
        i = i + 1;
    }
    r
}

/// Mirror a distance from the bottom into frame coordinates.
pub fn mirror_y(point: u64, frame: FrameSize) -> (r: u64)
    requires
        point <= frame.height,
    ensures
        r == frame.height - point,
{
    frame.height - point
}

impl RectangleToDraw {
    /// The box of one effort: placed at its x dimensions, standing on the
    /// bottom offset, in top-left frame coordinates.
    pub fn new(
        dimensions_x: RectangleXDimensions,
        dimensions_y: RectangleYDimensions,
        size_of_frame: FrameSize,
    ) -> (r: Self)
        requires
            dimensions_y.height + dimensions_y.starting_point <= size_of_frame.height,
        ensures
            r == (RectangleToDraw {
                top_left: DrawPoint {
                    x: dimensions_x.starting_point,
                    y: (size_of_frame.height - dimensions_y.height
                        - dimensions_y.starting_point) as u64,
                },
                size: FrameSize { width: dimensions_x.width, height: dimensions_y.height },
            }),
    {
        Self {
            top_left: DrawPoint {
                x: dimensions_x.starting_point,
                y: size_of_frame.height - dimensions_y.height - dimensions_y.starting_point,
            },
            size: FrameSize { width: dimensions_x.width, height: dimensions_y.height },
        }
    }
}

/// The three corners of the wedge between the starting and ending heights
/// of one effort.
pub open spec fn triangle_spec(
    x_dimensions: RectangleXDimensions,
    y_dimensions_starting: RectangleYDimensions,
    y_dimensions_ending: RectangleYDimensions,
    frame: FrameSize,
) -> TriangleToDraw {
    let top_start = (frame.height - y_dimensions_starting.starting_point
        - y_dimensions_starting.height) as u64;
    let top_end = (frame.height - y_dimensions_ending.starting_point
        - y_dimensions_ending.height) as u64;
    let right = (x_dimensions.starting_point + x_dimensions.width) as u64;
    if y_dimensions_starting.height > y_dimensions_ending.height {
        TriangleToDraw {
            point_1: DrawPoint { x: x_dimensions.starting_point, y: top_end },
            point_2: DrawPoint { x: x_dimensions.starting_point, y: top_start },
            point_3: DrawPoint { x: right, y: top_end },
        }
    } else {
        TriangleToDraw {
            point_1: DrawPoint { x: x_dimensions.starting_point, y: top_start },
            point_2: DrawPoint { x: right, y: top_start },
            point_3: DrawPoint { x: right, y: top_end },
        }
    }
}

impl TriangleToDraw {
    /// The wedge of one effort, oriented by whether the ramp rises or
    /// falls.
    pub fn new(
        x_dimensions: RectangleXDimensions,
        y_dimensions_starting: RectangleYDimensions,
        y_dimensions_ending: RectangleYDimensions,
        frame: FrameSize,
    ) -> (r: Self)
        requires
            y_dimensions_starting.starting_point + y_dimensions_starting.height <= frame.height,
            y_dimensions_ending.starting_point + y_dimensions_ending.height <= frame.height,
            x_dimensions.starting_point + x_dimensions.width <= 0xFFFF_FFFF_FFFF_FFFF,
        ensures
            r == triangle_spec(x_dimensions, y_dimensions_starting, y_dimensions_ending, frame),
    {
        let top_start = mirror_y(
            y_dimensions_starting.starting_point + y_dimensions_starting.height,
            frame,
        );
        let top_end = mirror_y(
            y_dimensions_ending.starting_point + y_dimensions_ending.height,
            frame,
        );
        let right = x_dimensions.starting_point + x_dimensions.width;
        if y_dimensions_starting.height > y_dimensions_ending.height {
            Self {
                point_1: DrawPoint { x: x_dimensions.starting_point, y: top_end },
                point_2: DrawPoint { x: x_dimensions.starting_point, y: top_start },
                point_3: DrawPoint { x: right, y: top_end },
            }
        } else {
            Self {
                point_1: DrawPoint { x: x_dimensions.starting_point, y: top_start },
                point_2: DrawPoint { x: right, y: top_start },
                point_3: DrawPoint { x: right, y: top_end },
            }
        }
    }
}

/// A prefix sums to no more than the whole.
pub proof fn lemma_sum_take_le(s: Seq<u64>, j: int)
    requires
        0 <= j <= s.len(),
    ensures
        sum_hundredths(s.take(j)) <= sum_hundredths(s),
    decreases s.len(),
{
    if j > 0 && s.len() > 0 {
        assert(s.take(j).skip(1) =~= s.skip(1).take(j - 1));
        assert(s.take(j)[0] == s[0]);
        lemma_sum_take_le(s.skip(1), j - 1);
    } else if j == 0 {
        assert(s.take(0) =~= Seq::<u64>::empty());
    }
}

/// The durations of an effort list, as plain counts.
pub open spec fn durations_of(es: Seq<Effort>) -> Seq<u64> {
    es.map_values(|e: Effort| e.duration() as u64)
}

/// The largest starting or ending value over a whole effort list.
pub open spec fn max_value_spec(es: Seq<Effort>) -> nat
    decreases es.len(),
{
    if es.len() == 0 {
        0
    } else {
        let rest = max_value_spec(es.skip(1));
        let own = if es[0].start() >= es[0].end() {
            es[0].start()
        } else {
            es[0].end()
        };
        if own > rest {
            own
        } else {
            rest
        }
    }
}

/// Every value of the list stays at or below the maximum.
pub proof fn lemma_max_value_ge(es: Seq<Effort>, i: int)
    requires
        0 <= i < es.len(),
    ensures
        es[i].start() <= max_value_spec(es),
        es[i].end() <= max_value_spec(es),
    decreases i,
{
    if i > 0 {
        lemma_max_value_ge(es.skip(1), i - 1);
        assert(es.skip(1)[i - 1] == es[i]);
    }
}

/// Is the frame large enough, and the workout non-trivial, for a layout?
pub open spec fn layout_ready(bounds: FrameSize, es: Seq<Effort>) -> bool {
    &&& es.len() > 0
    &&& es.len() <= MAX_EFFORTS
    &&& sum_hundredths(durations_of(es)) > 0
    &&& OFFSET_BETWEEN_DURATIONS * es.len() <= bounds.width
    &&& bounds.width <= MAX_FRAME
    &&& bounds.height <= MAX_FRAME
    &&& bounds.height * 9 / 10 >= OFFSET_BETWEEN_DURATIONS
    &&& max_value_spec(es) > 0
}

/// The height (in hundredths of a pixel) a value reaches.
pub open spec fn height_spec(bounds: FrameSize, es: Seq<Effort>, v: nat) -> nat {
    v * ((bounds.height * 9 / 10 - OFFSET_BETWEEN_DURATIONS) as nat) / max_value_spec(es)
}

/// The box of effort `i`: its proportional x placement, standing on the
/// bottom gap, up to the lower of its two value heights.
pub open spec fn rect_spec(bounds: FrameSize, es: Seq<Effort>, i: int) -> RectangleToDraw {
    let gap = OFFSET_BETWEEN_DURATIONS as nat;
    let ds = durations_of(es);
    let avail = (bounds.width - gap * es.len()) as nat;
    let total = sum_hundredths(ds);
    let hs = height_spec(bounds, es, es[i].start());
    let he = height_spec(bounds, es, es[i].end());
    let h = if he > hs {
        hs
    } else {
        he
    };
    RectangleToDraw {
        top_left: DrawPoint {
            x: x_start_spec(ds, gap, avail, total, i) as u64,
            y: (bounds.height - h - gap) as u64,
        },
        size: FrameSize { width: width_spec(ds, avail, total, i) as u64, height: h as u64 },
    }
}

/// The wedge of effort `i`, between its starting and ending heights.
pub open spec fn tri_spec(bounds: FrameSize, es: Seq<Effort>, i: int) -> TriangleToDraw {
    let gap = OFFSET_BETWEEN_DURATIONS as nat;
    let ds = durations_of(es);
    let avail = (bounds.width - gap * es.len()) as nat;
    let total = sum_hundredths(ds);
    triangle_spec(
        RectangleXDimensions {
            starting_point: x_start_spec(ds, gap, avail, total, i) as u64,
            width: width_spec(ds, avail, total, i) as u64,
        },
        RectangleYDimensions {
            starting_point: OFFSET_BETWEEN_DURATIONS,
            height: height_spec(bounds, es, es[i].start()) as u64,
        },
        RectangleYDimensions {
            starting_point: OFFSET_BETWEEN_DURATIONS,
            height: height_spec(bounds, es, es[i].end()) as u64,
        },
        bounds,
    )
}

/// The largest starting or ending value of the workout.
pub fn compute_max_value(efforts: &Vec<Effort>) -> (r: u64)
    ensures
        r == max_value_spec(efforts@),
        r <= MAX_HUNDREDTHS,
    decreases efforts@.len(),
{
    let n = efforts.len();
    let mut m: u64 = 0;
    let mut i: usize = n;
    proof {
        assert(efforts@.skip(n as int) =~= Seq::<Effort>::empty());
    }
    while i > 0
        invariant
            n == efforts@.len(),
            i <= n,
            m == max_value_spec(efforts@.skip(i as int)),
            m <= MAX_HUNDREDTHS,
        decreases i,
    {
        i = i - 1;
        let e = &efforts[i];
        proof {
            use_type_invariant(&e.starting_value);
            use_type_invariant(&e.ending_value);
            assert(efforts@.skip(i as int)[0] == efforts@[i as int]);
            assert(efforts@.skip(i as int).skip(1) =~= efforts@.skip(i as int + 1));
        }
        let own = if e.starting_value.to_hundredths() >= e.ending_value.to_hundredths() {
            e.starting_value.to_hundredths()
        } else {
            e.ending_value.to_hundredths()
        };
        if own > m {
            m = own;
        }
    }
    proof {
        assert(efforts@.skip(0) =~= efforts@);
    }
    m
}

/// The shapes of a workout profile: one box per effort and one triangle for
/// the wedge between its two heights, in drawing order. A frame too small
/// for the workout, or a workout without positive durations or values,
/// draws nothing.
pub fn compute_shapes_to_draw(bounds: FrameSize, efforts: &Vec<Effort>) -> (r: Vec<Shape>)
    requires
        efforts@.len() <= MAX_EFFORTS,
        bounds.width <= MAX_FRAME,
        bounds.height <= MAX_FRAME,
    ensures
        !layout_ready(bounds, efforts@) ==> r@.len() == 0,
        layout_ready(bounds, efforts@) ==> {
            &&& r@.len() == 2 * efforts@.len()
            &&& forall|i: int|
                0 <= i < efforts@.len() ==> #[trigger] r@[2 * i] == Shape::Rectangle(
                    rect_spec(bounds, efforts@, i),
                ) && r@[2 * i + 1] == Shape::Triangle(tri_spec(bounds, efforts@, i))
        },
{
    let n = efforts.len();
    let mut durations: Vec<u64> = Vec::new();
    let mut starting_values: Vec<u64> = Vec::new();
    let mut ending_values: Vec<u64> = Vec::new();
    let mut i: usize = 0;
    while i < n
        invariant
            n == efforts@.len(),
            i <= n,
            durations@.len() == i,
            starting_values@.len() == i,
            ending_values@.len() == i,
            forall|k: int|
                0 <= k < i ==> #[trigger] durations@[k] == efforts@[k].duration()
                    && durations@[k] <= MAX_HUNDREDTHS,
            forall|k: int|
                0 <= k < i ==> #[trigger] starting_values@[k] == efforts@[k].start()
                    && starting_values@[k] <= MAX_HUNDREDTHS,
            forall|k: int|
                0 <= k < i ==> #[trigger] ending_values@[k] == efforts@[k].end()
                    && ending_values@[k] <= MAX_HUNDREDTHS,
        decreases n - i,
    {
        let e = &efforts[i];
        proof {
            use_type_invariant(&e.duration_in_minutes);
            use_type_invariant(&e.starting_value);
            use_type_invariant(&e.ending_value);
        }
        durations.push(e.duration_in_minutes.to_hundredths());
        starting_values.push(e.starting_value.to_hundredths());
        ending_values.push(e.ending_value.to_hundredths());
        i = i + 1;
    }
    proof {
        assert(durations@ =~= durations_of(efforts@));
    }
    let total = compute_total(&durations);
    let max = compute_max_value(efforts);
    let offset_between_durations = OFFSET_BETWEEN_DURATIONS;
    if n == 0 || total == 0 || max == 0 || offset_between_durations * (n as u64) > bounds.width
        || bounds.height * 9 / 10 < offset_between_durations {
        return Vec::new();
    }
    let xs = compute_starting_dimensions_x(bounds.width, durations, offset_between_durations);
    proof {
        assert(forall|k: int|
            0 <= k < starting_values@.len() ==> #[trigger] starting_values@[k] <= MAX_HUNDREDTHS);
    }
    let ys = compute_starting_dimensions_y(
        bounds.height,
        starting_values,
        offset_between_durations,
        max,
    );
    let ye = compute_starting_dimensions_y(
        bounds.height,
        ending_values,
        offset_between_durations,
        max,
    );
    let ghost es = efforts@;
    let mut out: Vec<Shape> = Vec::new();
    let mut k: usize = 0;
    while k < n
        invariant
            n == es.len(),
            es == efforts@,
            n <= MAX_EFFORTS,
            layout_ready(bounds, es),
            bounds.width <= MAX_FRAME,
            bounds.height <= MAX_FRAME,
            xs@.len() == n,
            ys@.len() == n,
            ye@.len() == n,
            forall|q: int|
                0 <= q < n ==> {
                    &&& (#[trigger] xs@[q]).starting_point == x_start_spec(
                        durations_of(es),
                        OFFSET_BETWEEN_DURATIONS as nat,
                        (bounds.width - OFFSET_BETWEEN_DURATIONS * n) as nat,
                        sum_hundredths(durations_of(es)),
                        q,
                    )
                    &&& xs@[q].width == width_spec(
                        durations_of(es),
                        (bounds.width - OFFSET_BETWEEN_DURATIONS * n) as nat,
                        sum_hundredths(durations_of(es)),
                        q,
                    )
                },
            forall|q: int|
                0 <= q < n ==> #[trigger] ys@[q] == (RectangleYDimensions {
                    starting_point: OFFSET_BETWEEN_DURATIONS,
                    height: height_spec(bounds, es, es[q].start()) as u64,
                }),
            forall|q: int|
                0 <= q < n ==> #[trigger] ye@[q] == (RectangleYDimensions {
                    starting_point: OFFSET_BETWEEN_DURATIONS,
                    height: height_spec(bounds, es, es[q].end()) as u64,
                }),
            k <= n,
            out@.len() == 2 * k,
            forall|q: int|
                0 <= q < k ==> #[trigger] out@[2 * q] == Shape::Rectangle(rect_spec(bounds, es, q))
                    && out@[2 * q + 1] == Shape::Triangle(tri_spec(bounds, es, q)),
        decreases n - k,
    {
        proof {
            lemma_max_value_ge(es, k as int);
            lemma_height_bounds(bounds, es, es[k as int].start());
            lemma_height_bounds(bounds, es, es[k as int].end());
            lemma_sum_take_le(durations_of(es), k + 1);
            assert(xs@[k as int].starting_point + xs@[k as int].width <= 0xFFFF_FFFF_FFFF_FFFF)
                by {
                assert(sum_hundredths(durations_of(es).take(k + 1)) * ((bounds.width
                    - OFFSET_BETWEEN_DURATIONS * n) as nat) <= sum_hundredths(durations_of(es)) * ((
                bounds.width - OFFSET_BETWEEN_DURATIONS * n) as nat)) by (nonlinear_arith)
                    requires
                        sum_hundredths(durations_of(es).take(k + 1)) <= sum_hundredths(
                            durations_of(es),
                        ),
                        ((bounds.width - OFFSET_BETWEEN_DURATIONS * n) as nat) >= 0,
                ;
                vstd::arithmetic::div_mod::lemma_div_is_ordered(
                    (sum_hundredths(durations_of(es).take(k + 1)) * ((bounds.width
                        - OFFSET_BETWEEN_DURATIONS * n) as nat)) as int,
                    (sum_hundredths(durations_of(es)) * ((bounds.width - OFFSET_BETWEEN_DURATIONS
                        * n) as nat)) as int,
                    sum_hundredths(durations_of(es)) as int,
                );
                vstd::arithmetic::div_mod::lemma_div_multiples_vanish(
                    ((bounds.width - OFFSET_BETWEEN_DURATIONS * n) as nat) as int,
                    sum_hundredths(durations_of(es)) as int,
                );
                assert(OFFSET_BETWEEN_DURATIONS * (k + 2) <= OFFSET_BETWEEN_DURATIONS * (n + 1))
                    by (nonlinear_arith)
                    requires
                        k + 2 <= n + 1,
                ;
            }
        }
        let height_start = ys[k];
        let height_end = ye[k];
        let lower = if height_end.height > height_start.height {
            height_start
        } else {
            height_end
        };
        out.push(Shape::Rectangle(RectangleToDraw::new(xs[k], lower, bounds)));
        out.push(Shape::Triangle(TriangleToDraw::new(xs[k], height_start, height_end, bounds)));
        k = k + 1;
    }
    out
}

/// A value's height never leaves room above the top margin.
pub proof fn lemma_height_bounds(bounds: FrameSize, es: Seq<Effort>, v: nat)
    requires
        layout_ready(bounds, es),
        v <= max_value_spec(es),
    ensures
        height_spec(bounds, es, v) + OFFSET_BETWEEN_DURATIONS <= bounds.height,
{
    let availy = (bounds.height * 9 / 10 - OFFSET_BETWEEN_DURATIONS) as nat;
    let m = max_value_spec(es);
    assert(v * availy <= m * availy) by (nonlinear_arith)
        requires
            v <= m,
            availy >= 0,
    ;
    vstd::arithmetic::div_mod::lemma_div_is_ordered((v * availy) as int, (m * availy) as int, m as int);
    vstd::arithmetic::div_mod::lemma_div_multiples_vanish(availy as int, m as int);
    assert(height_spec(bounds, es, v) <= availy);
}

/// The color of each effort, in order.
pub fn compute_colors_of_shapes(efforts: &Vec<Effort>) -> (r: Vec<
    crate::visualization::colors::BlendedColor,
>)
    ensures
        r@.len() == efforts@.len(),
        forall|i: int|
            0 <= i < r@.len() ==> #[trigger] r@[i]
                == crate::visualization::colors::color_for_spec(
                ((efforts@[i].start() + efforts@[i].end()) / 2) as nat,
            ),
{
    let n = efforts.len();
    let mut r: Vec<crate::visualization::colors::BlendedColor> = Vec::new();
    let mut i: usize = 0;
    while i < n
        invariant
            n == efforts@.len(),
            i <= n,
            r@.len() == i,
            forall|k: int|
                0 <= k < i ==> #[trigger] r@[k] == crate::visualization::colors::color_for_spec(
                    ((efforts@[k].start() + efforts@[k].end()) / 2) as nat,
                ),
        decreases n - i,
    {
        r.push(efforts[i].to_color());
        i = i + 1;
    }
    r
}

/// Every shape of the profile paired with its effort's color: each effort's
/// box and triangle both carry that effort's color.
pub fn compute_boxes_for_efforts(bounds: FrameSize, efforts: &Vec<Effort>) -> (r: Vec<
    (Shape, crate::visualization::colors::BlendedColor),
>)
    requires
        efforts@.len() <= MAX_EFFORTS,
        bounds.width <= MAX_FRAME,
        bounds.height <= MAX_FRAME,
    ensures
        !layout_ready(bounds, efforts@) ==> r@.len() == 0,
        layout_ready(bounds, efforts@) ==> {
            &&& r@.len() == 2 * efforts@.len()
            &&& forall|i: int|
                0 <= i < efforts@.len() ==> {
                    &&& (#[trigger] r@[2 * i]).0 == Shape::Rectangle(rect_spec(bounds, efforts@, i))
                    &&& r@[2 * i + 1].0 == Shape::Triangle(tri_spec(bounds, efforts@, i))
                    &&& r@[2 * i].1 == crate::visualization::colors::color_for_spec(
                        ((efforts@[i].start() + efforts@[i].end()) / 2) as nat,
                    )
                    &&& r@[2 * i + 1].1 == r@[2 * i].1
                }
        },
{
    let shapes = compute_shapes_to_draw(bounds, efforts);
    if shapes.len() == 0 {
        proof {
            if layout_ready(bounds, efforts@) {
                assert(shapes@.len() == 2 * efforts@.len());
            }
        }
        return Vec::new();
    }
    let colors = compute_colors_of_shapes(efforts);
    let doubled = duplicate_element_in_iterator(&colors);
    let n = shapes.len();
    let mut r: Vec<(Shape, crate::visualization::colors::BlendedColor)> = Vec::new();
    let mut i: usize = 0;
    proof {
        assert(layout_ready(bounds, efforts@));
    }
    while i < n
        invariant
            n == shapes@.len(),
            n == 2 * efforts@.len(),
            doubled@.len() == n,
            i <= n,
            r@.len() == i,
            forall|k: int| 0 <= k < i ==> #[trigger] r@[k] == (shapes@[k], doubled@[k]),
        decreases n - i,
    {
        r.push((shapes[i], doubled[i]));
        i = i + 1;
    }
    proof {
        assert forall|i2: int| 0 <= i2 < efforts@.len() implies {
            &&& (#[trigger] r@[2 * i2]).0 == Shape::Rectangle(rect_spec(bounds, efforts@, i2))
            &&& r@[2 * i2 + 1].0 == Shape::Triangle(tri_spec(bounds, efforts@, i2))
            &&& r@[2 * i2].1 == crate::visualization::colors::color_for_spec(
                ((efforts@[i2].start() + efforts@[i2].end()) / 2) as nat,
            )
            &&& r@[2 * i2 + 1].1 == r@[2 * i2].1
        } by {
            assert(r@[2 * i2] == (shapes@[2 * i2], doubled@[2 * i2]));
            assert(r@[2 * i2 + 1] == (shapes@[2 * i2 + 1], doubled@[2 * i2 + 1]));
            assert(doubled@[2 * i2] == colors@[i2]);
            assert(doubled@[2 * i2 + 1] == colors@[i2]);
            assert(colors@[i2] == crate::visualization::colors::color_for_spec(
                ((efforts@[i2].start() + efforts@[i2].end()) / 2) as nat,
            ));
            assert(shapes@[2 * i2] == Shape::Rectangle(rect_spec(bounds, efforts@, i2)));
        }
    }
    r
}

/// Each element of a list twice in a row.
pub fn duplicate_element_in_iterator<T: Copy>(elements: &Vec<T>) -> (r: Vec<T>)
    ensures
        r@.len() == 2 * elements@.len(),
        forall|i: int|
            0 <= i < elements@.len() ==> r@[2 * i] == #[trigger] elements@[i] && r@[2 * i + 1]
                == elements@[i],
{
    let n = elements.len();
    let mut r: Vec<T> = Vec::new();
    let mut i: usize = 0;
    while i < n
        invariant
            n == elements@.len(),
            i <= n,
            r@.len() == 2 * i,
            forall|k: int|
                0 <= k < i ==> r@[2 * k] == #[trigger] elements@[k] && r@[2 * k + 1]
                    == elements@[k],
        decreases n - i,
    {
        r.push(elements[i]);
        r.push(elements[i]);
        i = i + 1;
    }
    r
}

} // verus!
