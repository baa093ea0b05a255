//! The camera of the chart and the transform from time to horizontal
//! position.

use crate::aggregate::AggregateBy;
use crate::geometry::{clamp_i64, clamp_to_i64, div_floor, max_int, min_int, Pos, Rect};
use crate::topology::ResourceState;
use vstd::arithmetic::div_mod::{lemma_div_is_ordered, lemma_fundamental_div_mod, lemma_mod_bound};
use vstd::prelude::*;

verus! {

/// Width of the label gutter where nothing asks for more, in points.
pub const GUTTER_WIDTH: u32 = 200;

/// Largest span of time that a zoom gesture may bring into view: two days,
/// in seconds.
pub const MAX_CANVAS_WIDTH_S: u32 = 172800;

/// How long an animated zoom lasts, in milliseconds.
pub const ZOOM_DURATION_MS: u64 = 750;

/// How bars are coloured.
#[derive(Clone, Copy, Debug, PartialEq, Eq, Structural)]
pub enum JobColor {
    Random,
    State,
}

/// A row of the chart, given by the position of its group in the aggregation.
#[derive(Clone, Copy, Debug, PartialEq, Eq, Structural)]
pub enum RowLabel {
    Level1(usize),
    Level2(usize, usize),
}

/// What the pointer and the clock say in one frame.
#[derive(Clone, Copy, Debug)]
pub struct Input {
    /// Where the pointer is, if it is over the canvas.
    pub hover_pos: Option<Pos>,
    /// Whether the pointer is over the canvas.
    pub hovered: bool,
    /// How far the pointer was dragged since the last frame.
    pub drag_delta: Pos,
    /// How far the view was scrolled sideways since the last frame.
    pub scroll_delta_x: i64,
    /// Factor of the zoom gesture of this frame, in thousandths: 1000 where
    /// there is none, more to zoom in, less to zoom out.
    pub zoom_factor: u32,
    pub clicked: bool,
    pub secondary_clicked: bool,
    pub double_clicked: bool,
    /// Time of the frame on the clock that drives animations, in
    /// milliseconds.
    pub time_ms: u64,
    /// Wall-clock time of the frame, in seconds since the epoch.
    pub now_s: i64,
}

/// What one frame is painted on: the canvas, the metrics of its text and the
/// window of time that the chart covers.
#[derive(Clone, Copy, Debug)]
pub struct Info {
    pub canvas: Rect,
    pub text_height: u32,
    pub font_size: u32,
    /// First second of the window of time.
    pub start_s: i64,
    /// Last second of the window of time.
    pub stop_s: i64,
    /// Width of the label gutter at the left of the canvas.
    pub gutter_width: u32,
}

/// The camera and the display options of the chart. They persist from one
/// frame to the next.
#[derive(Clone, Copy, Debug)]
pub struct Options {
    /// Span of time that the usable width shows, in seconds; 0 until it is
    /// first set from the window of time.
    pub canvas_width_s: u32,
    /// Horizontal offset of the chart, in points.
    pub sideways_pan_in_points: i64,
    /// Bars narrower than this are not painted.
    pub cull_width: u32,
    /// Bars are painted at least this wide.
    pub min_width: u32,
    pub rect_height: u32,
    pub spacing: u32,
    pub rounding: u32,
    pub aggregate_by: AggregateBy,
    pub job_color: JobColor,
    pub see_all_res: bool,
    /// Id of the job under the pointer in this frame.
    pub current_hovered_job: Option<u32>,
    /// Id of the job that was under the pointer in the frame before.
    pub previous_hovered_job: Option<u32>,
    pub current_hovered_resource_state: Option<ResourceState>,
    pub current_hovered_resource_label: Option<RowLabel>,
    pub squash_resources: bool,
    pub compact_rows: bool,
    /// An animated zoom under way: when it started, in milliseconds, and the
    /// first and last second of its target relative to the start of the
    /// window of time.
    pub zoom_to_relative_s_range: Option<(u64, (i64, i64))>,
}

impl Default for JobColor {
    fn default() -> (color: JobColor)
        ensures
            color == JobColor::Random,
    {
        JobColor::Random
    }
}

impl Default for Options {
    fn default() -> (options: Options)
        ensures
            options.canvas_width_s == 0,
            options.sideways_pan_in_points == 0,
            options.cull_width == 0,
            options.min_width == 1,
            options.rect_height == 16,
            options.spacing == 0,
            options.rounding == 4,
            options.aggregate_by.spec_is_valid(),
            options.job_color == JobColor::Random,
            !options.see_all_res,
            options.current_hovered_job is None,
            options.previous_hovered_job is None,
            options.current_hovered_resource_state is None,
            options.current_hovered_resource_label is None,
            !options.squash_resources,
            options.compact_rows,
            options.zoom_to_relative_s_range is None,
    {
        Options {
            canvas_width_s: 0,
            sideways_pan_in_points: 0,
            cull_width: 0,
            min_width: 1,
            rect_height: 16,
            spacing: 0,
            rounding: 4,
            aggregate_by: AggregateBy::default(),
            job_color: JobColor::default(),
            see_all_res: false,
            current_hovered_job: None,
            previous_hovered_job: None,
            current_hovered_resource_state: None,
            current_hovered_resource_label: None,
            squash_resources: false,
            compact_rows: true,
            zoom_to_relative_s_range: None,
        }
    }
}

impl Info {
    /// Width left for the chart beside the gutter: at least one point, and at
    /// most what a `u32` holds.
    pub open spec fn spec_usable_width(&self) -> int {
        min_int(
            max_int(self.canvas.max_x - self.canvas.min_x - self.gutter_width, 1),
            u32::MAX as int,
        )
    }

    /// Width left for the chart beside the gutter.
    pub fn usable_width(&self) -> (width: u32)
        ensures
            width == self.spec_usable_width(),
            width >= 1,
    {
        let wide: i128 = self.canvas.max_x as i128 - self.canvas.min_x as i128
            - self.gutter_width as i128;
        if wide < 1 {
            1
        } else if wide > u32::MAX as i128 {
            u32::MAX
        } else {
            wide as u32
        }
    }

    /// Horizontal position of the left edge of the chart, right of the gutter.
    pub open spec fn spec_origin_x(&self) -> int {
        self.canvas.min_x + self.gutter_width
    }

    /// Horizontal position of the second `t`, before it is brought into the
    /// range of a coordinate:
    /// `canvas_left + gutter_width + pan + usable_width * (t - start) / canvas_width_s`,
    /// the quotient rounded down.
    pub open spec fn ideal_x(&self, options: Options, t: int) -> int {
        self.spec_origin_x() + options.sideways_pan_in_points + (self.spec_usable_width() * (t
            - self.start_s)) / (options.canvas_width_s as int)
    }

    /// Horizontal position of the second `t`.
    pub open spec fn spec_point_from_s(&self, options: Options, t: i64) -> int {
        clamp_i64(self.ideal_x(options, t as int))
    }

    /// Horizontal position of the second `t`.
    pub fn point_from_s(&self, options: &Options, t: i64) -> (x: i64)
        requires
            options.canvas_width_s > 0,
        ensures
            x == self.spec_point_from_s(*options, t),
    {
        let usable: i128 = self.usable_width() as i128;
        let elapsed: i128 = t as i128 - self.start_s as i128;
        assert(-0x1_0000_0000_0000_0000_0000_0000 < usable * elapsed
            < 0x1_0000_0000_0000_0000_0000_0000) by (nonlinear_arith)
            requires
                1 <= usable <= 0xffff_ffff,
                -0x1_0000_0000_0000_0000 < elapsed < 0x1_0000_0000_0000_0000,
        ;
        let scaled: i128 = div_floor(usable * elapsed, options.canvas_width_s as i128);
        proof {
            let w = options.canvas_width_s as int;
            let n = usable * elapsed;
            lemma_fundamental_div_mod(n as int, w);
            lemma_mod_bound(n as int, w);
            assert(-0x1_0000_0000_0000_0000_0000_0000 <= scaled
                <= 0x1_0000_0000_0000_0000_0000_0000) by (nonlinear_arith)
                requires
                    n == w * scaled + (n as int % w),
                    0 <= (n as int % w) < w,
                    w >= 1,
                    -0x1_0000_0000_0000_0000_0000_0000 < n < 0x1_0000_0000_0000_0000_0000_0000,
            ;
        }
        clamp_to_i64(
            self.canvas.min_x as i128 + self.gutter_width as i128
                + options.sideways_pan_in_points as i128 + scaled,
        )
    }
}

/// Time transform under pan. The distance between the positions of two
/// seconds does not depend on the pan.
pub proof fn lemma_pan_keeps_distances(info: Info, a: Options, b: Options, t: int, u: int)
    requires
        a.canvas_width_s == b.canvas_width_s,
    ensures
        info.ideal_x(a, t) - info.ideal_x(a, u) == info.ideal_x(b, t) - info.ideal_x(b, u),
{
}

/// Panning moves every position by the amount of the pan.
pub proof fn lemma_pan_translates(info: Info, a: Options, b: Options, t: int)
    requires
        a.canvas_width_s == b.canvas_width_s,
    ensures
        info.ideal_x(b, t) - info.ideal_x(a, t) == b.sideways_pan_in_points
            - a.sideways_pan_in_points,
{
}

/// A quotient rounded down grows by the quotient of what is added, or by one
/// more.
pub proof fn lemma_div_of_sum(a: int, b: int, d: int)
    requires
        d > 0,
    ensures
        a / d + b / d <= (a + b) / d <= a / d + b / d + 1,
{
    lemma_fundamental_div_mod(a, d);
    lemma_fundamental_div_mod(b, d);
    lemma_fundamental_div_mod(a + b, d);
    lemma_mod_bound(a, d);
    lemma_mod_bound(b, d);
    lemma_mod_bound(a + b, d);
    let qa = a / d;
    let qb = b / d;
    let qs = (a + b) / d;
    assert(qa + qb <= qs <= qa + qb + 1) by (nonlinear_arith)
        requires
            d > 0,
            a == d * qa + a % d,
            b == d * qb + b % d,
            a + b == d * qs + (a + b) % d,
            0 <= a % d < d,
            0 <= b % d < d,
            0 <= (a + b) % d < d,
    ;
}

/// Time transform under shift. Two pairs of seconds that lie equally far
/// apart are displayed equally far apart, up to one point of rounding,
/// whatever the pan.
pub proof fn lemma_distance_depends_on_duration(
    info: Info,
    a: Options,
    b: Options,
    t: int,
    u: int,
    delta: int,
)
    requires
        a.canvas_width_s == b.canvas_width_s,
        a.canvas_width_s > 0,
    ensures
        -1 <= (info.ideal_x(a, t + delta) - info.ideal_x(a, t)) - (info.ideal_x(b, u + delta)
            - info.ideal_x(b, u)) <= 1,
{
    let w = a.canvas_width_s as int;
    let usable = info.spec_usable_width();
    let step = usable * delta;
    let at = usable * (t - info.start_s);
    let au = usable * (u - info.start_s);
    assert(usable * (t + delta - info.start_s) == at + step) by (nonlinear_arith)
        requires
            at == usable * (t - info.start_s),
            step == usable * delta,
    ;
    assert(usable * (u + delta - info.start_s) == au + step) by (nonlinear_arith)
        requires
            au == usable * (u - info.start_s),
            step == usable * delta,
    ;
    lemma_div_of_sum(at, step, w);
    lemma_div_of_sum(au, step, w);
}

/// Whether the second `t` is displayed within the range of a coordinate, so
/// that its position is not stopped at an end of the range.
pub open spec fn in_range(info: Info, options: Options, t: int) -> bool {
    i64::MIN <= info.ideal_x(options, t) <= i64::MAX
}

/// Time transform invariance under pan. The distance between the positions
/// of two seconds is the same for every pan, and it is the usable width times
/// the seconds between them over the span in view, rounded down, or one point
/// more. This holds wherever the four positions lie within the range of a
/// coordinate.
pub proof fn lemma_point_distance(info: Info, a: Options, b: Options, t: i64, u: i64)
    requires
        a.canvas_width_s == b.canvas_width_s,
        a.canvas_width_s > 0,
        in_range(info, a, t as int),
        in_range(info, a, u as int),
        in_range(info, b, t as int),
        in_range(info, b, u as int),
    ensures
        info.spec_point_from_s(a, t) - info.spec_point_from_s(a, u) == info.spec_point_from_s(
            b,
            t,
        ) - info.spec_point_from_s(b, u),
        (info.spec_usable_width() * (t - u)) / (a.canvas_width_s as int) <= info.spec_point_from_s(
            a,
            t,
        ) - info.spec_point_from_s(a, u) <= (info.spec_usable_width() * (t - u)) / (
        a.canvas_width_s as int) + 1,
{
    let usable = info.spec_usable_width();
    let from = usable * (u - info.start_s);
    let step = usable * (t - u);
    assert(usable * (t - info.start_s) == from + step) by (nonlinear_arith)
        requires
            from == usable * (u - info.start_s),
            step == usable * (t - u),
    ;
    lemma_div_of_sum(from, step, a.canvas_width_s as int);
}

/// Later seconds are not displayed further left.
pub proof fn lemma_position_monotonic(info: Info, options: Options, t: int, u: int)
    requires
        options.canvas_width_s > 0,
        t <= u,
    ensures
        info.ideal_x(options, t) <= info.ideal_x(options, u),
{
    let usable = info.spec_usable_width();
    assert(usable * (t - info.start_s) <= usable * (u - info.start_s)) by (nonlinear_arith)
        requires
            usable >= 1,
            t <= u,
    ;
    lemma_div_is_ordered(
        usable * (t - info.start_s),
        usable * (u - info.start_s),
        options.canvas_width_s as int,
    );
}

} // verus!
