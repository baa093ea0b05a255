//! What the pointer does to the camera: panning, zooming about the pointer,
//! and the animated zoom to a range of time.

use crate::geometry::{clamp_i64, clamp_to_i64, div_floor, max_int, min_int, sat_add, sat_sub};
use crate::transform::{in_range, Info, Input, Options, MAX_CANVAS_WIDTH_S, ZOOM_DURATION_MS};
use vstd::arithmetic::div_mod::{lemma_div_is_ordered, lemma_fundamental_div_mod, lemma_mod_bound};
use vstd::prelude::*;

verus! {

/// The options with another span of time, pan and animated zoom.
pub open spec fn with_camera(
    options: Options,
    width: u32,
    pan: i64,
    zoom: Option<(u64, (i64, i64))>,
) -> Options {
    Options {
        canvas_width_s: width,
        sideways_pan_in_points: pan,
        zoom_to_relative_s_range: zoom,
        ..options
    }
}

/// The options after the horizontal drag of the frame: it moves the pan
/// along and ends an animated zoom.
pub open spec fn after_drag(options: Options, input: Input) -> Options {
    if input.drag_delta.x != 0 {
        with_camera(
            options,
            options.canvas_width_s,
            clamp_i64(options.sideways_pan_in_points + input.drag_delta.x) as i64,
            None,
        )
    } else {
        options
    }
}

/// The options after the sideways scroll of the frame, which acts as a drag
/// does while the pointer is over the canvas.
pub open spec fn after_scroll(options: Options, input: Input) -> Options {
    if input.hovered && input.scroll_delta_x != 0 {
        with_camera(
            options,
            options.canvas_width_s,
            clamp_i64(options.sideways_pan_in_points + input.scroll_delta_x) as i64,
            None,
        )
    } else {
        options
    }
}

/// The span of time in view after a zoom by `factor` thousandths: the span
/// divided by the factor, at least one second. A span that is not set yet
/// stays so.
pub open spec fn zoomed_width(width: u32, factor: u32) -> int {
    if width == 0 {
        0
    } else {
        max_int(1, (width * 1000) / (factor as int))
    }
}

/// Whether the zoom gesture of the frame is taken: it has a factor, and the
/// span it leads to is within the limit.
pub open spec fn zoom_accepted(options: Options, input: Input) -> bool {
    input.zoom_factor > 0 && zoomed_width(options.canvas_width_s, input.zoom_factor)
        <= MAX_CANVAS_WIDTH_S
}

/// The pan that keeps in place what is displayed at the distance `center`
/// from the left edge of the chart while the span in view goes from `before`
/// to `after` seconds.
pub open spec fn zoomed_pan(pan: int, center: int, before: int, after: int) -> int {
    center - ((center - pan) * before) / after
}

/// The options after the zoom gesture of the frame. A gesture that is taken
/// sets the span in view and turns the pan so that the pointer stays over the
/// same time; any gesture ends an animated zoom.
pub open spec fn after_zoom(options: Options, input: Input, info: Info) -> Options {
    if input.hovered && input.zoom_factor != 1000 {
        if zoom_accepted(options, input) {
            let width = zoomed_width(options.canvas_width_s, input.zoom_factor);
            with_camera(
                options,
                width as u32,
                match input.hover_pos {
                    Some(p) => if width > 0 {
                        clamp_i64(
                            zoomed_pan(
                                options.sideways_pan_in_points as int,
                                p.x - info.spec_origin_x(),
                                options.canvas_width_s as int,
                                width,
                            ),
                        ) as i64
                    } else {
                        options.sideways_pan_in_points
                    },
                    None => options.sideways_pan_in_points,
                },
                None,
            )
        } else {
            with_camera(options, options.canvas_width_s, options.sideways_pan_in_points, None)
        }
    } else {
        options
    }
}

/// The options after the double click of the frame, which starts an animated
/// zoom to the whole window of time.
pub open spec fn after_double_click(options: Options, input: Input, info: Info) -> Options {
    if input.double_clicked {
        with_camera(
            options,
            options.canvas_width_s,
            options.sideways_pan_in_points,
            Some((input.time_ms, (0i64, clamp_i64(info.stop_s - info.start_s) as i64))),
        )
    } else {
        options
    }
}

/// Milliseconds of an animation that started at `started` that have passed
/// at `now`, at most its duration.
pub open spec fn animation_progress(started: u64, now: u64) -> int {
    if now <= started {
        0
    } else {
        min_int(now - started, ZOOM_DURATION_MS as int)
    }
}

/// The span of time that an animated zoom to `range` ends with: the length
/// of the range, at least one second and at most what a `u32` holds.
pub open spec fn target_width(range: (i64, i64)) -> int {
    min_int(max_int(range.1 - range.0, 1), u32::MAX as int)
}

/// The pan that an animated zoom to `range` ends with: the one that puts the
/// start of the range at the left edge of the chart.
pub open spec fn target_pan(info: Info, range: (i64, i64)) -> int {
    -((info.spec_usable_width() * range.0) / target_width(range))
}

/// The span in view after `progress` milliseconds of an animated zoom from
/// the span `from` to the span `to`: between the reciprocals of the two spans
/// the reciprocal of the span moves at an even pace. A span that is not set
/// yet is set to the target at once.
pub open spec fn eased_width(from: int, to: int, progress: int) -> int {
    if from == 0 {
        to
    } else {
        min_int(
            max_int(
                1,
                (from * to * ZOOM_DURATION_MS) / ((ZOOM_DURATION_MS - progress) * to + progress
                    * from),
            ),
            u32::MAX as int,
        )
    }
}

/// The pan after `progress` milliseconds of an animated zoom from the pan
/// `from` to the pan `to`: it moves at an even pace.
pub open spec fn eased_pan(from: int, to: int, progress: int) -> int {
    from + ((to - from) * progress) / (ZOOM_DURATION_MS as int)
}

/// The options after the step of the animated zoom, if one is under way. The
/// animation ends when its duration has passed.
pub open spec fn after_animation(options: Options, input: Input, info: Info) -> Options {
    match options.zoom_to_relative_s_range {
        None => options,
        Some((started, range)) => {
            let progress = animation_progress(started, input.time_ms);
            with_camera(
                options,
                eased_width(options.canvas_width_s as int, target_width(range), progress) as u32,
                clamp_i64(
                    eased_pan(
                        options.sideways_pan_in_points as int,
                        clamp_i64(target_pan(info, range)),
                        progress,
                    ),
                ) as i64,
                if progress >= ZOOM_DURATION_MS {
                    None
                } else {
                    options.zoom_to_relative_s_range
                },
            )
        },
    }
}

/// Whether two sets of options differ in nothing but the camera: the span
/// in view, the pan and the animated zoom.
pub open spec fn same_but_camera(a: Options, b: Options) -> bool {
    b == with_camera(
        a,
        b.canvas_width_s,
        b.sideways_pan_in_points,
        b.zoom_to_relative_s_range,
    )
}

/// The options after a frame of interaction: the drag, the scroll, the zoom
/// gesture and the double click of the frame, in this order, then the step of
/// the animated zoom.
#[verifier::opaque]
pub open spec fn spec_interact(options: Options, input: Input, info: Info) -> Options {
    after_animation(
        after_double_click(
            after_zoom(after_scroll(after_drag(options, input), input), input, info),
            input,
            info,
        ),
        input,
        info,
    )
}

/// Whether the frame holds a gesture that pans or zooms by hand.
pub open spec fn has_gesture(input: Input) -> bool {
    input.drag_delta.x != 0 || (input.hovered && (input.scroll_delta_x != 0 || input.zoom_factor
        != 1000))
}

/// Whether the next frame is to be painted at once: an animated zoom is
/// under way.
#[verifier::opaque]
pub open spec fn wants_repaint(options: Options, input: Input, info: Info) -> bool {
    after_double_click(
        after_zoom(after_scroll(after_drag(options, input), input), input, info),
        input,
        info,
    ).zoom_to_relative_s_range is Some
}

/// Applies the horizontal drag of the frame.
pub fn apply_drag(options: &mut Options, input: &Input)
    ensures
        *final(options) == after_drag(*old(options), *input),
{
    if input.drag_delta.x != 0 {
        options.sideways_pan_in_points = sat_add(options.sideways_pan_in_points, input.drag_delta.x);
        options.zoom_to_relative_s_range = None;
    }
}

/// Applies the sideways scroll of the frame.
pub fn apply_scroll(options: &mut Options, input: &Input)
    ensures
        *final(options) == after_scroll(*old(options), *input),
{
    if input.hovered && input.scroll_delta_x != 0 {
        options.sideways_pan_in_points = sat_add(
            options.sideways_pan_in_points,
            input.scroll_delta_x,
        );
        options.zoom_to_relative_s_range = None;
    }
}

/// Applies the zoom gesture of the frame.
pub fn apply_zoom(options: &mut Options, input: &Input, info: &Info)
    ensures
        *final(options) == after_zoom(*old(options), *input, *info),
{
    if input.hovered && input.zoom_factor != 1000 {
        if input.zoom_factor > 0 {
            let before = options.canvas_width_s;
            let scaled: u64 = (before as u64 * 1000) / (input.zoom_factor as u64);
            let width: u64 = if before == 0 {
                0
            } else if scaled < 1 {
                1
            } else {
                scaled
            };
            if width <= MAX_CANVAS_WIDTH_S as u64 {
                options.canvas_width_s = width as u32;
                match input.hover_pos {
                    Some(p) => {
                        if width > 0 {
                            let center: i128 = p.x as i128 - (info.canvas.min_x as i128
                                + info.gutter_width as i128);
                            let away: i128 = center - options.sideways_pan_in_points as i128;
                            assert(-0x8_0000_0000_0000_0000_0000_0000 < away * before
                                < 0x8_0000_0000_0000_0000_0000_0000) by (nonlinear_arith)
                                requires
                                    -0x8_0000_0000_0000_0000 < away < 0x8_0000_0000_0000_0000,
                                    0 <= before <= 0xffff_ffff,
                            ;
                            let moved: i128 = div_floor(away * before as i128, width as i128);
                            proof {
                                let n = (away * before) as int;
                                let w = width as int;
                                lemma_fundamental_div_mod(n, w);
                                lemma_mod_bound(n, w);
                                assert(-0x8_0000_0000_0000_0000_0000_0000 <= moved
                                    <= 0x8_0000_0000_0000_0000_0000_0000) by (nonlinear_arith)
                                    requires
                                        n == w * moved + (n % w),
                                        0 <= (n % w) < w,
                                        w >= 1,
                                        -0x8_0000_0000_0000_0000_0000_0000 < n
                                            < 0x8_0000_0000_0000_0000_0000_0000,
                                ;
                            }
                            options.sideways_pan_in_points = clamp_to_i64(center - moved);
                        }
                    },
                    None => {},
                }
            }
        }
        options.zoom_to_relative_s_range = None;
    }
}

/// Applies the double click of the frame.
pub fn apply_double_click(options: &mut Options, input: &Input, info: &Info)
    ensures
        *final(options) == after_double_click(*old(options), *input, *info),
{
    if input.double_clicked {
        options.zoom_to_relative_s_range = Some(
            (input.time_ms, (0, sat_sub(info.stop_s, info.start_s))),
        );
    }
}

/// Takes the step of the animated zoom, if one is under way, and tells
/// whether one was: the next frame is then to be painted at once.
///
/// Once the duration of the animation has passed, the animation is over, the
/// span in view is the length of its target, and the pan puts the start of
/// the target at the left edge of the chart.
pub fn animate(options: &mut Options, input: &Input, info: &Info) -> (repaint: bool)
    ensures
        *final(options) == after_animation(*old(options), *input, *info),
        repaint == old(options).zoom_to_relative_s_range is Some,
{
    match options.zoom_to_relative_s_range {
        None => false,
        Some((started, range)) => {
            let progress: u64 = if input.time_ms <= started {
                0
            } else if input.time_ms - started > ZOOM_DURATION_MS {
                ZOOM_DURATION_MS
            } else {
                input.time_ms - started
            };
            let length: i128 = range.1 as i128 - range.0 as i128;
            let to: u32 = if length < 1 {
                1
            } else if length > u32::MAX as i128 {
                u32::MAX
            } else {
                length as u32
            };
            let usable = info.usable_width();
            assert(-0x8000_0000_0000_0000_0000_0000 < usable * range.0
                < 0x8000_0000_0000_0000_0000_0000) by (nonlinear_arith)
                requires
                    0 <= usable <= 0xffff_ffff,
                    -0x8000_0000_0000_0000 <= range.0 < 0x8000_0000_0000_0000,
            ;
            let shift: i128 = div_floor(usable as i128 * range.0 as i128, to as i128);
            proof {
                let n = (usable * range.0) as int;
                let w = to as int;
                lemma_fundamental_div_mod(n, w);
                lemma_mod_bound(n, w);
                assert(-0x8000_0000_0000_0000_0000_0000 <= shift
                    <= 0x8000_0000_0000_0000_0000_0000) by (nonlinear_arith)
                    requires
                        n == w * shift + (n % w),
                        0 <= (n % w) < w,
                        w >= 1,
                        -0x8000_0000_0000_0000_0000_0000 < n < 0x8000_0000_0000_0000_0000_0000,
                ;
            }
            let pan_to = clamp_to_i64(-shift);
            let from = options.canvas_width_s;
            let width: u32 = if from == 0 {
                to
            } else {
                let rest: u128 = (ZOOM_DURATION_MS - progress) as u128;
                assert(rest * to <= 750 * 0xffff_ffff) by (nonlinear_arith)
                    requires
                        0 <= rest <= 750,
                        0 <= to <= 0xffff_ffff,
                ;
                assert(progress * from <= 750 * 0xffff_ffff) by (nonlinear_arith)
                    requires
                        0 <= progress <= 750,
                        0 <= from <= 0xffff_ffff,
                ;
                assert(rest * to + progress * from > 0) by (nonlinear_arith)
                    requires
                        rest + progress == 750,
                        rest >= 0,
                        progress >= 0,
                        to >= 1,
                        from >= 1,
                ;
                assert(from * to <= 0xffff_ffff * 0xffff_ffff) by (nonlinear_arith)
                    requires
                        0 <= from <= 0xffff_ffff,
                        0 <= to <= 0xffff_ffff,
                ;
                let product: u128 = from as u128 * to as u128;
                let eased: u128 = (product * ZOOM_DURATION_MS as u128) / (rest * to as u128
                    + progress as u128 * from as u128);
                if eased < 1 {
                    1
                } else if eased > u32::MAX as u128 {
                    u32::MAX
                } else {
                    eased as u32
                }
            };
            let gap: i128 = pan_to as i128 - options.sideways_pan_in_points as i128;
            assert(-0x1_0000_0000_0000_0000_000 < gap * progress < 0x1_0000_0000_0000_0000_000)
                by (nonlinear_arith)
                requires
                    -0x1_0000_0000_0000_0000 < gap < 0x1_0000_0000_0000_0000,
                    0 <= progress <= 750,
            ;
            let step: i128 = div_floor(gap * progress as i128, ZOOM_DURATION_MS as i128);
            proof {
                let n = (gap * progress) as int;
                lemma_fundamental_div_mod(n, 750);
                lemma_mod_bound(n, 750);
            }
            options.canvas_width_s = width;
            options.sideways_pan_in_points = clamp_to_i64(
                options.sideways_pan_in_points as i128 + step,
            );
            if progress >= ZOOM_DURATION_MS {
                options.zoom_to_relative_s_range = None;
            }
            true
        },
    }
}

/// Applies a frame of interaction to the camera and tells whether the next
/// frame is to be painted at once.
///
/// A horizontal drag or scroll moves the pan. A zoom gesture divides the span
/// in view by its factor, unless that leads beyond two days, and turns the
/// pan about the pointer. Each of them ends an animated zoom. A double click
/// starts an animated zoom to the whole window of time. Last, an animated
/// zoom that is under way takes its step.
pub fn interact_with_canvas(options: &mut Options, input: &Input, info: &Info) -> (repaint: bool)
    ensures
        *final(options) == spec_interact(*old(options), *input, *info),
        repaint == wants_repaint(*old(options), *input, *info),
        has_gesture(*input) && !input.double_clicked ==> final(options).zoom_to_relative_s_range
            is None,
        same_but_camera(*old(options), *final(options)),
{
    reveal(spec_interact);
    reveal(wants_repaint);
    apply_drag(options, input);
    apply_scroll(options, input);
    apply_zoom(options, input, info);
    apply_double_click(options, input, info);
    animate(options, input, info)
}

/// When the animated zoom of `options` started; 0 where none is under way.
pub open spec fn animation_start(options: Options) -> u64 {
    match options.zoom_to_relative_s_range {
        Some((started, _)) => started,
        None => 0,
    }
}

/// The target of the animated zoom of `options`, relative to the start of
/// the window of time.
pub open spec fn animation_range(options: Options) -> (i64, i64) {
    match options.zoom_to_relative_s_range {
        Some((_, range)) => range,
        None => (0, 0),
    }
}

/// Animation convergence. Once the duration of an animated zoom has passed,
/// its step ends it: the animation is over, the span in view is the length of
/// the target, and the pan puts the start of the target at the left edge of
/// the chart.
pub proof fn lemma_animation_converges(options: Options, input: Input, info: Info)
    requires
        options.zoom_to_relative_s_range is Some,
        input.time_ms >= animation_start(options) + ZOOM_DURATION_MS,
    ensures
        ({
            let range = animation_range(options);
            let after = after_animation(options, input, info);
            &&& after.zoom_to_relative_s_range is None
            &&& after.canvas_width_s == target_width(range)
            &&& after.sideways_pan_in_points == clamp_i64(target_pan(info, range))
        }),
{
    let range = animation_range(options);
    let from = options.canvas_width_s as int;
    let to = target_width(range);
    let progress = animation_progress(animation_start(options), input.time_ms);
    assert(progress == 750);
    if from != 0 {
        assert(from * to * 750 == (750 * from) * to) by (nonlinear_arith);
        assert((750 - progress) * to + progress * from == 750 * from) by (nonlinear_arith)
            requires
                progress == 750,
        ;
        vstd::arithmetic::div_mod::lemma_div_multiples_vanish(to, 750 * from);
        assert(eased_width(from, to, progress) == to);
    }
    let pan = options.sideways_pan_in_points as int;
    let goal = clamp_i64(target_pan(info, range));
    assert((goal - pan) * progress == 750 * (goal - pan)) by (nonlinear_arith)
        requires
            progress == 750,
    ;
    vstd::arithmetic::div_mod::lemma_div_multiples_vanish(goal - pan, 750);
    assert(eased_pan(pan, goal, progress) == goal);
}

/// An animated zoom that has not started to run leaves the camera as it is.
pub proof fn lemma_animation_starts_in_place(options: Options, input: Input, info: Info)
    requires
        options.zoom_to_relative_s_range is Some,
        input.time_ms <= animation_start(options),
        options.canvas_width_s > 0,
    ensures
        ({
            let after = after_animation(options, input, info);
            &&& after.zoom_to_relative_s_range == options.zoom_to_relative_s_range
            &&& after.canvas_width_s == options.canvas_width_s
            &&& after.sideways_pan_in_points == options.sideways_pan_in_points
        }),
{
    let range = animation_range(options);
    let from = options.canvas_width_s as int;
    let to = target_width(range);
    let progress = animation_progress(animation_start(options), input.time_ms);
    assert(progress == 0);
    assert(from * to * 750 == (750 * to) * from) by (nonlinear_arith);
    assert((750 - progress) * to + progress * from == 750 * to) by (nonlinear_arith)
        requires
            progress == 0,
    ;
    vstd::arithmetic::div_mod::lemma_div_multiples_vanish(from, 750 * to);
    assert(eased_width(from, to, progress) == from);
    let pan = options.sideways_pan_in_points as int;
    let goal = clamp_i64(target_pan(info, range));
    assert((goal - pan) * progress == 0) by (nonlinear_arith)
        requires
            progress == 0,
    ;
    assert(eased_pan(pan, goal, progress) == pan);
}

/// Zoom pivot. After a zoom gesture that is taken, a second that was
/// displayed under the pointer is displayed there again, or to its right by
/// no more than the ratio of the two spans, rounded down, and one point: the
/// part of the ratio is what one point held before the zoom, the point more
/// is rounding.
pub proof fn lemma_zoom_keeps_pivot(options: Options, input: Input, info: Info, t: int)
    requires
        input.hovered,
        input.zoom_factor != 1000,
        zoom_accepted(options, input),
        options.canvas_width_s > 0,
        input.hover_pos is Some,
        info.ideal_x(options, t) == input.hover_pos->0.x,
        i64::MIN <= zoomed_pan(
            options.sideways_pan_in_points as int,
            input.hover_pos->0.x - info.spec_origin_x(),
            options.canvas_width_s as int,
            zoomed_width(options.canvas_width_s, input.zoom_factor),
        ) <= i64::MAX,
    ensures
        ({
            let after = after_zoom(options, input, info);
            let x = input.hover_pos->0.x;
            &&& after.canvas_width_s == zoomed_width(options.canvas_width_s, input.zoom_factor)
            &&& after.canvas_width_s > 0
            &&& x <= info.ideal_x(after, t) <= x + options.canvas_width_s / after.canvas_width_s
                + 1
        }),
{
    let before = options.canvas_width_s as int;
    let width = zoomed_width(options.canvas_width_s, input.zoom_factor);
    let amount = info.spec_usable_width() * (t - info.start_s);
    let q = amount / before;
    lemma_fundamental_div_mod(amount, before);
    lemma_mod_bound(amount, before);
    assert(q * before <= amount < q * before + before) by (nonlinear_arith)
        requires
            amount == before * q + amount % before,
            0 <= amount % before < before,
    ;
    lemma_div_is_ordered(q * before, amount, width);
    lemma_div_is_ordered(amount, q * before + before, width);
    crate::transform::lemma_div_of_sum(q * before, before, width);
}

/// Zoom pivot of a frame. In a frame with a zoom gesture that is taken, and
/// with no drag, no scroll, no double click and no animated zoom under way, a
/// second that was displayed under the pointer is displayed there again, or
/// to its right by no more than the ratio of the two spans, rounded down, and
/// one point. This holds wherever the position of the second lies within the
/// range of a coordinate before and after.
pub proof fn lemma_interaction_keeps_pivot(options: Options, input: Input, info: Info, t: i64)
    requires
        input.hovered,
        input.zoom_factor != 1000,
        zoom_accepted(options, input),
        options.canvas_width_s > 0,
        input.hover_pos is Some,
        input.drag_delta.x == 0,
        input.scroll_delta_x == 0,
        !input.double_clicked,
        options.zoom_to_relative_s_range is None,
        info.spec_point_from_s(options, t) == input.hover_pos->0.x,
        in_range(info, options, t as int),
        in_range(info, spec_interact(options, input, info), t as int),
        i64::MIN <= zoomed_pan(
            options.sideways_pan_in_points as int,
            input.hover_pos->0.x - info.spec_origin_x(),
            options.canvas_width_s as int,
            zoomed_width(options.canvas_width_s, input.zoom_factor),
        ) <= i64::MAX,
    ensures
        ({
            let after = spec_interact(options, input, info);
            let x = input.hover_pos->0.x;
            &&& after.canvas_width_s == zoomed_width(options.canvas_width_s, input.zoom_factor)
            &&& after.canvas_width_s > 0
            &&& x <= info.spec_point_from_s(after, t) <= x + options.canvas_width_s
                / after.canvas_width_s + 1
        }),
{
    reveal(spec_interact);
    lemma_zoom_keeps_pivot(options, input, info, t as int);
}

} // verus!
