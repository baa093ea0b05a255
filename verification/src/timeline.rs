//! The grid of the time line: how far its lines lie apart, where they stand,
//! and what their labels say.

use crate::geometry::{clamp_i64, clamp_to_i64, div_floor};
use crate::transform::{lemma_position_monotonic, Info, Options};
use vstd::prelude::*;

verus! {

/// Weight of a line of the grid.
#[derive(Clone, Copy, Debug, PartialEq, Eq, Structural)]
pub enum TickLevel {
    /// Every twentieth line.
    Big,
    /// Every tenth line.
    Medium,
    Tiny,
}

/// A line of the grid: the second it stands for, where it stands, and its
/// weight.
#[derive(Clone, Copy, Debug, PartialEq, Eq, Structural)]
pub struct Tick {
    pub second: i64,
    pub x: i64,
    pub level: TickLevel,
}

/// The distance between lines after `steps` widenings: 180 seconds, times
/// ten for each.
pub open spec fn spacing_after(steps: nat) -> int
    decreases steps,
{
    if steps == 0 {
        180
    } else {
        10 * spacing_after((steps - 1) as nat)
    }
}

/// Whether lines `spacing` seconds apart are at most one to four points:
/// the span in view holds no more of them than a fourth of the usable width.
pub open spec fn lines_fit(options: Options, usable: int, spacing: int) -> bool {
    4 * options.canvas_width_s <= usable * spacing
}

/// Number of widenings after which the lines fit, counting from `steps`.
pub open spec fn widenings(options: Options, usable: int, steps: nat) -> nat
    decreases 9 - steps,
{
    if steps >= 9 || lines_fit(options, usable, spacing_after(steps)) {
        steps
    } else {
        widenings(options, usable, steps + 1)
    }
}

/// The distance between the lines of the grid, in seconds: 180, widened
/// tenfold until the lines fit.
pub open spec fn spec_grid_spacing(options: Options, usable: int) -> int {
    spacing_after(widenings(options, usable, 0))
}

/// The distance between the lines of the grid, in seconds.
pub fn grid_spacing(options: &Options, info: &Info) -> (spacing: i64)
    ensures
        spacing == spec_grid_spacing(*options, info.spec_usable_width()),
        180 <= spacing <= 180_000_000_000,
{
    let usable = info.usable_width() as u128;
    let width = options.canvas_width_s as u128;
    let mut spacing: u64 = 180;
    let mut steps: u8 = 0;
    assert(spacing_after(0) == 180);
    assert(usable * spacing <= 0xffff_ffff * 180_000_000_000) by (nonlinear_arith)
        requires
            usable <= 0xffff_ffff,
            spacing <= 180_000_000_000,
    ;
    while steps < 9 && 4 * width > usable * spacing as u128
        invariant
            steps <= 9,
            usable * spacing <= 0xffff_ffff * 180_000_000_000,
            1 <= usable <= 0xffff_ffff,
            usable == info.spec_usable_width(),
            width == options.canvas_width_s,
            spacing == spacing_after(steps as nat),
            180 <= spacing <= 180_000_000_000,
            steps < 9 ==> spacing <= 18_000_000_000,
            spacing_after(steps as nat) >= 180,
            widenings(*options, usable as int, 0) == widenings(
                *options,
                usable as int,
                steps as nat,
            ),
        decreases 9 - steps,
    {
        proof {
            lemma_spacing_bound((steps + 1) as nat);
        }
        spacing = spacing * 10;
        steps = steps + 1;
        assert(usable * spacing <= 0xffff_ffff * 180_000_000_000) by (nonlinear_arith)
            requires
                usable <= 0xffff_ffff,
                spacing <= 180_000_000_000,
        ;
    }
    spacing as i64
}

/// The distance between lines never exceeds what nine widenings give.
pub proof fn lemma_spacing_bound(steps: nat)
    requires
        steps <= 9,
    ensures
        180 <= spacing_after(steps) <= 180_000_000_000,
        steps < 9 ==> spacing_after(steps) <= 18_000_000_000,
    decreases steps,
{
    reveal_with_fuel(spacing_after, 11);
}

/// Weight of the line at the second `second` of a grid with lines `spacing`
/// seconds apart.
pub open spec fn spec_tick_level(second: int, spacing: int) -> TickLevel {
    if second % (spacing * 20) == 0 {
        TickLevel::Big
    } else if second % (spacing * 10) == 0 {
        TickLevel::Medium
    } else {
        TickLevel::Tiny
    }
}

/// The lines of the grid from the second `from` on: one at every multiple
/// of `spacing` that is displayed within the canvas, up to the first that is
/// displayed right of it.
pub open spec fn ticks_from(info: Info, options: Options, spacing: int, from: int) -> Seq<Tick>
    decreases i64::MAX - from,
{
    if spacing <= 0 || from < 0 || from > i64::MAX {
        Seq::empty()
    } else {
        let x = info.spec_point_from_s(options, from as i64);
        if x > info.canvas.max_x {
            Seq::empty()
        } else {
            let rest = if from + spacing > i64::MAX {
                Seq::empty()
            } else {
                ticks_from(info, options, spacing, from + spacing)
            };
            if x >= info.canvas.min_x {
                seq![Tick { second: from as i64, x: x as i64, level: spec_tick_level(from, spacing) }]
                    + rest
            } else {
                rest
            }
        }
    }
}

/// Lines left of the canvas can be passed over. Where the multiple of
/// `spacing` that lies `steps` lines after `from` is displayed left of the
/// canvas, and not right of it, the lines from `from` on are those from that
/// multiple on.
pub proof fn lemma_ticks_skip(info: Info, options: Options, spacing: int, from: int, steps: nat)
    requires
        options.canvas_width_s > 0,
        spacing > 0,
        from >= 0,
        from + steps * spacing <= i64::MAX,
        info.spec_point_from_s(options, (from + steps * spacing) as i64) < info.canvas.min_x,
        info.spec_point_from_s(options, (from + steps * spacing) as i64) <= info.canvas.max_x,
    ensures
        ticks_from(info, options, spacing, from) == ticks_from(
            info,
            options,
            spacing,
            from + steps * spacing,
        ),
    decreases steps,
{
    if steps > 0 {
        assert(steps * spacing == (steps - 1) * spacing + spacing) by (nonlinear_arith);
        assert((steps - 1) * spacing >= 0) by (nonlinear_arith)
            requires
                steps >= 1,
                spacing > 0,
        ;
        lemma_position_monotonic(info, options, from, from + steps * spacing);
        lemma_ticks_skip(info, options, spacing, from + spacing, (steps - 1) as nat);
    } else {
        assert(0 * spacing == 0);
    }
}

/// A second that is displayed left of the canvas, or close to its left
/// edge: the second that the transform, turned round, gives for the point
/// before the left edge, less one for rounding.
pub open spec fn tick_guess(info: Info, options: Options) -> int {
    clamp_i64(
        info.start_s + ((info.canvas.min_x - info.spec_origin_x()
            - options.sideways_pan_in_points - 1) * options.canvas_width_s)
            / info.spec_usable_width() - 1,
    )
}

/// The multiple of `spacing` from which the lines of the grid are told: the
/// last one at or before the guessed second, where that one is displayed left
/// of the canvas and not right of it; else 0.
pub open spec fn spec_first_tick(info: Info, options: Options, spacing: int) -> int {
    let guess = tick_guess(info, options);
    let candidate = (guess / spacing) * spacing;
    if guess < spacing {
        0
    } else if info.spec_point_from_s(options, candidate as i64) < info.canvas.min_x
        && info.spec_point_from_s(options, candidate as i64) <= info.canvas.max_x {
        candidate
    } else {
        0
    }
}

/// A multiple of `spacing` from which the lines of the grid can be told: 0,
/// or a later one that is displayed left of the canvas.
fn first_tick(info: &Info, options: &Options, spacing: i64) -> (from: i64)
    requires
        options.canvas_width_s > 0,
        0 < spacing <= 180_000_000_000,
    ensures
        from == spec_first_tick(*info, *options, spacing as int),
        from >= 0,
        from % spacing == 0,
        from > 0 ==> info.spec_point_from_s(*options, from) < info.canvas.min_x,
        ticks_from(*info, *options, spacing as int, from as int) == ticks_from(
            *info,
            *options,
            spacing as int,
            0,
        ),
{
    let usable = info.usable_width() as i128;
    let away: i128 = info.canvas.min_x as i128 - (info.canvas.min_x as i128
        + info.gutter_width as i128 + options.sideways_pan_in_points as i128) - 1;
    assert(-0x2_0000_0000_0000_0000_0000_0000 <= away * options.canvas_width_s
        <= 0x2_0000_0000_0000_0000_0000_0000) by (nonlinear_arith)
        requires
            -0x2_0000_0000_0000_0000 <= away <= 0x2_0000_0000_0000_0000,
            0 <= options.canvas_width_s <= 0xffff_ffff,
    ;
    let back: i128 = div_floor(away * options.canvas_width_s as i128, usable);
    proof {
        let n = (away * options.canvas_width_s) as int;
        vstd::arithmetic::div_mod::lemma_fundamental_div_mod(n, usable as int);
        vstd::arithmetic::div_mod::lemma_mod_bound(n, usable as int);
        assert(-0x2_0000_0000_0000_0000_0000_0001 <= back <= 0x2_0000_0000_0000_0000_0000_0000)
            by (nonlinear_arith)
            requires
                n == usable * back + (n % usable as int),
                0 <= (n % usable as int) < usable,
                usable >= 1,
                -0x2_0000_0000_0000_0000_0000_0000 <= n <= 0x2_0000_0000_0000_0000_0000_0000,
        ;
    }
    let guess = clamp_to_i64(info.start_s as i128 + back - 1);
    if guess < spacing {
        return 0;
    }
    let steps: i64 = guess / spacing;
    proof {
        let rest = guess as int % spacing as int;
        vstd::arithmetic::div_mod::lemma_fundamental_div_mod(guess as int, spacing as int);
        vstd::arithmetic::div_mod::lemma_mod_bound(guess as int, spacing as int);
        assert(0 <= steps * spacing <= guess) by (nonlinear_arith)
            requires
                guess == spacing * steps + rest,
                0 <= rest < spacing,
                guess >= spacing,
        ;
        vstd::arithmetic::div_mod::lemma_mod_multiples_basic(steps as int, spacing as int);
    }
    let from: i64 = steps * spacing;
    let x = info.point_from_s(options, from);
    if x < info.canvas.min_x && x <= info.canvas.max_x {
        proof {
            lemma_ticks_skip(*info, *options, spacing as int, 0, steps as nat);
        }
        from
    } else {
        0
    }
}

/// The lines of the grid: one at every multiple of `spacing` seconds since
/// the epoch that is displayed within the canvas, from left to right.
pub fn timeline_ticks(info: &Info, options: &Options, spacing: i64) -> (ticks: Vec<Tick>)
    requires
        options.canvas_width_s > 0,
        0 < spacing <= 180_000_000_000,
    ensures
        ticks@ == ticks_from(*info, *options, spacing as int, 0),
{
    let mut ticks: Vec<Tick> = Vec::new();
    let mut second: i64 = first_tick(info, options, spacing);
    let ghost all = ticks_from(*info, *options, spacing as int, 0);
    proof {
        assert(ticks@ + all =~= all);
    }
    loop
        invariant_except_break
            0 <= second,
            ticks@ + ticks_from(*info, *options, spacing as int, second as int) == all,
        invariant
            options.canvas_width_s > 0,
            0 < spacing <= 180_000_000_000,
            all == ticks_from(*info, *options, spacing as int, 0),
        ensures
            ticks@ == all,
        decreases i64::MAX - second,
    {
        let x = info.point_from_s(options, second);
        let ghost rest = ticks_from(*info, *options, spacing as int, second as int);
        if x > info.canvas.max_x {
            proof {
                assert(ticks@ + rest =~= ticks@);
            }
            break ;
        }
        if x >= info.canvas.min_x {
            let level = if second as i128 % (spacing as i128 * 20) == 0 {
                TickLevel::Big
            } else if second as i128 % (spacing as i128 * 10) == 0 {
                TickLevel::Medium
            } else {
                TickLevel::Tiny
            };
            let ghost before = ticks@;
            ticks.push(Tick { second: second, x: x, level: level });
            proof {
                let next: Seq<Tick> = if second + spacing > i64::MAX {
                    Seq::empty()
                } else {
                    ticks_from(*info, *options, spacing as int, second + spacing)
                };
                assert(ticks@ + next =~= before + rest);
            }
        }
        match second.checked_add(spacing) {
            Some(next) => {
                second = next;
            },
            None => {
                proof {
                    assert(ticks@ + Seq::<Tick>::empty() =~= ticks@);
                }
                break ;
            },
        }
    }
    ticks
}

/// The lines of the grid for the camera of `options`: those of the grid with
/// the spacing that fits; none while the span in view is not set.
pub fn paint_timeline(info: &Info, options: &Options) -> (ticks: Vec<Tick>)
    ensures
        ticks@ == if options.canvas_width_s == 0 {
            Seq::<Tick>::empty()
        } else {
            ticks_from(
                *info,
                *options,
                spec_grid_spacing(*options, info.spec_usable_width()),
                0,
            )
        },
{
    if options.canvas_width_s == 0 {
        Vec::new()
    } else {
        timeline_ticks(info, options, grid_spacing(options, info))
    }
}

/// Where the line of the present stands.
pub fn current_time_x(info: &Info, options: &Options, now_s: i64) -> (x: i64)
    requires
        options.canvas_width_s > 0,
    ensures
        x == info.spec_point_from_s(*options, now_s),
{
    info.point_from_s(options, now_s)
}

/// The label of the line at the second `ts`, given the date and time of
/// that second as the reader's clock would show them, if the calendar reaches
/// that far.
pub open spec fn spec_grid_label(ts: i64, local: Option<Seq<char>>) -> Seq<char> {
    if ts == 0 {
        "N/A"@
    } else {
        match local {
            Some(text) => text,
            None => "Invalid timestamp"@,
        }
    }
}

/// The label of the line at the second `ts`: `N/A` for the epoch itself,
/// else the date and time `local` of that second, or `Invalid timestamp`
/// where the calendar does not reach that far.
pub fn grid_label(ts: i64, local: Option<String>) -> (label: String)
    ensures
        label@ == spec_grid_label(ts, crate::labels::text_of(local)),
{
    if ts == 0 {
        "N/A".to_owned()
    } else {
        match local {
            Some(text) => text,
            None => "Invalid timestamp".to_owned(),
        }
    }
}

/// The label of a time of day: the text `local`, or a question mark where
/// the calendar does not reach that far.
pub fn time_label(local: Option<String>) -> (label: String)
    ensures
        label@ == match local {
            Some(text) => text@,
            None => "?"@,
        },
{
    match local {
        Some(text) => text,
        None => "?".to_owned(),
    }
}

} // verus!
