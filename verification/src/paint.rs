//! Painting one job: its bar, the hatching of its row, and what the pointer
//! does to it.

use crate::geometry::{clamp_i64, max_i64, max_int, sat_add, sat_sub, Pos, Rect};
use crate::job::{has_id, Job};
use crate::topology::ResourceState;
use crate::transform::{Info, Input, Options, RowLabel};
use vstd::prelude::*;

verus! {

/// What became of a job in a frame.
#[derive(Clone, Copy, Debug, PartialEq, Eq, Structural)]
pub enum PaintResult {
    /// Too narrow, or out of view: nothing was painted, nothing can be hit.
    Culled,
    Painted,
    Hovered,
}

/// One thing to paint. The commands of a frame are painted in their order.
#[derive(Clone, Copy, Debug, PartialEq, Eq, Structural)]
pub enum PaintCommand {
    /// A line across the canvas at the height `y`, above a group of the level
    /// `level`.
    Separator { level: u8, y: i64 },
    /// The label of the group `row`; `pos.y` is the middle of its line.
    Header { level: u8, row: RowLabel, pos: Pos },
    /// The bar of the job at `job` in the list of jobs, already cut to the
    /// chart.
    Bar { job: usize, rect: Rect, rounding: u32, hovered: bool },
    /// Hatching over the row of a resource that is dead or absent; `rect` is
    /// the hatched area before it is cut to the chart.
    Hatch { state: ResourceState, rect: Rect, hovered: bool },
    /// The cell of the host `row` in the gutter with columns.
    GutterHost { row: RowLabel, rect: Rect },
    /// The cell of the cluster at `group` in the gutter with columns, from
    /// `top` to `bottom`.
    GutterCluster { group: usize, top: i64, bottom: i64 },
    /// The cell of a site in the gutter with columns, from `top` to
    /// `bottom`; `group` is the first cluster of the site.
    GutterSite { group: usize, top: i64, bottom: i64 },
    /// The mark beside the section of the group at `group`, from `top` to
    /// `bottom`, while the pointer is in it.
    SectionMarker { group: usize, top: i64, bottom: i64 },
}

/// What painting changes: the camera and the hover fields, the jobs whose
/// details are open, and the commands of the frame.
pub struct PaintState {
    pub options: Options,
    pub details: Seq<u32>,
    pub commands: Seq<PaintCommand>,
}

/// The part of the canvas right of the gutter.
pub open spec fn spec_chart_clip(info: Info) -> Rect {
    Rect {
        min_x: clamp_i64(info.canvas.min_x + info.gutter_width) as i64,
        min_y: info.canvas.min_y,
        max_x: info.canvas.max_x,
        max_y: info.canvas.max_y,
    }
}

/// Width of the bar of `job`: the distance between the positions of its
/// start and of its end.
pub open spec fn job_width(info: Info, options: Options, job: Job) -> int {
    clamp_i64(
        info.spec_point_from_s(options, job.spec_effective_end() as i64) - info.spec_point_from_s(
            options,
            job.scheduled_start,
        ),
    )
}

/// Height of a line of jobs with the space below it.
pub open spec fn line_height(info: Info, options: Options) -> int {
    max_int(options.rect_height as int, info.text_height as int) + (if options.compact_rows {
        0int
    } else {
        5int
    }) + options.spacing
}

/// Height of a bar: that of a job, or, where rows are squashed, that of the
/// whole line with the header of the group.
pub open spec fn bar_height(info: Info, options: Options, aggregation_height: u32) -> int {
    if options.squash_resources {
        line_height(info, options) + aggregation_height
    } else {
        options.rect_height as int
    }
}

/// Top of a bar in the row that starts at `top_y`.
pub open spec fn bar_top(options: Options, top_y: i64, aggregation_height: u32) -> int {
    if options.squash_resources {
        clamp_i64(top_y - aggregation_height)
    } else {
        top_y as int
    }
}

/// The bar of `job` in the row that starts at `top_y`, before it is cut to
/// the chart.
pub open spec fn job_rect(
    info: Info,
    options: Options,
    job: Job,
    top_y: i64,
    aggregation_height: u32,
) -> Rect {
    let x = info.spec_point_from_s(options, job.scheduled_start);
    let y = bar_top(options, top_y, aggregation_height);
    Rect {
        min_x: x as i64,
        min_y: y as i64,
        max_x: clamp_i64(x + max_int(job_width(info, options, job), options.min_width as int)) as i64,
        max_y: clamp_i64(y + bar_height(info, options, aggregation_height)) as i64,
    }
}

/// The part of the bar of `job` that lies in the chart.
pub open spec fn visible_rect(
    info: Info,
    options: Options,
    job: Job,
    top_y: i64,
    aggregation_height: u32,
) -> Rect {
    job_rect(info, options, job, top_y, aggregation_height).spec_intersect(spec_chart_clip(info))
}

/// Whether the pointer is over the canvas and in `rect`.
pub open spec fn pointer_in(input: Input, rect: Rect) -> bool {
    match input.hover_pos {
        Some(p) => rect.spec_contains(p),
        None => false,
    }
}

/// Whether `job` gets a bar: it is wide enough and part of it is in view.
pub open spec fn job_painted(
    info: Info,
    options: Options,
    job: Job,
    top_y: i64,
    aggregation_height: u32,
) -> bool {
    job_width(info, options, job) >= options.cull_width && !visible_rect(
        info,
        options,
        job,
        top_y,
        aggregation_height,
    ).spec_is_negative()
}

/// Whether the bar of `job` is shown as hovered: the pointer is on it, or
/// the job is the hovered one of this frame or of the frame before.
pub open spec fn job_hovered(
    info: Info,
    input: Input,
    options: Options,
    job: Job,
    top_y: i64,
    aggregation_height: u32,
) -> bool {
    pointer_in(input, visible_rect(info, options, job, top_y, aggregation_height))
        || options.current_hovered_job == Some(job.id) || options.previous_hovered_job == Some(
        job.id,
    )
}

/// The hatched area over the row of a resource in the state `state`: the
/// whole width of the canvas for a dead one, up to the present for an absent
/// one.
pub open spec fn hatch_rect(
    info: Info,
    input: Input,
    options: Options,
    top_y: i64,
    aggregation_height: u32,
    state: ResourceState,
) -> Rect {
    let y = bar_top(options, top_y, aggregation_height);
    Rect {
        min_x: info.canvas.min_x,
        min_y: y as i64,
        max_x: if state == ResourceState::Dead {
            info.canvas.max_x
        } else {
            info.spec_point_from_s(options, input.now_s) as i64
        },
        max_y: clamp_i64(y + bar_height(info, options, aggregation_height)) as i64,
    }
}

/// Whether rows of a resource in the state `state` are hatched.
pub open spec fn is_hatched(state: ResourceState) -> bool {
    state == ResourceState::Dead || state == ResourceState::Absent
}

/// The window of time of `job` relative to the start of the chart's window.
pub open spec fn job_relative_range(info: Info, job: Job) -> (i64, i64) {
    (
        clamp_i64(job.scheduled_start - info.start_s) as i64,
        clamp_i64(job.spec_effective_end() - info.start_s) as i64,
    )
}

/// The camera and the hover fields after `job` was painted.
pub open spec fn options_after_job(
    options: Options,
    info: Info,
    input: Input,
    job: Job,
    top_y: i64,
    state: ResourceState,
    aggregation_height: u32,
    label: Option<RowLabel>,
) -> Options {
    if !job_painted(info, options, job, top_y, aggregation_height) {
        options
    } else {
        let on_bar = pointer_in(input, visible_rect(info, options, job, top_y, aggregation_height));
        let hovered = job_hovered(info, input, options, job, top_y, aggregation_height);
        let on_hatch = is_hatched(state) && pointer_in(
            input,
            hatch_rect(info, input, options, top_y, aggregation_height, state).spec_intersect(
                spec_chart_clip(info),
            ),
        );
        Options {
            current_hovered_job: if on_bar && options.current_hovered_job is None {
                Some(job.id)
            } else {
                options.current_hovered_job
            },
            zoom_to_relative_s_range: if hovered && input.clicked {
                Some((input.time_ms, job_relative_range(info, job)))
            } else {
                options.zoom_to_relative_s_range
            },
            current_hovered_resource_state: if on_hatch {
                Some(state)
            } else {
                options.current_hovered_resource_state
            },
            current_hovered_resource_label: if on_hatch && label is Some {
                label
            } else {
                options.current_hovered_resource_label
            },
            ..options
        }
    }
}

/// The jobs whose details are open after `job` was painted: a secondary
/// click on a hovered job opens its details, once.
pub open spec fn details_after_job(
    details: Seq<u32>,
    options: Options,
    info: Info,
    input: Input,
    job: Job,
    top_y: i64,
    aggregation_height: u32,
) -> Seq<u32> {
    if job_painted(info, options, job, top_y, aggregation_height) && job_hovered(
        info,
        input,
        options,
        job,
        top_y,
        aggregation_height,
    ) && input.secondary_clicked && !details.contains(job.id) {
        details.push(job.id)
    } else {
        details
    }
}

/// The commands that paint `job`: its bar and, in the row of a dead or
/// absent resource, the hatching; none where the job is culled.
pub open spec fn job_commands(
    options: Options,
    info: Info,
    input: Input,
    job: Job,
    index: usize,
    top_y: i64,
    state: ResourceState,
    aggregation_height: u32,
) -> Seq<PaintCommand> {
    if !job_painted(info, options, job, top_y, aggregation_height) {
        Seq::empty()
    } else {
        let bar = PaintCommand::Bar {
            job: index,
            rect: visible_rect(info, options, job, top_y, aggregation_height),
            rounding: if options.squash_resources {
                0
            } else {
                options.rounding
            },
            hovered: job_hovered(info, input, options, job, top_y, aggregation_height),
        };
        if is_hatched(state) {
            let area = hatch_rect(info, input, options, top_y, aggregation_height, state);
            seq![
                bar,
                PaintCommand::Hatch {
                    state: state,
                    rect: area,
                    hovered: pointer_in(input, area.spec_intersect(spec_chart_clip(info))),
                },
            ]
        } else {
            seq![bar]
        }
    }
}

/// The state of the frame after `job` was painted in the row that starts at
/// `top_y`.
pub open spec fn spec_paint_job(
    st: PaintState,
    info: Info,
    input: Input,
    job: Job,
    index: usize,
    top_y: i64,
    state: ResourceState,
    aggregation_height: u32,
    label: Option<RowLabel>,
) -> PaintState {
    PaintState {
        options: options_after_job(
            st.options,
            info,
            input,
            job,
            top_y,
            state,
            aggregation_height,
            label,
        ),
        details: details_after_job(
            st.details,
            st.options,
            info,
            input,
            job,
            top_y,
            aggregation_height,
        ),
        commands: st.commands + job_commands(
            st.options,
            info,
            input,
            job,
            index,
            top_y,
            state,
            aggregation_height,
        ),
    }
}

/// What became of `job`.
pub open spec fn spec_paint_result(
    options: Options,
    info: Info,
    input: Input,
    job: Job,
    top_y: i64,
    aggregation_height: u32,
) -> PaintResult {
    if !job_painted(info, options, job, top_y, aggregation_height) {
        PaintResult::Culled
    } else if job_hovered(info, input, options, job, top_y, aggregation_height) {
        PaintResult::Hovered
    } else {
        PaintResult::Painted
    }
}

/// The part of the canvas right of the gutter.
pub fn chart_clip(info: &Info) -> (clip: Rect)
    ensures
        clip == spec_chart_clip(*info),
{
    Rect {
        min_x: sat_add(info.canvas.min_x, info.gutter_width as i64),
        min_y: info.canvas.min_y,
        max_x: info.canvas.max_x,
        max_y: info.canvas.max_y,
    }
}

/// Whether the pointer is over the canvas and in `rect`.
pub fn is_pointer_in(input: &Input, rect: Rect) -> (inside: bool)
    ensures
        inside == pointer_in(*input, rect),
{
    match input.hover_pos {
        Some(p) => rect.contains(p),
        None => false,
    }
}

/// Whether `hovered` names the job with the id `id`.
fn names_job(hovered: Option<u32>, id: u32) -> (same: bool)
    ensures
        same == (hovered == Some(id)),
{
    match hovered {
        Some(other) => other == id,
        None => false,
    }
}

/// Paints `job` in the row that starts at `top_y`.
///
/// A job whose bar is narrower than `cull_width`, or of which nothing lies in
/// the chart, is culled: it adds no command and changes nothing. Otherwise
/// its bar is added, cut to the chart, with the hatching of a row whose
/// resource is dead or absent. The first job with the pointer on its bar
/// becomes the hovered job of the frame. A click on a hovered job starts a
/// zoom to it, a secondary click opens its details.
pub fn paint_job(
    info: &Info,
    input: &Input,
    options: &mut Options,
    job: &Job,
    index: usize,
    top_y: i64,
    details: &mut Vec<u32>,
    commands: &mut Vec<PaintCommand>,
    state: ResourceState,
    aggregation_height: u32,
    label: Option<RowLabel>,
) -> (result: PaintResult)
    requires
        old(options).canvas_width_s > 0,
    ensures
        (PaintState { options: *final(options), details: final(details)@, commands: final(commands)@ })
            == spec_paint_job(
            PaintState { options: *old(options), details: old(details)@, commands: old(commands)@ },
            *info,
            *input,
            *job,
            index,
            top_y,
            state,
            aggregation_height,
            label,
        ),
        result == spec_paint_result(*old(options), *info, *input, *job, top_y, aggregation_height),
        job_width(*info, *old(options), *job) < old(options).cull_width ==> result
            == PaintResult::Culled && *final(options) == *old(options) && final(details)@ == old(
            details,
        )@ && final(commands)@ == old(commands)@,
{
    let ghost before = *options;
    let ghost commands_before = commands@;
    let clip = chart_clip(info);
    let start_x = info.point_from_s(options, job.scheduled_start);
    let end = job.effective_end();
    let end_x = info.point_from_s(options, end);
    let width = sat_sub(end_x, start_x);
    if width < options.cull_width as i64 {
        proof {
            assert(commands@ =~= commands_before + Seq::<PaintCommand>::empty());
        }
        return PaintResult::Culled;
    }
    let line: i64 = max_i64(options.rect_height as i64, info.text_height as i64) + (
    if options.compact_rows {
        0
    } else {
        5
    }) + options.spacing as i64;
    let height: i64 = if options.squash_resources {
        line + aggregation_height as i64
    } else {
        options.rect_height as i64
    };
    let rounding: u32 = if options.squash_resources {
        0
    } else {
        options.rounding
    };
    let top: i64 = if options.squash_resources {
        sat_sub(top_y, aggregation_height as i64)
    } else {
        top_y
    };
    let rect = Rect {
        min_x: start_x,
        min_y: top,
        max_x: sat_add(start_x, max_i64(width, options.min_width as i64)),
        max_y: sat_add(top, height),
    };
    assert(rect == job_rect(*info, before, *job, top_y, aggregation_height));
    let visible = rect.intersect(clip);
    if visible.is_negative() {
        proof {
            assert(commands@ =~= commands_before + Seq::<PaintCommand>::empty());
        }
        return PaintResult::Culled;
    }
    let on_bar = is_pointer_in(input, visible);
    let hovered = on_bar || names_job(options.current_hovered_job, job.id) || names_job(
        options.previous_hovered_job,
        job.id,
    );
    if on_bar && options.current_hovered_job.is_none() {
        options.current_hovered_job = Some(job.id);
    }
    if hovered && input.secondary_clicked {
        if !has_id(details.as_slice(), job.id) {
            details.push(job.id);
        }
    }
    if hovered && input.clicked {
        options.zoom_to_relative_s_range = Some(
            (
                input.time_ms,
                (sat_sub(job.scheduled_start, info.start_s), sat_sub(end, info.start_s)),
            ),
        );
    }
    commands.push(PaintCommand::Bar { job: index, rect: visible, rounding: rounding, hovered: hovered });
    if state == ResourceState::Dead || state == ResourceState::Absent {
        let until: i64 = if state == ResourceState::Dead {
            info.canvas.max_x
        } else {
            info.point_from_s(options, input.now_s)
        };
        let area = Rect { min_x: info.canvas.min_x, min_y: top, max_x: until, max_y: rect.max_y };
        assert(area == hatch_rect(*info, *input, before, top_y, aggregation_height, state));
        let on_hatch = is_pointer_in(input, area.intersect(clip));
        commands.push(PaintCommand::Hatch { state: state, rect: area, hovered: on_hatch });
        if on_hatch {
            options.current_hovered_resource_state = Some(state);
            if label.is_some() {
                options.current_hovered_resource_label = label;
            }
        }
    }
    proof {
        assert(commands@ =~= commands_before + job_commands(
            before,
            *info,
            *input,
            *job,
            index,
            top_y,
            state,
            aggregation_height,
        ));
    }
    if hovered {
        PaintResult::Hovered
    } else {
        PaintResult::Painted
    }
}

} // verus!
