//! One frame of the chart: the jobs are aggregated, the groups laid out from
//! the top of the canvas down, and the hover fields handed over to the next
//! frame.

use crate::aggregate::{aggregate, contributions, filter_clusters, AggregateBy};
use crate::culling::{
    culling_holds, hovered_after, is_wide_bar, lemma_culling_level_1, lemma_culling_level_2,
};
use crate::geometry::{clamp_i64, max_int, min_int, sat_add};
use crate::groups::{
    first_level, groups_of, groups_view, lemma_groups_within, lemma_second_level_within,
    nested_groups_of, nested_view, GroupView, NestedView, OrderedGroups,
};
use crate::interaction::with_camera;
use crate::job::Job;
use crate::layout::{paint_aggregated_jobs_level_1, spec_level_1};
use crate::nested_layout::{paint_aggregated_jobs_level_2, spec_level_2};
use crate::paint::{PaintCommand, PaintState};
use crate::topology::{Cluster, ResourceState};
use crate::transform::{Info, Input, Options, RowLabel};
use vstd::prelude::*;

verus! {

/// What one frame came to.
#[derive(Clone, Debug)]
pub struct Frame {
    /// The groups that were laid out, in display order.
    pub groups: OrderedGroups,
    /// What is to be painted, in order.
    pub commands: Vec<PaintCommand>,
    /// The height below the last row.
    pub bottom: i64,
    /// Id of the job under the pointer.
    pub hovered_job: Option<u32>,
    /// State of the resource whose hatching is under the pointer.
    pub hovered_resource_state: Option<ResourceState>,
    /// The row of that hatching.
    pub hovered_resource_label: Option<RowLabel>,
}

/// The content of the groups of a frame.
pub enum GroupsView {
    OneLevel(Seq<GroupView>),
    TwoLevel(Seq<NestedView>),
}

/// The content of ordered groups.
pub open spec fn ordered_view(groups: OrderedGroups) -> GroupsView {
    match groups {
        OrderedGroups::OneLevel(flat) => GroupsView::OneLevel(groups_view(flat@)),
        OrderedGroups::TwoLevel(nested) => GroupsView::TwoLevel(nested_view(nested@)),
    }
}

/// Whether `groups` is the aggregation of `jobs` along the axes `by`.
pub open spec fn is_aggregation(
    groups: GroupsView,
    jobs: Seq<Job>,
    by: AggregateBy,
    filter: Seq<Cluster>,
    topology: Seq<Cluster>,
) -> bool {
    match groups {
        GroupsView::OneLevel(flat) => !by.spec_two_levels() && groups_of(
            flat,
            first_level(contributions(jobs, jobs.len() as int, by, filter, topology)),
        ),
        GroupsView::TwoLevel(nested) => by.spec_two_levels() && nested_groups_of(
            nested,
            contributions(jobs, jobs.len() as int, by, filter, topology),
        ),
    }
}

/// The span of time that a camera not set yet starts with: the window of
/// time, at least one second and at most what a `u32` holds.
pub open spec fn window_width(info: Info) -> int {
    min_int(max_int(info.stop_s - info.start_s, 1), u32::MAX as int)
}

/// The options as a frame starts with them: a span in view that is not set
/// yet is set to the window of time, which ends an animated zoom.
pub open spec fn prepared(options: Options, info: Info) -> Options {
    if options.canvas_width_s == 0 {
        with_camera(options, window_width(info) as u32, options.sideways_pan_in_points, None)
    } else {
        options
    }
}

/// The height at which the first group is laid out: one line of text below
/// the top of the canvas.
pub open spec fn first_cursor(info: Info) -> i64 {
    clamp_i64(info.canvas.min_y + info.text_height) as i64
}

/// The options as a frame leaves them: the hovered job of the frame becomes
/// that of the frame before, and the hover fields are empty again.
pub open spec fn handed_over(options: Options) -> Options {
    Options {
        previous_hovered_job: options.current_hovered_job,
        current_hovered_job: None,
        current_hovered_resource_state: None,
        current_hovered_resource_label: None,
        ..options
    }
}

/// The state of the frame and the cursor after `groups` were laid out from
/// the first cursor down. Groups by host and host again are not laid out.
pub open spec fn spec_canvas(
    st: PaintState,
    groups: GroupsView,
    jobs: Seq<Job>,
    info: Info,
    input: Input,
    topology: Seq<Cluster>,
    by: AggregateBy,
) -> (PaintState, i64) {
    match groups {
        GroupsView::OneLevel(flat) => {
            let laid = spec_level_1(
                st,
                first_cursor(info),
                flat,
                jobs,
                info,
                input,
                topology,
                by.level_1,
            );
            (laid.paint, laid.cursor)
        },
        GroupsView::TwoLevel(nested) => if by.spec_is_valid() {
            let laid = spec_level_2(st, first_cursor(info), nested, jobs, info, input, topology, by);
            (laid.paint, laid.cursor)
        } else {
            (st, first_cursor(info))
        },
    }
}

/// Sets a span in view that is not set yet to the window of time.
pub fn prepare(options: &mut Options, info: &Info)
    ensures
        *final(options) == prepared(*old(options), *info),
        final(options).canvas_width_s > 0,
{
    if options.canvas_width_s == 0 {
        let length: i128 = info.stop_s as i128 - info.start_s as i128;
        options.canvas_width_s =
        if length < 1 {
            1
        } else if length > u32::MAX as i128 {
            u32::MAX
        } else {
            length as u32
        };
        options.zoom_to_relative_s_range = None;
    }
}

/// Paints one frame of the chart.
///
/// The jobs are aggregated along the axes of the options and the groups laid
/// out from one line of text below the top of the canvas. The frame holds the
/// groups, the commands that paint them, the height below the last row and
/// what the pointer is over. The options keep the camera, with a span in view
/// that is set, and the hovered job of this frame as that of the frame
/// before; `details` gains the jobs whose details a secondary click opened.
pub fn ui_canvas(
    options: &mut Options,
    jobs: &[Job],
    filter: Option<&[Cluster]>,
    info: &Info,
    input: &Input,
    details: &mut Vec<u32>,
    topology: &[Cluster],
) -> (frame: Frame)
    ensures
        is_aggregation(
            ordered_view(frame.groups),
            jobs@,
            old(options).aggregate_by,
            filter_clusters(filter),
            topology@,
        ),
        ({
            let laid = spec_canvas(
                PaintState {
                    options: prepared(*old(options), *info),
                    details: old(details)@,
                    commands: Seq::empty(),
                },
                ordered_view(frame.groups),
                jobs@,
                *info,
                *input,
                topology@,
                old(options).aggregate_by,
            );
            &&& *final(options) == handed_over(laid.0.options)
            &&& final(details)@ == laid.0.details
            &&& frame.commands@ == laid.0.commands
            &&& frame.bottom == laid.1
            &&& frame.hovered_job == laid.0.options.current_hovered_job
            &&& frame.hovered_resource_state == laid.0.options.current_hovered_resource_state
            &&& frame.hovered_resource_label == laid.0.options.current_hovered_resource_label
        }),
        forall|i: int|
            0 <= i < frame.commands@.len() ==> is_wide_bar(
                #[trigger] frame.commands@[i],
                jobs@,
                *info,
                prepared(*old(options), *info),
            ),
        frame.hovered_job == hovered_after(
            old(options).current_hovered_job,
            frame.commands@,
            jobs@,
            *input,
        ),
        final(options).canvas_width_s > 0,
        final(options).canvas_width_s == prepared(*old(options), *info).canvas_width_s,
        final(options).sideways_pan_in_points == old(options).sideways_pan_in_points,
        final(options).aggregate_by == old(options).aggregate_by,
        frame.bottom >= first_cursor(*info),
{
    prepare(options, info);
    let by = options.aggregate_by;
    let groups = aggregate(jobs, by, filter, topology);
    let mut commands: Vec<PaintCommand> = Vec::new();
    let top = sat_add(info.canvas.min_y, info.text_height as i64);
    let ghost base = *options;
    let ghost first = options.current_hovered_job;
    let ghost start = PaintState { options: base, details: details@, commands: Seq::empty() };
    proof {
        assert(culling_holds(start, first, base, jobs@, *info, *input));
    }
    let ghost all = contributions(
        jobs@,
        jobs@.len() as int,
        by,
        filter_clusters(filter),
        topology@,
    );
    let bottom = match &groups {
        OrderedGroups::OneLevel(flat) => {
            proof {
                assert forall|e: int| 0 <= e < first_level(all).len() implies (
                #[trigger] first_level(all)[e]).job < jobs@.len() by {
                    assert(all[e].job < jobs@.len());
                }
                lemma_groups_within(groups_view(flat@), first_level(all), jobs@.len() as int);
                lemma_culling_level_1(
                    start,
                    first,
                    base,
                    top,
                    groups_view(flat@),
                    jobs@,
                    *info,
                    *input,
                    topology@,
                    by.level_1,
                );
            }
            paint_aggregated_jobs_level_1(
                info,
                input,
                options,
                jobs,
                flat,
                top,
                details,
                &mut commands,
                topology,
                by.level_1,
            )
        },
        OrderedGroups::TwoLevel(nested) => {
            if by.is_valid() {
                proof {
                    let views = nested_view(nested@);
                    assert forall|n: int, g: int, k: int|
                        0 <= n < views.len() && 0 <= g < views[n].groups.len() && 0 <= k
                            < views[n].groups[g].jobs.len() implies (
                    #[trigger] views[n].groups[g].jobs[k]) < jobs@.len() by {
                        lemma_second_level_within(all, views[n].key, jobs@.len() as int);
                        lemma_groups_within(
                            views[n].groups,
                            crate::groups::second_level(all, views[n].key),
                            jobs@.len() as int,
                        );
                    }
                    lemma_culling_level_2(
                        start,
                        first,
                        base,
                        top,
                        views,
                        jobs@,
                        *info,
                        *input,
                        topology@,
                        by,
                    );
                }
                paint_aggregated_jobs_level_2(
                    info,
                    input,
                    options,
                    jobs,
                    nested,
                    top,
                    details,
                    &mut commands,
                    topology,
                    by,
                )
            } else {
                top
            }
        },
    };
    proof {
        let painted = PaintState { options: *options, details: details@, commands: commands@ };
        assert(culling_holds(painted, first, base, jobs@, *info, *input));
        assert forall|i: int| 0 <= i < commands@.len() implies is_wide_bar(
            #[trigger] commands@[i],
            jobs@,
            *info,
            base,
        ) by {
            assert(painted.commands[i] == commands@[i]);
        }
    }
    let hovered_job = options.current_hovered_job;
    let hovered_resource_state = options.current_hovered_resource_state;
    let hovered_resource_label = options.current_hovered_resource_label;
    options.previous_hovered_job = hovered_job;
    options.current_hovered_job = None;
    options.current_hovered_resource_state = None;
    options.current_hovered_resource_label = None;
    Frame {
        groups: groups,
        commands: commands,
        bottom: bottom,
        hovered_job: hovered_job,
        hovered_resource_state: hovered_resource_state,
        hovered_resource_label: hovered_resource_label,
    }
}

} // verus!
