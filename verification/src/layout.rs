//! Layout of the groups of one level: a cursor walks down the canvas, group
//! by group and row by row, and leaves the commands that paint them.

use crate::aggregate::AggregateByLevel1Enum;
use crate::geometry::{clamp_i64, lemma_clamp_add_twice, max_int, sat_add, Pos};
use crate::groups::{groups_view, GroupView, JobGroup};
use crate::job::Job;
use crate::paint::{paint_job, spec_paint_job, PaintCommand, PaintState};
use crate::text::{is_blank, trimmed};
use crate::topology::{
    get_cluster_state_from_name, get_host_state_from_name, spec_cluster_state, spec_host_state,
    Cluster, ResourceState,
};
use crate::transform::{Info, Input, Options, RowLabel};
use vstd::prelude::*;

verus! {

/// Where the layout stands: the state of the frame, the cursor, and the
/// headers that are painted last because rows are squashed.
pub struct LayoutState {
    pub paint: PaintState,
    pub cursor: i64,
    pub deferred: Seq<PaintCommand>,
}

/// Every job of every group is a position in a list of `count` jobs.
pub open spec fn indexes_within(groups: Seq<GroupView>, count: int) -> bool {
    forall|g: int, k: int|
        0 <= g < groups.len() && 0 <= k < groups[g].jobs.len() ==> (#[trigger] groups[g].jobs[k])
            < count
}

/// Height of a row of jobs.
pub open spec fn row_height(info: Info, options: Options) -> int {
    max_int(options.rect_height as int, info.text_height as int)
}

/// How far the cursor moves down for a row of jobs.
pub open spec fn row_advance(info: Info, options: Options) -> int {
    row_height(info, options) + options.spacing
}

/// Space around the groups of the first level.
pub open spec fn spacing_level_1(info: Info, options: Options) -> int {
    if options.compact_rows {
        0
    } else {
        info.font_size as int / 4
    }
}

/// Space between the separator of a first-level group and its header.
pub open spec fn offset_level_1(options: Options) -> int {
    if options.compact_rows {
        0
    } else {
        6
    }
}

/// Height of the header of a first-level group, by which squashed bars reach
/// up, kept within a `u32`.
pub open spec fn header_height_level_1(info: Info, options: Options) -> u32 {
    let height = info.font_size + 5 + offset_level_1(options);
    if height > u32::MAX {
        u32::MAX
    } else {
        height as u32
    }
}

/// State of the resource that the rows of a first-level group stand for:
/// that of the host or cluster named `key`; owners are alive.
pub open spec fn row_state_level_1(
    axis: AggregateByLevel1Enum,
    topology: Seq<Cluster>,
    key: Seq<char>,
) -> ResourceState {
    match axis {
        AggregateByLevel1Enum::Owner => ResourceState::Alive,
        AggregateByLevel1Enum::Host => spec_host_state(topology, key),
        AggregateByLevel1Enum::Cluster => spec_cluster_state(topology, key),
    }
}

/// The row that the hatching of a first-level group names: the group, where
/// it stands for a host or cluster and its key is not blank.
pub open spec fn row_label_level_1(axis: AggregateByLevel1Enum, group: usize, key: Seq<char>) -> Option<
    RowLabel,
> {
    if axis != AggregateByLevel1Enum::Owner && trimmed(key).len() > 0 {
        Some(RowLabel::Level1(group))
    } else {
        None
    }
}

/// The state of the frame after the first `upto` jobs of `list` were painted,
/// the first in the row that starts at `top_y` and each following one
/// `advance` further down.
pub open spec fn spec_paint_jobs(
    st: PaintState,
    info: Info,
    input: Input,
    jobs: Seq<Job>,
    list: Seq<usize>,
    upto: int,
    top_y: i64,
    advance: int,
    state: ResourceState,
    aggregation_height: u32,
    label: Option<RowLabel>,
) -> PaintState
    decreases upto,
{
    if upto <= 0 {
        st
    } else {
        spec_paint_job(
            spec_paint_jobs(
                st,
                info,
                input,
                jobs,
                list,
                upto - 1,
                top_y,
                advance,
                state,
                aggregation_height,
                label,
            ),
            info,
            input,
            jobs[list[upto - 1] as int],
            list[upto - 1],
            clamp_i64(top_y + (upto - 1) * advance) as i64,
            state,
            aggregation_height,
            label,
        )
    }
}

/// Number of rows that `count` jobs take: one each, or one for all of them
/// where rows are squashed.
pub open spec fn rows_taken(options: Options, count: int) -> int {
    if !options.squash_resources {
        count
    } else if count > 0 {
        1
    } else {
        0
    }
}

/// How far a first-level group with `count` jobs moves the cursor down.
pub open spec fn group_extent_level_1(info: Info, options: Options, count: int) -> int {
    offset_level_1(options) + spacing_level_1(info, options) + rows_taken(options, count)
        * row_advance(info, options) + if options.squash_resources {
        0
    } else {
        2 * spacing_level_1(info, options)
    }
}

/// The header of the first-level group at `group`, whose separator is at the
/// height `cursor`.
pub open spec fn header_level_1(info: Info, options: Options, group: usize, cursor: i64) -> PaintCommand {
    PaintCommand::Header {
        level: 1,
        row: RowLabel::Level1(group),
        pos: Pos {
            x: clamp_i64(info.canvas.min_x + 6) as i64,
            y: clamp_i64(
                clamp_i64(cursor + offset_level_1(options)) + info.text_height as int / 2,
            ) as i64,
        },
    }
}

/// The layout after the first-level group at `group` was laid out: its
/// separator at the cursor, its header, then its jobs, each in a row of its
/// own or all in one row where rows are squashed.
pub open spec fn spec_level_1_group(
    ls: LayoutState,
    group: usize,
    key: Seq<char>,
    list: Seq<usize>,
    jobs: Seq<Job>,
    info: Info,
    input: Input,
    topology: Seq<Cluster>,
    axis: AggregateByLevel1Enum,
) -> LayoutState {
    let options = ls.paint.options;
    let header = header_level_1(info, options, group, ls.cursor);
    let separator = PaintCommand::Separator { level: 1, y: ls.cursor };
    let top_y = clamp_i64(
        ls.cursor + offset_level_1(options) + spacing_level_1(info, options),
    ) as i64;
    let opened = PaintState {
        commands: if options.squash_resources {
            ls.paint.commands.push(separator)
        } else {
            ls.paint.commands.push(separator).push(header)
        },
        ..ls.paint
    };
    LayoutState {
        paint: spec_paint_jobs(
            opened,
            info,
            input,
            jobs,
            list,
            list.len() as int,
            top_y,
            if options.squash_resources {
                0
            } else {
                row_advance(info, options)
            },
            row_state_level_1(axis, topology, key),
            header_height_level_1(info, options),
            row_label_level_1(axis, group, key),
        ),
        cursor: clamp_i64(ls.cursor + group_extent_level_1(info, options, list.len() as int)) as i64,
        deferred: if options.squash_resources {
            ls.deferred.push(header)
        } else {
            ls.deferred
        },
    }
}

/// The layout after the first `upto` first-level groups were laid out.
pub open spec fn spec_level_1_groups(
    ls: LayoutState,
    groups: Seq<GroupView>,
    upto: int,
    jobs: Seq<Job>,
    info: Info,
    input: Input,
    topology: Seq<Cluster>,
    axis: AggregateByLevel1Enum,
) -> LayoutState
    decreases upto,
{
    if upto <= 0 {
        ls
    } else {
        spec_level_1_group(
            spec_level_1_groups(ls, groups, upto - 1, jobs, info, input, topology, axis),
            (upto - 1) as usize,
            groups[upto - 1].key,
            groups[upto - 1].jobs,
            jobs,
            info,
            input,
            topology,
            axis,
        )
    }
}

/// The layout of all groups of one level, from the cursor `cursor_y` down:
/// the space above the first group, the groups in their order, and last the
/// headers that squashed rows deferred.
pub open spec fn spec_level_1(
    st: PaintState,
    cursor_y: i64,
    groups: Seq<GroupView>,
    jobs: Seq<Job>,
    info: Info,
    input: Input,
    topology: Seq<Cluster>,
    axis: AggregateByLevel1Enum,
) -> LayoutState {
    let start = LayoutState {
        paint: st,
        cursor: clamp_i64(cursor_y + spacing_level_1(info, st.options)) as i64,
        deferred: Seq::empty(),
    };
    let done = spec_level_1_groups(
        start,
        groups,
        groups.len() as int,
        jobs,
        info,
        input,
        topology,
        axis,
    );
    LayoutState {
        paint: PaintState { commands: done.paint.commands + done.deferred, ..done.paint },
        cursor: done.cursor,
        deferred: Seq::empty(),
    }
}

/// What of the options the layout reads: everything but the hover fields and
/// the animated zoom, which painting a job may set.
pub open spec fn same_layout(a: Options, b: Options) -> bool {
    &&& a.canvas_width_s == b.canvas_width_s
    &&& a.sideways_pan_in_points == b.sideways_pan_in_points
    &&& a.cull_width == b.cull_width
    &&& a.min_width == b.min_width
    &&& a.rect_height == b.rect_height
    &&& a.spacing == b.spacing
    &&& a.rounding == b.rounding
    &&& a.aggregate_by == b.aggregate_by
    &&& a.job_color == b.job_color
    &&& a.see_all_res == b.see_all_res
    &&& a.previous_hovered_job == b.previous_hovered_job
    &&& a.squash_resources == b.squash_resources
    &&& a.compact_rows == b.compact_rows
}

/// Painting jobs leaves alone what the layout reads of the options.
pub proof fn lemma_paint_jobs_same_layout(
    st: PaintState,
    info: Info,
    input: Input,
    jobs: Seq<Job>,
    list: Seq<usize>,
    upto: int,
    top_y: i64,
    advance: int,
    state: ResourceState,
    aggregation_height: u32,
    label: Option<RowLabel>,
)
    ensures
        same_layout(
            st.options,
            spec_paint_jobs(
                st,
                info,
                input,
                jobs,
                list,
                upto,
                top_y,
                advance,
                state,
                aggregation_height,
                label,
            ).options,
        ),
    decreases upto,
{
    if upto > 0 {
        lemma_paint_jobs_same_layout(
            st,
            info,
            input,
            jobs,
            list,
            upto - 1,
            top_y,
            advance,
            state,
            aggregation_height,
            label,
        );
    }
}

/// Height of a row of jobs.
fn exec_row_advance(info: &Info, options: &Options) -> (advance: i64)
    ensures
        advance == row_advance(*info, *options),
        0 <= advance <= 0x2_0000_0000,
{
    (if options.rect_height >= info.text_height {
        options.rect_height as i64
    } else {
        info.text_height as i64
    }) + options.spacing as i64
}

/// Space around the groups of the first level.
fn exec_spacing_level_1(info: &Info, options: &Options) -> (spacing: i64)
    ensures
        spacing == spacing_level_1(*info, *options),
        0 <= spacing <= 0x1_0000_0000,
{
    if options.compact_rows {
        0
    } else {
        (info.font_size / 4) as i64
    }
}

/// Space between the separator of a first-level group and its header.
fn exec_offset_level_1(options: &Options) -> (offset: i64)
    ensures
        offset == offset_level_1(*options),
        0 <= offset <= 6,
{
    if options.compact_rows {
        0
    } else {
        6
    }
}

/// Height of the header of a first-level group.
fn exec_header_height_level_1(info: &Info, options: &Options) -> (height: u32)
    ensures
        height == header_height_level_1(*info, *options),
{
    let height: u64 = info.font_size as u64 + 5 + (if options.compact_rows {
        0
    } else {
        6
    });
    if height > u32::MAX as u64 {
        u32::MAX
    } else {
        height as u32
    }
}

/// Paints the jobs of `list`, the first in the row that starts at `top_y`
/// and each following one `advance` further down.
pub fn paint_jobs(
    info: &Info,
    input: &Input,
    options: &mut Options,
    jobs: &[Job],
    list: &Vec<usize>,
    top_y: i64,
    advance: i64,
    details: &mut Vec<u32>,
    commands: &mut Vec<PaintCommand>,
    state: ResourceState,
    aggregation_height: u32,
    label: Option<RowLabel>,
)
    requires
        old(options).canvas_width_s > 0,
        advance >= 0,
        forall|k: int| 0 <= k < list@.len() ==> (#[trigger] list@[k]) < jobs@.len(),
    ensures
        (PaintState { options: *final(options), details: final(details)@, commands: final(commands)@ })
            == spec_paint_jobs(
            PaintState { options: *old(options), details: old(details)@, commands: old(commands)@ },
            *info,
            *input,
            jobs@,
            list@,
            list@.len() as int,
            top_y,
            advance as int,
            state,
            aggregation_height,
            label,
        ),
        same_layout(*old(options), *final(options)),
{
    let ghost start = PaintState { options: *options, details: details@, commands: commands@ };
    let mut k: usize = 0;
    let mut y: i64 = top_y;
    while k < list.len()
        invariant
            k <= list.len(),
            advance >= 0,
            options.canvas_width_s > 0,
            forall|i: int| 0 <= i < list@.len() ==> (#[trigger] list@[i]) < jobs@.len(),
            y == clamp_i64(top_y + k * advance),
            (PaintState { options: *options, details: details@, commands: commands@ })
                == spec_paint_jobs(
                start,
                *info,
                *input,
                jobs@,
                list@,
                k as int,
                top_y,
                advance as int,
                state,
                aggregation_height,
                label,
            ),
        decreases list.len() - k,
    {
        let index = list[k];
        paint_job(
            info,
            input,
            options,
            &jobs[index],
            index,
            y,
            details,
            commands,
            state,
            aggregation_height,
            label,
        );
        proof {
            assert(k * advance >= 0) by (nonlinear_arith)
                requires
                    k >= 0,
                    advance >= 0,
            ;
            assert((k + 1) * advance == k * advance + advance) by (nonlinear_arith);
            lemma_clamp_add_twice(top_y as int, k * advance, advance as int);
        }
        y = sat_add(y, advance);
        k = k + 1;
    }
    proof {
        lemma_paint_jobs_same_layout(
            start,
            *info,
            *input,
            jobs@,
            list@,
            list@.len() as int,
            top_y,
            advance as int,
            state,
            aggregation_height,
            label,
        );
    }
}

/// State of the resource that the rows of a first-level group stand for.
fn row_state_of_level_1(axis: AggregateByLevel1Enum, topology: &[Cluster], key: &str) -> (state:
    ResourceState)
    ensures
        state == row_state_level_1(axis, topology@, key@),
{
    match axis {
        AggregateByLevel1Enum::Owner => ResourceState::Alive,
        AggregateByLevel1Enum::Host => get_host_state_from_name(topology, key),
        AggregateByLevel1Enum::Cluster => get_cluster_state_from_name(topology, key),
    }
}

/// The row that the hatching of a first-level group names.
fn row_label_of_level_1(axis: AggregateByLevel1Enum, group: usize, key: &str) -> (label: Option<
    RowLabel,
>)
    ensures
        label == row_label_level_1(axis, group, key@),
{
    if axis != AggregateByLevel1Enum::Owner && !is_blank(key) {
        Some(RowLabel::Level1(group))
    } else {
        None
    }
}

/// Lays out the first-level group `entry`, which stands at `group` among the
/// groups, from the cursor `cursor` down, and returns the cursor below it.
pub fn paint_level_1_group(
    info: &Info,
    input: &Input,
    options: &mut Options,
    jobs: &[Job],
    group: usize,
    entry: &JobGroup,
    cursor: i64,
    details: &mut Vec<u32>,
    commands: &mut Vec<PaintCommand>,
    deferred: &mut Vec<PaintCommand>,
    topology: &[Cluster],
    axis: AggregateByLevel1Enum,
) -> (next: i64)
    requires
        old(options).canvas_width_s > 0,
        forall|k: int| 0 <= k < entry.jobs@.len() ==> (#[trigger] entry.jobs@[k]) < jobs@.len(),
    ensures
        (LayoutState {
            paint: PaintState {
                options: *final(options),
                details: final(details)@,
                commands: final(commands)@,
            },
            cursor: next,
            deferred: final(deferred)@,
        }) == spec_level_1_group(
            LayoutState {
                paint: PaintState {
                    options: *old(options),
                    details: old(details)@,
                    commands: old(commands)@,
                },
                cursor: cursor,
                deferred: old(deferred)@,
            },
            group,
            entry.key@,
            entry.jobs@,
            jobs@,
            *info,
            *input,
            topology@,
            axis,
        ),
        same_layout(*old(options), *final(options)),
{
    let offset = exec_offset_level_1(options);
    let spacing = exec_spacing_level_1(info, options);
    let advance = exec_row_advance(info, options);
    let squash = options.squash_resources;
    let header = PaintCommand::Header {
        level: 1,
        row: RowLabel::Level1(group),
        pos: Pos {
            x: sat_add(info.canvas.min_x, 6),
            y: sat_add(sat_add(cursor, offset), (info.text_height / 2) as i64),
        },
    };
    commands.push(PaintCommand::Separator { level: 1, y: cursor });
    if squash {
        deferred.push(header);
    } else {
        commands.push(header);
    }
    let top_y = sat_add(cursor, offset + spacing);
    let state = row_state_of_level_1(axis, topology, entry.key.as_str());
    let label = row_label_of_level_1(axis, group, entry.key.as_str());
    let height = exec_header_height_level_1(info, options);
    paint_jobs(
        info,
        input,
        options,
        jobs,
        &entry.jobs,
        top_y,
        if squash {
            0
        } else {
            advance
        },
        details,
        commands,
        state,
        height,
        label,
    );
    let count = entry.jobs.len();
    let rows: i128 = if !squash {
        count as i128
    } else if count > 0 {
        1
    } else {
        0
    };
    assert(0 <= rows * advance <= 0x2_0000_0000 * 0x1_0000_0000_0000_0000) by (nonlinear_arith)
        requires
            0 <= rows <= 0x1_0000_0000_0000_0000,
            0 <= advance <= 0x2_0000_0000,
    ;
    let extent: i128 = offset as i128 + spacing as i128 + rows * (advance as i128) + (if squash {
        0
    } else {
        2 * spacing as i128
    });
    crate::geometry::clamp_to_i64(cursor as i128 + extent)
}

/// How far the first `upto` first-level groups move the cursor down.
pub open spec fn level_1_extent(info: Info, options: Options, groups: Seq<GroupView>, upto: int) -> int
    decreases upto,
{
    if upto <= 0 {
        0
    } else {
        level_1_extent(info, options, groups, upto - 1) + group_extent_level_1(
            info,
            options,
            groups[upto - 1].jobs.len() as int,
        )
    }
}

/// A first-level group does not move the cursor up.
pub proof fn lemma_group_extent_level_1(info: Info, options: Options, count: int)
    requires
        count >= 0,
    ensures
        group_extent_level_1(info, options, count) >= 0,
{
    assert(rows_taken(options, count) * row_advance(info, options) >= 0) by (nonlinear_arith)
        requires
            rows_taken(options, count) >= 0,
            row_advance(info, options) >= 0,
    ;
}

/// Cursor of the first level. After the first `upto` groups the cursor
/// stands below its start by the extents of those groups, and what the layout
/// reads of the options is as it was.
pub proof fn lemma_level_1_groups_cursor(
    ls: LayoutState,
    groups: Seq<GroupView>,
    upto: int,
    jobs: Seq<Job>,
    info: Info,
    input: Input,
    topology: Seq<Cluster>,
    axis: AggregateByLevel1Enum,
)
    requires
        0 <= upto <= groups.len(),
    ensures
        ({
            let done = spec_level_1_groups(ls, groups, upto, jobs, info, input, topology, axis);
            &&& same_layout(ls.paint.options, done.paint.options)
            &&& level_1_extent(info, ls.paint.options, groups, upto) >= 0
            &&& done.cursor == clamp_i64(
                ls.cursor + level_1_extent(info, ls.paint.options, groups, upto),
            )
        }),
    decreases upto,
{
    if upto > 0 {
        lemma_level_1_groups_cursor(ls, groups, upto - 1, jobs, info, input, topology, axis);
        let prev = spec_level_1_groups(ls, groups, upto - 1, jobs, info, input, topology, axis);
        let options = prev.paint.options;
        let list = groups[upto - 1].jobs;
        let header = header_level_1(info, options, (upto - 1) as usize, prev.cursor);
        let separator = PaintCommand::Separator { level: 1, y: prev.cursor };
        let opened = PaintState {
            commands: if options.squash_resources {
                prev.paint.commands.push(separator)
            } else {
                prev.paint.commands.push(separator).push(header)
            },
            ..prev.paint
        };
        lemma_paint_jobs_same_layout(
            opened,
            info,
            input,
            jobs,
            list,
            list.len() as int,
            clamp_i64(
                prev.cursor + offset_level_1(options) + spacing_level_1(info, options),
            ) as i64,
            if options.squash_resources {
                0
            } else {
                row_advance(info, options)
            },
            row_state_level_1(axis, topology, groups[upto - 1].key),
            header_height_level_1(info, options),
            row_label_level_1(axis, (upto - 1) as usize, groups[upto - 1].key),
        );
        lemma_group_extent_level_1(info, ls.paint.options, list.len() as int);
        assert(group_extent_level_1(info, options, list.len() as int) == group_extent_level_1(
            info,
            ls.paint.options,
            list.len() as int,
        ));
        lemma_clamp_add_twice(
            ls.cursor as int,
            level_1_extent(info, ls.paint.options, groups, upto - 1),
            group_extent_level_1(info, ls.paint.options, list.len() as int),
        );
    }
}

/// Monotonic cursor of the first level. The cursor stands no higher after
/// one more group than before it.
pub proof fn lemma_level_1_cursor_monotonic(
    ls: LayoutState,
    groups: Seq<GroupView>,
    upto: int,
    jobs: Seq<Job>,
    info: Info,
    input: Input,
    topology: Seq<Cluster>,
    axis: AggregateByLevel1Enum,
)
    requires
        0 <= upto < groups.len(),
    ensures
        spec_level_1_groups(ls, groups, upto, jobs, info, input, topology, axis).cursor
            <= spec_level_1_groups(ls, groups, upto + 1, jobs, info, input, topology, axis).cursor,
        ls.cursor <= spec_level_1_groups(ls, groups, upto, jobs, info, input, topology, axis).cursor,
{
    lemma_level_1_groups_cursor(ls, groups, upto, jobs, info, input, topology, axis);
    lemma_level_1_groups_cursor(ls, groups, upto + 1, jobs, info, input, topology, axis);
    lemma_group_extent_level_1(info, ls.paint.options, groups[upto].jobs.len() as int);
}

/// Lays out the groups of one level from the cursor `cursor_y` down and
/// returns the cursor below the last of them.
///
/// Each group gets a separator, a header and its jobs: each job in a row of
/// its own, or all of them in one row where rows are squashed. With squashed
/// rows the headers are painted last, over the bars. The cursor never moves
/// up: it ends below its start by the space above the first group and the
/// extents of the groups.
pub fn paint_aggregated_jobs_level_1(
    info: &Info,
    input: &Input,
    options: &mut Options,
    jobs: &[Job],
    groups: &Vec<JobGroup>,
    cursor_y: i64,
    details: &mut Vec<u32>,
    commands: &mut Vec<PaintCommand>,
    topology: &[Cluster],
    aggregate_by: AggregateByLevel1Enum,
) -> (cursor: i64)
    requires
        old(options).canvas_width_s > 0,
        indexes_within(groups_view(groups@), jobs@.len() as int),
    ensures
        (LayoutState {
            paint: PaintState {
                options: *final(options),
                details: final(details)@,
                commands: final(commands)@,
            },
            cursor: cursor,
            deferred: Seq::empty(),
        }) == spec_level_1(
            PaintState { options: *old(options), details: old(details)@, commands: old(commands)@ },
            cursor_y,
            groups_view(groups@),
            jobs@,
            *info,
            *input,
            topology@,
            aggregate_by,
        ),
        same_layout(*old(options), *final(options)),
        cursor >= cursor_y,
        cursor == clamp_i64(
            cursor_y + spacing_level_1(*info, *old(options)) + level_1_extent(
                *info,
                *old(options),
                groups_view(groups@),
                groups@.len() as int,
            ),
        ),
{
    let ghost views = groups_view(groups@);
    let spacing = exec_spacing_level_1(info, options);
    let mut cursor = sat_add(cursor_y, spacing);
    let mut deferred: Vec<PaintCommand> = Vec::new();
    let ghost start = LayoutState {
        paint: PaintState { options: *options, details: details@, commands: commands@ },
        cursor: cursor,
        deferred: Seq::empty(),
    };
    let mut g: usize = 0;
    while g < groups.len()
        invariant
            g <= groups.len(),
            views == groups_view(groups@),
            indexes_within(views, jobs@.len() as int),
            options.canvas_width_s > 0,
            (LayoutState {
                paint: PaintState { options: *options, details: details@, commands: commands@ },
                cursor: cursor,
                deferred: deferred@,
            }) == spec_level_1_groups(
                start,
                views,
                g as int,
                jobs@,
                *info,
                *input,
                topology@,
                aggregate_by,
            ),
        decreases groups.len() - g,
    {
        proof {
            assert(views[g as int].jobs == groups@[g as int].jobs@);
            assert forall|k: int| 0 <= k < groups@[g as int].jobs@.len() implies (
            #[trigger] groups@[g as int].jobs@[k]) < jobs@.len() by {
                assert(views[g as int].jobs[k] < jobs@.len());
            }
        }
        cursor =
        paint_level_1_group(
            info,
            input,
            options,
            jobs,
            g,
            &groups[g],
            cursor,
            details,
            commands,
            &mut deferred,
            topology,
            aggregate_by,
        );
        g = g + 1;
    }
    proof {
        lemma_level_1_groups_cursor(
            start,
            views,
            views.len() as int,
            jobs@,
            *info,
            *input,
            topology@,
            aggregate_by,
        );
        lemma_clamp_add_twice(
            cursor_y as int,
            spacing as int,
            level_1_extent(*info, start.paint.options, views, views.len() as int),
        );
    }
    commands.append(&mut deferred);
    cursor
}

} // verus!
